//! Configuration data: the daemon's settings and the persisted
//! application-to-sink mappings.  Reading and writing the files is the
//! caller's; the values, defaults and update rules live here.
use vstd::prelude::*;
use vstd::string::StrSliceExecFns;
use vstd::string::StringExecFns;

verus! {

/// The daemon's settings.
#[derive(Debug, Clone)]
pub struct Config {
    pub cache: CacheConfig,
    pub routing: RoutingConfig,
    pub performance: PerformanceConfig,
    pub virtual_sinks: Vec<VirtualSink>,
}

#[derive(Debug, Clone)]
pub struct CacheConfig {
    pub update_interval_ms: u64,
    pub max_remembered_apps: usize,
}

/// Routing settings; the startup rules are name-to-sink pairs.
#[derive(Debug, Clone)]
pub struct RoutingConfig {
    pub enable_auto_routing: bool,
    pub default_sink: String,
    pub rules: Vec<(String, String)>,
}

#[derive(Debug, Clone)]
pub struct PerformanceConfig {
    pub event_debounce_ms: u64,
    pub max_events_per_second: u32,
}

/// One virtual mixing sink the daemon watches for.
#[derive(Debug, Clone)]
pub struct VirtualSink {
    pub name: String,
    pub display_name: String,
    pub icon: String,
}

impl Default for Config {
    fn default() -> (r: Self)
        ensures
            r.cache.update_interval_ms == 100,
            r.cache.max_remembered_apps == 50,
            r.routing.enable_auto_routing == true,
            r.routing.default_sink@ == "Game"@,
            r.routing.rules@.len() == 0,
            r.performance.event_debounce_ms == 50,
            r.performance.max_events_per_second == 100,
            r.virtual_sinks@.len() == 3,
            r.virtual_sinks@[0].name@ == "Game"@ && r.virtual_sinks@[0].display_name@ == "Game"@,
            r.virtual_sinks@[1].name@ == "Chat"@ && r.virtual_sinks@[1].display_name@ == "Chat"@,
            r.virtual_sinks@[2].name@ == "Media"@ && r.virtual_sinks@[2].display_name@
                == "Media"@,
            r.virtual_sinks@[0].icon@ == "applications-games-symbolic"@,
            r.virtual_sinks@[1].icon@ == "user-available-symbolic"@,
            r.virtual_sinks@[2].icon@ == "applications-multimedia-symbolic"@,
    {
        let mut virtual_sinks: Vec<VirtualSink> = Vec::new();
        virtual_sinks.push(
            VirtualSink {
                name: String::from_str("Game"),
                display_name: String::from_str("Game"),
                icon: String::from_str("applications-games-symbolic"),
            },
        );
        virtual_sinks.push(
            VirtualSink {
                name: String::from_str("Chat"),
                display_name: String::from_str("Chat"),
                icon: String::from_str("user-available-symbolic"),
            },
        );
        virtual_sinks.push(
            VirtualSink {
                name: String::from_str("Media"),
                display_name: String::from_str("Media"),
                icon: String::from_str("applications-multimedia-symbolic"),
            },
        );
        Config {
            cache: CacheConfig { update_interval_ms: 100, max_remembered_apps: 50 },
            routing: RoutingConfig {
                enable_auto_routing: true,
                default_sink: String::from_str("Game"),
                rules: Vec::new(),
            },
            performance: PerformanceConfig { event_debounce_ms: 50, max_events_per_second: 100 },
            virtual_sinks,
        }
    }
}

/// The persisted application-to-sink mappings: insertion-ordered pairs
/// with unique keys, plus a version stamp bumped on every update.
#[derive(Debug, Clone)]
pub struct AppMappings {
    pub mappings: Vec<(String, String)>,
    pub version: u32,
}

/// The map a run of name/sink pairs denotes (later pairs win).
pub open spec fn pairs_to_map(s: Seq<(String, String)>) -> Map<Seq<char>, Seq<char>>
    decreases s.len(),
{
    if s.len() == 0 {
        Map::empty()
    } else {
        pairs_to_map(s.drop_last()).insert(s.last().0@, s.last().1@)
    }
}

/// Keys are unique.
pub open spec fn pairs_unique(s: Seq<(String, String)>) -> bool {
    forall|i: int, j: int| 0 <= i < j < s.len() ==> (#[trigger] s[i]).0@ != (#[trigger] s[j]).0@
}

/// With unique keys, the denoted map holds exactly the pairs.
pub proof fn lemma_pairs_to_map(s: Seq<(String, String)>)
    requires
        pairs_unique(s),
    ensures
        forall|i: int|
            0 <= i < s.len() ==> pairs_to_map(s).contains_pair(
                (#[trigger] s[i]).0@,
                s[i].1@,
            ),
        forall|k: Seq<char>| #[trigger]
            pairs_to_map(s).dom().contains(k) ==> exists|i: int|
                0 <= i < s.len() && (#[trigger] s[i]).0@ == k,
    decreases s.len(),
{
    if s.len() > 0 {
        assert(pairs_unique(s.drop_last()));
        lemma_pairs_to_map(s.drop_last());
        assert(forall|i: int| 0 <= i < s.len() - 1 ==> s.drop_last()[i] == s[i]);
        assert forall|k: Seq<char>| #[trigger]
            pairs_to_map(s).dom().contains(k) implies exists|i: int|
            0 <= i < s.len() && (#[trigger] s[i]).0@ == k by {
            if k == s.last().0@ {
                assert(s[s.len() - 1].0@ == k);
            } else {
                assert(pairs_to_map(s.drop_last()).dom().contains(k));
                let i = choose|i: int|
                    0 <= i < s.drop_last().len() && (#[trigger] s.drop_last()[i]).0@ == k;
                assert(s[i].0@ == k);
            }
        }
    }
}

impl AppMappings {
    /// Well-formed: no key twice.
    pub open spec fn wf(self) -> bool {
        pairs_unique(self.mappings@)
    }

    /// The mappings as a map.
    pub open spec fn map_view(self) -> Map<Seq<char>, Seq<char>> {
        pairs_to_map(self.mappings@)
    }

    /// An empty mapping set.
    pub fn new() -> (r: Self)
        ensures
            r.wf(),
            r.map_view() =~= Map::<Seq<char>, Seq<char>>::empty(),
            r.version == 0,
    {
        AppMappings { mappings: Vec::new(), version: 0 }
    }

    /// The mappings file under a configuration directory.
    pub fn config_file(config_dir: &str) -> (r: String)
        ensures
            r@ == config_dir@ + "/app-mappings.toml"@,
    {
        config_dir.to_owned().concat("/app-mappings.toml")
    }

    /// The sink an application is mapped to.
    pub fn get(&self, app_name: &str) -> (r: Option<&String>)
        requires
            self.wf(),
        ensures
            match r {
                Some(v) => self.map_view().contains_pair(app_name@, v@),
                None => !self.map_view().dom().contains(app_name@),
            },
    {
        proof {
            lemma_pairs_to_map(self.mappings@);
        }
        let mut i: usize = 0;
        while i < self.mappings.len()
            invariant
                i <= self.mappings@.len(),
                pairs_unique(self.mappings@),
                forall|j: int| 0 <= j < i ==> (#[trigger] self.mappings@[j]).0@ != app_name@,
            decreases self.mappings@.len() - i,
        {
            if str_eq(self.mappings[i].0.as_str(), app_name) {
                proof {
                    lemma_pairs_to_map(self.mappings@);
                }
                return Some(&self.mappings[i].1);
            }
            i = i + 1;
        }
        proof {
            lemma_pairs_to_map(self.mappings@);
            if self.map_view().dom().contains(app_name@) {
                let j = choose|j: int|
                    0 <= j < self.mappings@.len() && (#[trigger] self.mappings@[j]).0@
                        == app_name@;
                assert(false);
            }
        }
        None
    }

    /// Records (or replaces) a mapping and bumps the version stamp; the
    /// caller persists the updated set afterwards.  The new pair goes to
    /// the end; pairs for other keys keep their order.
    pub fn update_and_save(&mut self, app_name: String, sink_name: String)
        requires
            old(self).wf(),
        ensures
            final(self).wf(),
            final(self).mappings@.len() > 0,
            final(self).mappings@.last().0@ == app_name@,
            final(self).mappings@.last().1@ == sink_name@,
            final(self).mappings@.drop_last() == old(self).mappings@.filter(
                (|p: (String, String)| p.0@ != app_name@),
            ),
            final(self).version == if old(self).version < u32::MAX {
                (old(self).version + 1) as u32
            } else {
                old(self).version
            },
    {
        let mut kept: Vec<(String, String)> = Vec::new();
        let mut i: usize = 0;
        while i < self.mappings.len()
            invariant
                i <= self.mappings@.len(),
                pairs_unique(self.mappings@),
                kept@ == self.mappings@.take(i as int).filter(
                    (|p: (String, String)| p.0@ != app_name@),
                ),
                forall|j: int| 0 <= j < kept@.len() ==> (#[trigger] kept@[j]).0@ != app_name@,
                forall|j: int|
                    0 <= j < kept@.len() ==> exists|l: int|
                        0 <= l < i && self.mappings@[l] == #[trigger] kept@[j],
                pairs_unique(kept@),
            decreases self.mappings@.len() - i,
        {
            proof {
                reveal(Seq::filter);
                assert(self.mappings@.take(i as int + 1).drop_last() =~= self.mappings@.take(
                    i as int,
                ));
            }
            if !str_eq(self.mappings[i].0.as_str(), app_name.as_str()) {
                let pair = (
                    self.mappings[i].0.clone(),
                    self.mappings[i].1.clone(),
                );
                proof {
                    assert(pair == self.mappings@[i as int]);
                }
                kept.push(pair);
                proof {
                    assert forall|j1: int, j2: int| 0 <= j1 < j2 < kept@.len() implies (
                    #[trigger] kept@[j1]).0@ != (#[trigger] kept@[j2]).0@ by {
                        if j2 == kept@.len() - 1 {
                            let l = choose|l: int|
                                0 <= l < i && self.mappings@[l] == #[trigger] kept@[j1];
                            assert(self.mappings@[i as int].0@ != self.mappings@[l].0@);
                        }
                    }
                }
            }
            i = i + 1;
        }
        proof {
            assert(self.mappings@.take(self.mappings@.len() as int) =~= self.mappings@);
        }
        let mut kept = kept;
        kept.push((app_name, sink_name));
        proof {
            assert(kept@.drop_last() =~= kept@.take(kept@.len() - 1));
            assert forall|j1: int, j2: int| 0 <= j1 < j2 < kept@.len() implies (
            #[trigger] kept@[j1]).0@ != (#[trigger] kept@[j2]).0@ by {}
        }
        self.mappings = kept;
        if self.version < u32::MAX {
            self.version = self.version + 1;
        }
    }

    /// Drops the oldest mappings so at most `max_entries` remain.
    pub fn cleanup(&mut self, max_entries: usize)
        requires
            old(self).wf(),
        ensures
            final(self).wf(),
            final(self).mappings@ == if old(self).mappings@.len() > max_entries {
                old(self).mappings@.skip(old(self).mappings@.len() - max_entries as int)
            } else {
                old(self).mappings@
            },
            final(self).version == old(self).version,
    {
        if self.mappings.len() > max_entries {
            let excess = self.mappings.len() - max_entries;
            let mut kept: Vec<(String, String)> = Vec::new();
            let mut i: usize = excess;
            while i < self.mappings.len()
                invariant
                    excess <= i <= self.mappings@.len(),
                    pairs_unique(self.mappings@),
                    kept@ =~= self.mappings@.subrange(excess as int, i as int),
                decreases self.mappings@.len() - i,
            {
                let pair = (
                    self.mappings[i].0.clone(),
                    self.mappings[i].1.clone(),
                );
                proof {
                    assert(pair == self.mappings@[i as int]);
                }
                kept.push(pair);
                i = i + 1;
            }
            proof {
                assert(kept@ =~= self.mappings@.skip(excess as int));
            }
            self.mappings = kept;
        }
    }
}

/// Whether two strings are equal (by their character sequences).
fn str_eq(a: &str, b: &str) -> (r: bool)
    ensures
        r == (a@ == b@),
{
    let an = a.unicode_len();
    let bn = b.unicode_len();
    if an != bn {
        return false;
    }
    let mut i: usize = 0;
    while i < an
        invariant
            a@.len() == an && b@.len() == bn && an == bn,
            i <= an,
            forall|j: int| 0 <= j < i ==> a@[j] == b@[j],
        decreases an - i,
    {
        if a.get_char(i) != b.get_char(i) {
            return false;
        }
        i = i + 1;
    }
    proof {
        assert(a@ =~= b@);
    }
    true
}

} // verus!
