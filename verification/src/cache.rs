//! The concurrent state cache: buses (sinks), applications, routing rules,
//! remembered assignments, and the monotonic generation counter.
use vstd::prelude::*;

use crate::concurrent_map::{
    apps_entries, apps_get, apps_insert, apps_model, apps_new, apps_remove, names_contains,
    names_get, names_insert, names_model, names_new, names_remove, sinks_contains, sinks_entries,
    sinks_get, sinks_insert, sinks_model, sinks_new,
};
use dashmap::DashMap;

verus! {

/// A virtual mixing bus as the backend exposes it.  The volume is carried
/// as the raw little-endian bit pattern of the backend's normalized volume
/// value; the library never interprets it, it only stores and republishes it.
#[derive(Debug, Clone)]
pub struct SinkInfo {
    pub id: u32,
    pub name: String,
    pub volume: u32,
    pub muted: bool,
}

impl SinkInfo {
    /// Mathematical model of a sink entry: (id, name, volume, muted).
    pub open spec fn model(self) -> (u32, Seq<char>, u32, bool) {
        (self.id, self.name@, self.volume, self.muted)
    }
}

/// An application streaming through some bus.  `inactive_since` holds the
/// wall-clock instant (milliseconds) at which the stream set became empty,
/// and is `None` while the application is active.
#[derive(Debug, Clone)]
pub struct AppInfo {
    pub display_name: String,
    pub binary_name: String,
    pub current_sink: String,
    pub active: bool,
    pub sink_input_ids: Vec<u32>,
    pub inactive_since: Option<u64>,
}

impl AppInfo {
    /// Mathematical model of an application entry:
    /// (display name, binary name, current sink, active, stream ids, inactive since).
    pub open spec fn model(self) -> (Seq<char>, Seq<char>, Seq<char>, bool, Seq<u32>, Option<u64>) {
        (
            self.display_name@,
            self.binary_name@,
            self.current_sink@,
            self.active,
            self.sink_input_ids@,
            self.inactive_since,
        )
    }
}

/// Model of an application entry, as the application maps carry it.
pub type AppModel = (Seq<char>, Seq<char>, Seq<char>, bool, Seq<u32>, Option<u64>);

/// Model of a sink entry, as the sink maps carry it.
pub type SinkModel = (u32, Seq<char>, u32, bool);

/// The generation counter after one more mutation: it grows by one until
/// it reaches the top of its range, where it stays.
pub open spec fn next_generation(g: u64) -> u64 {
    if g < u64::MAX {
        (g + 1) as u64
    } else {
        g
    }
}

/// Law: every applied mutation moves the generation counter strictly
/// upward, by exactly one, anywhere below the top of its range.
pub proof fn lemma_generation_strictly_increases(g: u64)
    requires
        g < u64::MAX,
    ensures
        next_generation(g) == g + 1,
        next_generation(g) > g,
{
}

/// Whether an application entry is due for eviction: inactive, not covered
/// by a standing routing rule, and inactive for longer than the TTL.
pub open spec fn app_expired(
    key: Seq<char>,
    app: AppModel,
    rules: Map<Seq<char>, Seq<char>>,
    ttl_seconds: u64,
    now_ms: u64,
) -> bool {
    &&& !app.3
    &&& !rules.dom().contains(key)
    &&& match app.5 {
        Some(t) => (now_ms as int) - (t as int) > (ttl_seconds as int) * 1000,
        None => false,
    }
}

/// A consistent point-in-time copy of the cache: the generation and every
/// sink and application entry, each exactly once, in no promised order.
#[derive(Debug, Clone)]
pub struct CacheSnapshot {
    pub generation: u64,
    pub sinks: Vec<(String, SinkInfo)>,
    pub apps: Vec<(String, AppInfo)>,
}

/// The cache itself: generation counter plus four concurrent maps.  The
/// maps allow per-entry concurrent access in deployment; the verified
/// interface mutates them through exclusive references, and every mutation
/// of sinks or applications raises the generation exactly once.
#[derive(Debug)]
pub struct AudioCache {
    pub generation: u64,
    pub sinks: DashMap<String, SinkInfo>,
    pub apps: DashMap<String, AppInfo>,
    pub routing_rules: DashMap<String, String>,
    pub remembered_apps: DashMap<String, String>,
}

impl AudioCache {
    /// The generation counter.
    pub open spec fn spec_generation(self) -> u64 {
        self.generation
    }

    /// The sinks by name.
    pub open spec fn sinks_view(self) -> Map<Seq<char>, SinkModel> {
        sinks_model(self.sinks)
    }

    /// The applications by display name.
    pub open spec fn apps_view(self) -> Map<Seq<char>, AppModel> {
        apps_model(self.apps)
    }

    /// The routing rules: application name to desired sink name.
    pub open spec fn rules_view(self) -> Map<Seq<char>, Seq<char>> {
        names_model(self.routing_rules)
    }

    /// The remembered assignments: application name to the sink it was
    /// last actually observed on.
    pub open spec fn remembered_view(self) -> Map<Seq<char>, Seq<char>> {
        names_model(self.remembered_apps)
    }

    pub fn new() -> (r: Self)
        ensures
            r.spec_generation() == 0,
            r.sinks_view() =~= Map::<Seq<char>, SinkModel>::empty(),
            r.apps_view() =~= Map::<Seq<char>, AppModel>::empty(),
            r.rules_view() =~= Map::<Seq<char>, Seq<char>>::empty(),
            r.remembered_view() =~= Map::<Seq<char>, Seq<char>>::empty(),
    {
        AudioCache {
            generation: 0,
            sinks: sinks_new(),
            apps: apps_new(),
            routing_rules: names_new(),
            remembered_apps: names_new(),
        }
    }

    /// Raises the generation counter by one (saturating at the top of the
    /// range, which a real run never reaches).
    pub fn increment_generation(&mut self)
        ensures
            final(self).spec_generation() == next_generation(old(self).spec_generation()),
            final(self).sinks_view() == old(self).sinks_view(),
            final(self).apps_view() == old(self).apps_view(),
            final(self).rules_view() == old(self).rules_view(),
            final(self).remembered_view() == old(self).remembered_view(),
    {
        if self.generation < u64::MAX {
            self.generation = self.generation + 1;
        }
    }

    pub fn get_generation(&self) -> (r: u64)
        ensures
            r == self.spec_generation(),
    {
        self.generation
    }

    /// Inserts or replaces a sink entry and raises the generation once.
    pub fn update_sink(&mut self, name: String, info: SinkInfo)
        ensures
            final(self).sinks_view() == old(self).sinks_view().insert(name@, info.model()),
            final(self).spec_generation() == next_generation(old(self).spec_generation()),
            final(self).apps_view() == old(self).apps_view(),
            final(self).rules_view() == old(self).rules_view(),
            final(self).remembered_view() == old(self).remembered_view(),
    {
        sinks_insert(&mut self.sinks, name, info);
        self.increment_generation();
    }

    /// Inserts or replaces an application entry and raises the generation
    /// once.  An active application's current sink is also recorded as its
    /// remembered assignment.
    pub fn update_app(&mut self, name: String, info: AppInfo)
        ensures
            final(self).apps_view() == old(self).apps_view().insert(name@, info.model()),
            final(self).remembered_view() == if info.active {
                old(self).remembered_view().insert(name@, info.current_sink@)
            } else {
                old(self).remembered_view()
            },
            final(self).spec_generation() == next_generation(old(self).spec_generation()),
            final(self).sinks_view() == old(self).sinks_view(),
            final(self).rules_view() == old(self).rules_view(),
    {
        if info.active {
            names_insert(&mut self.remembered_apps, name.clone(), info.current_sink.clone());
        }
        apps_insert(&mut self.apps, name, info);
        self.increment_generation();
    }

    /// A consistent copy of the generation, sinks and applications.
    pub fn get_snapshot(&self) -> (r: CacheSnapshot)
        ensures
            r.generation == self.spec_generation(),
            self.sinks_view().dom() == r.sinks@.map_values(
                |p: (String, SinkInfo)| p.0@,
            ).to_set(),
            forall|i: int|
                0 <= i < r.sinks@.len() ==> self.sinks_view().contains_pair(
                    r.sinks@[i].0@,
                    r.sinks@[i].1.model(),
                ),
            forall|i: int, j: int| 0 <= i < j < r.sinks@.len() ==> r.sinks@[i].0@ != r.sinks@[j].0@,
            self.apps_view().dom() == r.apps@.map_values(|p: (String, AppInfo)| p.0@).to_set(),
            forall|i: int|
                0 <= i < r.apps@.len() ==> self.apps_view().contains_pair(
                    r.apps@[i].0@,
                    r.apps@[i].1.model(),
                ),
            forall|i: int, j: int| 0 <= i < j < r.apps@.len() ==> r.apps@[i].0@ != r.apps@[j].0@,
    {
        CacheSnapshot {
            generation: self.generation,
            sinks: sinks_entries(&self.sinks),
            apps: apps_entries(&self.apps),
        }
    }

    /// Looks up a sink by name.
    pub fn get_sink(&self, name: &String) -> (r: Option<SinkInfo>)
        ensures
            match r {
                Some(v) => self.sinks_view().contains_pair(name@, v.model()),
                None => !self.sinks_view().dom().contains(name@),
            },
    {
        sinks_get(&self.sinks, name)
    }

    /// Whether a sink of this name exists.
    pub fn has_sink(&self, name: &String) -> (r: bool)
        ensures
            r == self.sinks_view().dom().contains(name@),
    {
        sinks_contains(&self.sinks, name)
    }

    /// Looks up an application by display name.
    pub fn get_app(&self, name: &String) -> (r: Option<AppInfo>)
        ensures
            match r {
                Some(v) => self.apps_view().contains_pair(name@, v.model()),
                None => !self.apps_view().dom().contains(name@),
            },
    {
        apps_get(&self.apps, name)
    }

    /// Sets the routing rule for an application.  Rules are intent, not
    /// observed state, so the generation does not move.
    pub fn set_routing_rule(&mut self, app: String, sink: String)
        ensures
            final(self).rules_view() == old(self).rules_view().insert(app@, sink@),
            final(self).spec_generation() == old(self).spec_generation(),
            final(self).sinks_view() == old(self).sinks_view(),
            final(self).apps_view() == old(self).apps_view(),
            final(self).remembered_view() == old(self).remembered_view(),
    {
        names_insert(&mut self.routing_rules, app, sink);
    }

    /// Looks up the routing rule for an application.
    pub fn routing_rule(&self, app: &String) -> (r: Option<String>)
        ensures
            match r {
                Some(v) => self.rules_view().contains_pair(app@, v@),
                None => !self.rules_view().dom().contains(app@),
            },
    {
        names_get(&self.routing_rules, app)
    }

    /// Records the sink an application was actually observed on.
    pub fn remember_app(&mut self, app: String, sink: String)
        ensures
            final(self).remembered_view() == old(self).remembered_view().insert(app@, sink@),
            final(self).spec_generation() == old(self).spec_generation(),
            final(self).sinks_view() == old(self).sinks_view(),
            final(self).apps_view() == old(self).apps_view(),
            final(self).rules_view() == old(self).rules_view(),
    {
        names_insert(&mut self.remembered_apps, app, sink);
    }

    /// Looks up the remembered assignment for an application.
    pub fn remembered_app(&self, app: &String) -> (r: Option<String>)
        ensures
            match r {
                Some(v) => self.remembered_view().contains_pair(app@, v@),
                None => !self.remembered_view().dom().contains(app@),
            },
    {
        names_get(&self.remembered_apps, app)
    }
}

/// The keys among the first `upto` harvested entries that are due for
/// eviction from `apps` under `rules`.
pub open spec fn expired_among(
    entries: Seq<(String, AppInfo)>,
    upto: int,
    apps: Map<Seq<char>, AppModel>,
    rules: Map<Seq<char>, Seq<char>>,
    ttl_seconds: u64,
    now_ms: u64,
) -> Set<Seq<char>> {
    Set::new(
        |k: Seq<char>|
            apps.dom().contains(k) && app_expired(k, apps[k], rules, ttl_seconds, now_ms)
                && exists|j: int| #![trigger entries[j]] 0 <= j < upto && entries[j].0@ == k,
    )
}

/// Whether one application entry is due for eviction; mirrors [`app_expired`].
fn entry_expired(app: &AppInfo, has_rule: bool, ttl_seconds: u64, now_ms: u64) -> (r: bool)
    ensures
        r == (!app.active && !has_rule && match app.inactive_since {
            Some(t) => (now_ms as int) - (t as int) > (ttl_seconds as int) * 1000,
            None => false,
        }),
{
    if app.active || has_rule {
        false
    } else {
        match app.inactive_since {
            Some(t) => now_ms > t && (now_ms - t) as u128 > (ttl_seconds as u128) * 1000,
            None => false,
        }
    }
}

/// What the eviction sweep guarantees: it removes exactly the expired
/// application entries (and their remembered assignments), leaves every
/// other entry untouched, returns the number removed, and raises the
/// generation once if and only if something was removed.
pub open spec fn cleanup_removes_exactly_the_expired(
    pre: AudioCache,
    post: AudioCache,
    ttl_seconds: u64,
    now_ms: u64,
    removed: int,
) -> bool {
    let expired = |k: Seq<char>|
        pre.apps_view().dom().contains(k) && app_expired(
            k,
            pre.apps_view()[k],
            pre.rules_view(),
            ttl_seconds,
            now_ms,
        );
    &&& forall|k: Seq<char>|
        #![trigger post.apps_view().dom().contains(k)]
        #![trigger post.apps_view().contains_pair(k, pre.apps_view()[k])]
        pre.apps_view().dom().contains(k) ==> if expired(k) {
            !post.apps_view().dom().contains(k)
        } else {
            post.apps_view().contains_pair(k, pre.apps_view()[k])
        }
    &&& forall|k: Seq<char>| #[trigger]
        post.apps_view().dom().contains(k) ==> pre.apps_view().contains_pair(
            k,
            post.apps_view()[k],
        )
    &&& forall|k: Seq<char>|
        #![trigger post.remembered_view().dom().contains(k)]
        #![trigger post.remembered_view().contains_pair(k, pre.remembered_view()[k])]
        pre.remembered_view().dom().contains(k) ==> if expired(k) {
            !post.remembered_view().dom().contains(k)
        } else {
            post.remembered_view().contains_pair(k, pre.remembered_view()[k])
        }
    &&& forall|k: Seq<char>| #[trigger]
        post.remembered_view().dom().contains(k) ==> pre.remembered_view().dom().contains(k)
    &&& removed == pre.apps_view().dom().len() - post.apps_view().dom().len()
    &&& post.spec_generation() == if removed > 0 {
        next_generation(pre.spec_generation())
    } else {
        pre.spec_generation()
    }
    &&& post.sinks_view() == pre.sinks_view()
    &&& post.rules_view() == pre.rules_view()
}

impl AudioCache {
    /// Removes every application that has been inactive for longer than
    /// `ttl_seconds` and has no standing routing rule, together with its
    /// remembered assignment, and raises the generation once if and only if
    /// anything was removed.  Returns how many applications were removed.
    pub fn cleanup_inactive_apps(&mut self, ttl_seconds: u64, now_ms: u64) -> (removed: usize)
        ensures
            cleanup_removes_exactly_the_expired(
                *old(self),
                *final(self),
                ttl_seconds,
                now_ms,
                removed as int,
            ),
    {
        let ghost m0 = apps_model(self.apps);
        let ghost r0 = names_model(self.remembered_apps);
        let ghost rules0 = names_model(self.routing_rules);
        let entries = apps_entries(&self.apps);
        proof {
            entries@.map_values(|p: (String, AppInfo)| p.0@).unique_seq_to_set();
        }
        let mut removed: usize = 0;
        let mut idx: usize = 0;
        while idx < entries.len()
            invariant
                idx <= entries@.len(),
                removed <= idx,
                m0.dom() == entries@.map_values(|p: (String, AppInfo)| p.0@).to_set(),
                m0.dom().finite(),
                m0.dom().len() == entries@.len(),
                forall|i: int|
                    0 <= i < entries@.len() ==> m0.contains_pair(
                        entries@[i].0@,
                        entries@[i].1.model(),
                    ),
                forall|i: int, j: int|
                    0 <= i < j < entries@.len() ==> entries@[i].0@ != entries@[j].0@,
                apps_model(self.apps) == m0.remove_keys(
                    expired_among(entries@, idx as int, m0, rules0, ttl_seconds, now_ms),
                ),
                names_model(self.remembered_apps) == r0.remove_keys(
                    expired_among(entries@, idx as int, m0, rules0, ttl_seconds, now_ms),
                ),
                apps_model(self.apps).dom().finite(),
                removed as int == m0.dom().len() - apps_model(self.apps).dom().len(),
                names_model(self.routing_rules) == rules0,
                sinks_model(self.sinks) == old(self).sinks_view(),
                self.generation == old(self).spec_generation(),
            decreases entries@.len() - idx,
        {
            let ghost rm_before = expired_among(entries@, idx as int, m0, rules0, ttl_seconds, now_ms);
            let name = &entries[idx].0;
            let app = &entries[idx].1;
            let has_rule = names_contains(&self.routing_rules, name);
            let is_expired = entry_expired(app, has_rule, ttl_seconds, now_ms);
            proof {
                assert(m0.contains_pair(name@, app.model()));
                assert(is_expired == app_expired(name@, m0[name@], rules0, ttl_seconds, now_ms));
            }
            if is_expired {
                proof {
                    // The key has not been removed yet: no earlier entry has it.
                    assert(!rm_before.contains(name@));
                    assert(apps_model(self.apps).dom().contains(name@));
                }
                apps_remove(&mut self.apps, name);
                names_remove(&mut self.remembered_apps, name);
                removed = removed + 1;
                proof {
                    let rm_after = expired_among(
                        entries@,
                        idx as int + 1,
                        m0,
                        rules0,
                        ttl_seconds,
                        now_ms,
                    );
                    assert(rm_after =~= rm_before.insert(name@));
                    assert(apps_model(self.apps) =~= m0.remove_keys(rm_after));
                    assert(names_model(self.remembered_apps) =~= r0.remove_keys(rm_after));
                }
            } else {
                proof {
                    let rm_after = expired_among(
                        entries@,
                        idx as int + 1,
                        m0,
                        rules0,
                        ttl_seconds,
                        now_ms,
                    );
                    assert(rm_after =~= rm_before);
                }
            }
            idx = idx + 1;
        }
        if removed > 0 {
            self.increment_generation();
        }
        proof {
            let rm = expired_among(entries@, entries@.len() as int, m0, rules0, ttl_seconds, now_ms);
            // Every key of the map was handed out as some entry, so every
            // expired key is in the removed set.
            assert forall|k: Seq<char>|
                m0.dom().contains(k) && app_expired(k, m0[k], rules0, ttl_seconds, now_ms) implies rm.contains(
                k,
            ) by {
                let keys = entries@.map_values(|p: (String, AppInfo)| p.0@);
                assert(keys.to_set().contains(k));
                let j = choose|j: int| 0 <= j < keys.len() && keys[j] == k;
                assert(entries@[j].0@ == k);
            }
        }
        removed
    }
}

impl Default for AudioCache {
    fn default() -> (r: Self)
        ensures
            r.spec_generation() == 0,
            r.sinks_view() =~= Map::<Seq<char>, SinkModel>::empty(),
            r.apps_view() =~= Map::<Seq<char>, AppModel>::empty(),
            r.rules_view() =~= Map::<Seq<char>, Seq<char>>::empty(),
            r.remembered_view() =~= Map::<Seq<char>, Seq<char>>::empty(),
    {
        AudioCache::new()
    }
}

} // verus!
