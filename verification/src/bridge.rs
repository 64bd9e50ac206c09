//! The graph-event bridge: typed updates that the backend's callback
//! thread emits, and the single consumer that folds them into the cache in
//! arrival order.  The callbacks themselves never touch the cache; they
//! only classify what they saw and push one of these updates.
use vstd::prelude::*;

use crate::app_name_detector::{capitalize_first_letter, capitalized};
use crate::bytescan::{contains_seq, dec_value, is_dec_u32, match_at, parse_u32_dec};
use crate::cache::{AppInfo, AppModel, AudioCache, SinkInfo, next_generation};
use crate::concurrent_map::{apps_insert, apps_model, names_model, sinks_model};
use vstd::hash_map::HashMapWithView;
use vstd::string::StringSliceAdditionalSpecFns;

verus! {

/// One typed update from the backend thread, applied in arrival order.
#[derive(Debug, Clone)]
pub enum CacheUpdate {
    /// A bus appeared or reported new volume/mute state.
    UpdateSink { name: String, info: SinkInfo },
    /// The stream with this identifier disappeared.
    MarkAppInactive { sink_input_id: u32 },
    /// A stream of this application appeared on this sink.
    AddSinkInputToApp { app_name: String, sink_input_id: u32, current_sink: String },
    /// A stream appeared; if the application has a standing routing rule,
    /// ask for it to be applied.
    CheckRoutingRule { app_name: String, sink_input_id: u32 },
}

/// A move the consumer asks the caller to carry out against the backend:
/// apply a standing routing rule to a freshly attached stream.
#[derive(Debug, Clone)]
pub struct RouteAction {
    pub app_name: String,
    pub sink_input_id: u32,
    pub target_sink: String,
}

/// Relies on str::to_lowercase: the result depends on the characters alone.
pub uninterp spec fn lower_of(s: Seq<char>) -> Seq<char>;

/// Relies on str::to_lowercase: the result depends on the characters alone.
#[verifier::external_body]
fn lowercase(s: &str) -> (r: String)
    ensures
        r@ == lower_of(s@),
{
    s.to_lowercase()
}

/// The application map after a stream attaches: an existing entry gains
/// the identifier (only if absent), becomes active and loses its
/// inactivity timestamp; an absent one is created with this single stream.
pub open spec fn attach_app(
    apps: Map<Seq<char>, AppModel>,
    app: Seq<char>,
    id: u32,
    sink: Seq<char>,
    binary: Seq<char>,
) -> Map<Seq<char>, AppModel> {
    if apps.dom().contains(app) {
        let a = apps[app];
        let ids = if a.4.contains(id) {
            a.4
        } else {
            a.4.push(id)
        };
        apps.insert(app, (a.0, a.1, a.2, true, ids, None))
    } else {
        apps.insert(app, (app, binary, sink, true, seq![id], None))
    }
}

/// A stream-identifier set with one identifier removed.
pub open spec fn remove_id(ids: Seq<u32>, id: u32) -> Seq<u32> {
    ids.filter(|y: u32| y != id)
}

/// An application entry after one of its streams detaches: the identifier
/// leaves the set, and an entry whose set becomes empty turns inactive
/// with the current instant recorded.
pub open spec fn detach_entry(a: AppModel, id: u32, now_ms: u64) -> AppModel {
    let ids = remove_id(a.4, id);
    if ids.len() == 0 {
        (a.0, a.1, a.2, false, ids, Some(now_ms))
    } else {
        (a.0, a.1, a.2, a.3, ids, a.5)
    }
}

/// Law: attaching the same stream identifier to the same application twice
/// leaves the cache exactly as one attach does; in particular the
/// identifier is not duplicated in the stream-identifier set.
pub proof fn lemma_attach_idempotent(
    apps: Map<Seq<char>, AppModel>,
    app: Seq<char>,
    id: u32,
    sink: Seq<char>,
    binary: Seq<char>,
)
    ensures
        attach_app(attach_app(apps, app, id, sink, binary), app, id, sink, binary) == attach_app(
            apps,
            app,
            id,
            sink,
            binary,
        ),
{
    let once = attach_app(apps, app, id, sink, binary);
    assert(once[app].4.contains(id)) by {
        if apps.dom().contains(app) {
            let a = apps[app];
            if a.4.contains(id) {
            } else {
                assert(a.4.push(id)[a.4.len() as int] == id);
            }
        } else {
            assert(seq![id][0] == id);
        }
    }
    assert(attach_app(once, app, id, sink, binary) =~= once);
}

/// Whether some application in the map owns this stream identifier.
pub open spec fn some_app_owns(apps: Map<Seq<char>, AppModel>, id: u32) -> bool {
    exists|k: Seq<char>| #[trigger] apps.dom().contains(k) && apps[k].4.contains(id)
}

fn vec_contains_u32(v: &Vec<u32>, x: u32) -> (r: bool)
    ensures
        r == v@.contains(x),
{
    let mut i: usize = 0;
    while i < v.len()
        invariant
            i <= v@.len(),
            forall|j: int| 0 <= j < i ==> v@[j] != x,
        decreases v@.len() - i,
    {
        if v[i] == x {
            return true;
        }
        i = i + 1;
    }
    proof {
        assert(!v@.contains(x)) by {
            if v@.contains(x) {
                let j = choose|j: int| 0 <= j < v@.len() && v@[j] == x;
            }
        }
    }
    false
}

fn vec_remove_u32(v: &Vec<u32>, x: u32) -> (r: Vec<u32>)
    ensures
        r@ == remove_id(v@, x),
{
    let mut out: Vec<u32> = Vec::new();
    let mut i: usize = 0;
    proof {
        reveal(Seq::filter);
        assert(out@ =~= remove_id(v@.take(0), x));
    }
    while i < v.len()
        invariant
            i <= v@.len(),
            out@ == remove_id(v@.take(i as int), x),
        decreases v@.len() - i,
    {
        if v[i] != x {
            out.push(v[i]);
        }
        i = i + 1;
        proof {
            reveal(Seq::filter);
            assert(v@.take(i as int).drop_last() =~= v@.take(i as int - 1));
            assert(v@.take(i as int).last() == v@[i as int - 1]);
        }
    }
    proof {
        assert(v@.take(v@.len() as int) =~= v@);
    }
    out
}

/// Applies one update to the cache.  Updates from the single backend
/// thread go through here one at a time, so they reach the cache in the
/// order they were observed.  A `CheckRoutingRule` whose application has a
/// standing rule hands back the move for the caller to carry out against
/// the backend; everything else returns `None`.
pub fn apply_update(cache: &mut AudioCache, update: CacheUpdate, now_ms: u64) -> (r: Option<
    RouteAction,
>)
    ensures
        final(cache).rules_view() == old(cache).rules_view(),
        match update {
            CacheUpdate::UpdateSink { name, info } => {
                &&& final(cache).sinks_view() == old(cache).sinks_view().insert(
                    name@,
                    info.model(),
                )
                &&& final(cache).apps_view() == old(cache).apps_view()
                &&& final(cache).remembered_view() == old(cache).remembered_view()
                &&& final(cache).spec_generation() == next_generation(old(cache).spec_generation())
                &&& r is None
            },
            CacheUpdate::MarkAppInactive { sink_input_id } => {
                &&& final(cache).sinks_view() == old(cache).sinks_view()
                &&& final(cache).remembered_view() == old(cache).remembered_view()
                &&& if some_app_owns(old(cache).apps_view(), sink_input_id) {
                    exists|k: Seq<char>|
                        {
                            &&& #[trigger] old(cache).apps_view().dom().contains(k)
                            &&& old(cache).apps_view()[k].4.contains(sink_input_id)
                            &&& final(cache).apps_view() == old(cache).apps_view().insert(
                                k,
                                detach_entry(old(cache).apps_view()[k], sink_input_id, now_ms),
                            )
                            &&& final(cache).spec_generation() == next_generation(
                                old(cache).spec_generation(),
                            )
                        }
                } else {
                    final(cache).apps_view() == old(cache).apps_view()
                        && final(cache).spec_generation() == old(cache).spec_generation()
                }
                &&& r is None
            },
            CacheUpdate::AddSinkInputToApp { app_name, sink_input_id, current_sink } => {
                &&& final(cache).sinks_view() == old(cache).sinks_view()
                &&& final(cache).apps_view() == attach_app(
                    old(cache).apps_view(),
                    app_name@,
                    sink_input_id,
                    current_sink@,
                    lower_of(app_name@),
                )
                &&& final(cache).remembered_view() == if old(cache).apps_view().dom().contains(
                    app_name@,
                ) {
                    old(cache).remembered_view()
                } else {
                    old(cache).remembered_view().insert(app_name@, current_sink@)
                }
                &&& final(cache).spec_generation() == if old(cache).apps_view().dom().contains(
                    app_name@,
                ) {
                    next_generation(old(cache).spec_generation())
                } else {
                    next_generation(next_generation(old(cache).spec_generation()))
                }
                &&& r is None
            },
            CacheUpdate::CheckRoutingRule { app_name, sink_input_id } => {
                &&& final(cache).sinks_view() == old(cache).sinks_view()
                &&& final(cache).apps_view() == old(cache).apps_view()
                &&& final(cache).remembered_view() == old(cache).remembered_view()
                &&& final(cache).spec_generation() == old(cache).spec_generation()
                &&& match r {
                    Some(action) => {
                        &&& old(cache).rules_view().contains_pair(app_name@, action.target_sink@)
                        &&& action.app_name@ == app_name@
                        &&& action.sink_input_id == sink_input_id
                    },
                    None => !old(cache).rules_view().dom().contains(app_name@),
                }
            },
        },
{
    match update {
        CacheUpdate::UpdateSink { name, info } => {
            cache.update_sink(name, info);
            None
        },
        CacheUpdate::MarkAppInactive { sink_input_id } => {
            mark_app_inactive(cache, sink_input_id, now_ms);
            None
        },
        CacheUpdate::AddSinkInputToApp { app_name, sink_input_id, current_sink } => {
            match cache.get_app(&app_name) {
                Some(existing) => {
                    let mut ids = existing.sink_input_ids;
                    if !vec_contains_u32(&ids, sink_input_id) {
                        ids.push(sink_input_id);
                    }
                    let info = AppInfo {
                        display_name: existing.display_name,
                        binary_name: existing.binary_name,
                        current_sink: existing.current_sink,
                        active: true,
                        sink_input_ids: ids,
                        inactive_since: None,
                    };
                    apps_insert(&mut cache.apps, app_name, info);
                    cache.increment_generation();
                },
                None => {
                    let mut ids: Vec<u32> = Vec::new();
                    ids.push(sink_input_id);
                    let info = AppInfo {
                        display_name: app_name.clone(),
                        binary_name: lowercase(app_name.as_str()),
                        current_sink: current_sink,
                        active: true,
                        sink_input_ids: ids,
                        inactive_since: None,
                    };
                    cache.update_app(app_name, info);
                    cache.increment_generation();
                },
            }
            None
        },
        CacheUpdate::CheckRoutingRule { app_name, sink_input_id } => {
            match cache.routing_rule(&app_name) {
                Some(target_sink) => Some(RouteAction { app_name, sink_input_id, target_sink }),
                None => None,
            }
        },
    }
}

/// Finds the application owning this stream identifier (if any), removes
/// the identifier from its set, and marks the application inactive when
/// the set runs empty.
fn mark_app_inactive(cache: &mut AudioCache, sink_input_id: u32, now_ms: u64)
    ensures
        final(cache).sinks_view() == old(cache).sinks_view(),
        final(cache).rules_view() == old(cache).rules_view(),
        final(cache).remembered_view() == old(cache).remembered_view(),
        if some_app_owns(old(cache).apps_view(), sink_input_id) {
            exists|k: Seq<char>|
                {
                    &&& #[trigger] old(cache).apps_view().dom().contains(k)
                    &&& old(cache).apps_view()[k].4.contains(sink_input_id)
                    &&& final(cache).apps_view() == old(cache).apps_view().insert(
                        k,
                        detach_entry(old(cache).apps_view()[k], sink_input_id, now_ms),
                    )
                    &&& final(cache).spec_generation() == next_generation(
                        old(cache).spec_generation(),
                    )
                }
        } else {
            final(cache).apps_view() == old(cache).apps_view() && final(cache).spec_generation()
                == old(cache).spec_generation()
        },
{
    let ghost m0 = old(cache).apps_view();
    let entries = crate::concurrent_map::apps_entries(&cache.apps);
    let mut i: usize = 0;
    while i < entries.len()
        invariant
            i <= entries@.len(),
            m0 == old(cache).apps_view(),
            apps_model(cache.apps) == m0,
            names_model(cache.routing_rules) == old(cache).rules_view(),
            names_model(cache.remembered_apps) == old(cache).remembered_view(),
            sinks_model(cache.sinks) == old(cache).sinks_view(),
            cache.generation == old(cache).spec_generation(),
            m0.dom() == entries@.map_values(|p: (String, AppInfo)| p.0@).to_set(),
            forall|j: int|
                0 <= j < entries@.len() ==> m0.contains_pair(entries@[j].0@, entries@[j].1.model()),
            forall|j: int| 0 <= j < i ==> !entries@[j].1.sink_input_ids@.contains(sink_input_id),
        decreases entries@.len() - i,
    {
        if vec_contains_u32(&entries[i].1.sink_input_ids, sink_input_id) {
            let name = &entries[i].0;
            let app = &entries[i].1;
            let new_ids = vec_remove_u32(&app.sink_input_ids, sink_input_id);
            let empty_now = new_ids.len() == 0;
            let info = AppInfo {
                display_name: app.display_name.clone(),
                binary_name: app.binary_name.clone(),
                current_sink: app.current_sink.clone(),
                active: if empty_now {
                    false
                } else {
                    app.active
                },
                sink_input_ids: new_ids,
                inactive_since: if empty_now {
                    Some(now_ms)
                } else {
                    app.inactive_since
                },
            };
            proof {
                assert(m0.contains_pair(name@, app.model()));
                assert(info.model() == detach_entry(m0[name@], sink_input_id, now_ms));
            }
            apps_insert(&mut cache.apps, name.clone(), info);
            cache.increment_generation();
            proof {
                assert(old(cache).apps_view().dom().contains(name@));
                assert(old(cache).apps_view()[name@].4.contains(sink_input_id));
                assert(apps_model(cache.apps) == old(cache).apps_view().insert(
                    name@,
                    detach_entry(old(cache).apps_view()[name@], sink_input_id, now_ms),
                ));
                assert(some_app_owns(old(cache).apps_view(), sink_input_id));
            }
            return ;
        }
        i = i + 1;
    }
    proof {
        if some_app_owns(m0, sink_input_id) {
            let k = choose|k: Seq<char>| #[trigger]
                m0.dom().contains(k) && m0[k].4.contains(sink_input_id);
            let keys = entries@.map_values(|p: (String, AppInfo)| p.0@);
            assert(keys.to_set().contains(k));
            let j = choose|j: int| 0 <= j < keys.len() && keys[j] == k;
            assert(entries@[j].0@ == k);
            assert(entries@[j].1.model() == m0[k]);
            assert(false);
        }
    }
}

/// The volume a sink is assumed to have until the backend reports one:
/// the bit pattern of full (1.0) normalized volume.
pub const DEFAULT_VOLUME_BITS: u32 = 0x3F800000;

/// What the backend reported about a node when it appeared.
#[derive(Debug, Clone)]
pub struct NodeProps {
    pub id: u32,
    pub node_name: String,
    pub media_class: String,
    pub media_name: Option<String>,
    pub application_name: Option<String>,
    pub node_description: Option<String>,
    pub object_serial: Option<String>,
}

/// What a newly appeared node means to the bridge.
#[derive(Debug, Clone)]
pub enum NodeClassification {
    /// One of the watched virtual sinks.
    VirtualSink { name: String, id: u32 },
    /// An application's output stream; `serial_id` is the correlating
    /// identifier used for all later lookups about this stream.
    OutputStream { app_name: String, serial_id: u32 },
    /// Anything else, including loopback plumbing.
    Ignored,
}

/// Whether `n` ends `h`.
pub open spec fn ends_with_seq(h: Seq<u8>, n: Seq<u8>) -> bool {
    n.len() <= h.len() && h.subrange(h.len() - n.len(), h.len() as int) == n
}

fn ends_with_exec(h: &[u8], n: &[u8]) -> (r: bool)
    ensures
        r == ends_with_seq(h@, n@),
{
    if n.len() > h.len() {
        return false;
    }
    crate::bytescan::match_at_exec(h, n, h.len() - n.len())
}

/// The stream identifier the bridge must use for later lookups: the
/// node's object serial where it parses, the object identifier otherwise.
pub open spec fn serial_of(object_serial: Option<String>, id: u32) -> u32 {
    match object_serial {
        Some(s) => if is_dec_u32(vstd::utf8::encode_utf8(s@)) {
            dec_value(vstd::utf8::encode_utf8(s@)) as u32
        } else {
            id
        },
        None => id,
    }
}

/// The display key a stream is initially filed under: the reported
/// application name, the node description as a fallback, or empty.
pub open spec fn stream_app_name(props: NodeProps) -> Seq<char> {
    match props.application_name {
        Some(a) => a@,
        None => match props.node_description {
            Some(d) => d@,
            None => Seq::empty(),
        },
    }
}

/// Whether a node is loopback plumbing rather than an application
/// stream: its node name carries `_to_` or ends in `_Loopback`, or its
/// media name carries `Loopback`.
pub open spec fn is_loopback(props: NodeProps) -> bool {
    ||| contains_seq(vstd::utf8::encode_utf8(props.node_name@), "_to_".spec_bytes())
    ||| ends_with_seq(vstd::utf8::encode_utf8(props.node_name@), "_Loopback".spec_bytes())
    ||| match props.media_name {
        Some(m) => contains_seq(vstd::utf8::encode_utf8(m@), "Loopback".spec_bytes()),
        None => false,
    }
}

/// Classifies a node the backend announced: a watched virtual sink, an
/// application output stream (with its correlating serial), or noise.
pub fn classify_node(props: &NodeProps, sink_names: &Vec<String>) -> (r: NodeClassification)
    ensures
        match r {
            NodeClassification::VirtualSink { name, id } => {
                &&& vstd::utf8::encode_utf8(props.media_class@) == "Audio/Sink".spec_bytes()
                &&& name@ == props.node_name@
                &&& id == props.id
                &&& exists|i: int|
                    0 <= i < sink_names@.len() && (#[trigger] sink_names@[i])@
                        == props.node_name@
            },
            NodeClassification::OutputStream { app_name, serial_id } => {
                &&& vstd::utf8::encode_utf8(props.media_class@) == "Stream/Output/Audio".spec_bytes()
                &&& vstd::utf8::encode_utf8(props.media_class@) != "Audio/Sink".spec_bytes()
                &&& !is_loopback(*props)
                &&& app_name@ == stream_app_name(*props)
                &&& serial_id == serial_of(props.object_serial, props.id)
            },
            NodeClassification::Ignored => {
                &&& (vstd::utf8::encode_utf8(props.media_class@) == "Audio/Sink".spec_bytes() ==> !exists|i: int|
                    0 <= i < sink_names@.len() && (#[trigger] sink_names@[i])@
                        == props.node_name@)
                &&& (vstd::utf8::encode_utf8(props.media_class@) != "Audio/Sink".spec_bytes()
                    && vstd::utf8::encode_utf8(props.media_class@)
                    == "Stream/Output/Audio".spec_bytes() ==> is_loopback(*props))
            },
        },
{
    if crate::bytescan::bytes_eq(props.media_class.as_str().as_bytes(), "Audio/Sink".as_bytes()) {
        let mut i: usize = 0;
        while i < sink_names.len()
            invariant
                vstd::utf8::encode_utf8(props.media_class@) == "Audio/Sink".spec_bytes(),
                i <= sink_names@.len(),
                forall|j: int| 0 <= j < i ==> (#[trigger] sink_names@[j])@ != props.node_name@,
            decreases sink_names@.len() - i,
        {
            if sink_names[i].eq(&props.node_name) {
                return NodeClassification::VirtualSink {
                    name: props.node_name.clone(),
                    id: props.id,
                };
            }
            i = i + 1;
        }
        return NodeClassification::Ignored;
    }
    if crate::bytescan::bytes_eq(props.media_class.as_str().as_bytes(), "Stream/Output/Audio".as_bytes()) {
        let nb = props.node_name.as_str().as_bytes();
        if crate::bytescan::contains_bytes(nb, "_to_".as_bytes()) || ends_with_exec(
            nb,
            "_Loopback".as_bytes(),
        ) {
            return NodeClassification::Ignored;
        }
        match &props.media_name {
            Some(m) => {
                if crate::bytescan::contains_bytes(m.as_str().as_bytes(), "Loopback".as_bytes()) {
                    return NodeClassification::Ignored;
                }
            },
            None => {},
        }
        let app_name: String = match &props.application_name {
            Some(a) => a.clone(),
            None => match &props.node_description {
                Some(d) => d.clone(),
                None => String::new(),
            },
        };
        let serial_id: u32 = match &props.object_serial {
            Some(st) => match parse_u32_dec(st.as_str().as_bytes()) {
                Some(v) => v,
                None => props.id,
            },
            None => props.id,
        };
        return NodeClassification::OutputStream { app_name, serial_id };
    }
    NodeClassification::Ignored
}

/// The display key a freshly observed stream is filed under once the
/// backend's process listing has been consulted: the capitalized base
/// name of the stream's binary when one was found, else the name the
/// backend reported for the stream.
pub fn stream_display_key(extracted_binary: Option<&str>, application_name: &str) -> (r: String)
    ensures
        r@ == match extracted_binary {
            Some(b) => capitalized(b@),
            None => application_name@,
        },
{
    match extracted_binary {
        Some(b) => capitalize_first_letter(b),
        None => application_name.to_owned(),
    }
}

/// One observed output stream: the display key it was filed under, and
/// the correlating serial used for every later lookup about it.
#[derive(Debug, Clone)]
pub struct NodeInfo {
    pub app_name: String,
    pub serial_id: u32,
}

/// The bridge's bookkeeping of live stream nodes by registry identifier:
/// what the node-appeared callback records, the node-removed callback
/// takes back out, so a stream's detach provably reuses exactly the
/// serial its attach used.
pub struct NodeRegistry {
    pub nodes: HashMapWithView<u32, NodeInfo>,
}

impl NodeRegistry {
    /// The recorded streams, by registry identifier.
    pub open spec fn nodes_view(self) -> Map<u32, NodeInfo> {
        self.nodes@
    }

    pub fn new() -> (r: Self)
        ensures
            r.nodes_view() == Map::<u32, NodeInfo>::empty(),
    {
        proof {
            broadcast use vstd::std_specs::hash::axiom_u32_obeys_hash_table_key_model;
        }
        NodeRegistry { nodes: HashMapWithView::new() }
    }

    /// Records a freshly observed stream under its registry identifier.
    pub fn record(&mut self, id: u32, info: NodeInfo)
        ensures
            final(self).nodes_view() == old(self).nodes_view().insert(id, info),
    {
        self.nodes.insert(id, info);
    }

    /// Takes a node out when the backend removes it.  The returned entry
    /// carries the serial the attach used; the caller hands it to the
    /// detach update, closing the correlation loop.
    pub fn take_removed(&mut self, id: u32) -> (r: Option<NodeInfo>)
        ensures
            match r {
                Some(info) => {
                    &&& old(self).nodes_view().contains_key(id)
                    &&& info == old(self).nodes_view()[id]
                    &&& final(self).nodes_view() == old(self).nodes_view().remove(id)
                },
                None => {
                    &&& !old(self).nodes_view().contains_key(id)
                    &&& final(self).nodes_view() == old(self).nodes_view()
                },
            },
    {
        self.nodes.remove(&id)
    }
}

} // verus!
