//! Trusted boundary around `dashmap::DashMap`, the sharded concurrent hash
//! map the cache is built on.  Each instantiation the cache uses gets a
//! model function naming its contents, and every map operation the library
//! performs goes through a wrapper whose contract speaks over that model.
//! The mutating wrappers take the map by exclusive reference even though
//! the underlying operations accept shared ones: all verified mutation
//! funnels through exclusive borrows, so each contract relates one
//! before-state to one after-state; concurrent deployment puts readers
//! and writers behind a lock around the whole cache, as the daemon does.
use vstd::prelude::*;

use crate::cache::{AppInfo, SinkInfo};
use dashmap::DashMap;

verus! {

#[verifier::external_type_specification]
#[verifier::external_body]
#[verifier::reject_recursive_types(K)]
#[verifier::reject_recursive_types(V)]
#[verifier::reject_recursive_types(S)]
pub struct ExDashMap<K, V, S>(DashMap<K, V, S>);

/// The contents of a sink map: bus name to (id, name, volume, muted).
pub uninterp spec fn sinks_model(m: DashMap<String, SinkInfo>) -> Map<
    Seq<char>,
    (u32, Seq<char>, u32, bool),
>;

/// The contents of an application map: display name to
/// (display name, binary name, current sink, active, stream ids, inactive since).
pub uninterp spec fn apps_model(m: DashMap<String, AppInfo>) -> Map<
    Seq<char>,
    (Seq<char>, Seq<char>, Seq<char>, bool, Seq<u32>, Option<u64>),
>;

/// The contents of a string-to-string map (routing rules, remembered buses).
pub uninterp spec fn names_model(m: DashMap<String, String>) -> Map<Seq<char>, Seq<char>>;

/// Relies on dashmap::DashMap::new: the new map is empty.
#[verifier::external_body]
pub(crate) fn sinks_new() -> (r: DashMap<String, SinkInfo>)
    ensures
        sinks_model(r) =~= Map::empty(),
{
    DashMap::new()
}

/// Relies on dashmap::DashMap::insert: the key is bound to the new value;
/// every other key keeps its binding.
#[verifier::external_body]
pub(crate) fn sinks_insert(m: &mut DashMap<String, SinkInfo>, key: String, value: SinkInfo)
    ensures
        sinks_model(*final(m)) == sinks_model(*old(m)).insert(key@, value.model()),
{
    m.insert(key, value);
}

/// Relies on dashmap::DashMap::get: returns the value bound to the key,
/// if any (cloned out of the map).
#[verifier::external_body]
pub(crate) fn sinks_get(m: &DashMap<String, SinkInfo>, key: &String) -> (r: Option<SinkInfo>)
    ensures
        match r {
            Some(v) => sinks_model(*m).contains_pair(key@, v.model()),
            None => !sinks_model(*m).dom().contains(key@),
        },
{
    m.get(key).map(|entry| entry.value().clone())
}

/// Relies on dashmap::DashMap::contains_key.
#[verifier::external_body]
pub(crate) fn sinks_contains(m: &DashMap<String, SinkInfo>, key: &String) -> (r: bool)
    ensures
        r == sinks_model(*m).dom().contains(key@),
{
    m.contains_key(key)
}

/// Relies on dashmap::DashMap::iter: hands out every entry exactly once,
/// in no promised order (the map's contents are finite).
#[verifier::external_body]
pub(crate) fn sinks_entries(m: &DashMap<String, SinkInfo>) -> (r: Vec<(String, SinkInfo)>)
    ensures
        sinks_model(*m).dom() == r@.map_values(|p: (String, SinkInfo)| p.0@).to_set(),
        forall|i: int|
            0 <= i < r@.len() ==> sinks_model(*m).contains_pair(r@[i].0@, r@[i].1.model()),
        forall|i: int, j: int| 0 <= i < j < r@.len() ==> r@[i].0@ != r@[j].0@,
{
    m.iter().map(|entry| (entry.key().clone(), entry.value().clone())).collect()
}

/// Relies on dashmap::DashMap::new: the new map is empty.
#[verifier::external_body]
pub(crate) fn apps_new() -> (r: DashMap<String, AppInfo>)
    ensures
        apps_model(r) =~= Map::empty(),
{
    DashMap::new()
}

/// Relies on dashmap::DashMap::insert: the key is bound to the new value;
/// every other key keeps its binding.
#[verifier::external_body]
pub(crate) fn apps_insert(m: &mut DashMap<String, AppInfo>, key: String, value: AppInfo)
    ensures
        apps_model(*final(m)) == apps_model(*old(m)).insert(key@, value.model()),
{
    m.insert(key, value);
}

/// Relies on dashmap::DashMap::get: returns the value bound to the key,
/// if any (cloned out of the map).
#[verifier::external_body]
pub(crate) fn apps_get(m: &DashMap<String, AppInfo>, key: &String) -> (r: Option<AppInfo>)
    ensures
        match r {
            Some(v) => apps_model(*m).contains_pair(key@, v.model()),
            None => !apps_model(*m).dom().contains(key@),
        },
{
    m.get(key).map(|entry| entry.value().clone())
}

/// Relies on dashmap::DashMap::remove: the key loses its binding; every
/// other key keeps its binding.  Returns whether the key was bound.
#[verifier::external_body]
pub(crate) fn apps_remove(m: &mut DashMap<String, AppInfo>, key: &String) -> (r: bool)
    ensures
        apps_model(*final(m)) == apps_model(*old(m)).remove(key@),
        r == apps_model(*old(m)).dom().contains(key@),
{
    m.remove(key).is_some()
}

/// Relies on dashmap::DashMap::iter: hands out every entry exactly once,
/// in no promised order (the map's contents are finite).
#[verifier::external_body]
pub(crate) fn apps_entries(m: &DashMap<String, AppInfo>) -> (r: Vec<(String, AppInfo)>)
    ensures
        apps_model(*m).dom() == r@.map_values(|p: (String, AppInfo)| p.0@).to_set(),
        forall|i: int|
            0 <= i < r@.len() ==> apps_model(*m).contains_pair(r@[i].0@, r@[i].1.model()),
        forall|i: int, j: int| 0 <= i < j < r@.len() ==> r@[i].0@ != r@[j].0@,
{
    m.iter().map(|entry| (entry.key().clone(), entry.value().clone())).collect()
}

/// Relies on dashmap::DashMap::new: the new map is empty.
#[verifier::external_body]
pub(crate) fn names_new() -> (r: DashMap<String, String>)
    ensures
        names_model(r) =~= Map::empty(),
{
    DashMap::new()
}

/// Relies on dashmap::DashMap::insert: the key is bound to the new value;
/// every other key keeps its binding.
#[verifier::external_body]
pub(crate) fn names_insert(m: &mut DashMap<String, String>, key: String, value: String)
    ensures
        names_model(*final(m)) == names_model(*old(m)).insert(key@, value@),
{
    m.insert(key, value);
}

/// Relies on dashmap::DashMap::get: returns the value bound to the key,
/// if any (cloned out of the map).
#[verifier::external_body]
pub(crate) fn names_get(m: &DashMap<String, String>, key: &String) -> (r: Option<String>)
    ensures
        match r {
            Some(v) => names_model(*m).contains_pair(key@, v@),
            None => !names_model(*m).dom().contains(key@),
        },
{
    m.get(key).map(|entry| entry.value().clone())
}

/// Relies on dashmap::DashMap::contains_key.
#[verifier::external_body]
pub(crate) fn names_contains(m: &DashMap<String, String>, key: &String) -> (r: bool)
    ensures
        r == names_model(*m).dom().contains(key@),
{
    m.contains_key(key)
}

/// Relies on dashmap::DashMap::remove: the key loses its binding; every
/// other key keeps its binding.  Returns whether the key was bound.
#[verifier::external_body]
pub(crate) fn names_remove(m: &mut DashMap<String, String>, key: &String) -> (r: bool)
    ensures
        names_model(*final(m)) == names_model(*old(m)).remove(key@),
        r == names_model(*old(m)).dom().contains(key@),
{
    m.remove(key).is_some()
}

} // verus!
