//! The routing reconciler's decisions.  A route request runs in two
//! halves around the backend work the caller performs: `route_begin`
//! records the rule and decides what to move, the caller issues the move
//! commands and re-derives which sink the streams actually landed on after
//! the settle window, and `route_commit` writes that observed truth - not
//! the request - into the cache.  Volume and mute requests have their
//! cache half here too.
use vstd::prelude::*;

use crate::cache::{AppInfo, AudioCache, SinkInfo, next_generation};
use crate::concurrent_map::{apps_insert, sinks_insert};

verus! {

/// Why a route request was refused.
#[derive(Debug, Clone, PartialEq, Eq, Structural)]
pub enum RouteError {
    /// The requested sink does not exist.
    UnknownSink,
    /// Every move command against the backend failed.
    BackendCommandFailed,
}

/// What a route request requires of the caller.
#[derive(Debug, Clone)]
pub enum RouteBegin {
    /// The application has no live streams.  The rule is recorded and will
    /// apply when a stream next attaches; the request itself succeeds
    /// without touching any stream.
    RuleOnly,
    /// Move each of these streams to the requested sink, wait out the
    /// settle window, re-derive the actual sink, then call `route_commit`.
    Move { stream_ids: Vec<u32> },
}

impl AudioCache {
    /// Starts a route request.  With no live streams the rule is recorded
    /// and the request succeeds without touching any stream; with live
    /// streams and an existing sink the rule is recorded and the
    /// application's stream-identifier set is refreshed with the freshly
    /// derived one, handed back for the caller to move.  An unknown sink
    /// fails the request and leaves the cache untouched, rules included.
    ///
    /// `fresh_stream_ids` must be re-derived from backend introspection by
    /// the caller, not read from the cache: streams churn faster than
    /// routing requests.
    pub fn route_begin(
        &mut self,
        app_name: &String,
        sink_name: &String,
        fresh_stream_ids: Vec<u32>,
    ) -> (r: Result<RouteBegin, RouteError>)
        ensures
            final(self).sinks_view() == old(self).sinks_view(),
            final(self).remembered_view() == old(self).remembered_view(),
            match r {
                Ok(RouteBegin::RuleOnly) => {
                    &&& fresh_stream_ids@.len() == 0
                    &&& final(self).rules_view() == old(self).rules_view().insert(
                        app_name@,
                        sink_name@,
                    )
                    &&& final(self).apps_view() == old(self).apps_view()
                    &&& final(self).spec_generation() == old(self).spec_generation()
                },
                Ok(RouteBegin::Move { stream_ids }) => {
                    &&& fresh_stream_ids@.len() > 0
                    &&& stream_ids@ == fresh_stream_ids@
                    &&& old(self).sinks_view().dom().contains(sink_name@)
                    &&& final(self).rules_view() == old(self).rules_view().insert(
                        app_name@,
                        sink_name@,
                    )
                    &&& if old(self).apps_view().dom().contains(app_name@) {
                        final(self).apps_view() == old(self).apps_view().insert(
                            app_name@,
                            refreshed_ids(old(self).apps_view()[app_name@], fresh_stream_ids@),
                        ) && final(self).spec_generation() == next_generation(
                            old(self).spec_generation(),
                        )
                    } else {
                        final(self).apps_view() == old(self).apps_view()
                            && final(self).spec_generation() == old(self).spec_generation()
                    }
                },
                Err(RouteError::UnknownSink) => {
                    &&& fresh_stream_ids@.len() > 0
                    &&& !old(self).sinks_view().dom().contains(sink_name@)
                    &&& final(self).rules_view() == old(self).rules_view()
                    &&& final(self).apps_view() == old(self).apps_view()
                    &&& final(self).spec_generation() == old(self).spec_generation()
                },
                Err(RouteError::BackendCommandFailed) => false,
            },
    {
        if fresh_stream_ids.len() == 0 {
            self.set_routing_rule(app_name.clone(), sink_name.clone());
            return Ok(RouteBegin::RuleOnly);
        }
        if !self.has_sink(sink_name) {
            return Err(RouteError::UnknownSink);
        }
        self.set_routing_rule(app_name.clone(), sink_name.clone());
        match self.get_app(app_name) {
            Some(app) => {
                let info = AppInfo {
                    display_name: app.display_name,
                    binary_name: app.binary_name,
                    current_sink: app.current_sink,
                    active: app.active,
                    sink_input_ids: clone_ids(&fresh_stream_ids),
                    inactive_since: app.inactive_since,
                };
                apps_insert(&mut self.apps, app_name.clone(), info);
                self.increment_generation();
            },
            None => {},
        }
        Ok(RouteBegin::Move { stream_ids: fresh_stream_ids })
    }

    /// Finishes a route request with the sink the streams were actually
    /// observed on after the settle window (or `None` when introspection
    /// failed, in which case the requested sink is trusted).  Writes the
    /// outcome into the application's current-sink field and the
    /// remembered assignments, and reports whether the request stuck -
    /// `false` means the backend overrode it and the caller should log the
    /// discrepancy.
    pub fn route_commit(
        &mut self,
        app_name: &String,
        requested_sink: &String,
        actual_sink: Option<String>,
    ) -> (stuck: bool)
        ensures
            ({
                let chosen = match actual_sink {
                    Some(a) => a@,
                    None => requested_sink@,
                };
                &&& stuck == match actual_sink {
                    Some(a) => a@ == requested_sink@,
                    None => true,
                }
                &&& final(self).remembered_view() == old(self).remembered_view().insert(
                    app_name@,
                    chosen,
                )
                &&& if old(self).apps_view().dom().contains(app_name@) {
                    final(self).apps_view() == old(self).apps_view().insert(
                        app_name@,
                        resunk(old(self).apps_view()[app_name@], chosen),
                    ) && final(self).spec_generation() == next_generation(
                        old(self).spec_generation(),
                    )
                } else {
                    final(self).apps_view() == old(self).apps_view()
                        && final(self).spec_generation() == old(self).spec_generation()
                }
                &&& final(self).sinks_view() == old(self).sinks_view()
                &&& final(self).rules_view() == old(self).rules_view()
            }),
    {
        let (chosen, stuck): (String, bool) = match actual_sink {
            Some(a) => {
                let s = a == *requested_sink;
                (a, s)
            },
            None => (requested_sink.clone(), true),
        };
        match self.get_app(app_name) {
            Some(app) => {
                let info = AppInfo {
                    display_name: app.display_name,
                    binary_name: app.binary_name,
                    current_sink: chosen.clone(),
                    active: app.active,
                    sink_input_ids: app.sink_input_ids,
                    inactive_since: app.inactive_since,
                };
                apps_insert(&mut self.apps, app_name.clone(), info);
                self.increment_generation();
            },
            None => {},
        }
        self.remember_app(app_name.clone(), chosen);
        stuck
    }

    /// The cache half of a volume request: stores the new volume for the
    /// sink and hands back the backend identifier the caller must address,
    /// or `None` (nothing changed) when no such sink exists.
    pub fn set_sink_volume_cached(&mut self, sink_name: &String, volume: u32) -> (r: Option<u32>)
        ensures
            final(self).apps_view() == old(self).apps_view(),
            final(self).rules_view() == old(self).rules_view(),
            final(self).remembered_view() == old(self).remembered_view(),
            match r {
                Some(id) => {
                    &&& old(self).sinks_view().dom().contains(sink_name@)
                    &&& id == old(self).sinks_view()[sink_name@].0
                    &&& final(self).sinks_view() == old(self).sinks_view().insert(
                        sink_name@,
                        (
                            old(self).sinks_view()[sink_name@].0,
                            old(self).sinks_view()[sink_name@].1,
                            volume,
                            old(self).sinks_view()[sink_name@].3,
                        ),
                    )
                    &&& final(self).spec_generation() == next_generation(
                        old(self).spec_generation(),
                    )
                },
                None => {
                    &&& !old(self).sinks_view().dom().contains(sink_name@)
                    &&& final(self).sinks_view() == old(self).sinks_view()
                    &&& final(self).spec_generation() == old(self).spec_generation()
                },
            },
    {
        match self.get_sink(sink_name) {
            Some(sink) => {
                let id = sink.id;
                let info = SinkInfo { id: sink.id, name: sink.name, volume, muted: sink.muted };
                sinks_insert(&mut self.sinks, sink_name.clone(), info);
                self.increment_generation();
                Some(id)
            },
            None => None,
        }
    }

    /// The cache half of a mute request: stores the new mute flag for the
    /// sink and hands back the backend identifier the caller must address,
    /// or `None` (nothing changed) when no such sink exists.
    pub fn set_sink_mute_cached(&mut self, sink_name: &String, muted: bool) -> (r: Option<u32>)
        ensures
            final(self).apps_view() == old(self).apps_view(),
            final(self).rules_view() == old(self).rules_view(),
            final(self).remembered_view() == old(self).remembered_view(),
            match r {
                Some(id) => {
                    &&& old(self).sinks_view().dom().contains(sink_name@)
                    &&& id == old(self).sinks_view()[sink_name@].0
                    &&& final(self).sinks_view() == old(self).sinks_view().insert(
                        sink_name@,
                        (
                            old(self).sinks_view()[sink_name@].0,
                            old(self).sinks_view()[sink_name@].1,
                            old(self).sinks_view()[sink_name@].2,
                            muted,
                        ),
                    )
                    &&& final(self).spec_generation() == next_generation(
                        old(self).spec_generation(),
                    )
                },
                None => {
                    &&& !old(self).sinks_view().dom().contains(sink_name@)
                    &&& final(self).sinks_view() == old(self).sinks_view()
                    &&& final(self).spec_generation() == old(self).spec_generation()
                },
            },
    {
        match self.get_sink(sink_name) {
            Some(sink) => {
                let id = sink.id;
                let info = SinkInfo { id: sink.id, name: sink.name, volume: sink.volume, muted };
                sinks_insert(&mut self.sinks, sink_name.clone(), info);
                self.increment_generation();
                Some(id)
            },
            None => None,
        }
    }
}

/// An application entry with its stream-identifier set replaced by a
/// freshly derived one.
pub open spec fn refreshed_ids(
    a: crate::cache::AppModel,
    ids: Seq<u32>,
) -> crate::cache::AppModel {
    (a.0, a.1, a.2, a.3, ids, a.5)
}

/// An application entry moved to the sink it was actually observed on.
pub open spec fn resunk(a: crate::cache::AppModel, sink: Seq<char>) -> crate::cache::AppModel {
    (a.0, a.1, sink, a.3, a.4, a.5)
}

fn clone_ids(v: &Vec<u32>) -> (r: Vec<u32>)
    ensures
        r@ == v@,
{
    let mut out: Vec<u32> = Vec::new();
    let mut i: usize = 0;
    while i < v.len()
        invariant
            i <= v@.len(),
            out@ =~= v@.take(i as int),
        decreases v@.len() - i,
    {
        out.push(v[i]);
        i = i + 1;
    }
    proof {
        assert(v@.take(v@.len() as int) =~= v@);
    }
    out
}

} // verus!
