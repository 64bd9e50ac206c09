//! The snapshot publisher's control state: adaptive polling (fast while
//! changes arrive, slow when idle, periodic freshness writes while idle),
//! the generation comparison that skips needless encodes, the
//! consecutive-failure counter, and staleness self-healing.  The caller
//! owns the clock, the shared-memory region and the timer; every decision
//! and state change lives here.
use vstd::prelude::*;

use crate::cache::CacheSnapshot;
use crate::codec::{WireApp, WireAppV, WireSink, WireSinkV, WireSnapshot};
use vstd::string::StrSliceExecFns;
use vstd::utf8::encode_utf8;

verus! {

/// Fast polling interval, used while changes are arriving.
pub const FAST_INTERVAL_MS: u64 = 50;

/// Slow polling interval, used after a run of idle ticks.
pub const SLOW_INTERVAL_MS: u64 = 200;

/// Idle ticks after which polling switches to the slow interval.
pub const IDLE_SWITCH_TICKS: u64 = 10;

/// While idle, every this-many idle ticks the region is rewritten anyway,
/// so consumers watching its freshness do not take the daemon for dead.
pub const IDLE_REFRESH_TICKS: u64 = 100;

/// Consecutive write failures beyond which the region is recreated.
pub const FAILURE_LIMIT: u32 = 3;

/// How long the region may go without a successful write before it is
/// treated as stale and recreated.
pub const STALE_THRESHOLD_MS: u64 = 30000;

/// The publisher's control state between ticks.
#[derive(Debug, Clone, PartialEq, Eq, Structural)]
pub struct PublisherState {
    /// Generation of the last snapshot written.
    pub last_generation: u64,
    /// Ticks in a row that found the generation unchanged.
    pub idle_cycles: u64,
    /// Write failures in a row.
    pub consecutive_failures: u32,
    /// Wall-clock time of the last successful write, in milliseconds.
    pub last_success_ms: u64,
    /// Whether polling currently runs at the fast interval.
    pub fast: bool,
}

/// Whether the region counts as stale at `now_ms`: no successful write for
/// longer than the threshold.
pub open spec fn is_stale(s: PublisherState, now_ms: u64) -> bool {
    (now_ms as int) - (s.last_success_ms as int) > STALE_THRESHOLD_MS as int
}

/// Whether a tick must encode and write: the generation moved, or enough
/// failures piled up that a forced write is due.
pub open spec fn wants_publish(s: PublisherState, current_generation: u64) -> bool {
    current_generation != s.last_generation || s.consecutive_failures > FAILURE_LIMIT
}

/// The state after the region was recreated on the staleness path: the
/// write clock restarts and the last published generation is cleared, so
/// the next comparison cannot skip the write.
pub open spec fn recreated_stale(s: PublisherState, now_ms: u64) -> PublisherState {
    PublisherState { last_generation: 0, last_success_ms: now_ms, ..s }
}

impl PublisherState {
    /// Fresh state, as if a write had just succeeded at `now_ms` with
    /// nothing published yet.
    pub fn new(now_ms: u64) -> (r: Self)
        ensures
            r == (PublisherState {
                last_generation: 0,
                idle_cycles: 0,
                consecutive_failures: 0,
                last_success_ms: now_ms,
                fast: true,
            }),
    {
        PublisherState {
            last_generation: 0,
            idle_cycles: 0,
            consecutive_failures: 0,
            last_success_ms: now_ms,
            fast: true,
        }
    }

    /// The polling interval the caller's timer should use.
    pub fn interval_ms(&self) -> (r: u64)
        ensures
            r == if self.fast {
                FAST_INTERVAL_MS
            } else {
                SLOW_INTERVAL_MS
            },
    {
        if self.fast {
            FAST_INTERVAL_MS
        } else {
            SLOW_INTERVAL_MS
        }
    }

    /// Whether the tick must first recreate the region for staleness.
    pub fn needs_recreate(&self, now_ms: u64) -> (r: bool)
        ensures
            r == is_stale(*self, now_ms),
    {
        now_ms > self.last_success_ms && now_ms - self.last_success_ms > STALE_THRESHOLD_MS
    }

    /// Records that the region was recreated on the staleness path.
    pub fn note_recreated_stale(&mut self, now_ms: u64)
        ensures
            *final(self) == recreated_stale(*old(self), now_ms),
    {
        self.last_generation = 0;
        self.last_success_ms = now_ms;
    }

    /// Whether the tick must encode and write a full snapshot.
    pub fn should_publish(&self, current_generation: u64) -> (r: bool)
        ensures
            r == wants_publish(*self, current_generation),
    {
        current_generation != self.last_generation || self.consecutive_failures > FAILURE_LIMIT
    }

    /// Records a successful full publish of `current_generation` at
    /// `now_ms`: failures clear, and if the publisher had gone idle it
    /// returns to the fast interval.
    pub fn note_publish_ok(&mut self, now_ms: u64, current_generation: u64)
        ensures
            final(self).last_generation == current_generation,
            final(self).last_success_ms == now_ms,
            final(self).consecutive_failures == 0,
            final(self).idle_cycles == 0,
            final(self).fast == (old(self).idle_cycles > 0 || old(self).fast),
    {
        self.last_generation = current_generation;
        self.last_success_ms = now_ms;
        self.consecutive_failures = 0;
        if self.idle_cycles > 0 {
            self.fast = true;
            self.idle_cycles = 0;
        }
    }

    /// Records a failed publish; returns whether the failure run is now
    /// long enough that the caller must recreate the region.
    pub fn note_publish_err(&mut self) -> (recreate: bool)
        ensures
            final(self).consecutive_failures == if old(self).consecutive_failures < u32::MAX {
                (old(self).consecutive_failures + 1) as u32
            } else {
                old(self).consecutive_failures
            },
            recreate == (final(self).consecutive_failures > FAILURE_LIMIT),
            final(self).last_generation == old(self).last_generation,
            final(self).last_success_ms == old(self).last_success_ms,
            final(self).idle_cycles == old(self).idle_cycles,
            final(self).fast == old(self).fast,
    {
        if self.consecutive_failures < u32::MAX {
            self.consecutive_failures = self.consecutive_failures + 1;
        }
        self.consecutive_failures > FAILURE_LIMIT
    }

    /// Records that the region was recreated after repeated write
    /// failures: the failure run starts over.
    pub fn note_recreated_after_failures(&mut self, now_ms: u64)
        ensures
            final(self).consecutive_failures == 0,
            final(self).last_success_ms == now_ms,
            final(self).last_generation == old(self).last_generation,
            final(self).idle_cycles == old(self).idle_cycles,
            final(self).fast == old(self).fast,
    {
        self.consecutive_failures = 0;
        self.last_success_ms = now_ms;
    }

    /// Records an idle tick (generation unchanged, no forced write).
    /// After enough idle ticks polling slows down; returns whether this
    /// tick is due for a freshness rewrite of the region anyway.
    pub fn note_idle(&mut self) -> (freshen: bool)
        ensures
            final(self).idle_cycles == if old(self).idle_cycles < u64::MAX {
                (old(self).idle_cycles + 1) as u64
            } else {
                old(self).idle_cycles
            },
            final(self).fast == (old(self).fast && final(self).idle_cycles != IDLE_SWITCH_TICKS),
            freshen == (final(self).idle_cycles % IDLE_REFRESH_TICKS == 0),
            final(self).last_generation == old(self).last_generation,
            final(self).last_success_ms == old(self).last_success_ms,
            final(self).consecutive_failures == old(self).consecutive_failures,
    {
        if self.idle_cycles < u64::MAX {
            self.idle_cycles = self.idle_cycles + 1;
        }
        if self.idle_cycles == IDLE_SWITCH_TICKS {
            self.fast = false;
        }
        self.idle_cycles % IDLE_REFRESH_TICKS == 0
    }

    /// Records a successful freshness rewrite: only the write clock moves.
    pub fn note_freshen_ok(&mut self, now_ms: u64)
        ensures
            final(self).last_success_ms == now_ms,
            final(self).last_generation == old(self).last_generation,
            final(self).idle_cycles == old(self).idle_cycles,
            final(self).consecutive_failures == old(self).consecutive_failures,
            final(self).fast == old(self).fast,
    {
        self.last_success_ms = now_ms;
    }
}

/// Law: a tick that finds the region stale, after recreating it, publishes
/// a full snapshot rather than skipping for an unchanged generation -
/// whatever generation it had published before (provided the cache has
/// ever been mutated, so its generation is not zero).
pub proof fn lemma_staleness_forces_republish(s: PublisherState, now_ms: u64, g: u64)
    requires
        is_stale(s, now_ms),
        g != 0,
    ensures
        wants_publish(recreated_stale(s, now_ms), g),
{
}

/// Law: while the region is fresh, the generation has not moved, and no
/// failure run is pending, a tick writes nothing - the generation
/// comparison is what spares the encode.
pub proof fn lemma_unchanged_generation_skips(s: PublisherState, now_ms: u64)
    requires
        !is_stale(s, now_ms),
        s.consecutive_failures <= FAILURE_LIMIT,
    ensures
        !wants_publish(s, s.last_generation),
{
}

/// Turns a cache snapshot into its wire form: every name as its UTF-8
/// bytes, the publish timestamp stamped in.
pub fn snapshot_to_wire(snapshot: &CacheSnapshot, timestamp_ms: u64) -> (r: WireSnapshot)
    ensures
        r@.generation == snapshot.generation,
        r@.timestamp_ms == timestamp_ms,
        r@.sinks.len() == snapshot.sinks@.len(),
        forall|i: int|
            0 <= i < snapshot.sinks@.len() ==> r@.sinks[i] == (WireSinkV {
                name: encode_utf8(snapshot.sinks@[i].0@),
                id: snapshot.sinks@[i].1.id,
                volume: snapshot.sinks@[i].1.volume,
                muted: snapshot.sinks@[i].1.muted,
            }),
        r@.apps.len() == snapshot.apps@.len(),
        forall|i: int|
            0 <= i < snapshot.apps@.len() ==> r@.apps[i] == (WireAppV {
                name: encode_utf8(snapshot.apps@[i].0@),
                current_sink: encode_utf8(snapshot.apps@[i].1.current_sink@),
                active: snapshot.apps@[i].1.active,
            }),
{
    let mut sinks: Vec<WireSink> = Vec::new();
    let mut i: usize = 0;
    while i < snapshot.sinks.len()
        invariant
            i <= snapshot.sinks@.len(),
            sinks@.len() == i,
            forall|j: int|
                0 <= j < i ==> sinks@[j]@ == (WireSinkV {
                    name: encode_utf8(snapshot.sinks@[j].0@),
                    id: snapshot.sinks@[j].1.id,
                    volume: snapshot.sinks@[j].1.volume,
                    muted: snapshot.sinks@[j].1.muted,
                }),
        decreases snapshot.sinks@.len() - i,
    {
        let entry = &snapshot.sinks[i];
        sinks.push(
            WireSink {
                name: entry.0.as_str().as_bytes_vec(),
                id: entry.1.id,
                volume: entry.1.volume,
                muted: entry.1.muted,
            },
        );
        i = i + 1;
    }
    let mut apps: Vec<WireApp> = Vec::new();
    let mut i: usize = 0;
    while i < snapshot.apps.len()
        invariant
            i <= snapshot.apps@.len(),
            apps@.len() == i,
            forall|j: int|
                0 <= j < i ==> apps@[j]@ == (WireAppV {
                    name: encode_utf8(snapshot.apps@[j].0@),
                    current_sink: encode_utf8(snapshot.apps@[j].1.current_sink@),
                    active: snapshot.apps@[j].1.active,
                }),
        decreases snapshot.apps@.len() - i,
    {
        let entry = &snapshot.apps[i];
        apps.push(
            WireApp {
                name: entry.0.as_str().as_bytes_vec(),
                current_sink: entry.1.current_sink.as_str().as_bytes_vec(),
                active: entry.1.active,
            },
        );
        i = i + 1;
    }
    let r = WireSnapshot { generation: snapshot.generation, timestamp_ms, sinks, apps };
    proof {
        assert(forall|j: int|
            0 <= j < r.sinks@.len() ==> r@.sinks[j] == r.sinks@[j]@);
        assert(forall|j: int| 0 <= j < r.apps@.len() ==> r@.apps[j] == r.apps@[j]@);
    }
    r
}

} // verus!
