//! Structop tracking: per-callback context for trace messages.
//!
//! A "structop" is one invocation of a scheduler ops callback (dispatch,
//! enqueue, select_cpu, etc.). Each worker thread owns a [`StructopTracker`];
//! all of them share one [`StructopGlobals`].

use vstd::prelude::*;

verus! {

/// Snapshot of structop tracking for trace output.
///
/// All counters are monotonically increasing across the entire simulation for
/// a given CPU.
#[derive(Debug, Clone, Copy, PartialEq, Eq, Structural)]
pub struct StructopInfo {
    /// Per-CPU structop call count (monotonically increasing).
    pub cpu_count: u64,
    /// Global structop call count across all CPUs (monotonically increasing).
    pub global_count: u64,
    /// Cumulative RBC count on this CPU (monotonically increasing).
    pub rbc_total: u64,
    /// Cumulative cooperative yield count on this CPU (monotonically increasing).
    pub kfunc_count: u64,
    /// Cumulative count of cooperative and preemptive yields on this CPU
    /// (monotonically increasing).
    pub interleave_count: u64,
}

impl Default for StructopInfo {
    fn default() -> (r: StructopInfo)
        ensures
            r == (StructopInfo {
                cpu_count: 0,
                global_count: 0,
                rbc_total: 0,
                kfunc_count: 0,
                interleave_count: 0,
            }),
    {
        StructopInfo {
            cpu_count: 0,
            global_count: 0,
            rbc_total: 0,
            kfunc_count: 0,
            interleave_count: 0,
        }
    }
}

/// The structop counters of one worker thread.
#[derive(Debug, Clone, Copy, PartialEq, Eq, Structural)]
pub struct StructopTracker {
    /// Structops this worker has entered.
    pub cpu_count: u64,
    /// Retired conditional branches on this worker.
    pub rbc_total: u64,
    /// Cooperative yields on this worker.
    pub kfunc_count: u64,
    /// Cooperative and preemptive yields on this worker.
    pub interleave_count: u64,
    /// Whether the worker is inside a structop.
    pub in_structop: bool,
}

/// The structop counter that all worker threads share.
#[derive(Debug, Clone, Copy, PartialEq, Eq, Structural)]
pub struct StructopGlobals {
    /// Structops that all workers have entered.
    pub global_count: u64,
}

impl StructopTracker {
    /// Counters at zero, outside any structop.
    pub fn new() -> (r: StructopTracker)
        ensures
            r == (StructopTracker {
                cpu_count: 0,
                rbc_total: 0,
                kfunc_count: 0,
                interleave_count: 0,
                in_structop: false,
            }),
    {
        StructopTracker {
            cpu_count: 0,
            rbc_total: 0,
            kfunc_count: 0,
            interleave_count: 0,
            in_structop: false,
        }
    }
}

impl StructopGlobals {
    /// The counter at zero.
    pub fn new() -> (r: StructopGlobals)
        ensures
            r == (StructopGlobals { global_count: 0 }),
    {
        StructopGlobals { global_count: 0 }
    }
}

/// The tracking state as a snapshot.
pub open spec fn snapshot(t: StructopTracker, g: StructopGlobals) -> StructopInfo {
    StructopInfo {
        cpu_count: t.cpu_count,
        global_count: g.global_count,
        rbc_total: t.rbc_total,
        kfunc_count: t.kfunc_count,
        interleave_count: t.interleave_count,
    }
}

/// The next value of a counter that starts over at its maximum.
pub open spec fn wrapping_next(n: u64) -> u64 {
    if n == u64::MAX {
        0
    } else {
        (n + 1) as u64
    }
}

/// A worker's counters when it is seen inside (`in_ops`) or outside a callback:
/// a structop begins where the worker was outside and is seen inside.
pub open spec fn tracker_seen(t: StructopTracker, in_ops: bool) -> StructopTracker {
    StructopTracker {
        cpu_count: if in_ops && !t.in_structop {
            (t.cpu_count + 1) as u64
        } else {
            t.cpu_count
        },
        in_structop: in_ops,
        ..t
    }
}

/// The shared counter when a worker is seen inside or outside a callback.
pub open spec fn globals_seen(
    t: StructopTracker,
    g: StructopGlobals,
    in_ops: bool,
) -> StructopGlobals {
    StructopGlobals {
        global_count: if in_ops && !t.in_structop {
            wrapping_next(g.global_count)
        } else {
            g.global_count
        },
    }
}

/// The counters of a worker that starts from the totals of previous rounds. Its yields
/// are counted anew: they are what it adds to the totals.
pub open spec fn seeded(base: StructopInfo) -> StructopTracker {
    StructopTracker {
        cpu_count: base.cpu_count,
        rbc_total: base.rbc_total,
        kfunc_count: base.kfunc_count,
        interleave_count: 0,
        in_structop: false,
    }
}

/// Seed a worker's structop counters with base offsets from previous dispatch
/// rounds. The count of its yields starts at zero.
pub fn seed_structop(tracker: &mut StructopTracker, base: &StructopInfo)
    ensures
        *final(tracker) == seeded(*base),
{
    tracker.cpu_count = base.cpu_count;
    tracker.rbc_total = base.rbc_total;
    tracker.kfunc_count = base.kfunc_count;
    tracker.interleave_count = 0;
    tracker.in_structop = false;
}

/// Begin a new structop: increment per-CPU and global counts.
fn begin_structop(tracker: &mut StructopTracker, globals: &mut StructopGlobals)
    requires
        old(tracker).cpu_count < u64::MAX,
    ensures
        *final(tracker) == (StructopTracker {
            cpu_count: (old(tracker).cpu_count + 1) as u64,
            ..*old(tracker)
        }),
        final(globals).global_count == wrapping_next(old(globals).global_count),
{
    tracker.cpu_count = tracker.cpu_count + 1;
    globals.global_count = globals.global_count.wrapping_add(1);
}

/// Read current structop tracking state.
pub fn structop_info(tracker: &StructopTracker, globals: &StructopGlobals) -> (r: StructopInfo)
    ensures
        r == snapshot(*tracker, *globals),
{
    StructopInfo {
        cpu_count: tracker.cpu_count,
        global_count: globals.global_count,
        rbc_total: tracker.rbc_total,
        kfunc_count: tracker.kfunc_count,
        interleave_count: tracker.interleave_count,
    }
}

/// Record RBC consumed by a preemption on this worker.
///
/// Accumulates into the monotonic per-CPU RBC total.
pub fn record_rbc_preemption(tracker: &mut StructopTracker, timeslice: u64)
    requires
        old(tracker).rbc_total + timeslice <= u64::MAX,
    ensures
        *final(tracker) == (StructopTracker {
            rbc_total: (old(tracker).rbc_total + timeslice) as u64,
            ..*old(tracker)
        }),
{
    tracker.rbc_total = tracker.rbc_total + timeslice;
}

/// Increment the per-CPU kfunc yield counter (monotonic).
pub fn inc_structop_kfunc(tracker: &mut StructopTracker)
    requires
        old(tracker).kfunc_count < u64::MAX,
    ensures
        *final(tracker) == (StructopTracker {
            kfunc_count: (old(tracker).kfunc_count + 1) as u64,
            ..*old(tracker)
        }),
{
    tracker.kfunc_count = tracker.kfunc_count + 1;
}

/// Increment the per-CPU count of yields of either kind (monotonic).
pub fn inc_interleave(tracker: &mut StructopTracker)
    requires
        old(tracker).interleave_count < u64::MAX,
    ensures
        *final(tracker) == (StructopTracker {
            interleave_count: (old(tracker).interleave_count + 1) as u64,
            ..*old(tracker)
        }),
{
    tracker.interleave_count = tracker.interleave_count + 1;
}

/// Detect structop boundary transitions and begin a structop when entering a
/// new ops callback.
pub fn maybe_begin_structop(
    tracker: &mut StructopTracker,
    globals: &mut StructopGlobals,
    in_ops: bool,
)
    requires
        in_ops && !old(tracker).in_structop ==> old(tracker).cpu_count < u64::MAX,
    ensures
        *final(tracker) == tracker_seen(*old(tracker), in_ops),
        *final(globals) == globals_seen(*old(tracker), *old(globals), in_ops),
{
    if in_ops && !tracker.in_structop {
        tracker.in_structop = true;
        begin_structop(tracker, globals);
    } else if !in_ops {
        tracker.in_structop = false;
    }
}

/// Reset the per-worker structop counters (call when a worker finishes).
pub fn reset_structop_cpu_count(tracker: &mut StructopTracker)
    ensures
        *final(tracker) == (StructopTracker {
            cpu_count: 0,
            rbc_total: 0,
            kfunc_count: 0,
            interleave_count: 0,
            in_structop: false,
        }),
{
    tracker.cpu_count = 0;
    tracker.rbc_total = 0;
    tracker.kfunc_count = 0;
    tracker.interleave_count = 0;
    tracker.in_structop = false;
}

/// Reset global structop count (call between dispatch rounds).
pub fn reset_structop_globals(globals: &mut StructopGlobals)
    ensures
        final(globals).global_count == 0,
{
    globals.global_count = 0;
}

// ---------------------------------------------------------------------------
// Laws
// ---------------------------------------------------------------------------

/// A worker's counters after a series of sightings.
pub open spec fn tracker_after(t: StructopTracker, seen: Seq<bool>) -> StructopTracker
    decreases seen.len(),
{
    if seen.len() == 0 {
        t
    } else {
        tracker_seen(tracker_after(t, seen.drop_last()), seen.last())
    }
}

/// The number of times a series of sightings goes from outside to inside, where
/// the worker is inside (`inside`) or outside before the first.
pub open spec fn entries(inside: bool, seen: Seq<bool>) -> nat
    decreases seen.len(),
{
    if seen.len() == 0 {
        0
    } else {
        let before = if seen.len() == 1 {
            inside
        } else {
            seen[seen.len() - 2]
        };
        entries(inside, seen.drop_last()) + if seen.last() && !before {
            1nat
        } else {
            0nat
        }
    }
}

/// The structop counter grows by the number of callbacks entered, however often
/// a callback is seen; the other counters stay.
pub proof fn law_structops_count_entries(t: StructopTracker, seen: Seq<bool>)
    requires
        t.cpu_count + entries(t.in_structop, seen) <= u64::MAX,
    ensures
        tracker_after(t, seen).cpu_count == t.cpu_count + entries(t.in_structop, seen),
        tracker_after(t, seen).in_structop == if seen.len() == 0 {
            t.in_structop
        } else {
            seen.last()
        },
        tracker_after(t, seen).rbc_total == t.rbc_total,
        tracker_after(t, seen).kfunc_count == t.kfunc_count,
        tracker_after(t, seen).interleave_count == t.interleave_count,
    decreases seen.len(),
{
    if seen.len() > 0 {
        law_structops_count_entries(t, seen.drop_last());
        if seen.len() > 1 {
            assert(seen.drop_last().last() == seen[seen.len() - 2]);
        }
    }
}

/// The counters of a worker never fall: a sighting adds a structop or none.
pub proof fn law_counters_never_fall(t: StructopTracker, in_ops: bool)
    requires
        in_ops && !t.in_structop ==> t.cpu_count < u64::MAX,
    ensures
        t.cpu_count <= tracker_seen(t, in_ops).cpu_count <= t.cpu_count + 1,
        tracker_seen(t, in_ops).rbc_total == t.rbc_total,
        tracker_seen(t, in_ops).kfunc_count == t.kfunc_count,
        tracker_seen(t, in_ops).interleave_count == t.interleave_count,
{
}

/// A snapshot shows every counter as it is, and a shared counter that ends starts over.
pub proof fn law_snapshot_shows_the_counters(t: StructopTracker, g: StructopGlobals, n: u64)
    ensures
        snapshot(t, g).cpu_count == t.cpu_count,
        snapshot(t, g).global_count == g.global_count,
        snapshot(t, g).rbc_total == t.rbc_total,
        snapshot(t, g).kfunc_count == t.kfunc_count,
        snapshot(t, g).interleave_count == t.interleave_count,
        n < u64::MAX ==> wrapping_next(n) == n + 1,
        wrapping_next(u64::MAX) == 0,
{
}

/// A seeded worker goes on from the totals of previous rounds, outside any structop,
/// with no yields of its own.
pub proof fn law_seed_carries_the_totals(base: StructopInfo)
    ensures
        seeded(base).cpu_count == base.cpu_count,
        seeded(base).rbc_total == base.rbc_total,
        seeded(base).kfunc_count == base.kfunc_count,
        seeded(base).interleave_count == 0,
        !seeded(base).in_structop,
{
}

/// A worker that is seen is inside a structop exactly when it is seen in a callback; the
/// global count grows with the worker's.
pub proof fn law_sightings_count_once(t: StructopTracker, g: StructopGlobals)
    requires
        t.cpu_count < u64::MAX,
        g.global_count < u64::MAX,
    ensures
        tracker_seen(t, true).in_structop,
        !tracker_seen(t, false).in_structop,
        tracker_seen(t, true).cpu_count - t.cpu_count == globals_seen(t, g, true).global_count
            - g.global_count,
        !t.in_structop ==> tracker_seen(t, true).cpu_count == t.cpu_count + 1,
        t.in_structop ==> tracker_seen(t, true).cpu_count == t.cpu_count,
        tracker_seen(t, false).cpu_count == t.cpu_count,
        globals_seen(t, g, false).global_count == g.global_count,
        tracker_seen(tracker_seen(t, true), true) == tracker_seen(t, true),
{
}

} // verus!
