//! Deferred yields: what happens at a kfunc boundary when the software counter of a
//! worker has expired (see [`stalker`]).
//!
//! The first half takes the pending yield and preempts the worker as a timer signal
//! would. The second half, when the worker has been selected again, re-arms the
//! counter with a fresh random timeslice.

use vstd::prelude::*;

use crate::preempt::record;
use crate::preempt::record::{PreemptionCollector, PreemptionSequence};
use crate::preempt::ring;
use crate::preempt::ring::{PreemptRing, RingView};
use crate::preempt::structop;
use crate::preempt::structop::{StructopGlobals, StructopTracker};
use crate::preempt::yields;
use crate::preempt::yields::{
    preemptive_yield, resume_yield, PendingYield, PreemptCtx, SimContext, YieldKind,
};
use crate::stalker;
use crate::stalker::{
    rearm_software_rbc, record_rbc_expiry, take_yield_pending, SoftwareRbc, StalkerGlobals,
};

verus! {

/// A thread whose expired counter has been noticed: no yield is pending any more, and
/// the branches of the timeslice have been counted.
pub open spec fn expired(s: SoftwareRbc) -> SoftwareRbc {
    SoftwareRbc {
        yield_pending: false,
        rbc_total: (s.rbc_total + s.current_timeslice) as u64,
        ..s
    }
}

/// The branch at which a counter has expired.
pub open spec fn expired_at(s: SoftwareRbc) -> u64 {
    s.yield_rip
}

/// The number of branches after which a counter has expired.
pub open spec fn expired_after(s: SoftwareRbc) -> u64 {
    s.current_timeslice
}

/// A thread that is armed anew with a timeslice.
pub open spec fn rearmed(s: SoftwareRbc, timeslice: u64) -> SoftwareRbc {
    SoftwareRbc {
        counter: timeslice,
        yield_pending: false,
        current_timeslice: timeslice,
        ..s
    }
}

/// Whether a timeslice for the software counter can be rolled.
pub open spec fn has_timeslices(ctx: PreemptCtx) -> bool {
    &&& ctx.timeslice_min <= ctx.timeslice_max
    &&& ctx.timeslice_max - ctx.timeslice_min < u64::MAX
}

/// Deferred yield point for kfunc entry: the first half.
///
/// If the worker's counter has expired, this counts the deferred yield and the
/// branches of the timeslice, and preempts the worker at the branch that brought the
/// counter to zero. No-op if no yield is pending, or if preemptive interleaving is
/// not active on the worker.
pub fn maybe_yield_deferred(
    slot: &Option<PreemptCtx>,
    ring: &mut PreemptRing,
    sim: &SimContext,
    state: &mut SoftwareRbc,
    counters: &mut StalkerGlobals,
    tracker: &mut StructopTracker,
    globals: &StructopGlobals,
    sequence: &mut PreemptionSequence,
    collector: &mut PreemptionCollector,
) -> (r: Option<PendingYield>)
    requires
        old(ring)@.wf(),
        *slot matches Some(ctx) ==> old(state).yield_pending ==> {
            &&& ctx.fits(old(ring)@.running.len())
            &&& old(state).rbc_total + old(state).current_timeslice <= u64::MAX
            &&& old(tracker).rbc_total + old(state).current_timeslice <= u64::MAX
            &&& old(tracker).interleave_count < u64::MAX
        },
    ensures
        final(ring)@.wf(),
        if *slot is Some && old(state).yield_pending {
            &&& *final(state) == expired(*old(state))
            &&& *final(counters) == (StalkerGlobals {
                deferred_yields: structop::wrapping_next(old(counters).deferred_yields),
                ..*old(counters)
            })
            &&& yields::preempts(
                YieldKind::Deferred,
                slot->0,
                *sim,
                expired_at(*old(state)),
                expired_after(*old(state)),
                old(ring)@,
                final(ring)@,
                *old(tracker),
                *final(tracker),
                *globals,
                *old(sequence),
                *final(sequence),
                old(collector)@,
                final(collector)@,
                r,
            )
        } else {
            &&& r is None
            &&& *final(state) == *old(state)
            &&& *final(counters) == *old(counters)
            &&& final(ring)@ == old(ring)@
            &&& *final(tracker) == *old(tracker)
            &&& *final(sequence) == *old(sequence)
            &&& final(collector)@ == old(collector)@
        },
        *slot is Some && old(state).yield_pending ==> {
            &&& final(state).rbc_total == old(state).rbc_total + old(state).current_timeslice
            &&& !final(state).yield_pending
            &&& r matches Some(p) && p.saved == *sim && p.ctx == slot->0
            &&& old(ring)@.records.len() < record::MAX_PREEMPTION_RECORDS ==> {
                let rec = final(ring)@.records.last();
                &&& rec.rbc_count == old(state).current_timeslice
                &&& rec.instruction_pointer == old(state).yield_rip
            }
        },
{
    let ctx: PreemptCtx = match slot {
        Some(ctx) => *ctx,
        None => {
            return None;
        },
    };
    match take_yield_pending(state, counters) {
        None => None,
        Some(rip) => {
            let timeslice: u64 = state.current_timeslice;
            record_rbc_expiry(state);
            Some(
                preemptive_yield(
                    YieldKind::Deferred,
                    ctx,
                    ring,
                    *sim,
                    rip,
                    timeslice,
                    tracker,
                    globals,
                    sequence,
                    collector,
                ),
            )
        },
    }
}

/// The second half of a deferred yield, when the worker has been selected again:
/// restores the callback context and re-arms the counter with a fresh random
/// timeslice.
pub fn resume_deferred_yield(
    pending: &PendingYield,
    ring: &mut PreemptRing,
    sim: &mut SimContext,
    state: &mut SoftwareRbc,
)
    requires
        old(ring)@.wf(),
        pending.kind == YieldKind::Deferred,
        has_timeslices(pending.ctx),
    ensures
        final(ring)@.wf(),
        *final(sim) == pending.saved,
        *final(state) == rearmed(
            *old(state),
            ring::rolled(
                ring::xorshift(old(ring)@.prng),
                pending.ctx.timeslice_min,
                pending.ctx.timeslice_max,
            ),
        ),
        pending.ctx.timeslice_min <= final(state).counter <= pending.ctx.timeslice_max,
        final(ring)@ == if pending.ctx.timeslice_min == pending.ctx.timeslice_max {
            old(ring)@
        } else {
            RingView { prng: ring::xorshift(old(ring)@.prng), ..old(ring)@ }
        },
{
    let _ = resume_yield(pending, ring, sim);
    let timeslice: u64 = ring.roll_timeslice(pending.ctx.timeslice_min, pending.ctx.timeslice_max);
    rearm_software_rbc(state, timeslice);
}

// ---------------------------------------------------------------------------
// Laws
// ---------------------------------------------------------------------------

/// From one deferred yield to the next every branch counts once: a thread that is
/// re-armed with a timeslice, and runs that many branches, has a yield pending at the
/// last of them; when that is taken, the timeslice has been added to its branches.
pub proof fn law_deferred_yields_count_branches(s: SoftwareRbc, timeslice: u64, addrs: Seq<u64>)
    requires
        0 < timeslice < stalker::DISARMED,
        addrs.len() >= timeslice,
        s.rbc_total + timeslice <= u64::MAX,
    ensures
        ({
            let run = stalker::after_callouts(rearmed(s, timeslice), addrs);
            &&& run.yield_pending
            &&& run.yield_rip == addrs[timeslice - 1]
            &&& expired_at(run) == addrs[timeslice - 1]
            &&& expired_after(run) == timeslice
            &&& !expired(run).yield_pending
            &&& expired(run).rbc_total == s.rbc_total + timeslice
        }),
{
    stalker::law_timeslice_is_exact(rearmed(s, timeslice), addrs);
    lemma_callouts_keep_totals(rearmed(s, timeslice), addrs);
}

proof fn lemma_callouts_keep_totals(s: SoftwareRbc, addrs: Seq<u64>)
    ensures
        stalker::after_callouts(s, addrs).rbc_total == s.rbc_total,
        stalker::after_callouts(s, addrs).current_timeslice == s.current_timeslice,
    decreases addrs.len(),
{
    if addrs.len() > 0 {
        lemma_callouts_keep_totals(s, addrs.drop_last());
    }
}

/// Noticing an expired counter takes the pending yield away and adds the timeslice to
/// the branches; re-arming sets the counter and the timeslice. Both leave all else as it
/// is.
pub proof fn law_deferred_yield_touches_only_the_count(s: SoftwareRbc, timeslice: u64)
    requires
        s.rbc_total + s.current_timeslice <= u64::MAX,
    ensures
        expired(s).rbc_total == s.rbc_total + s.current_timeslice,
        !expired(s).yield_pending,
        expired(s).counter == s.counter,
        expired(s).current_timeslice == s.current_timeslice,
        expired(s).active == s.active,
        expired(s).yield_rip == s.yield_rip,
        expired(s).text_base == s.text_base,
        expired(s).cpu_count == s.cpu_count,
        expired(s).kfunc_count == s.kfunc_count,
        expired(s).in_structop == s.in_structop,
        rearmed(s, timeslice).counter == timeslice,
        rearmed(s, timeslice).current_timeslice == timeslice,
        !rearmed(s, timeslice).yield_pending,
        rearmed(s, timeslice).rbc_total == s.rbc_total,
        rearmed(s, timeslice).active == s.active,
        rearmed(s, timeslice).yield_rip == s.yield_rip,
        rearmed(s, timeslice).text_base == s.text_base,
        rearmed(s, timeslice).cpu_count == s.cpu_count,
        rearmed(s, timeslice).kfunc_count == s.kfunc_count,
        rearmed(s, timeslice).in_structop == s.in_structop,
{
}

} // verus!
