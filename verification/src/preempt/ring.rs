//! The token ring that serializes the workers of a preemptive round.
//!
//! Exactly one worker runs at a time. When it yields or finishes, a PRNG chooses
//! the next one, so that the interleaving is a function of the seed. The ring
//! decides who runs; the caller wakes the worker that an operation names and
//! blocks the ones that [`PreemptRing::wait_for_token`] tells to wait.

use vstd::prelude::*;

use crate::preempt::record;
use crate::preempt::record::{
    make_record, maybe_collect_global, PreemptionCollector, PreemptionRecord,
    PreemptionRecordStore, PreemptionSequence,
};
use crate::preempt::structop;
use crate::preempt::structop::StructopInfo;
use crate::types::{CpuId, WorkerId};

verus! {

/// The largest number of workers in a ring.
pub const MAX_WORKERS: usize = 64;

/// The state of a [`PreemptRing`].
#[verifier::ext_equal]
pub struct RingView {
    /// PRNG state, never zero.
    pub prng: u32,
    /// Which workers have been told to run.
    pub running: Seq<bool>,
    /// Which workers have finished.
    pub finished: Seq<bool>,
    /// Whether the orchestrator has been told that all workers have finished.
    pub all_done: bool,
    /// Signal-driven preemptions.
    pub signal_preempt_count: u64,
    /// Cooperative yields.
    pub cooperative_yield_count: u64,
    /// The preemption records, in the order in which they were made.
    pub records: Seq<PreemptionRecord>,
}

/// The PRNG step: xorshift with the shifts 13, 17 and 5.
pub open spec fn xorshift(x: u32) -> u32 {
    let a = x ^ (x << 13);
    let b = a ^ (a >> 17);
    b ^ (b << 5)
}

/// The workers that have not finished, in ascending order.
pub open spec fn unfinished(finished: Seq<bool>) -> Seq<nat>
    decreases finished.len(),
{
    if finished.len() == 0 {
        seq![]
    } else if finished.last() {
        unfinished(finished.drop_last())
    } else {
        unfinished(finished.drop_last()).push((finished.len() - 1) as nat)
    }
}

impl RingView {
    /// Whether this is the state of a ring.
    pub open spec fn wf(self) -> bool {
        &&& 1 <= self.finished.len() <= MAX_WORKERS
        &&& self.running.len() == self.finished.len()
        &&& self.prng != 0
        &&& self.all_done <==> unfinished(self.finished).len() == 0
        &&& self.records.len() <= record::MAX_PREEMPTION_RECORDS
    }

    /// The worker that the PRNG chooses next, if any has not finished.
    pub open spec fn next(self) -> Option<nat> {
        let ids = unfinished(self.finished);
        if ids.len() == 0 {
            None
        } else {
            Some(ids[xorshift(self.prng) as int % ids.len() as int])
        }
    }

    /// The state after the PRNG has chosen.
    pub open spec fn after_choice(self) -> RingView {
        if self.next() is Some {
            RingView { prng: xorshift(self.prng), ..self }
        } else {
            self
        }
    }

    /// The state after the PRNG has chosen and the chosen worker has been told to
    /// run.
    pub open spec fn passed(self) -> RingView {
        match self.next() {
            Some(n) => RingView {
                running: self.running.update(n as int, true),
                ..self.after_choice()
            },
            None => self,
        }
    }

    /// The state with worker `w` parked.
    pub open spec fn parked(self, w: int) -> RingView {
        RingView { running: self.running.update(w, false), ..self }
    }

    /// The state with worker `w` finished.
    pub open spec fn ended(self, w: int) -> RingView {
        RingView { finished: self.finished.update(w, true), ..self }
    }

    /// The state after worker `w` has finished: the token goes to the next
    /// worker, and the last worker tells the orchestrator.
    pub open spec fn after_finish(self, w: int) -> RingView {
        let e = self.ended(w);
        if unfinished(e.finished).len() == 0 {
            RingView { all_done: true, ..e }
        } else {
            e.passed()
        }
    }

    /// Whether worker `w` holds the token.
    pub open spec fn holds_token(self, w: int) -> bool {
        0 <= w < self.running.len() && self.running[w] && !self.finished[w]
    }
}

/// The timeslice that the PRNG value `x` rolls in `[min, max]`.
pub open spec fn rolled(x: u32, min: u64, max: u64) -> u64 {
    if max <= min {
        min
    } else {
        (min + x as int % (max - min + 1)) as u64
    }
}

/// Members of the list of unfinished workers.
pub proof fn lemma_unfinished(finished: Seq<bool>)
    ensures
        unfinished(finished).len() <= finished.len(),
        forall|i: int|
            0 <= i < unfinished(finished).len() ==> {
                &&& (#[trigger] unfinished(finished)[i]) < finished.len()
                &&& !finished[unfinished(finished)[i] as int]
            },
        forall|w: int|
            0 <= w < finished.len() && !(#[trigger] finished[w]) ==> unfinished(finished).contains(
                w as nat,
            ),
    decreases finished.len(),
{
    if finished.len() > 0 {
        let t = finished.drop_last();
        lemma_unfinished(t);
        let ids = unfinished(finished);
        assert forall|i: int| 0 <= i < ids.len() implies (#[trigger] ids[i]) < finished.len()
            && !finished[ids[i] as int] by {
            if i < unfinished(t).len() {
                assert(ids[i] == unfinished(t)[i]);
                assert(t[ids[i] as int] == finished[ids[i] as int]);
            }
        }
        assert forall|w: int| 0 <= w < finished.len() && !(#[trigger] finished[w]) implies
            ids.contains(w as nat) by {
            if w < t.len() {
                assert(t[w] == finished[w]);
                let i = choose|i: int| 0 <= i < unfinished(t).len() && unfinished(t)[i] == w as nat;
                assert(ids[i] == w as nat);
            } else {
                assert(ids[ids.len() - 1] == w as nat);
            }
        }
    }
}

/// The list of unfinished workers of a prefix is a prefix of the list.
proof fn lemma_unfinished_take(finished: Seq<bool>, n: int)
    requires
        0 <= n <= finished.len(),
    ensures
        unfinished(finished.take(n)).len() <= unfinished(finished).len(),
        unfinished(finished).take(unfinished(finished.take(n)).len() as int) == unfinished(
            finished.take(n),
        ),
    decreases finished.len(),
{
    if n == finished.len() {
        assert(finished.take(n) =~= finished);
        assert(unfinished(finished).take(unfinished(finished).len() as int) =~= unfinished(
            finished,
        ));
    } else {
        let t = finished.drop_last();
        lemma_unfinished_take(t, n);
        assert(t.take(n) =~= finished.take(n));
        assert(unfinished(finished).take(unfinished(finished.take(n)).len() as int) =~= unfinished(
            finished.take(n),
        ));
    }
}

proof fn lemma_xorshift_nonzero(x: u32)
    requires
        x != 0,
    ensures
        xorshift(x) != 0,
{
    assert(x != 0 ==> ({
        let a = x ^ (x << 13);
        let b = a ^ (a >> 17);
        b ^ (b << 5)
    }) != 0) by (bit_vector);
}

/// Token ring for the workers of a preemptive round.
///
/// NOTE: This intentionally uses a hand-rolled xorshift32 so that the PRNG state
/// is a single word.
pub struct PreemptRing {
    running: Vec<bool>,
    finished: Vec<bool>,
    prng: u32,
    all_done: bool,
    signal_preempt_count: u64,
    cooperative_yield_count: u64,
    preemption_records: PreemptionRecordStore,
}

impl View for PreemptRing {
    type V = RingView;

    closed spec fn view(&self) -> RingView {
        RingView {
            prng: self.prng,
            running: self.running@,
            finished: self.finished@,
            all_done: self.all_done,
            signal_preempt_count: self.signal_preempt_count,
            cooperative_yield_count: self.cooperative_yield_count,
            records: self.preemption_records@,
        }
    }
}

/// The state of a new ring. The PRNG cannot start at zero, so that the seed zero
/// stands for one.
pub open spec fn new_ring(total: nat, seed: u32) -> RingView {
    RingView {
        prng: if seed == 0 {
            1
        } else {
            seed
        },
        running: Seq::new(total, |i: int| false),
        finished: Seq::new(total, |i: int| false),
        all_done: false,
        signal_preempt_count: 0,
        cooperative_yield_count: 0,
        records: seq![],
    }
}

impl PreemptRing {
    /// Create a new preemptive ring for `total` workers.
    pub fn new(total: usize, seed: u32) -> (r: PreemptRing)
        requires
            1 <= total <= MAX_WORKERS,
        ensures
            r@ == new_ring(total as nat, seed),
            r@.wf(),
    {
        let prng: u32 = if seed == 0 {
            1
        } else {
            seed
        };
        let mut running: Vec<bool> = Vec::new();
        let mut finished: Vec<bool> = Vec::new();
        let mut i: usize = 0;
        while i < total
            invariant
                i <= total,
                running@ =~= Seq::new(i as nat, |j: int| false),
                finished@ =~= Seq::new(i as nat, |j: int| false),
            decreases total - i,
        {
            running.push(false);
            finished.push(false);
            i += 1;
        }
        proof {
            lemma_unfinished(finished@);
            assert(!finished@[0]);
        }
        PreemptRing {
            running,
            finished,
            prng,
            all_done: false,
            signal_preempt_count: 0,
            cooperative_yield_count: 0,
            preemption_records: PreemptionRecordStore::new(),
        }
    }

    /// Advance the xorshift32 PRNG and return the new value.
    fn next_prng(&mut self) -> (r: u32)
        requires
            old(self)@.prng != 0,
        ensures
            r == xorshift(old(self)@.prng),
            r != 0,
            final(self)@ == (RingView { prng: r, ..old(self)@ }),
    {
        proof {
            lemma_xorshift_nonzero(self.prng);
        }
        let x: u32 = self.prng;
        let a: u32 = x ^ (x << 13);
        let b: u32 = a ^ (a >> 17);
        self.prng = b ^ (b << 5);
        self.prng
    }

    /// Number of workers that have not finished.
    fn count_remaining(&self) -> (r: usize)
        ensures
            r == unfinished(self@.finished).len(),
    {
        let mut n: usize = 0;
        let mut i: usize = 0;
        while i < self.finished.len()
            invariant
                i <= self.finished@.len(),
                n <= i,
                n == unfinished(self.finished@.take(i as int)).len(),
            decreases self.finished@.len() - i,
        {
            assert(self.finished@.take(i + 1).drop_last() =~= self.finished@.take(i as int));
            if !self.finished[i] {
                n += 1;
            }
            i += 1;
        }
        assert(self.finished@.take(i as int) =~= self.finished@);
        n
    }

    /// Choose the next worker among those that have not finished.
    fn pick_next(&mut self) -> (r: Option<WorkerId>)
        requires
            old(self)@.prng != 0,
        ensures
            final(self)@ == old(self)@.after_choice(),
            final(self)@.prng != 0,
            match r {
                Some(w) => old(self)@.next() == Some(w.0 as nat),
                None => old(self)@.next() is None,
            },
    {
        let n_remaining: usize = self.count_remaining();
        if n_remaining == 0 {
            return None;
        }
        let idx: usize = (self.next_prng() as usize) % n_remaining;
        let ghost ids = unfinished(self@.finished);
        let mut count: usize = 0;
        let mut i: usize = 0;
        while i < self.finished.len()
            invariant
                i <= self.finished@.len(),
                ids == unfinished(self.finished@),
                self@.finished == self.finished@,
                idx < ids.len(),
                count <= idx,
                count == unfinished(self.finished@.take(i as int)).len(),
                self@ == old(self)@.after_choice(),
                self@.prng != 0,
                old(self)@.next() == Some(ids[idx as int]),
            decreases self.finished@.len() - i,
        {
            proof {
                let t = self.finished@.take(i + 1);
                assert(t.drop_last() =~= self.finished@.take(i as int));
                lemma_unfinished_take(self.finished@, i + 1);
                if !self.finished@[i as int] {
                    let u = unfinished(t);
                    assert(u.last() == i as nat);
                    assert(ids.take(u.len() as int)[count as int] == ids[count as int]);
                }
            }
            if !self.finished[i] {
                if count == idx {
                    return Some(WorkerId(i));
                }
                count += 1;
            }
            i += 1;
        }
        assert(self.finished@.take(i as int) =~= self.finished@);
        assert(false);
        None
    }

    /// Roll a random timeslice in `[min, max]` using the ring's PRNG, which a
    /// range of one value leaves alone.
    pub fn roll_timeslice(&mut self, min: u64, max: u64) -> (r: u64)
        requires
            old(self)@.wf(),
            min <= max,
            max - min < u64::MAX,
        ensures
            final(self)@.wf(),
            min <= r <= max,
            r == rolled(xorshift(old(self)@.prng), min, max),
            final(self)@ == if min == max {
                old(self)@
            } else {
                RingView { prng: xorshift(old(self)@.prng), ..old(self)@ }
            },
    {
        let range: u64 = max - min;
        if range == 0 {
            return min;
        }
        min + (self.next_prng() as u64) % (range + 1)
    }

    /// Increment the signal-driven preemption counter.
    pub fn inc_signal_preempt(&mut self)
        ensures
            final(self)@ == (RingView {
                signal_preempt_count: structop::wrapping_next(
                    old(self)@.signal_preempt_count,
                ),
                ..old(self)@
            }),
    {
        self.signal_preempt_count = self.signal_preempt_count.wrapping_add(1);
    }

    /// Increment the cooperative yield counter.
    pub fn inc_cooperative_yield(&mut self)
        ensures
            final(self)@ == (RingView {
                cooperative_yield_count: structop::wrapping_next(
                    old(self)@.cooperative_yield_count,
                ),
                ..old(self)@
            }),
    {
        self.cooperative_yield_count = self.cooperative_yield_count.wrapping_add(1);
    }

    /// Total signal-driven (PMU) preemptions since creation.
    pub fn signal_preemptions(&self) -> (r: u64)
        ensures
            r == self@.signal_preempt_count,
    {
        self.signal_preempt_count
    }

    /// Total cooperative yields (kfunc boundary) since creation.
    pub fn cooperative_yields(&self) -> (r: u64)
        ensures
            r == self@.cooperative_yield_count,
    {
        self.cooperative_yield_count
    }

    /// Record a preemption point, in the ring and in the collector.
    ///
    /// Captures the preemption state including structop context. Returns the
    /// sequence number assigned, or `None` if the buffer is full; then nothing is
    /// recorded.
    pub fn record_preemption(
        &mut self,
        sequence: &mut PreemptionSequence,
        collector: &mut PreemptionCollector,
        rbc_count: u64,
        instruction_pointer: u64,
        cpu_id: CpuId,
        worker_id: WorkerId,
        sinfo: StructopInfo,
    ) -> (r: Option<u64>)
        requires
            old(self)@.wf(),
        ensures
            final(self)@.wf(),
            final(self)@ == (RingView { records: final(self)@.records, ..old(self)@ }),
            old(self)@.records.len() >= record::MAX_PREEMPTION_RECORDS ==> {
                &&& r is None
                &&& final(self)@ == old(self)@
                &&& *final(sequence) == *old(sequence)
                &&& final(collector)@ == old(collector)@
            },
            old(self)@.records.len() < record::MAX_PREEMPTION_RECORDS ==> {
                let rec = record::record_of(
                    rbc_count,
                    instruction_pointer,
                    cpu_id,
                    worker_id,
                    sinfo,
                    old(sequence).next,
                );
                &&& r == Some(old(sequence).next)
                &&& final(sequence).next == structop::wrapping_next(old(sequence).next)
                &&& final(self)@.records.len() == old(self)@.records.len() + 1
                &&& final(self)@.records.drop_last() == old(self)@.records
                &&& final(self)@.records.last()@ == rec
                &&& match (old(collector)@, final(collector)@) {
                    (Some(before), Some(after)) => after.len() == before.len() + 1
                        && after.drop_last() == before && after.last()@ == rec,
                    (None, None) => true,
                    _ => false,
                }
            },
    {
        let seq = self.preemption_records.push(
            sequence,
            rbc_count,
            instruction_pointer,
            cpu_id,
            worker_id,
            sinfo,
        );
        if let Some(s) = seq {
            let rec = make_record(rbc_count, instruction_pointer, cpu_id, worker_id, sinfo, s);
            maybe_collect_global(collector, rec);
            proof {
                if let Some(before) = old(collector)@ {
                    assert(before.push(rec).drop_last() =~= before);
                }
            }
        }
        seq
    }

    /// Retrieve all preemption records collected during the simulation.
    ///
    /// Returns records sorted by sequence number. Call this after the
    /// simulation completes to verify determinism.
    pub fn preemption_records(&self) -> (r: Vec<PreemptionRecord>)
        ensures
            r@ == record::in_sequence(self@.records),
    {
        self.preemption_records.drain()
    }

    /// Tell the next worker to run.
    fn pass_token(&mut self) -> (r: Option<WorkerId>)
        requires
            old(self)@.prng != 0,
            old(self)@.running.len() == old(self)@.finished.len(),
        ensures
            final(self)@ == old(self)@.passed(),
            final(self)@.prng != 0,
            match r {
                Some(w) => old(self)@.next() == Some(w.0 as nat) && w.0 < old(self)@.running.len(),
                None => old(self)@.next() is None,
            },
    {
        proof {
            lemma_unfinished(self.finished@);
        }
        match self.pick_next() {
            Some(next) => {
                self.running.set(next.0, true);
                Some(next)
            },
            None => None,
        }
    }

    /// Orchestrator: select the first worker via PRNG.
    ///
    /// Returns the worker to wake.
    pub fn start(&mut self) -> (r: Option<WorkerId>)
        requires
            old(self)@.wf(),
        ensures
            final(self)@.wf(),
            final(self)@ == old(self)@.passed(),
            match r {
                Some(w) => old(self)@.next() == Some(w.0 as nat) && w.0 < old(self)@.running.len(),
                None => old(self)@.next() is None,
            },
            r matches Some(w) ==> {
                &&& !old(self)@.finished[w.0 as int]
                &&& still_open(old(self)@.finished.take(w.0 as int)) == xorshift(
                    old(self)@.prng,
                ) as int % still_open(old(self)@.finished) as int
            },
    {
        let r = self.pass_token();
        proof {
            if let Some(w) = r {
                lemma_choice_goes_by_rank(old(self)@, w.0 as nat);
            }
        }
        r
    }

    /// Worker: whether this worker is selected. A worker that is not blocks.
    pub fn wait_for_token(&self, my_id: WorkerId) -> (r: bool)
        requires
            my_id.0 < self@.running.len(),
        ensures
            r == self@.running[my_id.0 as int],
            !self@.finished[my_id.0 as int] && self@.finished.len() == self@.running.len() ==> r
                == self@.holds_token(my_id.0 as int),
    {
        self.running[my_id.0]
    }

    /// Worker: release token and select the next worker via PRNG.
    ///
    /// Returns the worker to wake, which may be the same one. The caller then
    /// waits until it is selected again. It is parked before the next worker is
    /// told to run, so that a worker that yields back at once is not missed.
    pub fn yield_token(&mut self, my_id: WorkerId) -> (r: Option<WorkerId>)
        requires
            old(self)@.wf(),
            my_id.0 < old(self)@.running.len(),
        ensures
            final(self)@.wf(),
            final(self)@ == old(self)@.parked(my_id.0 as int).passed(),
            match r {
                Some(w) => old(self)@.next() == Some(w.0 as nat) && w.0 < old(self)@.running.len(),
                None => old(self)@.next() is None,
            },
            r matches Some(w) ==> {
                &&& !old(self)@.finished[w.0 as int]
                &&& still_open(old(self)@.finished.take(w.0 as int)) == xorshift(
                    old(self)@.prng,
                ) as int % still_open(old(self)@.finished) as int
            },
    {
        self.running.set(my_id.0, false);
        let r = self.pass_token();
        proof {
            if let Some(w) = r {
                lemma_choice_goes_by_rank(old(self)@, w.0 as nat);
            }
        }
        r
    }

    /// Worker: mark as finished and select the next worker, or note that all are
    /// done.
    ///
    /// Returns the worker to wake; `None` means to wake the orchestrator.
    pub fn finish(&mut self, my_id: WorkerId) -> (r: Option<WorkerId>)
        requires
            old(self)@.wf(),
            my_id.0 < old(self)@.running.len(),
        ensures
            final(self)@.wf(),
            final(self)@ == old(self)@.after_finish(my_id.0 as int),
            match r {
                Some(w) => old(self)@.ended(my_id.0 as int).next() == Some(w.0 as nat) && w.0
                    < old(self)@.running.len(),
                None => final(self)@.all_done,
            },
            r matches Some(w) ==> {
                let left = old(self)@.finished.update(my_id.0 as int, true);
                &&& !left[w.0 as int]
                &&& still_open(left.take(w.0 as int)) == xorshift(
                    old(self)@.prng,
                ) as int % still_open(left) as int
            },
    {
        self.finished.set(my_id.0, true);
        if self.count_remaining() == 0 {
            self.all_done = true;
            None
        } else {
            proof {
                lemma_unfinished_update(old(self).finished@, my_id.0 as int);
            }
            let r = self.pass_token();
            proof {
                if let Some(w) = r {
                    lemma_choice_goes_by_rank(old(self)@.ended(my_id.0 as int), w.0 as nat);
                }
            }
            r
        }
    }

    /// Orchestrator: whether all workers have finished. Until then it blocks.
    pub fn wait_all_done(&self) -> (r: bool)
        ensures
            r == self@.all_done,
    {
        self.all_done
    }
}

/// Finishing a worker takes at most that worker off the list.
proof fn lemma_unfinished_update(finished: Seq<bool>, w: int)
    requires
        0 <= w < finished.len(),
    ensures
        unfinished(finished).len() == unfinished(finished.update(w, true)).len() + if finished[w] {
            0int
        } else {
            1
        },
    decreases finished.len(),
{
    let u = finished.update(w, true);
    if w == finished.len() - 1 {
        assert(u.drop_last() =~= finished.drop_last());
    } else {
        lemma_unfinished_update(finished.drop_last(), w);
        assert(u.drop_last() =~= finished.drop_last().update(w, true));
    }
}

// ---------------------------------------------------------------------------
// Laws
// ---------------------------------------------------------------------------

/// The PRNG maps no two states to one, and never gets stuck at zero.
pub proof fn law_prng_is_injective(x: u32, y: u32)
    ensures
        xorshift(x) == xorshift(y) ==> x == y,
        x != 0 ==> xorshift(x) != 0,
{
    assert(({
        let a = x ^ (x << 13);
        let b = a ^ (a >> 17);
        b ^ (b << 5)
    }) == ({
        let a = y ^ (y << 13);
        let b = a ^ (a >> 17);
        b ^ (b << 5)
    }) ==> x == y) by (bit_vector);
    if x != 0 {
        lemma_xorshift_nonzero(x);
    }
}

/// The seed zero gives the same ring as the seed one.
pub proof fn law_zero_seed_is_one(total: nat)
    ensures
        new_ring(total, 0) == new_ring(total, 1),
{
}

/// What the worker that holds the token does with the ring.
pub enum RingOp {
    /// It yields.
    Yield,
    /// It finishes.
    Finish,
    /// It rolls a timeslice in `[min, max]`.
    Roll { min: u64, max: u64 },
}

impl RingView {
    /// The state after the worker `me`, which holds the token, does `op`.
    pub open spec fn after_op(self, me: int, op: RingOp) -> RingView {
        match op {
            RingOp::Yield => self.parked(me).passed(),
            RingOp::Finish => self.after_finish(me),
            RingOp::Roll { min, max } => if min == max {
                self
            } else {
                RingView { prng: xorshift(self.prng), ..self }
            },
        }
    }

    /// Who holds the token after the worker `me`, which holds it, does `op`.
    pub open spec fn holder_after(self, me: nat, op: RingOp) -> Option<nat> {
        match op {
            RingOp::Yield => self.next(),
            RingOp::Finish => self.ended(me as int).next(),
            RingOp::Roll { .. } => Some(me),
        }
    }

    /// The timeslice that `op` rolls, zero if it rolls none.
    pub open spec fn timeslice_of(self, op: RingOp) -> u64 {
        match op {
            RingOp::Roll { min, max } => rolled(xorshift(self.prng), min, max),
            _ => 0,
        }
    }

    /// The course of a round from the time when `me` gets the token: for each
    /// operation, who holds the token after it and the timeslice that it rolls.
    pub open spec fn course(self, me: nat, ops: Seq<RingOp>) -> Seq<(Option<nat>, u64)>
        decreases ops.len(),
    {
        if ops.len() == 0 {
            seq![]
        } else {
            let op = ops[0];
            let holder = self.holder_after(me, op);
            let first = seq![(holder, self.timeslice_of(op))];
            match holder {
                Some(w) => first + self.after_op(me as int, op).course(w, ops.skip(1)),
                None => first,
            }
        }
    }
}

/// The course of a round depends on the PRNG and on who has finished, and on
/// nothing else: not on counters, records, or earlier rounds.
pub proof fn law_course_depends_on_prng(a: RingView, b: RingView, me: nat, ops: Seq<RingOp>)
    requires
        a.prng == b.prng,
        a.finished == b.finished,
    ensures
        a.course(me, ops) == b.course(me, ops),
    decreases ops.len(),
{
    if ops.len() > 0 {
        let op = ops[0];
        let x = a.after_op(me as int, op);
        let y = b.after_op(me as int, op);
        assert(a.next() == b.next());
        assert(a.ended(me as int).next() == b.ended(me as int).next());
        if let Some(w) = a.holder_after(me, op) {
            assert(x.prng == y.prng && x.finished == y.finished);
            law_course_depends_on_prng(x, y, w, ops.skip(1));
        }
    }
}

/// Rings with the same seed give the same first worker and the same course to the
/// same operations, whatever has been recorded and counted on them.
pub proof fn law_same_seed_same_course(
    total: nat,
    seed: u32,
    a: RingView,
    b: RingView,
    ops: Seq<RingOp>,
)
    requires
        1 <= total <= MAX_WORKERS,
        a == (RingView {
            records: a.records,
            signal_preempt_count: a.signal_preempt_count,
            cooperative_yield_count: a.cooperative_yield_count,
            ..new_ring(total, seed)
        }),
        b == (RingView {
            records: b.records,
            signal_preempt_count: b.signal_preempt_count,
            cooperative_yield_count: b.cooperative_yield_count,
            ..new_ring(total, seed)
        }),
    ensures
        a.next() is Some,
        a.next() == b.next(),
        a.passed().course(a.next()->0, ops) == b.passed().course(b.next()->0, ops),
{
    law_start_hands_out_token(total, seed, 0);
    assert(a.next() == new_ring(total, seed).next());
    law_course_depends_on_prng(a.passed(), b.passed(), a.next()->0, ops);
}

/// A worker that has not finished is chosen, as long as there is one.
pub proof fn law_choice_is_unfinished(v: RingView)
    requires
        v.wf(),
    ensures
        v.next() is None <==> forall|w: int| 0 <= w < v.finished.len() ==> #[trigger] v.finished[w],
        v.next() matches Some(n) ==> n < v.finished.len() && !v.finished[n as int],
{
    let ids = unfinished(v.finished);
    lemma_unfinished(v.finished);
    if ids.len() > 0 {
        let k = xorshift(v.prng) as int % ids.len() as int;
        assert(0 <= k < ids.len());
        assert(!v.finished[ids[k] as int]);
    }
}

/// Starting a new ring hands out one token.
pub proof fn law_start_hands_out_token(total: nat, seed: u32, w: int)
    requires
        1 <= total <= MAX_WORKERS,
    ensures
        new_ring(total, seed).next() is Some,
        new_ring(total, seed).passed().holds_token(w) <==> new_ring(total, seed).next() == Some(
            w as nat,
        ) && w >= 0,
{
    let v = new_ring(total, seed);
    lemma_unfinished(v.finished);
    assert(!v.finished[0]);
    law_choice_is_unfinished(v);
}

/// A yield passes the token on: if `me` alone holds it before, the chosen worker
/// alone holds it after.
pub proof fn law_yield_passes_token(v: RingView, me: int, w: int)
    requires
        v.wf(),
        0 <= me < v.running.len(),
        forall|u: int| #[trigger] v.holds_token(u) ==> u == me,
        !v.all_done,
    ensures
        v.next() is Some,
        v.parked(me).passed().holds_token(w) <==> v.next() == Some(w as nat) && w >= 0,
{
    law_choice_is_unfinished(v);
    let p = v.parked(me);
    assert(p.next() == v.next());
    if 0 <= w < v.running.len() {
        assert(v.holds_token(w) ==> w == me);
    }
}

/// A finish passes the token on: if `me` alone holds it before, the chosen worker
/// alone holds it after, or all workers are done and nobody holds it.
pub proof fn law_finish_passes_token(v: RingView, me: int, w: int)
    requires
        v.wf(),
        0 <= me < v.running.len(),
        forall|u: int| #[trigger] v.holds_token(u) ==> u == me,
    ensures
        v.after_finish(me).holds_token(w) <==> v.ended(me).next() == Some(w as nat) && w >= 0,
        v.after_finish(me).all_done || v.ended(me).next() is Some,
        v.after_finish(me).holds_token(w) ==> !v.after_finish(me).all_done,
{
    let e = v.ended(me);
    lemma_unfinished(e.finished);
    lemma_unfinished_update(v.finished, me);
    if 0 <= w < v.running.len() {
        assert(v.holds_token(w) ==> w == me);
    }
    if e.next() is Some {
        let ids = unfinished(e.finished);
        let k = xorshift(e.prng) as int % ids.len() as int;
        assert(0 <= k < ids.len());
        assert(!e.finished[ids[k] as int]);
    }
}

/// Each finish of a worker that was not finished brings the round one worker
/// closer to its end.
pub proof fn law_finish_makes_progress(v: RingView, me: int)
    requires
        v.wf(),
        0 <= me < v.running.len(),
        !v.finished[me],
    ensures
        unfinished(v.after_finish(me).finished).len() + 1 == unfinished(v.finished).len(),
        v.after_finish(me).all_done <==> unfinished(v.finished).len() == 1,
{
    lemma_unfinished_update(v.finished, me);
}

// ---------------------------------------------------------------------------
// What the choice of the next worker depends on
// ---------------------------------------------------------------------------

/// The number of workers among `finished` that have not finished.
pub open spec fn still_open(finished: Seq<bool>) -> nat
    decreases finished.len(),
{
    if finished.len() == 0 {
        0
    } else {
        still_open(finished.skip(1)) + if finished[0] {
            0nat
        } else {
            1nat
        }
    }
}

proof fn lemma_still_open_push(finished: Seq<bool>, f: bool)
    ensures
        still_open(finished.push(f)) == still_open(finished) + if f {
            0nat
        } else {
            1nat
        },
    decreases finished.len(),
{
    if finished.len() == 0 {
        assert(finished.push(f).skip(1) =~= finished);
        reveal_with_fuel(still_open, 2);
    } else {
        assert(finished.push(f).skip(1) =~= finished.skip(1).push(f));
        lemma_still_open_push(finished.skip(1), f);
    }
}

/// The list of unfinished workers has each of them at the place that the number of
/// unfinished workers below it gives.
proof fn lemma_unfinished_ranks(finished: Seq<bool>)
    ensures
        unfinished(finished).len() == still_open(finished),
        forall|i: int|
            0 <= i < unfinished(finished).len() ==> {
                let w = #[trigger] unfinished(finished)[i] as int;
                &&& 0 <= w < finished.len()
                &&& !finished[w]
                &&& still_open(finished.take(w)) == i
            },
    decreases finished.len(),
{
    if finished.len() > 0 {
        let t = finished.drop_last();
        let ids = unfinished(finished);
        lemma_unfinished_ranks(t);
        lemma_still_open_push(t, finished.last());
        assert(t.push(finished.last()) =~= finished);
        assert forall|i: int| 0 <= i < ids.len() implies {
            let w = #[trigger] ids[i] as int;
            &&& 0 <= w < finished.len()
            &&& !finished[w]
            &&& still_open(finished.take(w)) == i
        } by {
            let w = ids[i] as int;
            if i < unfinished(t).len() {
                assert(ids[i] == unfinished(t)[i]);
                assert(finished.take(w) =~= t.take(w));
                assert(t[w] == finished[w]);
            } else {
                assert(finished.take(w) =~= t);
            }
        }
    }
}

/// A larger number of workers has at least as many unfinished ones, and more if one
/// lies between.
proof fn lemma_still_open_grows(finished: Seq<bool>, a: int, b: int)
    requires
        0 <= a <= b <= finished.len(),
    ensures
        still_open(finished.take(a)) <= still_open(finished.take(b)),
        a < b && !finished[a] ==> still_open(finished.take(a)) < still_open(finished.take(b)),
    decreases b - a,
{
    if a < b {
        lemma_still_open_grows(finished, a, b - 1);
        lemma_still_open_push(finished.take(b - 1), finished[b - 1]);
        assert(finished.take(b) =~= finished.take(b - 1).push(finished[b - 1]));
    }
}

/// The PRNG picks by counting: of `n` workers that have not finished it chooses the
/// one with exactly as many unfinished workers below it as the new PRNG value modulo
/// `n` says, and no other. This holds on start, on a yield and on a finish, which
/// counts without the worker that finishes.
pub proof fn law_choice_goes_by_rank(v: RingView, me: int, w: nat)
    requires
        v.wf(),
        0 <= me < v.finished.len(),
    ensures
        v.next() == Some(w) <==> {
            &&& w < v.finished.len()
            &&& !v.finished[w as int]
            &&& still_open(v.finished.take(w as int)) == xorshift(v.prng) as int % still_open(
                v.finished,
            ) as int
        },
        v.parked(me).next() == v.next(),
        v.ended(me).next() == Some(w) <==> {
            let left = v.finished.update(me, true);
            &&& w < left.len()
            &&& !left[w as int]
            &&& still_open(left.take(w as int)) == xorshift(v.prng) as int % still_open(
                left,
            ) as int
        },
{
    lemma_choice_goes_by_rank(v, w);
    lemma_choice_goes_by_rank(v.ended(me), w);
}

proof fn lemma_choice_goes_by_rank(v: RingView, w: nat)
    ensures
        v.next() == Some(w) <==> {
            &&& w < v.finished.len()
            &&& !v.finished[w as int]
            &&& still_open(v.finished.take(w as int)) == xorshift(v.prng) as int % still_open(
                v.finished,
            ) as int
        },
{
    let ids = unfinished(v.finished);
    lemma_unfinished_ranks(v.finished);
    if ids.len() > 0 {
        let k = xorshift(v.prng) as int % ids.len() as int;
        assert(0 <= k < ids.len());
        let c = ids[k] as int;
        assert(!v.finished[c] && still_open(v.finished.take(c)) == k);
        if w < v.finished.len() && !v.finished[w as int] && still_open(
            v.finished.take(w as int),
        ) == k {
            if (w as int) < c {
                lemma_still_open_grows(v.finished, w as int, c);
            } else if c < w as int {
                lemma_still_open_grows(v.finished, c, w as int);
            }
            assert(c == w);
        }
    } else if w < v.finished.len() && !v.finished[w as int] {
        lemma_still_open_grows(v.finished, w as int, v.finished.len() as int);
        assert(v.finished.take(v.finished.len() as int) =~= v.finished);
    }
}

/// The PRNG value before the value `y`: what undoes a step. Each shift is undone by the
/// sum of its multiples, from the last to the first.
pub open spec fn prng_before(y: u32) -> u32 {
    let b = y ^ (y << 5) ^ (y << 10) ^ (y << 15) ^ (y << 20) ^ (y << 25) ^ (y << 30);
    let a = b ^ (b >> 17);
    a ^ (a << 13) ^ (a << 26)
}

/// A step of the PRNG can be undone, so that each value comes behind exactly one
/// other; and it adds up bit by bit.
pub proof fn law_prng_step_can_be_undone(x: u32, y: u32)
    ensures
        prng_before(xorshift(x)) == x,
        xorshift(prng_before(x)) == x,
        xorshift(x ^ y) == xorshift(x) ^ xorshift(y),
        xorshift(0) == 0,
        xorshift(1) == 0x42021,
{
    assert(({
        let a = x ^ (x << 13);
        let b = a ^ (a >> 17);
        let r = b ^ (b << 5);
        let d = r ^ (r << 5) ^ (r << 10) ^ (r << 15) ^ (r << 20) ^ (r << 25) ^ (r << 30);
        let c = d ^ (d >> 17);
        c ^ (c << 13) ^ (c << 26)
    }) == x) by (bit_vector);
    assert(({
        let d = x ^ (x << 5) ^ (x << 10) ^ (x << 15) ^ (x << 20) ^ (x << 25) ^ (x << 30);
        let c = d ^ (d >> 17);
        let r = c ^ (c << 13) ^ (c << 26);
        let a = r ^ (r << 13);
        let b = a ^ (a >> 17);
        b ^ (b << 5)
    }) == x) by (bit_vector);
    assert(({
        let a = (x ^ y) ^ ((x ^ y) << 13);
        let b = a ^ (a >> 17);
        b ^ (b << 5)
    }) == ({
        let a = x ^ (x << 13);
        let b = a ^ (a >> 17);
        b ^ (b << 5)
    }) ^ ({
        let a = y ^ (y << 13);
        let b = a ^ (a >> 17);
        b ^ (b << 5)
    })) by (bit_vector);
    assert(({
        let z = 0u32;
        let a = z ^ (z << 13);
        let b = a ^ (a >> 17);
        b ^ (b << 5)
    }) == 0u32) by (bit_vector);
    assert(({
        let z = 1u32;
        let a = z ^ (z << 13);
        let b = a ^ (a >> 17);
        b ^ (b << 5)
    }) == 0x42021u32) by (bit_vector);
}

/// No worker is left out: however many have not finished, for each of them there is a
/// PRNG value that chooses it.
pub proof fn law_every_worker_can_be_chosen(v: RingView, w: nat) -> (prng: u32)
    requires
        v.wf(),
        w < v.finished.len(),
        !v.finished[w as int],
    ensures
        prng != 0,
        (RingView { prng, ..v }).next() == Some(w),
{
    let n = still_open(v.finished);
    let rank = still_open(v.finished.take(w as int));
    lemma_unfinished_ranks(v.finished);
    lemma_unfinished(v.finished);
    lemma_still_open_grows(v.finished, w as int, v.finished.len() as int);
    assert(v.finished.take(v.finished.len() as int) =~= v.finished);
    assert(rank < n <= 64);
    let x = if rank == 0 {
        n as u32
    } else {
        rank as u32
    };
    let prng = prng_before(x);
    law_prng_step_can_be_undone(x, 0);
    if rank == 0 {
        vstd::arithmetic::div_mod::lemma_mod_self_0(n as int);
    } else {
        vstd::arithmetic::div_mod::lemma_small_mod(rank, n);
    }
    lemma_choice_goes_by_rank(RingView { prng, ..v }, w);
    prng
}

/// A timeslice is the lower bound plus the PRNG value modulo the number of values in
/// the range: each value of a range of up to two to the 32 values is rolled by some
/// PRNG value, and PRNG values that differ by the size of the range roll the same.
pub proof fn law_timeslice_covers_range(x: u32, min: u64, max: u64, t: u64)
    requires
        min <= max,
        max - min < u64::MAX,
    ensures
        min <= rolled(x, min, max) <= max,
        (x - (rolled(x, min, max) - min)) % (max - min + 1) == 0,
        min <= t <= max && t - min <= u32::MAX ==> rolled((t - min) as u32, min, max) == t,
{
    let n = max - min + 1;
    let k = x as int % n;
    vstd::arithmetic::div_mod::lemma_fundamental_div_mod(x as int, n);
    vstd::arithmetic::div_mod::lemma_mod_multiples_basic(x as int / n, n);
    assert((x as int / n) * n == n * (x as int / n)) by (nonlinear_arith);
    if min < max {
        assert(rolled(x, min, max) - min == k);
    } else {
        assert(n == 1);
    }
    if min <= t <= max && t - min <= u32::MAX {
        vstd::arithmetic::div_mod::lemma_small_mod((t - min) as nat, n as nat);
    }
}

/// A new ring starts with the seed as its PRNG value, with nobody running, nobody
/// finished and nothing counted or recorded. Only the seed zero, at which the PRNG
/// would stay, gives way to another.
pub proof fn law_new_ring_is_fresh(total: nat, seed: u32, w: int)
    requires
        1 <= total <= 64,
    ensures
        new_ring(total, seed).wf(),
        seed != 0 ==> new_ring(total, seed).prng == seed,
        new_ring(total, 0).prng == 1,
        new_ring(total, seed).running.len() == total,
        new_ring(total, seed).finished.len() == total,
        0 <= w < total ==> !new_ring(total, seed).running[w] && !new_ring(total, seed).finished[w],
        still_open(new_ring(total, seed).finished) == total,
        !new_ring(total, seed).all_done,
        new_ring(total, seed).signal_preempt_count == 0,
        new_ring(total, seed).cooperative_yield_count == 0,
        new_ring(total, seed).records.len() == 0,
{
    let v = new_ring(total, seed);
    lemma_unfinished_ranks(v.finished);
    lemma_all_open(v.finished);
    lemma_unfinished(v.finished);
}

proof fn lemma_all_open(finished: Seq<bool>)
    requires
        forall|i: int| 0 <= i < finished.len() ==> !#[trigger] finished[i],
    ensures
        still_open(finished) == finished.len(),
    decreases finished.len(),
{
    if finished.len() > 0 {
        assert forall|i: int| 0 <= i < finished.skip(1).len() implies !#[trigger] finished.skip(
            1,
        )[i] by {
            assert(finished.skip(1)[i] == finished[i + 1]);
        }
        lemma_all_open(finished.skip(1));
    }
}

/// Passing the token moves the PRNG one step and tells the chosen worker to run; all
/// other workers, the counters and the records stay as they are.
pub proof fn law_passing_changes_only_the_chosen(v: RingView, u: int)
    requires
        v.wf(),
        !v.all_done,
        0 <= u < v.running.len(),
    ensures
        v.passed().prng == xorshift(v.prng),
        v.passed().running.len() == v.running.len(),
        v.passed().running[u] == (v.running[u] || v.next() == Some(u as nat)),
        v.passed().finished == v.finished,
        v.passed().all_done == v.all_done,
        v.passed().signal_preempt_count == v.signal_preempt_count,
        v.passed().cooperative_yield_count == v.cooperative_yield_count,
        v.passed().records == v.records,
{
    law_choice_is_unfinished(v);
}

/// A worker that yields is parked, one that finishes is marked; nobody else is. The
/// orchestrator is told exactly when no worker is left.
pub proof fn law_only_the_worker_itself_ends(v: RingView, me: int, u: int)
    requires
        v.wf(),
        !v.all_done,
        0 <= me < v.running.len(),
        0 <= u < v.running.len(),
    ensures
        v.parked(me).running[u] == (v.running[u] && u != me),
        v.parked(me).finished == v.finished,
        v.parked(me).prng == v.prng,
        v.after_finish(me).finished.len() == v.finished.len(),
        v.after_finish(me).finished[u] == (v.finished[u] || u == me),
        v.after_finish(me).all_done <==> still_open(v.finished.update(me, true)) == 0,
        v.after_finish(me).all_done ==> v.after_finish(me).prng == v.prng
            && v.after_finish(me).running == v.running,
        !v.after_finish(me).all_done ==> v.after_finish(me).prng == xorshift(v.prng),
        v.after_finish(me).signal_preempt_count == v.signal_preempt_count,
        v.after_finish(me).cooperative_yield_count == v.cooperative_yield_count,
        v.after_finish(me).records == v.records,
{
    lemma_unfinished_ranks(v.finished.update(me, true));
    lemma_unfinished(v.finished.update(me, true));
}

} // verus!
