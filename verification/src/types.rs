//! Identifiers shared by all modules.

use vstd::prelude::*;

use crate::text::text_eq;

verus! {

/// A point in simulated time, in nanoseconds.
pub type TimeNs = u64;

/// The number of a simulated CPU.
#[derive(Debug, Clone, Copy, PartialEq, Eq, Hash, Structural)]
pub struct CpuId(pub u32);

/// The number of a worker thread, starting at zero.
#[derive(Debug, Clone, Copy, PartialEq, Eq, Hash, Structural)]
pub struct WorkerId(pub usize);

/// The scheduler callback that is being executed.
#[derive(Debug, Clone, Copy, PartialEq, Eq, Structural)]
pub enum OpsContext {
    /// No callback.
    NoOps,
    /// `ops.select_cpu()`.
    SelectCpu,
    /// `ops.enqueue()`.
    Enqueue,
    /// `ops.dispatch()`.
    Dispatch,
    /// `ops.running()`.
    Running,
    /// `ops.stopping()`.
    Stopping,
    /// `ops.tick()`.
    Tick,
}

impl OpsContext {
    /// The identifier of a callback in a trace.
    pub open spec fn name(self) -> Seq<char> {
        match self {
            OpsContext::NoOps => "none"@,
            OpsContext::SelectCpu => "select_cpu"@,
            OpsContext::Enqueue => "enqueue"@,
            OpsContext::Dispatch => "dispatch"@,
            OpsContext::Running => "running"@,
            OpsContext::Stopping => "stopping"@,
            OpsContext::Tick => "tick"@,
        }
    }

    /// The callback with the identifier `s`; [`OpsContext::NoOps`] if there is no
    /// such callback.
    pub open spec fn named(s: Seq<char>) -> OpsContext {
        if s == "select_cpu"@ {
            OpsContext::SelectCpu
        } else if s == "enqueue"@ {
            OpsContext::Enqueue
        } else if s == "dispatch"@ {
            OpsContext::Dispatch
        } else if s == "running"@ {
            OpsContext::Running
        } else if s == "stopping"@ {
            OpsContext::Stopping
        } else if s == "tick"@ {
            OpsContext::Tick
        } else {
            OpsContext::NoOps
        }
    }

    /// Short identifier for serialization.
    pub fn short_name(self) -> (r: &'static str)
        ensures
            r@ == self.name(),
    {
        match self {
            OpsContext::NoOps => "none",
            OpsContext::SelectCpu => "select_cpu",
            OpsContext::Enqueue => "enqueue",
            OpsContext::Dispatch => "dispatch",
            OpsContext::Running => "running",
            OpsContext::Stopping => "stopping",
            OpsContext::Tick => "tick",
        }
    }

    /// The callback with the given short identifier, [`OpsContext::NoOps`] if it
    /// is unknown.
    pub fn from_short_name(s: &str) -> (r: OpsContext)
        ensures
            r == OpsContext::named(s@),
    {
        if text_eq(s, "select_cpu") {
            OpsContext::SelectCpu
        } else if text_eq(s, "enqueue") {
            OpsContext::Enqueue
        } else if text_eq(s, "dispatch") {
            OpsContext::Dispatch
        } else if text_eq(s, "running") {
            OpsContext::Running
        } else if text_eq(s, "stopping") {
            OpsContext::Stopping
        } else if text_eq(s, "tick") {
            OpsContext::Tick
        } else {
            OpsContext::NoOps
        }
    }
}

/// Reading the identifier of a callback gives the callback back.
pub proof fn law_ops_context_name_round_trip(c: OpsContext)
    ensures
        OpsContext::named(c.name()) == c,
{
    reveal_strlit("none");
    reveal_strlit("select_cpu");
    reveal_strlit("enqueue");
    reveal_strlit("dispatch");
    reveal_strlit("running");
    reveal_strlit("stopping");
    reveal_strlit("tick");
    assert("none"@.len() == 4 && "tick"@.len() == 4 && "select_cpu"@.len() == 10 && "enqueue"@.len()
        == 7 && "running"@.len() == 7 && "dispatch"@.len() == 8 && "stopping"@.len() == 8);
    assert("none"@[0] != "tick"@[0]);
    assert("enqueue"@[0] != "running"@[0]);
    assert("dispatch"@[0] != "stopping"@[0]);
}

/// A callback is named by its identifier only; every other text means no callback.
pub proof fn law_callback_is_named_by_its_name_only(s: Seq<char>)
    ensures
        OpsContext::named(s) != OpsContext::NoOps ==> s == OpsContext::named(s).name(),
        s == OpsContext::SelectCpu.name() || s == OpsContext::Enqueue.name() || s
            == OpsContext::Dispatch.name() || s == OpsContext::Running.name() || s
            == OpsContext::Stopping.name() || s == OpsContext::Tick.name()
            <==> OpsContext::named(s) != OpsContext::NoOps,
{
    law_ops_context_name_round_trip(OpsContext::SelectCpu);
    law_ops_context_name_round_trip(OpsContext::Enqueue);
    law_ops_context_name_round_trip(OpsContext::Dispatch);
    law_ops_context_name_round_trip(OpsContext::Running);
    law_ops_context_name_round_trip(OpsContext::Stopping);
    law_ops_context_name_round_trip(OpsContext::Tick);
}

} // verus!
