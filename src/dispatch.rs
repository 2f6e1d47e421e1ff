use vstd::prelude::*;

verus! {

/// Where a run through a plan of `total` calls stands: the next call to
/// attempt and the calls that have failed so far.
pub struct DispatchState {
    pub total: nat,
    pub next: nat,
    pub failed: Seq<usize>,
}

/// The state before any call is attempted.
pub open spec fn start(total: nat) -> DispatchState {
    DispatchState { total, next: 0, failed: Seq::empty() }
}

/// The state after the next call came back, well or not. A failure is
/// noted and the run moves on to the following call all the same.
pub open spec fn step(st: DispatchState, succeeded: bool) -> DispatchState {
    DispatchState {
        total: st.total,
        next: st.next + 1,
        failed: if succeeded {
            st.failed
        } else {
            st.failed.push(st.next as usize)
        },
    }
}

/// The state after the outcomes in `outcomes`, one per call, in order.
pub open spec fn run(total: nat, outcomes: Seq<bool>) -> DispatchState
    decreases outcomes.len(),
{
    if outcomes.len() == 0 {
        start(total)
    } else {
        step(run(total, outcomes.drop_last()), outcomes.last())
    }
}

/// The positions of the failed outcomes, in order.
pub open spec fn failures_of(outcomes: Seq<bool>) -> Seq<usize>
    decreases outcomes.len(),
{
    if outcomes.len() == 0 {
        Seq::empty()
    } else if outcomes.last() {
        failures_of(outcomes.drop_last())
    } else {
        failures_of(outcomes.drop_last()).push((outcomes.len() - 1) as usize)
    }
}

/// A run through a plan of calls to outside services. Each call is
/// attempted once, whatever became of the calls before it.
pub struct Dispatch {
    total: usize,
    next: usize,
    failed: Vec<usize>,
}

impl View for Dispatch {
    type V = DispatchState;

    closed spec fn view(&self) -> DispatchState {
        DispatchState { total: self.total as nat, next: self.next as nat, failed: self.failed@ }
    }
}

impl Dispatch {
    /// A run through `total` calls, none attempted yet.
    pub fn new(total: usize) -> (d: Dispatch)
        ensures
            d@ == start(total as nat),
    {
        Dispatch { total, next: 0, failed: Vec::new() }
    }

    /// The position of the call to attempt now, or `None` when all were.
    pub fn next_call(&self) -> (r: Option<usize>)
        ensures
            r == (if self@.next < self@.total {
                Some(self@.next as usize)
            } else {
                None::<usize>
            }),
    {
        if self.next < self.total {
            Some(self.next)
        } else {
            None
        }
    }

    /// Takes note of how the pending call went and moves on to the next.
    pub fn record_outcome(&mut self, succeeded: bool)
        requires
            old(self)@.next < old(self)@.total,
        ensures
            final(self)@ == step(old(self)@, succeeded),
    {
        if !succeeded {
            self.failed.push(self.next);
        }
        self.next = self.next + 1;
    }

    /// The positions of the calls that failed, in order.
    pub fn failures(&self) -> (r: &Vec<usize>)
        ensures
            r@ == self@.failed,
    {
        &self.failed
    }
}

/// A failed call does not keep the others from being attempted: after any
/// outcomes of the first `k` calls, call `k` is the one attempted next, the
/// run ends only once every call was attempted, and the failures noted are
/// exactly the calls that failed.
pub proof fn lemma_every_call_attempted(total: nat, outcomes: Seq<bool>)
    requires
        outcomes.len() <= total,
    ensures
        run(total, outcomes).total == total,
        run(total, outcomes).next == outcomes.len(),
        run(total, outcomes).failed == failures_of(outcomes),
    decreases outcomes.len(),
{
    if outcomes.len() > 0 {
        lemma_every_call_attempted(total, outcomes.drop_last());
    }
}

} // verus!
