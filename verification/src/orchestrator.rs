//! Handing the chunks of a sweep out to workers: which chunk starts next, when
//! to wait for a worker, and when the sweep is over.

use vstd::prelude::*;

verus! {

/// How many chunks may be worked on at one time.
#[derive(Clone, Copy, Debug, PartialEq, Eq, Structural)]
pub enum ConcurrencyPolicy {
    /// Every chunk may run at once.
    Unbounded,
    /// At most this many chunks run at once. A limit of zero would let
    /// nothing run, so it counts as one.
    Bounded(usize),
}

/// What the caller does next.
#[derive(Clone, Copy, Debug, PartialEq, Eq, Structural)]
pub enum Dispatch {
    /// Start a worker on the chunk at this index.
    Start(usize),
    /// Wait until a worker has finished its chunk, then report it.
    Wait,
    /// Nothing: every chunk is finished.
    Done,
}

/// The state of a sweep: how many chunks there are, how many of them were
/// started, in the order of their indices, and how many were finished.
pub struct PlanState {
    pub chunks: nat,
    pub policy: ConcurrencyPolicy,
    pub started: nat,
    pub finished: nat,
}

/// The number of chunks that were started and are not finished.
pub open spec fn in_flight(state: PlanState) -> int {
    state.started - state.finished
}

/// Whether one more chunk may start while `running` chunks are in flight.
pub open spec fn has_room(policy: ConcurrencyPolicy, running: int) -> bool {
    match policy {
        ConcurrencyPolicy::Unbounded => true,
        ConcurrencyPolicy::Bounded(limit) => running < limit || running == 0,
    }
}

/// What holds of every state of a sweep: no chunk is finished before it is
/// started, none is started that does not exist, and the chunks in flight
/// stay within the limit.
pub open spec fn plan_wf(state: PlanState) -> bool {
    &&& state.finished <= state.started <= state.chunks
    &&& match state.policy {
        ConcurrencyPolicy::Unbounded => true,
        ConcurrencyPolicy::Bounded(limit) => in_flight(state) <= limit || in_flight(state) <= 1,
    }
}

/// The state in which nothing is started.
pub open spec fn initial_plan(chunks: nat, policy: ConcurrencyPolicy) -> PlanState {
    PlanState { chunks, policy, started: 0, finished: 0 }
}

/// Whether the next chunk can start now.
pub open spec fn can_start(state: PlanState) -> bool {
    state.started < state.chunks && has_room(state.policy, in_flight(state))
}

/// What is to be done in a state: start the next chunk where one is left and
/// there is room for it, else wait for a chunk in flight, else the sweep is
/// over.
pub open spec fn dispatch_of(state: PlanState) -> Dispatch {
    if can_start(state) {
        Dispatch::Start(state.started as usize)
    } else if state.finished < state.started {
        Dispatch::Wait
    } else {
        Dispatch::Done
    }
}

/// The state after its dispatch was taken: a chunk that was to start counts
/// as started.
pub open spec fn after_dispatch(state: PlanState) -> PlanState {
    if can_start(state) {
        PlanState { started: state.started + 1, ..state }
    } else {
        state
    }
}

/// The state after a worker has finished its chunk. Where no chunk is in
/// flight there is nothing to finish, and the state stays as it is.
pub open spec fn after_finish(state: PlanState) -> PlanState {
    if state.finished < state.started {
        PlanState { finished: state.finished + 1, ..state }
    } else {
        state
    }
}

/// The sweep is over exactly when every chunk is finished, and it never
/// waits while nothing is in flight. Taking a dispatch and finishing a chunk
/// keep the state well formed.
pub proof fn lemma_plan_steps(state: PlanState)
    requires
        plan_wf(state),
    ensures
        dispatch_of(state) is Done <==> state.finished == state.chunks,
        dispatch_of(state) is Wait ==> in_flight(state) >= 1,
        dispatch_of(state) is Start ==> dispatch_of(state) == Dispatch::Start(
            state.started as usize,
        ) && state.started < state.chunks,
        plan_wf(after_dispatch(state)),
        plan_wf(after_finish(state)),
{
}

/// The plan of a sweep. What it holds always meets `plan_wf`.
#[derive(Debug)]
pub struct Orchestrator {
    chunks: usize,
    policy: ConcurrencyPolicy,
    started: usize,
    finished: usize,
}

impl View for Orchestrator {
    type V = PlanState;

    closed spec fn view(&self) -> PlanState {
        PlanState {
            chunks: self.chunks as nat,
            policy: self.policy,
            started: self.started as nat,
            finished: self.finished as nat,
        }
    }
}

impl Orchestrator {
    #[verifier::type_invariant]
    spec fn inv(self) -> bool {
        plan_wf(self@)
    }

    /// The plan of a sweep over `chunks` chunks.
    pub fn new(chunks: usize, policy: ConcurrencyPolicy) -> (plan: Self)
        ensures
            plan@ == initial_plan(chunks as nat, policy),
            plan_wf(plan@),
    {
        Orchestrator { chunks, policy, started: 0, finished: 0 }
    }

    /// Says what to do next, and counts a chunk that is to start as started.
    pub fn dispatch(self) -> (r: (Self, Dispatch))
        ensures
            r.1 == dispatch_of(self@),
            r.0@ == after_dispatch(self@),
            plan_wf(self@),
            plan_wf(r.0@),
    {
        proof {
            use_type_invariant(&self);
        }
        let Orchestrator { chunks, policy, started, finished } = self;
        let running = started - finished;
        let room = match policy {
            ConcurrencyPolicy::Unbounded => true,
            ConcurrencyPolicy::Bounded(limit) => running < limit || running == 0,
        };
        if started < chunks && room {
            (Orchestrator { chunks, policy, started: started + 1, finished }, Dispatch::Start(started))
        } else if finished < started {
            (Orchestrator { chunks, policy, started, finished }, Dispatch::Wait)
        } else {
            (Orchestrator { chunks, policy, started, finished }, Dispatch::Done)
        }
    }

    /// Takes note that a worker has finished its chunk.
    pub fn chunk_finished(self) -> (next: Self)
        ensures
            next@ == after_finish(self@),
            plan_wf(self@),
            plan_wf(next@),
    {
        proof {
            use_type_invariant(&self);
        }
        let Orchestrator { chunks, policy, started, finished } = self;
        if finished < started {
            Orchestrator { chunks, policy, started, finished: finished + 1 }
        } else {
            Orchestrator { chunks, policy, started, finished }
        }
    }

    /// The number of chunks in flight.
    pub fn running(&self) -> (n: usize)
        ensures
            n == in_flight(self@),
            plan_wf(self@),
    {
        proof {
            use_type_invariant(self);
        }
        self.started - self.finished
    }
}

} // verus!
