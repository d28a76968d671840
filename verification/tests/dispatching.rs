use netsweep::orchestrator::{ConcurrencyPolicy, Dispatch, Orchestrator};

fn run(chunks: usize, policy: ConcurrencyPolicy) -> (Vec<usize>, usize, usize) {
    let mut plan = Orchestrator::new(chunks, policy);
    let mut started = Vec::new();
    let mut most_running = 0;
    let mut finished = 0;
    loop {
        let (next, step) = plan.dispatch();
        plan = next;
        match step {
            Dispatch::Start(index) => started.push(index),
            Dispatch::Wait => {
                assert!(plan.running() >= 1);
                plan = plan.chunk_finished();
                finished += 1;
            }
            Dispatch::Done => break,
        }
        most_running = most_running.max(plan.running());
    }
    assert_eq!(plan.running(), 0);
    (started, most_running, finished)
}

#[test]
fn unbounded_plan_starts_every_chunk_at_once() {
    let mut plan = Orchestrator::new(3, ConcurrencyPolicy::Unbounded);
    let mut steps = Vec::new();
    for _ in 0..4 {
        let (next, step) = plan.dispatch();
        plan = next;
        steps.push(step);
    }
    assert_eq!(
        steps,
        vec![Dispatch::Start(0), Dispatch::Start(1), Dispatch::Start(2), Dispatch::Wait]
    );
    assert_eq!(plan.running(), 3);
    let plan = plan.chunk_finished().chunk_finished();
    let (plan, step) = plan.dispatch();
    assert_eq!(step, Dispatch::Wait);
    let (_, step) = plan.chunk_finished().dispatch();
    assert_eq!(step, Dispatch::Done);
}

#[test]
fn bounded_plan_keeps_to_its_limit() {
    let (started, most_running, finished) = run(5, ConcurrencyPolicy::Bounded(2));
    assert_eq!(started, vec![0, 1, 2, 3, 4]);
    assert_eq!(most_running, 2);
    assert_eq!(finished, 5);
}

#[test]
fn every_chunk_starts_once_whatever_the_limit() {
    for limit in 0..8 {
        let (started, most_running, finished) = run(6, ConcurrencyPolicy::Bounded(limit));
        assert_eq!(started, vec![0, 1, 2, 3, 4, 5]);
        assert_eq!(most_running, limit.clamp(1, 6));
        assert_eq!(finished, 6);
    }
    let (started, most_running, finished) = run(6, ConcurrencyPolicy::Unbounded);
    assert_eq!(started, vec![0, 1, 2, 3, 4, 5]);
    assert_eq!(most_running, 6);
    assert_eq!(finished, 6);
}

#[test]
fn limit_of_zero_counts_as_one() {
    let plan = Orchestrator::new(2, ConcurrencyPolicy::Bounded(0));
    let (plan, step) = plan.dispatch();
    assert_eq!(step, Dispatch::Start(0));
    let (plan, step) = plan.dispatch();
    assert_eq!(step, Dispatch::Wait);
    let (plan, step) = plan.chunk_finished().dispatch();
    assert_eq!(step, Dispatch::Start(1));
    let (_, step) = plan.chunk_finished().dispatch();
    assert_eq!(step, Dispatch::Done);
}

#[test]
fn plan_without_chunks_is_over_at_once() {
    let (plan, step) = Orchestrator::new(0, ConcurrencyPolicy::Unbounded).dispatch();
    assert_eq!(step, Dispatch::Done);
    assert_eq!(plan.running(), 0);
}

#[test]
fn finishing_with_nothing_in_flight_changes_nothing() {
    let plan = Orchestrator::new(1, ConcurrencyPolicy::Bounded(1)).chunk_finished();
    assert_eq!(plan.running(), 0);
    let (plan, step) = plan.dispatch();
    assert_eq!(step, Dispatch::Start(0));
    let plan = plan.chunk_finished().chunk_finished();
    let (_, step) = plan.dispatch();
    assert_eq!(step, Dispatch::Done);
}
