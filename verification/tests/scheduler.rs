use fisher::errors::FisherError;
use fisher::hooks::Hook;
use fisher::jobs::Job;
use fisher::processor::{HealthDetails, Processor, ProcessorInput, Thread};
use fisher::requests::dummy_request;

fn job(name: &str) -> Job {
    let hook = Hook { name: name.to_string(), exec_path: format!("/hooks/{}", name), providers: Vec::new() };
    Job::new(hook, None, dummy_request())
}

fn dispatched_to(out: &fisher::processor::StepOutcome) -> Option<(usize, String)> {
    out.dispatch.as_ref().map(|(w, j)| (*w, j.hook_name().clone()))
}

#[test]
fn zero_threads_is_a_configuration_error() {
    assert!(matches!(Processor::new(0), Err(FisherError::InvalidThreadCount)));
    assert!(Processor::new(1).is_ok());
}

#[test]
fn single_job_single_worker() {
    let mut p = Processor::new(1).unwrap();
    assert_eq!(p.busy_threads(), 0);

    let out = p.handle(ProcessorInput::Job(job("example")));
    assert_eq!(dispatched_to(&out), Some((0, "example".to_string())));
    assert_eq!(p.busy_threads(), 1);

    let out = p.handle(ProcessorInput::JobEnded(0));
    assert!(out.dispatch.is_none());
    assert!(!out.exit);
    assert_eq!(p.busy_threads(), 0);

    let out = p.handle(ProcessorInput::HealthStatus);
    let health = out.health.unwrap();
    assert_eq!(health.queue_size, 0);
    assert_eq!(health.active_jobs, 0);
}

#[test]
fn overflow_is_dequeued_fifo() {
    let mut p = Processor::new(2).unwrap();

    let out = p.handle(ProcessorInput::Job(job("a")));
    assert_eq!(dispatched_to(&out), Some((0, "a".to_string())));
    let out = p.handle(ProcessorInput::Job(job("b")));
    assert_eq!(dispatched_to(&out), Some((1, "b".to_string())));

    // Both workers busy: c and d overflow to the queue.
    let out = p.handle(ProcessorInput::Job(job("c")));
    assert!(out.dispatch.is_none());
    let out = p.handle(ProcessorInput::Job(job("d")));
    assert!(out.dispatch.is_none());

    let out = p.handle(ProcessorInput::HealthStatus);
    let health = out.health.unwrap();
    assert_eq!(health.queue_size, 2);
    assert_eq!(health.active_jobs, 2);

    // Completions dequeue the overflow in its arrival order.
    let out = p.handle(ProcessorInput::JobEnded(0));
    assert_eq!(dispatched_to(&out), Some((0, "c".to_string())));
    let out = p.handle(ProcessorInput::JobEnded(1));
    assert_eq!(dispatched_to(&out), Some((1, "d".to_string())));

    let out = p.handle(ProcessorInput::JobEnded(0));
    assert!(out.dispatch.is_none());
    let out = p.handle(ProcessorInput::JobEnded(1));
    assert!(out.dispatch.is_none());

    let out = p.handle(ProcessorInput::HealthStatus);
    let health = out.health.unwrap();
    assert_eq!(health.queue_size, 0);
    assert_eq!(health.active_jobs, 0);
}

#[test]
fn health_probe_is_read_only() {
    let mut p = Processor::new(1).unwrap();
    let out = p.handle(ProcessorInput::Job(job("a")));
    assert_eq!(dispatched_to(&out), Some((0, "a".to_string())));
    let probe = p.handle(ProcessorInput::HealthStatus);
    assert!(probe.dispatch.is_none());
    assert!(!probe.exit);
    // The probe did not change the dispatch decisions around it.
    let out = p.handle(ProcessorInput::Job(job("b")));
    assert!(out.dispatch.is_none());
    let out = p.handle(ProcessorInput::JobEnded(0));
    assert_eq!(dispatched_to(&out), Some((0, "b".to_string())));
}

#[test]
fn graceful_shutdown_with_jobs_in_flight() {
    let mut p = Processor::new(2).unwrap();
    p.handle(ProcessorInput::Job(job("a")));
    p.handle(ProcessorInput::Job(job("b")));

    // Both workers busy: nothing to stop yet, the loop keeps running.
    let out = p.handle(ProcessorInput::StopSignal);
    assert!(out.stopped.is_empty());
    assert!(!out.exit);

    // A job arriving after the stop signal is dropped.
    let out = p.handle(ProcessorInput::Job(job("c")));
    assert!(out.dispatch.is_none());
    let out = p.handle(ProcessorInput::HealthStatus);
    assert_eq!(out.health.unwrap().queue_size, 0);

    // In-flight jobs run to completion; their workers are then collected.
    let out = p.handle(ProcessorInput::JobEnded(0));
    assert_eq!(out.stopped, vec![0]);
    assert!(!out.exit);

    // The pool shrank: the remaining worker now sits at position 0.
    let out = p.handle(ProcessorInput::JobEnded(0));
    assert_eq!(out.stopped, vec![0]);
    assert!(out.exit);
}

#[test]
fn repeated_stop_is_a_no_op() {
    let mut p = Processor::new(1).unwrap();
    p.handle(ProcessorInput::Job(job("a")));

    let first = p.handle(ProcessorInput::StopSignal);
    assert!(first.stopped.is_empty());
    assert!(!first.exit);

    let second = p.handle(ProcessorInput::StopSignal);
    assert!(second.stopped.is_empty());
    assert!(!second.exit);
    assert_eq!(p.busy_threads(), 1);

    let out = p.handle(ProcessorInput::JobEnded(0));
    assert_eq!(out.stopped, vec![0]);
    assert!(out.exit);
}

#[test]
fn stop_on_an_idle_pool_exits_at_once() {
    let mut p = Processor::new(3).unwrap();
    let out = p.handle(ProcessorInput::StopSignal);
    assert_eq!(out.stopped, vec![0, 1, 2]);
    assert!(out.exit);
}

#[test]
fn queued_jobs_are_discarded_on_shutdown() {
    let mut p = Processor::new(1).unwrap();
    p.handle(ProcessorInput::Job(job("a")));
    p.handle(ProcessorInput::Job(job("queued")));
    p.handle(ProcessorInput::StopSignal);
    // The completion does not dispatch the queued job during shutdown.
    let out = p.handle(ProcessorInput::JobEnded(0));
    assert!(out.dispatch.is_none());
    assert_eq!(out.stopped, vec![0]);
    assert!(out.exit);
}

#[test]
fn health_details_json_form() {
    let h = HealthDetails { queue_size: 1, active_jobs: 2 };
    assert_eq!(h.to_json(), "{\"queue_size\":1,\"active_jobs\":2}");
    let h = HealthDetails { queue_size: 0, active_jobs: 0 };
    assert_eq!(h.to_json(), "{\"queue_size\":0,\"active_jobs\":0}");
    let h = HealthDetails { queue_size: 12045, active_jobs: 65535 };
    assert_eq!(h.to_json(), "{\"queue_size\":12045,\"active_jobs\":65535}");
}

#[test]
fn single_worker_executes_in_submission_order() {
    let mut p = Processor::new(1).unwrap();
    let mut order: Vec<String> = Vec::new();

    let out = p.handle(ProcessorInput::Job(job("a")));
    if let Some((_, j)) = out.dispatch {
        order.push(j.hook_name().clone());
    }
    for name in ["b", "c"] {
        let out = p.handle(ProcessorInput::Job(job(name)));
        assert!(out.dispatch.is_none());
    }
    // Each completion dispatches the next submission, in order.
    for _ in 0..2 {
        let out = p.handle(ProcessorInput::JobEnded(0));
        order.push(out.dispatch.unwrap().1.hook_name().clone());
    }
    assert_eq!(order, vec!["a", "b", "c"]);
}

#[test]
fn worker_flags() {
    let mut t = Thread::new();
    assert!(!t.busy());
    assert!(t.process());
    assert!(t.busy());
    // A busy worker rejects a second dispatch.
    assert!(!t.process());
    let mut s = Thread::new();
    s.stop();
    assert!(!s.process());
}

#[test]
fn a_large_pool_starts_idle() {
    let p = Processor::new(65535).unwrap();
    assert_eq!(p.busy_threads(), 0);
    assert_eq!(p.thread_count(), 65535);
    assert!(!p.thread_busy(0));
}
