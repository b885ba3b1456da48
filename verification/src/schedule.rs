use vstd::prelude::*;
use crate::jobs::Job;
use crate::processor::{
    busy_count, busy_only, first_free, lemma_busy_count_full, lemma_busy_count_le_len,
    lemma_busy_count_update, lemma_busy_only, lemma_busy_only_of_full, lemma_first_free,
    lemma_first_free_bound, lemma_step_preserves_inv, model_inv, spec_step, ProcModel,
    ProcessorInput, Thread,
};

verus! {

/// A run of the event loop over a schedule of events, together with the
/// bookkeeping that the scheduling laws speak of: which jobs were admitted
/// (submitted while the scheduler was running), which were dispatched to a
/// worker, in order, and how many completions arrived.
#[verifier::ext_equal]
pub ghost struct RunModel {
    /// The scheduler state after the events so far.
    pub state: ProcModel,
    /// The admitted jobs, in admission order.
    pub admitted: Seq<Job>,
    /// The dispatched jobs, in dispatch order.
    pub dispatched: Seq<Job>,
    /// How many completions the scheduler has processed.
    pub completed: nat,
}

/// A run that has seen no event yet.
pub open spec fn init_run(s: ProcModel) -> RunModel {
    RunModel { state: s, admitted: Seq::empty(), dispatched: Seq::empty(), completed: 0 }
}

/// One event applied to a run.
pub open spec fn step_run(r: RunModel, e: ProcessorInput) -> RunModel {
    let st = spec_step(r.state, e);
    RunModel {
        state: st.state,
        admitted: match e {
            ProcessorInput::Job(j) => if !r.state.should_stop {
                r.admitted.push(j)
            } else {
                r.admitted
            },
            _ => r.admitted,
        },
        dispatched: match st.dispatch {
            Some(d) => r.dispatched.push(d.1),
            None => r.dispatched,
        },
        completed: r.completed + (match e {
            ProcessorInput::JobEnded(_) => 1nat,
            _ => 0nat,
        }),
    }
}

/// A whole schedule applied to a run, first event first.
pub open spec fn run_from(r: RunModel, evs: Seq<ProcessorInput>) -> RunModel
    decreases evs.len(),
{
    if evs.len() == 0 {
        r
    } else {
        run_from(step_run(r, evs.first()), evs.drop_first())
    }
}

/// A whole schedule applied to a fresh run from state `s`.
pub open spec fn run(s: ProcModel, evs: Seq<ProcessorInput>) -> RunModel {
    run_from(init_run(s), evs)
}

/// What the shell guarantees of one event: a completion names a busy
/// worker of the current pool (the worker cleared its flag before its
/// completion was queued, and stays in the pool until the scheduler
/// collects it).
pub open spec fn event_ok(s: ProcModel, e: ProcessorInput) -> bool {
    match e {
        ProcessorInput::JobEnded(w) => w < s.threads.len() && s.threads[w as int].busy,
        _ => true,
    }
}

/// A schedule every event of which is guaranteed as [`event_ok`] says,
/// against the state it is handled in.
pub open spec fn wf_from(s: ProcModel, evs: Seq<ProcessorInput>) -> bool
    decreases evs.len(),
{
    evs.len() == 0 || (event_ok(s, evs.first()) && wf_from(
        spec_step(s, evs.first()).state,
        evs.drop_first(),
    ))
}

/// A scheduler that has just been built: empty queue, idle pool, running.
pub open spec fn initial_model(s: ProcModel) -> bool {
    &&& model_inv(s)
    &&& s.jobs.len() == 0
    &&& busy_count(s.threads) == 0
    &&& !s.should_stop
}

/// The bookkeeping invariant of a run:
/// - the scheduler invariant holds;
/// - the admitted jobs are exactly the dispatched jobs followed by the
///   queue, in order (dispatch follows admission, the queue is FIFO);
/// - every dispatched job is either still on a busy worker or completed.
pub open spec fn consistent(r: RunModel) -> bool {
    &&& model_inv(r.state)
    &&& r.admitted == r.dispatched + r.state.jobs
    &&& busy_count(r.state.threads) + r.completed == r.dispatched.len()
}

/// A fresh run from a fresh scheduler is consistent.
pub proof fn lemma_initial_consistent(s: ProcModel)
    requires
        initial_model(s),
    ensures
        consistent(init_run(s)),
{
    assert(Seq::<Job>::empty() + s.jobs =~= s.jobs);
    assert(init_run(s).admitted =~= init_run(s).dispatched + s.jobs);
}

/// One guaranteed event keeps a run consistent.
proof fn lemma_step_run_consistent(r: RunModel, e: ProcessorInput)
    requires
        consistent(r),
        event_ok(r.state, e),
    ensures
        consistent(step_run(r, e)),
        step_run(r, e).state.max_threads == r.state.max_threads,
{
    lemma_step_preserves_inv(r.state, e);
    let s = r.state;
    match e {
        ProcessorInput::StopSignal => {
            lemma_busy_only(s.threads);
            lemma_busy_count_full(busy_only(s.threads));
        },
        ProcessorInput::Job(j) => {
            if !s.should_stop {
                let f = first_free(s.threads);
                lemma_first_free(s.threads);
                if f < s.threads.len() {
                    // A worker is free, so by the invariant the queue is
                    // empty and the new job is dispatched at once.
                    lemma_busy_count_full(s.threads);
                    assert(s.jobs.len() == 0);
                    assert(r.admitted =~= r.dispatched);
                    lemma_busy_count_update(
                        s.threads,
                        f,
                        Thread { busy: true, should_stop: s.threads[f].should_stop },
                    );
                    assert(step_run(r, e).admitted =~= step_run(r, e).dispatched + step_run(
                        r,
                        e,
                    ).state.jobs);
                } else {
                    // Everyone is busy: the job overflows to the queue tail.
                    assert(step_run(r, e).admitted =~= step_run(r, e).dispatched + step_run(
                        r,
                        e,
                    ).state.jobs);
                }
            }
        },
        ProcessorInput::JobEnded(w) => {
            let cleared = Thread { busy: false, should_stop: s.threads[w as int].should_stop };
            let t1 = s.threads.update(w as int, cleared);
            lemma_busy_count_update(s.threads, w as int, cleared);
            if !s.should_stop {
                if s.jobs.len() > 0 {
                    let f = first_free(t1);
                    lemma_first_free(t1);
                    lemma_first_free_bound(t1, w as int);
                    let busied = Thread { busy: true, should_stop: t1[f].should_stop };
                    lemma_busy_count_update(t1, f, busied);
                    // The queue head moves to the freed worker: admission
                    // order is preserved.
                    assert(step_run(r, e).admitted =~= step_run(r, e).dispatched + step_run(
                        r,
                        e,
                    ).state.jobs);
                }
            } else {
                lemma_busy_only(t1);
                lemma_busy_count_full(busy_only(t1));
            }
        },
        ProcessorInput::HealthStatus => {},
    }
}

/// A whole guaranteed schedule keeps a run consistent, and never changes
/// the configured pool bound.
pub proof fn lemma_run_from_consistent(r: RunModel, evs: Seq<ProcessorInput>)
    requires
        consistent(r),
        wf_from(r.state, evs),
    ensures
        consistent(run_from(r, evs)),
        run_from(r, evs).state.max_threads == r.state.max_threads,
    decreases evs.len(),
{
    if evs.len() > 0 {
        lemma_step_run_consistent(r, evs.first());
        lemma_run_from_consistent(step_run(r, evs.first()), evs.drop_first());
    }
}

/// Bounded concurrency: under any guaranteed schedule from a fresh
/// scheduler, never more workers are busy than the configured bound.  The
/// schedule is arbitrary, so this holds at every observable point of a
/// run: apply it to any prefix.
pub proof fn lemma_active_jobs_bounded(s: ProcModel, evs: Seq<ProcessorInput>)
    requires
        initial_model(s),
        wf_from(s, evs),
    ensures
        busy_count(run(s, evs).state.threads) <= s.max_threads,
{
    lemma_initial_consistent(s);
    lemma_run_from_consistent(init_run(s), evs);
    lemma_busy_count_le_len(run(s, evs).state.threads);
}

/// Dispatch follows submission: at any point of a run, the dispatched
/// jobs are exactly the first admitted jobs, in admission order.  A
/// single worker executes its dispatches one at a time in dispatch order,
/// so with one worker the execution order equals the submission order.
pub proof fn lemma_dispatch_follows_submission(s: ProcModel, evs: Seq<ProcessorInput>)
    requires
        initial_model(s),
        wf_from(s, evs),
    ensures
        run(s, evs).dispatched == run(s, evs).admitted.take(run(s, evs).dispatched.len() as int),
{
    lemma_initial_consistent(s);
    lemma_run_from_consistent(init_run(s), evs);
    let r = run(s, evs);
    assert(r.dispatched =~= r.admitted.take(r.dispatched.len() as int));
}

/// FIFO overflow: at any point of a run, the queue holds exactly the
/// admitted-but-undispatched jobs, in admission order.  Jobs leave the
/// queue only from its head, so overflowed jobs are dequeued in the order
/// they overflowed.
pub proof fn lemma_overflow_queue_fifo(s: ProcModel, evs: Seq<ProcessorInput>)
    requires
        initial_model(s),
        wf_from(s, evs),
    ensures
        run(s, evs).state.jobs == run(s, evs).admitted.skip(run(s, evs).dispatched.len() as int),
{
    lemma_initial_consistent(s);
    lemma_run_from_consistent(init_run(s), evs);
    let r = run(s, evs);
    assert(r.state.jobs =~= r.admitted.skip(r.dispatched.len() as int));
}

/// A health reply accounts exactly for the in-flight work: its queue size
/// plus its busy-worker count equals the number of admitted jobs not yet
/// completed at the moment of the snapshot.
pub proof fn lemma_health_accounting(s: ProcModel, evs: Seq<ProcessorInput>)
    requires
        initial_model(s),
        wf_from(s, evs),
    ensures
        ({
            let r = run(s, evs);
            spec_step(r.state, ProcessorInput::HealthStatus).health == Some(
                (r.state.jobs.len() as int, busy_count(r.state.threads) as int),
            ) && r.state.jobs.len() + busy_count(r.state.threads) == r.admitted.len()
                - r.completed
        }),
{
    lemma_initial_consistent(s);
    lemma_run_from_consistent(init_run(s), evs);
}

/// Graceful shutdown drains work in flight: once the event loop has
/// exited (no worker remains in the pool), no worker is busy and every
/// dispatched job has completed.
pub proof fn lemma_shutdown_drains(s: ProcModel, evs: Seq<ProcessorInput>)
    requires
        initial_model(s),
        wf_from(s, evs),
        run(s, evs).state.threads.len() == 0,
    ensures
        busy_count(run(s, evs).state.threads) == 0,
        run(s, evs).completed == run(s, evs).dispatched.len(),
{
    lemma_initial_consistent(s);
    lemma_run_from_consistent(init_run(s), evs);
}

/// Repeated stop signals are no-ops after the first: once shutdown has
/// begun, another stop signal changes nothing and dispatches nothing.
pub proof fn lemma_stop_idempotent(s: ProcModel)
    requires
        model_inv(s),
        s.should_stop,
    ensures
        spec_step(s, ProcessorInput::StopSignal).state == s,
        spec_step(s, ProcessorInput::StopSignal).dispatch is None,
{
    lemma_busy_count_full(s.threads);
    lemma_busy_only_of_full(s.threads);
    assert(spec_step(s, ProcessorInput::StopSignal).state =~= s);
}

/// A health probe is read-only: it changes no scheduler state and
/// dispatches nothing.
pub proof fn lemma_health_read_only(s: ProcModel)
    ensures
        spec_step(s, ProcessorInput::HealthStatus).state == s,
        spec_step(s, ProcessorInput::HealthStatus).dispatch is None,
{
}

/// Probing health between two submissions alters nothing: the resulting
/// state, dispatch record and admissions are the same as without the
/// probe.
pub proof fn lemma_health_between_submissions(s: ProcModel, a: Job, b: Job)
    ensures
        ({
            let with_probe = run(
                s,
                seq![
                    ProcessorInput::Job(a),
                    ProcessorInput::HealthStatus,
                    ProcessorInput::Job(b),
                ],
            );
            let without = run(s, seq![ProcessorInput::Job(a), ProcessorInput::Job(b)]);
            with_probe.state == without.state && with_probe.dispatched == without.dispatched
                && with_probe.admitted == without.admitted
        }),
{
    let ea = ProcessorInput::Job(a);
    let eh = ProcessorInput::HealthStatus;
    let eb = ProcessorInput::Job(b);
    let evs3 = seq![ea, eh, eb];
    let evs2 = seq![ea, eb];
    let r0 = init_run(s);
    let r1 = step_run(r0, ea);
    assert(evs3.first() == ea);
    assert(evs3.drop_first() =~= seq![eh, eb]);
    assert(seq![eh, eb].first() == eh);
    assert(seq![eh, eb].drop_first() =~= seq![eb]);
    assert(seq![eb].first() == eb);
    assert(seq![eb].drop_first() =~= Seq::<ProcessorInput>::empty());
    assert(evs2.first() == ea);
    assert(evs2.drop_first() =~= seq![eb]);
    assert(step_run(r1, eh) =~= r1);
    assert(run_from(r0, evs3) == run_from(r1, seq![eh, eb]));
    assert(run_from(r1, seq![eh, eb]) == run_from(step_run(r1, eh), seq![eb]));
    assert(run_from(r0, evs2) == run_from(r1, seq![eb]));
}

/// A job arriving after shutdown has begun is dropped: it changes nothing
/// and is neither admitted nor dispatched.
pub proof fn lemma_post_stop_job_dropped(s: ProcModel, j: Job)
    requires
        s.should_stop,
    ensures
        spec_step(s, ProcessorInput::Job(j)).state == s,
        spec_step(s, ProcessorInput::Job(j)).dispatch is None,
        step_run(init_run(s), ProcessorInput::Job(j)).admitted == Seq::<Job>::empty(),
{
}

} // verus!
