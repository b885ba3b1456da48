use vstd::prelude::*;
use vstd::pervasive::VecAdditionalExecFns;
use vstd::string::*;
use crate::errors::FisherError;
use crate::jobs::Job;
use crate::text::{append_decimal, dec_rep};

verus! {

/// The scheduler's view of one worker thread: the busy flag it publishes
/// and whether it has been told to stop.
///
/// The flag transitions idle-to-busy only on dispatch (by the scheduler)
/// and busy-to-idle only on completion (reported back as a `JobEnded`
/// event); no other mutator exists.
#[derive(Clone, Copy, Debug)]
pub struct Thread {
    /// Whether a job is in flight on this worker.
    pub busy: bool,
    /// Whether this worker has been told to stop.  Set only on workers
    /// already removed from the pool.
    pub should_stop: bool,
}

impl Thread {
    /// A fresh, idle worker.
    pub fn new() -> (r: Thread)
        ensures
            !r.busy,
            !r.should_stop,
    {
        Thread { busy: false, should_stop: false }
    }

    /// Tries to hand this worker a job: a stopping or busy worker rejects
    /// it, an idle one becomes busy and accepts.
    pub fn process(&mut self) -> (accepted: bool)
        ensures
            accepted == thread_is_free(*old(self)),
            accepted ==> *final(self) == (Thread { busy: true, should_stop: old(self).should_stop }),
            !accepted ==> *final(self) == *old(self),
    {
        if self.should_stop || self.busy {
            false
        } else {
            self.busy = true;
            true
        }
    }

    /// Marks the worker as told to stop.  The shell then sends the
    /// terminal command and joins the thread.
    pub fn stop(&mut self)
        ensures
            *final(self) == (Thread { busy: old(self).busy, should_stop: true }),
    {
        self.should_stop = true;
    }

    /// Whether a job is in flight on this worker.
    pub fn busy(&self) -> (r: bool)
        ensures
            r == self.busy,
    {
        self.busy
    }
}

/// A worker can take a job when it is neither busy nor stopping.
pub open spec fn thread_is_free(t: Thread) -> bool {
    !t.busy && !t.should_stop
}

/// How many workers in `s` are busy.
pub open spec fn busy_count(s: Seq<Thread>) -> nat
    decreases s.len(),
{
    if s.len() == 0 {
        0
    } else {
        busy_count(s.drop_last()) + (if s.last().busy {
            1nat
        } else {
            0nat
        })
    }
}

/// The workers of `s` that are busy, in order: what worker cleanup keeps.
pub open spec fn busy_only(s: Seq<Thread>) -> Seq<Thread>
    decreases s.len(),
{
    if s.len() == 0 {
        Seq::empty()
    } else {
        busy_only(s.drop_last()) + (if s.last().busy {
            seq![s.last()]
        } else {
            Seq::empty()
        })
    }
}

/// The positions of the idle workers of `s`, ascending: what worker
/// cleanup removes.
pub open spec fn idle_indices(s: Seq<Thread>) -> Seq<int>
    decreases s.len(),
{
    if s.len() == 0 {
        Seq::empty()
    } else {
        idle_indices(s.drop_last()) + (if s.last().busy {
            Seq::empty()
        } else {
            seq![s.len() - 1]
        })
    }
}

/// The position of the first worker of `s` at or after `i` that can take a
/// job, or `s.len()` if none can.
pub open spec fn first_free_from(s: Seq<Thread>, i: int) -> int
    decreases s.len() - i when 0 <= i <= s.len()
{
    if i < 0 || i >= s.len() {
        s.len() as int
    } else if thread_is_free(s[i]) {
        i
    } else {
        first_free_from(s, i + 1)
    }
}

/// The position of the first worker of `s` that can take a job, or
/// `s.len()` if none can: dispatch ties break by lowest position.
pub open spec fn first_free(s: Seq<Thread>) -> int {
    first_free_from(s, 0)
}

/// The events the scheduler's event loop consumes, one at a time.
///
/// The shell owns the channel that carries them; replies travel back in
/// the returned [`StepOutcome`] instead of a channel captured by the
/// event, and a completion names the worker that finished: the shell
/// knows which of its workers sent it.
pub enum ProcessorInput {
    /// Begin graceful shutdown.
    StopSignal,
    /// Admit this job.
    Job(Job),
    /// Report a health snapshot.
    HealthStatus,
    /// The worker at this position of the pool completed a job.
    JobEnded(usize),
}

/// The instantaneous health snapshot the event loop reports.
#[derive(Clone, Copy, Debug)]
pub struct HealthDetails {
    /// How many admitted jobs wait in the overflow queue.
    pub queue_size: usize,
    /// How many workers are busy.
    pub active_jobs: u16,
}

/// The JSON text of a health snapshot with queue size `q` and `a` busy
/// workers.
pub open spec fn health_json(q: nat, a: nat) -> Seq<char> {
    "{\"queue_size\":"@ + dec_rep(q) + ",\"active_jobs\":"@ + dec_rep(a) + "}"@
}

impl HealthDetails {
    /// The snapshot's JSON form, as the web layer serves it.
    pub fn to_json(&self) -> (r: String)
        ensures
            r@ == health_json(self.queue_size as nat, self.active_jobs as nat),
    {
        let mut out = String::new();
        out.append("{\"queue_size\":");
        append_decimal(&mut out, self.queue_size);
        out.append(",\"active_jobs\":");
        append_decimal(&mut out, self.active_jobs as usize);
        out.append("}");
        proof {
            assert(out@ =~= health_json(self.queue_size as nat, self.active_jobs as nat));
        }
        out
    }
}

/// What the shell must do after one event is handled.
pub struct StepOutcome {
    /// Hand this job to the worker at this position.
    pub dispatch: Option<(usize, Job)>,
    /// Send the terminal command to these workers (positions in the pool
    /// as it stood before the event) and join them, in this order.
    pub stopped: Vec<usize>,
    /// Reply with this snapshot.
    pub health: Option<HealthDetails>,
    /// The event loop is finished; drop the queue and return.
    pub exit: bool,
}

/// The scheduler state a step acts on, as mathematical values.
#[verifier::ext_equal]
pub ghost struct ProcModel {
    /// The overflow queue, head first.
    pub jobs: Seq<Job>,
    /// The worker pool.
    pub threads: Seq<Thread>,
    /// The configured pool bound.
    pub max_threads: nat,
    /// Whether graceful shutdown has begun.
    pub should_stop: bool,
}

/// What one step of the event loop does, as mathematical values.
#[verifier::ext_equal]
pub ghost struct StepModel {
    /// The state after the step.
    pub state: ProcModel,
    /// The dispatch the step orders: worker position and job.
    pub dispatch: Option<(int, Job)>,
    /// The health reply the step orders: queue size and busy workers.
    pub health: Option<(int, int)>,
    /// Whether the event loop exits after this step.
    pub exit: bool,
}

/// A `StepModel` that only replaces the state.
pub open spec fn quiet_step(s: ProcModel) -> StepModel {
    StepModel { state: s, dispatch: None, health: None, exit: false }
}

/// The scheduler's transition function: what handling one event does.
///
/// - `StopSignal` marks shutdown, removes every idle worker, and exits
///   once none are left.
/// - `Job` is dropped during shutdown; otherwise it goes to the first
///   free worker, or to the tail of the overflow queue when all are busy.
/// - `JobEnded` clears the finisher's busy flag; then, while running, the
///   head of the queue (if any) goes to the first free worker; during
///   shutdown the queue is left alone (its jobs are discarded when the
///   loop exits) and idle workers are removed.
/// - `HealthStatus` reports the queue length and busy-worker count and
///   changes nothing.
///
/// One dispatch per event suffices to keep the pool fed: the queue can
/// only be non-empty while every worker is busy (an invariant), so no
/// event ever finds both a waiting job and more than one free worker.
pub open spec fn spec_step(s: ProcModel, e: ProcessorInput) -> StepModel {
    match e {
        ProcessorInput::StopSignal => {
            let t = busy_only(s.threads);
            StepModel {
                state: ProcModel { threads: t, should_stop: true, ..s },
                dispatch: None,
                health: None,
                exit: t.len() == 0,
            }
        },
        ProcessorInput::Job(j) => {
            if s.should_stop {
                quiet_step(s)
            } else {
                let f = first_free(s.threads);
                if f < s.threads.len() {
                    StepModel {
                        state: ProcModel {
                            threads: s.threads.update(
                                f,
                                Thread { busy: true, should_stop: s.threads[f].should_stop },
                            ),
                            ..s
                        },
                        dispatch: Some((f, j)),
                        health: None,
                        exit: false,
                    }
                } else {
                    quiet_step(ProcModel { jobs: s.jobs.push(j), ..s })
                }
            }
        },
        ProcessorInput::JobEnded(w) => {
            if w < s.threads.len() {
                let t1 = s.threads.update(
                    w as int,
                    Thread { busy: false, should_stop: s.threads[w as int].should_stop },
                );
                if !s.should_stop {
                    if s.jobs.len() > 0 {
                        let f = first_free(t1);
                        if f < t1.len() {
                            StepModel {
                                state: ProcModel {
                                    jobs: s.jobs.drop_first(),
                                    threads: t1.update(
                                        f,
                                        Thread { busy: true, should_stop: t1[f].should_stop },
                                    ),
                                    ..s
                                },
                                dispatch: Some((f, s.jobs[0])),
                                health: None,
                                exit: false,
                            }
                        } else {
                            quiet_step(ProcModel { threads: t1, ..s })
                        }
                    } else {
                        quiet_step(ProcModel { threads: t1, ..s })
                    }
                } else {
                    let t2 = busy_only(t1);
                    StepModel {
                        state: ProcModel { threads: t2, ..s },
                        dispatch: None,
                        health: None,
                        exit: t2.len() == 0,
                    }
                }
            } else {
                quiet_step(s)
            }
        },
        ProcessorInput::HealthStatus => StepModel {
            state: s,
            dispatch: None,
            health: Some((s.jobs.len() as int, busy_count(s.threads) as int)),
            exit: false,
        },
    }
}

/// The scheduler: the overflow queue, the worker pool, the pool bound,
/// and the shutdown flag.  The event loop of the shell is its only
/// mutator, through [`Processor::handle`].
///
/// Any job may run on any free worker: the scheduler imposes no
/// per-script serialization.
#[derive(Debug)]
pub struct Processor {
    jobs: Vec<Job>,
    threads: Vec<Thread>,
    max_threads: u16,
    should_stop: bool,
}

impl View for Processor {
    type V = ProcModel;

    closed spec fn view(&self) -> ProcModel {
        ProcModel {
            jobs: self.jobs@,
            threads: self.threads@,
            max_threads: self.max_threads as nat,
            should_stop: self.should_stop,
        }
    }
}

/// The scheduler's invariant at every event-loop fixed point:
/// - the pool never exceeds its bound;
/// - every pooled worker is still in service (stopped ones leave the pool);
/// - jobs overflow to the queue only while the whole pool is busy;
/// - once shutdown has begun, only busy workers remain.
pub open spec fn model_inv(s: ProcModel) -> bool {
    &&& s.threads.len() <= s.max_threads
    &&& forall|i: int| 0 <= i < s.threads.len() ==> !(#[trigger] s.threads[i]).should_stop
    &&& s.jobs.len() > 0 ==> busy_count(s.threads) == s.threads.len()
    &&& s.should_stop ==> busy_count(s.threads) == s.threads.len()
}

impl Processor {
    /// The scheduler's invariant; established by [`Processor::new`] and
    /// preserved by [`Processor::handle`].
    pub open spec fn inv(&self) -> bool {
        model_inv(self@)
    }

    /// A scheduler with `max_threads` fresh workers and an empty queue.
    /// A pool bound of zero is a configuration error.
    pub fn new(max_threads: u16) -> (r: Result<Processor, FisherError>)
        ensures
            max_threads == 0 <==> r is Err,
            r matches Err(e) ==> e is InvalidThreadCount,
            r matches Ok(p) ==> {
                &&& p.inv()
                &&& p@.jobs.len() == 0
                &&& p@.threads.len() == max_threads
                &&& forall|i: int| 0 <= i < p@.threads.len() ==> !(#[trigger] p@.threads[i]).busy
                &&& p@.max_threads == max_threads
                &&& !p@.should_stop
            },
    {
        if max_threads == 0 {
            return Err(FisherError::InvalidThreadCount);
        }
        let mut threads: Vec<Thread> = Vec::new();
        let mut i: u16 = 0;
        while i < max_threads
            invariant
                i <= max_threads,
                threads@.len() == i,
                forall|k: int|
                    0 <= k < threads@.len() ==> !(#[trigger] threads@[k]).busy && !threads@[k].should_stop,
            decreases max_threads - i,
        {
            threads.push(Thread::new());
            i += 1;
        }
        let p = Processor { jobs: Vec::new(), threads, max_threads, should_stop: false };
        proof {
            lemma_busy_count_all_idle(p@.threads);
        }
        Ok(p)
    }

    /// How many workers remain in the pool.
    pub fn thread_count(&self) -> (r: usize)
        ensures
            r == self@.threads.len(),
    {
        self.threads.len()
    }

    /// Whether the worker at position `i` is busy.
    pub fn thread_busy(&self, i: usize) -> (r: bool)
        requires
            i < self@.threads.len(),
        ensures
            r == self@.threads[i as int].busy,
    {
        self.threads[i].busy
    }

    /// How many workers are busy right now.
    pub fn busy_threads(&self) -> (r: u16)
        requires
            busy_count(self@.threads) <= u16::MAX,
        ensures
            r as nat == busy_count(self@.threads),
    {
        let mut result: u16 = 0;
        let n = self.threads.len();
        let mut i: usize = 0;
        proof {
            assert(self.threads@.take(0) =~= Seq::<Thread>::empty());
        }
        while i < n
            invariant
                i <= n,
                n == self.threads@.len(),
                result as nat == busy_count(self.threads@.take(i as int)),
                busy_count(self@.threads) <= u16::MAX,
                self@.threads == self.threads@,
            decreases n - i,
        {
            proof {
                assert(self.threads@.take(i + 1).drop_last() =~= self.threads@.take(i as int));
                assert(self.threads@.take(i + 1).last() == self.threads@[i as int]);
                lemma_busy_count_take_le(self.threads@, i + 1);
            }
            if self.threads[i].busy() {
                result += 1;
            }
            i += 1;
        }
        proof {
            assert(self.threads@.take(n as int) =~= self.threads@);
        }
        result
    }

    /// Removes every idle worker from the pool, returning their positions
    /// (ascending, in the pool as it stood on entry) so the shell can stop
    /// and join the matching threads.  Busy workers stay and are collected
    /// on their next completion.
    fn cleanup_threads(&mut self) -> (stopped: Vec<usize>)
        ensures
            final(self).threads@ == busy_only(old(self).threads@),
            final(self).jobs == old(self).jobs,
            final(self).max_threads == old(self).max_threads,
            final(self).should_stop == old(self).should_stop,
            Seq::new(stopped@.len(), |k: int| stopped@[k] as int) == idle_indices(
                old(self).threads@,
            ),
    {
        let mut kept: Vec<Thread> = Vec::new();
        let mut stopped: Vec<usize> = Vec::new();
        let n = self.threads.len();
        let mut i: usize = 0;
        proof {
            assert(self.threads@.take(0) =~= Seq::<Thread>::empty());
            assert(busy_only(self.threads@.take(0)) =~= Seq::<Thread>::empty());
            assert(idle_indices(self.threads@.take(0)) =~= Seq::<int>::empty());
            assert(Seq::new(stopped@.len(), |k: int| stopped@[k] as int) =~= Seq::<int>::empty());
        }
        while i < n
            invariant
                i <= n,
                n == self.threads@.len(),
                kept@ == busy_only(self.threads@.take(i as int)),
                Seq::new(stopped@.len(), |k: int| stopped@[k] as int) == idle_indices(
                    self.threads@.take(i as int),
                ),
            decreases n - i,
        {
            proof {
                assert(self.threads@.take(i + 1).drop_last() =~= self.threads@.take(i as int));
                assert(self.threads@.take(i + 1).last() == self.threads@[i as int]);
            }
            let t = self.threads[i];
            if t.busy {
                kept.push(t);
                proof {
                    assert(kept@ =~= busy_only(self.threads@.take(i + 1)));
                }
            } else {
                stopped.push(i);
                proof {
                    assert(Seq::new(stopped@.len(), |k: int| stopped@[k] as int) =~= idle_indices(
                        self.threads@.take(i + 1),
                    ));
                }
            }
            i += 1;
        }
        proof {
            assert(self.threads@.take(n as int) =~= self.threads@);
        }
        self.threads = kept;
        stopped
    }

    /// Hands a pending job to the first free worker, if any, marking it
    /// busy; returns the worker's position.
    fn run_job(&mut self) -> (r: Option<usize>)
        ensures
            final(self).jobs == old(self).jobs,
            final(self).max_threads == old(self).max_threads,
            final(self).should_stop == old(self).should_stop,
            match r {
                Some(f) => {
                    &&& f as int == first_free(old(self).threads@)
                    &&& f < old(self).threads@.len()
                    &&& final(self).threads@ == old(self).threads@.update(
                        f as int,
                        Thread {
                            busy: true,
                            should_stop: old(self).threads@[f as int].should_stop,
                        },
                    )
                },
                None => {
                    &&& first_free(old(self).threads@) == old(self).threads@.len()
                    &&& final(self).threads@ == old(self).threads@
                },
            },
    {
        let n = self.threads.len();
        let mut i: usize = 0;
        while i < n
            invariant
                i <= n,
                n == self.threads@.len(),
                self.threads@ == old(self).threads@,
                self.jobs == old(self).jobs,
                self.max_threads == old(self).max_threads,
                self.should_stop == old(self).should_stop,
                first_free(old(self).threads@) == first_free_from(old(self).threads@, i as int),
            decreases n - i,
        {
            let mut t = self.threads[i];
            if t.process() {
                self.threads.set(i, t);
                return Some(i);
            }
            i += 1;
        }
        None
    }

    /// Handles one event of the scheduler's input channel, exactly as
    /// [`spec_step`] describes, and returns what the shell must do.
    ///
    /// The shell guarantees that a completion names a busy worker of the
    /// current pool; the scheduler state is otherwise arbitrary within its
    /// invariant.
    pub fn handle(&mut self, input: ProcessorInput) -> (out: StepOutcome)
        requires
            old(self).inv(),
            input matches ProcessorInput::JobEnded(w) ==> w < old(self)@.threads.len()
                && old(self)@.threads[w as int].busy,
        ensures
            final(self).inv(),
            final(self)@ == spec_step(old(self)@, input).state,
            out.exit == spec_step(old(self)@, input).exit,
            match out.dispatch {
                Some((f, j)) => spec_step(old(self)@, input).dispatch == Some((f as int, j)),
                None => spec_step(old(self)@, input).dispatch is None,
            },
            match out.health {
                Some(h) => spec_step(old(self)@, input).health == Some(
                    (h.queue_size as int, h.active_jobs as int),
                ),
                None => spec_step(old(self)@, input).health is None,
            },
            input is StopSignal || (input matches ProcessorInput::JobEnded(_)
                && old(self)@.should_stop) ==> Seq::new(
                out.stopped@.len(),
                |k: int| out.stopped@[k] as int,
            ) == idle_indices(spec_pre_cleanup(old(self)@, input)),
            !(input is StopSignal || (input matches ProcessorInput::JobEnded(_)
                && old(self)@.should_stop)) ==> out.stopped@.len() == 0,
    {
        proof {
            lemma_step_preserves_inv(self@, input);
        }
        match input {
            ProcessorInput::StopSignal => {
                self.should_stop = true;
                let stopped = self.cleanup_threads();
                let exit = self.threads.len() == 0;
                StepOutcome { dispatch: None, stopped, health: None, exit }
            },
            ProcessorInput::Job(job) => {
                if self.should_stop {
                    StepOutcome { dispatch: None, stopped: Vec::new(), health: None, exit: false }
                } else {
                    match self.run_job() {
                        Some(f) => StepOutcome {
                            dispatch: Some((f, job)),
                            stopped: Vec::new(),
                            health: None,
                            exit: false,
                        },
                        None => {
                            self.jobs.push(job);
                            StepOutcome {
                                dispatch: None,
                                stopped: Vec::new(),
                                health: None,
                                exit: false,
                            }
                        },
                    }
                }
            },
            ProcessorInput::JobEnded(w) => {
                let t = self.threads[w];
                self.threads.set(w, Thread { busy: false, should_stop: t.should_stop });
                if !self.should_stop {
                    if self.jobs.len() > 0 {
                        let job = self.jobs.remove(0);
                        match self.run_job() {
                            Some(f) => StepOutcome {
                                dispatch: Some((f, job)),
                                stopped: Vec::new(),
                                health: None,
                                exit: false,
                            },
                            None => {
                                // Unreachable while the invariant holds: the
                                // finisher itself is free.  Restore the head,
                                // preserving FIFO, as the event loop demands.
                                self.jobs.insert(0, job);
                                proof {
                                    lemma_first_free_bound(self.threads@, w as int);
                                    assert(false);
                                }
                                StepOutcome {
                                    dispatch: None,
                                    stopped: Vec::new(),
                                    health: None,
                                    exit: false,
                                }
                            },
                        }
                    } else {
                        StepOutcome {
                            dispatch: None,
                            stopped: Vec::new(),
                            health: None,
                            exit: false,
                        }
                    }
                } else {
                    let stopped = self.cleanup_threads();
                    let exit = self.threads.len() == 0;
                    StepOutcome { dispatch: None, stopped, health: None, exit }
                }
            },
            ProcessorInput::HealthStatus => {
                proof {
                    lemma_busy_count_le_len(self@.threads);
                }
                let health = HealthDetails {
                    queue_size: self.jobs.len(),
                    active_jobs: self.busy_threads(),
                };
                StepOutcome { dispatch: None, stopped: Vec::new(), health: Some(health), exit: false }
            },
        }
    }
}

/// The pool that worker cleanup inspects while handling `e` from `s`:
/// for a completion, the pool with the finisher's flag already cleared.
pub open spec fn spec_pre_cleanup(s: ProcModel, e: ProcessorInput) -> Seq<Thread> {
    match e {
        ProcessorInput::JobEnded(w) => s.threads.update(
            w as int,
            Thread { busy: false, should_stop: s.threads[w as int].should_stop },
        ),
        _ => s.threads,
    }
}

/// No more workers are busy than exist.
pub proof fn lemma_busy_count_le_len(s: Seq<Thread>)
    ensures
        busy_count(s) <= s.len(),
    decreases s.len(),
{
    if s.len() > 0 {
        lemma_busy_count_le_len(s.drop_last());
    }
}

/// A pool of idle workers has no busy worker.
proof fn lemma_busy_count_all_idle(s: Seq<Thread>)
    requires
        forall|i: int| 0 <= i < s.len() ==> !(#[trigger] s[i]).busy,
    ensures
        busy_count(s) == 0,
    decreases s.len(),
{
    if s.len() > 0 {
        assert(forall|i: int| 0 <= i < s.drop_last().len() ==> s.drop_last()[i] == s[i]);
        lemma_busy_count_all_idle(s.drop_last());
    }
}

/// The busy count of a prefix never exceeds the whole pool's.
proof fn lemma_busy_count_take_le(s: Seq<Thread>, i: int)
    requires
        0 <= i <= s.len(),
    ensures
        busy_count(s.take(i)) <= busy_count(s),
    decreases s.len() - i,
{
    if i < s.len() {
        lemma_busy_count_take_le(s, i + 1);
        assert(s.take(i + 1).drop_last() =~= s.take(i));
        assert(s.take(i + 1).last() == s[i]);
    } else {
        assert(s.take(i) =~= s);
    }
}

/// The whole pool is busy exactly when the busy count reaches its size.
pub proof fn lemma_busy_count_full(s: Seq<Thread>)
    ensures
        (busy_count(s) == s.len()) <==> (forall|i: int| 0 <= i < s.len() ==> (#[trigger] s[i]).busy),
    decreases s.len(),
{
    lemma_busy_count_le_len(s);
    if s.len() > 0 {
        lemma_busy_count_full(s.drop_last());
        lemma_busy_count_le_len(s.drop_last());
        assert(forall|i: int| 0 <= i < s.drop_last().len() ==> s.drop_last()[i] == s[i]);
        assert(s.last() == s[s.len() - 1]);
        if busy_count(s) == s.len() {
            assert(forall|i: int| 0 <= i < s.len() ==> (#[trigger] s[i]).busy);
        }
    }
}

/// How one flag update moves the busy count.
pub proof fn lemma_busy_count_update(s: Seq<Thread>, i: int, t: Thread)
    requires
        0 <= i < s.len(),
    ensures
        busy_count(s.update(i, t)) == busy_count(s) - (if s[i].busy {
            1int
        } else {
            0int
        }) + (if t.busy {
            1int
        } else {
            0int
        }),
    decreases s.len(),
{
    if i == s.len() - 1 {
        assert(s.update(i, t).drop_last() =~= s.drop_last());
        assert(s.update(i, t).last() == t);
    } else {
        lemma_busy_count_update(s.drop_last(), i, t);
        assert(s.update(i, t).drop_last() =~= s.drop_last().update(i, t));
        assert(s.update(i, t).last() == s.last());
    }
}

/// What worker cleanup leaves: as many workers as were busy, all of them
/// busy, and none of them told to stop if none was before.
pub proof fn lemma_busy_only(s: Seq<Thread>)
    ensures
        busy_only(s).len() == busy_count(s),
        forall|j: int| 0 <= j < busy_only(s).len() ==> (#[trigger] busy_only(s)[j]).busy,
        (forall|i: int| 0 <= i < s.len() ==> !(#[trigger] s[i]).should_stop) ==> (forall|j: int|
            0 <= j < busy_only(s).len() ==> !(#[trigger] busy_only(s)[j]).should_stop),
    decreases s.len(),
{
    if s.len() > 0 {
        lemma_busy_only(s.drop_last());
        assert(forall|i: int| 0 <= i < s.drop_last().len() ==> s.drop_last()[i] == s[i]);
        assert(s.last() == s[s.len() - 1]);
    }
}

/// A fully busy pool is exactly what cleanup keeps.
pub proof fn lemma_busy_only_of_full(s: Seq<Thread>)
    requires
        forall|i: int| 0 <= i < s.len() ==> (#[trigger] s[i]).busy,
    ensures
        busy_only(s) == s,
    decreases s.len(),
{
    if s.len() > 0 {
        assert(forall|i: int| 0 <= i < s.drop_last().len() ==> s.drop_last()[i] == s[i]);
        lemma_busy_only_of_full(s.drop_last());
        assert(busy_only(s) =~= s);
    } else {
        assert(busy_only(s) =~= s);
    }
}

/// The first-free scan returns either the position of a free worker with
/// none free before it, or the pool size when no worker is free.
pub proof fn lemma_first_free(s: Seq<Thread>)
    ensures
        0 <= first_free(s) <= s.len(),
        first_free(s) < s.len() ==> thread_is_free(s[first_free(s)]),
        forall|j: int| 0 <= j < first_free(s) ==> !thread_is_free(#[trigger] s[j]),
{
    lemma_first_free_from(s, 0);
}

proof fn lemma_first_free_from(s: Seq<Thread>, i: int)
    requires
        0 <= i <= s.len(),
    ensures
        i <= first_free_from(s, i) <= s.len(),
        first_free_from(s, i) < s.len() ==> thread_is_free(s[first_free_from(s, i)]),
        forall|j: int| i <= j < first_free_from(s, i) ==> !thread_is_free(#[trigger] s[j]),
    decreases s.len() - i,
{
    if i < s.len() && !thread_is_free(s[i]) {
        lemma_first_free_from(s, i + 1);
    }
}

/// A free worker bounds the first-free scan.
pub proof fn lemma_first_free_bound(s: Seq<Thread>, i: int)
    requires
        0 <= i < s.len(),
        thread_is_free(s[i]),
    ensures
        first_free(s) <= i,
{
    lemma_first_free(s);
    if first_free(s) > i {
        assert(!thread_is_free(s[i]));
    }
}

/// Handling any event preserves the scheduler invariant.
pub proof fn lemma_step_preserves_inv(s: ProcModel, e: ProcessorInput)
    requires
        model_inv(s),
    ensures
        model_inv(spec_step(s, e).state),
        spec_step(s, e).state.max_threads == s.max_threads,
        s.should_stop ==> spec_step(s, e).state.should_stop,
{
    match e {
        ProcessorInput::StopSignal => {
            lemma_busy_only(s.threads);
            lemma_busy_count_le_len(s.threads);
            lemma_busy_count_full(busy_only(s.threads));
        },
        ProcessorInput::Job(_) => {
            if !s.should_stop {
                let f = first_free(s.threads);
                lemma_first_free(s.threads);
                if f < s.threads.len() {
                    // A free worker exists, so the queue must be empty.
                    lemma_busy_count_full(s.threads);
                    assert(s.jobs.len() == 0);
                    lemma_busy_count_update(
                        s.threads,
                        f,
                        Thread { busy: true, should_stop: s.threads[f].should_stop },
                    );
                    lemma_busy_count_le_len(s.threads);
                } else {
                    // Nobody is free; with no worker stopping, all are busy.
                    lemma_busy_count_full(s.threads);
                    assert forall|i: int| 0 <= i < s.threads.len() implies (#[trigger] s.threads[i]).busy by {
                        assert(!thread_is_free(s.threads[i]));
                        assert(!s.threads[i].should_stop);
                    }
                }
            }
        },
        ProcessorInput::JobEnded(w) => {
            if w < s.threads.len() {
                let cleared = Thread { busy: false, should_stop: s.threads[w as int].should_stop };
                let t1 = s.threads.update(w as int, cleared);
                lemma_busy_count_update(s.threads, w as int, cleared);
                lemma_busy_count_le_len(t1);
                if !s.should_stop {
                    if s.jobs.len() > 0 {
                        let f = first_free(t1);
                        lemma_first_free(t1);
                        lemma_first_free_bound(t1, w as int);
                        assert(f < t1.len());
                        let busied = Thread { busy: true, should_stop: t1[f].should_stop };
                        lemma_busy_count_update(t1, f, busied);
                        lemma_busy_count_full(s.threads);
                    }
                } else {
                    lemma_busy_only(t1);
                    lemma_busy_count_full(busy_only(t1));
                }
            }
        },
        ProcessorInput::HealthStatus => {},
    }
}

} // verus!
