//! The download manager: an in-memory job registry with FIFO admission
//! under a configurable concurrency bound, and the per-job lifecycle
//! `Queued -> Running -> Completed | Failed | Cancelled`.
//!
//! The manager is the decision core only: it spawns no process itself.
//! The caller performs the actions these methods decide on (spawn the
//! external process on admission, signal it on cancellation) and feeds
//! process events back in through `on_process_exit`. A job holds a
//! process handle exactly while it is `Running`, so no job is ever
//! reported terminal while its process is still attached.

use vstd::prelude::*;
use crate::security::{clamp_max_concurrent, spec_clamp_concurrent, spec_path_ok, spec_url_ok};

verus! {

/// The lifecycle state of one download job.
#[derive(Clone, Copy, PartialEq, Eq, Structural, Debug)]
pub enum JobState {
    /// Accepted, waiting for a concurrency slot.
    Queued,
    /// Admitted; the external process is attached.
    Running,
    /// Finished successfully.
    Completed,
    /// The process failed to spawn or exited with an error.
    Failed,
    /// Cancelled by the caller.
    Cancelled,
}

/// Whether a state is terminal.
pub open spec fn is_terminal(s: JobState) -> bool {
    s is Completed || s is Failed || s is Cancelled
}

/// One download job and its lifecycle state.
#[derive(Clone, Debug)]
pub struct Job {
    /// The unique, opaque job identifier.
    pub id: u64,
    /// The sanitized source URL.
    pub url: String,
    /// The sanitized output path.
    pub dest: String,
    /// The current lifecycle state.
    pub state: JobState,
    /// Whether an external process is attached to this job.
    pub has_process: bool,
    /// Whether cancellation was requested while the job was running; the
    /// job stays `Running` until its process exit is observed.
    pub cancel_requested: bool,
}

/// The number of `Running` jobs.
pub open spec fn running_count(jobs: Seq<Job>) -> int
    decreases jobs.len(),
{
    if jobs.len() == 0 {
        0
    } else {
        running_count(jobs.drop_last()) + if jobs.last().state is Running {
            1int
        } else {
            0int
        }
    }
}

/// Appending a job changes the running count by one exactly when the
/// job is `Running`.
pub proof fn lemma_running_count_push(jobs: Seq<Job>, j: Job)
    ensures
        running_count(jobs.push(j)) == running_count(jobs) + if j.state is Running {
            1int
        } else {
            0int
        },
{
    assert(jobs.push(j).drop_last() =~= jobs);
    assert(jobs.push(j).last() == j);
}

/// Replacing one job changes the running count by the difference the
/// replacement makes.
pub proof fn lemma_running_count_update(jobs: Seq<Job>, i: int, j: Job)
    requires
        0 <= i < jobs.len(),
    ensures
        running_count(jobs.update(i, j)) == running_count(jobs) - (if jobs[i].state is Running {
            1int
        } else {
            0int
        }) + (if j.state is Running {
            1int
        } else {
            0int
        }),
    decreases jobs.len(),
{
    let u = jobs.update(i, j);
    if i == jobs.len() - 1 {
        assert(u.drop_last() =~= jobs.drop_last());
        assert(u.last() == j);
    } else {
        assert(u.drop_last() =~= jobs.drop_last().update(i, j));
        assert(u.last() == jobs.last());
        lemma_running_count_update(jobs.drop_last(), i, j);
    }
}

/// The job as it looks once admitted: `Running` with a process attached.
pub open spec fn admitted_job(j: Job) -> Job {
    Job { state: JobState::Running, has_process: true, ..j }
}

/// The job as it looks after a cancellation from the queue.
pub open spec fn dequeued_job(j: Job) -> Job {
    Job { state: JobState::Cancelled, has_process: false, ..j }
}

/// The job as it looks once cancellation of its running process has been
/// requested: still `Running` until the exit is observed.
pub open spec fn cancel_marked_job(j: Job) -> Job {
    Job { cancel_requested: true, ..j }
}

/// The job as it looks after its process exit has been observed.
pub open spec fn exited_job(j: Job, success: bool) -> Job {
    Job {
        state: if j.cancel_requested {
            JobState::Cancelled
        } else if success {
            JobState::Completed
        } else {
            JobState::Failed
        },
        has_process: false,
        cancel_requested: false,
        ..j
    }
}

/// The download manager's registry and concurrency bound.
#[derive(Debug)]
pub struct DownloadManager {
    /// All jobs of this session, in submission order.
    pub jobs: Vec<Job>,
    /// The live concurrency bound, always in `[1, 10]`.
    pub max_concurrent: u32,
    /// The identifier the next submitted job will get.
    pub next_id: u64,
}

impl DownloadManager {
    /// The registry's invariant: the bound is in range, identifiers are
    /// strictly increasing in submission order and below `next_id`, a
    /// job holds a process exactly while `Running`, and a cancellation
    /// mark exists only on a `Running` job. In particular no terminal
    /// job has a process attached.
    pub open spec fn wf(self) -> bool {
        &&& 1 <= self.max_concurrent <= 10
        &&& forall|i: int|
            0 <= i < self.jobs@.len() ==> (#[trigger] self.jobs@[i].has_process) == (
            self.jobs@[i].state is Running)
        &&& forall|i: int|
            0 <= i < self.jobs@.len() ==> ((#[trigger] self.jobs@[i].cancel_requested)
                ==> self.jobs@[i].state is Running)
        &&& forall|i: int, j: int|
            0 <= i < j < self.jobs@.len() ==> (#[trigger] self.jobs@[i].id)
                < (#[trigger] self.jobs@[j].id)
        &&& forall|i: int| 0 <= i < self.jobs@.len() ==> (#[trigger] self.jobs@[i].id) < self.next_id
    }

    /// Whether the running jobs respect the current bound.
    pub open spec fn bounded(self) -> bool {
        running_count(self.jobs@) <= self.max_concurrent
    }

    /// A fresh manager with no jobs and the clamped bound.
    pub fn new(limit: u32) -> (m: DownloadManager)
        ensures
            m.wf(),
            m.bounded(),
            m.jobs@.len() == 0,
            m.max_concurrent == spec_clamp_concurrent(limit as int),
            m.next_id == 0,
    {
        DownloadManager { jobs: Vec::new(), max_concurrent: clamp_max_concurrent(limit), next_id: 0 }
    }

    /// The number of `Running` jobs.
    pub fn count_running(&self) -> (c: usize)
        ensures
            c == running_count(self.jobs@),
    {
        let n = self.jobs.len();
        let mut c: usize = 0;
        let mut i: usize = 0;
        while i < n
            invariant
                n == self.jobs@.len(),
                0 <= i <= n,
                c <= i,
                c == running_count(self.jobs@.subrange(0, i as int)),
            decreases n - i,
        {
            proof {
                assert(self.jobs@.subrange(0, i + 1 as int).drop_last() =~= self.jobs@.subrange(
                    0,
                    i as int,
                ));
                assert(self.jobs@.subrange(0, i + 1 as int).last() == self.jobs@[i as int]);
            }
            if self.jobs[i].state == JobState::Running {
                c = c + 1;
            }
            i = i + 1;
        }
        proof {
            assert(self.jobs@.subrange(0, n as int) =~= self.jobs@);
        }
        c
    }

    /// Accept a sanitized request as a new `Queued` job and hand out its
    /// identifier. The caller is responsible for having run the
    /// sanitizers; this method does not re-run them.
    pub fn submit(&mut self, url: String, dest: String) -> (id: u64)
        requires
            old(self).wf(),
            old(self).next_id < u64::MAX,
            spec_url_ok(url@),
            spec_path_ok(dest@),
        ensures
            final(self).wf(),
            id == old(self).next_id,
            final(self).next_id == old(self).next_id + 1,
            final(self).max_concurrent == old(self).max_concurrent,
            final(self).jobs@ == old(self).jobs@.push(
                Job {
                    id: id,
                    url: url,
                    dest: dest,
                    state: JobState::Queued,
                    has_process: false,
                    cancel_requested: false,
                },
            ),
            running_count(final(self).jobs@) == running_count(old(self).jobs@),
            old(self).bounded() ==> final(self).bounded(),
    {
        let id = self.next_id;
        let job = Job {
            id,
            url,
            dest,
            state: JobState::Queued,
            has_process: false,
            cancel_requested: false,
        };
        proof {
            lemma_running_count_push(self.jobs@, job);
        }
        self.jobs.push(job);
        self.next_id = self.next_id + 1;
        id
    }

    /// Admit the longest-waiting `Queued` job when a concurrency slot is
    /// free: it becomes `Running` with a process slot attached, and its
    /// identifier is returned so the caller can spawn the process.
    /// Admission keeps the running count within the bound.
    #[verifier::rlimit(60)]
    pub fn next_admission(&mut self) -> (r: Option<u64>)
        requires
            old(self).wf(),
        ensures
            final(self).wf(),
            final(self).max_concurrent == old(self).max_concurrent,
            final(self).next_id == old(self).next_id,
            match r {
                Some(id) => {
                    &&& running_count(old(self).jobs@) < old(self).max_concurrent
                    &&& exists|i: int|
                        {
                            &&& 0 <= i < old(self).jobs@.len()
                            &&& (#[trigger] old(self).jobs@[i]).state is Queued
                            &&& (forall|j: int|
                                0 <= j < i ==> !((#[trigger] old(self).jobs@[j]).state is Queued))
                            &&& id == old(self).jobs@[i].id
                            &&& final(self).jobs@ == old(self).jobs@.update(
                                i,
                                admitted_job(old(self).jobs@[i]),
                            )
                        }
                    &&& running_count(final(self).jobs@) == running_count(old(self).jobs@) + 1
                    &&& running_count(final(self).jobs@) <= final(self).max_concurrent
                },
                None => {
                    &&& *final(self) == *old(self)
                    &&& (running_count(old(self).jobs@) >= old(self).max_concurrent || (forall|
                        i: int,
                    |
                        0 <= i < old(self).jobs@.len() ==> !((#[trigger] old(
                            self,
                        ).jobs@[i]).state is Queued)))
                },
            },
    {
        let slots = self.max_concurrent as usize;
        let used = self.count_running();
        if used >= slots {
            return None;
        }
        let n = self.jobs.len();
        let mut i: usize = 0;
        while i < n
            invariant
                n == self.jobs@.len(),
                0 <= i <= n,
                *self == *old(self),
                self.wf(),
                running_count(self.jobs@) < self.max_concurrent,
                forall|j: int| 0 <= j < i ==> !((#[trigger] self.jobs@[j]).state is Queued),
        decreases n - i,
        {
            if self.jobs[i].state == JobState::Queued {
                let job = &self.jobs[i];
                let new_job = Job {
                    id: job.id,
                    url: job.url.clone(),
                    dest: job.dest.clone(),
                    state: JobState::Running,
                    has_process: true,
                    cancel_requested: job.cancel_requested,
                };
                let id = job.id;
                proof {
                    lemma_running_count_update(self.jobs@, i as int, new_job);
                }
                self.jobs[i] = new_job;
                return Some(id);
            }
            i = i + 1;
        }
        None
    }

    /// Update the live concurrency bound, clamped into `[1, 10]`.
    ///
    /// Running jobs are never preempted: when the new bound lies below
    /// the current running count, the bound only throttles new
    /// admissions until the count drops by itself.
    pub fn set_max_concurrent(&mut self, n: u32)
        requires
            old(self).wf(),
        ensures
            final(self).wf(),
            final(self).jobs@ == old(self).jobs@,
            final(self).next_id == old(self).next_id,
            final(self).max_concurrent == spec_clamp_concurrent(n as int),
            running_count(final(self).jobs@) == running_count(old(self).jobs@),
            final(self).bounded() <==> running_count(old(self).jobs@) <= spec_clamp_concurrent(
                n as int,
            ),
    {
        self.max_concurrent = clamp_max_concurrent(n);
    }

    /// What a cancellation request decided.
    pub fn cancel(&mut self, id: u64) -> (r: CancelOutcome)
        requires
            old(self).wf(),
        ensures
            final(self).wf(),
            final(self).max_concurrent == old(self).max_concurrent,
            final(self).next_id == old(self).next_id,
            running_count(final(self).jobs@) == running_count(old(self).jobs@),
            old(self).bounded() ==> final(self).bounded(),
            match r {
                CancelOutcome::NotFound => {
                    &&& *final(self) == *old(self)
                    &&& (forall|i: int|
                        0 <= i < old(self).jobs@.len() ==> (#[trigger] old(self).jobs@[i].id) != id)
                },
                CancelOutcome::Dequeued => exists|i: int|
                    {
                        &&& 0 <= i < old(self).jobs@.len()
                        &&& (#[trigger] old(self).jobs@[i]).id == id
                        &&& old(self).jobs@[i].state is Queued
                        &&& final(self).jobs@ == old(self).jobs@.update(
                            i,
                            dequeued_job(old(self).jobs@[i]),
                        )
                    },
                CancelOutcome::SignalProcess => exists|i: int|
                    {
                        &&& 0 <= i < old(self).jobs@.len()
                        &&& (#[trigger] old(self).jobs@[i]).id == id
                        &&& old(self).jobs@[i].state is Running
                        &&& final(self).jobs@ == old(self).jobs@.update(
                            i,
                            cancel_marked_job(old(self).jobs@[i]),
                        )
                    },
                CancelOutcome::AlreadyFinished => {
                    &&& *final(self) == *old(self)
                    &&& exists|i: int|
                        {
                            &&& 0 <= i < old(self).jobs@.len()
                            &&& (#[trigger] old(self).jobs@[i]).id == id
                            &&& is_terminal(old(self).jobs@[i].state)
                        }
                },
            },
    {
        let n = self.jobs.len();
        let mut i: usize = 0;
        while i < n
            invariant
                n == self.jobs@.len(),
                0 <= i <= n,
                *self == *old(self),
                self.wf(),
                forall|j: int| 0 <= j < i ==> (#[trigger] self.jobs@[j].id) != id,
            decreases n - i,
        {
            if self.jobs[i].id == id {
                let job = &self.jobs[i];
                if job.state == JobState::Queued {
                    let new_job = Job {
                        id: job.id,
                        url: job.url.clone(),
                        dest: job.dest.clone(),
                        state: JobState::Cancelled,
                        has_process: false,
                        cancel_requested: job.cancel_requested,
                    };
                    proof {
                        lemma_running_count_update(self.jobs@, i as int, new_job);
                    }
                    self.jobs[i] = new_job;
                    return CancelOutcome::Dequeued;
                }
                if job.state == JobState::Running {
                    let new_job = Job {
                        id: job.id,
                        url: job.url.clone(),
                        dest: job.dest.clone(),
                        state: JobState::Running,
                        has_process: job.has_process,
                        cancel_requested: true,
                    };
                    proof {
                        lemma_running_count_update(self.jobs@, i as int, new_job);
                    }
                    self.jobs[i] = new_job;
                    return CancelOutcome::SignalProcess;
                }
                return CancelOutcome::AlreadyFinished;
            }
            i = i + 1;
        }
        CancelOutcome::NotFound
    }

    /// Record that the process attached to a `Running` job has exited:
    /// the job reaches exactly one terminal state, `Cancelled` when
    /// cancellation had been requested, otherwise `Completed` or
    /// `Failed` after the exit status. The process handle is released,
    /// so the running count drops by one.
    pub fn on_process_exit(&mut self, id: u64, success: bool) -> (r: bool)
        requires
            old(self).wf(),
        ensures
            final(self).wf(),
            final(self).max_concurrent == old(self).max_concurrent,
            final(self).next_id == old(self).next_id,
            old(self).bounded() ==> final(self).bounded(),
            r ==> exists|i: int|
                {
                    &&& 0 <= i < old(self).jobs@.len()
                    &&& (#[trigger] old(self).jobs@[i]).id == id
                    &&& old(self).jobs@[i].state is Running
                    &&& final(self).jobs@ == old(self).jobs@.update(
                        i,
                        exited_job(old(self).jobs@[i], success),
                    )
                },
            r ==> running_count(final(self).jobs@) == running_count(old(self).jobs@) - 1,
            !r ==> *final(self) == *old(self) && (forall|i: int|
                0 <= i < old(self).jobs@.len() && (#[trigger] old(self).jobs@[i]).id == id ==> !(
                old(self).jobs@[i].state is Running)),
    {
        let n = self.jobs.len();
        let mut i: usize = 0;
        while i < n
            invariant
                n == self.jobs@.len(),
                0 <= i <= n,
                *self == *old(self),
                self.wf(),
                forall|j: int|
                    0 <= j < i && (#[trigger] self.jobs@[j].id) == id ==> !(
                    self.jobs@[j].state is Running),
            decreases n - i,
        {
            if self.jobs[i].id == id && self.jobs[i].state == JobState::Running {
                let job = &self.jobs[i];
                let new_state = if job.cancel_requested {
                    JobState::Cancelled
                } else if success {
                    JobState::Completed
                } else {
                    JobState::Failed
                };
                let new_job = Job {
                    id: job.id,
                    url: job.url.clone(),
                    dest: job.dest.clone(),
                    state: new_state,
                    has_process: false,
                    cancel_requested: false,
                };
                proof {
                    lemma_running_count_update(self.jobs@, i as int, new_job);
                }
                self.jobs[i] = new_job;
                return true;
            }
            i = i + 1;
        }
        false
    }

    /// The state of a job, if it exists.
    pub fn get_state(&self, id: u64) -> (r: Option<JobState>)
        ensures
            match r {
                Some(s) => exists|i: int|
                    0 <= i < self.jobs@.len() && (#[trigger] self.jobs@[i]).id == id
                        && self.jobs@[i].state == s,
                None => forall|i: int|
                    0 <= i < self.jobs@.len() ==> (#[trigger] self.jobs@[i].id) != id,
            },
    {
        let n = self.jobs.len();
        let mut i: usize = 0;
        while i < n
            invariant
                n == self.jobs@.len(),
                0 <= i <= n,
                forall|j: int| 0 <= j < i ==> (#[trigger] self.jobs@[j].id) != id,
            decreases n - i,
        {
            if self.jobs[i].id == id {
                return Some(self.jobs[i].state);
            }
            i = i + 1;
        }
        None
    }

    /// The number of jobs in the registry.
    pub fn job_count(&self) -> (c: usize)
        ensures
            c == self.jobs@.len(),
    {
        self.jobs.len()
    }
}

/// What a cancellation request decided; the caller carries it out.
#[derive(Clone, Copy, PartialEq, Eq, Structural, Debug)]
pub enum CancelOutcome {
    /// No job has this identifier.
    NotFound,
    /// The job was still queued and is now `Cancelled`; nothing runs.
    Dequeued,
    /// The job is running: the caller must terminate its process, await
    /// the exit, and then report it through `on_process_exit`; only that
    /// report marks the job `Cancelled`.
    SignalProcess,
    /// The job had already reached a terminal state.
    AlreadyFinished,
}

/// No job in a terminal state keeps a live process handle: once a job is
/// reported `Completed`, `Failed` or `Cancelled`, no process is attached
/// to it.
pub proof fn lemma_terminal_no_process(m: DownloadManager, i: int)
    requires
        m.wf(),
        0 <= i < m.jobs@.len(),
        is_terminal(m.jobs@[i].state),
    ensures
        !m.jobs@[i].has_process,
{
}

} // verus!
