//! The job registry of the scheduler: every add that was submitted for
//! asynchronous execution, with its state. A job is handed to a worker
//! once, and a job that is done or has failed never changes again.

use vstd::prelude::*;
use vstd::string::*;
use crate::dto::ApiAddRequest;
use crate::job::{Job, JobStatus, JobView};
use crate::outside::{fresh_uuid, now_rfc3339};

verus! {

/// Why the scheduler refused an operation.
#[derive(Debug, Clone)]
pub enum SchedulerError {
    Other(String),
    JobNotFound(String),
}

impl SchedulerError {
    /// A human-readable description.
    pub fn message(&self) -> (s: String)
        ensures
            s@ == match *self {
                SchedulerError::Other(m) => "scheduler error: "@ + m@,
                SchedulerError::JobNotFound(id) => "job not found: "@ + id@,
            },
    {
        match self {
            SchedulerError::Other(m) => {
                let mut s = "scheduler error: ".to_owned();
                s.append(m.as_str());
                s
            },
            SchedulerError::JobNotFound(id) => {
                let mut s = "job not found: ".to_owned();
                s.append(id.as_str());
                s
            },
        }
    }
}

/// One job of the registry, and the request it was submitted with for as
/// long as no worker has taken it.
pub struct EntryView {
    pub job: JobView,
    pub request: Option<ApiAddRequest>,
}

/// The registry as a mathematical value: its jobs in the order of
/// submission.
pub struct SchedView {
    pub entries: Seq<EntryView>,
}

impl SchedView {
    /// Whether a job with the given id was ever submitted.
    pub open spec fn has_job(self, id: Seq<char>) -> bool {
        exists|i: int| 0 <= i < self.entries.len() && (#[trigger] self.entries[i]).job.job_id == id
    }

    /// Position of the job with the given id.
    pub open spec fn job_pos(self, id: Seq<char>) -> int {
        choose|i: int| 0 <= i < self.entries.len() && (#[trigger] self.entries[i]).job.job_id == id
    }

    /// The job with the given id.
    pub open spec fn job(self, id: Seq<char>) -> JobView {
        self.entries[self.job_pos(id)].job
    }

    /// No job id is held twice, exactly the pending jobs still hold their
    /// request, and exactly the jobs that have ended hold a summary.
    pub open spec fn wf(self) -> bool {
        &&& forall|i: int, j: int|
            0 <= i < j < self.entries.len() ==> (#[trigger] self.entries[i]).job.job_id != (
            #[trigger] self.entries[j]).job.job_id
        &&& forall|i: int|
            0 <= i < self.entries.len() ==> ((#[trigger] self.entries[i]).job.status
                == JobStatus::Pending <==> self.entries[i].request.is_some())
        &&& forall|i: int|
            0 <= i < self.entries.len() ==> ((#[trigger] self.entries[i]).job.status.terminal()
                <==> self.entries[i].job.result_summary.is_some())
    }

    /// Whether some job is pending.
    pub open spec fn has_pending(self) -> bool {
        exists|i: int|
            0 <= i < self.entries.len() && (#[trigger] self.entries[i]).job.status
                == JobStatus::Pending
    }

    /// Position of the pending job that was submitted first.
    pub open spec fn first_pending(self) -> int {
        choose|i: int|
            0 <= i < self.entries.len() && (#[trigger] self.entries[i]).job.status
                == JobStatus::Pending && forall|k: int|
                0 <= k < i ==> (#[trigger] self.entries[k]).job.status != JobStatus::Pending
    }

    /// The registry after a submission under the id `id` at the time `now`.
    pub open spec fn submitted(self, id: Seq<char>, req: ApiAddRequest, now: Seq<char>) -> SchedView {
        if self.has_job(id) {
            self
        } else {
            SchedView {
                entries: self.entries.push(
                    EntryView {
                        job: JobView {
                            job_id: id,
                            status: JobStatus::Pending,
                            created_at: now,
                            updated_at: now,
                            result_summary: None,
                        },
                        request: Some(req),
                    },
                ),
            }
        }
    }

    /// The registry after a worker has taken the first pending job at the
    /// time `now`.
    pub open spec fn started(self, now: Seq<char>) -> SchedView {
        if self.has_pending() {
            let i = self.first_pending();
            let e = self.entries[i];
            SchedView {
                entries: self.entries.update(
                    i,
                    EntryView {
                        job: JobView { status: JobStatus::Running, updated_at: now, ..e.job },
                        request: None,
                    },
                ),
            }
        } else {
            self
        }
    }

    /// What the worker that takes the first pending job is handed: the job's
    /// id and its request.
    pub open spec fn handed_out(self) -> Option<(Seq<char>, ApiAddRequest)> {
        if self.has_pending() {
            let e = self.entries[self.first_pending()];
            Some((e.job.job_id, e.request.unwrap()))
        } else {
            None
        }
    }

    /// Whether the job exists and is running.
    pub open spec fn is_running(self, id: Seq<char>) -> bool {
        self.has_job(id) && self.job(id).status == JobStatus::Running
    }

    /// The registry after the running job `id` has ended at the time `now`.
    pub open spec fn completed(
        self,
        id: Seq<char>,
        succeeded: bool,
        summary: serde_json::Value,
        now: Seq<char>,
    ) -> SchedView {
        if self.is_running(id) {
            let i = self.job_pos(id);
            let e = self.entries[i];
            SchedView {
                entries: self.entries.update(
                    i,
                    EntryView {
                        job: JobView {
                            status: if succeeded {
                                JobStatus::Done
                            } else {
                                JobStatus::Failed
                            },
                            updated_at: now,
                            result_summary: Some(summary),
                            ..e.job
                        },
                        request: None,
                    },
                ),
            }
        } else {
            self
        }
    }
}

/// Under well-formedness a job id determines the position of its job.
pub proof fn lemma_job_pos(s: SchedView, i: int)
    requires
        s.wf(),
        0 <= i < s.entries.len(),
    ensures
        s.has_job(s.entries[i].job.job_id),
        s.job_pos(s.entries[i].job.job_id) == i,
{
    let id = s.entries[i].job.job_id;
    let j = s.job_pos(id);
    if j < i {
        assert(s.entries[j].job.job_id != s.entries[i].job.job_id);
    }
    if i < j {
        assert(s.entries[i].job.job_id != s.entries[j].job.job_id);
    }
}

/// The first pending job is found by looking from the front.
pub proof fn lemma_first_pending(s: SchedView, i: int)
    requires
        0 <= i < s.entries.len(),
        s.entries[i].job.status == JobStatus::Pending,
        forall|k: int| 0 <= k < i ==> (#[trigger] s.entries[k]).job.status != JobStatus::Pending,
    ensures
        s.has_pending(),
        s.first_pending() == i,
{
    let j = s.first_pending();
    if j < i {
        assert(s.entries[j].job.status != JobStatus::Pending);
    }
    if i < j {
        assert(s.entries[i].job.status != JobStatus::Pending);
    }
}

/// One job of the registry.
#[derive(Debug, Clone)]
pub struct JobEntry {
    pub(crate) job: Job,
    pub(crate) request: Option<ApiAddRequest>,
}

/// The in-memory scheduler's registry of jobs.
#[derive(Debug, Clone)]
pub struct InMemoryScheduler {
    pub(crate) entries: Vec<JobEntry>,
}

impl View for InMemoryScheduler {
    type V = SchedView;

    closed spec fn view(&self) -> SchedView {
        SchedView {
            entries: self.entries@.map_values(
                |e: JobEntry| EntryView { job: e.job@, request: e.request },
            ),
        }
    }
}

impl InMemoryScheduler {
    /// The model, entry by entry.
    pub(crate) proof fn lemma_view(&self)
        ensures
            self@.entries.len() == self.entries@.len(),
            forall|i: int|
                0 <= i < self.entries@.len() ==> #[trigger] self@.entries[i] == (EntryView {
                    job: self.entries@[i].job@,
                    request: self.entries@[i].request,
                }),
    {
    }

    /// The registry is well-formed.
    pub open spec fn wf(&self) -> bool {
        self@.wf()
    }

    /// A registry without jobs.
    pub fn new() -> (s: InMemoryScheduler)
        ensures
            s.wf(),
            s@.entries.len() == 0,
    {
        InMemoryScheduler { entries: Vec::new() }
    }

    /// Number of jobs ever submitted.
    pub fn job_count(&self) -> (n: usize)
        ensures
            n == self@.entries.len(),
    {
        self.entries.len()
    }

    /// Position of the job with the given id.
    fn find_job(&self, job_id: &String) -> (r: Option<usize>)
        requires
            self.wf(),
        ensures
            match r {
                Some(i) => i < self@.entries.len() && self@.entries[i as int].job.job_id
                    == job_id@ && self@.has_job(job_id@) && self@.job_pos(job_id@) == i,
                None => !self@.has_job(job_id@),
            },
    {
        proof {
            self.lemma_view();
        }
        let mut i: usize = 0;
        while i < self.entries.len()
            invariant
                self.wf(),
                i <= self.entries@.len(),
                self@.entries.len() == self.entries@.len(),
                forall|k: int|
                    0 <= k < self.entries@.len() ==> #[trigger] self@.entries[k] == (EntryView {
                        job: self.entries@[k].job@,
                        request: self.entries@[k].request,
                    }),
                forall|k: int| 0 <= k < i ==> (#[trigger] self@.entries[k]).job.job_id != job_id@,
            decreases self.entries@.len() - i,
        {
            if self.entries[i].job.job_id == *job_id {
                proof {
                    assert(self@.entries[i as int].job.job_id == job_id@);
                    lemma_job_pos(self@, i as int);
                }
                return Some(i);
            }
            assert(self@.entries[i as int].job.job_id != job_id@);
            i += 1;
        }
        None
    }

    /// Registers a pending job under the given id and returns the id. An
    /// id that was issued before is refused.
    pub fn submit_with_id(&mut self, job_id: String, req: ApiAddRequest, now: String) -> (r:
        Result<String, SchedulerError>)
        requires
            old(self).wf(),
        ensures
            final(self).wf(),
            final(self)@ == old(self)@.submitted(job_id@, req, now@),
            old(self)@.has_job(job_id@) ==> (r matches Err(SchedulerError::Other(m)) && m@
                == "job id already issued"@),
            !old(self)@.has_job(job_id@) ==> (r matches Ok(id) && id@ == job_id@),
    {
        proof {
            self.lemma_view();
        }
        if self.find_job(&job_id).is_some() {
            return Err(SchedulerError::Other("job id already issued".to_owned()));
        }
        let issued = job_id.clone();
        let job = Job {
            job_id,
            status: JobStatus::Pending,
            created_at: now.clone(),
            updated_at: now,
            result_summary: None,
        };
        self.entries.push(JobEntry { job, request: Some(req) });
        proof {
            self.lemma_view();
            assert(self@.entries =~= old(self)@.submitted(job_id@, req, now@).entries);
            let s1 = self@;
            let n = old(self)@.entries.len() as int;
            assert forall|i: int, j: int| 0 <= i < j < s1.entries.len() implies (
            #[trigger] s1.entries[i]).job.job_id != (#[trigger] s1.entries[j]).job.job_id by {
                if j == n {
                    assert(old(self)@.entries[i].job.job_id != job_id@);
                } else {
                    assert(old(self)@.entries[i].job.job_id != old(self)@.entries[j].job.job_id);
                }
            }
        }
        Ok(issued)
    }

    /// Accepts an add for asynchronous execution: registers it as a pending
    /// job under a fresh id, stamped with the current time, and returns the
    /// id without waiting for the job to run. The job is appended behind
    /// all earlier ones and keeps the request until a worker takes it. The
    /// only failure is an id that was issued before, which leaves the
    /// registry as it was; a registry without jobs therefore always accepts.
    pub fn submit_add(&mut self, req: ApiAddRequest) -> (r: Result<String, SchedulerError>)
        requires
            old(self).wf(),
        ensures
            final(self).wf(),
            old(self)@.entries.len() == 0 ==> r is Ok,
            r matches Ok(id) ==> {
                &&& !old(self)@.has_job(id@)
                &&& exists|now: Seq<char>|
                    final(self)@ == #[trigger] old(self)@.submitted(id@, req, now)
                &&& final(self)@.entries.len() == old(self)@.entries.len() + 1
                &&& final(self)@.entries.last().request == Some(req)
                &&& final(self)@.entries.last().job.job_id == id@
                &&& final(self)@.entries.last().job.status == JobStatus::Pending
                &&& final(self)@.entries.last().job.result_summary.is_none()
                &&& final(self)@.entries.last().job.created_at
                    == final(self)@.entries.last().job.updated_at
                &&& forall|i: int|
                    0 <= i < old(self)@.entries.len() ==> #[trigger] final(self)@.entries[i]
                        == old(self)@.entries[i]
            },
            r matches Err(e) ==> {
                &&& final(self)@ == old(self)@
                &&& old(self)@.entries.len() > 0
                &&& e matches SchedulerError::Other(m) && m@ == "job id already issued"@
            },
    {
        let id = fresh_uuid();
        let now = now_rfc3339();
        let r = self.submit_with_id(id, req, now);
        proof {
            if r is Ok {
                assert(!old(self)@.has_job(id@));
                assert(self@ == old(self)@.submitted(id@, req, now@));
            } else {
                assert(old(self)@.has_job(id@));
            }
        }
        r
    }

    /// The current state of a job; `None` for an id that was never issued.
    pub fn get_status(&self, job_id: &String) -> (r: Option<Job>)
        requires
            self.wf(),
        ensures
            r.is_some() == self@.has_job(job_id@),
            r matches Some(j) ==> j@ == self@.job(job_id@),
    {
        proof {
            self.lemma_view();
        }
        match self.find_job(job_id) {
            Some(i) => Some(self.entries[i].job.duplicate()),
            None => None,
        }
    }

    /// Hands the pending job that was submitted first to a worker: marks it
    /// as running as of `now` and returns its id and request. `None` if no
    /// job is pending.
    pub fn start_next(&mut self, now: String) -> (r: Option<(String, ApiAddRequest)>)
        requires
            old(self).wf(),
        ensures
            final(self).wf(),
            final(self)@ == old(self)@.started(now@),
            match (r, old(self)@.handed_out()) {
                (Some((id, req)), Some((spec_id, spec_req))) => id@ == spec_id && req == spec_req,
                (None, None) => true,
                _ => false,
            },
    {
        proof {
            self.lemma_view();
        }
        let mut i: usize = 0;
        while i < self.entries.len()
            invariant
                self.wf(),
                *self == *old(self),
                i <= self.entries@.len(),
                self@.entries.len() == self.entries@.len(),
                forall|k: int|
                    0 <= k < self.entries@.len() ==> #[trigger] self@.entries[k] == (EntryView {
                        job: self.entries@[k].job@,
                        request: self.entries@[k].request,
                    }),
                forall|k: int|
                    0 <= k < i ==> (#[trigger] self@.entries[k]).job.status != JobStatus::Pending,
            decreases self.entries@.len() - i,
        {
            let pending = match self.entries[i].job.status {
                JobStatus::Pending => true,
                _ => false,
            };
            if pending {
                proof {
                    assert(self@.entries[i as int].job.status == JobStatus::Pending);
                    lemma_first_pending(self@, i as int);
                }
                let id = self.entries[i].job.job_id.clone();
                let mut entry = JobEntry {
                    job: Job {
                        job_id: self.entries[i].job.job_id.clone(),
                        status: JobStatus::Running,
                        created_at: self.entries[i].job.created_at.clone(),
                        updated_at: now,
                        result_summary: None,
                    },
                    request: None,
                };
                assert(self@.entries[i as int].job.result_summary.is_none());
                std::mem::swap(&mut entry, &mut self.entries[i]);
                proof {
                    self.lemma_view();
                    assert(self@.entries =~= old(self)@.started(now@).entries);
                }
                let req = match entry.request {
                    Some(r) => r,
                    None => {
                        proof {
                            assert(false);
                        }
                        return None;
                    },
                };
                return Some((id, req));
            }
            assert(self@.entries[i as int].job.status != JobStatus::Pending);
            i += 1;
        }
        proof {
            if self@.has_pending() {
                let j = choose|j: int|
                    0 <= j < self@.entries.len() && (#[trigger] self@.entries[j]).job.status
                        == JobStatus::Pending;
                assert(false);
            }
        }
        None
    }

    /// Hands the first pending job to a worker, stamped with the current
    /// time; see `start_next`.
    pub fn take_next(&mut self) -> (r: Option<(String, ApiAddRequest)>)
        requires
            old(self).wf(),
        ensures
            final(self).wf(),
            exists|now: Seq<char>| final(self)@ == #[trigger] old(self)@.started(now),
            match (r, old(self)@.handed_out()) {
                (Some((id, req)), Some((spec_id, spec_req))) => id@ == spec_id && req == spec_req,
                (None, None) => true,
                _ => false,
            },
    {
        let now = now_rfc3339();
        let r = self.start_next(now);
        proof {
            assert(self@ == old(self)@.started(now@));
        }
        r
    }

    /// Records how a running job ended: done with a summary of its result,
    /// or failed with a summary of the error. A job that is not running,
    /// because it was never taken or has ended already, is left as it is.
    pub fn complete(
        &mut self,
        job_id: &String,
        succeeded: bool,
        summary: serde_json::Value,
        now: String,
    ) -> (r: Result<(), SchedulerError>)
        requires
            old(self).wf(),
        ensures
            final(self).wf(),
            final(self)@ == old(self)@.completed(job_id@, succeeded, summary, now@),
            old(self)@.is_running(job_id@) ==> r is Ok,
            !old(self)@.has_job(job_id@) ==> (r matches Err(SchedulerError::JobNotFound(id))
                && id@ == job_id@),
            old(self)@.has_job(job_id@) && !old(self)@.is_running(job_id@) ==> (r matches Err(
                SchedulerError::Other(m),
            ) && m@ == "job is not running"@),
    {
        proof {
            self.lemma_view();
        }
        let i = match self.find_job(job_id) {
            Some(i) => i,
            None => {
                return Err(SchedulerError::JobNotFound(job_id.clone()));
            },
        };
        let running = match self.entries[i].job.status {
            JobStatus::Running => true,
            _ => false,
        };
        if !running {
            return Err(SchedulerError::Other("job is not running".to_owned()));
        }
        let mut entry = JobEntry {
            job: Job {
                job_id: self.entries[i].job.job_id.clone(),
                status: if succeeded {
                    JobStatus::Done
                } else {
                    JobStatus::Failed
                },
                created_at: self.entries[i].job.created_at.clone(),
                updated_at: now,
                result_summary: Some(summary),
            },
            request: None,
        };
        std::mem::swap(&mut entry, &mut self.entries[i]);
        proof {
            self.lemma_view();
            assert(self@.entries =~= old(self)@.completed(
                job_id@,
                succeeded,
                summary,
                now@,
            ).entries);
            let s0 = old(self)@;
            let s1 = self@;
            assert forall|a: int, b: int| 0 <= a < b < s1.entries.len() implies (
            #[trigger] s1.entries[a]).job.job_id != (#[trigger] s1.entries[b]).job.job_id by {
                assert(s0.entries[a].job.job_id != s0.entries[b].job.job_id);
            }
        }
        Ok(())
    }

    /// Records how a running job ended, stamped with the current time; see
    /// `complete`.
    pub fn finish(&mut self, job_id: &String, succeeded: bool, summary: serde_json::Value) -> (r:
        Result<(), SchedulerError>)
        requires
            old(self).wf(),
        ensures
            final(self).wf(),
            exists|now: Seq<char>|
                final(self)@ == #[trigger] old(self)@.completed(job_id@, succeeded, summary, now),
            old(self)@.is_running(job_id@) <==> r is Ok,
    {
        let now = now_rfc3339();
        let r = self.complete(job_id, succeeded, summary, now);
        proof {
            assert(self@ == old(self)@.completed(job_id@, succeeded, summary, now@));
        }
        r
    }
}

} // verus!
