//! Jobs of the scheduler and the responses that report them.

use vstd::prelude::*;

verus! {

/// Status of an asynchronous add job.
#[derive(Debug, Clone, Copy, PartialEq, Eq, Hash, Structural)]
pub enum JobStatus {
    Pending,
    Running,
    Done,
    Failed,
}

impl JobStatus {
    /// Done and failed jobs never change again.
    pub open spec fn terminal(self) -> bool {
        self == JobStatus::Done || self == JobStatus::Failed
    }

    /// Whether the status is one that never changes again.
    pub fn is_terminal(self) -> (r: bool)
        ensures
            r == self.terminal(),
    {
        match self {
            JobStatus::Done => true,
            JobStatus::Failed => true,
            _ => false,
        }
    }
}

/// What a job is, as a mathematical value.
pub struct JobView {
    pub job_id: Seq<char>,
    pub status: JobStatus,
    pub created_at: Seq<char>,
    pub updated_at: Seq<char>,
    pub result_summary: Option<serde_json::Value>,
}

/// A submitted or running add job.
#[derive(Debug, Clone)]
pub struct Job {
    pub job_id: String,
    pub status: JobStatus,
    pub created_at: String,
    pub updated_at: String,
    pub result_summary: Option<serde_json::Value>,
}

impl View for Job {
    type V = JobView;

    open spec fn view(&self) -> JobView {
        JobView {
            job_id: self.job_id@,
            status: self.status,
            created_at: self.created_at@,
            updated_at: self.updated_at@,
            result_summary: self.result_summary,
        }
    }
}

impl Job {
    /// A copy of this job.
    pub fn duplicate(&self) -> (r: Job)
        ensures
            r@ == self@,
    {
        Job {
            job_id: self.job_id.clone(),
            status: self.status,
            created_at: self.created_at.clone(),
            updated_at: self.updated_at.clone(),
            result_summary: match &self.result_summary {
                Some(v) => Some(v.clone()),
                None => None,
            },
        }
    }
}

/// The status code of a response unless it says otherwise.
pub fn default_code() -> (c: i32)
    ensures
        c == 200,
{
    200
}

/// Payload of the response to an add that was submitted for asynchronous
/// execution.
#[derive(Debug, Clone)]
pub struct AddJobSubmittedData {
    pub task_id: String,
}

/// Response when an add is submitted in asynchronous mode.
#[derive(Debug, Clone)]
pub struct AddJobSubmitted {
    pub code: i32,
    pub message: String,
    pub data: AddJobSubmittedData,
}

/// Response to a status query.
#[derive(Debug, Clone)]
pub struct SchedulerStatusResponse {
    pub code: i32,
    pub message: String,
    pub data: Option<Job>,
}

} // verus!
