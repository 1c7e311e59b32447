//! What the request layer answers: the response and the audit event that
//! each outcome of an operation leads to.

use vstd::prelude::*;
use vstd::string::*;
use crate::audit::{audit_event, outcome_of, AuditEvent, AuditEventKind};
use crate::cube::{
    target_cube, AddOutcome, ForgetOutcome, MemCubeError, RelationFailure, UpdateOutcome,
};
use crate::dto::{
    resolved_cube_ids, ApiAddRequest, BaseResponse, ForgetMemoryRequest, GetMemoryResponse,
    SearchResponse, UpdateMemoryRequest,
};
use crate::ids::{decimal, memory_id_text};
use crate::job::{AddJobSubmittedData, SchedulerStatusResponse};
use crate::scheduler::{InMemoryScheduler, SchedulerError};

verus! {

/// Query of a status request.
#[derive(Debug, Clone)]
pub struct SchedulerStatusQuery {
    pub user_id: String,
    pub task_id: Option<String>,
}

/// A memory as an add, update or forget reports it.
#[derive(Debug, Clone)]
pub struct MemoryRef {
    /// The memory's id as text.
    pub id: String,
    pub cube_id: String,
    /// The relations of an add that could not be written.
    pub relation_failures: Vec<RelationFailure>,
}

/// Whether an add asks to run asynchronously.
pub fn wants_async(req: &ApiAddRequest) -> (r: bool)
    ensures
        r == (req.async_mode@ == "async"@),
{
    let mode = "async".to_owned();
    req.async_mode == mode
}

/// The answer to an add that was handed to the scheduler.
pub fn handle_add_async(submitted: Result<String, SchedulerError>) -> (r: BaseResponse<
    Vec<AddJobSubmittedData>,
>)
    ensures
        match submitted {
            Ok(task_id) => r.code == 200 && r.message@ == "Memory add job submitted"@ && (
            r.data matches Some(d) && d@.len() == 1 && d@[0].task_id@ == task_id@),
            Err(e) => r.code == 500 && r.data.is_none() && r.message@ == match e {
                SchedulerError::Other(m) => "scheduler error: "@ + m@,
                SchedulerError::JobNotFound(id) => "job not found: "@ + id@,
            },
        },
{
    match submitted {
        Ok(task_id) => {
            let mut data: Vec<AddJobSubmittedData> = Vec::new();
            data.push(AddJobSubmittedData { task_id });
            BaseResponse {
                code: 200,
                message: "Memory add job submitted".to_owned(),
                data: Some(data),
            }
        },
        Err(e) => BaseResponse { code: 500, message: e.message(), data: None },
    }
}

/// The text of a cube-level error.
pub open spec fn error_text(e: MemCubeError) -> Seq<char> {
    match e {
        MemCubeError::NotFound => "not found"@,
        MemCubeError::InvalidArgument => "invalid argument"@,
        MemCubeError::Upstream(m) => "upstream error: "@ + m@,
        MemCubeError::Internal => "internal error"@,
    }
}

/// The answer to an add that ran at once, and the audit event that records
/// it. A failed add is answered with the error's text and is not recorded.
pub fn handle_add(req: &ApiAddRequest, result: Result<AddOutcome, MemCubeError>) -> (r: (
    BaseResponse<Vec<MemoryRef>>,
    Option<AuditEvent>,
))
    ensures
        match result {
            Ok(outcome) => {
                &&& r.0.code == 200
                &&& r.0.message@ == "Memory added successfully"@
                &&& r.0.data matches Some(d) && d@.len() == 1 && d@[0].id@ == decimal(
                    outcome.memory_id as nat,
                ) && d@[0].cube_id@ == outcome.cube_id@ && d@[0].relation_failures@
                    == outcome.relation_failures@
                &&& r.1 matches Some(e) && e@.kind == AuditEventKind::Add && e@.memory_id == Some(
                    decimal(outcome.memory_id as nat),
                ) && e@.user_id == req.user_id@ && e@.cube_id == resolved_cube_ids(
                    req.writable_cube_ids,
                    req.mem_cube_id,
                    req.user_id,
                )[0] && e@.outcome == Some(outcome_of(200))
            },
            Err(e) => r.0.code == 500 && r.0.message@ == error_text(e) && r.0.data.is_none()
                && r.1.is_none(),
        },
{
    match result {
        Ok(outcome) => {
            let cubes = req.writable_cube_ids();
            let cube_id = cubes[0].clone();
            proof {
                assert(crate::dto::texts(cubes@)[0] == cubes@[0]@);
            }
            let id = memory_id_text(outcome.memory_id);
            let event = audit_event(
                AuditEventKind::Add,
                Some(id.clone()),
                req.user_id.clone(),
                cube_id,
                200,
            );
            let mut data: Vec<MemoryRef> = Vec::new();
            data.push(
                MemoryRef {
                    id,
                    cube_id: outcome.cube_id,
                    relation_failures: outcome.relation_failures,
                },
            );
            (
                BaseResponse {
                    code: 200,
                    message: "Memory added successfully".to_owned(),
                    data: Some(data),
                },
                Some(event),
            )
        },
        Err(e) => (BaseResponse { code: 500, message: e.message(), data: None }, None),
    }
}

/// The answer to a search.
pub fn handle_search(result: Result<SearchResponse, MemCubeError>) -> (r: SearchResponse)
    ensures
        match result {
            Ok(resp) => r == resp,
            Err(e) => r.code == 500 && r.message@ == error_text(e) && r.data.is_none(),
        },
{
    match result {
        Ok(resp) => resp,
        Err(e) => SearchResponse { code: 500, message: e.message(), data: None },
    }
}

/// The answer to a status query: 400 without a task id, 404 for an id that
/// was never issued, else the job.
pub fn handle_scheduler_status(q: &SchedulerStatusQuery, scheduler: &InMemoryScheduler) -> (r:
    SchedulerStatusResponse)
    requires
        scheduler.wf(),
    ensures
        match q.task_id {
            None => r.code == 400 && r.message@ == "task_id is required"@ && r.data.is_none(),
            Some(t) => if scheduler@.has_job(t@) {
                r.code == 200 && r.message@ == "Success"@ && (r.data matches Some(j) && j@
                    == scheduler@.job(t@))
            } else {
                r.code == 404 && r.message@ == "Job not found"@ && r.data.is_none()
            },
        },
{
    let task_id = match &q.task_id {
        Some(t) => t,
        None => {
            return SchedulerStatusResponse {
                code: 400,
                message: "task_id is required".to_owned(),
                data: None,
            };
        },
    };
    match scheduler.get_status(task_id) {
        Some(job) => SchedulerStatusResponse {
            code: 200,
            message: "Success".to_owned(),
            data: Some(job),
        },
        None => SchedulerStatusResponse {
            code: 404,
            message: "Job not found".to_owned(),
            data: None,
        },
    }
}

/// The answer to an update, and the audit event that records it. A failed
/// update is answered with the error's text and is not recorded.
pub fn handle_update_memory(
    req: &UpdateMemoryRequest,
    result: Result<UpdateOutcome, MemCubeError>,
) -> (r: (BaseResponse<Vec<MemoryRef>>, Option<AuditEvent>))
    ensures
        match result {
            Ok(outcome) => {
                &&& r.0.code == 200
                &&& r.0.message@ == "Memory updated successfully"@
                &&& r.0.data matches Some(d) && d@.len() == 1 && d@[0].id@ == decimal(
                    outcome.memory_id as nat,
                ) && d@[0].cube_id@ == outcome.cube_id@ && d@[0].relation_failures@.len() == 0
                &&& r.1 matches Some(e) && e@.kind == AuditEventKind::Update && e@.memory_id
                    == Some(req.memory_id@) && e@.user_id == req.user_id@ && e@.cube_id
                    == target_cube(req.mem_cube_id, req.user_id) && e@.outcome == Some(
                    outcome_of(200),
                )
            },
            Err(e) => r.0.code == 500 && r.0.message@ == error_text(e) && r.0.data.is_none()
                && r.1.is_none(),
        },
{
    match result {
        Ok(outcome) => {
            let cube_id = match &req.mem_cube_id {
                Some(c) => c.clone(),
                None => req.user_id.clone(),
            };
            let event = audit_event(
                AuditEventKind::Update,
                Some(req.memory_id.clone()),
                req.user_id.clone(),
                cube_id,
                200,
            );
            let mut data: Vec<MemoryRef> = Vec::new();
            data.push(
                MemoryRef {
                    id: memory_id_text(outcome.memory_id),
                    cube_id: outcome.cube_id,
                    relation_failures: Vec::new(),
                },
            );
            (
                BaseResponse {
                    code: 200,
                    message: "Memory updated successfully".to_owned(),
                    data: Some(data),
                },
                Some(event),
            )
        },
        Err(e) => (BaseResponse { code: 500, message: e.message(), data: None }, None),
    }
}

/// The answer to a forget, and the audit event that records it. A failed
/// forget is answered with the error's text and is not recorded.
pub fn handle_delete_memory(
    req: &ForgetMemoryRequest,
    result: Result<ForgetOutcome, MemCubeError>,
) -> (r: (BaseResponse<Vec<MemoryRef>>, Option<AuditEvent>))
    ensures
        match result {
            Ok(outcome) => {
                &&& r.0.code == 200
                &&& r.0.message@ == "Memory forgotten successfully"@
                &&& r.0.data matches Some(d) && d@.len() == 1 && d@[0].id@ == decimal(
                    outcome.memory_id as nat,
                ) && d@[0].cube_id@ == outcome.cube_id@ && d@[0].relation_failures@.len() == 0
                &&& r.1 matches Some(e) && e@.kind == AuditEventKind::Forget && e@.memory_id
                    == Some(req.memory_id@) && e@.user_id == req.user_id@ && e@.cube_id
                    == target_cube(req.mem_cube_id, req.user_id) && e@.outcome == Some(
                    outcome_of(200),
                )
            },
            Err(e) => r.0.code == 500 && r.0.message@ == error_text(e) && r.0.data.is_none()
                && r.1.is_none(),
        },
{
    match result {
        Ok(outcome) => {
            let cube_id = match &req.mem_cube_id {
                Some(c) => c.clone(),
                None => req.user_id.clone(),
            };
            let event = audit_event(
                AuditEventKind::Forget,
                Some(req.memory_id.clone()),
                req.user_id.clone(),
                cube_id,
                200,
            );
            let mut data: Vec<MemoryRef> = Vec::new();
            data.push(
                MemoryRef {
                    id: memory_id_text(outcome.memory_id),
                    cube_id: outcome.cube_id,
                    relation_failures: Vec::new(),
                },
            );
            (
                BaseResponse {
                    code: 200,
                    message: "Memory forgotten successfully".to_owned(),
                    data: Some(data),
                },
                Some(event),
            )
        },
        Err(e) => (BaseResponse { code: 500, message: e.message(), data: None }, None),
    }
}

/// The answer to a get.
pub fn handle_get_memory(result: Result<GetMemoryResponse, MemCubeError>) -> (r:
    GetMemoryResponse)
    ensures
        match result {
            Ok(resp) => r == resp,
            Err(e) => r.code == 500 && r.message@ == error_text(e) && r.data.is_none(),
        },
{
    match result {
        Ok(resp) => resp,
        Err(e) => GetMemoryResponse { code: 500, message: e.message(), data: None },
    }
}

/// The answer to a health probe.
pub fn handle_health() -> (s: &'static str)
    ensures
        s@ == "ok"@,
{
    "ok"
}

} // verus!
