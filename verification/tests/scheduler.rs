use memos_core::dto::ApiAddRequest;
use memos_core::job::JobStatus;
use memos_core::scheduler::{InMemoryScheduler, SchedulerError};

fn request(user: &str) -> ApiAddRequest {
    ApiAddRequest {
        user_id: user.to_string(),
        session_id: None,
        task_id: None,
        writable_cube_ids: None,
        mem_cube_id: None,
        async_mode: "async".to_string(),
        messages: None,
        memory_content: Some("remember this".to_string()),
        chat_history: None,
        custom_tags: None,
        info: None,
        relations: None,
        is_feedback: false,
    }
}

fn summary(text: &str) -> serde_json::Value {
    serde_json::Value::String(text.to_string())
}

#[test]
fn job_goes_from_pending_to_running_to_done() {
    let mut s = InMemoryScheduler::new();
    let id = s.submit_with_id("job-1".to_string(), request("u"), "t0".to_string()).unwrap();
    assert_eq!(id, "job-1");
    let job = s.get_status(&id).unwrap();
    assert_eq!(job.status, JobStatus::Pending);
    assert_eq!(job.created_at, "t0");
    assert_eq!(job.updated_at, "t0");
    assert!(job.result_summary.is_none());

    let (taken, req) = s.start_next("t1".to_string()).unwrap();
    assert_eq!(taken, "job-1");
    assert_eq!(req.user_id, "u");
    assert_eq!(req.memory_content, Some("remember this".to_string()));
    let job = s.get_status(&id).unwrap();
    assert_eq!(job.status, JobStatus::Running);
    assert_eq!(job.created_at, "t0");
    assert_eq!(job.updated_at, "t1");

    assert!(s.complete(&id, true, summary("added 7"), "t2".to_string()).is_ok());
    let job = s.get_status(&id).unwrap();
    assert_eq!(job.status, JobStatus::Done);
    assert_eq!(job.updated_at, "t2");
    assert_eq!(job.result_summary, Some(summary("added 7")));
}

#[test]
fn failed_job_keeps_the_error() {
    let mut s = InMemoryScheduler::new();
    let id = s.submit_with_id("job-1".to_string(), request("u"), "t0".to_string()).unwrap();
    s.start_next("t1".to_string()).unwrap();
    assert!(s.complete(&id, false, summary("embedder down"), "t2".to_string()).is_ok());
    let job = s.get_status(&id).unwrap();
    assert_eq!(job.status, JobStatus::Failed);
    assert_eq!(job.result_summary, Some(summary("embedder down")));
}

#[test]
fn terminal_jobs_never_change() {
    let mut s = InMemoryScheduler::new();
    let id = s.submit_with_id("job-1".to_string(), request("u"), "t0".to_string()).unwrap();
    s.start_next("t1".to_string()).unwrap();
    s.complete(&id, true, summary("first"), "t2".to_string()).unwrap();
    let again = s.complete(&id, false, summary("second"), "t3".to_string());
    assert!(matches!(again, Err(SchedulerError::Other(_))));
    assert!(s.start_next("t4".to_string()).is_none());
    let job = s.get_status(&id).unwrap();
    assert_eq!(job.status, JobStatus::Done);
    assert_eq!(job.updated_at, "t2");
    assert_eq!(job.result_summary, Some(summary("first")));
}

#[test]
fn a_job_is_handed_out_once_and_in_submission_order() {
    let mut s = InMemoryScheduler::new();
    s.submit_with_id("a".to_string(), request("ua"), "t".to_string()).unwrap();
    s.submit_with_id("b".to_string(), request("ub"), "t".to_string()).unwrap();
    assert_eq!(s.job_count(), 2);
    let first = s.start_next("t".to_string()).unwrap();
    let second = s.start_next("t".to_string()).unwrap();
    assert_eq!(first.0, "a");
    assert_eq!(first.1.user_id, "ua");
    assert_eq!(second.0, "b");
    assert!(s.start_next("t".to_string()).is_none());
}

#[test]
fn unknown_and_duplicate_ids() {
    let mut s = InMemoryScheduler::new();
    assert!(s.get_status(&"nope".to_string()).is_none());
    let r = s.complete(&"nope".to_string(), true, summary("x"), "t".to_string());
    match r {
        Err(SchedulerError::JobNotFound(id)) => assert_eq!(id, "nope"),
        _ => panic!("expected JobNotFound"),
    }
    s.submit_with_id("a".to_string(), request("u"), "t".to_string()).unwrap();
    let dup = s.submit_with_id("a".to_string(), request("u"), "t".to_string());
    assert!(matches!(dup, Err(SchedulerError::Other(_))));
    assert_eq!(s.job_count(), 1);
    let pending = s.complete(&"a".to_string(), true, summary("x"), "t".to_string());
    assert!(matches!(pending, Err(SchedulerError::Other(_))));
    assert_eq!(s.get_status(&"a".to_string()).unwrap().status, JobStatus::Pending);
}

#[test]
fn submit_add_issues_distinct_ids_and_stamps_the_time() {
    let mut s = InMemoryScheduler::new();
    let a = s.submit_add(request("u")).unwrap();
    let b = s.submit_add(request("u")).unwrap();
    assert_ne!(a, b);
    assert_eq!(a.len(), 36);
    assert_eq!(a.matches('-').count(), 4);
    let job = s.get_status(&a).unwrap();
    assert_eq!(job.status, JobStatus::Pending);
    assert_eq!(job.created_at, job.updated_at);
    assert!(job.created_at.contains('T'));
    assert!(job.created_at.len() >= 20);
    let (id, _) = s.take_next().unwrap();
    assert_eq!(id, a);
    assert_eq!(s.get_status(&a).unwrap().status, JobStatus::Running);
    assert!(s.finish(&a, true, summary("ok")).is_ok());
    let done = s.get_status(&a).unwrap();
    assert_eq!(done.status, JobStatus::Done);
    assert!(done.updated_at >= done.created_at);
    assert!(s.finish(&a, true, summary("ok")).is_err());
}

#[test]
fn scheduler_error_messages() {
    assert_eq!(SchedulerError::Other("boom".to_string()).message(), "scheduler error: boom");
    assert_eq!(SchedulerError::JobNotFound("j1".to_string()).message(), "job not found: j1");
    assert!(JobStatus::Done.is_terminal());
    assert!(JobStatus::Failed.is_terminal());
    assert!(!JobStatus::Pending.is_terminal());
    assert!(!JobStatus::Running.is_terminal());
}
