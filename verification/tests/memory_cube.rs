use memos_core::api::{
    handle_add, handle_add_async, handle_delete_memory, handle_get_memory, handle_health,
    handle_scheduler_status, handle_search, handle_update_memory, wants_async,
    SchedulerStatusQuery,
};
use memos_core::audit::{audit_event_at, outcome_text, AuditEventKind, AuditLog};
use memos_core::cube::{MemCube, MemCubeError, NaiveMemCube, RelationFailure, VecSearchHit};
use memos_core::dto::{
    AddMemoryRelation, ApiAddRequest, ApiSearchRequest, ForgetMemoryRequest, GetMemoryRequest,
    GraphDirection, GraphNeighborsRequest, GraphPathRequest, GraphPathsRequest, Message,
    UpdateMemoryRequest,
};
use memos_core::entity_cube::{EntityAwareMemCube, EntityCubeConfig, ExtractedEntity};
use memos_core::error::GraphStoreError;
use memos_core::ids::{memory_id_text, parse_memory_id};
use memos_core::metadata::Metadata;
use memos_core::scheduler::{InMemoryScheduler, SchedulerError};

fn add_request(user: &str, content: &str) -> ApiAddRequest {
    ApiAddRequest {
        user_id: user.to_string(),
        session_id: None,
        task_id: None,
        writable_cube_ids: None,
        mem_cube_id: None,
        async_mode: "sync".to_string(),
        messages: None,
        memory_content: Some(content.to_string()),
        chat_history: None,
        custom_tags: None,
        info: None,
        relations: None,
        is_feedback: false,
    }
}

fn search_request(user: &str, query: &str, top_k: u32) -> ApiSearchRequest {
    ApiSearchRequest {
        query: query.to_string(),
        user_id: user.to_string(),
        readable_cube_ids: None,
        mem_cube_id: None,
        top_k,
        session_id: None,
        include_preference: false,
        pref_top_k: 0,
        filter: None,
    }
}

/// A toy embedder: one component per word of a small vocabulary.
fn embed(text: &str) -> Vec<f32> {
    let vocabulary = ["sky", "blue", "color", "grass", "green", "the", "is"];
    vocabulary
        .iter()
        .map(|w| if text.split_whitespace().any(|t| t == *w) { 1.0 } else { 0.0 })
        .collect()
}

fn bits(v: &[f32]) -> Vec<u32> {
    v.iter().map(|x| x.to_bits()).collect()
}

fn cosine(a: &[f32], b: &[f32]) -> f32 {
    let dot: f32 = a.iter().zip(b).map(|(x, y)| x * y).sum();
    let na: f32 = a.iter().map(|x| x * x).sum::<f32>().sqrt();
    let nb: f32 = b.iter().map(|x| x * x).sum::<f32>().sqrt();
    if na == 0.0 || nb == 0.0 {
        0.0
    } else {
        dot / (na * nb)
    }
}

fn add(cube: &mut NaiveMemCube, req: &ApiAddRequest) -> u64 {
    let plan = NaiveMemCube::plan_add(req).unwrap();
    let vector = embed(&plan.content);
    let outcome = cube.commit_add(&plan, req, Ok(bits(&vector))).unwrap();
    NaiveMemCube::finish_add(outcome, Ok(())).unwrap().memory_id
}

#[test]
fn add_then_search_finds_the_memory() {
    let mut cube = NaiveMemCube::new();
    let sky = add(&mut cube, &add_request("u", "the sky is blue"));
    let grass = add(&mut cube, &add_request("u", "the grass is green"));
    let req = search_request("u", "sky color", 1);
    let plan = NaiveMemCube::plan_search(&req).unwrap();
    assert_eq!(plan.cube_ids, vec!["u".to_string()]);
    let floor = 0.3f32;
    let query = embed(&plan.query);
    let mut scored: Vec<(u64, f32)> = vec![sky, grass]
        .into_iter()
        .map(|id| {
            let node = cube.graph.get_node(&"u".to_string(), id, false).unwrap();
            let stored: Vec<f32> =
                node.embedding.unwrap().iter().map(|b| f32::from_bits(*b)).collect();
            (id, cosine(&query, &stored))
        })
        .collect();
    scored.sort_by(|a, b| b.1.partial_cmp(&a.1).unwrap());
    let hits: Vec<VecSearchHit> = scored
        .iter()
        .map(|(id, score)| VecSearchHit { id: memory_id_text(*id), above_floor: *score >= floor })
        .collect();
    let resp = cube.finish_search(&plan, Ok(hits)).unwrap();
    assert_eq!(resp.code, 200);
    let data = resp.data.unwrap();
    assert_eq!(data.text_mem.len(), 1);
    assert!(data.pref_mem.is_empty());
    let found = &data.text_mem[0].memories;
    assert_eq!(found.len(), 1);
    assert_eq!(found[0].id, memory_id_text(sky));
    assert_eq!(found[0].memory, "the sky is blue");
    assert_eq!(data.text_mem[0].total_nodes, Some(1));
    assert!(scored[0].1 >= floor);
}

#[test]
fn search_skips_hits_below_the_floor_tombstones_and_strangers() {
    let mut cube = NaiveMemCube::new();
    let a = add(&mut cube, &add_request("u", "a"));
    let b = add(&mut cube, &add_request("u", "b"));
    let c = add(&mut cube, &add_request("u", "c"));
    let other = add(&mut cube, &add_request("someone-else", "d"));
    cube.forget(&ForgetMemoryRequest {
        memory_id: memory_id_text(b),
        user_id: "u".to_string(),
        mem_cube_id: None,
        soft: true,
    })
    .unwrap();
    let plan = NaiveMemCube::plan_search(&search_request("u", "q", 5)).unwrap();
    let hits = vec![
        VecSearchHit { id: memory_id_text(b), above_floor: true },
        VecSearchHit { id: memory_id_text(other), above_floor: true },
        VecSearchHit { id: "not-an-id".to_string(), above_floor: true },
        VecSearchHit { id: memory_id_text(c), above_floor: false },
        VecSearchHit { id: memory_id_text(a), above_floor: true },
        VecSearchHit { id: memory_id_text(c), above_floor: true },
    ];
    let resp = cube.finish_search(&plan, Ok(hits.clone())).unwrap();
    let ids: Vec<String> =
        resp.data.unwrap().text_mem[0].memories.iter().map(|m| m.id.clone()).collect();
    assert_eq!(ids, vec![memory_id_text(a), memory_id_text(c)]);
    let plan_one = NaiveMemCube::plan_search(&search_request("u", "q", 1)).unwrap();
    let resp = cube.finish_search(&plan_one, Ok(hits)).unwrap();
    let ids: Vec<String> =
        resp.data.unwrap().text_mem[0].memories.iter().map(|m| m.id.clone()).collect();
    assert_eq!(ids, vec![memory_id_text(a)]);
}

#[test]
fn search_errors() {
    let cube = NaiveMemCube::new();
    assert!(matches!(
        NaiveMemCube::plan_search(&search_request("u", "", 3)),
        Err(MemCubeError::InvalidArgument)
    ));
    assert!(matches!(
        NaiveMemCube::plan_search(&search_request("u", "q", 0)),
        Err(MemCubeError::InvalidArgument)
    ));
    let plan = NaiveMemCube::plan_search(&search_request("u", "q", 3)).unwrap();
    match cube.finish_search(&plan, Err("index down".to_string())) {
        Err(MemCubeError::Upstream(m)) => assert_eq!(m, "index down"),
        _ => panic!("expected Upstream"),
    }
    let resp = handle_search(cube.finish_search(&plan, Err("index down".to_string())));
    assert_eq!(resp.code, 500);
    assert_eq!(resp.message, "upstream error: index down");
    assert!(resp.data.is_none());
}

#[test]
fn add_with_relation_shows_up_as_inbound_neighbor() {
    let mut cube = NaiveMemCube::new();
    let a = add(&mut cube, &add_request("u", "memory A"));
    let mut req = add_request("u", "memory B");
    req.relations = Some(vec![AddMemoryRelation {
        memory_id: memory_id_text(a),
        relation: "supports".to_string(),
        direction: GraphDirection::Outbound,
        metadata: Metadata::new(),
    }]);
    let plan = NaiveMemCube::plan_add(&req).unwrap();
    let outcome = cube.commit_add(&plan, &req, Ok(vec![7])).unwrap();
    assert!(outcome.relation_failures.is_empty());
    let b = outcome.memory_id;
    let page = cube
        .graph
        .neighbors(&"u".to_string(), a, None, GraphDirection::Inbound, 10, None, false)
        .unwrap();
    assert_eq!(page.0.len(), 1);
    assert_eq!(page.0[0].edge.from, b);
    assert_eq!(page.0[0].edge.to, a);
    assert_eq!(page.0[0].edge.relation, "supports");
    assert_eq!(page.0[0].node.id, b);
    assert_eq!(page.0[0].node.memory, "memory B");
}

#[test]
fn add_reports_failed_relations_and_keeps_the_node() {
    let mut cube = NaiveMemCube::new();
    let a = add(&mut cube, &add_request("u", "memory A"));
    let mut req = add_request("u", "memory B");
    req.relations = Some(vec![
        AddMemoryRelation {
            memory_id: "999".to_string(),
            relation: "r".to_string(),
            direction: GraphDirection::Outbound,
            metadata: Metadata::new(),
        },
        AddMemoryRelation {
            memory_id: memory_id_text(a),
            relation: "both".to_string(),
            direction: GraphDirection::Both,
            metadata: Metadata::new(),
        },
        AddMemoryRelation {
            memory_id: "x1".to_string(),
            relation: "r".to_string(),
            direction: GraphDirection::Inbound,
            metadata: Metadata::new(),
        },
    ]);
    let plan = NaiveMemCube::plan_add(&req).unwrap();
    let outcome = cube.commit_add(&plan, &req, Ok(vec![1, 2])).unwrap();
    assert_eq!(
        outcome.relation_failures,
        vec![
            RelationFailure { index: 0, error: GraphStoreError::NotFound },
            RelationFailure { index: 2, error: GraphStoreError::NotFound },
        ]
    );
    let b = outcome.memory_id;
    let node = cube.graph.get_node(&"u".to_string(), b, false).unwrap();
    assert_eq!(node.embedding, Some(vec![1, 2]));
    let out = cube
        .graph
        .neighbors(&"u".to_string(), b, None, GraphDirection::Outbound, 10, None, false)
        .unwrap();
    let inb = cube
        .graph
        .neighbors(&"u".to_string(), b, None, GraphDirection::Inbound, 10, None, false)
        .unwrap();
    assert_eq!(out.0.len(), 1);
    assert_eq!(inb.0.len(), 1);
    assert!(out.0[0].edge.id < inb.0[0].edge.id);
}

#[test]
fn add_errors() {
    let mut cube = NaiveMemCube::new();
    let mut empty = add_request("u", "");
    assert!(matches!(NaiveMemCube::plan_add(&empty), Err(MemCubeError::InvalidArgument)));
    empty.memory_content = None;
    assert!(matches!(NaiveMemCube::plan_add(&empty), Err(MemCubeError::InvalidArgument)));
    let req = add_request("u", "text");
    let plan = NaiveMemCube::plan_add(&req).unwrap();
    match cube.commit_add(&plan, &req, Err("embedder down".to_string())) {
        Err(MemCubeError::Upstream(m)) => assert_eq!(m, "embedder down"),
        _ => panic!("expected Upstream"),
    }
    assert!(!cube.graph.has_cube(&"u".to_string()));
    let outcome = cube.commit_add(&plan, &req, Ok(vec![])).unwrap();
    let id = outcome.memory_id;
    assert!(matches!(
        NaiveMemCube::finish_add(outcome, Err("index down".to_string())),
        Err(MemCubeError::Upstream(_))
    ));
    assert!(cube.graph.get_node(&"u".to_string(), id, false).is_some());
    assert_eq!(MemCubeError::NotFound.message(), "not found");
    assert_eq!(MemCubeError::InvalidArgument.message(), "invalid argument");
    assert_eq!(MemCubeError::Internal.message(), "internal error");
    assert_eq!(MemCubeError::Upstream("x".to_string()).message(), "upstream error: x");
}

#[test]
fn add_uses_messages_and_the_first_writable_cube() {
    let mut cube = NaiveMemCube::new();
    let mut req = add_request("u", "ignored");
    req.messages = Some(vec![
        Message { role: "user".to_string(), content: "hi".to_string() },
        Message { role: "assistant".to_string(), content: "hello".to_string() },
    ]);
    req.writable_cube_ids = Some(vec!["c1".to_string(), "c2".to_string()]);
    let mut info = Metadata::new();
    info.insert("source".to_string(), serde_json::Value::Bool(true));
    req.info = Some(info);
    let plan = NaiveMemCube::plan_add(&req).unwrap();
    assert_eq!(plan.cube_id, "c1");
    assert_eq!(plan.content, "user: hi\nassistant: hello");
    let id = cube.commit_add(&plan, &req, Ok(vec![3])).unwrap().memory_id;
    let node = cube.graph.get_node(&"c1".to_string(), id, false).unwrap();
    assert_eq!(node.memory, "user: hi\nassistant: hello");
    assert_eq!(node.metadata.get(&"source".to_string()), Some(serde_json::Value::Bool(true)));
    assert!(!cube.graph.has_cube(&"c2".to_string()));
}

#[test]
fn forget_soft_then_get() {
    let mut cube = NaiveMemCube::new();
    let x = add(&mut cube, &add_request("u", "secret"));
    let outcome = cube
        .forget(&ForgetMemoryRequest {
            memory_id: memory_id_text(x),
            user_id: "u".to_string(),
            mem_cube_id: None,
            soft: true,
        })
        .unwrap();
    assert!(!outcome.remove_vector);
    assert_eq!(outcome.memory_id, x);
    let mut get = GetMemoryRequest {
        memory_id: memory_id_text(x),
        user_id: "u".to_string(),
        mem_cube_id: None,
        include_deleted: false,
    };
    assert!(matches!(cube.get(&get), Err(MemCubeError::NotFound)));
    let answer = handle_get_memory(cube.get(&get));
    assert_eq!(answer.code, 500);
    assert_eq!(answer.message, "not found");
    get.include_deleted = true;
    let resp = cube.get(&get).unwrap();
    assert_eq!(resp.code, 200);
    let item = resp.data.unwrap();
    assert_eq!(item.id, memory_id_text(x));
    assert_eq!(item.memory, "secret");
    assert!(cube.graph.get_node(&"u".to_string(), x, true).unwrap().tombstoned);
}

#[test]
fn forget_hard_removes_the_memory() {
    let mut cube = NaiveMemCube::new();
    let x = add(&mut cube, &add_request("u", "secret"));
    let req = ForgetMemoryRequest {
        memory_id: memory_id_text(x),
        user_id: "someone".to_string(),
        mem_cube_id: Some("u".to_string()),
        soft: false,
    };
    let outcome = cube.forget(&req).unwrap();
    assert!(outcome.remove_vector);
    assert_eq!(outcome.cube_id, "u");
    assert!(cube.graph.get_node(&"u".to_string(), x, true).is_none());
    assert!(matches!(cube.forget(&req), Err(MemCubeError::NotFound)));
    let bad = ForgetMemoryRequest { memory_id: "abc".to_string(), ..req };
    assert!(matches!(cube.forget(&bad), Err(MemCubeError::NotFound)));
}

#[test]
fn update_of_metadata_alone_asks_for_no_embedding() {
    let mut cube = NaiveMemCube::new();
    let x = add(&mut cube, &add_request("u", "the sky is blue"));
    let before = cube.graph.get_node(&"u".to_string(), x, false).unwrap().embedding;
    let mut patch = Metadata::new();
    patch.insert("tag".to_string(), serde_json::Value::String("weather".to_string()));
    let req = UpdateMemoryRequest {
        memory_id: memory_id_text(x),
        user_id: "u".to_string(),
        mem_cube_id: None,
        memory: None,
        metadata: Some(patch.clone()),
    };
    let plan = cube.plan_update(&req).unwrap();
    assert!(plan.reembed.is_none());
    let outcome = cube.commit_update(&plan, &req.metadata, None).unwrap();
    assert!(!outcome.reembedded);
    let node = cube.graph.get_node(&"u".to_string(), x, false).unwrap();
    assert_eq!(node.memory, "the sky is blue");
    assert_eq!(node.embedding, before);
    assert_eq!(
        node.metadata.get(&"tag".to_string()),
        Some(serde_json::Value::String("weather".to_string()))
    );
    let same = UpdateMemoryRequest { memory: Some("the sky is blue".to_string()), ..req };
    assert!(cube.plan_update(&same).unwrap().reembed.is_none());
}

#[test]
fn update_of_content_replaces_the_embedding() {
    let mut cube = NaiveMemCube::new();
    let x = add(&mut cube, &add_request("u", "old text"));
    let req = UpdateMemoryRequest {
        memory_id: memory_id_text(x),
        user_id: "u".to_string(),
        mem_cube_id: None,
        memory: Some("new text".to_string()),
        metadata: None,
    };
    let plan = cube.plan_update(&req).unwrap();
    assert_eq!(plan.reembed, Some("new text".to_string()));
    assert!(matches!(
        cube.commit_update(&plan, &req.metadata, Some(Err("down".to_string()))),
        Err(MemCubeError::Upstream(_))
    ));
    assert!(matches!(
        cube.commit_update(&plan, &req.metadata, None),
        Err(MemCubeError::Upstream(_))
    ));
    assert_eq!(cube.graph.get_node(&"u".to_string(), x, false).unwrap().memory, "old text");
    let outcome = cube.commit_update(&plan, &req.metadata, Some(Ok(vec![9, 9]))).unwrap();
    assert!(outcome.reembedded);
    let node = cube.graph.get_node(&"u".to_string(), x, false).unwrap();
    assert_eq!(node.memory, "new text");
    assert_eq!(node.embedding, Some(vec![9, 9]));
    let missing = UpdateMemoryRequest { memory_id: "12345".to_string(), ..req };
    assert!(matches!(cube.plan_update(&missing), Err(MemCubeError::NotFound)));
}

#[test]
fn memory_ids_read_back() {
    for id in [0u64, 7, 10, 99, 100, 12345, u64::MAX] {
        assert_eq!(memory_id_text(id), id.to_string());
        assert_eq!(parse_memory_id(&memory_id_text(id)), Some(id));
    }
    assert_eq!(parse_memory_id(""), None);
    assert_eq!(parse_memory_id("007"), None);
    assert_eq!(parse_memory_id("0"), Some(0));
    assert_eq!(parse_memory_id("-1"), None);
    assert_eq!(parse_memory_id("12a"), None);
    assert_eq!(parse_memory_id("18446744073709551616"), None);
    assert_eq!(parse_memory_id("18446744073709551615"), Some(u64::MAX));
    assert_eq!(parse_memory_id("99999999999999999999999"), None);
}

#[test]
fn entity_aware_cube_records_entities_best_effort() {
    let mut cube = EntityAwareMemCube::new(EntityCubeConfig { max_entities_per_memory: 2 });
    let req = add_request("u", "Ada met Charles");
    let plan = NaiveMemCube::plan_add(&req).unwrap();
    let id = cube.base.commit_add(&plan, &req, Ok(vec![1])).unwrap().memory_id;
    let report = cube.record_entities(
        &"u".to_string(),
        id,
        Ok(vec![
            ExtractedEntity { name: "Ada".to_string(), attributes: Metadata::new() },
            ExtractedEntity { name: "  ".to_string(), attributes: Metadata::new() },
            ExtractedEntity { name: "Charles".to_string(), attributes: Metadata::new() },
        ]),
    );
    assert_eq!(report.linked.len(), 1);
    assert_eq!(report.failed, 1);
    assert!(report.extraction_error.is_none());
    let stats = cube.entities.stats(&"u".to_string()).unwrap();
    assert_eq!(stats.entity_count, 1);
    assert_eq!(stats.mention_count, 1);
    let failed = cube.record_entities(&"u".to_string(), id, Err("extractor down".to_string()));
    assert_eq!(failed.extraction_error, Some("extractor down".to_string()));
    assert!(failed.linked.is_empty());
    assert_eq!(cube.entities.stats(&"u".to_string()).unwrap().entity_count, 1);
    assert!(cube.base.graph.get_node(&"u".to_string(), id, false).is_some());
}

#[test]
fn handlers_answer_and_audit() {
    let mut cube = NaiveMemCube::new();
    let mut log = AuditLog::new();
    let req = add_request("u", "text");
    assert!(!wants_async(&req));
    let plan = NaiveMemCube::plan_add(&req).unwrap();
    let result = cube.commit_add(&plan, &req, Ok(vec![1]));
    let id = result.as_ref().unwrap().memory_id;
    let (resp, event) = handle_add(&req, result);
    assert_eq!(resp.code, 200);
    assert_eq!(resp.data.as_ref().unwrap()[0].id, memory_id_text(id));
    let event = event.unwrap();
    assert_eq!(event.kind, AuditEventKind::Add);
    assert_eq!(event.memory_id, Some(memory_id_text(id)));
    assert_eq!(event.user_id, "u");
    assert_eq!(event.cube_id, "u");
    assert_eq!(event.outcome, Some("code=200".to_string()));
    assert_eq!(event.event_id.len(), 36);
    assert!(event.timestamp.contains('T'));
    log.append(event);
    assert_eq!(log.len(), 1);
    assert_eq!(log.get(0).unwrap().kind, AuditEventKind::Add);
    assert!(log.get(1).is_none());

    let (resp, event) = handle_add(&req, Err(MemCubeError::Upstream("down".to_string())));
    assert_eq!(resp.code, 500);
    assert_eq!(resp.message, "upstream error: down");
    assert!(resp.data.is_none());
    assert!(event.is_none());

    let update = UpdateMemoryRequest {
        memory_id: memory_id_text(id),
        user_id: "u".to_string(),
        mem_cube_id: Some("u".to_string()),
        memory: Some("changed".to_string()),
        metadata: None,
    };
    let plan = cube.plan_update(&update).unwrap();
    let (resp, event) =
        handle_update_memory(&update, cube.commit_update(&plan, &None, Some(Ok(vec![2]))));
    assert_eq!(resp.code, 200);
    assert_eq!(event.unwrap().kind, AuditEventKind::Update);
    let (resp, event) = handle_update_memory(&update, Err(MemCubeError::NotFound));
    assert_eq!((resp.code, event.is_none()), (500, true));

    let forget = ForgetMemoryRequest {
        memory_id: memory_id_text(id),
        user_id: "u".to_string(),
        mem_cube_id: None,
        soft: false,
    };
    let (resp, event) = handle_delete_memory(&forget, cube.forget(&forget));
    assert_eq!(resp.code, 200);
    let event = event.unwrap();
    assert_eq!(event.kind, AuditEventKind::Forget);
    assert_eq!(event.memory_id, Some(memory_id_text(id)));
    let (resp, event) = handle_delete_memory(&forget, cube.forget(&forget));
    assert_eq!((resp.code, resp.message.as_str(), event.is_none()), (500, "not found", true));
    assert_eq!(handle_health(), "ok");
}

#[test]
fn async_add_and_status_answers() {
    let mut req = add_request("u", "text");
    req.async_mode = "async".to_string();
    assert!(wants_async(&req));
    let mut scheduler = InMemoryScheduler::new();
    let submitted = scheduler.submit_with_id("job-7".to_string(), req, "t0".to_string());
    let resp = handle_add_async(submitted);
    assert_eq!(resp.code, 200);
    assert_eq!(resp.message, "Memory add job submitted");
    assert_eq!(resp.data.unwrap()[0].task_id, "job-7");
    let resp = handle_add_async(Err(SchedulerError::Other("full".to_string())));
    assert_eq!(resp.code, 500);
    assert_eq!(resp.message, "scheduler error: full");

    let none = SchedulerStatusQuery { user_id: "u".to_string(), task_id: None };
    let resp = handle_scheduler_status(&none, &scheduler);
    assert_eq!((resp.code, resp.message.as_str()), (400, "task_id is required"));
    let unknown = SchedulerStatusQuery { user_id: "u".to_string(), task_id: Some("x".to_string()) };
    let resp = handle_scheduler_status(&unknown, &scheduler);
    assert_eq!((resp.code, resp.message.as_str()), (404, "Job not found"));
    let known =
        SchedulerStatusQuery { user_id: "u".to_string(), task_id: Some("job-7".to_string()) };
    let resp = handle_scheduler_status(&known, &scheduler);
    assert_eq!((resp.code, resp.message.as_str()), (200, "Success"));
    assert_eq!(resp.data.unwrap().job_id, "job-7");
}

#[test]
fn audit_outcome_text_and_event() {
    assert_eq!(outcome_text(200), "code=200");
    assert_eq!(outcome_text(0), "code=0");
    assert_eq!(outcome_text(-5), "code=-5");
    assert_eq!(outcome_text(i32::MIN), "code=-2147483648");
    let e = audit_event_at(
        AuditEventKind::Forget,
        None,
        "user".to_string(),
        "cube".to_string(),
        404,
        "event-1".to_string(),
        "2026-01-01T00:00:00+00:00".to_string(),
    );
    assert_eq!(e.event_id, "event-1");
    assert_eq!(e.timestamp, "2026-01-01T00:00:00+00:00");
    assert_eq!(e.outcome, Some("code=404".to_string()));
    assert!(e.memory_id.is_none());
    assert!(e.input_summary.is_none());
}

#[test]
fn graph_queries_speak_text_ids() {
    let mut cube = NaiveMemCube::new();
    let a = add(&mut cube, &add_request("u", "A"));
    let b = add(&mut cube, &add_request("u", "B"));
    let c = add(&mut cube, &add_request("u", "C"));
    let u = "u".to_string();
    let ab = cube.graph.create_edge(&u, a, b, "r".to_string(), Metadata::new()).unwrap();
    let ac = cube.graph.create_edge(&u, a, c, "r".to_string(), Metadata::new()).unwrap();
    let bc = cube.graph.create_edge(&u, b, c, "r".to_string(), Metadata::new()).unwrap();

    let mut req = GraphNeighborsRequest {
        memory_id: memory_id_text(a),
        user_id: "u".to_string(),
        mem_cube_id: None,
        relation: None,
        direction: GraphDirection::Outbound,
        limit: 1,
        cursor: None,
        include_embedding: false,
        include_deleted: false,
    };
    let page = cube.graph_neighbors(&req).unwrap();
    assert_eq!(page.items.len(), 1);
    assert_eq!(page.items[0].edge.id, ab);
    assert_eq!(page.items[0].memory.id, memory_id_text(b));
    assert_eq!(page.items[0].memory.memory, "B");
    assert_eq!(page.next_cursor, Some(memory_id_text(ab)));
    req.cursor = page.next_cursor;
    let page = cube.graph_neighbors(&req).unwrap();
    assert_eq!(page.items.len(), 1);
    assert_eq!(page.items[0].edge.id, ac);
    assert_eq!(page.next_cursor, None);
    req.cursor = Some("nonsense".to_string());
    assert!(matches!(cube.graph_neighbors(&req), Err(MemCubeError::InvalidArgument)));
    req.cursor = None;
    req.limit = 0;
    assert!(matches!(cube.graph_neighbors(&req), Err(MemCubeError::InvalidArgument)));
    req.limit = 5;
    req.memory_id = "nonsense".to_string();
    assert!(matches!(cube.graph_neighbors(&req), Err(MemCubeError::NotFound)));
    req.memory_id = memory_id_text(a);
    req.mem_cube_id = Some("elsewhere".to_string());
    assert!(matches!(cube.graph_neighbors(&req), Err(MemCubeError::NotFound)));

    let path_req = GraphPathRequest {
        source_memory_id: memory_id_text(a),
        target_memory_id: memory_id_text(c),
        user_id: "u".to_string(),
        mem_cube_id: None,
        relation: None,
        direction: GraphDirection::Outbound,
        max_depth: 6,
        include_deleted: false,
    };
    let path = cube.graph_path(&path_req).unwrap().unwrap();
    assert_eq!(path.hops, 1);
    assert_eq!(path.edges.iter().map(|e| e.id).collect::<Vec<_>>(), vec![ac]);
    assert_eq!(
        path.nodes.iter().map(|n| n.memory.clone()).collect::<Vec<_>>(),
        vec!["A".to_string(), "C".to_string()]
    );
    let back = GraphPathRequest {
        source_memory_id: memory_id_text(c),
        target_memory_id: memory_id_text(a),
        ..path_req.clone()
    };
    assert!(cube.graph_path(&back).unwrap().is_none());
    let bad = GraphPathRequest { target_memory_id: "x".to_string(), ..path_req.clone() };
    assert!(matches!(cube.graph_path(&bad), Err(MemCubeError::NotFound)));
    let zero = GraphPathRequest { max_depth: 0, ..path_req.clone() };
    assert!(matches!(cube.graph_path(&zero), Err(MemCubeError::InvalidArgument)));

    let paths_req = GraphPathsRequest {
        source_memory_id: memory_id_text(a),
        target_memory_id: memory_id_text(c),
        user_id: "u".to_string(),
        mem_cube_id: None,
        relation: None,
        direction: GraphDirection::Outbound,
        max_depth: 6,
        top_k_paths: 3,
        include_deleted: false,
    };
    let paths = cube.graph_paths(&paths_req).unwrap();
    assert_eq!(paths.len(), 2);
    assert_eq!(paths[0].hops, 1);
    assert_eq!(paths[0].edges.iter().map(|e| e.id).collect::<Vec<_>>(), vec![ac]);
    assert_eq!(paths[1].hops, 2);
    assert_eq!(paths[1].edges.iter().map(|e| e.id).collect::<Vec<_>>(), vec![ab, bc]);
    assert_eq!(
        paths[1].nodes.iter().map(|n| n.id.clone()).collect::<Vec<_>>(),
        vec![memory_id_text(a), memory_id_text(b), memory_id_text(c)]
    );
    let none = GraphPathsRequest { top_k_paths: 0, ..paths_req.clone() };
    assert!(matches!(cube.graph_paths(&none), Err(MemCubeError::InvalidArgument)));
}

#[test]
fn entity_aware_add_writes_memory_and_entities_together() {
    let mut cube = EntityAwareMemCube::new(EntityCubeConfig { max_entities_per_memory: 8 });
    let req = add_request("u", "Ada met Charles");
    let plan = NaiveMemCube::plan_add(&req).unwrap();
    let found = vec![
        ExtractedEntity { name: "Ada".to_string(), attributes: Metadata::new() },
        ExtractedEntity { name: "ada".to_string(), attributes: Metadata::new() },
        ExtractedEntity { name: "Charles".to_string(), attributes: Metadata::new() },
    ];
    let (outcome, report) = cube.commit_add_with_entities(&plan, &req, Ok(vec![1]), Ok(found.clone())).unwrap();
    assert_eq!(report.linked.len(), 3);
    assert_eq!(report.linked[0], report.linked[1]);
    assert_ne!(report.linked[0], report.linked[2]);
    assert_eq!(report.failed, 0);
    let stats = cube.entities.stats(&"u".to_string()).unwrap();
    assert_eq!((stats.entity_count, stats.mention_count), (2, 2));
    assert!(cube.base.graph.get_node(&"u".to_string(), outcome.memory_id, false).is_some());

    let failed =
        cube.commit_add_with_entities(&plan, &req, Err("embedder down".to_string()), Ok(found));
    assert!(matches!(failed, Err(MemCubeError::Upstream(_))));
    let stats = cube.entities.stats(&"u".to_string()).unwrap();
    assert_eq!((stats.entity_count, stats.mention_count), (2, 2));

    let (outcome, report) = cube
        .commit_add_with_entities(&plan, &req, Ok(vec![1]), Err("extractor down".to_string()))
        .unwrap();
    assert_eq!(report.extraction_error, Some("extractor down".to_string()));
    assert!(cube.base.graph.get_node(&"u".to_string(), outcome.memory_id, false).is_some());
}

fn add_forget_get<C: MemCube>(cube: &mut C) -> (String, bool, bool) {
    let req = add_request("u", "shared contract");
    let plan = NaiveMemCube::plan_add(&req).unwrap();
    let id = cube.commit_add(&plan, &req, Ok(vec![5])).unwrap().memory_id;
    let mut get = GetMemoryRequest {
        memory_id: memory_id_text(id),
        user_id: "u".to_string(),
        mem_cube_id: None,
        include_deleted: false,
    };
    let text = cube.get(&get).unwrap().data.unwrap().memory;
    cube.forget(&ForgetMemoryRequest {
        memory_id: memory_id_text(id),
        user_id: "u".to_string(),
        mem_cube_id: None,
        soft: true,
    })
    .unwrap();
    let hidden = cube.get(&get).is_err();
    get.include_deleted = true;
    let kept = cube.get(&get).is_ok();
    (text, hidden, kept)
}

#[test]
fn both_cubes_offer_the_same_operations() {
    let mut plain = NaiveMemCube::new();
    let mut aware = EntityAwareMemCube::new(EntityCubeConfig { max_entities_per_memory: 4 });
    let expected = ("shared contract".to_string(), true, true);
    assert_eq!(add_forget_get(&mut plain), expected);
    assert_eq!(add_forget_get(&mut aware), expected);
    assert!(aware.entities.stats(&"u".to_string()).is_err());
}
