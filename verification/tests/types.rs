use memos_core::dto::{
    default_async_mode, default_code, default_graph_limit, default_graph_max_depth,
    default_graph_top_k_paths, default_top_k, ApiAddRequest, ApiSearchRequest, GraphDirection,
    MemoryScope, Message,
};
use memos_core::metadata::Metadata;

fn add_request() -> ApiAddRequest {
    ApiAddRequest {
        user_id: "user".to_string(),
        session_id: None,
        task_id: None,
        writable_cube_ids: None,
        mem_cube_id: None,
        async_mode: default_async_mode(),
        messages: None,
        memory_content: None,
        chat_history: None,
        custom_tags: None,
        info: None,
        relations: None,
        is_feedback: false,
    }
}

fn search_request() -> ApiSearchRequest {
    ApiSearchRequest {
        query: "q".to_string(),
        user_id: "user".to_string(),
        readable_cube_ids: None,
        mem_cube_id: None,
        top_k: default_top_k(),
        session_id: None,
        include_preference: false,
        pref_top_k: 0,
        filter: None,
    }
}

#[test]
fn defaults() {
    assert_eq!(default_async_mode(), "sync");
    assert_eq!(default_top_k(), 10);
    assert_eq!(default_code(), 200);
    assert_eq!(memos_core::job::default_code(), 200);
    assert_eq!(default_graph_limit(), 10);
    assert_eq!(default_graph_max_depth(), 6);
    assert_eq!(default_graph_top_k_paths(), 3);
    assert_eq!(GraphDirection::default(), GraphDirection::Outbound);
}

#[test]
fn memory_scope_names() {
    assert_eq!(MemoryScope::WorkingMemory.as_str(), "WorkingMemory");
    assert_eq!(MemoryScope::LongTermMemory.as_str(), "LongTermMemory");
    assert_eq!(MemoryScope::UserMemory.as_str(), "UserMemory");
    assert_eq!(MemoryScope::UserMemory.to_text(), "UserMemory");
}

#[test]
fn writable_cube_ids_resolution() {
    let mut req = add_request();
    assert_eq!(req.writable_cube_ids(), vec!["user".to_string()]);
    req.mem_cube_id = Some("single".to_string());
    assert_eq!(req.writable_cube_ids(), vec!["single".to_string()]);
    req.writable_cube_ids = Some(vec![]);
    assert_eq!(req.writable_cube_ids(), vec!["single".to_string()]);
    req.writable_cube_ids = Some(vec!["a".to_string(), "b".to_string()]);
    assert_eq!(req.writable_cube_ids(), vec!["a".to_string(), "b".to_string()]);
}

#[test]
fn readable_cube_ids_resolution() {
    let mut req = search_request();
    assert_eq!(req.readable_cube_ids(), vec!["user".to_string()]);
    req.mem_cube_id = Some("single".to_string());
    assert_eq!(req.readable_cube_ids(), vec!["single".to_string()]);
    req.readable_cube_ids = Some(vec!["x".to_string()]);
    assert_eq!(req.readable_cube_ids(), vec!["x".to_string()]);
}

#[test]
fn content_to_store_prefers_messages() {
    let mut req = add_request();
    assert_eq!(req.content_to_store(), None);
    req.memory_content = Some("raw".to_string());
    assert_eq!(req.content_to_store(), Some("raw".to_string()));
    req.messages = Some(vec![]);
    assert_eq!(req.content_to_store(), Some("raw".to_string()));
    req.messages = Some(vec![Message { role: "user".to_string(), content: "one".to_string() }]);
    assert_eq!(req.content_to_store(), Some("user: one".to_string()));
    req.messages = Some(vec![
        Message { role: "user".to_string(), content: "one".to_string() },
        Message { role: "assistant".to_string(), content: "two".to_string() },
        Message { role: "user".to_string(), content: "".to_string() },
    ]);
    assert_eq!(req.content_to_store(), Some("user: one\nassistant: two\nuser: ".to_string()));
}

#[test]
fn metadata_last_write_wins() {
    let v = |s: &str| serde_json::Value::String(s.to_string());
    let mut m = Metadata::new();
    assert_eq!(m.len(), 0);
    m.insert("a".to_string(), v("1"));
    m.insert("b".to_string(), v("2"));
    m.insert("a".to_string(), v("3"));
    assert_eq!(m.len(), 2);
    assert_eq!(m.get(&"a".to_string()), Some(v("3")));
    assert_eq!(m.get(&"b".to_string()), Some(v("2")));
    assert_eq!(m.get(&"c".to_string()), None);
    assert_eq!(m.key_at(0), "a");
    assert_eq!(m.value_at(0), v("3"));
    assert_eq!(m.key_at(1), "b");
    let mut patch = Metadata::new();
    patch.insert("b".to_string(), v("20"));
    patch.insert("c".to_string(), serde_json::Value::Null);
    let merged = m.merged_with(&patch);
    assert_eq!(merged.len(), 3);
    assert_eq!(merged.get(&"a".to_string()), Some(v("3")));
    assert_eq!(merged.get(&"b".to_string()), Some(v("20")));
    assert_eq!(merged.get(&"c".to_string()), Some(serde_json::Value::Null));
    assert_eq!(m.get(&"b".to_string()), Some(v("2")));
    let copy = merged.duplicate();
    assert_eq!(copy.len(), 3);
    assert_eq!(copy.get(&"b".to_string()), Some(v("20")));
}
