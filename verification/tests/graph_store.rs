use memos_core::dto::{GraphDirection, GraphPath};
use memos_core::error::GraphStoreError;
use memos_core::metadata::Metadata;
use memos_core::store::InMemoryGraphStore;

fn cube() -> String {
    "cube-a".to_string()
}

fn node(store: &mut InMemoryGraphStore, text: &str) -> u64 {
    store.create_node(&cube(), text.to_string(), Metadata::new()).unwrap()
}

fn edge(store: &mut InMemoryGraphStore, from: u64, to: u64, rel: &str) -> u64 {
    store.create_edge(&cube(), from, to, rel.to_string(), Metadata::new()).unwrap()
}

fn edge_ids(p: &GraphPath) -> Vec<u64> {
    p.edges.iter().map(|e| e.id).collect()
}

#[test]
fn create_node_assigns_fresh_ids() {
    let mut store = InMemoryGraphStore::new();
    let a = node(&mut store, "first");
    let b = node(&mut store, "second");
    assert_ne!(a, b);
    assert_eq!(store.get_node(&cube(), a, false).unwrap().memory, "first");
    assert_eq!(store.get_node(&cube(), b, false).unwrap().memory, "second");
    assert!(store.get_node(&cube(), a, false).unwrap().embedding.is_none());
    assert!(!store.get_node(&cube(), a, false).unwrap().tombstoned);
}

#[test]
fn ids_are_not_shared_between_cubes() {
    let mut store = InMemoryGraphStore::new();
    let a = store.create_node(&"one".to_string(), "x".to_string(), Metadata::new()).unwrap();
    let b = store.create_node(&"two".to_string(), "y".to_string(), Metadata::new()).unwrap();
    assert_ne!(a, b);
    assert!(store.get_node(&"one".to_string(), b, true).is_none());
    assert!(store.get_node(&"two".to_string(), a, true).is_none());
    assert!(store.has_cube(&"one".to_string()));
    assert!(!store.has_cube(&"three".to_string()));
}

#[test]
fn create_edge_needs_both_ends() {
    let mut store = InMemoryGraphStore::new();
    let a = node(&mut store, "a");
    let r = store.create_edge(&cube(), a, a + 100, "rel".to_string(), Metadata::new());
    assert_eq!(r, Err(GraphStoreError::NotFound));
    let r = store.create_edge(&"nowhere".to_string(), a, a, "rel".to_string(), Metadata::new());
    assert_eq!(r, Err(GraphStoreError::NotFound));
    let r = store.neighbors(&cube(), a, None, GraphDirection::Both, 10, None, false).unwrap();
    assert!(r.0.is_empty());
    assert!(r.1.is_none());
}

#[test]
fn create_edge_accepts_a_tombstoned_end() {
    let mut store = InMemoryGraphStore::new();
    let a = node(&mut store, "a");
    let b = node(&mut store, "b");
    store.tombstone_node(&cube(), b).unwrap();
    assert!(store.create_edge(&cube(), a, b, "rel".to_string(), Metadata::new()).is_ok());
}

#[test]
fn tombstone_is_idempotent_and_hides_the_node() {
    let mut store = InMemoryGraphStore::new();
    let a = node(&mut store, "a");
    assert_eq!(store.tombstone_node(&cube(), a), Ok(()));
    assert!(store.get_node(&cube(), a, false).is_none());
    let once = store.get_node(&cube(), a, true).unwrap();
    assert!(once.tombstoned);
    assert_eq!(store.tombstone_node(&cube(), a), Ok(()));
    assert!(store.get_node(&cube(), a, false).is_none());
    let twice = store.get_node(&cube(), a, true).unwrap();
    assert!(twice.tombstoned);
    assert_eq!(once.id, twice.id);
    assert_eq!(once.memory, twice.memory);
}

#[test]
fn tombstone_of_a_missing_node_is_not_found() {
    let mut store = InMemoryGraphStore::new();
    let a = node(&mut store, "a");
    assert_eq!(store.tombstone_node(&cube(), a + 1), Err(GraphStoreError::NotFound));
    assert_eq!(store.tombstone_node(&"nowhere".to_string(), a), Err(GraphStoreError::NotFound));
    assert_eq!(store.delete_node(&cube(), a + 1), Err(GraphStoreError::NotFound));
}

#[test]
fn tombstoned_nodes_keep_their_edges_but_traversal_skips_them() {
    let mut store = InMemoryGraphStore::new();
    let a = node(&mut store, "a");
    let b = node(&mut store, "b");
    edge(&mut store, a, b, "rel");
    store.tombstone_node(&cube(), b).unwrap();
    let seen = store.neighbors(&cube(), a, None, GraphDirection::Outbound, 10, None, false).unwrap();
    assert!(seen.0.is_empty());
    let all = store.neighbors(&cube(), a, None, GraphDirection::Outbound, 10, None, true).unwrap();
    assert_eq!(all.0.len(), 1);
    assert_eq!(all.0[0].node.id, b);
}

#[test]
fn hard_delete_removes_the_node_and_its_edges() {
    let mut store = InMemoryGraphStore::new();
    let a = node(&mut store, "a");
    let b = node(&mut store, "b");
    let c = node(&mut store, "c");
    edge(&mut store, a, b, "rel");
    edge(&mut store, b, c, "rel");
    let kept = edge(&mut store, a, c, "rel");
    assert_eq!(store.delete_node(&cube(), b), Ok(()));
    assert!(store.get_node(&cube(), b, true).is_none());
    let out = store.neighbors(&cube(), a, None, GraphDirection::Outbound, 10, None, true).unwrap();
    assert_eq!(out.0.len(), 1);
    assert_eq!(out.0[0].edge.id, kept);
    assert_eq!(out.0[0].node.id, c);
}

#[test]
fn update_node_replaces_what_is_given() {
    let mut store = InMemoryGraphStore::new();
    let a = node(&mut store, "old");
    store.update_node(&cube(), a, None, None, Some(vec![1, 2, 3])).unwrap();
    let n = store.get_node(&cube(), a, false).unwrap();
    assert_eq!(n.memory, "old");
    assert_eq!(n.embedding, Some(vec![1, 2, 3]));
    store.update_node(&cube(), a, Some("new".to_string()), None, None).unwrap();
    let n = store.get_node(&cube(), a, false).unwrap();
    assert_eq!(n.memory, "new");
    assert_eq!(n.embedding, Some(vec![1, 2, 3]));
    assert_eq!(
        store.update_node(&cube(), a + 1, None, None, None),
        Err(GraphStoreError::NotFound)
    );
}

#[test]
fn neighbors_rejects_zero_limit_and_missing_node() {
    let mut store = InMemoryGraphStore::new();
    let a = node(&mut store, "a");
    let r = store.neighbors(&cube(), a, None, GraphDirection::Both, 0, None, false);
    assert_eq!(r.err(), Some(GraphStoreError::InvalidArgument));
    let r = store.neighbors(&cube(), a + 7, None, GraphDirection::Both, 5, None, false);
    assert_eq!(r.err(), Some(GraphStoreError::NotFound));
    let r = store.neighbors(&"nowhere".to_string(), a, None, GraphDirection::Both, 5, None, false);
    assert_eq!(r.err(), Some(GraphStoreError::NotFound));
}

#[test]
fn neighbors_follow_direction_and_relation() {
    let mut store = InMemoryGraphStore::new();
    let a = node(&mut store, "a");
    let b = node(&mut store, "b");
    let c = node(&mut store, "c");
    let ab = edge(&mut store, a, b, "likes");
    let ca = edge(&mut store, c, a, "knows");
    let out = store.neighbors(&cube(), a, None, GraphDirection::Outbound, 10, None, false).unwrap();
    assert_eq!(out.0.iter().map(|n| n.edge.id).collect::<Vec<_>>(), vec![ab]);
    let inb = store.neighbors(&cube(), a, None, GraphDirection::Inbound, 10, None, false).unwrap();
    assert_eq!(inb.0.iter().map(|n| n.edge.id).collect::<Vec<_>>(), vec![ca]);
    assert_eq!(inb.0[0].node.id, c);
    let both = store.neighbors(&cube(), a, None, GraphDirection::Both, 10, None, false).unwrap();
    assert_eq!(both.0.iter().map(|n| n.edge.id).collect::<Vec<_>>(), vec![ab, ca]);
    let knows = store
        .neighbors(&cube(), a, Some("knows".to_string()), GraphDirection::Both, 10, None, false)
        .unwrap();
    assert_eq!(knows.0.iter().map(|n| n.edge.id).collect::<Vec<_>>(), vec![ca]);
}

#[test]
fn paging_delivers_every_neighbor_once() {
    let mut store = InMemoryGraphStore::new();
    let hub = node(&mut store, "hub");
    let mut expected = Vec::new();
    for i in 0..7 {
        let n = node(&mut store, &format!("n{}", i));
        expected.push(edge(&mut store, hub, n, "rel"));
    }
    let whole = store
        .neighbors(&cube(), hub, None, GraphDirection::Outbound, 100, None, false)
        .unwrap();
    assert!(whole.1.is_none());
    assert_eq!(whole.0.iter().map(|n| n.edge.id).collect::<Vec<_>>(), expected);
    for limit in 1..9usize {
        let mut got = Vec::new();
        let mut cursor = None;
        let mut pages = 0;
        loop {
            let page = store
                .neighbors(&cube(), hub, None, GraphDirection::Outbound, limit, cursor, false)
                .unwrap();
            assert!(page.0.len() <= limit);
            got.extend(page.0.iter().map(|n| n.edge.id));
            pages += 1;
            assert!(pages < 20);
            match page.1 {
                Some(c) => cursor = Some(c),
                None => break,
            }
        }
        assert_eq!(got, expected);
    }
}

#[test]
fn paging_cursor_is_the_last_edge_delivered() {
    let mut store = InMemoryGraphStore::new();
    let hub = node(&mut store, "hub");
    let a = node(&mut store, "a");
    let b = node(&mut store, "b");
    let e1 = edge(&mut store, hub, a, "rel");
    let e2 = edge(&mut store, hub, b, "rel");
    let page = store.neighbors(&cube(), hub, None, GraphDirection::Outbound, 1, None, false).unwrap();
    assert_eq!(page.0[0].edge.id, e1);
    assert_eq!(page.1, Some(e1));
    let page = store
        .neighbors(&cube(), hub, None, GraphDirection::Outbound, 1, Some(e1), false)
        .unwrap();
    assert_eq!(page.0[0].edge.id, e2);
    assert_eq!(page.1, None);
}

#[test]
fn shortest_path_of_a_node_to_itself_has_no_edges() {
    let mut store = InMemoryGraphStore::new();
    let a = node(&mut store, "a");
    let p = store
        .shortest_path(&cube(), a, a, None, GraphDirection::Outbound, 0, false)
        .unwrap()
        .unwrap();
    assert_eq!(p.node_ids, vec![a]);
    assert!(p.edges.is_empty());
}

#[test]
fn shortest_path_errors() {
    let mut store = InMemoryGraphStore::new();
    let a = node(&mut store, "a");
    let b = node(&mut store, "b");
    let r = store.shortest_path(&cube(), a, b, None, GraphDirection::Outbound, 0, false);
    assert_eq!(r.err(), Some(GraphStoreError::InvalidArgument));
    let r = store.shortest_path(&cube(), a, b + 5, None, GraphDirection::Outbound, 3, false);
    assert_eq!(r.err(), Some(GraphStoreError::NotFound));
    let r = store.shortest_path(&"nowhere".to_string(), a, b, None, GraphDirection::Outbound, 3, false);
    assert_eq!(r.err(), Some(GraphStoreError::NotFound));
    let r = store.shortest_path(&cube(), a, b, None, GraphDirection::Outbound, 3, false);
    assert!(r.unwrap().is_none());
}

#[test]
fn shortest_path_depends_on_the_depth_bound_only_through_admission() {
    let mut store = InMemoryGraphStore::new();
    let a = node(&mut store, "a");
    let b = node(&mut store, "b");
    let c = node(&mut store, "c");
    let d = node(&mut store, "d");
    let ab = edge(&mut store, a, b, "rel");
    let bc = edge(&mut store, b, c, "rel");
    let cd = edge(&mut store, c, d, "rel");
    for depth in 1..3u32 {
        let r = store.shortest_path(&cube(), a, d, None, GraphDirection::Outbound, depth, false);
        assert!(r.unwrap().is_none());
    }
    for depth in 3..8u32 {
        let p = store
            .shortest_path(&cube(), a, d, None, GraphDirection::Outbound, depth, false)
            .unwrap()
            .unwrap();
        assert_eq!(p.node_ids, vec![a, b, c, d]);
        assert_eq!(edge_ids(&p), vec![ab, bc, cd]);
    }
}

#[test]
fn shortest_path_prefers_the_edge_created_first() {
    let mut store = InMemoryGraphStore::new();
    let a = node(&mut store, "a");
    let b = node(&mut store, "b");
    let c = node(&mut store, "c");
    let d = node(&mut store, "d");
    let ac = edge(&mut store, a, c, "rel");
    let ab = edge(&mut store, a, b, "rel");
    let bd = edge(&mut store, b, d, "rel");
    let cd = edge(&mut store, c, d, "rel");
    let p = store
        .shortest_path(&cube(), a, d, None, GraphDirection::Outbound, 5, false)
        .unwrap()
        .unwrap();
    assert_eq!(edge_ids(&p), vec![ac, cd]);
    assert_eq!(p.node_ids, vec![a, c, d]);
    let back = store
        .shortest_path(&cube(), d, a, None, GraphDirection::Inbound, 5, false)
        .unwrap()
        .unwrap();
    assert_eq!(edge_ids(&back), vec![bd, ab]);
    assert_eq!(back.node_ids, vec![d, b, a]);
}

#[test]
fn shortest_path_skips_tombstoned_nodes() {
    let mut store = InMemoryGraphStore::new();
    let a = node(&mut store, "a");
    let b = node(&mut store, "b");
    let c = node(&mut store, "c");
    let d = node(&mut store, "d");
    edge(&mut store, a, b, "rel");
    edge(&mut store, b, d, "rel");
    edge(&mut store, a, c, "rel");
    let cx = node(&mut store, "x");
    edge(&mut store, c, cx, "rel");
    edge(&mut store, cx, d, "rel");
    store.tombstone_node(&cube(), b).unwrap();
    let p = store
        .shortest_path(&cube(), a, d, None, GraphDirection::Outbound, 5, false)
        .unwrap()
        .unwrap();
    assert_eq!(p.node_ids, vec![a, c, cx, d]);
    let q = store
        .shortest_path(&cube(), a, d, None, GraphDirection::Outbound, 5, true)
        .unwrap()
        .unwrap();
    assert_eq!(q.node_ids, vec![a, b, d]);
}

#[test]
fn top_k_paths_returns_the_two_shortest_in_order() {
    let mut store = InMemoryGraphStore::new();
    let a = node(&mut store, "A");
    let b = node(&mut store, "B");
    let c = node(&mut store, "C");
    let d = node(&mut store, "D");
    let ab = edge(&mut store, a, b, "rel");
    let bd = edge(&mut store, b, d, "rel");
    let ac = edge(&mut store, a, c, "rel");
    let cd = edge(&mut store, c, d, "rel");
    let bc = edge(&mut store, b, c, "rel");
    let two = store
        .top_k_paths(&cube(), a, d, None, GraphDirection::Outbound, 3, 2, false)
        .unwrap();
    assert_eq!(two.len(), 2);
    assert_eq!(two[0].node_ids, vec![a, b, d]);
    assert_eq!(edge_ids(&two[0]), vec![ab, bd]);
    assert_eq!(two[1].node_ids, vec![a, c, d]);
    assert_eq!(edge_ids(&two[1]), vec![ac, cd]);
    let three = store
        .top_k_paths(&cube(), a, d, None, GraphDirection::Outbound, 3, 5, false)
        .unwrap();
    assert_eq!(three.len(), 3);
    assert_eq!(three[2].node_ids, vec![a, b, c, d]);
    assert_eq!(edge_ids(&three[2]), vec![ab, bc, cd]);
    let short = store
        .top_k_paths(&cube(), a, d, None, GraphDirection::Outbound, 2, 5, false)
        .unwrap();
    assert_eq!(short.len(), 2);
}

#[test]
fn top_k_paths_with_k_one_is_the_shortest_path() {
    let mut store = InMemoryGraphStore::new();
    let a = node(&mut store, "a");
    let b = node(&mut store, "b");
    let c = node(&mut store, "c");
    let d = node(&mut store, "d");
    edge(&mut store, a, c, "rel");
    edge(&mut store, a, b, "rel");
    edge(&mut store, b, d, "rel");
    edge(&mut store, c, d, "rel");
    edge(&mut store, d, a, "rel");
    for dir in [GraphDirection::Outbound, GraphDirection::Inbound, GraphDirection::Both] {
        for depth in 1..5u32 {
            let one = store.top_k_paths(&cube(), a, d, None, dir, depth, 1, false).unwrap();
            let best = store.shortest_path(&cube(), a, d, None, dir, depth, false).unwrap();
            match best {
                Some(p) => {
                    assert_eq!(one.len(), 1);
                    assert_eq!(one[0].node_ids, p.node_ids);
                    assert_eq!(edge_ids(&one[0]), edge_ids(&p));
                }
                None => assert!(one.is_empty()),
            }
        }
    }
}

#[test]
fn top_k_paths_are_simple_and_ordered_by_length() {
    let mut store = InMemoryGraphStore::new();
    let a = node(&mut store, "a");
    let b = node(&mut store, "b");
    let c = node(&mut store, "c");
    edge(&mut store, a, b, "rel");
    edge(&mut store, b, a, "rel");
    edge(&mut store, b, c, "rel");
    edge(&mut store, a, c, "rel");
    let paths = store
        .top_k_paths(&cube(), a, c, None, GraphDirection::Both, 6, 10, false)
        .unwrap();
    assert!(!paths.is_empty());
    for w in paths.windows(2) {
        assert!(w[0].edges.len() <= w[1].edges.len());
    }
    for p in &paths {
        let mut ids = p.node_ids.clone();
        ids.sort();
        ids.dedup();
        assert_eq!(ids.len(), p.node_ids.len());
        assert_eq!(p.node_ids.len(), p.edges.len() + 1);
        assert!(p.edges.len() <= 6);
    }
}

#[test]
fn top_k_paths_errors() {
    let mut store = InMemoryGraphStore::new();
    let a = node(&mut store, "a");
    let b = node(&mut store, "b");
    let r = store.top_k_paths(&cube(), a, b, None, GraphDirection::Outbound, 3, 0, false);
    assert_eq!(r.err(), Some(GraphStoreError::InvalidArgument));
    let r = store.top_k_paths(&cube(), a, b, None, GraphDirection::Outbound, 0, 2, false);
    assert_eq!(r.err(), Some(GraphStoreError::InvalidArgument));
    let r = store.top_k_paths(&cube(), a, b + 9, None, GraphDirection::Outbound, 3, 2, false);
    assert_eq!(r.err(), Some(GraphStoreError::NotFound));
    let r = store.top_k_paths(&cube(), a, b, None, GraphDirection::Outbound, 3, 2, false);
    assert!(r.unwrap().is_empty());
    assert_eq!(GraphStoreError::NotFound.message(), "not found");
    assert_eq!(GraphStoreError::InvalidArgument.message(), "invalid argument");
    assert_eq!(GraphStoreError::Internal.message(), "graph store error");
}

#[test]
fn a_cursor_never_brings_back_what_was_delivered() {
    let mut store = InMemoryGraphStore::new();
    let hub = node(&mut store, "hub");
    let a = node(&mut store, "a");
    let b = node(&mut store, "b");
    let e1 = edge(&mut store, hub, a, "rel");
    let e2 = edge(&mut store, hub, b, "rel");
    let first = store.neighbors(&cube(), hub, None, GraphDirection::Outbound, 1, None, false).unwrap();
    assert_eq!(first.1, Some(e1));
    // Writes between two pages: one more neighbor, and the first one gone.
    let c = node(&mut store, "c");
    let e3 = edge(&mut store, hub, c, "rel");
    store.delete_node(&cube(), a).unwrap();
    let rest = store
        .neighbors(&cube(), hub, None, GraphDirection::Outbound, 10, first.1, false)
        .unwrap();
    assert_eq!(rest.0.iter().map(|n| n.edge.id).collect::<Vec<_>>(), vec![e2, e3]);
    assert!(rest.0.iter().all(|n| n.edge.id > e1));
    assert!(rest.1.is_none());
}

#[test]
fn the_graph_of_a_cube_answers_queries() {
    let mut store = InMemoryGraphStore::new();
    let a = node(&mut store, "a");
    let b = node(&mut store, "b");
    edge(&mut store, a, b, "rel");
    assert!(store.graph(&"nowhere".to_string()).is_none());
    let g = store.graph(&cube()).unwrap();
    assert_eq!(g.node_count(), 2);
    assert_eq!(g.edge_count(), 1);
    assert!(g.is_visible(a, false));
    assert!(!g.is_visible(b + 1, true));
    assert_eq!(g.get_node(b, false).unwrap().memory, "b");
}

#[test]
fn unreachable_targets_are_answered_at_any_depth() {
    let mut store = InMemoryGraphStore::new();
    let a = node(&mut store, "a");
    let b = node(&mut store, "b");
    let c = node(&mut store, "c");
    edge(&mut store, b, a, "rel");
    edge(&mut store, b, c, "rel");
    let r = store.shortest_path(&cube(), a, c, None, GraphDirection::Outbound, u32::MAX, false);
    assert!(r.unwrap().is_none());
    let r = store.shortest_path(&cube(), a, c, None, GraphDirection::Both, u32::MAX, false);
    assert_eq!(r.unwrap().unwrap().node_ids, vec![a, b, c]);
}

#[test]
fn top_k_paths_stops_when_no_longer_simple_path_exists() {
    let mut store = InMemoryGraphStore::new();
    let a = node(&mut store, "a");
    let b = node(&mut store, "b");
    let c = node(&mut store, "c");
    let d = node(&mut store, "d");
    edge(&mut store, a, b, "rel");
    edge(&mut store, b, c, "rel");
    edge(&mut store, c, a, "rel");
    edge(&mut store, a, c, "rel");
    let all = store
        .top_k_paths(&cube(), a, c, None, GraphDirection::Outbound, u32::MAX, 100, false)
        .unwrap();
    assert_eq!(all.len(), 2);
    assert_eq!(all[0].node_ids, vec![a, c]);
    assert_eq!(all[1].node_ids, vec![a, b, c]);
    let none = store
        .top_k_paths(&cube(), a, d, None, GraphDirection::Both, u32::MAX, 100, false)
        .unwrap();
    assert!(none.is_empty());
    let both = store
        .top_k_paths(&cube(), a, c, None, GraphDirection::Both, u32::MAX, 100, false)
        .unwrap();
    assert_eq!(
        both.iter().map(|p| p.node_ids.clone()).collect::<Vec<_>>(),
        vec![vec![a, c], vec![a, c], vec![a, b, c]]
    );
}
