use hiveminddb::clock::Timestamp;
use hiveminddb::config::HiveMindConfig;
use hiveminddb::memory_engine::MemoryEngine;
use hiveminddb::types::{
    AddEntityRequest, AddMemoryRequest, AddRelationshipRequest, CreateTaskRequest, MemoryType,
    Operation, SearchRequest, UpdateMemoryRequest,
};

fn engine() -> MemoryEngine {
    MemoryEngine::new(HiveMindConfig {
        listen_addr: "".into(),
        rtdb_url: "".into(),
        llm_provider: "test".into(),
        llm_api_key: None,
        llm_model: "test".into(),
        embedding_model: "none:disabled".into(),
        embedding_api_key: None,
        data_dir: "".into(),
    })
}

fn add(content: &str) -> AddMemoryRequest {
    AddMemoryRequest {
        content: content.into(),
        memory_type: MemoryType::Fact,
        agent_id: None,
        user_id: None,
        session_id: None,
        tags: vec!["tag".into()],
        metadata: "null".into(),
    }
}

fn query(q: &str) -> SearchRequest {
    SearchRequest { query: q.into(), agent_id: None, user_id: None, tags: vec![], limit: 10, include_graph: false }
}

#[test]
fn ids_of_every_kind_grow_strictly() {
    let mut e = engine();
    let mut last = (0, 0, 0, 0);
    for i in 0..5 {
        let m = e.add_memory(add(&format!("m{}", i)));
        let en = e.add_entity(AddEntityRequest {
            name: format!("e{}", i),
            entity_type: "T".into(),
            description: None,
            agent_id: None,
            metadata: "null".into(),
        });
        let r = e.add_relationship(AddRelationshipRequest {
            source_entity_id: 1,
            target_entity_id: 1,
            relation_type: "r".into(),
            description: None,
            weight: 1,
            created_by: "c".into(),
            metadata: "null".into(),
        });
        let t = e.create_task(CreateTaskRequest {
            title: "t".into(),
            description: "d".into(),
            priority: 0,
            required_capabilities: vec![],
            created_by: "c".into(),
            dependencies: vec![],
            deadline: None,
            metadata: "null".into(),
        });
        assert!(m.id > last.0 && en.id > last.1 && r.id > last.2 && t.id > last.3);
        last = (m.id, en.id, r.id, t.id);
    }
    assert_eq!(last, (5, 5, 5, 5));
}

#[test]
fn after_a_restore_new_ids_lie_above_the_snapshot() {
    let mut source = engine();
    for i in 0..4 {
        source.add_memory(add(&format!("m{}", i)));
    }
    source.update_memory(2, UpdateMemoryRequest { content: Some("x".into()), tags: None, confidence: None, metadata: None }, "w");
    let mut snapshot = source.create_snapshot();
    // ids in a snapshot need not be dense or in order
    snapshot.memories[0].id = 40;
    snapshot.memories.swap(0, 3);
    snapshot.history[0].1[0].id = 70;
    assert!(snapshot.is_restorable());
    let mut target = engine();
    target.restore_from_snapshot(snapshot);
    let m = target.add_memory(add("new"));
    assert_eq!(m.id, 41);
    assert_eq!(target.get_memory_history(41)[0].id, 71);
    let mut too_big = source.create_snapshot();
    too_big.memories[1].id = u64::MAX;
    assert!(!too_big.is_restorable());
}

#[test]
fn history_only_grows() {
    let mut e = engine();
    e.add_memory_at(add("a"), Timestamp { secs: 10, nanos: 0 });
    e.add_memory_at(add("b"), Timestamp { secs: 11, nanos: 0 });
    let mut seen: Vec<(u64, Operation, String, Timestamp)> = vec![];
    for step in 0..6i64 {
        let now = Timestamp { secs: 20 - step, nanos: 0 };
        if step % 2 == 0 {
            e.update_memory_at(1, UpdateMemoryRequest { content: Some(format!("a{}", step)), tags: None, confidence: None, metadata: None }, "w", now);
        } else {
            e.update_memory_at(2, UpdateMemoryRequest { content: None, tags: None, confidence: None, metadata: None }, "w", now);
        }
        let h: Vec<(u64, Operation, String, Timestamp)> = e
            .get_memory_history(1)
            .into_iter()
            .map(|x| (x.id, x.operation, x.new_content, x.timestamp))
            .collect();
        assert!(h.len() >= seen.len());
        assert_eq!(h[..seen.len()].to_vec(), seen);
        assert!(h.windows(2).all(|w| w[0].3.not_after(&w[1].3)));
        seen = h;
    }
    e.invalidate_memory(1, "r", "w");
    let ops: Vec<Operation> = e.get_memory_history(1).iter().map(|h| h.operation).collect();
    assert_eq!(ops.first(), Some(&Operation::Add));
    assert_eq!(ops.iter().filter(|o| **o == Operation::Add).count(), 1);
    assert_eq!(ops.iter().filter(|o| **o == Operation::Invalidate).count(), 1);
    assert_eq!(ops.last(), Some(&Operation::Invalidate));
    assert!(ops[1..ops.len() - 1].iter().all(|o| *o == Operation::Update));
}

#[test]
fn an_invalidated_memory_is_listed_but_never_found() {
    let mut e = engine();
    e.add_memory(add("find me please"));
    e.add_memory(add("find me too"));
    assert_eq!(e.search(&query("find")).len(), 2);
    e.invalidate_memory(1, "r", "w");
    for q in ["find", "find me please", "", "tag", "please"] {
        assert!(e.search(&query(q)).iter().all(|h| h.memory.id != 1 && h.memory.valid_until.is_none()));
        let hybrid = e.search_hybrid(&query(q), &vec![(1, 1_000_000), (2, 900_000)]);
        assert!(hybrid.iter().all(|h| h.memory.id != 1));
    }
    let listed: Vec<u64> = e.list_memories(None, None, true).iter().map(|m| m.id).collect();
    assert_eq!(listed, vec![1, 2]);
    assert!(e.get_memory(1).unwrap().valid_until.is_some());
}

#[test]
fn the_same_search_gives_the_same_results() {
    let mut e = engine();
    for c in ["b rust", "a rust", "rust", "rust c", "no match", "RUST d"] {
        e.add_memory(add(c));
    }
    e.invalidate_memory(2, "r", "w");
    let first: Vec<(u64, i64, String)> =
        e.search(&query("rust")).into_iter().map(|h| (h.memory.id, h.score, h.memory.content)).collect();
    for _ in 0..5 {
        let again: Vec<(u64, i64, String)> =
            e.search(&query("rust")).into_iter().map(|h| (h.memory.id, h.score, h.memory.content)).collect();
        assert_eq!(again, first);
    }
    assert_eq!(first.iter().map(|x| x.0).collect::<Vec<u64>>(), vec![1, 3, 4, 6]);
}
