use hiveminddb::clock::Timestamp;
use hiveminddb::config::HiveMindConfig;
use hiveminddb::memory_engine::MemoryEngine;
use hiveminddb::persistence::ReplicationEvent;
use hiveminddb::types::{
    AddEntityRequest, AddMemoryRequest, AddRelationshipRequest, AgentStatus, MemoryType,
    Operation, RegisterAgentRequest, SearchRequest, UpdateMemoryRequest,
};

fn test_config() -> HiveMindConfig {
    HiveMindConfig {
        listen_addr: "0.0.0.0:8100".into(),
        rtdb_url: "ws://localhost:3001".into(),
        llm_provider: "test".into(),
        llm_api_key: None,
        llm_model: "test".into(),
        embedding_model: "none:disabled".into(),
        embedding_api_key: None,
        data_dir: "/tmp/hivemind-test".into(),
    }
}

fn null() -> String {
    "null".to_string()
}

fn at(secs: i64) -> Timestamp {
    Timestamp { secs, nanos: 0 }
}

fn add(content: &str, agent: Option<&str>, user: Option<&str>, tags: Vec<&str>) -> AddMemoryRequest {
    AddMemoryRequest {
        content: content.into(),
        memory_type: MemoryType::Fact,
        agent_id: agent.map(|a| a.to_string()),
        user_id: user.map(|u| u.to_string()),
        session_id: None,
        tags: tags.into_iter().map(|t| t.to_string()).collect(),
        metadata: null(),
    }
}

fn query(q: &str, agent: Option<&str>, user: Option<&str>, tags: Vec<&str>, limit: usize) -> SearchRequest {
    SearchRequest {
        query: q.into(),
        agent_id: agent.map(|a| a.to_string()),
        user_id: user.map(|u| u.to_string()),
        tags: tags.into_iter().map(|t| t.to_string()).collect(),
        limit,
        include_graph: false,
    }
}

fn entity(name: &str, kind: &str) -> AddEntityRequest {
    AddEntityRequest {
        name: name.into(),
        entity_type: kind.into(),
        description: None,
        agent_id: None,
        metadata: null(),
    }
}

fn link(a: u64, b: u64, kind: &str) -> AddRelationshipRequest {
    AddRelationshipRequest {
        source_entity_id: a,
        target_entity_id: b,
        relation_type: kind.into(),
        description: None,
        weight: 1_000_000,
        created_by: "test".into(),
        metadata: null(),
    }
}

#[test]
fn test_add_and_get_memory() {
    let mut engine = MemoryEngine::new(test_config());
    let mem = engine.add_memory(AddMemoryRequest {
        content: "User prefers Rust".into(),
        memory_type: MemoryType::Fact,
        agent_id: Some("agent-1".into()),
        user_id: Some("ludde".into()),
        session_id: None,
        tags: vec!["preferences".into()],
        metadata: null(),
    });

    assert_eq!(mem.content, "User prefers Rust");
    assert_eq!(mem.agent_id.as_deref(), Some("agent-1"));

    let retrieved = engine.get_memory(mem.id).unwrap();
    assert_eq!(retrieved.id, mem.id);
    assert_eq!(retrieved.content, "User prefers Rust");
}

#[test]
fn test_update_memory() {
    let mut engine = MemoryEngine::new(test_config());
    let mem = engine.add_memory(AddMemoryRequest {
        content: "User likes Python".into(),
        memory_type: MemoryType::Fact,
        agent_id: None,
        user_id: None,
        session_id: None,
        tags: vec![],
        metadata: null(),
    });

    let updated = engine
        .update_memory(
            mem.id,
            UpdateMemoryRequest {
                content: Some("User prefers Rust over Python".into()),
                tags: Some(vec!["preferences".into(), "languages".into()]),
                confidence: None,
                metadata: None,
            },
            "test-agent",
        )
        .unwrap();

    assert_eq!(updated.content, "User prefers Rust over Python");
    assert_eq!(updated.tags, vec!["preferences", "languages"]);
}

#[test]
fn test_invalidate_memory() {
    let mut engine = MemoryEngine::new(test_config());
    let mem = engine.add_memory(AddMemoryRequest {
        content: "User works at Acme".into(),
        memory_type: MemoryType::Fact,
        agent_id: None,
        user_id: Some("ludde".into()),
        session_id: None,
        tags: vec![],
        metadata: null(),
    });

    let invalidated = engine
        .invalidate_memory(mem.id, "User changed jobs", "agent-1")
        .unwrap();
    assert!(invalidated.valid_until.is_some());

    let results = engine.search(&SearchRequest {
        query: "works at Acme".into(),
        agent_id: None,
        user_id: None,
        tags: vec![],
        limit: 10,
        include_graph: false,
    });
    assert!(results.is_empty());
}

#[test]
fn test_memory_history() {
    let mut engine = MemoryEngine::new(test_config());
    let mem = engine.add_memory(AddMemoryRequest {
        content: "Original".into(),
        memory_type: MemoryType::Fact,
        agent_id: None,
        user_id: None,
        session_id: None,
        tags: vec![],
        metadata: null(),
    });

    engine.update_memory(
        mem.id,
        UpdateMemoryRequest {
            content: Some("Updated".into()),
            tags: None,
            confidence: None,
            metadata: None,
        },
        "test",
    );

    engine.invalidate_memory(mem.id, "outdated", "test");

    let history = engine.get_memory_history(mem.id);
    assert_eq!(history.len(), 3);
    assert_eq!(history[0].operation, Operation::Add);
    assert_eq!(history[1].operation, Operation::Update);
    assert_eq!(history[2].operation, Operation::Invalidate);
}

#[test]
fn test_search_basic() {
    let mut engine = MemoryEngine::new(test_config());

    engine.add_memory(AddMemoryRequest {
        content: "User prefers dark mode".into(),
        memory_type: MemoryType::Fact,
        agent_id: None,
        user_id: Some("ludde".into()),
        session_id: None,
        tags: vec!["preferences".into(), "ui".into()],
        metadata: null(),
    });

    engine.add_memory(AddMemoryRequest {
        content: "User likes Italian food".into(),
        memory_type: MemoryType::Fact,
        agent_id: None,
        user_id: Some("ludde".into()),
        session_id: None,
        tags: vec!["preferences".into(), "food".into()],
        metadata: null(),
    });

    engine.add_memory(AddMemoryRequest {
        content: "RaftTimeDB uses openraft".into(),
        memory_type: MemoryType::Semantic,
        agent_id: None,
        user_id: None,
        session_id: None,
        tags: vec!["technical".into()],
        metadata: null(),
    });

    let results = engine.search(&SearchRequest {
        query: "dark mode".into(),
        agent_id: None,
        user_id: None,
        tags: vec![],
        limit: 10,
        include_graph: false,
    });
    assert_eq!(results.len(), 1);
    assert!(results[0].memory.content.contains("dark mode"));

    let results = engine.search(&SearchRequest {
        query: "preferences".into(),
        agent_id: None,
        user_id: None,
        tags: vec!["preferences".into()],
        limit: 10,
        include_graph: false,
    });
    assert_eq!(results.len(), 2);
}

#[test]
fn test_search_filters_by_user() {
    let mut engine = MemoryEngine::new(test_config());

    engine.add_memory(AddMemoryRequest {
        content: "Alice prefers cats".into(),
        memory_type: MemoryType::Fact,
        agent_id: None,
        user_id: Some("alice".into()),
        session_id: None,
        tags: vec![],
        metadata: null(),
    });

    engine.add_memory(AddMemoryRequest {
        content: "Bob prefers dogs".into(),
        memory_type: MemoryType::Fact,
        agent_id: None,
        user_id: Some("bob".into()),
        session_id: None,
        tags: vec![],
        metadata: null(),
    });

    let results = engine.search(&SearchRequest {
        query: "prefers".into(),
        agent_id: None,
        user_id: Some("alice".into()),
        tags: vec![],
        limit: 10,
        include_graph: false,
    });
    assert_eq!(results.len(), 1);
    assert!(results[0].memory.content.contains("cats"));
}

#[test]
fn test_add_entity_and_relationship() {
    let mut engine = MemoryEngine::new(test_config());

    let alice = engine.add_entity(AddEntityRequest {
        name: "Alice".into(),
        entity_type: "Person".into(),
        description: None,
        agent_id: None,
        metadata: null(),
    });

    let rafttimedb = engine.add_entity(AddEntityRequest {
        name: "RaftTimeDB".into(),
        entity_type: "Project".into(),
        description: Some("Distributed clustering for SpacetimeDB".into()),
        agent_id: None,
        metadata: null(),
    });

    let rel = engine.add_relationship(AddRelationshipRequest {
        source_entity_id: alice.id,
        target_entity_id: rafttimedb.id,
        relation_type: "maintains".into(),
        description: None,
        weight: 1_000_000,
        created_by: "test".into(),
        metadata: null(),
    });

    assert_eq!(rel.source_entity_id, alice.id);
    assert_eq!(rel.target_entity_id, rafttimedb.id);

    let rels = engine.get_entity_relationships(alice.id);
    assert_eq!(rels.len(), 1);
    assert_eq!(rels[0].1.name, "RaftTimeDB");
}

#[test]
fn test_graph_traversal() {
    let mut engine = MemoryEngine::new(test_config());

    let a = engine.add_entity(entity("A", "Node"));
    let b = engine.add_entity(entity("B", "Node"));
    let c = engine.add_entity(entity("C", "Node"));

    engine.add_relationship(link(a.id, b.id, "connects"));
    engine.add_relationship(link(b.id, c.id, "connects"));

    let result = engine.traverse(a.id, 1);
    let names: Vec<&str> = result.iter().map(|(e, _)| e.name.as_str()).collect();
    assert!(names.contains(&"A"));
    assert!(names.contains(&"B"));
    assert!(!names.contains(&"C"));

    let result = engine.traverse(a.id, 2);
    let names: Vec<&str> = result.iter().map(|(e, _)| e.name.as_str()).collect();
    assert!(names.contains(&"A"));
    assert!(names.contains(&"B"));
    assert!(names.contains(&"C"));
}

#[test]
fn test_find_entity_by_name() {
    let mut engine = MemoryEngine::new(test_config());

    engine.add_entity(AddEntityRequest {
        name: "RaftTimeDB".into(),
        entity_type: "Project".into(),
        description: None,
        agent_id: None,
        metadata: null(),
    });

    let found = engine.find_entity_by_name("rafttimedb").unwrap();
    assert_eq!(found.name, "RaftTimeDB");
    assert!(engine.find_entity_by_name("nonexistent").is_none());
}

#[test]
fn test_register_agent() {
    let mut engine = MemoryEngine::new(test_config());

    let agent = engine.register_agent(RegisterAgentRequest {
        agent_id: "worker-1".into(),
        name: "Worker 1".into(),
        agent_type: "coder".into(),
        capabilities: vec!["coding".into(), "research".into()],
        metadata: null(),
    });

    assert_eq!(agent.agent_id, "worker-1");
    assert_eq!(agent.status, AgentStatus::Online);

    let agents = engine.list_agents();
    assert_eq!(agents.len(), 1);
}

#[test]
fn test_stats() {
    let mut engine = MemoryEngine::new(test_config());

    engine.add_memory(add("Test", None, None, vec![]));
    engine.add_entity(entity("Test", "Thing"));

    let stats = engine.stats();
    assert_eq!(stats.memories, 1);
    assert_eq!(stats.entities, 1);
    assert_eq!(stats.valid_memories, 1);
    assert_eq!(stats.relationships, 0);
    assert_eq!(stats.episodes, 0);
    assert_eq!(stats.agents, 0);
    assert!(!stats.replication_enabled);
}

#[test]
fn test_snapshot_roundtrip() {
    let mut engine = MemoryEngine::new(test_config());

    engine.add_memory(AddMemoryRequest {
        content: "Snapshot test memory".into(),
        memory_type: MemoryType::Fact,
        agent_id: Some("agent-1".into()),
        user_id: Some("user-1".into()),
        session_id: None,
        tags: vec!["test".into()],
        metadata: null(),
    });

    engine.add_entity(AddEntityRequest {
        name: "SnapshotEntity".into(),
        entity_type: "Test".into(),
        description: None,
        agent_id: None,
        metadata: null(),
    });

    let snapshot = engine.create_snapshot();
    assert_eq!(snapshot.memories.len(), 1);
    assert_eq!(snapshot.entities.len(), 1);

    // Restore into a new engine
    let mut engine2 = MemoryEngine::new(test_config());
    engine2.restore_from_snapshot(snapshot);

    assert_eq!(engine2.get_memory(1).unwrap().content, "Snapshot test memory");
    assert_eq!(engine2.find_entity_by_name("SnapshotEntity").unwrap().name, "SnapshotEntity");

    // IDs should continue past the restored state
    let new_mem = engine2.add_memory(add("New memory after restore", None, None, vec![]));
    assert!(new_mem.id > 1);
}

#[test]
fn scenario_history_of_one_memory() {
    let mut engine = MemoryEngine::new(test_config());
    let m = engine.add_memory(add("User likes Python", None, None, vec![]));
    assert_eq!(m.id, 1);
    let updated = engine
        .update_memory(
            1,
            UpdateMemoryRequest {
                content: Some("User prefers Rust over Python".into()),
                tags: Some(vec!["preferences".into(), "languages".into()]),
                confidence: None,
                metadata: None,
            },
            "test-agent",
        )
        .unwrap();
    assert_eq!(updated.content, "User prefers Rust over Python");
    engine.invalidate_memory(1, "outdated", "test");
    let history = engine.get_memory_history(1);
    assert_eq!(history.len(), 3);
    let ops: Vec<Operation> = history.iter().map(|h| h.operation).collect();
    assert_eq!(ops, vec![Operation::Add, Operation::Update, Operation::Invalidate]);
    assert_eq!(history[0].reason, "Initial creation");
    assert_eq!(history[0].old_content, None);
    assert_eq!(history[0].changed_by, "unknown");
    assert_eq!(history[1].reason, "Manual update");
    assert_eq!(history[1].old_content.as_deref(), Some("User likes Python"));
    assert_eq!(history[1].new_content, "User prefers Rust over Python");
    assert_eq!(history[1].changed_by, "test-agent");
    assert_eq!(history[2].reason, "outdated");
    assert_eq!(history[2].changed_by, "test");
    assert_eq!(history[2].new_content, "User prefers Rust over Python");
    let ids: Vec<u64> = history.iter().map(|h| h.id).collect();
    assert_eq!(ids, vec![1, 2, 3]);
}

#[test]
fn scenario_search_and_filter() {
    let mut engine = MemoryEngine::new(test_config());
    engine.add_memory(add("User prefers dark mode", None, Some("ludde"), vec!["preferences", "ui"]));
    engine.add_memory(add("User likes Italian food", None, Some("ludde"), vec!["preferences", "food"]));
    engine.add_memory(add("RaftTimeDB uses openraft", None, None, vec!["technical"]));
    let hits = engine.search(&query("dark mode", None, None, vec![], 10));
    assert_eq!(hits.len(), 1);
    assert!(hits[0].memory.content.contains("dark mode"));
    let hits = engine.search(&query("preferences", None, None, vec!["preferences"], 10));
    assert_eq!(hits.len(), 2);
}

#[test]
fn scenario_snapshot_round_trip() {
    let mut engine = MemoryEngine::new(test_config());
    engine.add_memory_at(add("Rust is great", None, None, vec![]), at(10));
    engine.add_entity_at(entity("SnapshotEntity", "Test"), at(11));
    let snapshot = engine.create_snapshot_at(at(12));
    assert_eq!(snapshot.version, 2);
    assert_eq!(snapshot.created_at, at(12));
    assert!(snapshot.is_restorable());
    assert_eq!(snapshot.history.len(), 1);
    assert!(snapshot.channels.is_empty());
    let mut fresh = MemoryEngine::new(test_config());
    fresh.restore_from_snapshot(snapshot);
    assert_eq!(fresh.get_memory(1).unwrap().content, "Rust is great");
    assert_eq!(fresh.get_entity(1).unwrap().name, "SnapshotEntity");
    assert_eq!(fresh.get_memory_history(1).len(), 1);
    let next = fresh.add_memory(add("after", None, None, vec![]));
    assert!(next.id >= 2);
    assert_eq!(next.id, 2);
    assert_eq!(fresh.get_memory_history(2)[0].id, 2);
}

#[test]
fn memory_fields_at_creation() {
    let mut engine = MemoryEngine::new(test_config());
    let m = engine.add_memory_at(add("fact", Some("agent-7"), Some("u"), vec!["t"]), at(100));
    assert_eq!(m.id, 1);
    assert_eq!(m.source, "agent-7");
    assert_eq!(m.confidence, 1_000_000);
    assert_eq!(m.created_at, at(100));
    assert_eq!(m.updated_at, at(100));
    assert_eq!(m.valid_from, at(100));
    assert_eq!(m.valid_until, None);
    assert_eq!(m.metadata, "null");
    let anonymous = engine.add_memory_at(add("other", None, None, vec![]), at(101));
    assert_eq!(anonymous.id, 2);
    assert_eq!(anonymous.source, "unknown");
    assert!(engine.get_memory(3).is_none());
    assert!(engine.get_memory_history(3).is_empty());
}

#[test]
fn update_replaces_named_fields_only() {
    let mut engine = MemoryEngine::new(test_config());
    engine.add_memory_at(add("a", Some("ag"), Some("us"), vec!["x"]), at(1));
    let u = engine
        .update_memory_at(
            1,
            UpdateMemoryRequest { content: None, tags: None, confidence: Some(2_500_000), metadata: Some("{}".into()) },
            "me",
            at(5),
        )
        .unwrap();
    assert_eq!(u.content, "a");
    assert_eq!(u.tags, vec!["x"]);
    assert_eq!(u.confidence, 1_000_000);
    assert_eq!(u.metadata, "{}");
    assert_eq!(u.updated_at, at(5));
    assert_eq!(u.created_at, at(1));
    assert_eq!(u.valid_from, at(1));
    assert_eq!(u.id, 1);
    assert_eq!(u.agent_id.as_deref(), Some("ag"));
    let low = engine
        .update_memory_at(
            1,
            UpdateMemoryRequest { content: None, tags: None, confidence: Some(250_000), metadata: None },
            "me",
            at(6),
        )
        .unwrap();
    assert_eq!(low.confidence, 250_000);
    assert!(engine
        .update_memory_at(9, UpdateMemoryRequest { content: None, tags: None, confidence: None, metadata: None }, "me", at(7))
        .is_none());
    assert_eq!(engine.get_memory_history(1).len(), 3);
    assert!(engine.get_memory_history(9).is_empty());
}

#[test]
fn invalidation_sets_the_end_and_repeats_overwrite_it() {
    let mut engine = MemoryEngine::new(test_config());
    engine.add_memory_at(add("a", None, None, vec![]), at(50));
    let first = engine.invalidate_memory_at(1, "r1", "w", at(60)).unwrap();
    assert_eq!(first.valid_until, Some(at(60)));
    assert_eq!(first.updated_at, at(60));
    let second = engine.invalidate_memory_at(1, "r2", "w", at(70)).unwrap();
    assert_eq!(second.valid_until, Some(at(70)));
    let ops: Vec<Operation> = engine.get_memory_history(1).iter().map(|h| h.operation).collect();
    assert_eq!(ops, vec![Operation::Add, Operation::Invalidate, Operation::Invalidate]);
    assert!(engine.invalidate_memory_at(2, "r", "w", at(80)).is_none());
}

#[test]
fn a_clock_that_runs_backwards_does_not_end_validity_before_its_start() {
    let mut engine = MemoryEngine::new(test_config());
    engine.add_memory_at(add("a", None, None, vec![]), at(50));
    let gone = engine.invalidate_memory_at(1, "r", "w", at(40)).unwrap();
    assert_eq!(gone.valid_until, Some(at(50)));
    let stamps: Vec<Timestamp> = engine.get_memory_history(1).iter().map(|h| h.timestamp).collect();
    assert_eq!(stamps, vec![at(50), at(50)]);
    assert!(Timestamp { secs: 1, nanos: 5 }.not_after(&Timestamp { secs: 1, nanos: 5 }));
    assert!(Timestamp { secs: 1, nanos: 5 }.not_after(&Timestamp { secs: 1, nanos: 6 }));
    assert!(!Timestamp { secs: 2, nanos: 0 }.not_after(&Timestamp { secs: 1, nanos: 6 }));
    assert!(Timestamp { secs: -3, nanos: 9 }.not_after(&Timestamp { secs: 1, nanos: 0 }));
    assert_eq!(Timestamp::later_of(at(3), at(2)), at(3));
}

#[test]
fn listing_filters() {
    let mut engine = MemoryEngine::new(test_config());
    engine.add_memory(add("one", Some("a1"), Some("u1"), vec![]));
    engine.add_memory(add("two", Some("a2"), Some("u1"), vec![]));
    engine.add_memory(add("three", None, None, vec![]));
    engine.invalidate_memory(2, "x", "y");
    let all: Vec<u64> = engine.list_memories(None, None, true).iter().map(|m| m.id).collect();
    assert_eq!(all, vec![1, 2, 3]);
    let current: Vec<u64> = engine.list_memories(None, None, false).iter().map(|m| m.id).collect();
    assert_eq!(current, vec![1, 3]);
    let of_u1: Vec<u64> = engine.list_memories(None, Some("u1"), true).iter().map(|m| m.id).collect();
    assert_eq!(of_u1, vec![1, 2]);
    let of_a2: Vec<u64> = engine.list_memories(Some("a2"), None, false).iter().map(|m| m.id).collect();
    assert!(of_a2.is_empty());
    let both: Vec<u64> = engine.list_memories(Some("a1"), Some("u1"), false).iter().map(|m| m.id).collect();
    assert_eq!(both, vec![1]);
}

#[test]
fn relationships_skip_missing_and_ended_endpoints() {
    let mut engine = MemoryEngine::new(test_config());
    let a = engine.add_entity(entity("A", "Node"));
    let b = engine.add_entity(entity("B", "Node"));
    engine.add_relationship(link(a.id, b.id, "knows"));
    engine.add_relationship(link(99, a.id, "ghost"));
    engine.add_relationship(link(b.id, a.id, "back"));
    let of_a = engine.get_entity_relationships(a.id);
    let kinds: Vec<&str> = of_a.iter().map(|(r, _)| r.relation_type.as_str()).collect();
    assert_eq!(kinds, vec!["knows", "back"]);
    assert!(of_a.iter().all(|(_, e)| e.name == "B"));
    assert!(engine.get_entity_relationships(12345).is_empty());
    let touching: Vec<u64> = engine.incident_to(a.id).iter().map(|r| r.id).collect();
    assert_eq!(touching, vec![1, 2, 3]);
    assert!(engine.get_entity(3).is_none());
    let rel = engine.add_relationship_at(link(1, 2, "k"), at(9));
    assert_eq!(rel.id, 4);
    assert_eq!(rel.valid_from, at(9));
    assert_eq!(rel.valid_until, None);
    assert_eq!(rel.weight, 1_000_000);
}

#[test]
fn traversal_handles_cycles_depth_zero_and_unknown_start() {
    let mut engine = MemoryEngine::new(test_config());
    let a = engine.add_entity(entity("A", "Node"));
    let b = engine.add_entity(entity("B", "Node"));
    let c = engine.add_entity(entity("C", "Node"));
    let d = engine.add_entity(entity("D", "Node"));
    engine.add_relationship(link(a.id, b.id, "e"));
    engine.add_relationship(link(b.id, c.id, "e"));
    engine.add_relationship(link(c.id, a.id, "e"));
    engine.add_relationship(link(c.id, d.id, "e"));
    engine.add_relationship(link(d.id, 77, "e"));
    let only: Vec<u64> = engine.traverse(a.id, 0).iter().map(|(e, _)| e.id).collect();
    assert_eq!(only, vec![a.id]);
    let mut one: Vec<u64> = engine.traverse(a.id, 1).iter().map(|(e, _)| e.id).collect();
    one.sort();
    assert_eq!(one, vec![a.id, b.id, c.id]);
    let mut two: Vec<u64> = engine.traverse(a.id, 2).iter().map(|(e, _)| e.id).collect();
    two.sort();
    assert_eq!(two, vec![a.id, b.id, c.id, d.id]);
    let mut far: Vec<u64> = engine.traverse(a.id, usize::MAX).iter().map(|(e, _)| e.id).collect();
    far.sort();
    assert_eq!(far, vec![a.id, b.id, c.id, d.id]);
    assert!(engine.traverse(77, 3).is_empty());
    let walk = engine.traverse(d.id, 1);
    let of_d = walk.iter().find(|(e, _)| e.id == d.id).unwrap();
    let ids: Vec<u64> = of_d.1.iter().map(|r| r.id).collect();
    assert_eq!(ids, vec![4, 5]);
}

#[test]
fn a_node_two_hops_away_is_found_whichever_way_is_walked_first() {
    let mut engine = MemoryEngine::new(test_config());
    let a = engine.add_entity(entity("A", "Node"));
    let b = engine.add_entity(entity("B", "Node"));
    let c = engine.add_entity(entity("C", "Node"));
    let x = engine.add_entity(entity("X", "Node"));
    engine.add_relationship(link(a.id, b.id, "e"));
    engine.add_relationship(link(a.id, c.id, "e"));
    engine.add_relationship(link(c.id, b.id, "e"));
    engine.add_relationship(link(b.id, x.id, "e"));
    let mut two: Vec<u64> = engine.traverse(a.id, 2).iter().map(|(e, _)| e.id).collect();
    two.sort();
    assert_eq!(two, vec![a.id, b.id, c.id, x.id]);
}

#[test]
fn agents_register_again_and_send_heartbeats() {
    let mut engine = MemoryEngine::new(test_config());
    let reg = |name: &str| RegisterAgentRequest {
        agent_id: "a".into(),
        name: name.into(),
        agent_type: "t".into(),
        capabilities: vec![],
        metadata: null(),
    };
    let first = engine.register_agent_at(reg("first"), at(1));
    assert_eq!(first.last_seen, at(1));
    assert_eq!(first.memory_count, 0);
    engine.register_agent_at(reg("second"), at(2));
    assert_eq!(engine.list_agents().len(), 1);
    assert_eq!(engine.get_agent("a").unwrap().name, "second");
    engine.heartbeat_agent_at("a", at(9));
    let a = engine.get_agent("a").unwrap();
    assert_eq!(a.last_seen, at(9));
    assert_eq!(a.status, AgentStatus::Online);
    engine.heartbeat_agent_at("nobody", at(10));
    engine.heartbeat_agent("a");
    assert!(engine.get_agent("nobody").is_none());
    assert_eq!(engine.list_agents().len(), 1);
}

#[test]
fn replication_events_are_queued_in_order_when_enabled() {
    let mut engine = MemoryEngine::new(test_config());
    engine.add_memory(add("quiet", None, None, vec![]));
    assert!(engine.take_replication_events().is_empty());
    engine.set_replication(true);
    assert!(engine.stats().replication_enabled);
    engine.add_memory(add("loud", None, None, vec![]));
    engine.update_memory(2, UpdateMemoryRequest { content: Some("louder".into()), tags: None, confidence: None, metadata: None }, "x");
    engine.invalidate_memory(2, "why", "x");
    engine.add_entity(entity("E", "T"));
    engine.add_relationship(link(1, 1, "self"));
    engine.register_agent(RegisterAgentRequest {
        agent_id: "a".into(),
        name: "n".into(),
        agent_type: "t".into(),
        capabilities: vec![],
        metadata: null(),
    });
    let events = engine.take_replication_events();
    assert_eq!(events.len(), 6);
    assert!(matches!(&events[0], ReplicationEvent::MemoryAdded { memory } if memory.id == 2));
    assert!(matches!(&events[1], ReplicationEvent::MemoryUpdated { memory } if memory.content == "louder"));
    assert!(matches!(&events[2], ReplicationEvent::MemoryInvalidated { memory_id: 2, reason } if reason == "why"));
    assert!(matches!(&events[3], ReplicationEvent::EntityAdded { entity } if entity.name == "E"));
    assert!(matches!(&events[4], ReplicationEvent::RelationshipAdded { relationship } if relationship.id == 1));
    assert!(matches!(&events[5], ReplicationEvent::AgentRegistered { agent } if agent.agent_id == "a"));
    assert!(engine.take_replication_events().is_empty());
    assert_eq!(engine.config().data_dir, "/tmp/hivemind-test");
}

#[test]
fn restore_overwrites_by_id_and_raises_counters() {
    let mut source = MemoryEngine::new(test_config());
    for i in 0..3 {
        source.add_memory(add(&format!("m{}", i), None, None, vec![]));
    }
    source.create_task(hiveminddb::types::CreateTaskRequest {
        title: "t".into(),
        description: "d".into(),
        priority: 1,
        required_capabilities: vec![],
        created_by: "c".into(),
        dependencies: vec![],
        deadline: None,
        metadata: null(),
    });
    let snapshot = source.create_snapshot();
    let mut target = MemoryEngine::new(test_config());
    target.add_memory(add("local", None, None, vec![]));
    target.restore_from_snapshot(snapshot);
    assert_eq!(target.get_memory(1).unwrap().content, "m0");
    assert_eq!(target.list_memories(None, None, true).len(), 3);
    assert_eq!(target.add_memory(add("next", None, None, vec![])).id, 4);
    assert_eq!(target.get_task(1).unwrap().title, "t");
    assert_eq!(target.get_task_events(1).len(), 1);
    assert_eq!(target.get_memory_history(1).len(), 1);
    assert_eq!(target.get_memory_history(1)[0].new_content, "m0");
}

#[test]
fn the_clock_stamps_a_present_time() {
    let mut engine = MemoryEngine::new(test_config());
    let m = engine.add_memory(add("now", None, None, vec![]));
    assert!(m.created_at.secs > 1_700_000_000);
    assert!(m.created_at.nanos < 2_000_000_000);
    assert_eq!(m.created_at, m.valid_from);
    assert_eq!(m.created_at, m.updated_at);
    let later = engine.invalidate_memory(1, "r", "w").unwrap();
    assert!(m.valid_from.not_after(&later.valid_until.unwrap()));
}
