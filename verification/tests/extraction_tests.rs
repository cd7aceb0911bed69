use hiveminddb::clock::Timestamp;
use hiveminddb::config::HiveMindConfig;
use hiveminddb::extraction::{
    actor_of, ExtractedEntity, ExtractedFact, ExtractedRelationship, ExtractionOperation,
    ExtractionResult,
};
use hiveminddb::memory_engine::MemoryEngine;
use hiveminddb::types::{
    AddEntityRequest, AddMemoryRequest, ConversationMessage, ExtractRequest, MemoryType, Operation,
};

fn engine() -> MemoryEngine {
    MemoryEngine::new(HiveMindConfig {
        listen_addr: "".into(),
        rtdb_url: "".into(),
        llm_provider: "test".into(),
        llm_api_key: None,
        llm_model: "test".into(),
        embedding_model: "none:disabled".into(),
        embedding_api_key: None,
        data_dir: "".into(),
    })
}

fn request(agent: Option<&str>) -> ExtractRequest {
    ExtractRequest {
        messages: vec![ConversationMessage { role: "user".into(), content: "hi".into() }],
        agent_id: agent.map(|a| a.to_string()),
        user_id: Some("u".into()),
        session_id: Some("s".into()),
    }
}

fn fact(content: &str, operation: ExtractionOperation, target: Option<u64>) -> ExtractedFact {
    ExtractedFact {
        content: content.into(),
        memory_type: MemoryType::Semantic,
        confidence: 950_000,
        tags: vec!["t".into()],
        operation,
        updates_memory_id: target,
    }
}

fn named(name: &str) -> ExtractedEntity {
    ExtractedEntity { name: name.into(), entity_type: "Thing".into(), description: Some("d".into()) }
}

fn rel(a: &str, b: &str) -> ExtractedRelationship {
    ExtractedRelationship {
        source_entity: a.into(),
        target_entity: b.into(),
        relation_type: "prefers".into(),
        description: None,
    }
}

#[test]
fn facts_are_added_updated_or_skipped() {
    let mut e = engine();
    e.add_memory(AddMemoryRequest {
        content: "User likes Python".into(),
        memory_type: MemoryType::Fact,
        agent_id: None,
        user_id: None,
        session_id: None,
        tags: vec![],
        metadata: "null".into(),
    });
    let result = ExtractionResult {
        facts: vec![
            fact("User prefers Rust over Python", ExtractionOperation::Add, None),
            fact("User likes Python a lot", ExtractionOperation::Update, Some(1)),
            fact("already known", ExtractionOperation::Noop, None),
            fact("update without a target", ExtractionOperation::Update, None),
            fact("update of nothing", ExtractionOperation::Update, Some(99)),
            fact("add with a target is an add", ExtractionOperation::Add, Some(1)),
        ],
        entities: vec![],
        relationships: vec![],
    };
    let resp = e.extract_and_store_at(&request(Some("agent-1")), &result, Timestamp { secs: 9, nanos: 0 });
    assert_eq!(resp.skipped, 1);
    let added: Vec<(u64, &str)> = resp.memories_added.iter().map(|m| (m.id, m.content.as_str())).collect();
    assert_eq!(
        added,
        vec![(2, "User prefers Rust over Python"), (3, "update without a target"), (4, "add with a target is an add")]
    );
    assert_eq!(resp.memories_updated.len(), 1);
    assert_eq!(resp.memories_updated[0].id, 1);
    assert_eq!(resp.memories_updated[0].content, "User likes Python a lot");
    assert_eq!(resp.memories_updated[0].confidence, 950_000);
    assert_eq!(resp.memories_updated[0].tags, vec!["t"]);
    let m = &resp.memories_added[0];
    assert_eq!(m.memory_type, MemoryType::Semantic);
    assert_eq!(m.agent_id.as_deref(), Some("agent-1"));
    assert_eq!(m.user_id.as_deref(), Some("u"));
    assert_eq!(m.session_id.as_deref(), Some("s"));
    assert_eq!(m.source, "agent-1");
    assert_eq!(m.metadata, "{\"confidence\":0.950000,\"extracted\":true}");
    assert_eq!(m.created_at, Timestamp { secs: 9, nanos: 0 });
    let h = e.get_memory_history(1);
    assert_eq!(h.len(), 2);
    assert_eq!(h[1].operation, Operation::Update);
    assert_eq!(h[1].changed_by, "agent-1");
    assert_eq!(e.list_memories(None, None, true).len(), 4);
    assert!(resp.entities_added.is_empty());
    assert!(resp.relationships_added.is_empty());
}

#[test]
fn entities_are_added_once_and_relationships_need_both_ends() {
    let mut e = engine();
    e.add_entity(AddEntityRequest {
        name: "Rust".into(),
        entity_type: "Language".into(),
        description: None,
        agent_id: None,
        metadata: "null".into(),
    });
    let result = ExtractionResult {
        facts: vec![],
        entities: vec![named("RUST"), named("User"), named("user"), named("Python")],
        relationships: vec![rel("user", "rust"), rel("User", "Go"), rel("Nobody", "Rust"), rel("PYTHON", "USER")],
    };
    let resp = e.extract_and_store(&request(None), &result);
    let names: Vec<(u64, &str)> = resp.entities_added.iter().map(|x| (x.id, x.name.as_str())).collect();
    assert_eq!(names, vec![(2, "User"), (3, "Python")]);
    assert_eq!(resp.entities_added[0].metadata, "{\"extracted\":true}");
    assert_eq!(resp.entities_added[0].entity_type, "Thing");
    assert_eq!(resp.entities_added[0].agent_id, None);
    let rels: Vec<(u64, u64, u64)> =
        resp.relationships_added.iter().map(|r| (r.id, r.source_entity_id, r.target_entity_id)).collect();
    assert_eq!(rels, vec![(1, 2, 1), (2, 3, 2)]);
    let r = &resp.relationships_added[0];
    assert_eq!(r.relation_type, "prefers");
    assert_eq!(r.weight, 1_000_000);
    assert_eq!(r.created_by, "extraction");
    assert_eq!(r.metadata, "{\"extracted\":true}");
    assert_eq!(resp.skipped, 0);
    assert_eq!(e.stats().entities, 3);
    assert_eq!(e.stats().relationships, 2);
    assert_eq!(actor_of(&None), "extraction");
    assert_eq!(actor_of(&Some("a".to_string())), "a");
}

#[test]
fn an_empty_extraction_changes_nothing() {
    let mut e = engine();
    let resp = e.extract_and_store(&request(None), &ExtractionResult { facts: vec![], entities: vec![], relationships: vec![] });
    assert_eq!(resp.skipped, 0);
    assert!(resp.memories_added.is_empty());
    assert!(resp.memories_updated.is_empty());
    assert_eq!(e.stats().memories, 0);
    assert_eq!(e.add_memory(AddMemoryRequest {
        content: "first".into(),
        memory_type: MemoryType::Fact,
        agent_id: None,
        user_id: None,
        session_id: None,
        tags: vec![],
        metadata: "null".into(),
    }).id, 1);
}
