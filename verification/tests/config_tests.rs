use hiveminddb::api::{
    default_api, default_depth, parse_task_status, refusal_message, status_code_for,
    task_status_name,
};
use hiveminddb::config::HiveMindConfig;
use hiveminddb::embeddings::{resolve_local_model, EmbeddingConfig, LocalModel};
use hiveminddb::extraction::{
    build_extraction_prompt, extract_json_from_response, fact_metadata_text, ExtractionConfig,
};
use hiveminddb::persistence::{Snapshot, SnapshotManager};
use hiveminddb::tasks::{TaskAction, TaskError};
use hiveminddb::clock::Timestamp;
use hiveminddb::types::{
    default_channel_type, default_limit, default_memory_type, default_weight, ChannelType,
    ConversationMessage, Memory, MemoryType, TaskStatus,
};

fn config(provider: &str, key: Option<&str>, llm_model: &str, embedding: &str, data_dir: &str) -> HiveMindConfig {
    HiveMindConfig {
        listen_addr: "".into(),
        rtdb_url: "".into(),
        llm_provider: provider.into(),
        llm_api_key: key.map(|k| k.to_string()),
        llm_model: llm_model.into(),
        embedding_model: embedding.into(),
        embedding_api_key: None,
        data_dir: data_dir.into(),
    }
}

#[test]
fn test_embedding_config_parse() {
    let config = HiveMindConfig {
        listen_addr: "".into(),
        rtdb_url: "".into(),
        llm_provider: "openai".into(),
        llm_api_key: Some("sk-test".into()),
        llm_model: "gpt-4o".into(),
        embedding_model: "openai:text-embedding-3-small".into(),
        embedding_api_key: None,
        data_dir: "./data".into(),
    };
    let ec = EmbeddingConfig::from_hivemind_config(&config);
    assert_eq!(ec.provider, "openai");
    assert_eq!(ec.model, "text-embedding-3-small");
    assert_eq!(ec.base_url, "https://api.openai.com/v1");
    // Falls back to llm_api_key
    assert_eq!(ec.api_key, Some("sk-test".into()));
}

#[test]
fn test_embedding_config_ollama() {
    let config = HiveMindConfig {
        listen_addr: "".into(),
        rtdb_url: "".into(),
        llm_provider: "ollama".into(),
        llm_api_key: None,
        llm_model: "llama3".into(),
        embedding_model: "ollama:nomic-embed-text".into(),
        embedding_api_key: None,
        data_dir: "./data".into(),
    };
    let ec = EmbeddingConfig::from_hivemind_config(&config);
    assert_eq!(ec.provider, "ollama");
    assert_eq!(ec.model, "nomic-embed-text");
    assert_eq!(ec.base_url, "http://localhost:11434/v1");
    assert!(ec.api_key.is_none());
}

#[test]
fn test_embedding_config_local_explicit() {
    let config = HiveMindConfig {
        listen_addr: "".into(),
        rtdb_url: "".into(),
        llm_provider: "openai".into(),
        llm_api_key: None,
        llm_model: "gpt-4o".into(),
        embedding_model: "local:all-MiniLM-L6-v2".into(),
        embedding_api_key: None,
        data_dir: "/data".into(),
    };
    let ec = EmbeddingConfig::from_hivemind_config(&config);
    assert_eq!(ec.provider, "local");
    assert_eq!(ec.model, "all-MiniLM-L6-v2");
    assert_eq!(ec.base_url, "");
    assert_eq!(ec.cache_dir, Some("/data/embeddings".to_string()));
}

#[test]
fn test_embedding_config_local_default() {
    // No provider prefix: the model of the provider "local"
    let config = HiveMindConfig {
        listen_addr: "".into(),
        rtdb_url: "".into(),
        llm_provider: "openai".into(),
        llm_api_key: None,
        llm_model: "gpt-4o".into(),
        embedding_model: "all-MiniLM-L6-v2".into(),
        embedding_api_key: None,
        data_dir: "./data".into(),
    };
    let ec = EmbeddingConfig::from_hivemind_config(&config);
    assert_eq!(ec.provider, "local");
    assert_eq!(ec.model, "all-MiniLM-L6-v2");
}

#[test]
fn embedding_config_splits_at_first_colon_only() {
    let ec = EmbeddingConfig::from_hivemind_config(&config("openai", None, "m", "http://host:8080/v1:model", "d"));
    assert_eq!(ec.provider, "http");
    assert_eq!(ec.model, "//host:8080/v1:model");
    assert_eq!(ec.base_url, "http");
    assert_eq!(ec.dimensions, None);
}

#[test]
fn embedding_config_unknown_provider_and_own_key() {
    let mut c = config("openai", Some("llm-key"), "m", "mystery:model-x", "d");
    c.embedding_api_key = Some("emb-key".into());
    let ec = EmbeddingConfig::from_hivemind_config(&c);
    assert_eq!(ec.provider, "mystery");
    assert_eq!(ec.base_url, "https://api.openai.com/v1");
    assert_eq!(ec.api_key, Some("emb-key".to_string()));
    let cg = EmbeddingConfig::from_hivemind_config(&config("x", None, "m", "codegate:e", "d"));
    assert_eq!(cg.base_url, "http://localhost:9212/v1");
    let empty = EmbeddingConfig::from_hivemind_config(&config("x", None, "m", "", "d"));
    assert_eq!(empty.provider, "local");
    assert_eq!(empty.model, "");
}

#[test]
fn embedding_availability_rule() {
    let remote = EmbeddingConfig::from_hivemind_config(&config("openai", None, "m", "openai:e", "d"));
    assert!(!remote.is_available(false));
    assert!(remote.is_available(true));
    let keyed = EmbeddingConfig::from_hivemind_config(&config("openai", Some("k"), "m", "openai:e", "d"));
    assert!(keyed.is_available(false));
    let loopback = EmbeddingConfig::from_hivemind_config(&config("openai", None, "m", "ollama:e", "d"));
    assert!(loopback.is_available(false));
    let ip = EmbeddingConfig {
        provider: "x".into(),
        model: "m".into(),
        api_key: None,
        base_url: "http://127.0.0.1:9000".into(),
        dimensions: None,
        cache_dir: None,
    };
    assert!(ip.is_available(false));
}

#[test]
fn test_resolve_local_model_variants() {
    // Known names
    assert!(matches!(resolve_local_model("all-MiniLM-L6-v2"), LocalModel::AllMiniLML6V2));
    assert!(matches!(resolve_local_model("minilm"), LocalModel::AllMiniLML6V2));
    assert!(matches!(resolve_local_model("bge-small"), LocalModel::BGESmallENV15));
    assert!(matches!(resolve_local_model("jina-code"), LocalModel::JinaEmbeddingsV2BaseCode));

    // Unknown → default
    assert!(matches!(resolve_local_model("nonexistent-model"), LocalModel::AllMiniLML6V2));
}

#[test]
fn resolve_local_model_every_family() {
    assert_eq!(resolve_local_model("minilm-q"), LocalModel::AllMiniLML6V2Q);
    assert_eq!(resolve_local_model("all-MiniLM-L12-v2"), LocalModel::AllMiniLML12V2);
    assert_eq!(resolve_local_model("AllMiniLML12V2Q"), LocalModel::AllMiniLML12V2Q);
    assert_eq!(resolve_local_model("bge-base"), LocalModel::BGEBaseENV15);
    assert_eq!(resolve_local_model("bge-large-en-v1.5"), LocalModel::BGELargeENV15);
    assert_eq!(resolve_local_model("bge-m3"), LocalModel::BGEM3);
    assert_eq!(resolve_local_model("arctic-xs"), LocalModel::SnowflakeArcticEmbedXS);
    assert_eq!(resolve_local_model("arctic-s"), LocalModel::SnowflakeArcticEmbedS);
    assert_eq!(resolve_local_model("arctic-m"), LocalModel::SnowflakeArcticEmbedM);
    assert_eq!(resolve_local_model("nomic-v1.5"), LocalModel::NomicEmbedTextV15);
    assert_eq!(resolve_local_model("nomic-v1"), LocalModel::NomicEmbedTextV1);
    assert_eq!(resolve_local_model("gte-base"), LocalModel::GTEBaseENV15);
    assert_eq!(resolve_local_model("gte-large"), LocalModel::GTELargeENV15);
    assert_eq!(resolve_local_model("e5-small"), LocalModel::MultilingualE5Small);
    assert_eq!(resolve_local_model("e5-base"), LocalModel::MultilingualE5Base);
    assert_eq!(resolve_local_model("jina-en"), LocalModel::JinaEmbeddingsV2BaseEN);
    assert_eq!(resolve_local_model("gemma-300m"), LocalModel::EmbeddingGemma300M);
    assert_eq!(resolve_local_model("MINILM"), LocalModel::AllMiniLML6V2);
    assert_eq!(resolve_local_model(""), LocalModel::AllMiniLML6V2);
}

#[test]
fn test_extract_json_from_response_plain() {
    let json = r#"{"facts": [], "entities": [], "relationships": []}"#;
    assert_eq!(extract_json_from_response(json), json);
}

#[test]
fn test_extract_json_from_response_code_block() {
    let input = "```json\n{\"facts\": []}\n```";
    assert_eq!(extract_json_from_response(input), r#"{"facts": []}"#);
}

#[test]
fn test_extract_json_from_response_bare_block() {
    let input = "```\n{\"facts\": []}\n```";
    assert_eq!(extract_json_from_response(input), r#"{"facts": []}"#);
}

#[test]
fn extract_json_edge_cases() {
    assert_eq!(extract_json_from_response("  \n {\"a\":1} \t"), "{\"a\":1}");
    assert_eq!(extract_json_from_response(""), "");
    assert_eq!(extract_json_from_response("   "), "");
    // text around the block is dropped
    assert_eq!(extract_json_from_response("Here it is:\n```json\n{\"x\": 2}\n```\nDone."), "{\"x\": 2}");
    // an opener without a closing fence leaves the trimmed answer
    assert_eq!(extract_json_from_response(" ```json\n{\"x\": 2} "), "```json\n{\"x\": 2}");
    // the first block counts
    assert_eq!(extract_json_from_response("```\nA\n```\n```\nB\n```"), "A");
    // a marked block wins over an earlier bare one that it closes
    assert_eq!(extract_json_from_response("```json{}```"), "{}");
    assert_eq!(extract_json_from_response("``````"), "");
    // characters beyond one byte are kept whole
    assert_eq!(extract_json_from_response("```json\n{\"name\": \"Zoë ✓\"}\n```"), "{\"name\": \"Zoë ✓\"}");
}

#[test]
fn test_extraction_config_openai() {
    let config = HiveMindConfig {
        listen_addr: "".into(),
        rtdb_url: "".into(),
        llm_provider: "openai".into(),
        llm_api_key: Some("sk-test".into()),
        llm_model: "gpt-4o".into(),
        embedding_model: "".into(),
        embedding_api_key: None,
        data_dir: "".into(),
    };
    let ec = ExtractionConfig::from_hivemind_config(&config);
    assert_eq!(ec.base_url, "https://api.openai.com/v1");
    assert_eq!(ec.provider, "openai");
}

#[test]
fn test_extraction_config_codegate() {
    let config = HiveMindConfig {
        listen_addr: "".into(),
        rtdb_url: "".into(),
        llm_provider: "codegate".into(),
        llm_api_key: None,
        llm_model: "sonnet-4-20250514".into(),
        embedding_model: "".into(),
        embedding_api_key: None,
        data_dir: "".into(),
    };
    let ec = ExtractionConfig::from_hivemind_config(&config);
    assert_eq!(ec.base_url, "http://localhost:9212/v1");
    assert_eq!(ec.provider, "openai");
}

#[test]
fn test_extraction_config_custom_url() {
    let config = HiveMindConfig {
        listen_addr: "".into(),
        rtdb_url: "".into(),
        llm_provider: "http://my-proxy:8080/v1".into(),
        llm_api_key: None,
        llm_model: "llama3".into(),
        embedding_model: "".into(),
        embedding_api_key: None,
        data_dir: "".into(),
    };
    let ec = ExtractionConfig::from_hivemind_config(&config);
    assert_eq!(ec.base_url, "http://my-proxy:8080/v1");
    assert_eq!(ec.provider, "openai");
}

#[test]
fn extraction_config_other_providers() {
    let a = ExtractionConfig::from_hivemind_config(&config("anthropic", Some("k"), "opus", "", ""));
    assert_eq!(a.base_url, "https://api.anthropic.com");
    assert_eq!(a.provider, "anthropic");
    assert_eq!(a.model, "opus");
    assert_eq!(a.api_key, Some("k".to_string()));
    let o = ExtractionConfig::from_hivemind_config(&config("ollama", None, "m", "", ""));
    assert_eq!(o.base_url, "http://localhost:11434/v1");
    assert_eq!(o.provider, "openai");
    let unknown = ExtractionConfig::from_hivemind_config(&config("mystery", None, "m", "", ""));
    assert_eq!(unknown.base_url, "https://api.openai.com/v1");
    assert_eq!(unknown.provider, "openai");
    let short = ExtractionConfig::from_hivemind_config(&config("htt", None, "m", "", ""));
    assert_eq!(short.base_url, "https://api.openai.com/v1");
}

#[test]
fn test_pipeline_availability() {
    let pipeline = ExtractionConfig {
        provider: "openai".into(),
        api_key: Some("sk-test".into()),
        model: "gpt-4o".into(),
        base_url: "https://api.openai.com/v1".into(),
    };
    assert!(pipeline.is_available());

    let local_pipeline = ExtractionConfig {
        provider: "openai".into(),
        api_key: None,
        model: "llama3".into(),
        base_url: "http://localhost:11434/v1".into(),
    };
    assert!(local_pipeline.is_available());

    let no_key = ExtractionConfig {
        provider: "openai".into(),
        api_key: None,
        model: "gpt-4o".into(),
        base_url: "https://api.openai.com/v1".into(),
    };
    assert!(!no_key.is_available());
}

fn memory(id: u64, content: &str) -> Memory {
    let t = Timestamp { secs: 1, nanos: 0 };
    Memory {
        id,
        content: content.into(),
        memory_type: MemoryType::Fact,
        agent_id: None,
        user_id: None,
        session_id: None,
        confidence: 1_000_000,
        tags: vec![],
        created_at: t,
        updated_at: t,
        valid_from: t,
        valid_until: None,
        source: "test".into(),
        metadata: "null".into(),
    }
}

#[test]
fn extraction_prompt_text() {
    let messages = vec![
        ConversationMessage { role: "user".into(), content: "I like Rust".into() },
        ConversationMessage { role: "assistant".into(), content: "Noted".into() },
    ];
    let prompt = build_extraction_prompt(&messages, &vec![]);
    assert_eq!(prompt, "Extract knowledge from this conversation:\n\nuser: I like Rust\nassistant: Noted");
    let known = vec![memory(7, "User likes Python"), memory(120, "Second")];
    let prompt = build_extraction_prompt(&messages, &known);
    assert_eq!(
        prompt,
        "Extract knowledge from this conversation:\n\nuser: I like Rust\nassistant: Noted\n\nExisting memories (check for conflicts/updates):\n  [#7] User likes Python\n  [#120] Second"
    );
    let none = build_extraction_prompt(&vec![], &vec![]);
    assert_eq!(none, "Extract knowledge from this conversation:\n\n");
}

#[test]
fn extraction_prompt_shows_at_most_twenty_memories() {
    let mut known = vec![];
    for i in 0..25u64 {
        known.push(memory(i + 1, "m"));
    }
    let prompt = build_extraction_prompt(&vec![], &known);
    assert!(prompt.contains("[#20] m"));
    assert!(!prompt.contains("[#21] m"));
    assert_eq!(prompt.matches("[#").count(), 20);
    let big = build_extraction_prompt(&vec![], &vec![memory(u64::MAX, "x"), memory(0, "y")]);
    assert!(big.ends_with("  [#18446744073709551615] x\n  [#0] y"));
}

#[test]
fn fact_metadata_is_json_with_six_places() {
    assert_eq!(fact_metadata_text(950_000), "{\"confidence\":0.950000,\"extracted\":true}");
    assert_eq!(fact_metadata_text(1_000_000), "{\"confidence\":1.000000,\"extracted\":true}");
    assert_eq!(fact_metadata_text(0), "{\"confidence\":0.000000,\"extracted\":true}");
    assert_eq!(fact_metadata_text(7), "{\"confidence\":0.000007,\"extracted\":true}");
    assert_eq!(fact_metadata_text(12_345_678), "{\"confidence\":12.345678,\"extracted\":true}");
}

#[test]
fn snapshot_paths() {
    let m = SnapshotManager::new("/var/data");
    assert_eq!(m.data_dir(), "/var/data");
    assert_eq!(m.snapshot_path(), "/var/data/hivemind-snapshot.json");
    assert_eq!(m.snapshot_tmp_path(), "/var/data/hivemind-snapshot.json.tmp");
    assert_eq!(Snapshot::CURRENT_VERSION, 2);
}

#[test]
fn request_defaults() {
    assert_eq!(default_limit(), 10);
    assert_eq!(default_memory_type(), MemoryType::Fact);
    assert_eq!(default_channel_type(), ChannelType::Public);
    assert_eq!(default_weight(), 1_000_000);
    assert_eq!(default_api(), "api");
    assert_eq!(default_depth(), 2);
}

#[test]
fn task_status_names_and_refusals() {
    assert_eq!(parse_task_status("pending"), Some(TaskStatus::Pending));
    assert_eq!(parse_task_status("claimed"), Some(TaskStatus::Claimed));
    assert_eq!(parse_task_status("in_progress"), Some(TaskStatus::InProgress));
    assert_eq!(parse_task_status("completed"), Some(TaskStatus::Completed));
    assert_eq!(parse_task_status("failed"), Some(TaskStatus::Failed));
    assert_eq!(parse_task_status("cancelled"), Some(TaskStatus::Cancelled));
    assert_eq!(parse_task_status("Pending"), None);
    assert_eq!(parse_task_status(""), None);
    assert_eq!(task_status_name(TaskStatus::InProgress), "in_progress");
    assert_eq!(status_code_for(TaskError::NotFound), 404);
    assert_eq!(status_code_for(TaskError::NotOwner), 409);
    let wrong = TaskError::WrongState { current: TaskStatus::Completed, action: TaskAction::Complete };
    assert_eq!(status_code_for(wrong), 409);
    assert_eq!(refusal_message(wrong), "task is completed, complete requires in_progress");
    assert_eq!(
        refusal_message(TaskError::WrongState { current: TaskStatus::Pending, action: TaskAction::Fail }),
        "task is pending, fail requires claimed or in_progress"
    );
    assert_eq!(refusal_message(TaskError::NotFound), "task not found");
    assert_eq!(refusal_message(TaskError::NotOwner), "task is assigned to another agent");
}
