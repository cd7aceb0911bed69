use hiveminddb::channels::{
    channels_of_memory, publish_memory_added, publish_memory_invalidated, publish_memory_updated,
    publish_task, user_channel_name, ChannelHub, BUS_CAPACITY,
};
use hiveminddb::clock::Timestamp;
use hiveminddb::tasks::create_task;
use hiveminddb::types::{
    Channel, ChannelType, CreateChannelRequest, CreateTaskRequest, Memory, MemoryType,
    WsServerMessage,
};
use tokio::sync::broadcast::error::TryRecvError;

fn request(name: &str) -> CreateChannelRequest {
    CreateChannelRequest {
        name: name.into(),
        description: None,
        channel_type: ChannelType::Public,
        created_by: "system".into(),
    }
}

fn invalidated(n: u64) -> WsServerMessage {
    WsServerMessage::MemoryInvalidated { channel: "test".into(), memory_id: n, reason: "test".into() }
}

fn memory(user: Option<&str>) -> Memory {
    let t = Timestamp { secs: 1, nanos: 0 };
    Memory {
        id: 5,
        content: "c".into(),
        memory_type: MemoryType::Fact,
        agent_id: None,
        user_id: user.map(|u| u.to_string()),
        session_id: None,
        confidence: 1_000_000,
        tags: vec![],
        created_at: t,
        updated_at: t,
        valid_from: t,
        valid_until: None,
        source: "s".into(),
        metadata: "null".into(),
    }
}

#[test]
fn test_create_channel() {
    let mut hub = ChannelHub::new();
    let ch = hub.create_channel(CreateChannelRequest {
        name: "global".into(),
        description: Some("Global channel".into()),
        channel_type: ChannelType::Public,
        created_by: "system".into(),
    });
    assert_eq!(ch.name, "global");

    let channels = hub.list_channels();
    assert_eq!(channels.len(), 1);
}

#[test]
fn test_create_duplicate_channel_returns_existing() {
    let mut hub = ChannelHub::new();
    let ch1 = hub.create_channel(CreateChannelRequest {
        name: "global".into(),
        description: None,
        channel_type: ChannelType::Public,
        created_by: "agent-1".into(),
    });
    let ch2 = hub.create_channel(CreateChannelRequest {
        name: "global".into(),
        description: Some("Different desc".into()),
        channel_type: ChannelType::Public,
        created_by: "agent-2".into(),
    });
    assert_eq!(ch1.id, ch2.id);
    assert_eq!(hub.list_channels().len(), 1);
}

#[test]
fn test_subscribe_and_broadcast() {
    let mut hub = ChannelHub::new();
    let ch = hub.create_channel(CreateChannelRequest {
        name: "test".into(),
        description: None,
        channel_type: ChannelType::Public,
        created_by: "system".into(),
    });

    let mut rx = hub.subscribe(ch.id, "agent-1").unwrap();

    let msg = WsServerMessage::MemoryInvalidated {
        channel: "test".into(),
        memory_id: 42,
        reason: "test".into(),
    };
    hub.broadcast_to_channel(ch.id, msg);

    // Receiver should get the message
    let received = rx.try_recv().unwrap();
    match received {
        WsServerMessage::MemoryInvalidated { memory_id, .. } => {
            assert_eq!(memory_id, 42);
        }
        _ => panic!("Wrong message type"),
    }
}

#[test]
fn test_get_channel_by_name() {
    let mut hub = ChannelHub::new();
    hub.create_channel(CreateChannelRequest {
        name: "project:rafttimedb".into(),
        description: None,
        channel_type: ChannelType::Public,
        created_by: "system".into(),
    });

    let found = hub.get_channel_by_name("project:rafttimedb").unwrap();
    assert_eq!(found.name, "project:rafttimedb");

    assert!(hub.get_channel_by_name("nonexistent").is_none());
}

#[test]
fn test_subscribers_list() {
    let mut hub = ChannelHub::new();
    let ch = hub.create_channel(CreateChannelRequest {
        name: "test".into(),
        description: None,
        channel_type: ChannelType::Public,
        created_by: "system".into(),
    });

    hub.subscribe(ch.id, "agent-1");
    hub.subscribe(ch.id, "agent-2");

    let subs = hub.get_subscribers(ch.id);
    assert_eq!(subs.len(), 2);
    assert!(subs.contains(&"agent-1".to_string()));
    assert!(subs.contains(&"agent-2".to_string()));
}

#[test]
fn channel_ids_count_up_and_the_existing_channel_is_unchanged() {
    let mut hub = ChannelHub::new();
    let a = hub.create_channel_at(request("a"), Timestamp { secs: 3, nanos: 1 });
    let b = hub.create_channel(request("b"));
    assert_eq!(a.id, 1);
    assert_eq!(b.id, 2);
    assert_eq!(a.created_at, Timestamp { secs: 3, nanos: 1 });
    let again = hub.create_channel(CreateChannelRequest {
        name: "a".into(),
        description: Some("other".into()),
        channel_type: ChannelType::Private,
        created_by: "someone".into(),
    });
    assert_eq!(again.id, 1);
    assert_eq!(again.description, None);
    assert_eq!(again.channel_type, ChannelType::Public);
    assert_eq!(again.created_by, "system");
    assert_eq!(hub.create_channel(request("c")).id, 3);
    assert_eq!(hub.get_channel(2).unwrap().name, "b");
    assert!(hub.get_channel(9).is_none());
    let names: Vec<String> = hub.list_channels().into_iter().map(|c| c.name).collect();
    assert_eq!(names, vec!["a", "b", "c"]);
}

#[test]
fn subscribing_to_an_unknown_channel_gives_nothing() {
    let mut hub = ChannelHub::new();
    assert!(hub.subscribe(1, "agent").is_none());
    assert!(hub.subscribe_by_name("nowhere", "agent").is_none());
    assert!(hub.get_subscribers(1).is_empty());
    hub.broadcast_to_channel(1, invalidated(1));
    hub.broadcast_to_channel_by_name("nowhere", invalidated(1));
    hub.create_channel(request("here"));
    assert!(hub.subscribe_by_name("here", "agent").is_some());
    assert_eq!(hub.get_subscribers(1), vec!["agent"]);
}

#[test]
fn joining_creates_the_channel_as_public() {
    let mut hub = ChannelHub::new();
    let mut rx = hub.join("fresh", &Some("agent-9".to_string())).unwrap();
    let ch = hub.get_channel_by_name("fresh").unwrap();
    assert_eq!(ch.channel_type, ChannelType::Public);
    assert_eq!(ch.created_by, "agent-9");
    assert_eq!(hub.get_subscribers(ch.id), vec!["agent-9"]);
    let _second = hub.join("fresh", &None).unwrap();
    assert_eq!(hub.list_channels().len(), 1);
    assert_eq!(hub.get_subscribers(ch.id), vec!["agent-9", "anonymous"]);
    let _other = hub.join("other", &None).unwrap();
    assert_eq!(hub.get_channel_by_name("other").unwrap().created_by, "ws-client");
    hub.broadcast_to_channel_by_name("fresh", invalidated(3));
    assert!(matches!(rx.try_recv(), Ok(WsServerMessage::MemoryInvalidated { memory_id: 3, .. })));
}

#[test]
fn a_slow_subscriber_does_not_hold_up_another() {
    let mut hub = ChannelHub::new();
    hub.create_channel(request("busy"));
    let mut slow = hub.subscribe(1, "slow").unwrap();
    let mut fast = hub.subscribe(1, "fast").unwrap();
    let total = BUS_CAPACITY as u64 + 44;
    for n in 0..total {
        hub.broadcast_to_channel(1, invalidated(n));
        match fast.try_recv() {
            Ok(WsServerMessage::MemoryInvalidated { memory_id, .. }) => assert_eq!(memory_id, n),
            _ => panic!("the fast subscriber missed message {}", n),
        }
    }
    assert!(matches!(fast.try_recv(), Err(TryRecvError::Empty)));
    // the slow subscriber learns how far it lagged and goes on with the newest messages
    match slow.try_recv() {
        Err(TryRecvError::Lagged(skipped)) => assert_eq!(skipped, 44),
        _ => panic!("the slow subscriber should have lagged"),
    }
    match slow.try_recv() {
        Ok(WsServerMessage::MemoryInvalidated { memory_id, .. }) => assert_eq!(memory_id, 44),
        _ => panic!("the slow subscriber should resume"),
    }
}

#[test]
fn messages_arrive_in_the_order_they_were_published() {
    let mut hub = ChannelHub::new();
    hub.create_channel(request("tasks"));
    let mut rx = hub.subscribe_by_name("tasks", "a").unwrap();
    let task = create_task(
        1,
        CreateTaskRequest {
            title: "t".into(),
            description: "d".into(),
            priority: 0,
            required_capabilities: vec![],
            created_by: "c".into(),
            dependencies: vec![],
            deadline: None,
            metadata: "null".into(),
        },
        Timestamp { secs: 1, nanos: 0 },
    );
    publish_task(&hub, WsServerMessage::TaskCreated { task: task.clone() });
    publish_task(&hub, WsServerMessage::TaskClaimed { task: task.clone() });
    publish_task(&hub, WsServerMessage::Pong);
    assert!(matches!(rx.try_recv(), Ok(WsServerMessage::TaskCreated { .. })));
    assert!(matches!(rx.try_recv(), Ok(WsServerMessage::TaskClaimed { .. })));
    assert!(matches!(rx.try_recv(), Ok(WsServerMessage::Pong)));
    assert!(rx.try_recv().is_err());
}

#[test]
fn memory_changes_go_to_the_user_channel_and_to_global() {
    assert_eq!(user_channel_name("ludde"), "user:ludde");
    assert_eq!(channels_of_memory(&Some("ludde".to_string())), vec!["user:ludde", "global"]);
    assert_eq!(channels_of_memory(&None), vec!["global"]);
    let mut hub = ChannelHub::new();
    hub.create_channel(request("global"));
    hub.create_channel(request("user:ludde"));
    hub.create_channel(request("user:other"));
    let mut global = hub.subscribe_by_name("global", "g").unwrap();
    let mut mine = hub.subscribe_by_name("user:ludde", "m").unwrap();
    let mut other = hub.subscribe_by_name("user:other", "o").unwrap();
    publish_memory_added(&hub, &memory(Some("ludde")));
    publish_memory_updated(&hub, &memory(Some("ludde")));
    publish_memory_invalidated(&hub, &memory(Some("ludde")), "old");
    publish_memory_added(&hub, &memory(None));
    assert!(matches!(mine.try_recv(), Ok(WsServerMessage::MemoryAdded { channel, memory }) if channel == "user:ludde" && memory.id == 5));
    assert!(matches!(mine.try_recv(), Ok(WsServerMessage::MemoryUpdated { channel, .. }) if channel == "user:ludde"));
    assert!(matches!(mine.try_recv(), Ok(WsServerMessage::MemoryInvalidated { memory_id: 5, reason, .. }) if reason == "old"));
    assert!(mine.try_recv().is_err());
    assert!(matches!(global.try_recv(), Ok(WsServerMessage::MemoryAdded { channel, .. }) if channel == "global"));
    assert!(matches!(global.try_recv(), Ok(WsServerMessage::MemoryUpdated { .. })));
    assert!(matches!(global.try_recv(), Ok(WsServerMessage::MemoryInvalidated { .. })));
    assert!(matches!(global.try_recv(), Ok(WsServerMessage::MemoryAdded { .. })));
    assert!(global.try_recv().is_err());
    assert!(other.try_recv().is_err());
}

#[test]
fn restored_channels_have_no_subscribers_and_keep_ids_apart() {
    let t = Timestamp { secs: 1, nanos: 0 };
    let ch = |id: u64, name: &str| Channel {
        id,
        name: name.into(),
        description: None,
        channel_type: ChannelType::Agent,
        created_by: "old".into(),
        created_at: t,
    };
    let mut hub = ChannelHub::new();
    hub.create_channel(request("local"));
    hub.restore_channels(&vec![ch(7, "seven"), ch(1, "clash-by-id"), ch(8, "local"), ch(u64::MAX, "too-big"), ch(3, "three")]);
    let names: Vec<String> = hub.list_channels().into_iter().map(|c| c.name).collect();
    assert_eq!(names, vec!["local", "seven", "three"]);
    assert_eq!(hub.get_channel(7).unwrap().channel_type, ChannelType::Agent);
    assert!(hub.get_subscribers(7).is_empty());
    assert_eq!(hub.create_channel(request("next")).id, 8);
    let mut rx = hub.subscribe(7, "a").unwrap();
    hub.broadcast_to_channel_by_name("seven", invalidated(1));
    assert!(rx.try_recv().is_ok());
}

#[test]
fn a_snapshot_of_engine_and_hub_brings_both_back() {
    let config = hiveminddb::config::HiveMindConfig {
        listen_addr: "".into(),
        rtdb_url: "".into(),
        llm_provider: "test".into(),
        llm_api_key: None,
        llm_model: "test".into(),
        embedding_model: "none:disabled".into(),
        embedding_api_key: None,
        data_dir: "".into(),
    };
    let mut engine = hiveminddb::memory_engine::MemoryEngine::new(config.clone());
    let mut hub = ChannelHub::new();
    engine.add_memory(hiveminddb::types::AddMemoryRequest {
        content: "kept".into(),
        memory_type: MemoryType::Fact,
        agent_id: None,
        user_id: None,
        session_id: None,
        tags: vec![],
        metadata: "null".into(),
    });
    hub.create_channel(request("global"));
    hub.create_channel(request("tasks"));
    hub.subscribe(1, "someone");
    let snap = hiveminddb::service::snapshot_all_at(&engine, &hub, Timestamp { secs: 4, nanos: 2 });
    assert_eq!(snap.created_at, Timestamp { secs: 4, nanos: 2 });
    assert_eq!(snap.channels.len(), 2);
    assert_eq!(snap.memories.len(), 1);
    let mut engine2 = hiveminddb::memory_engine::MemoryEngine::new(config);
    let mut hub2 = ChannelHub::new();
    hiveminddb::service::restore_all(&mut engine2, &mut hub2, snap);
    assert_eq!(engine2.get_memory(1).unwrap().content, "kept");
    assert_eq!(hub2.get_channel_by_name("tasks").unwrap().id, 2);
    assert!(hub2.get_subscribers(1).is_empty());
    assert_eq!(hub2.create_channel(request("third")).id, 3);
    assert_eq!(hiveminddb::service::snapshot_all(&engine2, &hub2).channels.len(), 3);
}
