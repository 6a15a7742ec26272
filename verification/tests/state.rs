use botfather::text::{compare_str, str_eq, Comparison};
use botfather::state::{default_openclaw_agent_id, STATE_VERSION};
use botfather::{
    BotRuntimeOverride, BotfatherState, DispatchPolicy, InventorySnapshot, OpenClawRuntimeConfig,
    PermissionPolicy, RuntimeConfig, RuntimeKind, RuntimeProfile, RuntimeState, SenderProfile,
    SenderProfileKind, SessionKey, SessionMap, SessionRecord, SessionScopeKind, StrMap,
    UserSnapshot,
};

fn key(
    scope_kind: SessionScopeKind,
    thread: Option<&str>,
    reply: Option<&str>,
    bot_id: &str,
) -> SessionKey {
    SessionKey {
        room_id: "!room:example.org".into(),
        scope_kind,
        thread_root_event_id: thread.map(|s| s.to_string()),
        reply_root_event_id: reply.map(|s| s.to_string()),
        bot_id: bot_id.into(),
    }
}

fn record(key: SessionKey, session_id: &str) -> SessionRecord {
    SessionRecord {
        key,
        runtime_profile_id: "crew-runtime".into(),
        session_id: session_id.into(),
    }
}

#[test]
fn normalize_promotes_reply_scope_from_legacy_fields() {
    let legacy = key(SessionScopeKind::Room, None, Some("$reply"), "crew");
    let mut sessions = SessionMap::new();
    sessions.insert(
        legacy.clone(),
        SessionRecord {
            key: legacy,
            runtime_profile_id: "crew-runtime".into(),
            session_id: "session-111".into(),
        },
    );
    let mut state = BotfatherState {
        version: 1,
        runtime: RuntimeState {
            active_sessions: sessions,
        },
        ..BotfatherState::default()
    };

    state.normalize();

    assert!(state.runtime.active_sessions.contains_key(&SessionKey {
        room_id: "!room:example.org".into(),
        scope_kind: SessionScopeKind::ReplyRoot,
        thread_root_event_id: None,
        reply_root_event_id: Some("$reply".into()),
        bot_id: "crew".into(),
    }));
    assert_eq!(state.version, STATE_VERSION);
}

#[test]
fn normalize_settles_every_scope() {
    let cases = [
        (key(SessionScopeKind::Thread, Some("$t"), Some("$r"), "b"), key(SessionScopeKind::Thread, Some("$t"), None, "b")),
        (key(SessionScopeKind::Thread, None, Some("$r"), "b"), key(SessionScopeKind::ReplyRoot, None, Some("$r"), "b")),
        (key(SessionScopeKind::Thread, None, None, "b"), key(SessionScopeKind::Room, None, None, "b")),
        (key(SessionScopeKind::ReplyRoot, Some("$t"), Some("$r"), "b"), key(SessionScopeKind::ReplyRoot, None, Some("$r"), "b")),
        (key(SessionScopeKind::ReplyRoot, Some("$t"), None, "b"), key(SessionScopeKind::Thread, Some("$t"), None, "b")),
        (key(SessionScopeKind::ReplyRoot, None, None, "b"), key(SessionScopeKind::Room, None, None, "b")),
        (key(SessionScopeKind::Room, Some("$t"), Some("$r"), "b"), key(SessionScopeKind::Thread, Some("$t"), None, "b")),
        (key(SessionScopeKind::Room, None, Some("$r"), "b"), key(SessionScopeKind::ReplyRoot, None, Some("$r"), "b")),
        (key(SessionScopeKind::Room, None, None, "b"), key(SessionScopeKind::Room, None, None, "b")),
    ];
    for (input, expected) in cases {
        let mut k = input;
        k.normalize();
        assert_eq!(k, expected);
        let mut again = k.clone();
        again.normalize();
        assert_eq!(again, k);
    }
}

#[test]
fn normalize_keeps_newer_versions_and_last_colliding_record() {
    let mut sessions = SessionMap::new();
    let a = key(SessionScopeKind::Room, Some("$t"), None, "b");
    let b = key(SessionScopeKind::Thread, Some("$t"), None, "b");
    sessions.insert(a.clone(), record(a, "first"));
    sessions.insert(b.clone(), record(b, "second"));
    let mut state = BotfatherState {
        version: 9,
        runtime: RuntimeState {
            active_sessions: sessions,
        },
        ..BotfatherState::default()
    };
    state.normalize();
    assert_eq!(state.version, 9);
    assert_eq!(state.runtime.active_sessions.len(), 1);
    let kept = state
        .runtime
        .active_sessions
        .get(&key(SessionScopeKind::Thread, Some("$t"), None, "b"))
        .unwrap();
    // keys order Room before Thread, so the Thread-keyed record comes last
    assert_eq!(kept.session_id, "second");
    assert_eq!(kept.key.scope_kind, SessionScopeKind::Thread);
}

#[test]
fn session_map_orders_and_replaces() {
    let mut sessions = SessionMap::new();
    assert!(sessions.is_empty());
    let z = key(SessionScopeKind::Room, None, None, "z");
    let a = key(SessionScopeKind::Room, None, None, "a");
    sessions.insert(z.clone(), record(z.clone(), "1"));
    sessions.insert(a.clone(), record(a.clone(), "2"));
    sessions.insert(z.clone(), record(z.clone(), "3"));
    assert_eq!(sessions.len(), 2);
    let entries = sessions.entries();
    assert_eq!(entries[0].0.bot_id, "a");
    assert_eq!(entries[1].0.bot_id, "z");
    assert_eq!(sessions.get(&z).unwrap().session_id, "3");
    assert!(!sessions.contains_key(&key(SessionScopeKind::Thread, Some("$x"), None, "z")));
}

#[test]
fn default_state_is_empty_and_current() {
    let state = BotfatherState::default();
    assert_eq!(state.version, STATE_VERSION);
    assert!(state.bots.is_empty());
    assert!(state.runtime_profiles.is_empty());
    assert!(state.runtime.active_sessions.is_empty());
    assert!(state.defaults.bot_ids.is_empty());
}

#[test]
fn refresh_inventory_replaces_user_and_inventory() {
    let mut state = BotfatherState::default();
    let mut rooms = StrMap::new();
    rooms.insert("!r".to_string(), Default::default());
    state.refresh_inventory(
        UserSnapshot {
            matrix_user_id: Some("@u:x".into()),
            homeserver_url: None,
        },
        InventorySnapshot {
            rooms,
            spaces: StrMap::new(),
        },
    );
    assert_eq!(state.user.matrix_user_id.as_deref(), Some("@u:x"));
    assert!(state.inventory.rooms.contains_key("!r"));
}

#[test]
fn defaults_of_policies() {
    let d = DispatchPolicy::default();
    assert_eq!(
        (d.max_parallel_per_room, d.max_parallel_per_runtime, d.queue_limit),
        (1, 1, 8)
    );
    let p = PermissionPolicy::default();
    assert!(p.can_post_to_room && p.can_post_to_thread && !p.can_react && p.can_use_tools);
    let c = OpenClawRuntimeConfig::default();
    assert_eq!(c.agent_id, "main");
    assert_eq!(default_openclaw_agent_id(), "main");
    assert!(c.gateway_url.is_empty());
}

#[test]
fn runtime_kinds_and_flags() {
    let profile = RuntimeProfile {
        id: "p".into(),
        name: "P".into(),
        workspace_id: None,
        description: None,
        dispatch_policy: DispatchPolicy::default(),
        config: RuntimeConfig::OpenClaw(OpenClawRuntimeConfig::default()),
    };
    assert_eq!(profile.kind(), RuntimeKind::OpenClaw);
    let crew = RuntimeConfig::Crew {
        base_url: "http://x".into(),
        api_key_env: None,
        model: None,
        system_prompt: None,
    };
    assert_eq!(crew.kind(), RuntimeKind::Crew);
    assert!(BotRuntimeOverride::default().is_empty());
    assert!(!BotRuntimeOverride {
        model: Some("m".into()),
        ..Default::default()
    }
    .is_empty());
    let mut sender = SenderProfile::default();
    assert!(sender.uses_current_user());
    sender.kind = SenderProfileKind::MatrixBot;
    assert!(!sender.uses_current_user());
    assert!(botfather::runtime_feature_enabled(RuntimeKind::Crew));
    assert!(botfather::runtime_feature_enabled(RuntimeKind::OpenClaw));
}

#[test]
fn str_map_insert_replaces() {
    let mut m: StrMap<u32> = StrMap::new();
    m.insert("a".into(), 1);
    m.insert("b".into(), 2);
    m.insert("a".into(), 3);
    assert_eq!(m.get("a"), Some(&3));
    assert_eq!(m.get("b"), Some(&2));
    assert_eq!(m.get("c"), None);
    assert_eq!(m.entries().len(), 2);
    let copy = m.clone();
    assert_eq!(copy.get("a"), Some(&3));
}

#[test]
fn string_order_is_byte_order() {
    assert_eq!(compare_str("crew-main", "openclaw-main"), Comparison::Less);
    assert_eq!(compare_str("b", "a"), Comparison::Greater);
    assert_eq!(compare_str("ab", "abc"), Comparison::Less);
    assert_eq!(compare_str("é", "z"), Comparison::Greater);
    assert_eq!(compare_str("same", "same"), Comparison::Equal);
    assert!(str_eq("x", "x"));
    assert!(!str_eq("x", "y"));
}

#[test]
fn str_map_walks_keys_in_order() {
    let mut m: StrMap<u32> = StrMap::new();
    m.insert("openclaw-main".into(), 1);
    m.insert("crew-main".into(), 2);
    m.insert("zeta".into(), 3);
    m.insert("alpha".into(), 4);
    m.insert("crew-main".into(), 5);
    let keys: Vec<&str> = m.entries().iter().map(|(k, _)| k.as_str()).collect();
    assert_eq!(keys, vec!["alpha", "crew-main", "openclaw-main", "zeta"]);
    assert_eq!(m.entries()[1].1, 5);
    let copy = m.clone();
    let copied: Vec<&str> = copy.entries().iter().map(|(k, _)| k.as_str()).collect();
    assert_eq!(copied, keys);
}

#[test]
fn current_user_profile_comes_from_the_snapshot() {
    let user = UserSnapshot {
        matrix_user_id: Some("@me:example.org".into()),
        homeserver_url: Some("https://matrix.example.org".into()),
    };
    let profile = SenderProfile::current_user(&user);
    assert_eq!(profile.id, botfather::state::CURRENT_USER_SENDER_ID);
    assert_eq!(profile.id, "current-user");
    assert_eq!(profile.name, "Current User");
    assert!(profile.enabled);
    assert_eq!(profile.kind, SenderProfileKind::CurrentUser);
    assert_eq!(profile.matrix_user_id.as_deref(), Some("@me:example.org"));
    assert_eq!(profile.homeserver_url.as_deref(), Some("https://matrix.example.org"));
    assert!(profile.device_id.is_none());
    assert!(profile.access_token_env.is_none());
    assert!(profile.last_verified_at_millis.is_none());
}

#[test]
fn normalizing_keeps_every_session_under_its_settled_key() {
    let mut sessions = SessionMap::new();
    let legacy = key(SessionScopeKind::Thread, None, Some("$r"), "b");
    sessions.insert(legacy.clone(), record(legacy.clone(), "legacy"));
    let room = key(SessionScopeKind::Room, None, None, "b");
    sessions.insert(room.clone(), record(room.clone(), "room"));
    let mut state = BotfatherState {
        runtime: RuntimeState {
            active_sessions: sessions,
        },
        ..BotfatherState::default()
    };
    state.normalize();
    assert_eq!(state.runtime.active_sessions.len(), 2);
    for (k, r) in state.runtime.active_sessions.entries() {
        assert_eq!(&r.key, k);
    }
    let settled = key(SessionScopeKind::ReplyRoot, None, Some("$r"), "b");
    assert_eq!(
        state.runtime.active_sessions.get(&settled).unwrap().session_id,
        "legacy"
    );
    assert_eq!(state.runtime.active_sessions.get(&room).unwrap().session_id, "room");
}
