use botfather::manager::ensure_session_id;
use botfather::manager::make_session_id;
use botfather::runtime::{crew_settings, CrewSettings, RuntimeSetupError};
use botfather::{
    BotDefinition, BotRequest, BotfatherDefaults, BotfatherManager, BotfatherState,
    DeliveryTarget, DispatchError, InventorySnapshot, PermissionPolicy, ResolveError, ResolvedBotBinding,
    RoomInventory, RuntimeConfig, RuntimeProfile, StateStore, StrMap, TriggerPolicy,
    UserSnapshot,
};

fn build_manager() -> BotfatherManager {
    let mut rooms = StrMap::new();
    rooms.insert(
        "!room:example.org".to_string(),
        RoomInventory {
            room_id: "!room:example.org".into(),
            display_name: None,
            canonical_alias: None,
            space_ids: Vec::new(),
            is_direct: false,
            stale: false,
        },
    );
    let mut state = BotfatherState {
        inventory: InventorySnapshot {
            rooms,
            spaces: StrMap::new(),
        },
        defaults: BotfatherDefaults {
            bot_ids: vec!["crew-main".into()],
            ..Default::default()
        },
        ..Default::default()
    };
    state.runtime_profiles.insert(
        "crew-runtime".into(),
        RuntimeProfile {
            id: "crew-runtime".into(),
            name: "Crew".into(),
            workspace_id: None,
            description: None,
            dispatch_policy: Default::default(),
            config: RuntimeConfig::Crew {
                base_url: "http://127.0.0.1:8000".into(),
                api_key_env: None,
                model: None,
                system_prompt: None,
            },
        },
    );
    state.bots.insert(
        "crew-main".into(),
        BotDefinition {
            id: "crew-main".into(),
            name: "Crew".into(),
            runtime_profile_id: "crew-runtime".into(),
            default_sender_profile_id: None,
            priority: 0,
            enabled: true,
            trigger: TriggerPolicy::default(),
            default_delivery: DeliveryTarget::CurrentRoom,
            permissions: PermissionPolicy::default(),
            runtime_override: Default::default(),
            dispatch_policy_override: None,
            description: None,
        },
    );
    BotfatherManager::from_parts(StateStore::new("/tmp/unused-botfather.json"), state)
}

/// Sets up the crew runtime of a resolved bot, as a dispatch does.
fn crew_setup(resolved: &ResolvedBotBinding) -> Result<CrewSettings, RuntimeSetupError> {
    crew_settings(&resolved.runtime_profile)
}

/// A dispatch through the manager; the request it builds.
fn dispatch(
    manager: &mut BotfatherManager,
    room_id: &str,
    thread: Option<&str>,
    reply: Option<&str>,
    message: &str,
) -> BotRequest {
    let (_, _, request) = manager
        .prepare_dispatch(room_id, thread, reply, message.to_string(), None, crew_setup)
        .unwrap();
    request
}

#[test]
fn sessions_are_reused_for_same_room_scope() {
    let mut manager = build_manager();
    let (_, _, first) = manager
        .prepare_dispatch("!room:example.org", None, None, "hello".into(), None, crew_setup)
        .unwrap();
    let (_, _, second) = manager
        .prepare_dispatch("!room:example.org", None, None, "hello again".into(), None, crew_setup)
        .unwrap();

    assert_eq!(first.session_id, second.session_id);
}

#[test]
fn thread_dispatch_uses_distinct_session_key() {
    let mut manager = build_manager();
    let (_, _, main) = manager
        .prepare_dispatch("!room:example.org", None, None, "hello".into(), None, crew_setup)
        .unwrap();
    let (_, _, thread) = manager
        .prepare_dispatch(
            "!room:example.org",
            Some("$thread-root:example.org"),
            None,
            "reply".into(),
            None,
            crew_setup,
        )
        .unwrap();

    assert_ne!(main.session_id, thread.session_id);
}

#[test]
fn reply_root_dispatch_uses_distinct_session_key() {
    let mut manager = build_manager();
    let (_, _, main) = manager
        .prepare_dispatch("!room:example.org", None, None, "hello".into(), None, crew_setup)
        .unwrap();
    let (_, _, reply) = manager
        .prepare_dispatch(
            "!room:example.org",
            None,
            Some("$reply-root:example.org"),
            "reply".into(),
            None,
            crew_setup,
        )
        .unwrap();

    assert_ne!(main.session_id, reply.session_id);
    assert!(reply.session_id.contains("reply:$reply-root:example.org"));
}

#[test]
fn dispatch_sends_as_the_current_user_when_no_sender_is_named() {
    let mut manager = build_manager();
    let (resolved, settings, _) = manager
        .prepare_dispatch("!room:example.org", None, None, "hello".into(), None, crew_setup)
        .unwrap();
    assert_eq!(resolved.sender_profile.id, "current-user");
    assert!(resolved.sender_profile.uses_current_user());
    assert_eq!(settings.base_url, "http://127.0.0.1:8000");
}

#[test]
fn failed_runtime_setup_records_no_session() {
    let mut manager = build_manager();
    let outcome = manager.prepare_dispatch(
        "!room:example.org",
        None,
        None,
        "hello".into(),
        None,
        |_resolved: &ResolvedBotBinding| Err::<(), &str>("runtime is down"),
    );
    assert!(matches!(outcome, Err(DispatchError::Runtime("runtime is down"))));
    assert_eq!(manager.state().runtime.active_sessions.len(), 0);
}

#[test]
fn unresolved_room_records_no_session() {
    let mut manager = build_manager();
    let outcome = manager.prepare_dispatch(
        "!elsewhere:example.org",
        None,
        None,
        "hello".into(),
        None,
        crew_setup,
    );
    match outcome {
        Err(DispatchError::Resolve(e)) => {
            assert_eq!(e, ResolveError::UnknownRoom("!elsewhere:example.org".into()))
        }
        _ => panic!("the room is not in the inventory"),
    }
    assert_eq!(manager.state().runtime.active_sessions.len(), 0);
}

#[test]
fn session_ids_have_their_documented_shape() {
    let mut manager = build_manager();
    let main = dispatch(&mut manager, "!room:example.org", None, None, "hello");
    assert_eq!(main.session_id, "robrix:!room:example.org:room:main:crew-main");
    let thread = dispatch(&mut manager, "!room:example.org", Some("$t"), Some("$r"), "x");
    assert_eq!(thread.session_id, "robrix:!room:example.org:thread:$t:crew-main");
    assert_eq!(thread.thread_root_event_id.as_deref(), Some("$t"));
    assert_eq!(thread.reply_root_event_id.as_deref(), Some("$r"));
    assert_eq!(thread.message, "x");
    assert_eq!(thread.bot_id, "crew-main");
    assert_eq!(thread.delivery_target, DeliveryTarget::CurrentRoom);
    assert_eq!(manager.state().runtime.active_sessions.len(), 2);
}

#[test]
fn changed_runtime_profile_opens_a_new_session() {
    let mut manager = build_manager();
    let first = dispatch(&mut manager, "!room:example.org", None, None, "hello");
    let mut bot = manager.state().bots.get("crew-main").unwrap().clone();
    bot.runtime_profile_id = "crew-runtime-2".into();
    let mut profile = manager.state().runtime_profiles.get("crew-runtime").unwrap().clone();
    profile.id = "crew-runtime-2".into();
    manager.state_mut().bots.insert("crew-main".into(), bot);
    manager.state_mut().runtime_profiles.insert("crew-runtime-2".into(), profile);
    let second = dispatch(&mut manager, "!room:example.org", None, None, "hello");
    // same key, so the same id is built again, and the record now names the new profile
    assert_eq!(first.session_id, second.session_id);
    let state = manager.state();
    let entries = state.runtime.active_sessions.entries();
    assert_eq!(entries.len(), 1);
    assert_eq!(entries[0].1.runtime_profile_id, "crew-runtime-2");
}

#[test]
fn manager_holds_its_parts() {
    let mut manager = build_manager();
    assert_eq!(manager.store().path(), "/tmp/unused-botfather.json");
    manager.refresh_inventory(
        UserSnapshot {
            matrix_user_id: Some("@me:x".into()),
            homeserver_url: None,
        },
        InventorySnapshot {
            rooms: StrMap::new(),
            spaces: StrMap::new(),
        },
    );
    assert_eq!(manager.state().user.matrix_user_id.as_deref(), Some("@me:x"));
    assert!(manager.resolve_room_bots("!room:example.org").is_err());
}

#[test]
fn store_paths() {
    let store = StateStore::in_dir("/tmp/dir");
    assert_eq!(store.path(), "/tmp/dir/botfather_state.v2.json");
    let candidates = store.load_candidates();
    assert_eq!(
        candidates,
        vec![
            "/tmp/dir/botfather_state.v2.json".to_string(),
            "/tmp/dir/botfather_state.v1.json".to_string()
        ]
    );
    let legacy = StateStore::new("/tmp/dir/botfather_state.v1.json");
    assert_eq!(legacy.load_candidates().len(), 1);
    assert_eq!(
        botfather::store::invalid_backup_path("/tmp/dir/botfather_state.v2.json", 1700000000),
        "/tmp/dir/botfather_state.v2.invalid-1700000000.json"
    );
    assert_eq!(
        botfather::store::invalid_backup_path("/tmp/dir/state", 7),
        "/tmp/dir/state.invalid-7.json"
    );
}

#[test]
fn session_ids_name_room_scope_and_bot() {
    let mut key = botfather::SessionKey {
        room_id: "!r:x".into(),
        scope_kind: botfather::SessionScopeKind::Room,
        thread_root_event_id: None,
        reply_root_event_id: None,
        bot_id: "b".into(),
    };
    assert_eq!(make_session_id(&key), "robrix:!r:x:room:main:b");
    key.scope_kind = botfather::SessionScopeKind::Thread;
    assert_eq!(make_session_id(&key), "robrix:!r:x:thread:unknown-thread:b");
    key.thread_root_event_id = Some("$t".into());
    assert_eq!(make_session_id(&key), "robrix:!r:x:thread:$t:b");
    key.scope_kind = botfather::SessionScopeKind::ReplyRoot;
    assert_eq!(make_session_id(&key), "robrix:!r:x:reply:unknown-reply:b");
    key.reply_root_event_id = Some("$r".into());
    assert_eq!(make_session_id(&key), "robrix:!r:x:reply:$r:b");
}

#[test]
fn ensuring_a_session_twice_reuses_it() {
    let manager = build_manager();
    let resolved = manager.resolve_room_bot("!room:example.org", None).unwrap();
    let mut state = manager.state().clone();
    let first = ensure_session_id(&mut state, "!room:example.org", None, Some("$r"), &resolved);
    assert_eq!(first, "robrix:!room:example.org:reply:$r:crew-main");
    let second = ensure_session_id(&mut state, "!room:example.org", None, Some("$r"), &resolved);
    assert_eq!(first, second);
    assert_eq!(state.runtime.active_sessions.len(), 1);
    let room = ensure_session_id(&mut state, "!room:example.org", None, None, &resolved);
    assert_ne!(room, first);
    assert_eq!(state.runtime.active_sessions.len(), 2);
}
