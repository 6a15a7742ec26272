use botfather::resolver::resolve_bound_bot;
use botfather::resolver::resolve_sender_profile;
use botfather::{
    resolve_room_bot, resolve_room_bots, BindingSource, BotBinding, BotDefinition,
    BotfatherDefaults, BotfatherState, DeliveryTarget, InventorySnapshot, OpenClawRuntimeConfig,
    PermissionPolicy, ResolveError, RoomInventory, RuntimeConfig, RuntimeKind, RuntimeProfile,
    SenderProfile, SenderProfileKind, SenderSecurityLevel, StrMap, TriggerMode, TriggerPolicy,
    UserSnapshot, Workspace,
};

fn base_state() -> BotfatherState {
    let mut rooms = StrMap::new();
    rooms.insert(
        "!room:example.org".to_string(),
        RoomInventory {
            room_id: "!room:example.org".into(),
            display_name: Some("Main".into()),
            canonical_alias: None,
            space_ids: vec!["!space:example.org".into()],
            is_direct: false,
            stale: false,
        },
    );
    let mut state = BotfatherState {
        user: UserSnapshot {
            matrix_user_id: Some("@user:example.org".into()),
            homeserver_url: Some("https://matrix.example.org".into()),
        },
        inventory: InventorySnapshot {
            rooms,
            spaces: StrMap::new(),
        },
        ..Default::default()
    };
    state.workspaces.insert(
        "workspace".into(),
        Workspace {
            id: "workspace".into(),
            name: "Crew Workspace".into(),
            root_dir: "/tmp/workspace".into(),
            data_dir: None,
            skills_dirs: Vec::new(),
            description: None,
        },
    );
    state.runtime_profiles.insert(
        "crew".into(),
        RuntimeProfile {
            id: "crew".into(),
            name: "Crew Runtime".into(),
            workspace_id: Some("workspace".into()),
            description: None,
            dispatch_policy: Default::default(),
            config: RuntimeConfig::Crew {
                base_url: "http://127.0.0.1:8000".into(),
                api_key_env: Some("CREW_API_TOKEN".into()),
                model: None,
                system_prompt: None,
            },
        },
    );
    state.runtime_profiles.insert(
        "openclaw".into(),
        RuntimeProfile {
            id: "openclaw".into(),
            name: "OpenClaw Runtime".into(),
            workspace_id: None,
            description: None,
            dispatch_policy: Default::default(),
            config: RuntimeConfig::OpenClaw(OpenClawRuntimeConfig {
                gateway_url: "ws://127.0.0.1:24282/ws".into(),
                auth_token_env: None,
                agent_id: "main".into(),
            }),
        },
    );
    state.bots.insert(
        "crew-main".into(),
        BotDefinition {
            id: "crew-main".into(),
            name: "Crew Main".into(),
            runtime_profile_id: "crew".into(),
            default_sender_profile_id: Some("current-user".into()),
            priority: 0,
            enabled: true,
            trigger: TriggerPolicy {
                mode: TriggerMode::Manual,
                ..Default::default()
            },
            default_delivery: DeliveryTarget::CurrentRoom,
            permissions: PermissionPolicy::default(),
            runtime_override: Default::default(),
            dispatch_policy_override: None,
            description: None,
        },
    );
    state.bots.insert(
        "openclaw-main".into(),
        BotDefinition {
            id: "openclaw-main".into(),
            name: "OpenClaw Main".into(),
            runtime_profile_id: "openclaw".into(),
            default_sender_profile_id: Some("current-user".into()),
            priority: 100,
            enabled: true,
            trigger: TriggerPolicy {
                mode: TriggerMode::Mention,
                ..Default::default()
            },
            default_delivery: DeliveryTarget::CurrentThread,
            permissions: PermissionPolicy::default(),
            runtime_override: Default::default(),
            dispatch_policy_override: None,
            description: None,
        },
    );
    state.sender_profiles.insert(
        "current-user".into(),
        SenderProfile {
            id: "current-user".into(),
            name: "Current User".into(),
            enabled: true,
            kind: SenderProfileKind::CurrentUser,
            matrix_user_id: Some("@user:example.org".into()),
            homeserver_url: Some("https://matrix.example.org".into()),
            device_id: None,
            access_token_env: None,
            access_token: None,
            last_verified_at_millis: None,
            last_verification_error: None,
            security: SenderSecurityLevel::Standard,
            description: None,
        },
    );
    state
}

fn binding(bot_id: &str, priority: i32) -> BotBinding {
    BotBinding {
        bot_id: bot_id.into(),
        enabled: true,
        priority,
        trigger: None,
        delivery: None,
        permissions: None,
        sender_profile_id: None,
    }
}

#[test]
fn crew_is_primary_when_both_defaults_are_enabled() {
    let mut state = base_state();
    state.defaults = BotfatherDefaults {
        bot_ids: vec!["openclaw-main".into(), "crew-main".into()],
        default_sender_profile_id: Some("current-user".into()),
        ..Default::default()
    };

    let resolved = resolve_room_bots(&state, "!room:example.org").unwrap();

    assert_eq!(resolved[0].bot.id, "crew-main");
    assert_eq!(resolved[1].bot.id, "openclaw-main");
}

#[test]
fn preferred_bot_can_override_primary_selection() {
    let mut state = base_state();
    state.defaults = BotfatherDefaults {
        bot_ids: vec!["openclaw-main".into(), "crew-main".into()],
        default_sender_profile_id: Some("current-user".into()),
        ..Default::default()
    };

    let resolved = resolve_room_bot(&state, "!room:example.org", Some("openclaw-main")).unwrap();

    assert_eq!(resolved.bot.id, "openclaw-main");
}

#[test]
fn room_binding_overrides_space_and_default_for_same_bot() {
    let mut state = base_state();
    state.defaults = BotfatherDefaults {
        bot_ids: vec!["crew-main".into()],
        default_sender_profile_id: Some("current-user".into()),
        ..Default::default()
    };
    state.space_bindings.insert(
        "!space:example.org".into(),
        vec![BotBinding {
            bot_id: "openclaw-main".into(),
            enabled: true,
            priority: 0,
            trigger: None,
            delivery: Some(DeliveryTarget::CurrentThread),
            permissions: None,
            sender_profile_id: None,
        }],
    );
    state.room_bindings.insert(
        "!room:example.org".into(),
        vec![BotBinding {
            bot_id: "openclaw-main".into(),
            enabled: true,
            priority: 42,
            trigger: None,
            delivery: Some(DeliveryTarget::CurrentRoom),
            permissions: None,
            sender_profile_id: None,
        }],
    );

    let resolved = resolve_room_bots(&state, "!room:example.org").unwrap();
    let openclaw = resolved
        .into_iter()
        .find(|resolved| resolved.bot.id == "openclaw-main")
        .unwrap();

    assert!(matches!(openclaw.source, BindingSource::Room { .. }));
    assert_eq!(openclaw.delivery, DeliveryTarget::CurrentRoom);
    assert_eq!(openclaw.binding.unwrap().priority, 42);
}

#[test]
fn room_binding_beats_default_runtime_priority() {
    let mut state = base_state();
    state.defaults = BotfatherDefaults {
        bot_ids: vec!["crew-main".into()],
        default_sender_profile_id: Some("current-user".into()),
        ..Default::default()
    };
    state.room_bindings.insert(
        "!room:example.org".into(),
        vec![BotBinding {
            bot_id: "openclaw-main".into(),
            enabled: true,
            priority: 0,
            trigger: None,
            delivery: None,
            permissions: None,
            sender_profile_id: None,
        }],
    );

    let resolved = resolve_room_bot(&state, "!room:example.org", None).unwrap();

    assert_eq!(resolved.bot.id, "openclaw-main");
    assert!(matches!(resolved.source, BindingSource::Room { .. }));
}

#[test]
fn room_binding_can_override_sender_profile() {
    let mut state = base_state();
    state.defaults = BotfatherDefaults {
        bot_ids: vec!["crew-main".into()],
        default_sender_profile_id: Some("current-user".into()),
        ..Default::default()
    };
    state.sender_profiles.insert(
        "secure-room-bot".into(),
        SenderProfile {
            id: "secure-room-bot".into(),
            name: "Secure Room Bot".into(),
            enabled: true,
            kind: SenderProfileKind::MatrixBot,
            matrix_user_id: Some("@secure-bot:example.org".into()),
            homeserver_url: Some("https://matrix.example.org".into()),
            device_id: Some("SECUREBOT01".into()),
            access_token_env: Some("SECURE_ROOM_BOT_ACCESS_TOKEN".into()),
            access_token: None,
            last_verified_at_millis: None,
            last_verification_error: None,
            security: SenderSecurityLevel::Isolated,
            description: None,
        },
    );
    state.room_bindings.insert(
        "!room:example.org".into(),
        vec![BotBinding {
            bot_id: "crew-main".into(),
            enabled: true,
            priority: 0,
            trigger: None,
            delivery: None,
            permissions: None,
            sender_profile_id: Some("secure-room-bot".into()),
        }],
    );

    let resolved = resolve_room_bot(&state, "!room:example.org", None).unwrap();

    assert_eq!(resolved.bot.id, "crew-main");
    assert_eq!(resolved.sender_profile.id, "secure-room-bot");
    assert_eq!(
        resolved.sender_profile.security,
        SenderSecurityLevel::Isolated
    );
}

#[test]
fn unknown_room_is_reported() {
    let state = base_state();
    let err = resolve_room_bots(&state, "!other:example.org").unwrap_err();
    assert_eq!(err, ResolveError::UnknownRoom("!other:example.org".into()));
}

#[test]
fn room_without_bots_is_reported() {
    let state = base_state();
    let err = resolve_room_bots(&state, "!room:example.org").unwrap_err();
    assert_eq!(err, ResolveError::NoBotsConfigured("!room:example.org".into()));
    let err = resolve_room_bot(&state, "!room:example.org", None).unwrap_err();
    assert_eq!(err, ResolveError::NoBotsConfigured("!room:example.org".into()));
}

#[test]
fn unknown_default_bot_is_reported() {
    let mut state = base_state();
    state.defaults.bot_ids = vec!["crew-main".into(), "ghost".into()];
    let err = resolve_room_bots(&state, "!room:example.org").unwrap_err();
    assert_eq!(err, ResolveError::UnknownBot("ghost".into()));
}

#[test]
fn missing_runtime_profile_is_reported() {
    let mut state = base_state();
    let mut bot = state.bots.get("crew-main").unwrap().clone();
    bot.runtime_profile_id = "missing".into();
    state.bots.insert("crew-main".into(), bot);
    state.defaults.bot_ids = vec!["crew-main".into()];
    let err = resolve_room_bots(&state, "!room:example.org").unwrap_err();
    assert_eq!(err, ResolveError::UnknownRuntimeProfile("missing".into()));
}

#[test]
fn missing_sender_profile_is_reported() {
    let mut state = base_state();
    let mut bot = state.bots.get("crew-main").unwrap().clone();
    bot.default_sender_profile_id = None;
    state.bots.insert("crew-main".into(), bot);
    state.defaults.bot_ids = vec!["crew-main".into()];
    state.defaults.default_sender_profile_id = Some("nobody".into());
    let err = resolve_room_bots(&state, "!room:example.org").unwrap_err();
    assert_eq!(err, ResolveError::UnknownSenderProfile("nobody".into()));
}

#[test]
fn unnamed_sender_profile_falls_back_to_the_current_user() {
    let mut state = base_state();
    let mut bot = state.bots.get("crew-main").unwrap().clone();
    bot.default_sender_profile_id = None;
    state.bots.insert("crew-main".into(), bot);
    state.defaults.bot_ids = vec!["crew-main".into()];
    state.user.matrix_user_id = Some("@someone-else:example.org".into());
    let resolved = resolve_room_bot(&state, "!room:example.org", None).unwrap();
    assert_eq!(resolved.sender_profile.id, "current-user");
    // the stored profile is used as it is
    assert_eq!(resolved.sender_profile.matrix_user_id.as_deref(), Some("@user:example.org"));

    // without a stored profile of that id, one is made from the user snapshot
    state.sender_profiles = StrMap::new();
    state.user.matrix_user_id = Some("@me:example.org".into());
    let resolved = resolve_room_bot(&state, "!room:example.org", None).unwrap();
    let profile = &resolved.sender_profile;
    assert_eq!(profile.id, "current-user");
    assert_eq!(profile.name, "Current User");
    assert!(profile.enabled);
    assert!(profile.uses_current_user());
    assert_eq!(profile.matrix_user_id.as_deref(), Some("@me:example.org"));
    assert_eq!(profile.homeserver_url.as_deref(), Some("https://matrix.example.org"));
    assert_eq!(profile.security, SenderSecurityLevel::Standard);
    assert!(profile.access_token.is_none());
    assert!(profile.description.is_none());
}

#[test]
fn missing_workspace_is_reported() {
    let mut state = base_state();
    state.workspaces = StrMap::new();
    state.defaults.bot_ids = vec!["crew-main".into()];
    let err = resolve_room_bots(&state, "!room:example.org").unwrap_err();
    assert_eq!(err, ResolveError::UnknownWorkspace("workspace".into()));
}

#[test]
fn unavailable_preferred_bot_is_reported() {
    let mut state = base_state();
    state.defaults.bot_ids = vec!["crew-main".into()];
    let err = resolve_room_bot(&state, "!room:example.org", Some("openclaw-main")).unwrap_err();
    assert_eq!(
        err,
        ResolveError::PreferredBotNotAvailable {
            room_id: "!room:example.org".into(),
            bot_id: "openclaw-main".into(),
        }
    );
}

#[test]
fn disabled_bots_and_bindings_are_left_out() {
    let mut state = base_state();
    state.defaults.bot_ids = vec!["crew-main".into()];
    let mut off = binding("openclaw-main", 5);
    off.enabled = false;
    state.room_bindings.insert("!room:example.org".into(), vec![off]);
    let resolved = resolve_room_bots(&state, "!room:example.org").unwrap();
    assert_eq!(resolved.len(), 1);
    assert_eq!(resolved[0].bot.id, "crew-main");

    let mut bot = state.bots.get("crew-main").unwrap().clone();
    bot.enabled = false;
    state.bots.insert("crew-main".into(), bot);
    let err = resolve_room_bots(&state, "!room:example.org").unwrap_err();
    assert_eq!(err, ResolveError::NoBotsConfigured("!room:example.org".into()));
}

#[test]
fn bindings_rank_by_priority_then_runtime_then_id() {
    let mut state = base_state();
    state.space_bindings.insert(
        "!space:example.org".into(),
        vec![binding("crew-main", 1), binding("openclaw-main", 1)],
    );
    let resolved = resolve_room_bots(&state, "!room:example.org").unwrap();
    // openclaw-main: 1 + 100, crew-main: 1 + 0
    assert_eq!(resolved[0].bot.id, "openclaw-main");
    assert_eq!(resolved[1].bot.id, "crew-main");
    assert_eq!(resolved[0].effective_priority(), 101);
    assert_eq!(resolved[1].effective_priority(), 1);
    assert!(matches!(resolved[0].source, BindingSource::Space { .. }));
    assert_eq!(resolved[0].runtime_kind(), RuntimeKind::OpenClaw);
}

#[test]
fn binding_settings_take_precedence_over_bot_settings() {
    let mut state = base_state();
    let mut b = binding("openclaw-main", 0);
    b.trigger = Some(TriggerPolicy {
        mode: TriggerMode::Command,
        command_prefix: Some("!oc".into()),
        ..Default::default()
    });
    b.permissions = Some(PermissionPolicy {
        can_post_to_room: false,
        can_post_to_thread: true,
        can_react: true,
        can_use_tools: false,
    });
    state.room_bindings.insert("!room:example.org".into(), vec![b]);
    let resolved = resolve_room_bot(&state, "!room:example.org", None).unwrap();
    assert_eq!(resolved.trigger.mode, TriggerMode::Command);
    assert_eq!(resolved.trigger.command_prefix.as_deref(), Some("!oc"));
    assert!(resolved.permissions.can_react);
    assert!(!resolved.permissions.can_post_to_room);
    // no delivery on the binding: the bot's own
    assert_eq!(resolved.delivery, DeliveryTarget::CurrentThread);
    assert_eq!(resolved.room_id, "!room:example.org");
    assert!(resolved.workspace.is_none());
}

#[test]
fn default_crew_bot_gets_its_workspace_and_policy() {
    let mut state = base_state();
    state.defaults.bot_ids = vec!["crew-main".into()];
    let resolved = resolve_room_bot(&state, "!room:example.org", None).unwrap();
    assert_eq!(resolved.workspace.as_ref().unwrap().id, "workspace");
    assert!(matches!(resolved.source, BindingSource::Default));
    assert!(resolved.binding.is_none());
    assert_eq!(resolved.dispatch_policy.queue_limit, 8);
    assert_eq!(resolved.dispatch_policy.max_parallel_per_room, 1);
}

#[test]
fn resolve_errors_have_messages() {
    assert_eq!(
        ResolveError::UnknownRoom("!r".into()).message(),
        "room '!r' is not present in the current inventory snapshot"
    );
    assert_eq!(
        ResolveError::NoBotsConfigured("!r".into()).message(),
        "no enabled bot is configured for room '!r'"
    );
    assert_eq!(
        ResolveError::PreferredBotNotAvailable {
            room_id: "!r".into(),
            bot_id: "b".into()
        }
        .message(),
        "preferred bot 'b' is not available in room '!r'"
    );
    assert_eq!(
        ResolveError::UnknownSenderProfile("ghost".into()).message(),
        "sender profile 'ghost' was referenced but not found"
    );
}

#[test]
fn sender_profile_follows_binding_then_bot_then_defaults() {
    let mut state = base_state();
    let mut other = state.sender_profiles.get("current-user").unwrap().clone();
    other.id = "bot-sender".into();
    other.kind = SenderProfileKind::MatrixBot;
    state.sender_profiles.insert("bot-sender".into(), other);
    let bot = state.bots.get("crew-main").unwrap().clone();
    let binding = BotBinding {
        bot_id: "crew-main".into(),
        sender_profile_id: Some("bot-sender".into()),
        ..Default::default()
    };
    let from_binding = resolve_sender_profile(&state, &bot, Some(&binding)).unwrap();
    assert_eq!(from_binding.id, "bot-sender");
    let from_bot = resolve_sender_profile(&state, &bot, None).unwrap();
    assert_eq!(from_bot.id, "current-user");
    let mut unnamed = bot.clone();
    unnamed.default_sender_profile_id = None;
    state.defaults.default_sender_profile_id = Some("bot-sender".into());
    let from_defaults = resolve_sender_profile(&state, &unnamed, None).unwrap();
    assert_eq!(from_defaults.id, "bot-sender");
    // an unknown id is an error, even where a later one would be found
    let mut ghost = bot.clone();
    ghost.default_sender_profile_id = Some("ghost".into());
    assert_eq!(
        resolve_sender_profile(&state, &ghost, None).unwrap_err(),
        ResolveError::UnknownSenderProfile("ghost".into())
    );
}

#[test]
fn bound_bot_errors_come_in_lookup_order() {
    let mut state = base_state();
    assert_eq!(
        resolve_bound_bot(&state, "!room:example.org", None, BindingSource::Default, "ghost")
            .unwrap_err(),
        ResolveError::UnknownBot("ghost".into())
    );
    let mut bot = state.bots.get("crew-main").unwrap().clone();
    bot.runtime_profile_id = "missing".into();
    bot.default_sender_profile_id = Some("nobody".into());
    state.bots.insert("broken".into(), bot);
    assert_eq!(
        resolve_bound_bot(&state, "!room:example.org", None, BindingSource::Default, "broken")
            .unwrap_err(),
        ResolveError::UnknownRuntimeProfile("missing".into())
    );
    let mut bot = state.bots.get("crew-main").unwrap().clone();
    bot.default_sender_profile_id = Some("nobody".into());
    state.bots.insert("broken".into(), bot);
    state.workspaces = StrMap::new();
    assert_eq!(
        resolve_bound_bot(&state, "!room:example.org", None, BindingSource::Default, "broken")
            .unwrap_err(),
        ResolveError::UnknownSenderProfile("nobody".into())
    );
    assert_eq!(
        resolve_bound_bot(&state, "!room:example.org", None, BindingSource::Default, "crew-main")
            .unwrap_err(),
        ResolveError::UnknownWorkspace("workspace".into())
    );
}

fn summary(state: &BotfatherState) -> Vec<(String, i32, bool)> {
    resolve_room_bots(state, "!room:example.org")
        .unwrap()
        .iter()
        .map(|r| {
            (
                r.bot.id.clone(),
                r.binding.as_ref().map(|b| b.priority).unwrap_or(0),
                matches!(r.source, BindingSource::Room { .. }),
            )
        })
        .collect()
}

#[test]
fn disabled_bindings_change_no_resolution() {
    let mut state = base_state();
    state.defaults.bot_ids = vec!["crew-main".into(), "openclaw-main".into()];
    let before = summary(&state);
    let mut disabled = binding("openclaw-main", 99);
    disabled.enabled = false;
    state.room_bindings.insert("!room:example.org".into(), vec![disabled]);
    let mut disabled_in_space = binding("crew-main", 7);
    disabled_in_space.enabled = false;
    state
        .space_bindings
        .insert("!space:example.org".into(), vec![disabled_in_space]);
    assert_eq!(summary(&state), before);
}

#[test]
fn each_bot_is_listed_once() {
    let mut state = base_state();
    state.defaults.bot_ids = vec!["crew-main".into(), "openclaw-main".into()];
    state.space_bindings.insert(
        "!space:example.org".into(),
        vec![binding("crew-main", 1), binding("openclaw-main", 2)],
    );
    state.room_bindings.insert(
        "!room:example.org".into(),
        vec![binding("crew-main", 3), binding("crew-main", 4)],
    );
    let listed = summary(&state);
    assert_eq!(listed.len(), 2);
    let crew: Vec<_> = listed.iter().filter(|(id, _, _)| id == "crew-main").collect();
    assert_eq!(crew.len(), 1);
    // the last room binding of the bot is the one that stands
    assert!(crew[0].2);
    assert_eq!(crew[0].1, 4);
}
