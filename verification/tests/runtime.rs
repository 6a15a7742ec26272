use botfather::runtime::{
    available_runtime_kind,
    crew_request_override, crew_settings, openclaw_request_agent, openclaw_settings, usable_token,
    RuntimeSetupError,
};
use botfather::{
    BotRequest, BotRuntimeOverride, DeliveryTarget, DispatchPolicy, OpenClawRuntimeConfig,
    RuntimeConfig, RuntimeKind, RuntimeProfile,
};

fn crew_profile(base_url: &str) -> RuntimeProfile {
    RuntimeProfile {
        id: "crew".into(),
        name: "Crew".into(),
        workspace_id: None,
        description: None,
        dispatch_policy: DispatchPolicy::default(),
        config: RuntimeConfig::Crew {
            base_url: base_url.into(),
            api_key_env: Some("CREW_API_TOKEN".into()),
            model: Some("base-model".into()),
            system_prompt: None,
        },
    }
}

fn openclaw_profile() -> RuntimeProfile {
    RuntimeProfile {
        id: "openclaw".into(),
        name: "OpenClaw".into(),
        workspace_id: None,
        description: None,
        dispatch_policy: DispatchPolicy::default(),
        config: RuntimeConfig::OpenClaw(OpenClawRuntimeConfig {
            gateway_url: "ws://127.0.0.1:24282/ws".into(),
            auth_token_env: None,
            agent_id: "main".into(),
        }),
    }
}

fn request(runtime_override: BotRuntimeOverride) -> BotRequest {
    BotRequest {
        room_id: "!room:example.org".into(),
        thread_root_event_id: None,
        reply_root_event_id: None,
        bot_id: "bot".into(),
        session_id: "s".into(),
        message: "hi".into(),
        delivery_target: DeliveryTarget::CurrentRoom,
        runtime_override,
    }
}

#[test]
fn crew_settings_take_a_crew_profile_with_a_valid_url() {
    let settings = crew_settings(&crew_profile("http://127.0.0.1:8000")).unwrap();
    assert_eq!(settings.base_url, "http://127.0.0.1:8000");
    assert_eq!(settings.api_key_env.as_deref(), Some("CREW_API_TOKEN"));
    assert_eq!(settings.model.as_deref(), Some("base-model"));
}

#[test]
fn crew_settings_reject_an_invalid_url() {
    let err = crew_settings(&crew_profile("not a url")).unwrap_err();
    assert!(matches!(err, RuntimeSetupError::Url(_)));
}

#[test]
fn settings_reject_the_other_kind() {
    match crew_settings(&openclaw_profile()).unwrap_err() {
        RuntimeSetupError::WrongRuntimeKind {
            runtime_profile_id,
            expected,
        } => {
            assert_eq!(runtime_profile_id, "openclaw");
            assert_eq!(expected, RuntimeKind::Crew);
        }
        other => panic!("unexpected {other:?}"),
    }
    match openclaw_settings(&crew_profile("http://x")).unwrap_err() {
        RuntimeSetupError::WrongRuntimeKind { expected, .. } => {
            assert_eq!(expected, RuntimeKind::OpenClaw)
        }
        other => panic!("unexpected {other:?}"),
    }
    let config = openclaw_settings(&openclaw_profile()).unwrap();
    assert_eq!(config.gateway_url, "ws://127.0.0.1:24282/ws");
    assert_eq!(config.agent_id, "main");
}

#[test]
fn tokens_must_be_set_and_non_empty() {
    assert_eq!(usable_token(None), None);
    assert_eq!(usable_token(Some(String::new())), None);
    assert_eq!(usable_token(Some("t0k".into())), Some("t0k".to_string()));
}

#[test]
fn request_overrides_take_precedence() {
    let settings = crew_settings(&crew_profile("http://127.0.0.1:8000")).unwrap();
    let (model, prompt) = crew_request_override(&request(BotRuntimeOverride::default()), &settings);
    assert_eq!(model.as_deref(), Some("base-model"));
    assert_eq!(prompt, None);
    let (model, prompt) = crew_request_override(
        &request(BotRuntimeOverride {
            model: Some("m2".into()),
            system_prompt: Some("p".into()),
            agent_id: None,
        }),
        &settings,
    );
    assert_eq!(model.as_deref(), Some("m2"));
    assert_eq!(prompt.as_deref(), Some("p"));
    assert_eq!(
        openclaw_request_agent(&request(BotRuntimeOverride::default()), "main"),
        "main"
    );
    assert_eq!(
        openclaw_request_agent(
            &request(BotRuntimeOverride {
                agent_id: Some("helper".into()),
                ..Default::default()
            }),
            "main"
        ),
        "helper"
    );
}

#[test]
fn both_runtimes_are_available_in_this_build() {
    assert_eq!(available_runtime_kind(&crew_profile("http://127.0.0.1:8000")), Ok(RuntimeKind::Crew));
    assert_eq!(available_runtime_kind(&openclaw_profile()), Ok(RuntimeKind::OpenClaw));
}
