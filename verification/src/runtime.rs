//! What a dispatch hands a runtime, and which runtimes this build includes.
use vstd::prelude::*;

use crate::state;
use crate::state::{
    BotRuntimeOverride, DeliveryTarget, OpenClawRuntimeConfig, RuntimeConfig, RuntimeKind,
    RuntimeProfile,
};
use crate::text;

verus! {

/// Whether this build includes the Crew runtime.
pub const CREW_RUNTIME_ENABLED: bool = true;

/// Whether this build includes the OpenClaw runtime.
pub const OPENCLAW_RUNTIME_ENABLED: bool = true;

/// Whether this build includes the runtime of kind `kind`.
pub open spec fn runtime_enabled(kind: RuntimeKind) -> bool {
    match kind {
        RuntimeKind::Crew => CREW_RUNTIME_ENABLED,
        RuntimeKind::OpenClaw => OPENCLAW_RUNTIME_ENABLED,
    }
}

/// Whether this build includes the runtime of kind `kind`.
pub fn runtime_feature_enabled(kind: RuntimeKind) -> (r: bool)
    ensures
        r == runtime_enabled(kind),
{
    match kind {
        RuntimeKind::Crew => CREW_RUNTIME_ENABLED,
        RuntimeKind::OpenClaw => OPENCLAW_RUNTIME_ENABLED,
    }
}

/// The kind of runtime that `profile` needs: `Ok` where this build includes
/// it, and `Err` of the same kind where the build leaves it out.
pub fn available_runtime_kind(profile: &RuntimeProfile) -> (r: Result<RuntimeKind, RuntimeKind>)
    ensures
        r == if runtime_enabled(profile@.config.kind()) {
            Ok::<RuntimeKind, RuntimeKind>(profile@.config.kind())
        } else {
            Err::<RuntimeKind, RuntimeKind>(profile@.config.kind())
        },
{
    let kind = profile.kind();
    if runtime_feature_enabled(kind) {
        Ok(kind)
    } else {
        Err(kind)
    }
}

/// A message for a bot, addressed to a session.
#[derive(Debug, PartialEq, Eq)]
pub struct BotRequest {
    pub room_id: String,
    pub thread_root_event_id: Option<String>,
    pub reply_root_event_id: Option<String>,
    pub bot_id: String,
    pub session_id: String,
    pub message: String,
    pub delivery_target: DeliveryTarget,
    pub runtime_override: BotRuntimeOverride,
}

pub struct BotRequestView {
    pub room_id: Seq<char>,
    pub thread_root_event_id: Option<Seq<char>>,
    pub reply_root_event_id: Option<Seq<char>>,
    pub bot_id: Seq<char>,
    pub session_id: Seq<char>,
    pub message: Seq<char>,
    pub delivery_target: DeliveryTarget,
    pub runtime_override: state::BotRuntimeOverrideView,
}

impl View for BotRequest {
    type V = BotRequestView;

    open spec fn view(&self) -> BotRequestView {
        BotRequestView {
            room_id: self.room_id@,
            thread_root_event_id: text::opt_view(self.thread_root_event_id),
            reply_root_event_id: text::opt_view(self.reply_root_event_id),
            bot_id: self.bot_id@,
            session_id: self.session_id@,
            message: self.message@,
            delivery_target: self.delivery_target,
            runtime_override: self.runtime_override@,
        }
    }
}

impl Clone for BotRequest {
    fn clone(&self) -> (r: Self)
        ensures
            r@ == self@,
    {
        BotRequest {
            room_id: self.room_id.clone(),
            thread_root_event_id: text::clone_opt(&self.thread_root_event_id),
            reply_root_event_id: text::clone_opt(&self.reply_root_event_id),
            bot_id: self.bot_id.clone(),
            session_id: self.session_id.clone(),
            message: self.message.clone(),
            delivery_target: self.delivery_target,
            runtime_override: self.runtime_override.clone(),
        }
    }
}

#[verifier::external_type_specification]
#[verifier::external_body]
pub struct ExUrlParseError(url::ParseError);

/// Whether `url::Url::parse` accepts `input` as an absolute URL.
pub uninterp spec fn url_parses(input: Seq<char>) -> bool;

/// Wraps `url::Url::parse`: succeeds exactly where the input is named
/// `url_parses`, and hands back the parser's error otherwise. The parsed URL
/// itself is not kept: the transport that needs it parses the same string.
#[verifier::external_body]
fn check_url(input: &str) -> (r: Result<(), url::ParseError>)
    ensures
        r is Ok == url_parses(input@),
{
    match url::Url::parse(input) {
        Ok(_) => Ok(()),
        Err(error) => Err(error),
    }
}

/// Why a runtime profile cannot be set up as the runtime asked for.
#[derive(Debug)]
pub enum RuntimeSetupError {
    WrongRuntimeKind { runtime_profile_id: String, expected: RuntimeKind },
    Url(url::ParseError),
}

/// What a Crew runtime is set up from: a base URL that parses, the
/// environment variable that holds its API key, and the model and system
/// prompt that apply where a request sets none.
#[derive(Clone, Debug, PartialEq, Eq)]
pub struct CrewSettings {
    pub base_url: String,
    pub api_key_env: Option<String>,
    pub model: Option<String>,
    pub system_prompt: Option<String>,
}

/// The settings of a Crew runtime profile, or why it is not one: the
/// profile's kind is checked first, then its base URL.
pub fn crew_settings(profile: &RuntimeProfile) -> (r: Result<CrewSettings, RuntimeSetupError>)
    ensures
        match profile@.config {
            state::RuntimeConfigView::Crew { base_url, api_key_env, model, system_prompt } => match r {
                Ok(settings) => url_parses(base_url) && settings.base_url@ == base_url
                    && text::opt_view(settings.api_key_env) == api_key_env && text::opt_view(
                    settings.model,
                ) == model && text::opt_view(settings.system_prompt) == system_prompt,
                Err(e) => !url_parses(base_url) && e is Url,
            },
            state::RuntimeConfigView::OpenClaw(_) => match r {
                Err(RuntimeSetupError::WrongRuntimeKind { runtime_profile_id, expected }) => {
                    runtime_profile_id@ == profile@.id && expected == RuntimeKind::Crew
                },
                _ => false,
            },
        },
{
    match &profile.config {
        RuntimeConfig::Crew { base_url, api_key_env, model, system_prompt } => {
            match check_url(base_url.as_str()) {
                Ok(()) => Ok(
                    CrewSettings {
                        base_url: base_url.clone(),
                        api_key_env: text::clone_opt(api_key_env),
                        model: text::clone_opt(model),
                        system_prompt: text::clone_opt(system_prompt),
                    },
                ),
                Err(error) => Err(RuntimeSetupError::Url(error)),
            }
        },
        RuntimeConfig::OpenClaw(_) => Err(
            RuntimeSetupError::WrongRuntimeKind {
                runtime_profile_id: profile.id.clone(),
                expected: RuntimeKind::Crew,
            },
        ),
    }
}

/// The settings of an OpenClaw runtime profile, or why it is not one.
pub fn openclaw_settings(profile: &RuntimeProfile) -> (r: Result<
    OpenClawRuntimeConfig,
    RuntimeSetupError,
>)
    ensures
        match profile@.config {
            state::RuntimeConfigView::OpenClaw(config) => r is Ok && r->Ok_0@ == config,
            state::RuntimeConfigView::Crew { .. } => match r {
                Err(RuntimeSetupError::WrongRuntimeKind { runtime_profile_id, expected }) => {
                    runtime_profile_id@ == profile@.id && expected == RuntimeKind::OpenClaw
                },
                _ => false,
            },
        },
{
    match &profile.config {
        RuntimeConfig::OpenClaw(config) => Ok(config.clone()),
        RuntimeConfig::Crew { .. } => Err(
            RuntimeSetupError::WrongRuntimeKind {
                runtime_profile_id: profile.id.clone(),
                expected: RuntimeKind::OpenClaw,
            },
        ),
    }
}

/// The auth token that a runtime uses, from the value of its environment
/// variable: a set, non-empty value; nothing otherwise.
pub fn usable_token(value: Option<String>) -> (r: Option<String>)
    ensures
        text::opt_view(r) == match text::opt_view(value) {
            Some(v) => if v.len() > 0 {
                Some(v)
            } else {
                None
            },
            None => None,
        },
{
    match value {
        Some(token) => if token.as_str().is_empty() {
            None
        } else {
            Some(token)
        },
        None => None,
    }
}

/// The model and system prompt that a Crew request runs with: the request's
/// override where it sets one, else the runtime's.
pub fn crew_request_override(request: &BotRequest, settings: &CrewSettings) -> (r: (
    Option<String>,
    Option<String>,
))
    ensures
        text::opt_view(r.0) == if request@.runtime_override.model is Some {
            request@.runtime_override.model
        } else {
            text::opt_view(settings.model)
        },
        text::opt_view(r.1) == if request@.runtime_override.system_prompt is Some {
            request@.runtime_override.system_prompt
        } else {
            text::opt_view(settings.system_prompt)
        },
{
    let model = match &request.runtime_override.model {
        Some(m) => Some(m.clone()),
        None => text::clone_opt(&settings.model),
    };
    let system_prompt = match &request.runtime_override.system_prompt {
        Some(p) => Some(p.clone()),
        None => text::clone_opt(&settings.system_prompt),
    };
    (model, system_prompt)
}

/// The agent that an OpenClaw request goes to: the request's override where
/// it sets one, else the runtime's agent.
pub fn openclaw_request_agent(request: &BotRequest, agent_id: &str) -> (r: String)
    ensures
        r@ == match request@.runtime_override.agent_id {
            Some(a) => a,
            None => agent_id@,
        },
{
    match &request.runtime_override.agent_id {
        Some(a) => a.clone(),
        None => agent_id.to_owned(),
    }
}

} // verus!
