//! Resolves a room into the bots that serve it: the default bots, the bots
//! bound to the room's spaces and the bots bound to the room itself, each
//! with the runtime, sender and settings that apply, ranked for dispatch.
use vstd::prelude::*;

use crate::runtime::runtime_feature_enabled;
use crate::state;
use crate::state::{
    BotBinding, BotDefinition, BotfatherState, BotRuntimeOverride, DeliveryTarget, DispatchPolicy,
    PermissionPolicy, RuntimeKind, RuntimeProfile, SenderProfile, TriggerPolicy, Workspace,
};
use crate::text;

verus! {

/// Why a room could not be resolved.
#[derive(Debug, PartialEq, Eq)]
pub enum ResolveError {
    UnknownRoom(String),
    UnknownBot(String),
    UnknownRuntimeProfile(String),
    UnknownSenderProfile(String),
    UnknownWorkspace(String),
    NoBotsConfigured(String),
    PreferredBotNotAvailable { room_id: String, bot_id: String },
}

pub enum ResolveErrorView {
    UnknownRoom(Seq<char>),
    UnknownBot(Seq<char>),
    UnknownRuntimeProfile(Seq<char>),
    UnknownSenderProfile(Seq<char>),
    UnknownWorkspace(Seq<char>),
    NoBotsConfigured(Seq<char>),
    PreferredBotNotAvailable { room_id: Seq<char>, bot_id: Seq<char> },
}

impl View for ResolveError {
    type V = ResolveErrorView;

    open spec fn view(&self) -> ResolveErrorView {
        match self {
            ResolveError::UnknownRoom(s) => ResolveErrorView::UnknownRoom(s@),
            ResolveError::UnknownBot(s) => ResolveErrorView::UnknownBot(s@),
            ResolveError::UnknownRuntimeProfile(s) => ResolveErrorView::UnknownRuntimeProfile(s@),
            ResolveError::UnknownSenderProfile(s) => ResolveErrorView::UnknownSenderProfile(s@),
            ResolveError::UnknownWorkspace(s) => ResolveErrorView::UnknownWorkspace(s@),
            ResolveError::NoBotsConfigured(s) => ResolveErrorView::NoBotsConfigured(s@),
            ResolveError::PreferredBotNotAvailable { room_id, bot_id } => {
                ResolveErrorView::PreferredBotNotAvailable { room_id: room_id@, bot_id: bot_id@ }
            },
        }
    }
}

/// The message that tells a user why a room could not be resolved.
pub open spec fn resolve_error_message(e: ResolveErrorView) -> Seq<char> {
    match e {
        ResolveErrorView::UnknownRoom(id) => "room '"@ + id
            + "' is not present in the current inventory snapshot"@,
        ResolveErrorView::UnknownBot(id) => "bot '"@ + id + "' was referenced but not found"@,
        ResolveErrorView::UnknownRuntimeProfile(id) => "runtime profile '"@ + id
            + "' was referenced but not found"@,
        ResolveErrorView::UnknownSenderProfile(id) => "sender profile '"@ + id
            + "' was referenced but not found"@,
        ResolveErrorView::UnknownWorkspace(id) => "workspace '"@ + id
            + "' was referenced but not found"@,
        ResolveErrorView::NoBotsConfigured(id) => "no enabled bot is configured for room '"@ + id
            + "'"@,
        ResolveErrorView::PreferredBotNotAvailable { room_id, bot_id } => "preferred bot '"@ + bot_id
            + "' is not available in room '"@ + room_id + "'"@,
    }
}

fn quoted(before: &str, id: &str, after: &str) -> (s: String)
    ensures
        s@ == before@ + id@ + after@,
{
    let mut s = String::from_str(before);
    s.append(id);
    s.append(after);
    s
}

impl ResolveError {
    /// The message that tells a user why the room could not be resolved.
    pub fn message(&self) -> (s: String)
        ensures
            s@ == resolve_error_message(self@),
    {
        match self {
            ResolveError::UnknownRoom(id) => quoted(
                "room '",
                id.as_str(),
                "' is not present in the current inventory snapshot",
            ),
            ResolveError::UnknownBot(id) => quoted(
                "bot '",
                id.as_str(),
                "' was referenced but not found",
            ),
            ResolveError::UnknownRuntimeProfile(id) => quoted(
                "runtime profile '",
                id.as_str(),
                "' was referenced but not found",
            ),
            ResolveError::UnknownSenderProfile(id) => quoted(
                "sender profile '",
                id.as_str(),
                "' was referenced but not found",
            ),
            ResolveError::UnknownWorkspace(id) => quoted(
                "workspace '",
                id.as_str(),
                "' was referenced but not found",
            ),
            ResolveError::NoBotsConfigured(id) => quoted(
                "no enabled bot is configured for room '",
                id.as_str(),
                "'",
            ),
            ResolveError::PreferredBotNotAvailable { room_id, bot_id } => {
                let mut s = quoted("preferred bot '", bot_id.as_str(), "' is not available in room '");
                s.append(room_id.as_str());
                s.append("'");
                s
            },
        }
    }
}

/// Where a resolved bot comes from.
#[derive(Debug, PartialEq, Eq)]
pub enum BindingSource {
    Default,
    Space { space_id: String },
    Room { room_id: String },
}

pub enum BindingSourceView {
    Default,
    Space { space_id: Seq<char> },
    Room { room_id: Seq<char> },
}

impl View for BindingSource {
    type V = BindingSourceView;

    open spec fn view(&self) -> BindingSourceView {
        match self {
            BindingSource::Default => BindingSourceView::Default,
            BindingSource::Space { space_id } => BindingSourceView::Space { space_id: space_id@ },
            BindingSource::Room { room_id } => BindingSourceView::Room { room_id: room_id@ },
        }
    }
}

impl Clone for BindingSource {
    fn clone(&self) -> (r: Self)
        ensures
            r@ == self@,
    {
        match self {
            BindingSource::Default => BindingSource::Default,
            BindingSource::Space { space_id } => BindingSource::Space { space_id: space_id.clone() },
            BindingSource::Room { room_id } => BindingSource::Room { room_id: room_id.clone() },
        }
    }
}

/// A bot as it serves a room: the bot, its runtime, its sender, and the
/// settings that the binding or the bot give it.
#[derive(Debug, PartialEq, Eq)]
pub struct ResolvedBotBinding {
    pub room_id: String,
    pub source: BindingSource,
    pub binding: Option<BotBinding>,
    pub bot: BotDefinition,
    pub runtime_profile: RuntimeProfile,
    pub sender_profile: SenderProfile,
    pub workspace: Option<Workspace>,
    pub trigger: TriggerPolicy,
    pub delivery: DeliveryTarget,
    pub permissions: PermissionPolicy,
    pub runtime_override: BotRuntimeOverride,
    pub dispatch_policy: DispatchPolicy,
}

pub struct ResolvedView {
    pub room_id: Seq<char>,
    pub source: BindingSourceView,
    pub binding: Option<state::BotBindingView>,
    pub bot: state::BotDefinitionView,
    pub runtime_profile: state::RuntimeProfileView,
    pub sender_profile: state::SenderProfileView,
    pub workspace: Option<state::WorkspaceView>,
    pub trigger: state::TriggerPolicyView,
    pub delivery: DeliveryTarget,
    pub permissions: PermissionPolicy,
    pub runtime_override: state::BotRuntimeOverrideView,
    pub dispatch_policy: DispatchPolicy,
}

/// The view of an optional binding.
pub open spec fn opt_binding_view(b: Option<BotBinding>) -> Option<state::BotBindingView> {
    match b {
        Some(b) => Some(b@),
        None => None,
    }
}

/// The view of an optional workspace.
pub open spec fn opt_workspace_view(w: Option<Workspace>) -> Option<state::WorkspaceView> {
    match w {
        Some(w) => Some(w@),
        None => None,
    }
}

impl View for ResolvedBotBinding {
    type V = ResolvedView;

    open spec fn view(&self) -> ResolvedView {
        ResolvedView {
            room_id: self.room_id@,
            source: self.source@,
            binding: opt_binding_view(self.binding),
            bot: self.bot@,
            runtime_profile: self.runtime_profile@,
            sender_profile: self.sender_profile@,
            workspace: opt_workspace_view(self.workspace),
            trigger: self.trigger@,
            delivery: self.delivery,
            permissions: self.permissions,
            runtime_override: self.runtime_override@,
            dispatch_policy: self.dispatch_policy,
        }
    }
}

impl Clone for ResolvedBotBinding {
    fn clone(&self) -> (r: Self)
        ensures
            r@ == self@,
    {
        let binding = match &self.binding {
            Some(b) => Some(b.clone()),
            None => None,
        };
        let workspace = match &self.workspace {
            Some(w) => Some(w.clone()),
            None => None,
        };
        ResolvedBotBinding {
            room_id: self.room_id.clone(),
            source: self.source.clone(),
            binding,
            bot: self.bot.clone(),
            runtime_profile: self.runtime_profile.clone(),
            sender_profile: self.sender_profile.clone(),
            workspace,
            trigger: self.trigger.clone(),
            delivery: self.delivery,
            permissions: self.permissions,
            runtime_override: self.runtime_override.clone(),
            dispatch_policy: self.dispatch_policy,
        }
    }
}

/// The priority of a resolved bot: its binding's (none counts 0) plus the bot's.
pub open spec fn effective_priority_of(r: ResolvedView) -> int {
    (match r.binding {
        Some(b) => b.priority as int,
        None => 0int,
    }) + r.bot.priority as int
}

/// The kind of runtime that a resolved bot runs on.
pub open spec fn runtime_kind_of(r: ResolvedView) -> RuntimeKind {
    r.runtime_profile.config.kind()
}

impl ResolvedBotBinding {
    /// The kind of runtime that the bot runs on.
    pub fn runtime_kind(&self) -> (k: RuntimeKind)
        ensures
            k == runtime_kind_of(self@),
    {
        self.runtime_profile.kind()
    }

    /// The binding's priority (0 without a binding) plus the bot's priority.
    /// The sum must fit in an `i32`.
    pub fn effective_priority(&self) -> (p: i32)
        requires
            i32::MIN <= effective_priority_of(self@) <= i32::MAX,
        ensures
            p == effective_priority_of(self@),
    {
        let base = match &self.binding {
            Some(binding) => binding.priority,
            None => 0,
        };
        base + self.bot.priority
    }
}

/// The sender profile id that applies: the binding's, else the bot's, else
/// the state's default.
pub open spec fn sender_profile_id_for(
    s: BotfatherState,
    bot: state::BotDefinitionView,
    binding: Option<state::BotBindingView>,
) -> Option<Seq<char>> {
    if binding is Some && binding->0.sender_profile_id is Some {
        binding->0.sender_profile_id
    } else if bot.default_sender_profile_id is Some {
        bot.default_sender_profile_id
    } else {
        text::opt_view(s.defaults.default_sender_profile_id)
    }
}

/// The sender profile used where no id is named: the one stored under
/// `CURRENT_USER_SENDER_ID`, else the logged-in user's own.
pub open spec fn fallback_sender_profile(s: BotfatherState) -> state::SenderProfileView {
    if s.sender_profiles@.contains_key(state::CURRENT_USER_SENDER_ID@) {
        s.sender_profiles@[state::CURRENT_USER_SENDER_ID@]@
    } else {
        state::current_user_profile(s.user)
    }
}

/// The sender profile that a bot resolves to, or why there is none: the
/// profile of the id that applies, an error where that id is unknown, and
/// the fallback profile where no id is named anywhere.
pub open spec fn sender_profile_for(
    s: BotfatherState,
    bot: state::BotDefinitionView,
    binding: Option<state::BotBindingView>,
) -> Result<state::SenderProfileView, ResolveErrorView> {
    match sender_profile_id_for(s, bot, binding) {
        None => Ok(fallback_sender_profile(s)),
        Some(id) => if s.sender_profiles@.contains_key(id) {
            Ok(s.sender_profiles@[id]@)
        } else {
            Err(ResolveErrorView::UnknownSenderProfile(id))
        },
    }
}

/// The workspace of a runtime profile, if it names one, or why it is missing.
pub open spec fn workspace_for(s: BotfatherState, profile: state::RuntimeProfileView) -> Result<
    Option<state::WorkspaceView>,
    ResolveErrorView,
> {
    match profile.workspace_id {
        None => Ok(None),
        Some(id) => if s.workspaces@.contains_key(id) {
            Ok(Some(s.workspaces@[id]@))
        } else {
            Err(ResolveErrorView::UnknownWorkspace(id))
        },
    }
}

/// The trigger that applies: the binding's, else the bot's.
pub open spec fn trigger_for(
    binding: Option<state::BotBindingView>,
    bot: state::BotDefinitionView,
) -> state::TriggerPolicyView {
    if binding is Some && binding->0.trigger is Some {
        binding->0.trigger->0
    } else {
        bot.trigger
    }
}

/// Where replies go: as the binding says, else as the bot says.
pub open spec fn delivery_for(
    binding: Option<state::BotBindingView>,
    bot: state::BotDefinitionView,
) -> DeliveryTarget {
    if binding is Some && binding->0.delivery is Some {
        binding->0.delivery->0
    } else {
        bot.default_delivery
    }
}

/// The permissions that apply: the binding's, else the bot's.
pub open spec fn permissions_for(
    binding: Option<state::BotBindingView>,
    bot: state::BotDefinitionView,
) -> PermissionPolicy {
    if binding is Some && binding->0.permissions is Some {
        binding->0.permissions->0
    } else {
        bot.permissions
    }
}

/// The resolved bot made of its parts; the dispatch policy is the bot's
/// override, else the runtime profile's.
pub open spec fn resolved_view(
    room_id: Seq<char>,
    source: BindingSourceView,
    binding: Option<state::BotBindingView>,
    bot: state::BotDefinitionView,
    profile: state::RuntimeProfileView,
    sender: state::SenderProfileView,
    workspace: Option<state::WorkspaceView>,
) -> ResolvedView {
    ResolvedView {
        room_id,
        source,
        binding,
        bot,
        runtime_profile: profile,
        sender_profile: sender,
        workspace,
        trigger: trigger_for(binding, bot),
        delivery: delivery_for(binding, bot),
        permissions: permissions_for(binding, bot),
        runtime_override: bot.runtime_override,
        dispatch_policy: match bot.dispatch_policy_override {
            Some(p) => p,
            None => profile.dispatch_policy,
        },
    }
}

/// A bot resolved for a room from an optional binding, or the first thing
/// that is missing, checked in the order bot, runtime profile, sender
/// profile, workspace.
pub open spec fn resolve_bound_spec(
    s: BotfatherState,
    room_id: Seq<char>,
    binding: Option<state::BotBindingView>,
    source: BindingSourceView,
    bot_id: Seq<char>,
) -> Result<ResolvedView, ResolveErrorView> {
    if !s.bots@.contains_key(bot_id) {
        Err(ResolveErrorView::UnknownBot(bot_id))
    } else {
        let bot = s.bots@[bot_id]@;
        if !s.runtime_profiles@.contains_key(bot.runtime_profile_id) {
            Err(ResolveErrorView::UnknownRuntimeProfile(bot.runtime_profile_id))
        } else {
            let profile = s.runtime_profiles@[bot.runtime_profile_id]@;
            match sender_profile_for(s, bot, binding) {
                Err(e) => Err(e),
                Ok(sender) => match workspace_for(s, profile) {
                    Err(e) => Err(e),
                    Ok(workspace) => Ok(
                        resolved_view(room_id, source, binding, bot, profile, sender, workspace),
                    ),
                },
            }
        }
    }
}

/// The view of a result of resolution.
pub open spec fn result_view<T: View>(r: Result<T, ResolveError>) -> Result<T::V, ResolveErrorView> {
    match r {
        Ok(t) => Ok(t@),
        Err(e) => Err(e@),
    }
}

/// The sender profile that `bot` sends as, bound by `binding` if it is.
pub fn resolve_sender_profile(
    state: &BotfatherState,
    bot: &BotDefinition,
    binding: Option<&BotBinding>,
) -> (r: Result<SenderProfile, ResolveError>)
    ensures
        result_view(r) == sender_profile_for(
            *state,
            bot@,
            match binding {
                Some(b) => Some(b@),
                None => None,
            },
        ),
{
    let id: Option<&String> = match binding {
        Some(b) if b.sender_profile_id.is_some() => b.sender_profile_id.as_ref(),
        _ => if bot.default_sender_profile_id.is_some() {
            bot.default_sender_profile_id.as_ref()
        } else {
            state.defaults.default_sender_profile_id.as_ref()
        },
    };
    match id {
        None => match state.sender_profiles.get(state::CURRENT_USER_SENDER_ID) {
            Some(profile) => Ok(profile.clone()),
            None => Ok(SenderProfile::current_user(&state.user)),
        },
        Some(id) => match state.sender_profiles.get(id.as_str()) {
            Some(profile) => Ok(profile.clone()),
            None => Err(ResolveError::UnknownSenderProfile(id.clone())),
        },
    }
}

fn resolve_default_bot(state: &BotfatherState, room_id: &str, bot_id: &str) -> (r: Result<
    ResolvedBotBinding,
    ResolveError,
>)
    ensures
        result_view(r) == resolve_bound_spec(
            *state,
            room_id@,
            None,
            BindingSourceView::Default,
            bot_id@,
        ),
{
    resolve_bound_bot(state, room_id, None, BindingSource::Default, bot_id)
}

fn resolve_workspace(state: &BotfatherState, profile: &RuntimeProfile) -> (r: Result<
    Option<Workspace>,
    ResolveError,
>)
    ensures
        match r {
            Ok(w) => workspace_for(*state, profile@) == Ok::<
                Option<state::WorkspaceView>,
                ResolveErrorView,
            >(opt_workspace_view(w)),
            Err(e) => workspace_for(*state, profile@) == Err::<
                Option<state::WorkspaceView>,
                ResolveErrorView,
            >(e@),
        },
{
    match &profile.workspace_id {
        None => Ok(None),
        Some(workspace_id) => match state.workspaces.get(workspace_id.as_str()) {
            Some(workspace) => Ok(Some(workspace.clone())),
            None => Err(ResolveError::UnknownWorkspace(workspace_id.clone())),
        },
    }
}

fn binding_trigger(binding: &Option<BotBinding>, bot: &BotDefinition) -> (t: TriggerPolicy)
    ensures
        t@ == trigger_for(opt_binding_view(*binding), bot@),
{
    match binding {
        Some(b) => match &b.trigger {
            Some(t) => t.clone(),
            None => bot.trigger.clone(),
        },
        None => bot.trigger.clone(),
    }
}

fn binding_delivery(binding: &Option<BotBinding>, bot: &BotDefinition) -> (d: DeliveryTarget)
    ensures
        d == delivery_for(opt_binding_view(*binding), bot@),
{
    match binding {
        Some(b) => match b.delivery {
            Some(d) => d,
            None => bot.default_delivery,
        },
        None => bot.default_delivery,
    }
}

fn binding_permissions(binding: &Option<BotBinding>, bot: &BotDefinition) -> (p: PermissionPolicy)
    ensures
        p == permissions_for(opt_binding_view(*binding), bot@),
{
    match binding {
        Some(b) => match b.permissions {
            Some(p) => p,
            None => bot.permissions,
        },
        None => bot.permissions,
    }
}

/// Resolves one bot for a room: its definition, runtime profile, sender
/// profile and workspace, each looked up in that order, with what a binding
/// (where the bot is bound) sets in place of the bot's own settings.
pub fn resolve_bound_bot(
    state: &BotfatherState,
    room_id: &str,
    binding: Option<BotBinding>,
    source: BindingSource,
    bot_id: &str,
) -> (r: Result<ResolvedBotBinding, ResolveError>)
    ensures
        result_view(r) == resolve_bound_spec(
            *state,
            room_id@,
            opt_binding_view(binding),
            source@,
            bot_id@,
        ),
{
    let bot = match state.bots.get(bot_id) {
        Some(bot) => bot.clone(),
        None => {
            return Err(ResolveError::UnknownBot(bot_id.to_owned()));
        },
    };
    let runtime_profile = match state.runtime_profiles.get(bot.runtime_profile_id.as_str()) {
        Some(profile) => profile.clone(),
        None => {
            return Err(ResolveError::UnknownRuntimeProfile(bot.runtime_profile_id.clone()));
        },
    };
    let sender_profile = match resolve_sender_profile(state, &bot, binding.as_ref()) {
        Ok(sender) => sender,
        Err(e) => {
            return Err(e);
        },
    };
    let workspace = match resolve_workspace(state, &runtime_profile) {
        Ok(workspace) => workspace,
        Err(e) => {
            return Err(e);
        },
    };
    let trigger = binding_trigger(&binding, &bot);
    let delivery = binding_delivery(&binding, &bot);
    let permissions = binding_permissions(&binding, &bot);
    let runtime_override = bot.runtime_override.clone();
    let dispatch_policy = match bot.dispatch_policy_override {
        Some(p) => p,
        None => runtime_profile.dispatch_policy,
    };
    Ok(
        ResolvedBotBinding {
            room_id: room_id.to_owned(),
            source,
            binding,
            bot,
            runtime_profile,
            sender_profile,
            workspace,
            trigger,
            delivery,
            permissions,
            runtime_override,
            dispatch_policy,
        },
    )
}

/// The views of a list of resolved bots.
pub open spec fn views_of(v: Seq<ResolvedBotBinding>) -> Seq<ResolvedView> {
    v.map_values(|r: ResolvedBotBinding| r@)
}

/// The bots of `ids` resolved as defaults, in order, or the first error.
pub open spec fn resolve_defaults(s: BotfatherState, room_id: Seq<char>, ids: Seq<String>) -> Result<
    Seq<ResolvedView>,
    ResolveErrorView,
>
    decreases ids.len(),
{
    if ids.len() == 0 {
        Ok(Seq::empty())
    } else {
        match resolve_defaults(s, room_id, ids.drop_last()) {
            Err(e) => Err(e),
            Ok(acc) => match resolve_bound_spec(
                s,
                room_id,
                None,
                BindingSourceView::Default,
                ids.last()@,
            ) {
                Err(e) => Err(e),
                Ok(r) => Ok(acc.push(r)),
            },
        }
    }
}

/// The enabled bindings of a list, in order, each with the source given.
pub open spec fn enabled_items(bs: Seq<BotBinding>, source: BindingSourceView) -> Seq<
    (state::BotBindingView, BindingSourceView),
>
    decreases bs.len(),
{
    if bs.len() == 0 {
        Seq::empty()
    } else {
        let rest = enabled_items(bs.drop_last(), source);
        if bs.last().enabled {
            rest.push((bs.last()@, source))
        } else {
            rest
        }
    }
}

/// The enabled bindings of a space, if the space has bindings.
pub open spec fn space_block(s: BotfatherState, space_id: Seq<char>) -> Seq<
    (state::BotBindingView, BindingSourceView),
> {
    if s.space_bindings@.contains_key(space_id) {
        enabled_items(
            s.space_bindings@[space_id]@,
            BindingSourceView::Space { space_id },
        )
    } else {
        Seq::empty()
    }
}

/// The enabled bindings of a list of spaces, space after space.
pub open spec fn space_items(s: BotfatherState, space_ids: Seq<String>) -> Seq<
    (state::BotBindingView, BindingSourceView),
>
    decreases space_ids.len(),
{
    if space_ids.len() == 0 {
        Seq::empty()
    } else {
        space_items(s, space_ids.drop_last()) + space_block(s, space_ids.last()@)
    }
}

/// The enabled bindings of a room itself.
pub open spec fn room_block(s: BotfatherState, room_id: Seq<char>) -> Seq<
    (state::BotBindingView, BindingSourceView),
> {
    if s.room_bindings@.contains_key(room_id) {
        enabled_items(s.room_bindings@[room_id]@, BindingSourceView::Room { room_id })
    } else {
        Seq::empty()
    }
}

/// Every enabled binding that reaches a room: those of its spaces, in the
/// order of the room's spaces, then those of the room.
pub open spec fn bound_items(s: BotfatherState, room_id: Seq<char>) -> Seq<
    (state::BotBindingView, BindingSourceView),
> {
    space_items(s, s.inventory.rooms@[room_id].space_ids@) + room_block(s, room_id)
}

/// Whether some resolved bot of the list is the bot `id`.
pub open spec fn has_bot(rs: Seq<ResolvedView>, id: Seq<char>) -> bool {
    exists|i: int| 0 <= i < rs.len() && #[trigger] rs[i].bot.id == id
}

/// The first position of the bot `id` in the list.
pub open spec fn first_bot_position(rs: Seq<ResolvedView>, id: Seq<char>) -> int {
    choose|i: int|
        0 <= i < rs.len() && #[trigger] rs[i].bot.id == id && forall|j: int|
            0 <= j < i ==> #[trigger] rs[j].bot.id != id
}

/// The list with `r` in place of the first entry for the same bot, or with
/// `r` appended where the bot is not yet listed.
pub open spec fn upsert_spec(rs: Seq<ResolvedView>, r: ResolvedView) -> Seq<ResolvedView> {
    if has_bot(rs, r.bot.id) {
        rs.update(first_bot_position(rs, r.bot.id), r)
    } else {
        rs.push(r)
    }
}

/// The list after each binding in turn is resolved and put in, or the first
/// error.
pub open spec fn apply_bindings(
    s: BotfatherState,
    room_id: Seq<char>,
    acc: Seq<ResolvedView>,
    items: Seq<(state::BotBindingView, BindingSourceView)>,
) -> Result<Seq<ResolvedView>, ResolveErrorView>
    decreases items.len(),
{
    if items.len() == 0 {
        Ok(acc)
    } else {
        match apply_bindings(s, room_id, acc, items.drop_last()) {
            Err(e) => Err(e),
            Ok(a) => {
                let (binding, source) = items.last();
                match resolve_bound_spec(s, room_id, Some(binding), source, binding.bot_id) {
                    Err(e) => Err(e),
                    Ok(r) => Ok(upsert_spec(a, r)),
                }
            },
        }
    }
}

/// A resolved bot is kept when the bot is enabled and its runtime is built in.
pub open spec fn is_active(r: ResolvedView) -> bool {
    r.bot.enabled && crate::runtime::runtime_enabled(runtime_kind_of(r))
}

/// The active bots of a list, in order.
pub open spec fn active_only(rs: Seq<ResolvedView>) -> Seq<ResolvedView>
    decreases rs.len(),
{
    if rs.len() == 0 {
        rs
    } else if is_active(rs.last()) {
        active_only(rs.drop_last()).push(rs.last())
    } else {
        active_only(rs.drop_last())
    }
}

/// Room bindings rank above space bindings, which rank above the defaults.
pub open spec fn source_rank_of(source: BindingSourceView) -> int {
    match source {
        BindingSourceView::Room { .. } => 3,
        BindingSourceView::Space { .. } => 2,
        BindingSourceView::Default => 1,
    }
}

/// Crew runtimes rank above OpenClaw runtimes.
pub open spec fn runtime_priority_of(kind: RuntimeKind) -> int {
    match kind {
        RuntimeKind::Crew => 2,
        RuntimeKind::OpenClaw => 1,
    }
}

/// Whether `a` is dispatched to before `b`: by source; among defaults by
/// runtime, then priority; among bindings by priority, then runtime; last by
/// bot id.
pub open spec fn ranked_before(a: ResolvedView, b: ResolvedView) -> bool {
    let sa = source_rank_of(a.source);
    let sb = source_rank_of(b.source);
    let ra = runtime_priority_of(runtime_kind_of(a));
    let rb = runtime_priority_of(runtime_kind_of(b));
    let pa = effective_priority_of(a);
    let pb = effective_priority_of(b);
    if sa != sb {
        sa > sb
    } else if a.source is Default {
        if ra != rb {
            ra > rb
        } else if pa != pb {
            pa > pb
        } else {
            text::str_lt(a.bot.id, b.bot.id)
        }
    } else {
        if pa != pb {
            pa > pb
        } else if ra != rb {
            ra > rb
        } else {
            text::str_lt(a.bot.id, b.bot.id)
        }
    }
}

/// Where `x` goes into a ranked list: after every entry that it does not
/// rank before.
pub open spec fn insert_position(sorted: Seq<ResolvedView>, x: ResolvedView) -> int
    decreases sorted.len(),
{
    if sorted.len() == 0 {
        0
    } else if ranked_before(x, sorted.last()) {
        insert_position(sorted.drop_last(), x)
    } else {
        sorted.len() as int
    }
}

/// The list ranked by a stable insertion sort on `ranked_before`.
pub open spec fn rank_sort(rs: Seq<ResolvedView>) -> Seq<ResolvedView>
    decreases rs.len(),
{
    if rs.len() == 0 {
        rs
    } else {
        let t = rank_sort(rs.drop_last());
        t.insert(insert_position(t, rs.last()), rs.last())
    }
}

/// The bots that serve a room, ranked for dispatch, or why there are none.
#[verifier::opaque]
pub open spec fn resolve_room_bots_spec(s: BotfatherState, room_id: Seq<char>) -> Result<
    Seq<ResolvedView>,
    ResolveErrorView,
> {
    if !s.inventory.rooms@.contains_key(room_id) {
        Err(ResolveErrorView::UnknownRoom(room_id))
    } else {
        match resolve_defaults(s, room_id, s.defaults.bot_ids@) {
            Err(e) => Err(e),
            Ok(defaults) => match apply_bindings(s, room_id, defaults, bound_items(s, room_id)) {
                Err(e) => Err(e),
                Ok(all) => {
                    let active = active_only(all);
                    if active.len() == 0 {
                        Err(ResolveErrorView::NoBotsConfigured(room_id))
                    } else {
                        Ok(rank_sort(active))
                    }
                },
            },
        }
    }
}

/// The bot that serves a room: the preferred bot where one is named, else the
/// first-ranked bot.
pub open spec fn resolve_room_bot_spec(
    s: BotfatherState,
    room_id: Seq<char>,
    preferred: Option<Seq<char>>,
) -> Result<ResolvedView, ResolveErrorView> {
    match resolve_room_bots_spec(s, room_id) {
        Err(e) => Err(e),
        Ok(list) => match preferred {
            Some(id) => if has_bot(list, id) {
                Ok(list[first_bot_position(list, id)])
            } else {
                Err(ResolveErrorView::PreferredBotNotAvailable { room_id, bot_id: id })
            },
            None => if list.len() > 0 {
                Ok(list[0])
            } else {
                Err(ResolveErrorView::NoBotsConfigured(room_id))
            },
        },
    }
}

/// The view of an optional string slice.
pub open spec fn opt_str_view(o: Option<&str>) -> Option<Seq<char>> {
    match o {
        Some(s) => Some(s@),
        None => None,
    }
}

proof fn lemma_defaults_error_persists(s: BotfatherState, room_id: Seq<char>, ids: Seq<String>, m: int)
    requires
        0 <= m <= ids.len(),
        resolve_defaults(s, room_id, ids.take(m)) is Err,
    ensures
        resolve_defaults(s, room_id, ids) == resolve_defaults(s, room_id, ids.take(m)),
    decreases ids.len() - m,
{
    if m < ids.len() {
        assert(ids.take(m + 1).drop_last() =~= ids.take(m));
        lemma_defaults_error_persists(s, room_id, ids, m + 1);
    } else {
        assert(ids.take(m) =~= ids);
    }
}

proof fn lemma_apply_append(
    s: BotfatherState,
    room_id: Seq<char>,
    acc: Seq<ResolvedView>,
    a: Seq<(state::BotBindingView, BindingSourceView)>,
    b: Seq<(state::BotBindingView, BindingSourceView)>,
)
    ensures
        apply_bindings(s, room_id, acc, a + b) == match apply_bindings(s, room_id, acc, a) {
            Err(e) => Err(e),
            Ok(x) => apply_bindings(s, room_id, x, b),
        },
    decreases b.len(),
{
    if b.len() == 0 {
        assert(a + b =~= a);
    } else {
        assert((a + b).drop_last() =~= a + b.drop_last());
        assert((a + b).last() == b.last());
        lemma_apply_append(s, room_id, acc, a, b.drop_last());
    }
}

proof fn lemma_enabled_items_step(bs: Seq<BotBinding>, j: int, source: BindingSourceView)
    requires
        0 <= j < bs.len(),
    ensures
        enabled_items(bs.take(j + 1), source) == if bs[j].enabled {
            enabled_items(bs.take(j), source).push((bs[j]@, source))
        } else {
            enabled_items(bs.take(j), source)
        },
{
    assert(bs.take(j + 1).drop_last() =~= bs.take(j));
}

proof fn lemma_space_items_step(s: BotfatherState, ids: Seq<String>, i: int)
    requires
        0 <= i < ids.len(),
    ensures
        space_items(s, ids.take(i + 1)) == space_items(s, ids.take(i)) + space_block(s, ids[i]@),
{
    assert(ids.take(i + 1).drop_last() =~= ids.take(i));
}

/// The views of bindings paired with their sources.
pub open spec fn items_view(items: Seq<(BotBinding, BindingSource)>) -> Seq<
    (state::BotBindingView, BindingSourceView),
> {
    items.map_values(|p: (BotBinding, BindingSource)| (p.0@, p.1@))
}

/// Collects every enabled binding that reaches the room, with its source.
fn collect_bound_items(state: &BotfatherState, room_id: &str, space_ids: &Vec<String>) -> (r: Vec<
    (BotBinding, BindingSource),
>)
    requires
        state.inventory.rooms@.contains_key(room_id@),
        space_ids@ == state.inventory.rooms@[room_id@].space_ids@,
    ensures
        items_view(r@) == bound_items(*state, room_id@),
{
    let mut items: Vec<(BotBinding, BindingSource)> = Vec::new();
    let mut i: usize = 0;
    while i < space_ids.len()
        invariant
            0 <= i <= space_ids@.len(),
            items_view(items@) == space_items(*state, space_ids@.take(i as int)),
        decreases space_ids@.len() - i,
    {
        let space_id = &space_ids[i];
        proof {
            lemma_space_items_step(*state, space_ids@, i as int);
        }
        match state.space_bindings.get(space_id.as_str()) {
            Some(bindings) => {
                let ghost base = items_view(items@);
                let ghost src = BindingSourceView::Space { space_id: space_id@ };
                let mut j: usize = 0;
                assert(bindings@.take(0) =~= Seq::<BotBinding>::empty());
                assert(base + enabled_items(bindings@.take(0), src) =~= base);
                while j < bindings.len()
                    invariant
                        0 <= j <= bindings@.len(),
                        src == (BindingSourceView::Space { space_id: space_id@ }),
                        items_view(items@) == base + enabled_items(bindings@.take(j as int), src),
                    decreases bindings@.len() - j,
                {
                    proof {
                        lemma_enabled_items_step(bindings@, j as int, src);
                    }
                    if bindings[j].enabled {
                        let source = BindingSource::Space { space_id: space_id.clone() };
                        let ghost prior = items_view(items@);
                        let b = bindings[j].clone();
                        assert(b@ == bindings@[j as int]@);
                        assert(source@ == src);
                        items.push((b, source));
                        assert(items_view(items@) =~= prior.push((bindings@[j as int]@, src)));
                        assert(items_view(items@) =~= base + enabled_items(
                            bindings@.take(j + 1),
                            src,
                        ));
                    }
                    j = j + 1;
                }
                assert(bindings@.take(j as int) =~= bindings@);
            },
            None => {
                assert(space_items(*state, space_ids@.take(i + 1)) =~= space_items(
                    *state,
                    space_ids@.take(i as int),
                ));
            },
        }
        i = i + 1;
    }
    assert(space_ids@.take(i as int) =~= space_ids@);
    match state.room_bindings.get(room_id) {
        Some(bindings) => {
            let ghost base = items_view(items@);
            let ghost src = BindingSourceView::Room { room_id: room_id@ };
            let mut j: usize = 0;
            assert(bindings@.take(0) =~= Seq::<BotBinding>::empty());
            assert(base + enabled_items(bindings@.take(0), src) =~= base);
            while j < bindings.len()
                invariant
                    0 <= j <= bindings@.len(),
                    src == (BindingSourceView::Room { room_id: room_id@ }),
                    items_view(items@) == base + enabled_items(bindings@.take(j as int), src),
                decreases bindings@.len() - j,
            {
                proof {
                    lemma_enabled_items_step(bindings@, j as int, src);
                }
                if bindings[j].enabled {
                    let source = BindingSource::Room { room_id: room_id.to_owned() };
                    let ghost prior = items_view(items@);
                    let b = bindings[j].clone();
                    items.push((b, source));
                    assert(items_view(items@) =~= prior.push((bindings@[j as int]@, src)));
                    assert(items_view(items@) =~= base + enabled_items(
                        bindings@.take(j + 1),
                        src,
                    ));
                }
                j = j + 1;
            }
            assert(bindings@.take(j as int) =~= bindings@);
        },
        None => {
            assert(items_view(items@) =~= items_view(items@) + room_block(
                *state,
                room_id@,
            ));
        },
    }
    items
}

/// Puts `next` in place of the first entry for the same bot, or appends it.
fn upsert_resolved(resolved: &mut Vec<ResolvedBotBinding>, next: ResolvedBotBinding)
    ensures
        views_of(final(resolved)@) == upsert_spec(views_of(old(resolved)@), next@),
{
    let ghost old_views = views_of(resolved@);
    let mut i: usize = 0;
    while i < resolved.len()
        invariant
            0 <= i <= resolved@.len(),
            resolved@ == old(resolved)@,
            old_views == views_of(resolved@),
            forall|j: int| 0 <= j < i ==> #[trigger] old_views[j].bot.id != next@.bot.id,
        decreases resolved@.len() - i,
    {
        if text::str_eq(resolved[i].bot.id.as_str(), next.bot.id.as_str()) {
            proof {
                assert(old_views[i as int].bot.id == next@.bot.id);
                assert(has_bot(old_views, next@.bot.id));
                let c = first_bot_position(old_views, next@.bot.id);
                assert(c == i);
            }
            resolved.set(i, next);
            proof {
                assert(views_of(resolved@) =~= old_views.update(i as int, next@));
            }
            return;
        }
        i = i + 1;
    }
    resolved.push(next);
    proof {
        assert(views_of(resolved@) =~= old_views.push(next@));
    }
}

fn runtime_priority(kind: RuntimeKind) -> (p: i32)
    ensures
        p == runtime_priority_of(kind),
{
    match kind {
        RuntimeKind::Crew => 2,
        RuntimeKind::OpenClaw => 1,
    }
}

fn source_rank(source: &BindingSource) -> (r: i32)
    ensures
        r == source_rank_of(source@),
{
    match source {
        BindingSource::Room { .. } => 3,
        BindingSource::Space { .. } => 2,
        BindingSource::Default => 1,
    }
}

fn priority_sum(r: &ResolvedBotBinding) -> (p: i64)
    ensures
        p == effective_priority_of(r@),
{
    let base: i64 = match &r.binding {
        Some(binding) => binding.priority as i64,
        None => 0,
    };
    base + r.bot.priority as i64
}

/// Whether `a` is dispatched to before `b`.
fn ranks_before(a: &ResolvedBotBinding, b: &ResolvedBotBinding) -> (r: bool)
    ensures
        r == ranked_before(a@, b@),
{
    let sa = source_rank(&a.source);
    let sb = source_rank(&b.source);
    let ra = runtime_priority(a.runtime_kind());
    let rb = runtime_priority(b.runtime_kind());
    let pa = priority_sum(a);
    let pb = priority_sum(b);
    if sa != sb {
        sa > sb
    } else if matches!(a.source, BindingSource::Default) {
        if ra != rb {
            ra > rb
        } else if pa != pb {
            pa > pb
        } else {
            match text::compare_str(a.bot.id.as_str(), b.bot.id.as_str()) {
                text::Comparison::Less => true,
                _ => false,
            }
        }
    } else {
        if pa != pb {
            pa > pb
        } else if ra != rb {
            ra > rb
        } else {
            match text::compare_str(a.bot.id.as_str(), b.bot.id.as_str()) {
                text::Comparison::Less => true,
                _ => false,
            }
        }
    }
}

/// The active bots of the list, in order.
fn keep_active(resolved: &Vec<ResolvedBotBinding>) -> (r: Vec<ResolvedBotBinding>)
    ensures
        views_of(r@) == active_only(views_of(resolved@)),
{
    let ghost all = views_of(resolved@);
    let mut kept: Vec<ResolvedBotBinding> = Vec::new();
    let mut i: usize = 0;
    while i < resolved.len()
        invariant
            0 <= i <= resolved@.len(),
            all == views_of(resolved@),
            views_of(kept@) == active_only(all.take(i as int)),
        decreases resolved@.len() - i,
    {
        proof {
            assert(all.take(i + 1).drop_last() =~= all.take(i as int));
            assert(all[i as int] == resolved@[i as int]@);
        }
        if resolved[i].bot.enabled && runtime_feature_enabled(resolved[i].runtime_kind()) {
            kept.push(resolved[i].clone());
            proof {
                assert(views_of(kept@) =~= active_only(all.take(i as int)).push(all[i as int]));
            }
        }
        i = i + 1;
    }
    assert(all.take(i as int) =~= all);
    kept
}

/// The list ranked by `ranked_before`, stably.
fn rank_resolved(resolved: &Vec<ResolvedBotBinding>) -> (r: Vec<ResolvedBotBinding>)
    ensures
        views_of(r@) == rank_sort(views_of(resolved@)),
{
    let ghost all = views_of(resolved@);
    let mut sorted: Vec<ResolvedBotBinding> = Vec::new();
    let mut i: usize = 0;
    assert(all.take(0) =~= Seq::<ResolvedView>::empty());
    while i < resolved.len()
        invariant
            0 <= i <= resolved@.len(),
            all == views_of(resolved@),
            views_of(sorted@) == rank_sort(all.take(i as int)),
        decreases resolved@.len() - i,
    {
        let x = resolved[i].clone();
        let ghost t = views_of(sorted@);
        let mut j: usize = sorted.len();
        assert(t.take(j as int) =~= t);
        while j > 0 && ranks_before(&x, &sorted[j - 1])
            invariant
                0 <= j <= sorted@.len(),
                t == views_of(sorted@),
                insert_position(t, x@) == insert_position(t.take(j as int), x@),
            decreases j,
        {
            proof {
                assert(t.take(j as int).drop_last() =~= t.take(j - 1));
                assert(t.take(j as int).last() == sorted@[j - 1]@);
            }
            j = j - 1;
        }
        proof {
            if j > 0 {
                assert(t.take(j as int).last() == sorted@[j - 1]@);
            }
            assert(all.take(i + 1).drop_last() =~= all.take(i as int));
            assert(all[i as int] == x@);
        }
        sorted.insert(j, x);
        proof {
            assert(views_of(sorted@) =~= t.insert(j as int, x@));
        }
        i = i + 1;
    }
    assert(all.take(i as int) =~= all);
    sorted
}

/// Resolves the bots that serve a room, ranked for dispatch.
pub fn resolve_room_bots(state: &BotfatherState, room_id: &str) -> (r: Result<
    Vec<ResolvedBotBinding>,
    ResolveError,
>)
    ensures
        match r {
            Ok(v) => resolve_room_bots_spec(*state, room_id@) == Ok::<
                Seq<ResolvedView>,
                ResolveErrorView,
            >(views_of(v@)),
            Err(e) => resolve_room_bots_spec(*state, room_id@) == Err::<
                Seq<ResolvedView>,
                ResolveErrorView,
            >(e@),
        },
{
    reveal(resolve_room_bots_spec);
    let room = match state.inventory.rooms.get(room_id) {
        Some(room) => room,
        None => {
            return Err(ResolveError::UnknownRoom(room_id.to_owned()));
        },
    };
    let ghost ids = state.defaults.bot_ids@;
    let mut resolved: Vec<ResolvedBotBinding> = Vec::new();
    let mut i: usize = 0;
    assert(ids.take(0) =~= Seq::<String>::empty());
    assert(views_of(resolved@) =~= Seq::<ResolvedView>::empty());
    while i < state.defaults.bot_ids.len()
        invariant
            0 <= i <= ids.len(),
            ids == state.defaults.bot_ids@,
            state.inventory.rooms@.contains_key(room_id@),
            resolve_defaults(*state, room_id@, ids.take(i as int)) == Ok::<
                Seq<ResolvedView>,
                ResolveErrorView,
            >(views_of(resolved@)),
        decreases ids.len() - i,
    {
        proof {
            assert(ids.take(i + 1).drop_last() =~= ids.take(i as int));
            assert(ids.take(i + 1).last() == ids[i as int]);
        }
        match resolve_default_bot(state, room_id, state.defaults.bot_ids[i].as_str()) {
            Ok(next) => {
                let ghost before = views_of(resolved@);
                resolved.push(next);
                proof {
                    assert(views_of(resolved@) =~= before.push(next@));
                }
            },
            Err(e) => {
                proof {
                    reveal(resolve_room_bots_spec);
                    lemma_defaults_error_persists(*state, room_id@, ids, i + 1);
                }
                return Err(e);
            },
        }
        i = i + 1;
    }
    assert(ids.take(i as int) =~= ids);
    let ghost defaults = views_of(resolved@);
    let items = collect_bound_items(state, room_id, &room.space_ids);
    let ghost item_views = items_view(items@);
    let mut k: usize = 0;
    assert(item_views.take(0) =~= Seq::<(state::BotBindingView, BindingSourceView)>::empty());
    while k < items.len()
        invariant
            0 <= k <= items@.len(),
            item_views == items_view(items@),
            state.inventory.rooms@.contains_key(room_id@),
            resolve_defaults(*state, room_id@, state.defaults.bot_ids@) == Ok::<
                Seq<ResolvedView>,
                ResolveErrorView,
            >(defaults),
            item_views == bound_items(*state, room_id@),
            apply_bindings(*state, room_id@, defaults, item_views.take(k as int)) == Ok::<
                Seq<ResolvedView>,
                ResolveErrorView,
            >(views_of(resolved@)),
        decreases items@.len() - k,
    {
        let binding = items[k].0.clone();
        let source = items[k].1.clone();
        proof {
            assert(item_views.take(k + 1).drop_last() =~= item_views.take(k as int));
            assert(item_views[k as int] == (items@[k as int].0@, items@[k as int].1@));
        }
        match resolve_bound_bot(state, room_id, Some(binding), source, items[k].0.bot_id.as_str()) {
            Ok(next) => {
                upsert_resolved(&mut resolved, next);
            },
            Err(e) => {
                proof {
                    reveal(resolve_room_bots_spec);
                    lemma_apply_append(
                        *state,
                        room_id@,
                        defaults,
                        item_views.take(k + 1),
                        item_views.skip(k + 1),
                    );
                    assert(item_views.take(k + 1) + item_views.skip(k + 1) =~= item_views);
                }
                return Err(e);
            },
        }
        k = k + 1;
    }
    assert(item_views.take(k as int) =~= item_views);
    let active = keep_active(&resolved);
    if active.len() == 0 {
        return Err(ResolveError::NoBotsConfigured(room_id.to_owned()));
    }
    Ok(rank_resolved(&active))
}

/// The first position of the bot `bot_id` in the list, if it is listed.
fn find_bot(resolved: &Vec<ResolvedBotBinding>, bot_id: &str) -> (r: Option<usize>)
    ensures
        match r {
            Some(i) => i < resolved@.len() && resolved@[i as int].bot.id@ == bot_id@ && forall|j: int|
                0 <= j < i ==> #[trigger] resolved@[j].bot.id@ != bot_id@,
            None => forall|j: int| 0 <= j < resolved@.len() ==> #[trigger] resolved@[j].bot.id@ != bot_id@,
        },
{
    let mut i: usize = 0;
    while i < resolved.len()
        invariant
            0 <= i <= resolved@.len(),
            forall|j: int| 0 <= j < i ==> #[trigger] resolved@[j].bot.id@ != bot_id@,
        decreases resolved@.len() - i,
    {
        if text::str_eq(resolved[i].bot.id.as_str(), bot_id) {
            return Some(i);
        }
        i = i + 1;
    }
    None
}

/// Takes the first resolved bot that is the bot `bot_id` out of the list.
fn take_bot(resolved: Vec<ResolvedBotBinding>, bot_id: &str) -> (r: Option<ResolvedBotBinding>)
    ensures
        match r {
            Some(x) => has_bot(views_of(resolved@), bot_id@) && x@ == views_of(resolved@)[first_bot_position(
                views_of(resolved@),
                bot_id@,
            )],
            None => !has_bot(views_of(resolved@), bot_id@),
        },
{
    let ghost list = views_of(resolved@);
    let mut resolved = resolved;
    match find_bot(&resolved, bot_id) {
        Some(i) => {
            proof {
                assert(list[i as int].bot.id == bot_id@);
                assert(has_bot(list, bot_id@));
                let c = first_bot_position(list, bot_id@);
                if c < i {
                    assert(resolved@[c].bot.id@ == list[c].bot.id);
                }
                assert(c == i);
                assert(list[i as int] == resolved@[i as int]@);
            }
            Some(resolved.remove(i))
        },
        None => {
            proof {
                if has_bot(list, bot_id@) {
                    let c = choose|c: int| 0 <= c < list.len() && #[trigger] list[c].bot.id == bot_id@;
                    assert(resolved@[c].bot.id@ == list[c].bot.id);
                }
            }
            None
        },
    }
}

/// Resolves the bot that serves a room: the preferred bot where one is named
/// and it serves the room, else the first-ranked bot.
pub fn resolve_room_bot(state: &BotfatherState, room_id: &str, preferred_bot_id: Option<&str>) -> (r:
    Result<ResolvedBotBinding, ResolveError>)
    ensures
        result_view(r) == resolve_room_bot_spec(*state, room_id@, opt_str_view(preferred_bot_id)),
{
    let mut resolved = match resolve_room_bots(state, room_id) {
        Ok(resolved) => resolved,
        Err(e) => {
            return Err(e);
        },
    };
    let ghost list = views_of(resolved@);
    match preferred_bot_id {
        Some(bot_id) => match take_bot(resolved, bot_id) {
            Some(found) => Ok(found),
            None => Err(
                ResolveError::PreferredBotNotAvailable {
                    room_id: room_id.to_owned(),
                    bot_id: bot_id.to_owned(),
                },
            ),
        },
        None => {
            if resolved.len() > 0 {
                assert(list[0] == resolved@[0]@);
                Ok(resolved.remove(0))
            } else {
                Err(ResolveError::NoBotsConfigured(room_id.to_owned()))
            }
        },
    }
}

/// No entry of the list ranks before an earlier one.
pub open spec fn in_dispatch_order(rs: Seq<ResolvedView>) -> bool {
    forall|i: int, j: int|
        0 <= i < j < rs.len() ==> !ranked_before(#[trigger] rs[j], #[trigger] rs[i])
}

/// `ranked_before` is a strict weak order: irreflexive, asymmetric,
/// transitive, and whatever lies between two ranked entries ranks below the
/// first or above the second.
pub proof fn lemma_ranked_before_is_strict_weak_order(a: ResolvedView, b: ResolvedView, c: ResolvedView)
    ensures
        !ranked_before(a, a),
        ranked_before(a, b) ==> !ranked_before(b, a),
        ranked_before(a, b) && ranked_before(b, c) ==> ranked_before(a, c),
        ranked_before(a, c) ==> ranked_before(a, b) || ranked_before(b, c),
{
    text::lemma_str_lt_strict_total_order(a.bot.id, b.bot.id, c.bot.id);
    text::lemma_str_lt_strict_total_order(b.bot.id, a.bot.id, c.bot.id);
    text::lemma_str_lt_strict_total_order(a.bot.id, c.bot.id, b.bot.id);
    text::lemma_str_lt_strict_total_order(c.bot.id, b.bot.id, a.bot.id);
}

proof fn lemma_insert_position_facts(t: Seq<ResolvedView>, x: ResolvedView)
    ensures
        0 <= insert_position(t, x) <= t.len(),
        forall|k: int| insert_position(t, x) <= k < t.len() ==> ranked_before(x, #[trigger] t[k]),
        insert_position(t, x) > 0 ==> !ranked_before(x, t[insert_position(t, x) - 1]),
    decreases t.len(),
{
    if t.len() > 0 && ranked_before(x, t.last()) {
        let u = t.drop_last();
        lemma_insert_position_facts(u, x);
        assert forall|k: int| insert_position(t, x) <= k < t.len() implies ranked_before(x, #[trigger] t[k]) by {
            if k < t.len() - 1 {
                assert(t[k] == u[k]);
            }
        }
        if insert_position(t, x) > 0 {
            assert(t[insert_position(t, x) - 1] == u[insert_position(u, x) - 1]);
        }
    }
}

/// Ranking sorts: the result is in dispatch order and holds the same
/// entries, each as often.
pub proof fn lemma_rank_sort_sorts(rs: Seq<ResolvedView>)
    ensures
        in_dispatch_order(rank_sort(rs)),
        rank_sort(rs).to_multiset() == rs.to_multiset(),
    decreases rs.len(),
{
    broadcast use vstd::seq_lib::to_multiset_insert, vstd::seq_lib::to_multiset_build;

    if rs.len() == 0 {
    } else {
        let t = rank_sort(rs.drop_last());
        let x = rs.last();
        lemma_rank_sort_sorts(rs.drop_last());
        lemma_insert_position_facts(t, x);
        let p = insert_position(t, x);
        let u = t.insert(p, x);
        assert forall|i: int, j: int| 0 <= i < j < u.len() implies !ranked_before(#[trigger] u[j], #[trigger] u[i]) by {
            if j < p {
                assert(u[i] == t[i] && u[j] == t[j]);
            } else if j == p {
                assert(u[i] == t[i]);
                if i < p - 1 {
                    assert(!ranked_before(t[p - 1], t[i]));
                }
                lemma_ranked_before_is_strict_weak_order(x, t[p - 1], t[i]);
            } else if i == p {
                assert(u[j] == t[j - 1]);
                lemma_ranked_before_is_strict_weak_order(x, t[j - 1], x);
            } else if i < p {
                assert(u[i] == t[i] && u[j] == t[j - 1]);
            } else {
                assert(u[i] == t[i - 1] && u[j] == t[j - 1]);
            }
        }
        assert(rs =~= rs.drop_last().push(x));
    }
}

proof fn lemma_active_only_is_active(rs: Seq<ResolvedView>)
    ensures
        forall|i: int| 0 <= i < active_only(rs).len() ==> is_active(#[trigger] active_only(rs)[i]),
    decreases rs.len(),
{
    if rs.len() > 0 {
        lemma_active_only_is_active(rs.drop_last());
        let a = active_only(rs);
        let b = active_only(rs.drop_last());
        assert forall|i: int| 0 <= i < a.len() implies is_active(#[trigger] a[i]) by {
            if i < b.len() {
                assert(a[i] == b[i]);
            }
        }
    }
}

/// Where a list has the bot `id`, `first_bot_position` is its first position.
pub proof fn lemma_first_bot_position(rs: Seq<ResolvedView>, id: Seq<char>)
    requires
        has_bot(rs, id),
    ensures
        0 <= first_bot_position(rs, id) < rs.len(),
        rs[first_bot_position(rs, id)].bot.id == id,
        forall|j: int| 0 <= j < first_bot_position(rs, id) ==> #[trigger] rs[j].bot.id != id,
    decreases rs.len(),
{
    let t = rs.drop_last();
    if has_bot(t, id) {
        lemma_first_bot_position(t, id);
        let p = first_bot_position(t, id);
        assert(rs[p] == t[p]);
        assert forall|j: int| 0 <= j < p implies #[trigger] rs[j].bot.id != id by {
            assert(rs[j] == t[j]);
        }
    } else {
        let p = rs.len() - 1;
        let w = choose|i: int| 0 <= i < rs.len() && #[trigger] rs[i].bot.id == id;
        if w < p {
            assert(t[w] == rs[w]);
        }
        assert forall|j: int| 0 <= j < p implies #[trigger] rs[j].bot.id != id by {
            assert(rs[j] == t[j]);
        }
        assert(rs[p].bot.id == id);
    }
}

/// What a successful resolution of a room gives: at least one bot; only
/// enabled bots whose runtime is built in; in dispatch order, so room
/// bindings come before space bindings, which come before the defaults.
pub proof fn lemma_resolution_is_ranked(s: BotfatherState, room_id: Seq<char>)
    requires
        resolve_room_bots_spec(s, room_id) is Ok,
    ensures
        ({
            let list = resolve_room_bots_spec(s, room_id)->Ok_0;
            &&& list.len() > 0
            &&& forall|i: int| 0 <= i < list.len() ==> is_active(#[trigger] list[i])
            &&& in_dispatch_order(list)
            &&& forall|i: int, j: int|
                0 <= i < j < list.len() ==> source_rank_of(#[trigger] list[i].source) >= source_rank_of(
                    #[trigger] list[j].source,
                )
        }),
{
    reveal(resolve_room_bots_spec);
    let defaults = resolve_default_result(s, room_id);
    let all = apply_bindings(s, room_id, defaults, bound_items(s, room_id))->Ok_0;
    let active = active_only(all);
    let list = rank_sort(active);
    lemma_rank_sort_sorts(active);
    lemma_active_only_is_active(all);
    assert(list.to_multiset().len() == active.to_multiset().len());
    vstd::seq_lib::to_multiset_len(list);
    vstd::seq_lib::to_multiset_len(active);
    assert forall|i: int| 0 <= i < list.len() implies is_active(#[trigger] list[i]) by {
        vstd::seq_lib::to_multiset_contains(list, list[i]);
        vstd::seq_lib::to_multiset_contains(active, list[i]);
        assert(list.contains(list[i]));
        let k = choose|k: int| 0 <= k < active.len() && active[k] == list[i];
    }
    assert forall|i: int, j: int| 0 <= i < j < list.len() implies source_rank_of(#[trigger] list[i].source)
        >= source_rank_of(#[trigger] list[j].source) by {
        assert(!ranked_before(list[j], list[i]));
    }
}

/// The defaults of a room as resolved, where they resolve.
pub open spec fn resolve_default_result(s: BotfatherState, room_id: Seq<char>) -> Seq<ResolvedView> {
    resolve_defaults(s, room_id, s.defaults.bot_ids@)->Ok_0
}

/// The bot resolved for a room is the preferred bot where one is named, and
/// otherwise the first bot of the ranked resolution.
pub proof fn lemma_resolved_bot_is_preferred_or_first(
    s: BotfatherState,
    room_id: Seq<char>,
    preferred: Option<Seq<char>>,
)
    requires
        resolve_room_bot_spec(s, room_id, preferred) is Ok,
    ensures
        resolve_room_bots_spec(s, room_id) is Ok,
        ({
            let bot = resolve_room_bot_spec(s, room_id, preferred)->Ok_0;
            let list = resolve_room_bots_spec(s, room_id)->Ok_0;
            &&& list.contains(bot)
            &&& match preferred {
                Some(id) => bot.bot.id == id,
                None => bot == list[0],
            }
        }),
{
    let list = resolve_room_bots_spec(s, room_id)->Ok_0;
    match preferred {
        Some(id) => {
            lemma_first_bot_position(list, id);
            let i = first_bot_position(list, id);
            assert(list[i] == resolve_room_bot_spec(s, room_id, preferred)->Ok_0);
            assert(list.contains(list[i]));
        },
        None => {
            assert(list[0] == resolve_room_bot_spec(s, room_id, preferred)->Ok_0);
            assert(list.contains(list[0]));
        },
    }
}

/// Every bot is stored under its own id.
pub open spec fn bots_keyed_by_id(s: BotfatherState) -> bool {
    forall|k: Seq<char>| #[trigger] s.bots@.contains_key(k) ==> s.bots@[k].id@ == k
}

/// At most one entry of the list is for the bot `id`.
pub open spec fn at_most_one_entry(rs: Seq<ResolvedView>, id: Seq<char>) -> bool {
    forall|i: int, j: int|
        0 <= i < rs.len() && 0 <= j < rs.len() && #[trigger] rs[i].bot.id == id && #[trigger] rs[j].bot.id
            == id ==> i == j
}

proof fn lemma_resolved_bot_id(
    s: BotfatherState,
    room_id: Seq<char>,
    binding: Option<state::BotBindingView>,
    source: BindingSourceView,
    bot_id: Seq<char>,
)
    requires
        bots_keyed_by_id(s),
        resolve_bound_spec(s, room_id, binding, source, bot_id) is Ok,
    ensures
        resolve_bound_spec(s, room_id, binding, source, bot_id)->Ok_0.bot.id == bot_id,
        resolve_bound_spec(s, room_id, binding, source, bot_id)->Ok_0.source == source,
{
    assert(s.bots@.contains_key(bot_id));
}

proof fn lemma_upsert_other_bot(rs: Seq<ResolvedView>, r: ResolvedView, id: Seq<char>)
    requires
        r.bot.id != id,
    ensures
        forall|i: int|
            0 <= i < upsert_spec(rs, r).len() && #[trigger] upsert_spec(rs, r)[i].bot.id == id ==> 0
                <= i < rs.len() && upsert_spec(rs, r)[i] == rs[i],
        at_most_one_entry(rs, id) ==> at_most_one_entry(upsert_spec(rs, r), id),
{
    let u = upsert_spec(rs, r);
    if has_bot(rs, r.bot.id) {
        lemma_first_bot_position(rs, r.bot.id);
    }
    if at_most_one_entry(rs, id) {
        assert forall|i: int, j: int|
            0 <= i < u.len() && 0 <= j < u.len() && #[trigger] u[i].bot.id == id && #[trigger] u[j].bot.id
                == id implies i == j by {
            assert(u[i] == rs[i] && u[j] == rs[j]);
        }
    }
}

proof fn lemma_upsert_same_bot(rs: Seq<ResolvedView>, r: ResolvedView)
    requires
        at_most_one_entry(rs, r.bot.id),
    ensures
        at_most_one_entry(upsert_spec(rs, r), r.bot.id),
        forall|i: int|
            0 <= i < upsert_spec(rs, r).len() && #[trigger] upsert_spec(rs, r)[i].bot.id == r.bot.id
                ==> upsert_spec(rs, r)[i] == r,
{
    let u = upsert_spec(rs, r);
    if has_bot(rs, r.bot.id) {
        lemma_first_bot_position(rs, r.bot.id);
        let p = first_bot_position(rs, r.bot.id);
        assert forall|i: int| 0 <= i < u.len() && #[trigger] u[i].bot.id == r.bot.id implies u[i] == r by {
            if i != p {
                assert(u[i] == rs[i]);
                assert(rs[p].bot.id == r.bot.id);
            }
        }
    } else {
        assert forall|i: int| 0 <= i < u.len() && #[trigger] u[i].bot.id == r.bot.id implies u[i] == r by {
            if i < rs.len() {
                assert(u[i] == rs[i]);
            }
        }
    }
}

pub(crate) proof fn lemma_apply_keeps_one_entry(
    s: BotfatherState,
    room_id: Seq<char>,
    acc: Seq<ResolvedView>,
    items: Seq<(state::BotBindingView, BindingSourceView)>,
    id: Seq<char>,
)
    requires
        bots_keyed_by_id(s),
        at_most_one_entry(acc, id),
        apply_bindings(s, room_id, acc, items) is Ok,
    ensures
        at_most_one_entry(apply_bindings(s, room_id, acc, items)->Ok_0, id),
    decreases items.len(),
{
    if items.len() > 0 {
        lemma_apply_keeps_one_entry(s, room_id, acc, items.drop_last(), id);
        let inner = apply_bindings(s, room_id, acc, items.drop_last())->Ok_0;
        let (binding, source) = items.last();
        lemma_resolved_bot_id(s, room_id, Some(binding), source, binding.bot_id);
        let r = resolve_bound_spec(s, room_id, Some(binding), source, binding.bot_id)->Ok_0;
        if r.bot.id == id {
            lemma_upsert_same_bot(inner, r);
        } else {
            lemma_upsert_other_bot(inner, r, id);
        }
    }
}

proof fn lemma_apply_last_binding_wins(
    s: BotfatherState,
    room_id: Seq<char>,
    acc: Seq<ResolvedView>,
    items: Seq<(state::BotBindingView, BindingSourceView)>,
    id: Seq<char>,
    source: BindingSourceView,
)
    requires
        bots_keyed_by_id(s),
        at_most_one_entry(acc, id),
        apply_bindings(s, room_id, acc, items) is Ok,
        exists|k: int| 0 <= k < items.len() && #[trigger] items[k].0.bot_id == id,
        forall|k: int| 0 <= k < items.len() ==> #[trigger] items[k].1 == source,
    ensures
        forall|i: int|
            0 <= i < apply_bindings(s, room_id, acc, items)->Ok_0.len() && #[trigger] apply_bindings(
                s,
                room_id,
                acc,
                items,
            )->Ok_0[i].bot.id == id ==> apply_bindings(s, room_id, acc, items)->Ok_0[i].source
                == source,
    decreases items.len(),
{
    let t = items.drop_last();
    let res = apply_bindings(s, room_id, acc, items)->Ok_0;
    let inner = apply_bindings(s, room_id, acc, t)->Ok_0;
    let (binding, src) = items.last();
    assert(src == source);
    lemma_resolved_bot_id(s, room_id, Some(binding), src, binding.bot_id);
    let r = resolve_bound_spec(s, room_id, Some(binding), src, binding.bot_id)->Ok_0;
    lemma_apply_keeps_one_entry(s, room_id, acc, t, id);
    if binding.bot_id == id {
        lemma_upsert_same_bot(inner, r);
    } else {
        let k = choose|k: int| 0 <= k < items.len() && #[trigger] items[k].0.bot_id == id;
        assert(k < items.len() - 1);
        assert(t[k] == items[k]);
        assert forall|k2: int| 0 <= k2 < t.len() implies #[trigger] t[k2].1 == source by {
            assert(t[k2] == items[k2]);
        }
        lemma_apply_last_binding_wins(s, room_id, acc, t, id, source);
        lemma_upsert_other_bot(inner, r, id);
    }
}

pub(crate) proof fn lemma_defaults_are_the_named_bots(s: BotfatherState, room_id: Seq<char>, ids: Seq<String>)
    requires
        bots_keyed_by_id(s),
        resolve_defaults(s, room_id, ids) is Ok,
    ensures
        resolve_defaults(s, room_id, ids)->Ok_0.len() == ids.len(),
        forall|i: int|
            0 <= i < ids.len() ==> #[trigger] resolve_defaults(s, room_id, ids)->Ok_0[i].bot.id
                == ids[i]@,
    decreases ids.len(),
{
    if ids.len() > 0 {
        lemma_defaults_are_the_named_bots(s, room_id, ids.drop_last());
        lemma_resolved_bot_id(s, room_id, None, BindingSourceView::Default, ids.last()@);
        let d = resolve_defaults(s, room_id, ids)->Ok_0;
        let inner = resolve_defaults(s, room_id, ids.drop_last())->Ok_0;
        assert forall|i: int| 0 <= i < ids.len() implies #[trigger] d[i].bot.id == ids[i]@ by {
            if i < ids.len() - 1 {
                assert(d[i] == inner[i]);
                assert(ids.drop_last()[i] == ids[i]);
            }
        }
    }
}

proof fn lemma_enabled_items_facts(bs: Seq<BotBinding>, source: BindingSourceView, id: Seq<char>)
    ensures
        forall|k: int|
            0 <= k < enabled_items(bs, source).len() ==> #[trigger] enabled_items(bs, source)[k].1
                == source,
        (exists|i: int| 0 <= i < bs.len() && #[trigger] bs[i].enabled && bs[i].bot_id@ == id) ==> exists|
            k: int,
        | 0 <= k < enabled_items(bs, source).len() && #[trigger] enabled_items(bs, source)[k].0.bot_id
            == id,
    decreases bs.len(),
{
    if bs.len() > 0 {
        let t = bs.drop_last();
        lemma_enabled_items_facts(t, source, id);
        let e = enabled_items(bs, source);
        let et = enabled_items(t, source);
        assert forall|k: int| 0 <= k < e.len() implies #[trigger] e[k].1 == source by {
            if k < et.len() {
                assert(e[k] == et[k]);
            }
        }
        if exists|i: int| 0 <= i < bs.len() && #[trigger] bs[i].enabled && bs[i].bot_id@ == id {
            let i = choose|i: int| 0 <= i < bs.len() && #[trigger] bs[i].enabled && bs[i].bot_id@ == id;
            if i == bs.len() - 1 {
                assert(e[et.len() as int].0.bot_id == id);
            } else {
                assert(t[i] == bs[i]);
                let k = choose|k: int| 0 <= k < et.len() && #[trigger] et[k].0.bot_id == id;
                assert(e[k] == et[k]);
            }
        }
    }
}

pub(crate) proof fn lemma_active_only_subset(rs: Seq<ResolvedView>)
    ensures
        forall|i: int| 0 <= i < active_only(rs).len() ==> rs.contains(#[trigger] active_only(rs)[i]),
    decreases rs.len(),
{
    if rs.len() > 0 {
        let t = rs.drop_last();
        lemma_active_only_subset(t);
        let a = active_only(rs);
        let at = active_only(t);
        assert forall|i: int| 0 <= i < a.len() implies rs.contains(#[trigger] a[i]) by {
            if i < at.len() {
                assert(a[i] == at[i]);
                let j = choose|j: int| 0 <= j < t.len() && t[j] == at[i];
                assert(rs[j] == t[j]);
            } else {
                assert(a[i] == rs[rs.len() - 1]);
            }
        }
    }
}

/// A bot bound to the room itself is served as the room binding makes it,
/// whatever space binding or default names the same bot: every resolved
/// entry for that bot comes from the room's bindings. This holds where every
/// bot is stored under its own id and the defaults name the bot at most once.
pub proof fn lemma_room_binding_takes_precedence(s: BotfatherState, room_id: Seq<char>, bot_id: Seq<char>)
    requires
        resolve_room_bots_spec(s, room_id) is Ok,
        bots_keyed_by_id(s),
        forall|i: int, j: int|
            0 <= i < s.defaults.bot_ids@.len() && 0 <= j < s.defaults.bot_ids@.len()
                && #[trigger] s.defaults.bot_ids@[i]@ == bot_id && #[trigger] s.defaults.bot_ids@[j]@
                == bot_id ==> i == j,
        s.room_bindings@.contains_key(room_id),
        exists|i: int|
            0 <= i < s.room_bindings@[room_id]@.len() && #[trigger] s.room_bindings@[room_id]@[i].enabled
                && s.room_bindings@[room_id]@[i].bot_id@ == bot_id,
    ensures
        forall|i: int|
            0 <= i < resolve_room_bots_spec(s, room_id)->Ok_0.len() && #[trigger] resolve_room_bots_spec(
                s,
                room_id,
            )->Ok_0[i].bot.id == bot_id ==> resolve_room_bots_spec(s, room_id)->Ok_0[i].source == (
            BindingSourceView::Room { room_id }),
{
    reveal(resolve_room_bots_spec);
    let ids = s.defaults.bot_ids@;
    let defaults = resolve_defaults(s, room_id, ids)->Ok_0;
    lemma_defaults_are_the_named_bots(s, room_id, ids);
    assert(at_most_one_entry(defaults, bot_id)) by {
        assert forall|i: int, j: int|
            0 <= i < defaults.len() && 0 <= j < defaults.len() && #[trigger] defaults[i].bot.id == bot_id
                && #[trigger] defaults[j].bot.id == bot_id implies i == j by {
            assert(ids[i]@ == bot_id && ids[j]@ == bot_id);
        }
    }
    let room = s.inventory.rooms@[room_id];
    let front = space_items(s, room.space_ids@);
    let back = room_block(s, room_id);
    let src = BindingSourceView::Room { room_id };
    lemma_enabled_items_facts(s.room_bindings@[room_id]@, src, bot_id);
    lemma_apply_append(s, room_id, defaults, front, back);
    let mid = apply_bindings(s, room_id, defaults, front)->Ok_0;
    lemma_apply_keeps_one_entry(s, room_id, defaults, front, bot_id);
    lemma_apply_last_binding_wins(s, room_id, mid, back, bot_id, src);
    let all = apply_bindings(s, room_id, mid, back)->Ok_0;
    let active = active_only(all);
    let list = rank_sort(active);
    lemma_rank_sort_sorts(active);
    lemma_active_only_subset(all);
    assert forall|i: int| 0 <= i < list.len() && #[trigger] list[i].bot.id == bot_id implies list[i].source
        == src by {
        vstd::seq_lib::to_multiset_contains(list, list[i]);
        vstd::seq_lib::to_multiset_contains(active, list[i]);
        assert(list.contains(list[i]));
        let k = choose|k: int| 0 <= k < active.len() && active[k] == list[i];
        assert(all.contains(active[k]));
        let m = choose|m: int| 0 <= m < all.len() && all[m] == active[k];
        assert(all[m].bot.id == bot_id);
    }
}

/// A disabled binding adds no item: the enabled bindings of a list are
/// those of the list without it.
pub proof fn lemma_disabled_binding_adds_nothing(
    bs: Seq<BotBinding>,
    b: BotBinding,
    source: BindingSourceView,
)
    requires
        !b.enabled,
    ensures
        enabled_items(bs.push(b), source) == enabled_items(bs, source),
{
    assert(bs.push(b).drop_last() =~= bs);
}

} // verus!
