//! The persisted BotFather state: what the user's Matrix account holds, the
//! bots and runtimes configured for it, how bots are bound to rooms and
//! spaces, and the sessions that dispatches have opened.
use vstd::prelude::*;

use crate::sessions::SessionMap;
use crate::strmap::StrMap;
use crate::text;
use crate::text::{clone_opt, clone_strings};

verus! {

/// The version of the state layout that this library writes.
pub const STATE_VERSION: u32 = 4;

pub type StateVersion = u32;

pub type WorkspaceId = String;

pub type RuntimeProfileId = String;

pub type BotId = String;

pub type RoomId = String;

pub type SpaceId = String;

pub type SenderProfileId = String;

/// Everything BotFather keeps between runs.
#[derive(Clone, Debug)]
pub struct BotfatherState {
    pub version: StateVersion,
    pub user: UserSnapshot,
    pub inventory: InventorySnapshot,
    pub workspaces: StrMap<Workspace>,
    pub runtime_profiles: StrMap<RuntimeProfile>,
    pub bots: StrMap<BotDefinition>,
    pub sender_profiles: StrMap<SenderProfile>,
    pub space_bindings: StrMap<Vec<BotBinding>>,
    pub room_bindings: StrMap<Vec<BotBinding>>,
    pub defaults: BotfatherDefaults,
    pub runtime: RuntimeState,
}

/// The state of a fresh start: the current version, no user, and nothing
/// known, configured or running.
pub open spec fn is_default_state(s: BotfatherState) -> bool {
    &&& s.version == STATE_VERSION
    &&& s.user.matrix_user_id is None
    &&& s.user.homeserver_url is None
    &&& s.inventory.rooms@ == Map::<Seq<char>, RoomInventory>::empty()
    &&& s.inventory.spaces@ == Map::<Seq<char>, SpaceInventory>::empty()
    &&& s.workspaces@ == Map::<Seq<char>, Workspace>::empty()
    &&& s.runtime_profiles@ == Map::<Seq<char>, RuntimeProfile>::empty()
    &&& s.bots@ == Map::<Seq<char>, BotDefinition>::empty()
    &&& s.sender_profiles@ == Map::<Seq<char>, SenderProfile>::empty()
    &&& s.space_bindings@ == Map::<Seq<char>, Vec<BotBinding>>::empty()
    &&& s.room_bindings@ == Map::<Seq<char>, Vec<BotBinding>>::empty()
    &&& s.defaults.bot_ids@.len() == 0
    &&& s.defaults.default_sender_profile_id is None
    &&& !s.defaults.room_stream_preview_enabled
    &&& s.runtime.active_sessions@ == Map::<SessionKeyView, SessionRecordView>::empty()
}

/// `after` is `before` brought up to date: an older version raised to
/// `STATE_VERSION`, every session record stored under its own normalized
/// key (the records visited in key order), and nothing else changed.
pub open spec fn normalized_from(before: BotfatherState, after: BotfatherState) -> bool {
    &&& after.version == if before.version < STATE_VERSION {
        STATE_VERSION
    } else {
        before.version
    }
    &&& after.runtime.active_sessions@ == normalized_sessions(
        before.runtime.active_sessions.ordered_entries(),
    )
    &&& after == (BotfatherState { version: after.version, runtime: after.runtime, ..before })
}

impl Default for BotfatherState {
    fn default() -> (s: Self)
        ensures
            is_default_state(s),
    {
        BotfatherState {
            version: STATE_VERSION,
            user: UserSnapshot::default(),
            inventory: InventorySnapshot::default(),
            workspaces: StrMap::new(),
            runtime_profiles: StrMap::new(),
            bots: StrMap::new(),
            sender_profiles: StrMap::new(),
            space_bindings: StrMap::new(),
            room_bindings: StrMap::new(),
            defaults: BotfatherDefaults::default(),
            runtime: RuntimeState::default(),
        }
    }
}

/// The records of a session list, each stored under its own key once the key
/// is normalized; the list is taken in order, and a later record replaces an
/// earlier one that normalizes to the same key.
pub open spec fn normalized_sessions(s: Seq<(SessionKeyView, SessionRecordView)>) -> Map<
    SessionKeyView,
    SessionRecordView,
>
    decreases s.len(),
{
    if s.len() == 0 {
        Map::empty()
    } else {
        let r = s.last().1;
        let k = normalized_key(r.key);
        normalized_sessions(s.drop_last()).insert(k, SessionRecordView { key: k, ..r })
    }
}

/// A settled key: normalizing any key gives a key whose scope agrees with
/// its event ids, and normalizing that again changes nothing.
pub proof fn lemma_normalized_key_is_settled(k: SessionKeyView)
    ensures
        key_is_normalized(normalized_key(k)),
        normalized_key(normalized_key(k)) == normalized_key(k),
{
}

/// A key whose scope already agrees with its event ids is left as it is.
pub proof fn lemma_settled_key_is_fixed(k: SessionKeyView)
    requires
        key_is_normalized(k),
    ensures
        normalized_key(k) == k,
{
}

/// Every session map whose records are each stored under their own key, and
/// that key settled.
pub open spec fn sessions_settled(m: Map<SessionKeyView, SessionRecordView>) -> bool {
    forall|k: SessionKeyView| #[trigger]
        m.contains_key(k) ==> key_is_normalized(k) && m[k].key == k
}

/// After normalization every record is stored under its own key, and that
/// key is settled.
pub proof fn lemma_normalized_sessions_are_settled(s: Seq<(SessionKeyView, SessionRecordView)>)
    ensures
        sessions_settled(normalized_sessions(s)),
    decreases s.len(),
{
    if s.len() > 0 {
        lemma_normalized_sessions_are_settled(s.drop_last());
        lemma_normalized_key_is_settled(s.last().1.key);
    }
}

/// Normalizing a session list loses no record's key and makes up none:
/// every record of the list is found under its normalized key, and every
/// record after it is a record of the list, with the same runtime profile
/// and session id, stored under that record's normalized key.
pub proof fn lemma_normalized_sessions_come_from_the_list(s: Seq<(SessionKeyView, SessionRecordView)>)
    ensures
        forall|i: int|
            0 <= i < s.len() ==> normalized_sessions(s).contains_key(
                #[trigger] normalized_key(s[i].1.key),
            ),
        forall|k: SessionKeyView| #[trigger]
            normalized_sessions(s).contains_key(k) ==> exists|i: int|
                0 <= i < s.len() && k == normalized_key(s[i].1.key) && #[trigger] normalized_sessions(
                    s,
                )[k] == (SessionRecordView { key: k, ..s[i].1 }),
    decreases s.len(),
{
    if s.len() > 0 {
        let t = s.drop_last();
        lemma_normalized_sessions_come_from_the_list(t);
        let last = s.len() - 1;
        assert forall|i: int| 0 <= i < s.len() implies normalized_sessions(s).contains_key(
            #[trigger] normalized_key(s[i].1.key),
        ) by {
            if i < last {
                assert(t[i] == s[i]);
            }
        }
        assert forall|k: SessionKeyView| #[trigger]
            normalized_sessions(s).contains_key(k) implies exists|i: int|
            0 <= i < s.len() && k == normalized_key(s[i].1.key) && #[trigger] normalized_sessions(
                s,
            )[k] == (SessionRecordView { key: k, ..s[i].1 }) by {
            if k == normalized_key(s[last].1.key) {
                assert(normalized_sessions(s)[k] == (SessionRecordView { key: k, ..s[last].1 }));
            } else {
                let i = choose|i: int|
                    0 <= i < t.len() && k == normalized_key(t[i].1.key) && #[trigger] normalized_sessions(
                        t,
                    )[k] == (SessionRecordView { key: k, ..t[i].1 });
                assert(t[i] == s[i]);
                assert(normalized_sessions(s)[k] == (SessionRecordView { key: k, ..s[i].1 }));
            }
        }
    }
}

/// Bringing a state up to date keeps its sessions: each session before is
/// found after under its record's normalized key, and each session after is
/// one from before, with the same runtime profile and session id, stored
/// under that record's normalized key.
pub proof fn lemma_normalize_keeps_sessions(before: BotfatherState, after: BotfatherState)
    requires
        before.runtime.active_sessions.well_formed(),
        normalized_from(before, after),
    ensures
        forall|k0: SessionKeyView| #[trigger]
            before.runtime.active_sessions@.contains_key(k0)
                ==> after.runtime.active_sessions@.contains_key(
                normalized_key(before.runtime.active_sessions@[k0].key),
            ),
        forall|k: SessionKeyView| #[trigger]
            after.runtime.active_sessions@.contains_key(k) ==> exists|k0: SessionKeyView|
                #[trigger] before.runtime.active_sessions@.contains_key(k0) && k == normalized_key(
                    before.runtime.active_sessions@[k0].key,
                ) && after.runtime.active_sessions@[k] == (SessionRecordView {
                    key: k,
                    ..before.runtime.active_sessions@[k0]
                }),
{
    let m = before.runtime.active_sessions;
    let s = m.ordered_entries();
    m.lemma_well_formed();
    lemma_normalized_sessions_come_from_the_list(s);
    assert forall|k0: SessionKeyView| #[trigger] m@.contains_key(k0) implies after.runtime.active_sessions@.contains_key(
        normalized_key(m@[k0].key),
    ) by {
        let i = crate::sessions::pairs_key_position(s, k0);
        assert(s[i].0 == k0);
        crate::sessions::lemma_increasing_lookup(s, i);
        assert(normalized_sessions(s).contains_key(normalized_key(s[i].1.key)));
    }
    assert forall|k: SessionKeyView| #[trigger]
        after.runtime.active_sessions@.contains_key(k) implies exists|k0: SessionKeyView|
        #[trigger] m@.contains_key(k0) && k == normalized_key(m@[k0].key)
            && after.runtime.active_sessions@[k] == (SessionRecordView { key: k, ..m@[k0] }) by {
        let i = choose|i: int|
            0 <= i < s.len() && k == normalized_key(s[i].1.key) && #[trigger] normalized_sessions(
                s,
            )[k] == (SessionRecordView { key: k, ..s[i].1 });
        crate::sessions::lemma_increasing_lookup(s, i);
        assert(m@.contains_key(s[i].0));
    }
}

/// The record that normalizing a list keeps under a key is the last record
/// of the list that normalizes to it.
pub proof fn lemma_normalized_sessions_keep_the_last(s: Seq<(SessionKeyView, SessionRecordView)>, i: int)
    requires
        0 <= i < s.len(),
        forall|j: int|
            i < j < s.len() ==> normalized_key(#[trigger] s[j].1.key) != normalized_key(s[i].1.key),
    ensures
        normalized_sessions(s).contains_key(normalized_key(s[i].1.key)),
        normalized_sessions(s)[normalized_key(s[i].1.key)] == (SessionRecordView {
            key: normalized_key(s[i].1.key),
            ..s[i].1
        }),
    decreases s.len(),
{
    let t = s.drop_last();
    if i < s.len() - 1 {
        assert(normalized_key(s[s.len() - 1].1.key) != normalized_key(s[i].1.key));
        assert forall|j: int| i < j < t.len() implies normalized_key(#[trigger] t[j].1.key)
            != normalized_key(t[i].1.key) by {
            assert(t[j] == s[j]);
            assert(normalized_key(s[j].1.key) != normalized_key(s[i].1.key));
        }
        lemma_normalized_sessions_keep_the_last(t, i);
        assert(t[i] == s[i]);
    }
}

/// Where several sessions of a state normalize to one key, bringing the state
/// up to date keeps the one stored under the greatest key, in the order in
/// which the session map walks its keys.
pub proof fn lemma_normalize_keeps_the_greatest_key(
    before: BotfatherState,
    after: BotfatherState,
    k1: SessionKeyView,
)
    requires
        before.runtime.active_sessions.well_formed(),
        normalized_from(before, after),
        before.runtime.active_sessions@.contains_key(k1),
        forall|k0: SessionKeyView|
            #[trigger] before.runtime.active_sessions@.contains_key(k0) && k0 != k1
                && normalized_key(before.runtime.active_sessions@[k0].key) == normalized_key(
                before.runtime.active_sessions@[k1].key,
            ) ==> crate::sessions::key_lt(k0, k1),
    ensures
        ({
            let r = before.runtime.active_sessions@[k1];
            after.runtime.active_sessions@[normalized_key(r.key)] == (SessionRecordView {
                key: normalized_key(r.key),
                ..r
            })
        }),
{
    let m = before.runtime.active_sessions;
    let s = m.ordered_entries();
    m.lemma_well_formed();
    let i = crate::sessions::pairs_key_position(s, k1);
    assert(s[i].0 == k1);
    crate::sessions::lemma_increasing_lookup(s, i);
    assert forall|j: int| i < j < s.len() implies normalized_key(#[trigger] s[j].1.key)
        != normalized_key(s[i].1.key) by {
        crate::sessions::lemma_increasing_lookup(s, j);
        assert(crate::sessions::key_lt(s[i].0, s[j].0));
        crate::sessions::lemma_key_lt_strict_total_order(s[i].0, s[j].0, s[i].0);
        if normalized_key(s[j].1.key) == normalized_key(s[i].1.key) {
            assert(m@.contains_key(s[j].0));
            assert(crate::sessions::key_lt(s[j].0, k1));
        }
    }
    lemma_normalized_sessions_keep_the_last(s, i);
}

/// Normalization leaves a session map alone whose records are each stored
/// under their own settled key: so normalizing twice is normalizing once.
pub proof fn lemma_normalize_keeps_settled_sessions(m: SessionMap)
    requires
        m.well_formed(),
        sessions_settled(m@),
    ensures
        normalized_sessions(m.ordered_entries()) == m@,
{
    m.lemma_well_formed();
    lemma_settled_entries_fixed(m.ordered_entries());
}

proof fn lemma_settled_entries_fixed(s: Seq<(SessionKeyView, SessionRecordView)>)
    requires
        crate::sessions::keys_increasing(s),
        sessions_settled(crate::sessions::pairs_map(s)),
    ensures
        normalized_sessions(s) == crate::sessions::pairs_map(s),
    decreases s.len(),
{
    if s.len() == 0 {
        assert(crate::sessions::pairs_map(s) =~= Map::<SessionKeyView, SessionRecordView>::empty());
    } else {
        let t = s.drop_last();
        crate::sessions::lemma_pairs_map_push(s);
        let k = s.last().0;
        crate::sessions::lemma_increasing_lookup(s, s.len() - 1);
        assert(crate::sessions::pairs_map(s).contains_key(k));
        assert(key_is_normalized(k) && s.last().1.key == k);
        assert(sessions_settled(crate::sessions::pairs_map(t))) by {
            assert forall|q: SessionKeyView| #[trigger]
                crate::sessions::pairs_map(t).contains_key(q) implies key_is_normalized(q)
                && crate::sessions::pairs_map(t)[q].key == q by {
                let j = crate::sessions::pairs_key_position(t, q);
                crate::sessions::lemma_increasing_lookup(t, j);
                crate::sessions::lemma_increasing_lookup(s, j);
                assert(t[j] == s[j]);
            }
        }
        lemma_settled_entries_fixed(t);
        let r = s.last().1;
        assert(SessionRecordView { key: normalized_key(r.key), ..r } == r);
    }
}

impl BotfatherState {
    /// Brings a state read from disk up to date: raises an older version to
    /// `STATE_VERSION`, and stores every session record under its own
    /// normalized key, visiting the records in key order.
    pub fn normalize(&mut self)
        ensures
            normalized_from(*old(self), *final(self)),
    {
        if self.version == 0 || self.version < STATE_VERSION {
            self.version = STATE_VERSION;
        }
        let mut sessions = SessionMap::new();
        std::mem::swap(&mut sessions, &mut self.runtime.active_sessions);
        let ghost s = sessions.ordered_entries();
        let entries = sessions.entries();
        let mut normalized = SessionMap::new();
        let mut i: usize = 0;
        while i < entries.len()
            invariant
                0 <= i <= entries@.len(),
                crate::sessions::entry_views(entries@) == s,
                normalized@ == normalized_sessions(s.take(i as int)),
            decreases entries@.len() - i,
        {
            let mut record = entries[i].1.clone();
            record.key.normalize();
            let key = record.key.clone();
            proof {
                assert(s[i as int].1 == entries@[i as int].1@);
                assert(s.take(i + 1).drop_last() =~= s.take(i as int));
            }
            normalized.insert(key, record);
            i = i + 1;
        }
        proof {
            assert(s.take(i as int) =~= s);
        }
        self.runtime.active_sessions = normalized;
    }

    /// Replaces the snapshot of the user and of the rooms and spaces.
    pub fn refresh_inventory(&mut self, user: UserSnapshot, inventory: InventorySnapshot)
        ensures
            *final(self) == (BotfatherState { user, inventory, ..*old(self) }),
    {
        self.user = user;
        self.inventory = inventory;
    }
}

/// The Matrix account that the state belongs to.
#[derive(Clone, Debug, PartialEq, Eq)]
pub struct UserSnapshot {
    pub matrix_user_id: Option<String>,
    pub homeserver_url: Option<String>,
}

impl Default for UserSnapshot {
    fn default() -> (s: Self)
        ensures
            s.matrix_user_id is None,
            s.homeserver_url is None,
    {
        UserSnapshot { matrix_user_id: None, homeserver_url: None }
    }
}

/// The rooms and spaces that the account sees.
#[derive(Clone, Debug)]
pub struct InventorySnapshot {
    pub rooms: StrMap<RoomInventory>,
    pub spaces: StrMap<SpaceInventory>,
}

impl Default for InventorySnapshot {
    fn default() -> (s: Self)
        ensures
            s.rooms@ == Map::<Seq<char>, RoomInventory>::empty(),
            s.spaces@ == Map::<Seq<char>, SpaceInventory>::empty(),
    {
        InventorySnapshot { rooms: StrMap::new(), spaces: StrMap::new() }
    }
}

#[derive(Clone, Debug, Default, PartialEq, Eq)]
pub struct RoomInventory {
    pub room_id: RoomId,
    pub display_name: Option<String>,
    pub canonical_alias: Option<String>,
    pub space_ids: Vec<SpaceId>,
    pub is_direct: bool,
    pub stale: bool,
}

#[derive(Clone, Debug, Default, PartialEq, Eq)]
pub struct SpaceInventory {
    pub space_id: SpaceId,
    pub display_name: Option<String>,
    pub canonical_alias: Option<String>,
    pub child_room_ids: Vec<RoomId>,
}

/// A working directory that a runtime profile can point at. Paths are held
/// as strings.
#[derive(Debug, Default, PartialEq, Eq)]
pub struct Workspace {
    pub id: WorkspaceId,
    pub name: String,
    pub root_dir: String,
    pub data_dir: Option<String>,
    pub skills_dirs: Vec<String>,
    pub description: Option<String>,
}

pub struct WorkspaceView {
    pub id: Seq<char>,
    pub name: Seq<char>,
    pub root_dir: Seq<char>,
    pub data_dir: Option<Seq<char>>,
    pub skills_dirs: Seq<Seq<char>>,
    pub description: Option<Seq<char>>,
}

impl View for Workspace {
    type V = WorkspaceView;

    open spec fn view(&self) -> WorkspaceView {
        WorkspaceView {
            id: self.id@,
            name: self.name@,
            root_dir: self.root_dir@,
            data_dir: text::opt_view(self.data_dir),
            skills_dirs: text::strings_view(self.skills_dirs@),
            description: text::opt_view(self.description),
        }
    }
}

impl Clone for Workspace {
    fn clone(&self) -> (r: Self)
        ensures
            r@ == self@,
    {
        Workspace {
            id: self.id.clone(),
            name: self.name.clone(),
            root_dir: self.root_dir.clone(),
            data_dir: clone_opt(&self.data_dir),
            skills_dirs: clone_strings(&self.skills_dirs),
            description: clone_opt(&self.description),
        }
    }
}

/// The two kinds of runtime a bot can run on.
#[derive(Clone, Copy, Debug, Default, PartialEq, Eq, Structural, PartialOrd, Ord)]
pub enum RuntimeKind {
    #[default]
    Crew,
    OpenClaw,
}

/// A configured runtime that bots run on.
#[derive(Debug, PartialEq, Eq)]
pub struct RuntimeProfile {
    pub id: RuntimeProfileId,
    pub name: String,
    pub workspace_id: Option<WorkspaceId>,
    pub description: Option<String>,
    pub dispatch_policy: DispatchPolicy,
    pub config: RuntimeConfig,
}

pub struct RuntimeProfileView {
    pub id: Seq<char>,
    pub name: Seq<char>,
    pub workspace_id: Option<Seq<char>>,
    pub description: Option<Seq<char>>,
    pub dispatch_policy: DispatchPolicy,
    pub config: RuntimeConfigView,
}

impl View for RuntimeProfile {
    type V = RuntimeProfileView;

    open spec fn view(&self) -> RuntimeProfileView {
        RuntimeProfileView {
            id: self.id@,
            name: self.name@,
            workspace_id: text::opt_view(self.workspace_id),
            description: text::opt_view(self.description),
            dispatch_policy: self.dispatch_policy,
            config: self.config@,
        }
    }
}

impl Clone for RuntimeProfile {
    fn clone(&self) -> (r: Self)
        ensures
            r@ == self@,
    {
        RuntimeProfile {
            id: self.id.clone(),
            name: self.name.clone(),
            workspace_id: clone_opt(&self.workspace_id),
            description: clone_opt(&self.description),
            dispatch_policy: self.dispatch_policy,
            config: self.config.clone(),
        }
    }
}

impl RuntimeProfile {
    /// The kind of runtime that the profile configures.
    pub fn kind(&self) -> (k: RuntimeKind)
        ensures
            k == self@.config.kind(),
    {
        self.config.kind()
    }
}

/// How to reach a runtime.
#[derive(Debug, PartialEq, Eq)]
pub enum RuntimeConfig {
    Crew {
        base_url: String,
        api_key_env: Option<String>,
        model: Option<String>,
        system_prompt: Option<String>,
    },
    OpenClaw(OpenClawRuntimeConfig),
}

pub enum RuntimeConfigView {
    Crew {
        base_url: Seq<char>,
        api_key_env: Option<Seq<char>>,
        model: Option<Seq<char>>,
        system_prompt: Option<Seq<char>>,
    },
    OpenClaw(OpenClawRuntimeConfigView),
}

impl RuntimeConfigView {
    pub open spec fn kind(self) -> RuntimeKind {
        match self {
            RuntimeConfigView::Crew { .. } => RuntimeKind::Crew,
            RuntimeConfigView::OpenClaw(_) => RuntimeKind::OpenClaw,
        }
    }
}

impl View for RuntimeConfig {
    type V = RuntimeConfigView;

    open spec fn view(&self) -> RuntimeConfigView {
        match self {
            RuntimeConfig::Crew { base_url, api_key_env, model, system_prompt } => {
                RuntimeConfigView::Crew {
                    base_url: base_url@,
                    api_key_env: text::opt_view(*api_key_env),
                    model: text::opt_view(*model),
                    system_prompt: text::opt_view(*system_prompt),
                }
            },
            RuntimeConfig::OpenClaw(c) => RuntimeConfigView::OpenClaw(c@),
        }
    }
}

impl Clone for RuntimeConfig {
    fn clone(&self) -> (r: Self)
        ensures
            r@ == self@,
    {
        match self {
            RuntimeConfig::Crew { base_url, api_key_env, model, system_prompt } => {
                RuntimeConfig::Crew {
                    base_url: base_url.clone(),
                    api_key_env: clone_opt(api_key_env),
                    model: clone_opt(model),
                    system_prompt: clone_opt(system_prompt),
                }
            },
            RuntimeConfig::OpenClaw(c) => RuntimeConfig::OpenClaw(c.clone()),
        }
    }
}

impl RuntimeConfig {
    /// The kind of runtime that this configuration reaches.
    pub fn kind(&self) -> (k: RuntimeKind)
        ensures
            k == self@.kind(),
    {
        match self {
            RuntimeConfig::Crew { .. } => RuntimeKind::Crew,
            RuntimeConfig::OpenClaw(_) => RuntimeKind::OpenClaw,
        }
    }
}

/// How to reach an OpenClaw gateway.
#[derive(Debug, PartialEq, Eq)]
pub struct OpenClawRuntimeConfig {
    pub gateway_url: String,
    pub auth_token_env: Option<String>,
    pub agent_id: String,
}

pub struct OpenClawRuntimeConfigView {
    pub gateway_url: Seq<char>,
    pub auth_token_env: Option<Seq<char>>,
    pub agent_id: Seq<char>,
}

impl View for OpenClawRuntimeConfig {
    type V = OpenClawRuntimeConfigView;

    open spec fn view(&self) -> OpenClawRuntimeConfigView {
        OpenClawRuntimeConfigView {
            gateway_url: self.gateway_url@,
            auth_token_env: text::opt_view(self.auth_token_env),
            agent_id: self.agent_id@,
        }
    }
}

impl Clone for OpenClawRuntimeConfig {
    fn clone(&self) -> (r: Self)
        ensures
            r@ == self@,
    {
        OpenClawRuntimeConfig {
            gateway_url: self.gateway_url.clone(),
            auth_token_env: clone_opt(&self.auth_token_env),
            agent_id: self.agent_id.clone(),
        }
    }
}

impl Default for OpenClawRuntimeConfig {
    fn default() -> (c: Self)
        ensures
            c.gateway_url@.len() == 0,
            c.auth_token_env is None,
            c.agent_id@ == default_openclaw_agent_id_spec(),
    {
        OpenClawRuntimeConfig {
            gateway_url: String::new(),
            auth_token_env: None,
            agent_id: default_openclaw_agent_id(),
        }
    }
}

/// A bot: what it is called, which runtime it runs on, and how it behaves
/// where no binding says otherwise.
#[derive(Debug, Default, PartialEq, Eq)]
pub struct BotDefinition {
    pub id: BotId,
    pub name: String,
    pub runtime_profile_id: RuntimeProfileId,
    pub default_sender_profile_id: Option<SenderProfileId>,
    pub priority: i32,
    pub enabled: bool,
    pub trigger: TriggerPolicy,
    pub default_delivery: DeliveryTarget,
    pub permissions: PermissionPolicy,
    pub runtime_override: BotRuntimeOverride,
    pub dispatch_policy_override: Option<DispatchPolicy>,
    pub description: Option<String>,
}

pub struct BotDefinitionView {
    pub id: Seq<char>,
    pub name: Seq<char>,
    pub runtime_profile_id: Seq<char>,
    pub default_sender_profile_id: Option<Seq<char>>,
    pub priority: i32,
    pub enabled: bool,
    pub trigger: TriggerPolicyView,
    pub default_delivery: DeliveryTarget,
    pub permissions: PermissionPolicy,
    pub runtime_override: BotRuntimeOverrideView,
    pub dispatch_policy_override: Option<DispatchPolicy>,
    pub description: Option<Seq<char>>,
}

impl View for BotDefinition {
    type V = BotDefinitionView;

    open spec fn view(&self) -> BotDefinitionView {
        BotDefinitionView {
            id: self.id@,
            name: self.name@,
            runtime_profile_id: self.runtime_profile_id@,
            default_sender_profile_id: text::opt_view(self.default_sender_profile_id),
            priority: self.priority,
            enabled: self.enabled,
            trigger: self.trigger@,
            default_delivery: self.default_delivery,
            permissions: self.permissions,
            runtime_override: self.runtime_override@,
            dispatch_policy_override: self.dispatch_policy_override,
            description: text::opt_view(self.description),
        }
    }
}

impl Clone for BotDefinition {
    fn clone(&self) -> (r: Self)
        ensures
            r@ == self@,
    {
        BotDefinition {
            id: self.id.clone(),
            name: self.name.clone(),
            runtime_profile_id: self.runtime_profile_id.clone(),
            default_sender_profile_id: clone_opt(&self.default_sender_profile_id),
            priority: self.priority,
            enabled: self.enabled,
            trigger: self.trigger.clone(),
            default_delivery: self.default_delivery,
            permissions: self.permissions,
            runtime_override: self.runtime_override.clone(),
            dispatch_policy_override: self.dispatch_policy_override,
            description: clone_opt(&self.description),
        }
    }
}

/// Settings of a bot that take precedence over those of its runtime.
#[derive(Debug, Default, PartialEq, Eq)]
pub struct BotRuntimeOverride {
    pub model: Option<String>,
    pub system_prompt: Option<String>,
    pub agent_id: Option<String>,
}

pub struct BotRuntimeOverrideView {
    pub model: Option<Seq<char>>,
    pub system_prompt: Option<Seq<char>>,
    pub agent_id: Option<Seq<char>>,
}

impl View for BotRuntimeOverride {
    type V = BotRuntimeOverrideView;

    open spec fn view(&self) -> BotRuntimeOverrideView {
        BotRuntimeOverrideView {
            model: text::opt_view(self.model),
            system_prompt: text::opt_view(self.system_prompt),
            agent_id: text::opt_view(self.agent_id),
        }
    }
}

impl Clone for BotRuntimeOverride {
    fn clone(&self) -> (r: Self)
        ensures
            r@ == self@,
    {
        BotRuntimeOverride {
            model: clone_opt(&self.model),
            system_prompt: clone_opt(&self.system_prompt),
            agent_id: clone_opt(&self.agent_id),
        }
    }
}

impl BotRuntimeOverride {
    /// Whether the override sets nothing.
    pub fn is_empty(&self) -> (r: bool)
        ensures
            r == (self.model is None && self.system_prompt is None && self.agent_id is None),
    {
        self.model.is_none() && self.system_prompt.is_none() && self.agent_id.is_none()
    }
}

/// Limits on concurrent work.
#[derive(Clone, Copy, Debug, PartialEq, Eq, Structural)]
pub struct DispatchPolicy {
    pub max_parallel_per_room: usize,
    pub max_parallel_per_runtime: usize,
    pub queue_limit: usize,
}

impl Default for DispatchPolicy {
    fn default() -> (p: Self)
        ensures
            p.max_parallel_per_room == 1,
            p.max_parallel_per_runtime == 1,
            p.queue_limit == 8,
    {
        DispatchPolicy {
            max_parallel_per_room: default_max_parallel_per_room(),
            max_parallel_per_runtime: default_max_parallel_per_runtime(),
            queue_limit: default_queue_limit(),
        }
    }
}

/// A bot bound to a room or a space, with settings that take precedence over
/// the bot's own.
#[derive(Debug, Default, PartialEq, Eq)]
pub struct BotBinding {
    pub bot_id: BotId,
    pub enabled: bool,
    pub priority: i32,
    pub trigger: Option<TriggerPolicy>,
    pub delivery: Option<DeliveryTarget>,
    pub permissions: Option<PermissionPolicy>,
    pub sender_profile_id: Option<SenderProfileId>,
}

pub struct BotBindingView {
    pub bot_id: Seq<char>,
    pub enabled: bool,
    pub priority: i32,
    pub trigger: Option<TriggerPolicyView>,
    pub delivery: Option<DeliveryTarget>,
    pub permissions: Option<PermissionPolicy>,
    pub sender_profile_id: Option<Seq<char>>,
}

/// The view of an optional trigger policy.
pub open spec fn opt_trigger_view(t: Option<TriggerPolicy>) -> Option<TriggerPolicyView> {
    match t {
        Some(t) => Some(t@),
        None => None,
    }
}

impl View for BotBinding {
    type V = BotBindingView;

    open spec fn view(&self) -> BotBindingView {
        BotBindingView {
            bot_id: self.bot_id@,
            enabled: self.enabled,
            priority: self.priority,
            trigger: opt_trigger_view(self.trigger),
            delivery: self.delivery,
            permissions: self.permissions,
            sender_profile_id: text::opt_view(self.sender_profile_id),
        }
    }
}

impl Clone for BotBinding {
    fn clone(&self) -> (r: Self)
        ensures
            r@ == self@,
    {
        let trigger = match &self.trigger {
            Some(t) => Some(t.clone()),
            None => None,
        };
        BotBinding {
            bot_id: self.bot_id.clone(),
            enabled: self.enabled,
            priority: self.priority,
            trigger,
            delivery: self.delivery,
            permissions: self.permissions,
            sender_profile_id: clone_opt(&self.sender_profile_id),
        }
    }
}

/// What applies to every room.
#[derive(Clone, Debug, PartialEq, Eq)]
pub struct BotfatherDefaults {
    pub bot_ids: Vec<BotId>,
    pub default_sender_profile_id: Option<SenderProfileId>,
    pub room_stream_preview_enabled: bool,
}

impl Default for BotfatherDefaults {
    fn default() -> (d: Self)
        ensures
            d.bot_ids@.len() == 0,
            d.default_sender_profile_id is None,
            !d.room_stream_preview_enabled,
    {
        BotfatherDefaults {
            bot_ids: Vec::new(),
            default_sender_profile_id: None,
            room_stream_preview_enabled: false,
        }
    }
}

#[derive(Clone, Copy, Debug, Default, PartialEq, Eq, Structural)]
pub enum SenderProfileKind {
    #[default]
    CurrentUser,
    MatrixBot,
}

#[derive(Clone, Copy, Debug, Default, PartialEq, Eq, Structural)]
pub enum SenderSecurityLevel {
    #[default]
    Standard,
    Elevated,
    Isolated,
}

/// The Matrix identity that a bot's replies are sent as.
#[derive(Debug, Default, PartialEq, Eq)]
pub struct SenderProfile {
    pub id: SenderProfileId,
    pub name: String,
    pub enabled: bool,
    pub kind: SenderProfileKind,
    pub matrix_user_id: Option<String>,
    pub homeserver_url: Option<String>,
    pub device_id: Option<String>,
    pub access_token_env: Option<String>,
    pub access_token: Option<String>,
    pub last_verified_at_millis: Option<u64>,
    pub last_verification_error: Option<String>,
    pub security: SenderSecurityLevel,
    pub description: Option<String>,
}

pub struct SenderProfileView {
    pub id: Seq<char>,
    pub name: Seq<char>,
    pub enabled: bool,
    pub kind: SenderProfileKind,
    pub matrix_user_id: Option<Seq<char>>,
    pub homeserver_url: Option<Seq<char>>,
    pub device_id: Option<Seq<char>>,
    pub access_token_env: Option<Seq<char>>,
    pub access_token: Option<Seq<char>>,
    pub last_verified_at_millis: Option<u64>,
    pub last_verification_error: Option<Seq<char>>,
    pub security: SenderSecurityLevel,
    pub description: Option<Seq<char>>,
}

impl View for SenderProfile {
    type V = SenderProfileView;

    open spec fn view(&self) -> SenderProfileView {
        SenderProfileView {
            id: self.id@,
            name: self.name@,
            enabled: self.enabled,
            kind: self.kind,
            matrix_user_id: text::opt_view(self.matrix_user_id),
            homeserver_url: text::opt_view(self.homeserver_url),
            device_id: text::opt_view(self.device_id),
            access_token_env: text::opt_view(self.access_token_env),
            access_token: text::opt_view(self.access_token),
            last_verified_at_millis: self.last_verified_at_millis,
            last_verification_error: text::opt_view(self.last_verification_error),
            security: self.security,
            description: text::opt_view(self.description),
        }
    }
}

impl Clone for SenderProfile {
    fn clone(&self) -> (r: Self)
        ensures
            r@ == self@,
    {
        SenderProfile {
            id: self.id.clone(),
            name: self.name.clone(),
            enabled: self.enabled,
            kind: self.kind,
            matrix_user_id: clone_opt(&self.matrix_user_id),
            homeserver_url: clone_opt(&self.homeserver_url),
            device_id: clone_opt(&self.device_id),
            access_token_env: clone_opt(&self.access_token_env),
            access_token: clone_opt(&self.access_token),
            last_verified_at_millis: self.last_verified_at_millis,
            last_verification_error: clone_opt(&self.last_verification_error),
            security: self.security,
            description: clone_opt(&self.description),
        }
    }
}

/// The id of the sender profile that stands for the logged-in user.
pub const CURRENT_USER_SENDER_ID: &'static str = "current-user";

/// The sender profile of the logged-in user that `user` describes: enabled,
/// of kind `CurrentUser`, with the user's Matrix id and homeserver.
pub open spec fn current_user_profile(user: UserSnapshot) -> SenderProfileView {
    SenderProfileView {
        id: CURRENT_USER_SENDER_ID@,
        name: "Current User"@,
        enabled: true,
        kind: SenderProfileKind::CurrentUser,
        matrix_user_id: text::opt_view(user.matrix_user_id),
        homeserver_url: text::opt_view(user.homeserver_url),
        device_id: None,
        access_token_env: None,
        access_token: None,
        last_verified_at_millis: None,
        last_verification_error: None,
        security: SenderSecurityLevel::Standard,
        description: None,
    }
}

impl SenderProfile {
    /// The sender profile of the logged-in user that `user` describes.
    pub fn current_user(user: &UserSnapshot) -> (p: SenderProfile)
        ensures
            p@ == current_user_profile(*user),
    {
        SenderProfile {
            id: String::from_str(CURRENT_USER_SENDER_ID),
            name: String::from_str("Current User"),
            enabled: true,
            kind: SenderProfileKind::CurrentUser,
            matrix_user_id: clone_opt(&user.matrix_user_id),
            homeserver_url: clone_opt(&user.homeserver_url),
            device_id: None,
            access_token_env: None,
            access_token: None,
            last_verified_at_millis: None,
            last_verification_error: None,
            security: SenderSecurityLevel::Standard,
            description: None,
        }
    }

    /// Whether replies go out as the logged-in user.
    pub fn uses_current_user(&self) -> (r: bool)
        ensures
            r == (self.kind == SenderProfileKind::CurrentUser),
    {
        match self.kind {
            SenderProfileKind::CurrentUser => true,
            SenderProfileKind::MatrixBot => false,
        }
    }
}

#[derive(Clone, Copy, Debug, Default, PartialEq, Eq, Structural)]
pub enum TriggerMode {
    #[default]
    Manual,
    Mention,
    Command,
    Event,
}

/// When a bot answers.
#[derive(Debug, Default, PartialEq, Eq)]
pub struct TriggerPolicy {
    pub mode: TriggerMode,
    pub command_prefix: Option<String>,
    pub mention_name: Option<String>,
    pub reply_only: bool,
    pub thread_only: bool,
}

pub struct TriggerPolicyView {
    pub mode: TriggerMode,
    pub command_prefix: Option<Seq<char>>,
    pub mention_name: Option<Seq<char>>,
    pub reply_only: bool,
    pub thread_only: bool,
}

impl View for TriggerPolicy {
    type V = TriggerPolicyView;

    open spec fn view(&self) -> TriggerPolicyView {
        TriggerPolicyView {
            mode: self.mode,
            command_prefix: text::opt_view(self.command_prefix),
            mention_name: text::opt_view(self.mention_name),
            reply_only: self.reply_only,
            thread_only: self.thread_only,
        }
    }
}

impl Clone for TriggerPolicy {
    fn clone(&self) -> (r: Self)
        ensures
            r@ == self@,
    {
        TriggerPolicy {
            mode: self.mode,
            command_prefix: clone_opt(&self.command_prefix),
            mention_name: clone_opt(&self.mention_name),
            reply_only: self.reply_only,
            thread_only: self.thread_only,
        }
    }
}

/// Where a bot's reply goes.
#[derive(Clone, Copy, Debug, Default, PartialEq, Eq, Structural)]
pub enum DeliveryTarget {
    #[default]
    CurrentRoom,
    CurrentThread,
    ReplyToSource,
}

/// What a bot may do.
#[derive(Clone, Copy, Debug, PartialEq, Eq, Structural)]
pub struct PermissionPolicy {
    pub can_post_to_room: bool,
    pub can_post_to_thread: bool,
    pub can_react: bool,
    pub can_use_tools: bool,
}

impl Default for PermissionPolicy {
    fn default() -> (p: Self)
        ensures
            p.can_post_to_room,
            p.can_post_to_thread,
            !p.can_react,
            p.can_use_tools,
    {
        PermissionPolicy {
            can_post_to_room: default_true(),
            can_post_to_thread: default_true(),
            can_react: false,
            can_use_tools: default_true(),
        }
    }
}

/// The sessions that dispatches have opened, by key.
#[derive(Clone, Debug)]
pub struct RuntimeState {
    pub active_sessions: SessionMap,
}

impl Default for RuntimeState {
    fn default() -> (s: Self)
        ensures
            s.active_sessions@ == Map::<SessionKeyView, SessionRecordView>::empty(),
    {
        RuntimeState { active_sessions: SessionMap::new() }
    }
}

/// What a session is scoped to within a room.
#[derive(Clone, Copy, Debug, Default, PartialEq, Eq, Structural, PartialOrd, Ord)]
pub enum SessionScopeKind {
    #[default]
    Room,
    Thread,
    ReplyRoot,
}

/// Identifies a conversation of one bot in one room, thread or reply chain.
#[derive(Debug, Default, PartialEq, Eq)]
pub struct SessionKey {
    pub room_id: RoomId,
    pub scope_kind: SessionScopeKind,
    pub thread_root_event_id: Option<String>,
    pub reply_root_event_id: Option<String>,
    pub bot_id: BotId,
}

pub struct SessionKeyView {
    pub room_id: Seq<char>,
    pub scope_kind: SessionScopeKind,
    pub thread_root_event_id: Option<Seq<char>>,
    pub reply_root_event_id: Option<Seq<char>>,
    pub bot_id: Seq<char>,
}

impl View for SessionKey {
    type V = SessionKeyView;

    open spec fn view(&self) -> SessionKeyView {
        SessionKeyView {
            room_id: self.room_id@,
            scope_kind: self.scope_kind,
            thread_root_event_id: text::opt_view(self.thread_root_event_id),
            reply_root_event_id: text::opt_view(self.reply_root_event_id),
            bot_id: self.bot_id@,
        }
    }
}

impl Clone for SessionKey {
    fn clone(&self) -> (r: Self)
        ensures
            r@ == self@,
    {
        SessionKey {
            room_id: self.room_id.clone(),
            scope_kind: self.scope_kind,
            thread_root_event_id: clone_opt(&self.thread_root_event_id),
            reply_root_event_id: clone_opt(&self.reply_root_event_id),
            bot_id: self.bot_id.clone(),
        }
    }
}

/// The scope that a key stands for once its event ids are taken into
/// account: the declared scope where its event id is present, else the scope
/// of the event id that is present (a thread before a reply chain), else the
/// room.
pub open spec fn normalized_scope(k: SessionKeyView) -> SessionScopeKind {
    match k.scope_kind {
        SessionScopeKind::ReplyRoot => if k.reply_root_event_id is Some {
            SessionScopeKind::ReplyRoot
        } else if k.thread_root_event_id is Some {
            SessionScopeKind::Thread
        } else {
            SessionScopeKind::Room
        },
        _ => if k.thread_root_event_id is Some {
            SessionScopeKind::Thread
        } else if k.reply_root_event_id is Some {
            SessionScopeKind::ReplyRoot
        } else {
            SessionScopeKind::Room
        },
    }
}

/// A key with its scope settled and the event id of the other scope dropped.
pub open spec fn normalized_key(k: SessionKeyView) -> SessionKeyView {
    let scope = normalized_scope(k);
    SessionKeyView {
        scope_kind: scope,
        thread_root_event_id: if scope == SessionScopeKind::ReplyRoot {
            None
        } else {
            k.thread_root_event_id
        },
        reply_root_event_id: if scope == SessionScopeKind::Thread {
            None
        } else {
            k.reply_root_event_id
        },
        ..k
    }
}

/// A key whose scope agrees with its event ids: a thread key names its
/// thread root and no reply root, a reply key the reverse, a room key neither.
pub open spec fn key_is_normalized(k: SessionKeyView) -> bool {
    match k.scope_kind {
        SessionScopeKind::Room => k.thread_root_event_id is None && k.reply_root_event_id is None,
        SessionScopeKind::Thread => k.thread_root_event_id is Some && k.reply_root_event_id is None,
        SessionScopeKind::ReplyRoot => k.reply_root_event_id is Some
            && k.thread_root_event_id is None,
    }
}

impl SessionKey {
    /// Settles the scope of a key from its event ids, as keys written by
    /// earlier versions need.
    pub fn normalize(&mut self)
        ensures
            final(self)@ == normalized_key(old(self)@),
    {
        match self.scope_kind {
            SessionScopeKind::Thread => {
                if self.thread_root_event_id.is_none() {
                    self.scope_kind =
                        if self.reply_root_event_id.is_some() {
                            SessionScopeKind::ReplyRoot
                        } else {
                            SessionScopeKind::Room
                        };
                }
                if self.scope_kind == SessionScopeKind::Thread {
                    self.reply_root_event_id = None;
                }
            },
            SessionScopeKind::ReplyRoot => {
                if self.reply_root_event_id.is_none() {
                    self.scope_kind =
                        if self.thread_root_event_id.is_some() {
                            SessionScopeKind::Thread
                        } else {
                            SessionScopeKind::Room
                        };
                }
                if self.scope_kind == SessionScopeKind::ReplyRoot {
                    self.thread_root_event_id = None;
                }
            },
            SessionScopeKind::Room => {
                if self.thread_root_event_id.is_some() {
                    self.scope_kind = SessionScopeKind::Thread;
                    self.reply_root_event_id = None;
                } else if self.reply_root_event_id.is_some() {
                    self.scope_kind = SessionScopeKind::ReplyRoot;
                    self.thread_root_event_id = None;
                }
            },
        }
    }
}

/// A session opened with a runtime.
#[derive(Debug, Default, PartialEq, Eq)]
pub struct SessionRecord {
    pub key: SessionKey,
    pub runtime_profile_id: RuntimeProfileId,
    pub session_id: String,
}

pub struct SessionRecordView {
    pub key: SessionKeyView,
    pub runtime_profile_id: Seq<char>,
    pub session_id: Seq<char>,
}

impl View for SessionRecord {
    type V = SessionRecordView;

    open spec fn view(&self) -> SessionRecordView {
        SessionRecordView {
            key: self.key@,
            runtime_profile_id: self.runtime_profile_id@,
            session_id: self.session_id@,
        }
    }
}

impl Clone for SessionRecord {
    fn clone(&self) -> (r: Self)
        ensures
            r@ == self@,
    {
        SessionRecord {
            key: self.key.clone(),
            runtime_profile_id: self.runtime_profile_id.clone(),
            session_id: self.session_id.clone(),
        }
    }
}

/// The version that a state written by an older version is raised to.
pub fn default_state_version() -> (v: StateVersion)
    ensures
        v == STATE_VERSION,
{
    STATE_VERSION
}

/// The value of permission flags that are absent: allowed.
pub fn default_true() -> (b: bool)
    ensures
        b,
{
    true
}

/// The agent that an OpenClaw runtime talks to unless configured otherwise.
pub open spec fn default_openclaw_agent_id_spec() -> Seq<char> {
    "main"@
}

/// The agent id `main`.
pub fn default_openclaw_agent_id() -> (s: String)
    ensures
        s@ == default_openclaw_agent_id_spec(),
{
    String::from_str("main")
}

pub fn default_max_parallel_per_room() -> (n: usize)
    ensures
        n == 1,
{
    1
}

pub fn default_max_parallel_per_runtime() -> (n: usize)
    ensures
        n == 1,
{
    1
}

pub fn default_queue_limit() -> (n: usize)
    ensures
        n == 8,
{
    8
}

} // verus!
