//! BotFather control plane for Robrix: the state of bots, runtimes and
//! bindings, the rules that resolve a room into the bots that serve it, and
//! the bookkeeping of the sessions that dispatches open.
pub mod resolution_laws;
pub mod manager;
pub mod resolver;
pub mod runtime;
pub mod sessions;
pub mod state;
pub mod store;
pub mod strmap;
pub mod text;

pub use manager::{BotfatherManager, DispatchError};
pub use resolver::{
    resolve_room_bot, resolve_room_bots, BindingSource, ResolveError, ResolvedBotBinding,
};
pub use runtime::{runtime_feature_enabled, BotRequest};
pub use sessions::SessionMap;
pub use state::{
    BotBinding, BotDefinition, BotRuntimeOverride, BotfatherDefaults, BotfatherState,
    DeliveryTarget, DispatchPolicy, InventorySnapshot, OpenClawRuntimeConfig, PermissionPolicy,
    RoomInventory, RuntimeConfig, RuntimeKind, RuntimeProfile, RuntimeState, SenderProfile,
    SenderProfileKind, SenderSecurityLevel, SessionKey, SessionRecord, SessionScopeKind,
    SpaceInventory, TriggerMode, TriggerPolicy, UserSnapshot, Workspace,
};
pub use store::StateStore;
pub use strmap::StrMap;
