//! The manager: the state and where it is stored, resolution against the
//! state, and the sessions that dispatches open.
use vstd::prelude::*;

use crate::resolver;
use crate::resolver::{ResolveError, ResolvedBotBinding};
use crate::runtime;
use crate::runtime::BotRequest;
use crate::state;
use crate::state::{
    BotfatherState, InventorySnapshot, SessionKey, SessionRecord, SessionScopeKind, UserSnapshot,
};
use crate::store::StateStore;
use crate::text;

verus! {

/// Holds the state and the store it is saved to.
#[derive(Debug)]
pub struct BotfatherManager {
    store: StateStore,
    state: BotfatherState,
}

/// The session key of a dispatch: scoped to the thread where a thread root
/// is given, else to the reply chain where a reply root is given, else to
/// the room.
pub open spec fn dispatch_key(
    room_id: Seq<char>,
    thread_root_event_id: Option<Seq<char>>,
    reply_root_event_id: Option<Seq<char>>,
    bot_id: Seq<char>,
) -> state::SessionKeyView {
    if thread_root_event_id is Some {
        state::SessionKeyView {
            room_id,
            scope_kind: SessionScopeKind::Thread,
            thread_root_event_id,
            reply_root_event_id: None,
            bot_id,
        }
    } else if reply_root_event_id is Some {
        state::SessionKeyView {
            room_id,
            scope_kind: SessionScopeKind::ReplyRoot,
            thread_root_event_id: None,
            reply_root_event_id,
            bot_id,
        }
    } else {
        state::SessionKeyView {
            room_id,
            scope_kind: SessionScopeKind::Room,
            thread_root_event_id: None,
            reply_root_event_id: None,
            bot_id,
        }
    }
}

/// The scope part of a session id.
pub open spec fn scope_text(k: state::SessionKeyView) -> Seq<char> {
    match k.scope_kind {
        SessionScopeKind::Room => "room:main"@,
        SessionScopeKind::Thread => "thread:"@ + match k.thread_root_event_id {
            Some(id) => id,
            None => "unknown-thread"@,
        },
        SessionScopeKind::ReplyRoot => "reply:"@ + match k.reply_root_event_id {
            Some(id) => id,
            None => "unknown-reply"@,
        },
    }
}

/// The session id that a new session under `k` gets:
/// `robrix:<room>:<scope>:<bot>`.
pub open spec fn session_id_for(k: state::SessionKeyView) -> Seq<char> {
    "robrix:"@ + k.room_id + ":"@ + scope_text(k) + ":"@ + k.bot_id
}

/// The record that a dispatch leaves under `key`: the stored one where it
/// belongs to the same runtime profile; the stored one with the runtime
/// profile and a fresh session id where it belongs to another; else a new one.
pub open spec fn session_after(
    sessions: Map<state::SessionKeyView, state::SessionRecordView>,
    key: state::SessionKeyView,
    runtime_profile_id: Seq<char>,
) -> state::SessionRecordView {
    if sessions.contains_key(key) {
        let r = sessions[key];
        if r.runtime_profile_id == runtime_profile_id {
            r
        } else {
            state::SessionRecordView { runtime_profile_id, session_id: session_id_for(key), ..r }
        }
    } else {
        state::SessionRecordView { key, runtime_profile_id, session_id: session_id_for(key) }
    }
}

/// The key of a dispatch is settled: its scope agrees with its event ids.
pub proof fn lemma_dispatch_key_is_settled(
    room_id: Seq<char>,
    thread_root_event_id: Option<Seq<char>>,
    reply_root_event_id: Option<Seq<char>>,
    bot_id: Seq<char>,
)
    ensures
        state::key_is_normalized(
            dispatch_key(room_id, thread_root_event_id, reply_root_event_id, bot_id),
        ),
{
}

/// A dispatch keeps every session stored under its own settled key.
pub proof fn lemma_dispatch_keeps_sessions_settled(
    sessions: Map<state::SessionKeyView, state::SessionRecordView>,
    room_id: Seq<char>,
    thread_root_event_id: Option<Seq<char>>,
    reply_root_event_id: Option<Seq<char>>,
    bot_id: Seq<char>,
    runtime_profile_id: Seq<char>,
)
    requires
        state::sessions_settled(sessions),
    ensures
        ({
            let key = dispatch_key(room_id, thread_root_event_id, reply_root_event_id, bot_id);
            state::sessions_settled(
                sessions.insert(key, session_after(sessions, key, runtime_profile_id)),
            )
        }),
{
    let key = dispatch_key(room_id, thread_root_event_id, reply_root_event_id, bot_id);
    let after = sessions.insert(key, session_after(sessions, key, runtime_profile_id));
    assert forall|k: state::SessionKeyView| #[trigger] after.contains_key(k) implies state::key_is_normalized(k)
        && after[k].key == k by {
        if k != key {
            assert(sessions.contains_key(k));
        }
    }
}

/// A second dispatch to the same bot with the same runtime in the same
/// scope finds the session that the first one left, keeps its id, and
/// changes nothing.
pub proof fn lemma_second_dispatch_reuses_session(
    sessions: Map<state::SessionKeyView, state::SessionRecordView>,
    key: state::SessionKeyView,
    runtime_profile_id: Seq<char>,
)
    ensures
        ({
            let first = session_after(sessions, key, runtime_profile_id);
            let after_first = sessions.insert(key, first);
            let second = session_after(after_first, key, runtime_profile_id);
            &&& second == first
            &&& after_first.insert(key, second) == after_first
        }),
{
    let first = session_after(sessions, key, runtime_profile_id);
    let after_first = sessions.insert(key, first);
    assert(after_first.insert(key, first) =~= after_first);
}

/// A dispatch that follows a successful one in the same room and scope, with
/// the same preferred bot, resolves the same bot, finds the session that the
/// first left, gets the same session id, and writes nothing new.
pub proof fn lemma_repeated_dispatch_reuses_session(
    s: BotfatherState,
    after: BotfatherState,
    room_id: Seq<char>,
    thread_root_event_id: Option<Seq<char>>,
    reply_root_event_id: Option<Seq<char>>,
    preferred_bot_id: Option<Seq<char>>,
)
    requires
        resolver::resolve_room_bot_spec(s, room_id, preferred_bot_id) is Ok,
        ({
            let r = resolver::resolve_room_bot_spec(s, room_id, preferred_bot_id)->Ok_0;
            let key = dispatch_key(room_id, thread_root_event_id, reply_root_event_id, r.bot.id);
            &&& after == (BotfatherState { runtime: after.runtime, ..s })
            &&& after.runtime.active_sessions@ == s.runtime.active_sessions@.insert(
                key,
                session_after(s.runtime.active_sessions@, key, r.runtime_profile.id),
            )
        }),
    ensures
        resolver::resolve_room_bot_spec(after, room_id, preferred_bot_id)
            == resolver::resolve_room_bot_spec(s, room_id, preferred_bot_id),
        ({
            let r = resolver::resolve_room_bot_spec(s, room_id, preferred_bot_id)->Ok_0;
            let key = dispatch_key(room_id, thread_root_event_id, reply_root_event_id, r.bot.id);
            let first = session_after(s.runtime.active_sessions@, key, r.runtime_profile.id);
            &&& session_after(after.runtime.active_sessions@, key, r.runtime_profile.id) == first
            &&& after.runtime.active_sessions@.insert(key, first) == after.runtime.active_sessions@
        }),
{
    crate::resolution_laws::lemma_sessions_change_no_resolution(s, after, room_id);
    let r = resolver::resolve_room_bot_spec(s, room_id, preferred_bot_id)->Ok_0;
    let key = dispatch_key(room_id, thread_root_event_id, reply_root_event_id, r.bot.id);
    lemma_second_dispatch_reuses_session(s.runtime.active_sessions@, key, r.runtime_profile.id);
}

proof fn lemma_cancel_affixes(a: Seq<char>, x: Seq<char>, y: Seq<char>, b: Seq<char>)
    requires
        a + x + b == a + y + b,
    ensures
        x == y,
{
    let l = a + x + b;
    let r = a + y + b;
    assert(l.len() == r.len());
    assert(l.len() == a.len() + x.len() + b.len());
    assert(r.len() == a.len() + y.len() + b.len());
    assert(x.len() == y.len());
    assert forall|i: int| 0 <= i < x.len() implies x[i] == y[i] by {
        assert(l[a.len() + i] == x[i]);
        assert(r[a.len() + i] == y[i]);
    }
    assert(x =~= y);
}

/// Within one room and for one bot, dispatches under different scopes get
/// different session ids: the room's own session, each thread's and each
/// reply chain's are told apart.
pub proof fn lemma_distinct_dispatch_keys_get_distinct_session_ids(
    room_id: Seq<char>,
    bot_id: Seq<char>,
    thread1: Option<Seq<char>>,
    reply1: Option<Seq<char>>,
    thread2: Option<Seq<char>>,
    reply2: Option<Seq<char>>,
)
    requires
        dispatch_key(room_id, thread1, reply1, bot_id) != dispatch_key(
            room_id,
            thread2,
            reply2,
            bot_id,
        ),
    ensures
        session_id_for(dispatch_key(room_id, thread1, reply1, bot_id)) != session_id_for(
            dispatch_key(room_id, thread2, reply2, bot_id),
        ),
{
    let k1 = dispatch_key(room_id, thread1, reply1, bot_id);
    let k2 = dispatch_key(room_id, thread2, reply2, bot_id);
    let prefix = "robrix:"@ + room_id + ":"@;
    let suffix = ":"@ + bot_id;
    assert(session_id_for(k1) =~= prefix + scope_text(k1) + suffix);
    assert(session_id_for(k2) =~= prefix + scope_text(k2) + suffix);
    if session_id_for(k1) == session_id_for(k2) {
        lemma_cancel_affixes(prefix, scope_text(k1), scope_text(k2), suffix);
        reveal_strlit("room:main");
        reveal_strlit("thread:");
        reveal_strlit("reply:");
        let t1 = scope_text(k1);
        let t2 = scope_text(k2);
        if k1.scope_kind == k2.scope_kind {
            if k1.scope_kind == SessionScopeKind::Thread {
                let a = k1.thread_root_event_id->0;
                let b = k2.thread_root_event_id->0;
                assert(t1 =~= "thread:"@ + a);
                assert(t2 =~= "thread:"@ + b);
                lemma_cancel_affixes("thread:"@, a, b, Seq::empty());
                assert(k1 == k2);
            } else if k1.scope_kind == SessionScopeKind::ReplyRoot {
                let a = k1.reply_root_event_id->0;
                let b = k2.reply_root_event_id->0;
                assert(t1 =~= "reply:"@ + a);
                assert(t2 =~= "reply:"@ + b);
                lemma_cancel_affixes("reply:"@, a, b, Seq::empty());
                assert(k1 == k2);
            } else {
                assert(k1 == k2);
            }
        } else {
            assert(t1[0] == t2[0]);
            assert(t1[1] == t2[1]);
        }
    }
}

/// Builds the session id of a key.
pub fn make_session_id(key: &SessionKey) -> (s: String)
    ensures
        s@ == session_id_for(key@),
{
    let mut scope = match key.scope_kind {
        SessionScopeKind::Room => String::from_str("room:main"),
        SessionScopeKind::Thread => {
            let mut t = String::from_str("thread:");
            match &key.thread_root_event_id {
                Some(id) => t.append(id.as_str()),
                None => t.append("unknown-thread"),
            }
            t
        },
        SessionScopeKind::ReplyRoot => {
            let mut t = String::from_str("reply:");
            match &key.reply_root_event_id {
                Some(id) => t.append(id.as_str()),
                None => t.append("unknown-reply"),
            }
            t
        },
    };
    let mut s = String::from_str("robrix:");
    s.append(key.room_id.as_str());
    s.append(":");
    s.append(scope.as_str());
    s.append(":");
    s.append(key.bot_id.as_str());
    s
}

/// Finds or opens the session of a dispatch and returns its id. A session
/// that is stored under the dispatch's key for the same runtime profile is
/// reused as it is, and nothing is written.
pub fn ensure_session_id(
    state: &mut BotfatherState,
    room_id: &str,
    thread_root_event_id: Option<&str>,
    reply_root_event_id: Option<&str>,
    resolved: &ResolvedBotBinding,
) -> (session_id: String)
    ensures
        ({
            let key = dispatch_key(
                room_id@,
                resolver::opt_str_view(thread_root_event_id),
                resolver::opt_str_view(reply_root_event_id),
                resolved@.bot.id,
            );
            let record = session_after(
                old(state).runtime.active_sessions@,
                key,
                resolved@.runtime_profile.id,
            );
            &&& final(state).runtime.active_sessions@ == old(
                state,
            ).runtime.active_sessions@.insert(key, record)
            &&& session_id@ == record.session_id
        }),
        *final(state) == (BotfatherState { runtime: final(state).runtime, ..*old(state) }),
        ({
            let key = dispatch_key(
                room_id@,
                resolver::opt_str_view(thread_root_event_id),
                resolver::opt_str_view(reply_root_event_id),
                resolved@.bot.id,
            );
            old(state).runtime.active_sessions@.contains_key(key)
                && old(state).runtime.active_sessions@[key].runtime_profile_id
                == resolved@.runtime_profile.id ==> *final(state) == *old(state)
        }),
{
    let key = match thread_root_event_id {
        Some(thread) => SessionKey {
            room_id: room_id.to_owned(),
            scope_kind: SessionScopeKind::Thread,
            thread_root_event_id: Some(thread.to_owned()),
            reply_root_event_id: None,
            bot_id: resolved.bot.id.clone(),
        },
        None => match reply_root_event_id {
            Some(reply) => SessionKey {
                room_id: room_id.to_owned(),
                scope_kind: SessionScopeKind::ReplyRoot,
                thread_root_event_id: None,
                reply_root_event_id: Some(reply.to_owned()),
                bot_id: resolved.bot.id.clone(),
            },
            None => SessionKey {
                room_id: room_id.to_owned(),
                scope_kind: SessionScopeKind::Room,
                thread_root_event_id: None,
                reply_root_event_id: None,
                bot_id: resolved.bot.id.clone(),
            },
        },
    };
    let ghost old_sessions = state.runtime.active_sessions@;
    let record = match state.runtime.active_sessions.get(&key) {
        Some(existing) => {
            if existing.runtime_profile_id == resolved.runtime_profile.id {
                proof {
                    assert(old_sessions.insert(key@, old_sessions[key@]) =~= old_sessions);
                }
                return existing.session_id.clone();
            }
            SessionRecord {
                key: existing.key.clone(),
                runtime_profile_id: resolved.runtime_profile.id.clone(),
                session_id: make_session_id(&key),
            }
        },
        None => SessionRecord {
            key: key.clone(),
            runtime_profile_id: resolved.runtime_profile.id.clone(),
            session_id: make_session_id(&key),
        },
    };
    let session_id = record.session_id.clone();
    state.runtime.active_sessions.insert(key, record);
    session_id
}

/// Why a dispatch was not prepared: the room did not resolve to a bot, or
/// the bot's runtime could not be set up.
#[derive(Debug)]
pub enum DispatchError<E> {
    Resolve(ResolveError),
    Runtime(E),
}

impl BotfatherManager {
    /// The state that the manager holds.
    pub closed spec fn current_state(&self) -> BotfatherState {
        self.state
    }

    /// The store that the manager saves to.
    pub closed spec fn current_store(&self) -> StateStore {
        self.store
    }

    /// A manager over a store and a state.
    pub fn from_parts(store: StateStore, state: BotfatherState) -> (m: Self)
        ensures
            m.current_store() == store,
            m.current_state() == state,
    {
        BotfatherManager { store, state }
    }

    /// The state.
    pub fn state(&self) -> (s: &BotfatherState)
        ensures
            *s == self.current_state(),
    {
        &self.state
    }

    /// The state, for changes.
    pub fn state_mut(&mut self) -> (s: &mut BotfatherState)
        ensures
            *s == old(self).current_state(),
            final(self).current_state() == *final(s),
            final(self).current_store() == old(self).current_store(),
    {
        &mut self.state
    }

    /// The store.
    pub fn store(&self) -> (s: &StateStore)
        ensures
            *s == self.current_store(),
    {
        &self.store
    }

    /// Replaces the snapshot of the user and of the rooms and spaces.
    pub fn refresh_inventory(&mut self, user: UserSnapshot, inventory: InventorySnapshot)
        ensures
            final(self).current_state() == (BotfatherState {
                user,
                inventory,
                ..old(self).current_state()
            }),
            final(self).current_store() == old(self).current_store(),
    {
        self.state.refresh_inventory(user, inventory);
    }

    /// Resolves the bots that serve a room, ranked for dispatch.
    pub fn resolve_room_bots(&self, room_id: &str) -> (r: Result<Vec<ResolvedBotBinding>, ResolveError>)
        ensures
            match r {
                Ok(v) => resolver::resolve_room_bots_spec(self.current_state(), room_id@) == Ok::<
                    Seq<resolver::ResolvedView>,
                    resolver::ResolveErrorView,
                >(resolver::views_of(v@)),
                Err(e) => resolver::resolve_room_bots_spec(self.current_state(), room_id@) == Err::<
                    Seq<resolver::ResolvedView>,
                    resolver::ResolveErrorView,
                >(e@),
            },
    {
        resolver::resolve_room_bots(&self.state, room_id)
    }

    /// Resolves the bot that serves a room, the preferred one where named.
    pub fn resolve_room_bot(&self, room_id: &str, preferred_bot_id: Option<&str>) -> (r: Result<
        ResolvedBotBinding,
        ResolveError,
    >)
        ensures
            resolver::result_view(r) == resolver::resolve_room_bot_spec(
                self.current_state(),
                room_id@,
                resolver::opt_str_view(preferred_bot_id),
            ),
    {
        resolver::resolve_room_bot(&self.state, room_id, preferred_bot_id)
    }

    /// Opens or reuses the session of a dispatch to a resolved bot and builds
    /// the request for it: the step of a dispatch that follows resolution and
    /// the setup of the bot's runtime.
    pub fn prepare_request(
        &mut self,
        room_id: &str,
        thread_root_event_id: Option<&str>,
        reply_root_event_id: Option<&str>,
        message: String,
        resolved: &ResolvedBotBinding,
    ) -> (request: BotRequest)
        ensures
            ({
                let old_state = old(self).current_state();
                let key = dispatch_key(
                    room_id@,
                    resolver::opt_str_view(thread_root_event_id),
                    resolver::opt_str_view(reply_root_event_id),
                    resolved@.bot.id,
                );
                let record = session_after(
                    old_state.runtime.active_sessions@,
                    key,
                    resolved@.runtime_profile.id,
                );
                &&& final(self).current_state().runtime.active_sessions@
                    == old_state.runtime.active_sessions@.insert(key, record)
                &&& request@ == runtime::BotRequestView {
                    room_id: room_id@,
                    thread_root_event_id: resolver::opt_str_view(thread_root_event_id),
                    reply_root_event_id: resolver::opt_str_view(reply_root_event_id),
                    bot_id: resolved@.bot.id,
                    session_id: record.session_id,
                    message: message@,
                    delivery_target: resolved@.delivery,
                    runtime_override: resolved@.runtime_override,
                }
            }),
            final(self).current_state() == (BotfatherState {
                runtime: final(self).current_state().runtime,
                ..old(self).current_state()
            }),
            final(self).current_store() == old(self).current_store(),
    {
        let session_id = ensure_session_id(
            &mut self.state,
            room_id,
            thread_root_event_id,
            reply_root_event_id,
            resolved,
        );
        BotRequest {
            room_id: room_id.to_owned(),
            thread_root_event_id: text::opt_to_owned(thread_root_event_id),
            reply_root_event_id: text::opt_to_owned(reply_root_event_id),
            bot_id: resolved.bot.id.clone(),
            session_id,
            message,
            delivery_target: resolved.delivery,
            runtime_override: resolved.runtime_override.clone(),
        }
    }

    /// Prepares a dispatch: resolves the bot that serves the room (the
    /// preferred one where named), sets up its runtime with `runtime_for`,
    /// and only then opens or reuses the session and builds the request.
    /// Where resolution or the runtime's setup fails, nothing is recorded.
    pub fn prepare_dispatch<R, E, F: FnOnce(&ResolvedBotBinding) -> Result<R, E>>(
        &mut self,
        room_id: &str,
        thread_root_event_id: Option<&str>,
        reply_root_event_id: Option<&str>,
        message: String,
        preferred_bot_id: Option<&str>,
        runtime_for: F,
    ) -> (r: Result<(ResolvedBotBinding, R, BotRequest), DispatchError<E>>)
        requires
            forall|b: &ResolvedBotBinding| call_requires(runtime_for, (b,)),
        ensures
            final(self).current_store() == old(self).current_store(),
            resolver::resolve_room_bot_spec(
                old(self).current_state(),
                room_id@,
                resolver::opt_str_view(preferred_bot_id),
            ) is Ok && (forall|b: &ResolvedBotBinding, out: Result<R, E>|
                #[trigger] call_ensures(runtime_for, (b,), out) ==> out is Err) ==> r matches Err(
                DispatchError::Runtime(_),
            ),
            resolver::resolve_room_bot_spec(
                old(self).current_state(),
                room_id@,
                resolver::opt_str_view(preferred_bot_id),
            ) is Ok && (forall|b: &ResolvedBotBinding, out: Result<R, E>|
                #[trigger] call_ensures(runtime_for, (b,), out) ==> out is Ok) ==> r is Ok,
            match r {
                Ok((resolved, runtime, request)) => {
                    let old_state = old(self).current_state();
                    let key = dispatch_key(
                        room_id@,
                        resolver::opt_str_view(thread_root_event_id),
                        resolver::opt_str_view(reply_root_event_id),
                        resolved@.bot.id,
                    );
                    let record = session_after(
                        old_state.runtime.active_sessions@,
                        key,
                        resolved@.runtime_profile.id,
                    );
                    &&& resolver::resolve_room_bot_spec(
                        old_state,
                        room_id@,
                        resolver::opt_str_view(preferred_bot_id),
                    ) == Ok::<resolver::ResolvedView, resolver::ResolveErrorView>(resolved@)
                    &&& crate::resolution_laws::entry_follows_state(old_state, resolved@)
                    &&& call_ensures(runtime_for, (&resolved,), Ok::<R, E>(runtime))
                    &&& final(self).current_state().runtime.active_sessions@
                        == old_state.runtime.active_sessions@.insert(key, record)
                    &&& final(self).current_state() == (BotfatherState {
                        runtime: final(self).current_state().runtime,
                        ..old_state
                    })
                    &&& request@ == runtime::BotRequestView {
                        room_id: room_id@,
                        thread_root_event_id: resolver::opt_str_view(thread_root_event_id),
                        reply_root_event_id: resolver::opt_str_view(reply_root_event_id),
                        bot_id: resolved@.bot.id,
                        session_id: record.session_id,
                        message: message@,
                        delivery_target: resolved@.delivery,
                        runtime_override: resolved@.runtime_override,
                    }
                },
                Err(DispatchError::Resolve(e)) => {
                    &&& resolver::resolve_room_bot_spec(
                        old(self).current_state(),
                        room_id@,
                        resolver::opt_str_view(preferred_bot_id),
                    ) == Err::<resolver::ResolvedView, resolver::ResolveErrorView>(e@)
                    &&& final(self).current_state() == old(self).current_state()
                },
                Err(DispatchError::Runtime(e)) => {
                    &&& final(self).current_state() == old(self).current_state()
                    &&& (exists|b: ResolvedBotBinding|
                        {
                            &&& resolver::resolve_room_bot_spec(
                                old(self).current_state(),
                                room_id@,
                                resolver::opt_str_view(preferred_bot_id),
                            ) == Ok::<resolver::ResolvedView, resolver::ResolveErrorView>(b@)
                            &&& #[trigger] call_ensures(runtime_for, (&b,), Err::<R, E>(e))
                        })
                },
            },
    {
        proof {
            crate::resolution_laws::lemma_resolved_bots_follow_state(self.state, room_id@);
        }
        let resolved = match resolver::resolve_room_bot(&self.state, room_id, preferred_bot_id) {
            Ok(resolved) => resolved,
            Err(e) => {
                return Err(DispatchError::Resolve(e));
            },
        };
        let setup = runtime_for(&resolved);
        let runtime = match setup {
            Ok(runtime) => runtime,
            Err(e) => {
                let failed = Err(DispatchError::Runtime(e));
                proof {
                    assert(call_ensures(
                        runtime_for,
                        (&resolved,),
                        Err::<R, E>(failed->Err_0->Runtime_0),
                    ));
                }
                return failed;
            },
        };
        let request = self.prepare_request(
            room_id,
            thread_root_event_id,
            reply_root_event_id,
            message,
            &resolved,
        );
        Ok((resolved, runtime, request))
    }
}

} // verus!
