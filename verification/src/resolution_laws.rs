//! What resolution promises as a whole: it reads only the enabled bindings,
//! and it lists each bot once.
use vstd::prelude::*;

use crate::resolver;
use crate::resolver::{BindingSourceView, ResolvedView};
use crate::state;
use crate::state::BotfatherState;
use crate::state::{RuntimeKind, SenderProfileKind};
use crate::text;

verus! {

/// Two states that differ at most in their room and space bindings and in
/// their open sessions.
pub open spec fn same_but_bindings_and_sessions(s: BotfatherState, t: BotfatherState) -> bool {
    t == (BotfatherState {
        room_bindings: t.room_bindings,
        space_bindings: t.space_bindings,
        runtime: t.runtime,
        ..s
    })
}

proof fn lemma_defaults_ignore_bindings(
    s: BotfatherState,
    t: BotfatherState,
    room_id: Seq<char>,
    ids: Seq<String>,
)
    requires
        same_but_bindings_and_sessions(s, t),
    ensures
        resolver::resolve_defaults(s, room_id, ids) == resolver::resolve_defaults(t, room_id, ids),
    decreases ids.len(),
{
    if ids.len() > 0 {
        lemma_defaults_ignore_bindings(s, t, room_id, ids.drop_last());
        assert(resolver::resolve_bound_spec(s, room_id, None, BindingSourceView::Default, ids.last()@)
            == resolver::resolve_bound_spec(t, room_id, None, BindingSourceView::Default, ids.last()@));
    }
}

proof fn lemma_apply_ignores_bindings(
    s: BotfatherState,
    t: BotfatherState,
    room_id: Seq<char>,
    acc: Seq<ResolvedView>,
    items: Seq<(state::BotBindingView, BindingSourceView)>,
)
    requires
        same_but_bindings_and_sessions(s, t),
    ensures
        resolver::apply_bindings(s, room_id, acc, items) == resolver::apply_bindings(t, room_id, acc, items),
    decreases items.len(),
{
    if items.len() > 0 {
        lemma_apply_ignores_bindings(s, t, room_id, acc, items.drop_last());
        let (binding, source) = items.last();
        assert(resolver::resolve_bound_spec(s, room_id, Some(binding), source, binding.bot_id)
            == resolver::resolve_bound_spec(t, room_id, Some(binding), source, binding.bot_id));
    }
}

proof fn lemma_space_items_agree(s: BotfatherState, t: BotfatherState, space_ids: Seq<String>)
    requires
        forall|id: Seq<char>| #[trigger] resolver::space_block(s, id) == resolver::space_block(t, id),
    ensures
        resolver::space_items(s, space_ids) == resolver::space_items(t, space_ids),
    decreases space_ids.len(),
{
    if space_ids.len() > 0 {
        lemma_space_items_agree(s, t, space_ids.drop_last());
        assert(resolver::space_block(s, space_ids.last()@) == resolver::space_block(t, space_ids.last()@));
    }
}

/// Resolution sees only the enabled bindings, and not the open sessions:
/// two states that differ only in their bindings and sessions, and agree on
/// the enabled bindings of every room and every space, resolve every room
/// alike. So adding, removing or changing a disabled binding changes no
/// resolution, and neither does a dispatch.
pub proof fn lemma_only_enabled_bindings_matter(
    s: BotfatherState,
    t: BotfatherState,
    room_id: Seq<char>,
)
    requires
        same_but_bindings_and_sessions(s, t),
        forall|id: Seq<char>| #[trigger] resolver::room_block(s, id) == resolver::room_block(t, id),
        forall|id: Seq<char>| #[trigger] resolver::space_block(s, id) == resolver::space_block(t, id),
    ensures
        resolver::resolve_room_bots_spec(s, room_id) == resolver::resolve_room_bots_spec(t, room_id),
        forall|preferred: Option<Seq<char>>|
            #[trigger] resolver::resolve_room_bot_spec(s, room_id, preferred) == resolver::resolve_room_bot_spec(
                t,
                room_id,
                preferred,
            ),
{
    reveal(resolver::resolve_room_bots_spec);
    lemma_defaults_ignore_bindings(s, t, room_id, s.defaults.bot_ids@);
    if s.inventory.rooms@.contains_key(room_id) {
        lemma_space_items_agree(s, t, s.inventory.rooms@[room_id].space_ids@);
        assert(resolver::room_block(s, room_id) == resolver::room_block(t, room_id));
        assert(resolver::bound_items(s, room_id) == resolver::bound_items(t, room_id));
        if resolver::resolve_defaults(s, room_id, s.defaults.bot_ids@) is Ok {
            lemma_apply_ignores_bindings(
                s,
                t,
                room_id,
                resolver::resolve_defaults(s, room_id, s.defaults.bot_ids@)->Ok_0,
                resolver::bound_items(s, room_id),
            );
        }
    }
}

/// No two entries of a list are for the same bot.
pub open spec fn one_entry_per_bot(rs: Seq<ResolvedView>) -> bool {
    forall|i: int, j: int|
        #![trigger rs[i], rs[j]]
        0 <= i < j < rs.len() ==> rs[i].bot.id != rs[j].bot.id
}

proof fn lemma_active_only_keeps_one_entry(rs: Seq<ResolvedView>)
    requires
        one_entry_per_bot(rs),
    ensures
        one_entry_per_bot(resolver::active_only(rs)),
    decreases rs.len(),
{
    if rs.len() > 0 {
        let t = rs.drop_last();
        assert(one_entry_per_bot(t)) by {
            assert forall|i: int, j: int| 0 <= i < j < t.len() implies #[trigger] t[i].bot.id
                != #[trigger] t[j].bot.id by {
                assert(t[i] == rs[i] && t[j] == rs[j]);
            }
        }
        lemma_active_only_keeps_one_entry(t);
        resolver::lemma_active_only_subset(t);
        let a = resolver::active_only(rs);
        let at = resolver::active_only(t);
        if resolver::is_active(rs.last()) {
            assert forall|i: int, j: int| 0 <= i < j < a.len() implies #[trigger] a[i].bot.id
                != #[trigger] a[j].bot.id by {
                assert(a[i] == at[i]);
                if j < at.len() {
                    assert(a[j] == at[j]);
                } else {
                    assert(t.contains(at[i]));
                    let k = choose|k: int| 0 <= k < t.len() && t[k] == at[i];
                    assert(rs[k] == t[k]);
                    assert(rs[k].bot.id != rs[rs.len() - 1].bot.id);
                }
            }
        }
    }
}

proof fn lemma_insert_position_in_range(sorted: Seq<ResolvedView>, x: ResolvedView)
    ensures
        0 <= resolver::insert_position(sorted, x) <= sorted.len(),
    decreases sorted.len(),
{
    if sorted.len() > 0 {
        lemma_insert_position_in_range(sorted.drop_last(), x);
    }
}

proof fn lemma_rank_sort_keeps_one_entry(rs: Seq<ResolvedView>)
    requires
        one_entry_per_bot(rs),
    ensures
        one_entry_per_bot(resolver::rank_sort(rs)),
    decreases rs.len(),
{
    if rs.len() > 0 {
        let t = rs.drop_last();
        let x = rs.last();
        assert(one_entry_per_bot(t)) by {
            assert forall|i: int, j: int| 0 <= i < j < t.len() implies #[trigger] t[i].bot.id
                != #[trigger] t[j].bot.id by {
                assert(t[i] == rs[i] && t[j] == rs[j]);
            }
        }
        lemma_rank_sort_keeps_one_entry(t);
        resolver::lemma_rank_sort_sorts(t);
        let u = resolver::rank_sort(t);
        let p = resolver::insert_position(u, x);
        lemma_insert_position_in_range(u, x);
        let v = u.insert(p, x);
        assert(v == resolver::rank_sort(rs));
        assert forall|i: int| 0 <= i < u.len() implies #[trigger] u[i].bot.id != x.bot.id by {
            vstd::seq_lib::to_multiset_contains(u, u[i]);
            assert(u.contains(u[i]));
            vstd::seq_lib::to_multiset_contains(t, u[i]);
            let k = choose|k: int| 0 <= k < t.len() && t[k] == u[i];
            assert(rs[k] == t[k]);
            assert(rs[k].bot.id != rs[rs.len() - 1].bot.id);
        }
        assert forall|i: int, j: int| 0 <= i < j < v.len() implies #[trigger] v[i].bot.id
            != #[trigger] v[j].bot.id by {
            if j < p {
                assert(v[i] == u[i] && v[j] == u[j]);
            } else if j == p {
                assert(v[i] == u[i]);
            } else if i == p {
                assert(v[j] == u[j - 1]);
            } else if i < p {
                assert(v[i] == u[i] && v[j] == u[j - 1]);
            } else {
                assert(v[i] == u[i - 1] && v[j] == u[j - 1]);
            }
        }
    }
}

/// Resolution lists each bot at most once, where the defaults name each bot
/// once and every bot is stored under its own id: a binding of a bot that is
/// already listed takes the place of its entry.
pub proof fn lemma_each_bot_listed_once(s: BotfatherState, room_id: Seq<char>)
    requires
        resolver::resolve_room_bots_spec(s, room_id) is Ok,
        resolver::bots_keyed_by_id(s),
        forall|i: int, j: int|
            0 <= i < j < s.defaults.bot_ids@.len() ==> #[trigger] s.defaults.bot_ids@[i]@
                != #[trigger] s.defaults.bot_ids@[j]@,
    ensures
        one_entry_per_bot(resolver::resolve_room_bots_spec(s, room_id)->Ok_0),
{
    reveal(resolver::resolve_room_bots_spec);
    let ids = s.defaults.bot_ids@;
    let defaults = resolver::resolve_defaults(s, room_id, ids)->Ok_0;
    resolver::lemma_defaults_are_the_named_bots(s, room_id, ids);
    let items = resolver::bound_items(s, room_id);
    let all = resolver::apply_bindings(s, room_id, defaults, items)->Ok_0;
    assert forall|i: int, j: int| 0 <= i < j < all.len() implies #[trigger] all[i].bot.id
        != #[trigger] all[j].bot.id by {
        let id = all[i].bot.id;
        assert(resolver::at_most_one_entry(defaults, id)) by {
            assert forall|a: int, b: int|
                0 <= a < defaults.len() && 0 <= b < defaults.len() && #[trigger] defaults[a].bot.id
                    == id && #[trigger] defaults[b].bot.id == id implies a == b by {
                assert(ids[a]@ == id && ids[b]@ == id);
                if a < b {
                    assert(ids[a]@ != ids[b]@);
                } else if b < a {
                    assert(ids[b]@ != ids[a]@);
                }
            }
        }
        resolver::lemma_apply_keeps_one_entry(s, room_id, defaults, items, id);
    }
    lemma_active_only_keeps_one_entry(all);
    lemma_rank_sort_keeps_one_entry(resolver::active_only(all));
}

/// Opening or reusing sessions changes no resolution.
pub proof fn lemma_sessions_change_no_resolution(
    s: BotfatherState,
    t: BotfatherState,
    room_id: Seq<char>,
)
    requires
        t == (BotfatherState { runtime: t.runtime, ..s }),
    ensures
        resolver::resolve_room_bots_spec(s, room_id) == resolver::resolve_room_bots_spec(t, room_id),
        forall|preferred: Option<Seq<char>>|
            #[trigger] resolver::resolve_room_bot_spec(s, room_id, preferred)
                == resolver::resolve_room_bot_spec(t, room_id, preferred),
{
    lemma_only_enabled_bindings_matter(s, t, room_id);
}

/// What a resolved bot carries of the state it was resolved from:
/// - its bot is a stored bot definition, and its runtime profile the stored
///   profile that the bot names;
/// - it runs with the bot's own runtime override;
/// - its dispatch policy is the bot's override where the bot has one, else
///   its runtime profile's;
/// - it sends as the profile named by its binding where the binding names
///   one, else by the bot where the bot names one (with or without a
///   binding), else by the state's default; and where none is named, as the
///   profile stored under `current-user`, else the logged-in user's own.
pub open spec fn entry_follows_state(s: BotfatherState, r: ResolvedView) -> bool {
    let binding_sender = match r.binding {
        Some(b) => b.sender_profile_id,
        None => None,
    };
    let state_default = text::opt_view(s.defaults.default_sender_profile_id);
    &&& exists|k: Seq<char>| #[trigger] s.bots@.contains_key(k) && r.bot == s.bots@[k]@
    &&& s.runtime_profiles@.contains_key(r.bot.runtime_profile_id)
    &&& r.runtime_profile == s.runtime_profiles@[r.bot.runtime_profile_id]@
    &&& r.runtime_override == r.bot.runtime_override
    &&& (r.bot.dispatch_policy_override matches Some(p) ==> r.dispatch_policy == p)
    &&& (r.bot.dispatch_policy_override is None ==> r.dispatch_policy
        == r.runtime_profile.dispatch_policy)
    &&& (binding_sender matches Some(id) ==> s.sender_profiles@.contains_key(id)
        && r.sender_profile == s.sender_profiles@[id]@)
    &&& (binding_sender is None ==> (r.bot.default_sender_profile_id matches Some(id)
        ==> s.sender_profiles@.contains_key(id) && r.sender_profile == s.sender_profiles@[id]@))
    &&& (binding_sender is None && r.bot.default_sender_profile_id is None ==> (
    state_default matches Some(id) ==> s.sender_profiles@.contains_key(id) && r.sender_profile
        == s.sender_profiles@[id]@))
    &&& (binding_sender is None && r.bot.default_sender_profile_id is None && state_default is None
        ==> (if s.sender_profiles@.contains_key(state::CURRENT_USER_SENDER_ID@) {
        r.sender_profile == s.sender_profiles@[state::CURRENT_USER_SENDER_ID@]@
    } else {
        &&& r.sender_profile.id == state::CURRENT_USER_SENDER_ID@
        &&& r.sender_profile.kind == SenderProfileKind::CurrentUser
        &&& r.sender_profile.enabled
        &&& r.sender_profile.matrix_user_id == text::opt_view(s.user.matrix_user_id)
        &&& r.sender_profile.homeserver_url == text::opt_view(s.user.homeserver_url)
    }))
}

proof fn lemma_bound_entry_follows_state(
    s: BotfatherState,
    room_id: Seq<char>,
    binding: Option<state::BotBindingView>,
    source: BindingSourceView,
    bot_id: Seq<char>,
)
    requires
        resolver::resolve_bound_spec(s, room_id, binding, source, bot_id) is Ok,
    ensures
        entry_follows_state(s, resolver::resolve_bound_spec(s, room_id, binding, source, bot_id)->Ok_0),
{
    let r = resolver::resolve_bound_spec(s, room_id, binding, source, bot_id)->Ok_0;
    assert(s.bots@.contains_key(bot_id) && r.bot == s.bots@[bot_id]@);
}

/// Every entry of a list follows the state.
pub open spec fn all_follow_state(s: BotfatherState, rs: Seq<ResolvedView>) -> bool {
    forall|i: int| 0 <= i < rs.len() ==> entry_follows_state(s, #[trigger] rs[i])
}

proof fn lemma_defaults_follow_state(s: BotfatherState, room_id: Seq<char>, ids: Seq<String>)
    requires
        resolver::resolve_defaults(s, room_id, ids) is Ok,
    ensures
        all_follow_state(s, resolver::resolve_defaults(s, room_id, ids)->Ok_0),
    decreases ids.len(),
{
    if ids.len() > 0 {
        lemma_defaults_follow_state(s, room_id, ids.drop_last());
        lemma_bound_entry_follows_state(s, room_id, None, BindingSourceView::Default, ids.last()@);
        let acc = resolver::resolve_defaults(s, room_id, ids.drop_last())->Ok_0;
        let d = resolver::resolve_defaults(s, room_id, ids)->Ok_0;
        assert forall|i: int| 0 <= i < d.len() implies entry_follows_state(s, #[trigger] d[i]) by {
            if i < acc.len() {
                assert(d[i] == acc[i]);
            }
        }
    }
}

proof fn lemma_upsert_follows_state(s: BotfatherState, rs: Seq<ResolvedView>, r: ResolvedView)
    requires
        all_follow_state(s, rs),
        entry_follows_state(s, r),
    ensures
        all_follow_state(s, resolver::upsert_spec(rs, r)),
{
    let u = resolver::upsert_spec(rs, r);
    if resolver::has_bot(rs, r.bot.id) {
        resolver::lemma_first_bot_position(rs, r.bot.id);
        let p = resolver::first_bot_position(rs, r.bot.id);
        assert forall|i: int| 0 <= i < u.len() implies entry_follows_state(s, #[trigger] u[i]) by {
            if i != p {
                assert(u[i] == rs[i]);
            }
        }
    } else {
        assert forall|i: int| 0 <= i < u.len() implies entry_follows_state(s, #[trigger] u[i]) by {
            if i < rs.len() {
                assert(u[i] == rs[i]);
            }
        }
    }
}

proof fn lemma_apply_follows_state(
    s: BotfatherState,
    room_id: Seq<char>,
    acc: Seq<ResolvedView>,
    items: Seq<(state::BotBindingView, BindingSourceView)>,
)
    requires
        all_follow_state(s, acc),
        resolver::apply_bindings(s, room_id, acc, items) is Ok,
    ensures
        all_follow_state(s, resolver::apply_bindings(s, room_id, acc, items)->Ok_0),
    decreases items.len(),
{
    if items.len() > 0 {
        lemma_apply_follows_state(s, room_id, acc, items.drop_last());
        let inner = resolver::apply_bindings(s, room_id, acc, items.drop_last())->Ok_0;
        let (binding, source) = items.last();
        lemma_bound_entry_follows_state(s, room_id, Some(binding), source, binding.bot_id);
        let r = resolver::resolve_bound_spec(s, room_id, Some(binding), source, binding.bot_id)->Ok_0;
        lemma_upsert_follows_state(s, inner, r);
    }
}

/// Every bot that a room resolves to follows the state it was resolved from
/// (see `entry_follows_state`): it is a stored bot on the runtime profile that
/// the bot names, with the bot's runtime override, the bot's dispatch policy
/// override or else the profile's policy, and the sender profile that the
/// binding, else the bot, else the state's default names.
pub proof fn lemma_resolved_bots_follow_state(s: BotfatherState, room_id: Seq<char>)
    ensures
        resolver::resolve_room_bots_spec(s, room_id) is Ok ==> all_follow_state(
            s,
            resolver::resolve_room_bots_spec(s, room_id)->Ok_0,
        ),
        forall|preferred: Option<Seq<char>>|
            #[trigger] resolver::resolve_room_bot_spec(s, room_id, preferred) is Ok
                ==> entry_follows_state(
                s,
                resolver::resolve_room_bot_spec(s, room_id, preferred)->Ok_0,
            ),
{
    reveal(resolver::resolve_room_bots_spec);
    if resolver::resolve_room_bots_spec(s, room_id) is Ok {
        let ids = s.defaults.bot_ids@;
        lemma_defaults_follow_state(s, room_id, ids);
        let defaults = resolver::resolve_defaults(s, room_id, ids)->Ok_0;
        let items = resolver::bound_items(s, room_id);
        lemma_apply_follows_state(s, room_id, defaults, items);
        let all = resolver::apply_bindings(s, room_id, defaults, items)->Ok_0;
        let active = resolver::active_only(all);
        resolver::lemma_active_only_subset(all);
        let list = resolver::rank_sort(active);
        resolver::lemma_rank_sort_sorts(active);
        assert forall|i: int| 0 <= i < list.len() implies entry_follows_state(s, #[trigger] list[i]) by {
            vstd::seq_lib::to_multiset_contains(list, list[i]);
            assert(list.contains(list[i]));
            vstd::seq_lib::to_multiset_contains(active, list[i]);
            let k = choose|k: int| 0 <= k < active.len() && active[k] == list[i];
            assert(all.contains(active[k]));
            let m = choose|m: int| 0 <= m < all.len() && all[m] == active[k];
        }
        assert forall|preferred: Option<Seq<char>>|
            #[trigger] resolver::resolve_room_bot_spec(s, room_id, preferred) is Ok
                implies entry_follows_state(
                s,
                resolver::resolve_room_bot_spec(s, room_id, preferred)->Ok_0,
            ) by {
            match preferred {
                Some(id) => {
                    resolver::lemma_first_bot_position(list, id);
                },
                None => {},
            }
        }
    }
}

/// The order in which a room's bots are dispatched to, stated over the
/// bindings' kinds: room bindings come before space bindings, which come
/// before defaults. Among defaults, Crew runtimes come before OpenClaw
/// runtimes, then the higher priority (the binding's priority, 0 without a
/// binding, plus the bot's) comes first, then the smaller bot id. Among
/// bindings of the same kind, the higher priority comes first.
pub proof fn lemma_dispatch_order(s: BotfatherState, room_id: Seq<char>)
    requires
        resolver::resolve_room_bots_spec(s, room_id) is Ok,
    ensures
        ({
            let list = resolver::resolve_room_bots_spec(s, room_id)->Ok_0;
            forall|i: int, j: int|
                #![trigger list[i], list[j]]
                0 <= i < j < list.len() ==> {
                    let a = list[i];
                    let b = list[j];
                    let pa = (match a.binding {
                        Some(x) => x.priority as int,
                        None => 0int,
                    }) + a.bot.priority as int;
                    let pb = (match b.binding {
                        Some(x) => x.priority as int,
                        None => 0int,
                    }) + b.bot.priority as int;
                    let ka = a.runtime_profile.config.kind();
                    let kb = b.runtime_profile.config.kind();
                    &&& (b.source is Room ==> a.source is Room)
                    &&& (b.source is Space ==> !(a.source is Default))
                    &&& (a.source is Default && b.source is Default ==> !(ka == RuntimeKind::OpenClaw
                        && kb == RuntimeKind::Crew))
                    &&& (a.source is Default && b.source is Default && ka == kb ==> pa >= pb)
                    &&& (a.source is Default && b.source is Default && ka == kb && pa == pb
                        ==> !text::str_lt(b.bot.id, a.bot.id))
                    &&& (a.source is Room && b.source is Room ==> pa >= pb)
                    &&& (a.source is Space && b.source is Space ==> pa >= pb)
                }
        }),
{
    resolver::lemma_resolution_is_ranked(s, room_id);
    reveal(resolver::resolve_room_bots_spec);
}

} // verus!
