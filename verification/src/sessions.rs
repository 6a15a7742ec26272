//! The order of session keys and the ordered map of open sessions.
use vstd::prelude::*;

use crate::state;
use crate::state::{SessionKey, SessionRecord, SessionScopeKind};
use crate::text;
use crate::text::{compare_str, Comparison};

verus! {

/// The position of a scope in the order Room, Thread, ReplyRoot.
pub open spec fn scope_rank(s: SessionScopeKind) -> int {
    match s {
        SessionScopeKind::Room => 0,
        SessionScopeKind::Thread => 1,
        SessionScopeKind::ReplyRoot => 2,
    }
}

/// Strict order of optional strings: absent first, then by `str_lt`.
pub open spec fn opt_str_lt(a: Option<Seq<char>>, b: Option<Seq<char>>) -> bool {
    match (a, b) {
        (None, Some(_)) => true,
        (Some(x), Some(y)) => text::str_lt(x, y),
        _ => false,
    }
}

/// Strict order of session keys: by room, scope, thread root, reply root and
/// bot, in that order of precedence.
pub open spec fn key_lt(a: state::SessionKeyView, b: state::SessionKeyView) -> bool {
    if a.room_id != b.room_id {
        text::str_lt(a.room_id, b.room_id)
    } else if a.scope_kind != b.scope_kind {
        scope_rank(a.scope_kind) < scope_rank(b.scope_kind)
    } else if a.thread_root_event_id != b.thread_root_event_id {
        opt_str_lt(a.thread_root_event_id, b.thread_root_event_id)
    } else if a.reply_root_event_id != b.reply_root_event_id {
        opt_str_lt(a.reply_root_event_id, b.reply_root_event_id)
    } else {
        text::str_lt(a.bot_id, b.bot_id)
    }
}

/// Three-way comparison of session keys in the order of `key_lt`.
pub open spec fn key_compare(a: state::SessionKeyView, b: state::SessionKeyView) -> Comparison {
    if key_lt(a, b) {
        Comparison::Less
    } else if a == b {
        Comparison::Equal
    } else {
        Comparison::Greater
    }
}

proof fn lemma_opt_str_lt_order(a: Option<Seq<char>>, b: Option<Seq<char>>, c: Option<Seq<char>>)
    ensures
        !opt_str_lt(a, a),
        !(opt_str_lt(a, b) && opt_str_lt(b, a)),
        a == b || opt_str_lt(a, b) || opt_str_lt(b, a),
        opt_str_lt(a, b) && opt_str_lt(b, c) ==> opt_str_lt(a, c),
{
    if a is Some && b is Some && c is Some {
        text::lemma_str_lt_strict_total_order(a->0, b->0, c->0);
    } else if a is Some && b is Some {
        text::lemma_str_lt_strict_total_order(a->0, b->0, b->0);
    } else if a is Some {
        text::lemma_str_lt_strict_total_order(a->0, a->0, a->0);
    }
}

/// `key_lt` is a strict total order.
pub proof fn lemma_key_lt_strict_total_order(a: state::SessionKeyView, b: state::SessionKeyView, c: state::SessionKeyView)
    ensures
        !key_lt(a, a),
        !(key_lt(a, b) && key_lt(b, a)),
        a == b || key_lt(a, b) || key_lt(b, a),
        key_lt(a, b) && key_lt(b, c) ==> key_lt(a, c),
{
    text::lemma_str_lt_strict_total_order(a.room_id, b.room_id, c.room_id);
    text::lemma_str_lt_strict_total_order(a.bot_id, b.bot_id, c.bot_id);
    lemma_opt_str_lt_order(a.thread_root_event_id, b.thread_root_event_id, c.thread_root_event_id);
    lemma_opt_str_lt_order(a.reply_root_event_id, b.reply_root_event_id, c.reply_root_event_id);
}

fn scope_index(s: SessionScopeKind) -> (r: u8)
    ensures
        r == scope_rank(s),
{
    match s {
        SessionScopeKind::Room => 0,
        SessionScopeKind::Thread => 1,
        SessionScopeKind::ReplyRoot => 2,
    }
}

fn compare_opt_str(a: &Option<String>, b: &Option<String>) -> (c: Comparison)
    ensures
        c == (if opt_str_lt(text::opt_view(*a), text::opt_view(*b)) {
            Comparison::Less
        } else if text::opt_view(*a) == text::opt_view(*b) {
            Comparison::Equal
        } else {
            Comparison::Greater
        }),
{
    match (a, b) {
        (None, None) => Comparison::Equal,
        (None, Some(_)) => Comparison::Less,
        (Some(_), None) => Comparison::Greater,
        (Some(x), Some(y)) => compare_str(x.as_str(), y.as_str()),
    }
}

/// Compares two session keys in the order of `key_lt`, the order that
/// `derive(Ord)` gives `SessionKey`.
pub fn compare_session_keys(a: &SessionKey, b: &SessionKey) -> (c: Comparison)
    ensures
        c == key_compare(a@, b@),
{
    proof {
        lemma_key_lt_strict_total_order(a@, b@, b@);
        text::lemma_str_lt_strict_total_order(a@.room_id, b@.room_id, b@.room_id);
        text::lemma_str_lt_strict_total_order(a@.bot_id, b@.bot_id, b@.bot_id);
        lemma_opt_str_lt_order(a@.thread_root_event_id, b@.thread_root_event_id, b@.thread_root_event_id);
        lemma_opt_str_lt_order(a@.reply_root_event_id, b@.reply_root_event_id, b@.reply_root_event_id);
    }
    match compare_str(a.room_id.as_str(), b.room_id.as_str()) {
        Comparison::Equal => {},
        c => {
            return c;
        },
    }
    let ra = scope_index(a.scope_kind);
    let rb = scope_index(b.scope_kind);
    if ra < rb {
        return Comparison::Less;
    } else if ra > rb {
        return Comparison::Greater;
    }
    match compare_opt_str(&a.thread_root_event_id, &b.thread_root_event_id) {
        Comparison::Equal => {},
        c => {
            return c;
        },
    }
    match compare_opt_str(&a.reply_root_event_id, &b.reply_root_event_id) {
        Comparison::Equal => {},
        c => {
            return c;
        },
    }
    compare_str(a.bot_id.as_str(), b.bot_id.as_str())
}

/// Whether some pair of a list has the key `k`.
pub open spec fn pairs_have_key<K, V>(s: Seq<(K, V)>, k: K) -> bool {
    exists|i: int| 0 <= i < s.len() && #[trigger] s[i].0 == k
}

/// The position of a pair with key `k`, where there is one.
pub open spec fn pairs_key_position<K, V>(s: Seq<(K, V)>, k: K) -> int {
    choose|i: int| 0 <= i < s.len() && #[trigger] s[i].0 == k
}

/// The map that a list of pairs with unique keys stands for.
pub open spec fn pairs_map<K, V>(s: Seq<(K, V)>) -> Map<K, V> {
    Map::new(|k: K| pairs_have_key(s, k), |k: K| s[pairs_key_position(s, k)].1)
}

/// The keys of a list of pairs increase strictly in the order of `key_lt`.
pub open spec fn keys_increasing(s: Seq<(state::SessionKeyView, state::SessionRecordView)>) -> bool {
    forall|i: int, j: int|
        #![trigger s[i], s[j]]
        0 <= i < j < s.len() ==> key_lt(s[i].0, s[j].0)
}

/// The views of stored entries.
pub open spec fn entry_views(e: Seq<(SessionKey, SessionRecord)>) -> Seq<
    (state::SessionKeyView, state::SessionRecordView),
> {
    e.map_values(|p: (SessionKey, SessionRecord)| (p.0@, p.1@))
}

/// In a list with increasing keys, a pair's key finds that pair.
pub proof fn lemma_increasing_lookup(s: Seq<(state::SessionKeyView, state::SessionRecordView)>, i: int)
    requires
        keys_increasing(s),
        0 <= i < s.len(),
    ensures
        pairs_map(s).contains_key(s[i].0),
        pairs_map(s)[s[i].0] == s[i].1,
        pairs_key_position(s, s[i].0) == i,
{
    let k = s[i].0;
    assert(pairs_have_key(s, k));
    let j = pairs_key_position(s, k);
    if j != i {
        lemma_key_lt_strict_total_order(k, k, k);
        if j < i {
            assert(key_lt(s[j].0, s[i].0));
        } else {
            assert(key_lt(s[i].0, s[j].0));
        }
    }
}

/// With increasing keys, the last pair adds its key to the map of the rest.
pub proof fn lemma_pairs_map_push(s: Seq<(state::SessionKeyView, state::SessionRecordView)>)
    requires
        keys_increasing(s),
        s.len() > 0,
    ensures
        keys_increasing(s.drop_last()),
        pairs_map(s) == pairs_map(s.drop_last()).insert(s.last().0, s.last().1),
        forall|i: int| 0 <= i < s.len() - 1 ==> key_lt(#[trigger] s.drop_last()[i].0, s.last().0),
{
    let t = s.drop_last();
    let n = t.len() as int;
    assert(keys_increasing(t)) by {
        assert forall|i: int, j: int| 0 <= i < j < t.len() implies key_lt(#[trigger] t[i].0, #[trigger] t[j].0) by {
            assert(t[i] == s[i] && t[j] == s[j]);
        }
    }
    assert forall|i: int| 0 <= i < s.len() - 1 implies key_lt(#[trigger] s.drop_last()[i].0, s.last().0) by {
        assert(s.drop_last()[i] == s[i]);
    }
    lemma_insert_at(t, n, s.last().0, s.last().1);
    assert(t.insert(n, (s.last().0, s.last().1)) =~= s);
}

proof fn lemma_insert_at(s: Seq<(state::SessionKeyView, state::SessionRecordView)>, p: int, k: state::SessionKeyView, v: state::SessionRecordView)
    requires
        keys_increasing(s),
        0 <= p <= s.len(),
        forall|i: int| 0 <= i < p ==> key_lt(#[trigger] s[i].0, k),
        forall|i: int| p <= i < s.len() ==> key_lt(k, #[trigger] s[i].0),
    ensures
        keys_increasing(s.insert(p, (k, v))),
        pairs_map(s.insert(p, (k, v))) == pairs_map(s).insert(k, v),
{
    let t = s.insert(p, (k, v));
    assert forall|i: int, j: int| 0 <= i < j < t.len() implies key_lt(#[trigger] t[i].0, #[trigger] t[j].0) by {
        if j < p {
            assert(t[i] == s[i] && t[j] == s[j]);
        } else if j == p {
            assert(t[i] == s[i]);
        } else if i == p {
            assert(t[j] == s[j - 1]);
        } else if i < p {
            assert(t[i] == s[i] && t[j] == s[j - 1]);
            lemma_key_lt_strict_total_order(s[i].0, k, s[j - 1].0);
        } else {
            assert(t[i] == s[i - 1] && t[j] == s[j - 1]);
        }
    }
    assert forall|q: state::SessionKeyView| #[trigger] pairs_have_key(t, q) == (pairs_have_key(s, q) || q == k) by {
        if pairs_have_key(s, q) {
            let j = pairs_key_position(s, q);
            if j < p {
                assert(t[j] == s[j]);
            } else {
                assert(t[j + 1] == s[j]);
            }
        }
        if pairs_have_key(t, q) {
            let j = pairs_key_position(t, q);
            if j < p {
                assert(t[j] == s[j]);
            } else if j > p {
                assert(t[j] == s[j - 1]);
            }
        }
        if q == k {
            assert(t[p].0 == q);
        }
    }
    assert forall|q: state::SessionKeyView| pairs_have_key(t, q) implies #[trigger] pairs_map(t)[q]
        == pairs_map(s).insert(k, v)[q] by {
        let j = pairs_key_position(t, q);
        lemma_increasing_lookup(t, j);
        if j == p {
        } else if j < p {
            assert(t[j] == s[j]);
            lemma_increasing_lookup(s, j);
            lemma_key_lt_strict_total_order(q, k, k);
        } else {
            assert(t[j] == s[j - 1]);
            lemma_increasing_lookup(s, j - 1);
            lemma_key_lt_strict_total_order(q, k, k);
        }
    }
    assert(pairs_map(t) =~= pairs_map(s).insert(k, v));
}

proof fn lemma_replace_at(s: Seq<(state::SessionKeyView, state::SessionRecordView)>, p: int, v: state::SessionRecordView)
    requires
        keys_increasing(s),
        0 <= p < s.len(),
    ensures
        keys_increasing(s.update(p, (s[p].0, v))),
        pairs_map(s.update(p, (s[p].0, v))) == pairs_map(s).insert(s[p].0, v),
{
    let k = s[p].0;
    let t = s.update(p, (k, v));
    assert forall|i: int, j: int| 0 <= i < j < t.len() implies key_lt(#[trigger] t[i].0, #[trigger] t[j].0) by {
        assert(t[i].0 == s[i].0 && t[j].0 == s[j].0);
    }
    assert forall|q: state::SessionKeyView| #[trigger] pairs_have_key(t, q) == pairs_have_key(s, q) by {
        if pairs_have_key(s, q) {
            let j = pairs_key_position(s, q);
            assert(t[j].0 == s[j].0);
        }
        if pairs_have_key(t, q) {
            let j = pairs_key_position(t, q);
            assert(t[j].0 == s[j].0);
        }
    }
    lemma_increasing_lookup(s, p);
    assert forall|q: state::SessionKeyView| pairs_have_key(t, q) implies #[trigger] pairs_map(t)[q]
        == pairs_map(s).insert(k, v)[q] by {
        let j = pairs_key_position(t, q);
        lemma_increasing_lookup(t, j);
        if j != p {
            assert(t[j] == s[j]);
            lemma_increasing_lookup(s, j);
            lemma_key_lt_strict_total_order(q, k, k);
        }
    }
    assert(pairs_map(t) =~= pairs_map(s).insert(k, v));
}

/// The open sessions, ordered by key as a `BTreeMap` orders them.
#[derive(Debug)]
pub struct SessionMap {
    entries: Vec<(SessionKey, SessionRecord)>,
}

impl View for SessionMap {
    type V = Map<state::SessionKeyView, state::SessionRecordView>;

    closed spec fn view(&self) -> Map<state::SessionKeyView, state::SessionRecordView> {
        pairs_map(entry_views(self.entries@))
    }
}

impl SessionMap {
    /// The entries in increasing order of their keys.
    pub closed spec fn ordered_entries(self) -> Seq<(state::SessionKeyView, state::SessionRecordView)> {
        entry_views(self.entries@)
    }

    /// Every session map: its keys increase strictly and its view is the map
    /// of its ordered entries.
    #[verifier::type_invariant]
    pub closed spec fn well_formed(self) -> bool {
        keys_increasing(entry_views(self.entries@))
    }

    /// What `well_formed` gives a caller.
    pub proof fn lemma_well_formed(self)
        requires
            self.well_formed(),
        ensures
            keys_increasing(self.ordered_entries()),
            self@ == pairs_map(self.ordered_entries()),
    {
    }

    /// An empty map.
    pub fn new() -> (m: Self)
        ensures
            m@ == Map::<state::SessionKeyView, state::SessionRecordView>::empty(),
            m.ordered_entries().len() == 0,
    {
        let m = SessionMap { entries: Vec::new() };
        assert(m@ =~= Map::<state::SessionKeyView, state::SessionRecordView>::empty());
        assert(entry_views(m.entries@) =~= Seq::<(state::SessionKeyView, state::SessionRecordView)>::empty());
        m
    }

    /// The first position whose key is not below `key`, and whether the key
    /// there is `key`.
    fn locate(&self, key: &SessionKey) -> (r: (usize, bool))
        requires
            self.well_formed(),
        ensures
            r.0 <= self.entries@.len(),
            forall|i: int| 0 <= i < r.0 ==> key_lt(#[trigger] entry_views(self.entries@)[i].0, key@),
            r.1 ==> r.0 < self.entries@.len() && entry_views(self.entries@)[r.0 as int].0 == key@,
            !r.1 ==> forall|i: int|
                r.0 <= i < self.entries@.len() ==> key_lt(key@, #[trigger] entry_views(self.entries@)[i].0),
    {
        let ghost s = entry_views(self.entries@);
        let mut i: usize = 0;
        while i < self.entries.len()
            invariant
                0 <= i <= self.entries@.len(),
                s == entry_views(self.entries@),
                keys_increasing(s),
                forall|j: int| 0 <= j < i ==> key_lt(#[trigger] s[j].0, key@),
            decreases self.entries@.len() - i,
        {
            match compare_session_keys(&self.entries[i].0, key) {
                Comparison::Less => {
                    assert(s[i as int].0 == self.entries@[i as int].0@);
                },
                Comparison::Equal => {
                    assert(s[i as int].0 == self.entries@[i as int].0@);
                    return (i, true);
                },
                Comparison::Greater => {
                    proof {
                        assert(s[i as int].0 == self.entries@[i as int].0@);
                        text::lemma_str_lt_strict_total_order(key@.room_id, key@.room_id, key@.room_id);
                        lemma_key_lt_strict_total_order(s[i as int].0, key@, key@);
                        assert forall|j: int| i <= j < self.entries@.len() implies key_lt(key@, #[trigger] s[j].0) by {
                            if j > i {
                                lemma_key_lt_strict_total_order(key@, s[i as int].0, s[j].0);
                            }
                        }
                    }
                    return (i, false);
                },
            }
            i = i + 1;
        }
        (i, false)
    }

    /// The record stored under `key`, if any.
    pub fn get(&self, key: &SessionKey) -> (r: Option<&SessionRecord>)
        ensures
            match r {
                Some(v) => self@.contains_key(key@) && v@ == self@[key@],
                None => !self@.contains_key(key@),
            },
    {
        proof {
            use_type_invariant(self);
        }
        let ghost s = entry_views(self.entries@);
        let (i, found) = self.locate(key);
        if found {
            proof {
                lemma_increasing_lookup(s, i as int);
            }
            Some(&self.entries[i].1)
        } else {
            proof {
                if pairs_have_key(s, key@) {
                    let j = pairs_key_position(s, key@);
                    lemma_key_lt_strict_total_order(key@, key@, key@);
                    if j < i {
                        assert(key_lt(s[j].0, key@));
                    } else {
                        assert(key_lt(key@, s[j].0));
                    }
                }
            }
            None
        }
    }

    /// Whether a record is stored under `key`.
    pub fn contains_key(&self, key: &SessionKey) -> (r: bool)
        ensures
            r == self@.contains_key(key@),
    {
        match self.get(key) {
            Some(_) => true,
            None => false,
        }
    }

    /// The number of stored records.
    pub fn len(&self) -> (n: usize)
        ensures
            n == self.ordered_entries().len(),
    {
        self.entries.len()
    }

    /// Whether no record is stored.
    pub fn is_empty(&self) -> (r: bool)
        ensures
            r == (self@ =~= Map::<state::SessionKeyView, state::SessionRecordView>::empty()),
    {
        if self.entries.len() == 0 {
            assert(self@ =~= Map::<state::SessionKeyView, state::SessionRecordView>::empty());
            true
        } else {
            assert(pairs_have_key(entry_views(self.entries@), entry_views(self.entries@)[0].0));
            assert(self@.dom().contains(entry_views(self.entries@)[0].0));
            false
        }
    }

    /// The entries in increasing order of their keys.
    pub fn entries(&self) -> (r: &[(SessionKey, SessionRecord)])
        ensures
            entry_views(r@) == self.ordered_entries(),
    {
        self.entries.as_slice()
    }

    /// Stores `record` under `key`, replacing what was stored there.
    pub fn insert(&mut self, key: SessionKey, record: SessionRecord)
        ensures
            final(self)@ == old(self)@.insert(key@, record@),
    {
        proof {
            use_type_invariant(&*self);
        }
        let ghost s = entry_views(self.entries@);
        let ghost kv = key@;
        let ghost rv = record@;
        let (i, found) = self.locate(&key);
        let mut entries: Vec<(SessionKey, SessionRecord)> = Vec::new();
        std::mem::swap(&mut entries, &mut self.entries);
        if found {
            entries.set(i, (key, record));
            proof {
                lemma_replace_at(s, i as int, rv);
                assert(entry_views(entries@) =~= s.update(i as int, (s[i as int].0, rv)));
            }
        } else {
            entries.insert(i, (key, record));
            proof {
                lemma_insert_at(s, i as int, kv, rv);
                assert(entry_views(entries@) =~= s.insert(i as int, (kv, rv)));
            }
        }
        self.entries = entries;
    }
}

impl Clone for SessionMap {
    /// A copy holding the same records.
    fn clone(&self) -> (r: Self)
        ensures
            r@ == self@,
            r.ordered_entries() == self.ordered_entries(),
    {
        proof {
            use_type_invariant(self);
        }
        let mut entries: Vec<(SessionKey, SessionRecord)> = Vec::new();
        let mut i: usize = 0;
        while i < self.entries.len()
            invariant
                0 <= i <= self.entries@.len(),
                entries@.len() == i,
                forall|j: int|
                    0 <= j < i ==> #[trigger] entries@[j].0@ == self.entries@[j].0@ && entries@[j].1@
                        == self.entries@[j].1@,
            decreases self.entries@.len() - i,
        {
            let k = self.entries[i].0.clone();
            let v = self.entries[i].1.clone();
            entries.push((k, v));
            i = i + 1;
        }
        assert(entry_views(entries@) =~= entry_views(self.entries@));
        SessionMap { entries }
    }
}

impl Default for SessionMap {
    fn default() -> (m: Self)
        ensures
            m@ == Map::<state::SessionKeyView, state::SessionRecordView>::empty(),
    {
        SessionMap::new()
    }
}

} // verus!
