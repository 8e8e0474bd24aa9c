//! The mathematical model of the storage table.
//!
//! A store maps item keys to item values. The table maps each origin key
//! that has a store to that store. An origin without a store reads as an
//! empty store; only a write of an item gives an origin a store.
//!
//! The six operations are functions on tables. [`step_table`] and
//! [`step_action`] say what the service does with one request,
//! [`run_table`] and [`run_actions`] what it does with a queue of them.

use vstd::prelude::*;
use vstd::set_lib::*;
use crate::order::{
    key_lt, lemma_key_lt_asymmetric, lemma_key_lt_connected, lemma_key_lt_irreflexive,
    lemma_key_lt_transitive,
};

verus! {

/// The items of one origin.
pub type Store = Map<Seq<char>, Seq<char>>;

/// The stores by origin key.
pub type Table = Map<Seq<char>, Store>;

/// Every store of the table holds finitely many items.
pub open spec fn valid(t: Table) -> bool {
    forall|o: Seq<char>| t.contains_key(o) ==> (#[trigger] t[o]).dom().finite()
}

/// The store that an origin reads: its own, or an empty one where it has
/// none.
pub open spec fn store_of(t: Table, origin: Seq<char>) -> Store {
    if t.contains_key(origin) {
        t[origin]
    } else {
        Map::empty()
    }
}

/// The keys of the store that sort before `name`.
pub open spec fn keys_before(s: Store, name: Seq<char>) -> Set<Seq<char>> {
    s.dom().filter(|k: Seq<char>| key_lt(k, name))
}

/// `name` is a key of the store, and exactly `index` keys of the store sort
/// before it.
pub open spec fn is_key_at(s: Store, index: nat, name: Seq<char>) -> bool {
    s.contains_key(name) && keys_before(s, name).len() == index
}

/// The key at position `index` of the store's keys in ascending order,
/// counted from zero.
pub open spec fn store_key(s: Store, index: nat) -> Option<Seq<char>> {
    if exists|k: Seq<char>| is_key_at(s, index, k) {
        Some(choose|k: Seq<char>| is_key_at(s, index, k))
    } else {
        None
    }
}

/// What the store holds under `name`.
pub open spec fn store_item(s: Store, name: Seq<char>) -> Option<Seq<char>> {
    if s.contains_key(name) {
        Some(s[name])
    } else {
        None
    }
}

/// The number of items of an origin.
pub open spec fn length(t: Table, origin: Seq<char>) -> nat {
    store_of(t, origin).dom().len()
}

/// The key at position `index` of an origin's keys in ascending order.
pub open spec fn key(t: Table, origin: Seq<char>, index: nat) -> Option<Seq<char>> {
    store_key(store_of(t, origin), index)
}

/// The value of an origin's item.
pub open spec fn get_item(t: Table, origin: Seq<char>, name: Seq<char>) -> Option<Seq<char>> {
    store_item(store_of(t, origin), name)
}

/// The table after an item is written: the origin has a store from now on,
/// and the store holds `value` under `name`.
pub open spec fn set_item(t: Table, origin: Seq<char>, name: Seq<char>, value: Seq<char>) -> Table {
    t.insert(origin, store_of(t, origin).insert(name, value))
}

/// The table after an item is removed. An origin without a store gets none.
pub open spec fn remove_item(t: Table, origin: Seq<char>, name: Seq<char>) -> Table {
    if t.contains_key(origin) {
        t.insert(origin, t[origin].remove(name))
    } else {
        t
    }
}

/// The table after an origin's items are removed. The origin keeps its
/// store; an origin without a store gets none.
pub open spec fn clear(t: Table, origin: Seq<char>) -> Table {
    if t.contains_key(origin) {
        t.insert(origin, Map::empty())
    } else {
        t
    }
}

/// The number of items as a reply carries it: its low 32 bits.
pub open spec fn reported_length(n: nat) -> u32 {
    (n % 0x1_0000_0000) as u32
}

/// A request to the service, as the model sees it.
pub enum Request {
    /// Asks for the number of items of an origin.
    Length(Seq<char>),
    /// Asks for the key at a position of an origin's sorted keys.
    Key(Seq<char>, u32),
    /// Asks for the value of an origin's item.
    GetItem(Seq<char>, Seq<char>),
    /// Writes an item of an origin.
    SetItem(Seq<char>, Seq<char>, Seq<char>),
    /// Removes an item of an origin.
    RemoveItem(Seq<char>, Seq<char>),
    /// Removes all items of an origin.
    Clear(Seq<char>),
    /// Ends the service.
    Exit,
}

/// What the service does after a request, as the model sees it.
pub enum Action {
    /// It replies with a number of items.
    ReplyLength(u32),
    /// It replies with a key, or with none.
    ReplyKey(Option<Seq<char>>),
    /// It replies with a value, or with none.
    ReplyItem(Option<Seq<char>>),
    /// It sends no reply and goes on.
    Continue,
    /// It sends no reply and serves no further request.
    Exit,
}

impl Request {
    /// The origin that a request names.
    pub open spec fn origin(self) -> Option<Seq<char>> {
        match self {
            Request::Length(o) => Some(o),
            Request::Key(o, _) => Some(o),
            Request::GetItem(o, _) => Some(o),
            Request::SetItem(o, _, _) => Some(o),
            Request::RemoveItem(o, _) => Some(o),
            Request::Clear(o) => Some(o),
            Request::Exit => None,
        }
    }
}

/// The table after one request.
pub open spec fn step_table(t: Table, request: Request) -> Table {
    match request {
        Request::SetItem(o, k, v) => set_item(t, o, k, v),
        Request::RemoveItem(o, k) => remove_item(t, o, k),
        Request::Clear(o) => clear(t, o),
        _ => t,
    }
}

/// What the service does after one request: a read is answered from the
/// table as it stands, a write is not answered.
pub open spec fn step_action(t: Table, request: Request) -> Action {
    match request {
        Request::Length(o) => Action::ReplyLength(reported_length(length(t, o))),
        Request::Key(o, i) => Action::ReplyKey(key(t, o, i as nat)),
        Request::GetItem(o, k) => Action::ReplyItem(get_item(t, o, k)),
        Request::SetItem(_, _, _) => Action::Continue,
        Request::RemoveItem(_, _) => Action::Continue,
        Request::Clear(_) => Action::Continue,
        Request::Exit => Action::Exit,
    }
}

/// The table after a queue of requests, served in the order of arrival up
/// to the first `Exit`.
pub open spec fn run_table(t: Table, requests: Seq<Request>) -> Table
    decreases requests.len(),
{
    if requests.len() == 0 || requests[0] is Exit {
        t
    } else {
        run_table(step_table(t, requests[0]), requests.drop_first())
    }
}

/// What the service does after each request of a queue that it serves, in
/// the order of arrival.
pub open spec fn run_actions(t: Table, requests: Seq<Request>) -> Seq<Action>
    decreases requests.len(),
{
    if requests.len() == 0 {
        seq![]
    } else if requests[0] is Exit {
        seq![Action::Exit]
    } else {
        seq![step_action(t, requests[0])] + run_actions(
            step_table(t, requests[0]),
            requests.drop_first(),
        )
    }
}

/// The keys before a key of a finite store are finitely many, fewer than
/// the store holds.
pub proof fn lemma_keys_before_bound(s: Store, name: Seq<char>)
    requires
        s.dom().finite(),
    ensures
        keys_before(s, name).finite(),
        keys_before(s, name).len() <= s.dom().len(),
        s.contains_key(name) ==> keys_before(s, name).len() < s.dom().len(),
{
    s.dom().lemma_len_filter(|k: Seq<char>| key_lt(k, name));
    if s.contains_key(name) {
        lemma_key_lt_irreflexive(name);
        lemma_len_subset(keys_before(s, name), s.dom().remove(name));
    }
}

/// Of two keys of a finite store, the one that sorts first has fewer keys
/// before it.
pub proof fn lemma_keys_before_grows(s: Store, a: Seq<char>, b: Seq<char>)
    requires
        s.dom().finite(),
        s.contains_key(a),
        key_lt(a, b),
    ensures
        keys_before(s, a).len() < keys_before(s, b).len(),
{
    lemma_keys_before_bound(s, b);
    let before_b = keys_before(s, b);
    assert forall|k: Seq<char>| keys_before(s, a).contains(k) implies before_b.remove(a).contains(
        k,
    ) by {
        lemma_key_lt_transitive(k, a, b);
        lemma_key_lt_asymmetric(k, a);
    }
    lemma_len_subset(keys_before(s, a), before_b.remove(a));
}

/// A position of a finite store holds at most one key, and lies below the
/// number of its keys.
pub proof fn lemma_key_at_unique(s: Store, index: nat, a: Seq<char>, b: Seq<char>)
    requires
        s.dom().finite(),
        is_key_at(s, index, a),
        is_key_at(s, index, b),
    ensures
        a == b,
        index < s.dom().len(),
        store_key(s, index) == Some(a),
{
    lemma_key_lt_connected(a, b);
    if key_lt(a, b) {
        lemma_keys_before_grows(s, a, b);
    }
    if key_lt(b, a) {
        lemma_keys_before_grows(s, b, a);
    }
    lemma_keys_before_bound(s, a);
    let c = choose|k: Seq<char>| is_key_at(s, index, k);
    lemma_key_lt_connected(a, c);
    if key_lt(a, c) {
        lemma_keys_before_grows(s, a, c);
    }
    if key_lt(c, a) {
        lemma_keys_before_grows(s, c, a);
    }
}

} // verus!
