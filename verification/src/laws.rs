//! The laws of the storage table.
//!
//! Each law is proved of the model, and so holds of the service, whose
//! functions change and read the table as the model's functions say.

use vstd::prelude::*;
use crate::model::{
    clear, get_item, is_key_at, key, keys_before, lemma_key_at_unique, lemma_keys_before_bound,
    lemma_keys_before_grows, length, remove_item, run_table, set_item, step_action, step_table,
    store_of, valid, Action, Request, Store, Table,
};
use crate::order::{
    key_lt, lemma_key_lt_asymmetric, lemma_key_lt_connected, lemma_key_lt_irreflexive,
    lemma_key_lt_transitive,
};
use crate::storage::{remove_item_request, set_item_request};

verus! {

/// The request writes the item `name` of `origin`.
pub open spec fn writes_item(request: Request, origin: Seq<char>, name: Seq<char>) -> bool {
    request matches Request::SetItem(o, k, _) && o == origin && k == name
}

/// The request writes an item of `origin`.
pub open spec fn writes_origin(request: Request, origin: Seq<char>) -> bool {
    request matches Request::SetItem(o, _, _) && o == origin
}

/// A request keeps the table valid.
pub proof fn law_step_keeps_valid(t: Table, request: Request)
    requires
        valid(t),
    ensures
        valid(step_table(t, request)),
{
    let after = step_table(t, request);
    assert forall|o: Seq<char>| after.contains_key(o) implies (#[trigger] after[o]).dom().finite() by {
        if t.contains_key(o) {
            assert(t[o].dom().finite());
        }
    }
}

/// A queue of requests keeps the table valid.
pub proof fn law_run_keeps_valid(t: Table, requests: Seq<Request>)
    requires
        valid(t),
    ensures
        valid(run_table(t, requests)),
    decreases requests.len(),
{
    if requests.len() > 0 && !(requests[0] is Exit) {
        law_step_keeps_valid(t, requests[0]);
        law_run_keeps_valid(step_table(t, requests[0]), requests.drop_first());
    }
}

/// A read changes nothing, and only a write of an item gives an origin a
/// store: after any other request the same origins have stores.
pub proof fn law_store_comes_with_first_write(t: Table, request: Request)
    ensures
        !(request is SetItem || request is RemoveItem || request is Clear) ==> step_table(
            t,
            request,
        ) == t,
        request matches Request::SetItem(o, _, _) ==> step_table(t, request).dom()
            == t.dom().insert(o),
        !(request is SetItem) ==> step_table(t, request).dom() == t.dom(),
{
}

/// In the table without stores, with which the service starts, every item
/// reads as none, every origin has no items, and no position holds a key.
pub proof fn law_new_table_reads_nothing(origin: Seq<char>, name: Seq<char>, index: nat)
    ensures
        get_item(Table::empty(), origin, name) is None,
        length(Table::empty(), origin) == 0,
        key(Table::empty(), origin, index) is None,
{
}

/// An item that is not there and is never written stays away: it reads as
/// none after any queue of requests of which none writes it.
pub proof fn law_unwritten_item_reads_none(
    t: Table,
    requests: Seq<Request>,
    origin: Seq<char>,
    name: Seq<char>,
)
    requires
        get_item(t, origin, name) is None,
        forall|i: int| 0 <= i < requests.len() ==> !writes_item(#[trigger] requests[i], origin, name),
    ensures
        get_item(run_table(t, requests), origin, name) is None,
    decreases requests.len(),
{
    if requests.len() > 0 && !(requests[0] is Exit) {
        let rest = requests.drop_first();
        assert forall|i: int| 0 <= i < rest.len() implies !writes_item(
            #[trigger] rest[i],
            origin,
            name,
        ) by {}
        law_unwritten_item_reads_none(step_table(t, requests[0]), rest, origin, name);
    }
}

/// An origin without a store, of which no item is ever written, stays
/// without a store and has no items after any queue of requests of which
/// none writes an item of it.
pub proof fn law_unwritten_origin_is_empty(t: Table, requests: Seq<Request>, origin: Seq<char>)
    requires
        !t.contains_key(origin),
        forall|i: int| 0 <= i < requests.len() ==> !writes_origin(#[trigger] requests[i], origin),
    ensures
        !run_table(t, requests).contains_key(origin),
        length(run_table(t, requests), origin) == 0,
    decreases requests.len(),
{
    if requests.len() > 0 && !(requests[0] is Exit) {
        let rest = requests.drop_first();
        assert forall|i: int| 0 <= i < rest.len() implies !writes_origin(#[trigger] rest[i], origin) by {}
        law_unwritten_origin_is_empty(step_table(t, requests[0]), rest, origin);
    }
}

/// A request that names another origin changes nothing of what an origin
/// holds: not its items, not their number, not the order of its keys.
pub proof fn law_origins_are_isolated(t: Table, request: Request, origin: Seq<char>)
    requires
        request.origin() != Some(origin),
    ensures
        store_of(step_table(t, request), origin) == store_of(t, origin),
        length(step_table(t, request), origin) == length(t, origin),
        forall|name: Seq<char>| #[trigger]
            get_item(step_table(t, request), origin, name) == get_item(t, origin, name),
        forall|index: nat| #[trigger]
            key(step_table(t, request), origin, index) == key(t, origin, index),
{
}

/// Requests that name other origins, however many, change nothing of what
/// an origin holds.
pub proof fn law_other_origins_change_nothing(
    t: Table,
    requests: Seq<Request>,
    origin: Seq<char>,
)
    requires
        forall|i: int| 0 <= i < requests.len() ==> (#[trigger] requests[i]).origin() != Some(origin),
    ensures
        store_of(run_table(t, requests), origin) == store_of(t, origin),
    decreases requests.len(),
{
    if requests.len() > 0 && !(requests[0] is Exit) {
        let rest = requests.drop_first();
        law_origins_are_isolated(t, requests[0], origin);
        assert forall|i: int| 0 <= i < rest.len() implies (#[trigger] rest[i]).origin() != Some(
            origin,
        ) by {}
        law_other_origins_change_nothing(step_table(t, requests[0]), rest, origin);
    }
}

/// After an item is written it reads as the value written, and goes on to
/// do so whatever is then asked of other origins.
pub proof fn law_written_item_is_read(
    t: Table,
    origin: Seq<char>,
    name: Seq<char>,
    value: Seq<char>,
    others: Seq<Request>,
)
    requires
        forall|i: int| 0 <= i < others.len() ==> (#[trigger] others[i]).origin() != Some(origin),
    ensures
        get_item(set_item(t, origin, name, value), origin, name) == Some(value),
        get_item(run_table(set_item(t, origin, name, value), others), origin, name) == Some(value),
{
    law_other_origins_change_nothing(set_item(t, origin, name, value), others, origin);
}

/// Writing an item twice with the same value is writing it once: the table
/// is the same, and so is the number of items.
pub proof fn law_set_item_is_idempotent(
    t: Table,
    origin: Seq<char>,
    name: Seq<char>,
    value: Seq<char>,
)
    ensures
        set_item(set_item(t, origin, name, value), origin, name, value) == set_item(
            t,
            origin,
            name,
            value,
        ),
        length(set_item(set_item(t, origin, name, value), origin, name, value), origin) == length(
            set_item(t, origin, name, value),
            origin,
        ),
{
    let once = set_item(t, origin, name, value);
    assert(store_of(once, origin).insert(name, value) =~= store_of(once, origin));
}

/// The table after a request that there may be or may not be.
pub open spec fn step_if_any(t: Table, request: Option<Request>) -> Table {
    match request {
        Some(request) => step_table(t, request),
        None => t,
    }
}

/// What the client leaves out would change nothing: after the request that
/// the client gives for a write of an item, or without one where it gives
/// none, the table is as if the item had been written; and likewise for a
/// removal. This holds where the client decides on what the table holds for
/// the key when the request is served.
pub proof fn law_client_writes_as_asked(
    t: Table,
    origin: Seq<char>,
    name: Seq<char>,
    value: Seq<char>,
)
    ensures
        step_if_any(t, set_item_request(origin, get_item(t, origin, name), name, value))
            == set_item(t, origin, name, value),
        step_if_any(t, remove_item_request(origin, get_item(t, origin, name), name))
            == remove_item(t, origin, name),
{
    if get_item(t, origin, name) == Some(value) {
        assert(t[origin].insert(name, value) =~= t[origin]);
    }
    if get_item(t, origin, name) is None {
        if t.contains_key(origin) {
            assert(t[origin].remove(name) =~= t[origin]);
        }
    }
}

/// Writing an item adds one to the number of items where the key is new,
/// and leaves the number where the key has a value.
pub proof fn law_set_item_length(t: Table, origin: Seq<char>, name: Seq<char>, value: Seq<char>)
    requires
        valid(t),
    ensures
        get_item(t, origin, name) is Some ==> length(set_item(t, origin, name, value), origin)
            == length(t, origin),
        get_item(t, origin, name) is None ==> length(set_item(t, origin, name, value), origin)
            == length(t, origin) + 1,
{
    if t.contains_key(origin) {
        assert(t[origin].dom().finite());
    }
}

/// A finite store with a key has a last key: one that every other key
/// sorts before.
proof fn lemma_last_key(s: Store) -> (last: Seq<char>)
    requires
        s.dom().finite(),
        s.dom().len() > 0,
    ensures
        s.contains_key(last),
        forall|k: Seq<char>| s.contains_key(k) ==> k == last || key_lt(k, last),
    decreases s.dom().len(),
{
    let e = s.dom().choose();
    let rest = s.remove(e);
    if rest.dom().len() == 0 {
        assert forall|k: Seq<char>| s.contains_key(k) implies k == e || key_lt(k, e) by {
            if k != e {
                assert(rest.dom().contains(k));
            }
        }
        e
    } else {
        let m = lemma_last_key(rest);
        lemma_key_lt_connected(e, m);
        if key_lt(m, e) {
            assert forall|k: Seq<char>| s.contains_key(k) implies k == e || key_lt(k, e) by {
                if k != e && k != m {
                    lemma_key_lt_transitive(k, m, e);
                }
            }
            e
        } else {
            assert forall|k: Seq<char>| s.contains_key(k) implies k == m || key_lt(k, m) by {
                if k != e {
                    assert(rest.contains_key(k));
                }
            }
            m
        }
    }
}

/// Every position below the number of keys of a finite store holds a key.
proof fn lemma_key_at_exists(s: Store, index: nat)
    requires
        s.dom().finite(),
        index < s.dom().len(),
    ensures
        exists|k: Seq<char>| is_key_at(s, index, k),
    decreases s.dom().len(),
{
    let last = lemma_last_key(s);
    let rest = s.remove(last);
    if index == s.dom().len() - 1 {
        lemma_key_lt_irreflexive(last);
        assert(keys_before(s, last) =~= s.dom().remove(last));
        assert(is_key_at(s, index, last));
    } else {
        lemma_key_at_exists(rest, index);
        let k = choose|k: Seq<char>| is_key_at(rest, index, k);
        lemma_key_lt_asymmetric(k, last);
        assert(keys_before(s, k) =~= keys_before(rest, k));
        assert(is_key_at(s, index, k));
    }
}

/// The keys of an origin stand in ascending order: each position below the
/// number of items holds a key of the origin, a position from the number of
/// items on holds none, and the key at an earlier position sorts before the
/// key at a later one.
pub proof fn law_keys_ascend(t: Table, origin: Seq<char>, i: nat, j: nat)
    requires
        valid(t),
    ensures
        i < length(t, origin) ==> key(t, origin, i) is Some && store_of(t, origin).contains_key(
            key(t, origin, i)->0,
        ),
        i >= length(t, origin) ==> key(t, origin, i) is None,
        i < j < length(t, origin) ==> key_lt(key(t, origin, i)->0, key(t, origin, j)->0),
{
    let s = store_of(t, origin);
    assert(s.dom().finite()) by {
        if t.contains_key(origin) {
            assert(t[origin].dom().finite());
        }
    }
    if i < length(t, origin) {
        lemma_key_at_exists(s, i);
    } else {
        if exists|k: Seq<char>| is_key_at(s, i, k) {
            let k = choose|k: Seq<char>| is_key_at(s, i, k);
            lemma_keys_before_bound(s, k);
        }
    }
    if i < j < length(t, origin) {
        lemma_key_at_exists(s, i);
        lemma_key_at_exists(s, j);
        let a = choose|k: Seq<char>| is_key_at(s, i, k);
        let b = choose|k: Seq<char>| is_key_at(s, j, k);
        lemma_key_lt_connected(a, b);
        if key_lt(b, a) {
            lemma_keys_before_grows(s, b, a);
        }
    }
}

/// Every key of an origin stands at one position below the number of
/// items: the number of the origin's keys that sort before it.
pub proof fn law_every_key_has_its_position(t: Table, origin: Seq<char>, name: Seq<char>)
    requires
        valid(t),
        get_item(t, origin, name) is Some,
    ensures
        keys_before(store_of(t, origin), name).len() < length(t, origin),
        key(t, origin, keys_before(store_of(t, origin), name).len()) == Some(name),
{
    let s = store_of(t, origin);
    lemma_keys_before_bound(s, name);
    lemma_key_at_unique(s, keys_before(s, name).len(), name, name);
}

/// A new value for a key that is there moves no key: every position holds
/// the key that it held.
pub proof fn law_rewrite_keeps_positions(
    t: Table,
    origin: Seq<char>,
    name: Seq<char>,
    value: Seq<char>,
    index: nat,
)
    requires
        valid(t),
        get_item(t, origin, name) is Some,
    ensures
        key(set_item(t, origin, name, value), origin, index) == key(t, origin, index),
{
    let before = store_of(t, origin);
    let after = store_of(set_item(t, origin, name, value), origin);
    assert(after.dom() =~= before.dom());
    assert forall|k: Seq<char>| is_key_at(after, index, k) == is_key_at(before, index, k) by {}
    if exists|k: Seq<char>| is_key_at(before, index, k) {
        let k = choose|k: Seq<char>| is_key_at(before, index, k);
        lemma_key_at_unique(before, index, k, k);
        lemma_key_at_unique(after, index, k, k);
    }
}

/// After an item is removed it reads as none; the number of items is one
/// less where the item was there, and the same where it was not.
pub proof fn law_removed_item_is_gone(t: Table, origin: Seq<char>, name: Seq<char>)
    requires
        valid(t),
    ensures
        get_item(remove_item(t, origin, name), origin, name) is None,
        get_item(t, origin, name) is Some ==> length(remove_item(t, origin, name), origin)
            == length(t, origin) - 1,
        get_item(t, origin, name) is None ==> length(remove_item(t, origin, name), origin)
            == length(t, origin),
{
    if t.contains_key(origin) {
        assert(t[origin].dom().finite());
        if !t[origin].contains_key(name) {
            assert(t[origin].remove(name) =~= t[origin]);
        }
    }
}

/// After an origin is cleared it has no items: their number is zero, every
/// key reads as none, and no position holds a key.
pub proof fn law_cleared_origin_is_empty(
    t: Table,
    origin: Seq<char>,
    name: Seq<char>,
    index: nat,
)
    ensures
        length(clear(t, origin), origin) == 0,
        get_item(clear(t, origin), origin, name) is None,
        key(clear(t, origin), origin, index) is None,
{
}

/// A read is answered from the table as it stands, and a write is seen by
/// the request behind it: an item reads as written, a removed item reads as
/// none.
pub proof fn law_writes_are_seen_next(t: Table, origin: Seq<char>, name: Seq<char>, value: Seq<char>)
    ensures
        step_action(step_table(t, Request::SetItem(origin, name, value)), Request::GetItem(origin, name))
            == Action::ReplyItem(Some(value)),
        step_action(step_table(t, Request::RemoveItem(origin, name)), Request::GetItem(origin, name))
            == Action::ReplyItem(None),
{
}

} // verus!
