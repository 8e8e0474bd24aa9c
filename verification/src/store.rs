//! The items of one origin, kept in ascending order of their keys.

use vstd::prelude::*;
use vstd::string::*;
use crate::model::{
    is_key_at, keys_before, lemma_key_at_unique, lemma_keys_before_bound, store_item, store_key,
    Store,
};
use crate::order::{
    key_lt, key_order, lemma_key_lt_asymmetric, lemma_key_lt_irreflexive,
    lemma_key_lt_transitive, KeyOrder,
};

verus! {

/// One item: a key and its value.
struct Item {
    name: String,
    value: String,
}

/// The keys of the items, in their order.
spec fn names(items: Seq<Item>) -> Seq<Seq<char>> {
    items.map_values(|e: Item| e.name@)
}

/// Each item's key sorts before the keys of the items after it.
spec fn ascending(items: Seq<Item>) -> bool {
    forall|i: int, j: int| 0 <= i < j < items.len() ==> key_lt(items[i].name@, items[j].name@)
}

/// An item with the key `name` stands at position `i`.
spec fn stands_at(items: Seq<Item>, name: Seq<char>, i: int) -> bool {
    0 <= i < items.len() && items[i].name@ == name
}

/// The store that the items make up.
spec fn items_map(items: Seq<Item>) -> Store {
    Map::new(
        |k: Seq<char>| exists|i: int| stands_at(items, k, i),
        |k: Seq<char>| items[choose|i: int| stands_at(items, k, i)].value@,
    )
}

/// In ascending items a key stands at one position only, and the store holds
/// the value that stands there.
proof fn lemma_items_map_at(items: Seq<Item>, i: int)
    requires
        ascending(items),
        0 <= i < items.len(),
    ensures
        items_map(items).contains_key(items[i].name@),
        items_map(items)[items[i].name@] == items[i].value@,
{
    let k = items[i].name@;
    assert(stands_at(items, k, i));
    lemma_key_lt_irreflexive(k);
}

/// The keys of the store are the keys of the items; ascending items make as
/// many keys as there are items.
proof fn lemma_items_map_dom(items: Seq<Item>)
    ensures
        items_map(items).dom() =~= names(items).to_set(),
        items_map(items).dom().finite(),
        ascending(items) ==> items_map(items).dom().len() == items.len(),
{
    let ns = names(items);
    assert forall|k: Seq<char>| items_map(items).dom().contains(k) implies ns.to_set().contains(
        k,
    ) by {
        let i = choose|i: int| stands_at(items, k, i);
        assert(ns[i] == k);
    }
    assert forall|k: Seq<char>| ns.to_set().contains(k) implies items_map(items).dom().contains(
        k,
    ) by {
        let i = choose|i: int| 0 <= i < ns.len() && ns[i] == k;
        assert(stands_at(items, k, i));
    }
    vstd::seq_lib::seq_to_set_is_finite(ns);
    if ascending(items) {
        assert forall|i: int, j: int| 0 <= i < ns.len() && 0 <= j < ns.len() && i != j implies ns[i]
            != ns[j] by {
            if i < j {
                lemma_key_lt_asymmetric(items[i].name@, items[j].name@);
            } else {
                lemma_key_lt_asymmetric(items[j].name@, items[i].name@);
            }
        }
        ns.unique_seq_to_set();
    }
}

/// In ascending items, the item at position `i` has exactly `i` keys before
/// it.
proof fn lemma_items_key_at(items: Seq<Item>, i: int)
    requires
        ascending(items),
        0 <= i < items.len(),
    ensures
        is_key_at(items_map(items), i as nat, items[i].name@),
{
    let m = items_map(items);
    let k = items[i].name@;
    let head = names(items).take(i);
    lemma_items_map_at(items, i);
    assert forall|x: Seq<char>| keys_before(m, k).contains(x) implies head.to_set().contains(
        x,
    ) by {
        let j = choose|j: int| stands_at(items, x, j);
        lemma_key_lt_asymmetric(x, k);
        assert(head[j] == x);
    }
    assert forall|x: Seq<char>| head.to_set().contains(x) implies keys_before(m, k).contains(
        x,
    ) by {
        let j = choose|j: int| 0 <= j < head.len() && head[j] == x;
        assert(stands_at(items, x, j));
    }
    assert(keys_before(m, k) =~= head.to_set());
    assert forall|a: int, b: int| 0 <= a < head.len() && 0 <= b < head.len() && a != b implies head[a]
        != head[b] by {
        if a < b {
            lemma_key_lt_asymmetric(items[a].name@, items[b].name@);
        } else {
            lemma_key_lt_asymmetric(items[b].name@, items[a].name@);
        }
    }
    head.unique_seq_to_set();
}

/// A new item, put where its key belongs, keeps the items ascending and adds
/// its key and value to the store.
proof fn lemma_insert_item(items: Seq<Item>, p: int, e: Item)
    requires
        ascending(items),
        0 <= p <= items.len(),
        forall|i: int| 0 <= i < p ==> key_lt(items[i].name@, e.name@),
        forall|i: int| p <= i < items.len() ==> key_lt(e.name@, items[i].name@),
    ensures
        ascending(items.insert(p, e)),
        items_map(items.insert(p, e)) =~= items_map(items).insert(e.name@, e.value@),
{
    let after = items.insert(p, e);
    assert forall|i: int| 0 <= i < after.len() implies after[i] == (if i < p {
        items[i]
    } else if i == p {
        e
    } else {
        items[i - 1]
    }) by {}
    assert forall|i: int, j: int| 0 <= i < j < after.len() implies key_lt(
        after[i].name@,
        after[j].name@,
    ) by {}
    let m0 = items_map(items);
    let m1 = items_map(after);
    let m2 = m0.insert(e.name@, e.value@);
    assert forall|k: Seq<char>| #[trigger] m1.dom().contains(k) implies m2.dom().contains(k)
        && m1[k] == m2[k] by {
        let i = choose|i: int| stands_at(after, k, i);
        lemma_items_map_at(after, i);
        if i != p {
            let i0 = if i < p { i } else { i - 1 };
            lemma_items_map_at(items, i0);
            if i0 < p {
                lemma_key_lt_asymmetric(items[i0].name@, e.name@);
            } else {
                lemma_key_lt_asymmetric(e.name@, items[i0].name@);
            }
        }
    }
    assert forall|k: Seq<char>| #[trigger] m2.dom().contains(k) implies m1.dom().contains(k) by {
        if k == e.name@ {
            assert(stands_at(after, k, p));
        } else {
            let i0 = choose|i: int| stands_at(items, k, i);
            let i = if i0 < p { i0 } else { i0 + 1 };
            assert(stands_at(after, k, i));
        }
    }
}

/// A new value for the key at position `i` keeps the items ascending and
/// replaces the value in the store.
proof fn lemma_replace_item(items: Seq<Item>, i: int, e: Item)
    requires
        ascending(items),
        0 <= i < items.len(),
        e.name@ == items[i].name@,
    ensures
        ascending(items.update(i, e)),
        items_map(items.update(i, e)) =~= items_map(items).insert(e.name@, e.value@),
{
    let after = items.update(i, e);
    assert forall|a: int, b: int| 0 <= a < b < after.len() implies key_lt(
        after[a].name@,
        after[b].name@,
    ) by {}
    let m0 = items_map(items);
    let m1 = items_map(after);
    let m2 = m0.insert(e.name@, e.value@);
    assert forall|k: Seq<char>| #[trigger] m1.dom().contains(k) implies m2.dom().contains(k)
        && m1[k] == m2[k] by {
        let j = choose|j: int| stands_at(after, k, j);
        lemma_items_map_at(after, j);
        lemma_items_map_at(items, j);
        if j != i {
            if j < i {
                lemma_key_lt_asymmetric(items[j].name@, items[i].name@);
            } else {
                lemma_key_lt_asymmetric(items[i].name@, items[j].name@);
            }
        }
    }
    assert forall|k: Seq<char>| #[trigger] m2.dom().contains(k) implies m1.dom().contains(k) by {
        if k == e.name@ {
            assert(stands_at(after, k, i));
        } else {
            let j = choose|j: int| stands_at(items, k, j);
            assert(stands_at(after, k, j));
        }
    }
}

/// Without the item at position `i` the items stay ascending, and the store
/// is without its key.
proof fn lemma_remove_item(items: Seq<Item>, i: int)
    requires
        ascending(items),
        0 <= i < items.len(),
    ensures
        ascending(items.remove(i)),
        items_map(items.remove(i)) =~= items_map(items).remove(items[i].name@),
{
    let after = items.remove(i);
    let gone = items[i].name@;
    assert forall|a: int| 0 <= a < after.len() implies after[a] == (if a < i {
        items[a]
    } else {
        items[a + 1]
    }) by {}
    assert forall|a: int, b: int| 0 <= a < b < after.len() implies key_lt(
        after[a].name@,
        after[b].name@,
    ) by {}
    let m0 = items_map(items);
    let m1 = items_map(after);
    let m2 = m0.remove(gone);
    assert forall|k: Seq<char>| #[trigger] m1.dom().contains(k) implies m2.dom().contains(k)
        && m1[k] == m2[k] by {
        let a = choose|a: int| stands_at(after, k, a);
        let a0 = if a < i { a } else { a + 1 };
        lemma_items_map_at(after, a);
        lemma_items_map_at(items, a0);
        if a0 < i {
            lemma_key_lt_asymmetric(items[a0].name@, items[i].name@);
        } else {
            lemma_key_lt_asymmetric(items[i].name@, items[a0].name@);
        }
    }
    assert forall|k: Seq<char>| #[trigger] m2.dom().contains(k) implies m1.dom().contains(k) by {
        let a0 = choose|a: int| stands_at(items, k, a);
        let a = if a0 < i { a0 } else { a0 - 1 };
        assert(stands_at(after, k, a));
    }
}

/// Where `name` stands among ascending items, or where it would be put.
fn find(items: &Vec<Item>, name: &str) -> (r: Result<usize, usize>)
    requires
        ascending(items@),
    ensures
        match r {
            Ok(i) => stands_at(items@, name@, i as int),
            Err(p) => {
                &&& p <= items.len()
                &&& forall|i: int| 0 <= i < p ==> key_lt(items[i].name@, name@)
                &&& forall|i: int| p <= i < items.len() ==> key_lt(name@, items[i].name@)
            },
        },
{
    let mut lo: usize = 0;
    let mut hi: usize = items.len();
    while lo < hi
        invariant
            lo <= hi <= items.len(),
            ascending(items@),
            forall|i: int| 0 <= i < lo ==> key_lt(items[i].name@, name@),
            forall|i: int| hi <= i < items.len() ==> key_lt(name@, items[i].name@),
        decreases hi - lo,
    {
        let mid = lo + (hi - lo) / 2;
        match key_order(items[mid].name.as_str(), name) {
            KeyOrder::Same => {
                return Ok(mid);
            },
            KeyOrder::Before => {
                proof {
                    assert forall|i: int| 0 <= i < mid + 1 implies key_lt(items[i].name@, name@) by {
                        if i < mid {
                            lemma_key_lt_transitive(items[i].name@, items[mid as int].name@, name@);
                        }
                    }
                }
                lo = mid + 1;
            },
            KeyOrder::After => {
                proof {
                    assert forall|i: int| mid <= i < items.len() implies key_lt(
                        name@,
                        items[i].name@,
                    ) by {
                        if mid < i {
                            lemma_key_lt_transitive(name@, items[mid as int].name@, items[i].name@);
                        }
                    }
                }
                hi = mid;
            },
        }
    }
    Err(lo)
}

/// The items of one origin: a map from keys to values whose keys are kept in
/// ascending order.
pub struct OriginStore {
    items: Vec<Item>,
}

impl View for OriginStore {
    type V = Store;

    closed spec fn view(&self) -> Store {
        items_map(self.items@)
    }
}

impl OriginStore {
    #[verifier::type_invariant]
    spec fn ordered(self) -> bool {
        ascending(self.items@)
    }

    /// Every store holds finitely many items.
    pub proof fn lemma_finite(self)
        ensures
            self@.dom().finite(),
    {
        lemma_items_map_dom(self.items@);
    }

    /// A store without items.
    pub fn new() -> (s: OriginStore)
        ensures
            s@ == Store::empty(),
    {
        OriginStore { items: Vec::new() }
    }

    /// The number of items.
    pub fn len(&self) -> (n: usize)
        ensures
            n == self@.dom().len(),
            self@.dom().finite(),
    {
        proof {
            use_type_invariant(self);
            lemma_items_map_dom(self.items@);
        }
        self.items.len()
    }

    /// The key at position `index` of the keys in ascending order, counted
    /// from zero; none where the store has no more than `index` keys.
    pub fn key(&self, index: usize) -> (r: Option<&String>)
        ensures
            match r {
                Some(k) => store_key(self@, index as nat) == Some(k@),
                None => store_key(self@, index as nat) is None,
            },
    {
        proof {
            use_type_invariant(self);
            lemma_items_map_dom(self.items@);
        }
        if index < self.items.len() {
            proof {
                lemma_items_key_at(self.items@, index as int);
                lemma_key_at_unique(
                    self@,
                    index as nat,
                    self.items@[index as int].name@,
                    self.items@[index as int].name@,
                );
            }
            Some(&self.items[index].name)
        } else {
            proof {
                if exists|k: Seq<char>| is_key_at(self@, index as nat, k) {
                    let k = choose|k: Seq<char>| is_key_at(self@, index as nat, k);
                    lemma_keys_before_bound(self@, k);
                }
            }
            None
        }
    }

    /// The value under `name`; none where the store has no such key.
    pub fn get(&self, name: &str) -> (r: Option<&String>)
        ensures
            match r {
                Some(v) => store_item(self@, name@) == Some(v@),
                None => store_item(self@, name@) is None,
            },
    {
        proof {
            use_type_invariant(self);
        }
        match find(&self.items, name) {
            Ok(i) => {
                proof {
                    lemma_items_map_at(self.items@, i as int);
                }
                Some(&self.items[i].value)
            },
            Err(p) => {
                proof {
                    lemma_key_lt_irreflexive(name@);
                }
                None
            },
        }
    }

    /// Puts `value` under `name`, in place of the value that the key had.
    pub fn insert(&mut self, name: String, value: String)
        ensures
            final(self)@ == old(self)@.insert(name@, value@),
    {
        proof {
            use_type_invariant(&*self);
        }
        let mut items = Vec::new();
        std::mem::swap(&mut items, &mut self.items);
        let item = Item { name, value };
        match find(&items, item.name.as_str()) {
            Ok(i) => {
                proof {
                    lemma_replace_item(items@, i as int, item);
                }
                items.set(i, item);
            },
            Err(p) => {
                proof {
                    lemma_insert_item(items@, p as int, item);
                }
                items.insert(p, item);
            },
        }
        self.items = items;
    }

    /// Removes the item under `name`, if there is one.
    pub fn remove(&mut self, name: &str)
        ensures
            final(self)@ == old(self)@.remove(name@),
    {
        proof {
            use_type_invariant(&*self);
        }
        let mut items = Vec::new();
        std::mem::swap(&mut items, &mut self.items);
        match find(&items, name) {
            Ok(i) => {
                proof {
                    lemma_remove_item(items@, i as int);
                }
                items.remove(i);
            },
            Err(p) => {
                proof {
                    lemma_key_lt_irreflexive(name@);
                }
            },
        }
        self.items = items;
    }

    /// Removes all items.
    pub fn clear(&mut self)
        ensures
            final(self)@ == Store::empty(),
    {
        self.items = Vec::new();
    }
}

} // verus!
