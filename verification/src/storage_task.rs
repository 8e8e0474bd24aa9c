//! The storage service.
//!
//! The service owns the storage table and serves one request at a time. A
//! read is answered from the table as it stands; a write changes the table
//! before the next request is looked at, so every later request sees it.

use vstd::hash_map::StringHashMap;
use vstd::prelude::*;
use vstd::string::*;
use crate::model::{
    clear, get_item, key, length, remove_item, reported_length, run_actions, run_table, set_item,
    step_action, step_table, valid, Action, Request, Table,
};
use crate::store::OriginStore;

verus! {

/// A request to the storage service. Each request but `Exit` names the
/// origin key whose items it is about.
#[derive(Clone, Debug, PartialEq, Eq)]
pub enum StorageTaskMsg {
    /// Asks for the number of items of the origin.
    Length(String),
    /// Asks for the key at the given position of the origin's keys in
    /// ascending order.
    Key(String, u32),
    /// Asks for the value under the given key.
    GetItem(String, String),
    /// Puts the given value under the given key.
    SetItem(String, String, String),
    /// Removes the item under the given key.
    RemoveItem(String, String),
    /// Removes all items of the origin.
    Clear(String),
    /// Shuts the service down.
    Exit,
}

impl View for StorageTaskMsg {
    type V = Request;

    open spec fn view(&self) -> Request {
        match *self {
            StorageTaskMsg::Length(o) => Request::Length(o@),
            StorageTaskMsg::Key(o, i) => Request::Key(o@, i),
            StorageTaskMsg::GetItem(o, k) => Request::GetItem(o@, k@),
            StorageTaskMsg::SetItem(o, k, v) => Request::SetItem(o@, k@, v@),
            StorageTaskMsg::RemoveItem(o, k) => Request::RemoveItem(o@, k@),
            StorageTaskMsg::Clear(o) => Request::Clear(o@),
            StorageTaskMsg::Exit => Request::Exit,
        }
    }
}

/// What is to be done after a request was served.
#[derive(Clone, Debug, PartialEq, Eq)]
pub enum StorageTaskAction {
    /// Reply with the number of items.
    ReplyLength(u32),
    /// Reply with the key, or with none.
    ReplyKey(Option<String>),
    /// Reply with the value, or with none.
    ReplyItem(Option<String>),
    /// Send no reply and take the next request.
    Continue,
    /// Send no reply and take no further request.
    Exit,
}

/// An optional string as an optional sequence of characters.
pub open spec fn text(s: Option<String>) -> Option<Seq<char>> {
    match s {
        Some(s) => Some(s@),
        None => None,
    }
}

impl View for StorageTaskAction {
    type V = Action;

    open spec fn view(&self) -> Action {
        match *self {
            StorageTaskAction::ReplyLength(n) => Action::ReplyLength(n),
            StorageTaskAction::ReplyKey(k) => Action::ReplyKey(text(k)),
            StorageTaskAction::ReplyItem(v) => Action::ReplyItem(text(v)),
            StorageTaskAction::Continue => Action::Continue,
            StorageTaskAction::Exit => Action::Exit,
        }
    }
}

/// The requests of a queue as the model sees them.
pub open spec fn requests(msgs: Seq<StorageTaskMsg>) -> Seq<Request> {
    msgs.map_values(|m: StorageTaskMsg| m@)
}

/// The actions of a list as the model sees them.
pub open spec fn actions(acts: Seq<StorageTaskAction>) -> Seq<Action> {
    acts.map_values(|a: StorageTaskAction| a@)
}

/// The owner of the storage table.
///
/// Each origin that has a store has a slot; the stores stand in a vector by
/// slot.
pub struct StorageManager {
    slots: StringHashMap<usize>,
    stores: Vec<OriginStore>,
}

impl View for StorageManager {
    type V = Table;

    closed spec fn view(&self) -> Table {
        Map::new(
            |o: Seq<char>| self.slots@.contains_key(o),
            |o: Seq<char>| self.stores@[self.slots@[o] as int]@,
        )
    }
}

impl StorageManager {
    #[verifier::type_invariant]
    spec fn slots_in_use(self) -> bool {
        &&& forall|o: Seq<char>| self.slots@.contains_key(o) ==> #[trigger] self.slots@[o]
            < self.stores.len()
        &&& forall|a: Seq<char>, b: Seq<char>|
            self.slots@.contains_key(a) && self.slots@.contains_key(b) && a != b
                ==> #[trigger] self.slots@[a] != #[trigger] self.slots@[b]
    }

    /// Every store of the table holds finitely many items.
    pub proof fn lemma_valid(self)
        ensures
            valid(self@),
    {
        assert forall|o: Seq<char>| self@.contains_key(o) implies (#[trigger] self@[o]).dom().finite() by {
            self.stores@[self.slots@[o] as int].lemma_finite();
        }
    }

    /// A service whose table has no store.
    pub fn new() -> (manager: StorageManager)
        ensures
            manager@ == Table::empty(),
    {
        StorageManager { slots: StringHashMap::new(), stores: Vec::new() }
    }

    /// The number of items of an origin, as a reply carries it.
    pub fn length(&self, origin: &str) -> (n: u32)
        ensures
            n == reported_length(length(self@, origin@)),
    {
        proof {
            use_type_invariant(self);
        }
        match self.slots.get(origin) {
            Some(slot) => {
                let n = self.stores[*slot].len();
                ((n as u64) % 0x1_0000_0000) as u32
            },
            None => 0,
        }
    }

    /// The key at position `index` of an origin's keys in ascending order.
    pub fn key(&self, origin: &str, index: u32) -> (name: Option<String>)
        ensures
            text(name) == key(self@, origin@, index as nat),
    {
        proof {
            use_type_invariant(self);
        }
        match self.slots.get(origin) {
            Some(slot) => match self.stores[*slot].key(index as usize) {
                Some(name) => Some(name.clone()),
                None => None,
            },
            None => None,
        }
    }

    /// The value of an origin's item.
    pub fn get_item(&self, origin: &str, name: &str) -> (value: Option<String>)
        ensures
            text(value) == get_item(self@, origin@, name@),
    {
        proof {
            use_type_invariant(self);
        }
        match self.slots.get(origin) {
            Some(slot) => match self.stores[*slot].get(name) {
                Some(value) => Some(value.clone()),
                None => None,
            },
            None => None,
        }
    }

    /// Puts `value` under `name` for an origin. The origin gets a store if
    /// it has none.
    pub fn set_item(&mut self, origin: String, name: String, value: String)
        ensures
            final(self)@ == set_item(old(self)@, origin@, name@, value@),
    {
        proof {
            use_type_invariant(&*self);
        }
        let mut this = StorageManager::new();
        std::mem::swap(self, &mut this);
        let StorageManager { mut slots, mut stores } = this;
        let slot = match slots.get(origin.as_str()) {
            Some(slot) => *slot,
            None => {
                let slot = stores.len();
                stores.push(OriginStore::new());
                slots.insert(origin, slot);
                slot
            },
        };
        stores[slot].insert(name, value);
        *self = StorageManager { slots, stores };
    }

    /// Removes an origin's item, if there is one.
    pub fn remove_item(&mut self, origin: &str, name: &str)
        ensures
            final(self)@ == remove_item(old(self)@, origin@, name@),
    {
        proof {
            use_type_invariant(&*self);
        }
        let mut this = StorageManager::new();
        std::mem::swap(self, &mut this);
        let StorageManager { slots, mut stores } = this;
        match slots.get(origin) {
            Some(slot) => {
                stores[*slot].remove(name);
            },
            None => {},
        }
        *self = StorageManager { slots, stores };
    }

    /// Removes all items of an origin.
    pub fn clear(&mut self, origin: &str)
        ensures
            final(self)@ == clear(old(self)@, origin@),
    {
        proof {
            use_type_invariant(&*self);
        }
        let mut this = StorageManager::new();
        std::mem::swap(self, &mut this);
        let StorageManager { slots, mut stores } = this;
        match slots.get(origin) {
            Some(slot) => {
                stores[*slot].clear();
            },
            None => {},
        }
        *self = StorageManager { slots, stores };
    }

    /// Serves one request: changes the table as the request says, and tells
    /// what is to be done next.
    pub fn handle(&mut self, msg: StorageTaskMsg) -> (action: StorageTaskAction)
        ensures
            final(self)@ == step_table(old(self)@, msg@),
            action@ == step_action(old(self)@, msg@),
    {
        match msg {
            StorageTaskMsg::Length(origin) => StorageTaskAction::ReplyLength(
                self.length(origin.as_str()),
            ),
            StorageTaskMsg::Key(origin, index) => StorageTaskAction::ReplyKey(
                self.key(origin.as_str(), index),
            ),
            StorageTaskMsg::GetItem(origin, name) => StorageTaskAction::ReplyItem(
                self.get_item(origin.as_str(), name.as_str()),
            ),
            StorageTaskMsg::SetItem(origin, name, value) => {
                self.set_item(origin, name, value);
                StorageTaskAction::Continue
            },
            StorageTaskMsg::RemoveItem(origin, name) => {
                self.remove_item(origin.as_str(), name.as_str());
                StorageTaskAction::Continue
            },
            StorageTaskMsg::Clear(origin) => {
                self.clear(origin.as_str());
                StorageTaskAction::Continue
            },
            StorageTaskMsg::Exit => StorageTaskAction::Exit,
        }
    }

    /// Serves a queue of requests in the order of arrival, up to the first
    /// `Exit`. Returns what is to be done after each request served; the
    /// requests behind an `Exit` are not looked at.
    pub fn start(&mut self, msgs: Vec<StorageTaskMsg>) -> (acts: Vec<StorageTaskAction>)
        ensures
            final(self)@ == run_table(old(self)@, requests(msgs@)),
            actions(acts@) == run_actions(old(self)@, requests(msgs@)),
    {
        let ghost all = requests(msgs@);
        let ghost first = self@;
        let mut acts: Vec<StorageTaskAction> = Vec::new();
        assert(all.skip(0) =~= all);
        for msg in it: msgs
            invariant
                first == old(self)@,
                all == requests(msgs@),
                it.seq() == msgs@,
                run_table(first, all) == run_table(self@, all.skip(it.index() as int)),
                run_actions(first, all) == actions(acts@) + run_actions(
                    self@,
                    all.skip(it.index() as int),
                ),
        {
            let ghost i = it.index() as int;
            assert(all.skip(i).drop_first() =~= all.skip(i + 1));
            let action = self.handle(msg);
            let last = match action {
                StorageTaskAction::Exit => true,
                _ => false,
            };
            acts.push(action);
            if last {
                return acts;
            }
        }
        acts
    }
}

} // verus!
