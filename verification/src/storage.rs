//! A page's client of the storage service.
//!
//! The client turns each operation of the storage interface into requests to
//! the service, all for the origin of the page's URL. Its functions bear the
//! names of the interface. A read becomes one request, and its reply is the
//! result. A write of an item is decided by what the service holds for the
//! key: the caller first asks for the item with [`Storage::GetItem`], and
//! hands the reply to [`Storage::SetItem`] or [`Storage::RemoveItem`], which
//! give the request to send, or none where the write would change nothing.

use vstd::prelude::*;
use vstd::string::*;
use crate::model::Request;
use crate::origin::{get_origin_as_string, PageUrl};
use crate::storage_task::{text, StorageTaskMsg};

verus! {

/// The storage of one page.
#[derive(Clone, Debug, PartialEq, Eq)]
pub struct Storage {
    /// The URL of the page.
    pub url: PageUrl,
}

/// The request that a write of an item needs, as the model sees it: none
/// where the service holds `value` under the key already.
pub open spec fn set_item_request(
    origin: Seq<char>,
    item: Option<Seq<char>>,
    name: Seq<char>,
    value: Seq<char>,
) -> Option<Request> {
    if item == Some(value) {
        None
    } else {
        Some(Request::SetItem(origin, name, value))
    }
}

/// The request that a removal of an item needs, as the model sees it: none
/// where the service holds nothing under the key.
pub open spec fn remove_item_request(
    origin: Seq<char>,
    item: Option<Seq<char>>,
    name: Seq<char>,
) -> Option<Request> {
    if item is Some {
        Some(Request::RemoveItem(origin, name))
    } else {
        None
    }
}

/// An optional request as the model sees it.
pub open spec fn request(msg: Option<StorageTaskMsg>) -> Option<Request> {
    match msg {
        Some(msg) => Some(msg@),
        None => None,
    }
}

#[allow(non_snake_case)]
impl Storage {
    /// The storage of the page at `url`.
    pub fn new(url: PageUrl) -> (storage: Storage)
        ensures
            storage.url == url,
    {
        Storage { url }
    }

    /// The storage of the page at `url`, as the interface's constructor
    /// gives it. It never fails.
    pub fn Constructor(url: PageUrl) -> (storage: Result<Storage, ()>)
        ensures
            storage is Ok,
            storage->Ok_0.url == url,
    {
        Ok(Storage::new(url))
    }

    /// The origin key of the page.
    pub fn get_origin_as_string(&self) -> (origin: String)
        ensures
            origin@ == self.url.origin(),
    {
        get_origin_as_string(&self.url)
    }

    /// The request for the number of items. The reply is the result.
    pub fn Length(&self) -> (msg: StorageTaskMsg)
        ensures
            msg@ == Request::Length(self.url.origin()),
    {
        StorageTaskMsg::Length(self.get_origin_as_string())
    }

    /// The request for the key at position `index`. The reply is the
    /// result.
    pub fn Key(&self, index: u32) -> (msg: StorageTaskMsg)
        ensures
            msg@ == Request::Key(self.url.origin(), index),
    {
        StorageTaskMsg::Key(self.get_origin_as_string(), index)
    }

    /// The request for the value under `name`. The reply is the result.
    pub fn GetItem(&self, name: String) -> (msg: StorageTaskMsg)
        ensures
            msg@ == Request::GetItem(self.url.origin(), name@),
    {
        StorageTaskMsg::GetItem(self.get_origin_as_string(), name)
    }

    /// Reads an item as a named property: hands the reply to `GetItem` on,
    /// and sets `found` to whether there is an item.
    pub fn NamedGetter(&self, item: Option<String>, found: &mut bool) -> (result: Option<String>)
        ensures
            result == item,
            *final(found) == (item is Some),
    {
        *found = item.is_some();
        item
    }

    /// The request that puts `value` under `name`, given the reply `item`
    /// to `GetItem` for `name`: none where the item has that value already.
    pub fn SetItem(&self, item: Option<String>, name: String, value: String) -> (msg: Option<
        StorageTaskMsg,
    >)
        ensures
            request(msg) == set_item_request(self.url.origin(), text(item), name@, value@),
    {
        let unchanged = match &item {
            Some(current) => *current == value,
            None => false,
        };
        if unchanged {
            None
        } else {
            Some(StorageTaskMsg::SetItem(self.get_origin_as_string(), name, value))
        }
    }

    /// Writes an item as a named property: as `SetItem`.
    pub fn NamedSetter(&self, item: Option<String>, name: String, value: String) -> (msg: Option<
        StorageTaskMsg,
    >)
        ensures
            request(msg) == set_item_request(self.url.origin(), text(item), name@, value@),
    {
        self.SetItem(item, name, value)
    }

    /// Creates an item as a named property: as `SetItem`.
    pub fn NamedCreator(&self, item: Option<String>, name: String, value: String) -> (msg: Option<
        StorageTaskMsg,
    >)
        ensures
            request(msg) == set_item_request(self.url.origin(), text(item), name@, value@),
    {
        self.SetItem(item, name, value)
    }

    /// The request that removes the item under `name`, given the reply
    /// `item` to `GetItem` for `name`: none where there is no item.
    pub fn RemoveItem(&self, item: Option<String>, name: String) -> (msg: Option<StorageTaskMsg>)
        ensures
            request(msg) == remove_item_request(self.url.origin(), text(item), name@),
    {
        if item.is_some() {
            Some(StorageTaskMsg::RemoveItem(self.get_origin_as_string(), name))
        } else {
            None
        }
    }

    /// Deletes an item as a named property: as `RemoveItem`.
    pub fn NamedDeleter(&self, item: Option<String>, name: String) -> (msg: Option<
        StorageTaskMsg,
    >)
        ensures
            request(msg) == remove_item_request(self.url.origin(), text(item), name@),
    {
        self.RemoveItem(item, name)
    }

    /// The request that removes all items.
    pub fn Clear(&self) -> (msg: StorageTaskMsg)
        ensures
            msg@ == Request::Clear(self.url.origin()),
    {
        StorageTaskMsg::Clear(self.get_origin_as_string())
    }
}

} // verus!
