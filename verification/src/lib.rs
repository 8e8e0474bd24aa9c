//! Page-local storage, partitioned by origin.
//!
//! A storage service owns one sorted key-value store per origin key and
//! serves the six storage operations one request at a time. A page's client
//! derives the origin key from the page's URL and decides which requests to
//! send.
//!
//! - [`model`]: the storage table as a mathematical map, and the operations
//!   as functions on it.
//! - [`laws`]: what holds of the model, proved.
//! - [`order`]: the order of item keys.
//! - [`origin`]: origin keys.
//! - [`store`]: the items of one origin, in the order of their keys.
//! - [`storage_task`]: the service.
//! - [`storage`]: the client of a page.
//!
//! Every executable function carries a contract over the model, so the laws
//! hold of the service as they hold of the model.

pub mod laws;
pub mod model;
pub mod order;
pub mod origin;
pub mod storage;
pub mod storage_task;
pub mod store;
