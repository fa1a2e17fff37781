//! Verified core of a content-management plugin: the decision logic of each
//! lifecycle hook (pre-edit, post-edit, authorization, routing, collection
//! reads), the item record it operates on, and the query-string grammar of
//! the import route. The surrounding host adapter performs the actual
//! database and authorization calls and feeds their results to this crate.

pub mod text;
pub mod item;
pub mod query;
pub mod hooks;
