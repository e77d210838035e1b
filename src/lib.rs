//! A paste service's core: the query-condition mini-languages, the list query
//! descriptor and its lowering to storage steps, the operation handlers run
//! against a paste table, the error taxonomy, and the worker pool that
//! dispatches storage work.

pub mod config;
pub mod cond;
pub mod dispatch;
pub mod error;
pub mod num;
pub mod paste;
pub mod query;
pub mod request;
pub mod service;
pub mod store;
pub mod text;
