//! Request routing through a tree of capability handlers, and a bounded
//! least-recently-used cache that generates values on a miss.
pub mod response;
mod text;
pub mod request;
pub mod api;
pub mod namespace;
pub mod cache;
pub mod template;
pub mod writium;
