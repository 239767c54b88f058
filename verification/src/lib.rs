//! An HTTP request-routing and dispatch engine.
//!
//! Route patterns are compiled into a segment tree, grouped into nested
//! scopes that carry inherited state and modifiers, and every request is
//! resolved to a handler or to the right fallback.  All of the routing
//! decisions in this crate are verified against mathematical models.

pub mod app;
pub mod builder;
pub mod bytes;
pub mod codegen;
pub mod content_type;
pub mod cookies;
pub mod date;
pub mod error;
pub mod fs;
pub mod headers;
pub mod input;
pub mod lifecycle;
pub mod localmap;
pub mod method;
pub mod modifier;
pub mod query;
pub mod recognizer;
pub mod redirect;
pub mod reply;
pub mod route;
pub mod scope;
pub mod service;
pub mod uri;
