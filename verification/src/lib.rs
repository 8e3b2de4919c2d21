//! Dispatch and forwarding core of a read-only web gateway that serves the content of
//! other origins under its own.
//!
//! The crate decides and computes; it does no input or output. A server around it reads
//! requests, performs what the core decides, and writes the responses.
//!
//! - [`path`], [`pattern`], [`router`]: the route table. A request is resolved to the
//!   first registered route that answers it, and the parameters of the route's pattern
//!   capture parts of the path.
//! - [`template`], [`forward`]: the media proxy. A template with a fixed origin is
//!   filled with the captured parameters; the request to the upstream and what is
//!   passed on of its answer are planned here.
//! - [`credentials`]: the upstream credential, refreshed by one caller at a time.
//! - [`cache`]: memoization with expiry, under a clock that the caller supplies.
//! - [`headers`], [`response`], [`dispatch`]: responses, the fixed responses of the
//!   gateway, and the default headers that every response leaves with.
//! - [`config`]: what is decided once at startup.
//! - [`assoc`], [`text`]: association lists and text helpers that the others build on.

pub mod assoc;
pub mod cache;
pub mod config;
pub mod credentials;
pub mod dispatch;
pub mod forward;
pub mod headers;
pub mod path;
pub mod pattern;
pub mod response;
pub mod router;
pub mod template;
pub mod text;
