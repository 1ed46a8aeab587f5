//! A minimal HTTP/1.1 server core, verified with Verus.
//!
//! The library holds the request lifecycle logic of a small single-process
//! server: the line-oriented request parser, the typed request/response
//! model with its wire serializer, the method+path router, and the model of
//! the worker pool's task queue and termination protocol.  The surrounding
//! process — sockets, threads, the accept loop — lives outside the library
//! and hands it plain values.

pub mod error;
pub mod header;
pub mod message;
pub mod method;
pub mod server;
pub mod status_code;
pub mod text;
pub mod worker;
