//! A minimal single-endpoint HTTP responder core.
//!
//! The crate holds the decisions of a tiny server: how the bytes of one read
//! are classified, which reply each class receives, and the exact bytes of a
//! reply on the wire. Sockets and task scheduling are left to the caller, who
//! feeds events in and carries actions out.

pub mod handler;
pub mod listener;
pub mod request;
pub mod response;
pub mod text;
