//! A relay library for a rollup node's Generic I/O (GIO) interface.
//!
//! Inbound completion requests are wrapped into a GIO envelope — a JSON
//! document `{"domain": <tag>, "id": <hex payload>}` — and handed to the
//! node's input endpoint; a second entry point accepts envelopes directly.
//! This crate holds the request-transformation logic: the envelope encoding
//! rule, the routing discipline, and the failure mapping. The HTTP transport
//! itself lives outside the library.

pub mod envelope;
pub mod hexcode;
pub mod parse;
pub mod service;
