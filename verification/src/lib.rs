//! A loopback bridge between a host application and an external interpreter:
//! minimal HTTP request framing, extraction of a single `command` field from a
//! JSON-shaped body, and formatting of the response that carries the
//! interpreter's captured output.
//!
//! Everything that computes — request routing, header parsing, command
//! extraction, response framing — lives here with a contract. The socket,
//! filesystem and process work stays outside the library.

pub mod dispatch;
pub mod extract;
pub mod request;
pub mod response;
pub mod text;
