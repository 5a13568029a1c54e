//! Core of a WSGI-style HTTP gateway.
//!
//! The gateway accepts a raw HTTP request, builds the environment mapping
//! and buffered input stream handed to an application callable, captures the
//! status line and headers the application commits through a single-shot
//! collector, and assembles the HTTP response, falling back to a generic
//! `400` or `500` response when translation or the invocation fails.
//! The HTTP transport and the runtime hosting the application live outside
//! this crate; everything here works on plain bytes and is verified.

pub mod scan;
pub mod input;
pub mod error;
pub mod request;
pub mod response;
pub mod gateway;
