//! A session-aware client core for a JSON-over-HTTPS management API.
//!
//! The crate models administrative sessions (login/logout), single command
//! calls, transparent polling of long-running server-side tasks, aggregation
//! of paginated object listings, and a credential-redacted audit log.  The
//! core is free of I/O: it builds the requests, interprets the replies, and
//! keeps the session and audit state; a thin unverified shell performs the
//! actual HTTP exchange and file writes.

pub mod client;
pub mod error;
pub mod exchange;
pub mod json;
pub mod parse;
pub mod query;
pub mod render;
pub mod response;
pub mod text;

pub use client::Client;
pub use error::Error;
pub use exchange::{CallExchange, CallStep, HttpRequest, RawReply};
pub use json::JsonValue;
pub use response::Response;
