//! The structured command API: one request, one response (the MCP bridge taps
//! this).

pub mod connection;
pub mod handler;
pub mod protocol;

pub use connection::{bad_request, ApiConnection, DrainWait, RequestKind};
pub use handler::{
    build_drain_response, dig_error_in_words, handle_api_request, ApiOutcome, ReplyShape,
};
pub use protocol::{ApiRequest, ApiResponse};
