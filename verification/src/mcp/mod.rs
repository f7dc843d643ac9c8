//! The MCP bridge: hand-rolled JSON-RPC, forwarding tool calls to the daemon's
//! command API.

pub mod client;
pub mod dispatch;
pub mod json;
pub mod protocol;
pub mod tools;

pub use client::{after_reply, attached_session, with_session, NextStep};
pub use dispatch::{dispatch_rpc, DaemonClient};
pub use protocol::{JsonRpcError, JsonRpcRequest, JsonRpcResponse};
pub use tools::{response_to_text, tool_call_to_request, tool_definitions, tool_request, ToolArgs};
