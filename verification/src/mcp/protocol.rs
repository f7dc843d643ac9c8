//! JSON-RPC messages.

use vstd::prelude::*;

use crate::mcp::json::{self, Json};
use crate::text;

verus! {

/// A JSON-RPC request; without an id it is a notification.
#[derive(Debug, PartialEq)]
pub struct JsonRpcRequest {
    pub jsonrpc: String,
    pub id: Option<serde_json::Value>,
    pub method: String,
    pub params: Option<serde_json::Value>,
}

pub struct RpcRequestView {
    pub jsonrpc: text::Text,
    pub id: Option<Json>,
    pub method: text::Text,
    pub params: Option<Json>,
}

/// What an optional value holds.
pub open spec fn opt_model(v: Option<serde_json::Value>) -> Option<Json> {
    match v {
        Some(inner) => Some(json::json_model(inner)),
        None => None,
    }
}

impl View for JsonRpcRequest {
    type V = RpcRequestView;

    open spec fn view(&self) -> RpcRequestView {
        RpcRequestView {
            jsonrpc: self.jsonrpc@,
            id: opt_model(self.id),
            method: self.method@,
            params: opt_model(self.params),
        }
    }
}

/// Why a request failed.
#[derive(Debug, PartialEq)]
pub struct JsonRpcError {
    pub code: i64,
    pub message: String,
}

pub struct RpcErrorView {
    pub code: int,
    pub message: text::Text,
}

impl View for JsonRpcError {
    type V = RpcErrorView;

    open spec fn view(&self) -> RpcErrorView {
        RpcErrorView { code: self.code as int, message: self.message@ }
    }
}

/// A JSON-RPC response: a result or an error, for the request with that id.
#[derive(Debug, PartialEq)]
pub struct JsonRpcResponse {
    pub jsonrpc: String,
    pub id: serde_json::Value,
    pub result: Option<serde_json::Value>,
    pub error: Option<JsonRpcError>,
}

pub struct RpcResponseView {
    pub jsonrpc: text::Text,
    pub id: Json,
    pub result: Option<Json>,
    pub error: Option<RpcErrorView>,
}

impl View for JsonRpcResponse {
    type V = RpcResponseView;

    open spec fn view(&self) -> RpcResponseView {
        RpcResponseView {
            jsonrpc: self.jsonrpc@,
            id: json::json_model(self.id),
            result: opt_model(self.result),
            error: text::opt_view(self.error),
        }
    }
}

impl RpcResponseView {
    /// A response with a result.
    pub open spec fn success(id: Json, result: Json) -> RpcResponseView {
        RpcResponseView { jsonrpc: "2.0"@, id, result: Some(result), error: None }
    }

    /// A response with an error.
    pub open spec fn failure(id: Json, code: int, message: text::Text) -> RpcResponseView {
        RpcResponseView {
            jsonrpc: "2.0"@,
            id,
            result: None,
            error: Some(RpcErrorView { code, message }),
        }
    }
}

impl JsonRpcResponse {
    /// A response with a result.
    pub fn ok(id: serde_json::Value, result: serde_json::Value) -> (r: JsonRpcResponse)
        ensures
            r@ == RpcResponseView::success(json::json_model(id), json::json_model(result)),
    {
        JsonRpcResponse { jsonrpc: "2.0".to_string(), id, result: Some(result), error: None }
    }

    /// A response with an error.
    pub fn error(id: serde_json::Value, code: i64, message: String) -> (r: JsonRpcResponse)
        ensures
            r@ == RpcResponseView::failure(json::json_model(id), code as int, message@),
    {
        JsonRpcResponse {
            jsonrpc: "2.0".to_string(),
            id,
            result: None,
            error: Some(JsonRpcError { code, message }),
        }
    }
}

} // verus!
