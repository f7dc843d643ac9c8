//! Requests and responses of the command API.

use vstd::prelude::*;

use crate::direction::Direction;
use crate::presentation::{NodeView, PresentationNode};
use crate::sorted_map::clone_all;
use crate::text;

verus! {

/// A structured command from an API client (e.g. the MCP bridge).
#[allow(inconsistent_fields)]
#[derive(Debug, PartialEq)]
pub enum ApiRequest {
    Connect,
    ConnectAs { actor: String },
    Look { session: u64 },
    Move { session: u64, direction: Direction },
    Dig { session: u64, direction: Direction, id: String, name: String, description: String },
    Disconnect { session: u64 },
}

#[allow(inconsistent_fields)]
pub enum RequestView {
    Connect,
    ConnectAs { actor: text::Text },
    Look { session: u64 },
    Move { session: u64, direction: Direction },
    Dig {
        session: u64,
        direction: Direction,
        id: text::Text,
        name: text::Text,
        description: text::Text,
    },
    Disconnect { session: u64 },
}

impl View for ApiRequest {
    type V = RequestView;

    open spec fn view(&self) -> RequestView {
        match self {
            ApiRequest::Connect => RequestView::Connect,
            ApiRequest::ConnectAs { actor } => RequestView::ConnectAs { actor: actor@ },
            ApiRequest::Look { session } => RequestView::Look { session: *session },
            ApiRequest::Move { session, direction } => RequestView::Move {
                session: *session,
                direction: *direction,
            },
            ApiRequest::Dig { session, direction, id, name, description } => RequestView::Dig {
                session: *session,
                direction: *direction,
                id: id@,
                name: name@,
                description: description@,
            },
            ApiRequest::Disconnect { session } => RequestView::Disconnect { session: *session },
        }
    }
}

/// A structured response to an API client.
#[derive(Debug, PartialEq)]
pub enum ApiResponse {
    Connected { session: u64, actor: String, view: Vec<PresentationNode> },
    Okay { messages: Vec<PresentationNode> },
    Error { message: String },
}

pub enum ResponseView {
    Connected { session: u64, actor: text::Text, view: Seq<NodeView> },
    Okay { messages: Seq<NodeView> },
    Error { message: text::Text },
}

impl View for ApiResponse {
    type V = ResponseView;

    open spec fn view(&self) -> ResponseView {
        match self {
            ApiResponse::Connected { session, actor, view } => ResponseView::Connected {
                session: *session,
                actor: actor@,
                view: text::views(view@),
            },
            ApiResponse::Okay { messages } => ResponseView::Okay { messages: text::views(messages@) },
            ApiResponse::Error { message } => ResponseView::Error { message: message@ },
        }
    }
}

impl Clone for ApiResponse {
    fn clone(&self) -> (r: ApiResponse)
        ensures
            r@ == self@,
    {
        match self {
            ApiResponse::Connected { session, actor, view } => ApiResponse::Connected {
                session: *session,
                actor: actor.clone(),
                view: clone_all(view),
            },
            ApiResponse::Okay { messages } => ApiResponse::Okay { messages: clone_all(messages) },
            ApiResponse::Error { message } => ApiResponse::Error { message: message.clone() },
        }
    }
}

} // verus!
