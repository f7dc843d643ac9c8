//! Semantic units of output. Transports give them their form.

use vstd::prelude::*;

use crate::direction::Direction;
use crate::sorted_map::clone_all;
use crate::text;

verus! {

/// Semantic role of a span of text.
#[derive(Debug, Clone, Copy, PartialEq, Eq, Structural)]
pub enum Role {
    Default,
    Actor,
}

/// A run of text carrying one semantic role.
#[derive(Debug, PartialEq)]
pub struct Span {
    pub text: String,
    pub role: Role,
}

pub struct SpanView {
    pub text: text::Text,
    pub role: Role,
}

impl View for Span {
    type V = SpanView;

    open spec fn view(&self) -> SpanView {
        SpanView { text: self.text@, role: self.role }
    }
}

impl Clone for Span {
    fn clone(&self) -> (r: Span)
        ensures
            r@ == self@,
    {
        Span { text: self.text.clone(), role: self.role }
    }
}

/// A span in the default role.
pub open spec fn plain_span(t: text::Text) -> SpanView {
    SpanView { text: t, role: Role::Default }
}

/// A span naming an actor.
pub open spec fn actor_span(t: text::Text) -> SpanView {
    SpanView { text: t, role: Role::Actor }
}

impl Span {
    pub fn plain(text: &str) -> (r: Span)
        ensures
            r@ == plain_span(text@),
    {
        Span { text: text.to_string(), role: Role::Default }
    }

    pub fn actor(text: &str) -> (r: Span)
        ensures
            r@ == actor_span(text@),
    {
        Span { text: text.to_string(), role: Role::Actor }
    }
}

/// A single `Default`-role span: the common case for plain/authored text.
pub fn plain_text(text: &str) -> (r: Vec<Span>)
    ensures
        text::views(r@) == seq![plain_span(text@)],
{
    let mut spans: Vec<Span> = Vec::new();
    spans.push(Span::plain(text));
    assert(text::views(spans@) =~= seq![plain_span(text@)]);
    spans
}

/// A semantic unit of output. Transports render these (telnet) or pass them as
/// structured data (the command API); the core never emits formatted text.
#[derive(Debug, PartialEq)]
pub enum PresentationNode {
    RoomName(String),
    RoomDescription(Vec<Span>),
    Exits(Vec<Direction>),
    Occupants(Vec<Span>),
    Line(Vec<Span>),
    Denied(Vec<Span>),
    Prompt,
}

pub enum NodeView {
    RoomName(text::Text),
    RoomDescription(Seq<SpanView>),
    Exits(Seq<Direction>),
    Occupants(Seq<SpanView>),
    Line(Seq<SpanView>),
    Denied(Seq<SpanView>),
    Prompt,
}

impl View for PresentationNode {
    type V = NodeView;

    open spec fn view(&self) -> NodeView {
        match self {
            PresentationNode::RoomName(s) => NodeView::RoomName(s@),
            PresentationNode::RoomDescription(spans) => NodeView::RoomDescription(
                text::views(spans@),
            ),
            PresentationNode::Exits(dirs) => NodeView::Exits(dirs@),
            PresentationNode::Occupants(spans) => NodeView::Occupants(text::views(spans@)),
            PresentationNode::Line(spans) => NodeView::Line(text::views(spans@)),
            PresentationNode::Denied(spans) => NodeView::Denied(text::views(spans@)),
            PresentationNode::Prompt => NodeView::Prompt,
        }
    }
}

impl Clone for PresentationNode {
    fn clone(&self) -> (r: PresentationNode)
        ensures
            r@ == self@,
    {
        match self {
            PresentationNode::RoomName(s) => PresentationNode::RoomName(s.clone()),
            PresentationNode::RoomDescription(spans) => PresentationNode::RoomDescription(
                clone_all(spans),
            ),
            PresentationNode::Exits(dirs) => {
                let copy = dirs.clone();
                assert(copy@ =~= dirs@);
                PresentationNode::Exits(copy)
            },
            PresentationNode::Occupants(spans) => PresentationNode::Occupants(clone_all(spans)),
            PresentationNode::Line(spans) => PresentationNode::Line(clone_all(spans)),
            PresentationNode::Denied(spans) => PresentationNode::Denied(clone_all(spans)),
            PresentationNode::Prompt => PresentationNode::Prompt,
        }
    }
}

/// A line of plain text.
pub open spec fn plain_line(t: text::Text) -> NodeView {
    NodeView::Line(seq![plain_span(t)])
}

/// A refusal in plain text.
pub open spec fn plain_denial(t: text::Text) -> NodeView {
    NodeView::Denied(seq![plain_span(t)])
}

} // verus!
