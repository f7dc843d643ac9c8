//! Presentation as telnet wire text.

use vstd::prelude::*;

use crate::direction::Direction;
use crate::fabric::intent::IntentView;
use crate::presentation::{NodeView, PresentationNode, Role, Span, SpanView};
use crate::text;

verus! {

/// Whether escape codes are used.
#[derive(Debug, Clone, Copy, PartialEq, Eq, Structural)]
pub enum RenderStyle {
    Ansi,
    Plain,
}

/// The word for a direction.
pub open spec fn direction_word(d: Direction) -> text::Text {
    match d {
        Direction::North => "north"@,
        Direction::South => "south"@,
        Direction::East => "east"@,
        Direction::West => "west"@,
        Direction::Up => "up"@,
        Direction::Down => "down"@,
    }
}

/// `t` between an escape code and the code that resets it, where a code is given
/// and codes are used.
pub open spec fn styled_text(t: text::Text, code: Option<text::Text>, style: RenderStyle) -> text::Text {
    match (style, code) {
        (RenderStyle::Ansi, Some(c)) => c + t + "\x1b[0m"@,
        _ => t,
    }
}

/// The escape code for a role: actors are cyan.
pub open spec fn role_code(role: Role) -> Option<text::Text> {
    match role {
        Role::Default => None,
        Role::Actor => Some("\x1b[36m"@),
    }
}

/// A span in the colour of its role.
pub open spec fn span_text(span: SpanView, style: RenderStyle) -> text::Text {
    styled_text(span.text, role_code(span.role), style)
}

/// The spans, each in the colour of its role.
pub open spec fn span_texts(spans: Seq<SpanView>, style: RenderStyle) -> Seq<text::Text> {
    Seq::new(spans.len(), |i: int| span_text(spans[i], style))
}

/// The bare texts of the spans.
pub open spec fn bare_texts(spans: Seq<SpanView>) -> Seq<text::Text> {
    Seq::new(spans.len(), |i: int| spans[i].text)
}

/// The words for the directions.
pub open spec fn direction_words(dirs: Seq<Direction>) -> Seq<text::Text> {
    Seq::new(dirs.len(), |i: int| direction_word(dirs[i]))
}

/// The line for a node. An empty list of occupants has none.
pub open spec fn node_line(node: NodeView, style: RenderStyle) -> Option<text::Text> {
    match node {
        NodeView::RoomName(s) => Some(styled_text(s, Some("\x1b[1m"@), style)),
        NodeView::RoomDescription(spans) => Some(text::joined(span_texts(spans, style), ""@)),
        NodeView::Exits(dirs) => {
            let body = if dirs.len() == 0 {
                "Exits: none"@
            } else {
                "Exits: "@ + text::joined(direction_words(dirs), ", "@)
            };
            Some(styled_text(body, Some("\x1b[2m"@), style))
        },
        NodeView::Occupants(spans) => if spans.len() == 0 {
            None
        } else {
            Some("Also here: "@ + text::joined(span_texts(spans, style), ", "@))
        },
        NodeView::Line(spans) => Some(text::joined(span_texts(spans, style), ""@)),
        NodeView::Denied(spans) => Some(
            styled_text(text::joined(bare_texts(spans), ""@), Some("\x1b[31m"@), style),
        ),
        NodeView::Prompt => Some(styled_text(">"@, Some("\x1b[2m"@), style)),
    }
}

/// The wire text of a node: its line and a line ending, if it has a line.
pub open spec fn node_wire(node: NodeView, style: RenderStyle) -> text::Text {
    match node_line(node, style) {
        Some(line) => line + "\r\n"@,
        None => seq![],
    }
}

/// The wire text of a batch of nodes.
pub open spec fn wire(nodes: Seq<NodeView>, style: RenderStyle) -> text::Text
    decreases nodes.len(),
{
    if nodes.len() == 0 {
        seq![]
    } else {
        wire(nodes.drop_last(), style) + node_wire(nodes.last(), style)
    }
}

fn direction_name(dir: Direction) -> (r: &'static str)
    ensures
        r@ == direction_word(dir),
{
    match dir {
        Direction::North => "north",
        Direction::South => "south",
        Direction::East => "east",
        Direction::West => "west",
        Direction::Up => "up",
        Direction::Down => "down",
    }
}

fn role_sgr(role: Role) -> (r: Option<&'static str>)
    ensures
        text::opt_view(r) == role_code(role),
{
    match role {
        Role::Default => None,
        Role::Actor => Some("\x1b[36m"),  // cyan
    }
}

/// Wrap `t` in `sgr` + reset when Ansi and a code is given; else return `t`.
fn styled(t: &str, sgr: Option<&str>, style: RenderStyle) -> (r: String)
    ensures
        r@ == styled_text(t@, text::opt_view(sgr), style),
{
    match (style, sgr) {
        (RenderStyle::Ansi, Some(code)) => text::join_three(code, t, "\x1b[0m"),
        _ => t.to_string(),
    }
}

/// Render one span, applying its role colour in Ansi mode.
fn render_span(span: &Span, style: RenderStyle) -> (r: String)
    ensures
        r@ == span_text(span@, style),
{
    styled(span.text.as_str(), role_sgr(span.role), style)
}

fn render_spans(spans: &Vec<Span>, style: RenderStyle, separator: &str) -> (r: String)
    ensures
        r@ == text::joined(span_texts(text::views(spans@), style), separator@),
{
    let mut parts: Vec<String> = Vec::new();
    for i in 0..spans.len()
        invariant
            parts@.len() == i,
            forall|j: int| 0 <= j < i ==> (#[trigger] parts@[j])@ == span_text(spans@[j]@, style),
    {
        parts.push(render_span(&spans[i], style));
    }
    assert(text::views(parts@) =~= span_texts(text::views(spans@), style));
    text::join(&parts, separator)
}

fn render_node(node: &PresentationNode, style: RenderStyle) -> (r: Option<String>)
    ensures
        text::opt_view(r) == node_line(node@, style),
{
    match node {
        PresentationNode::RoomName(s) => Some(styled(s.as_str(), Some("\x1b[1m"), style)),  // bold
        PresentationNode::RoomDescription(spans) => Some(render_spans(spans, style, "")),
        PresentationNode::Exits(dirs) => {
            let body = if dirs.len() == 0 {
                "Exits: none".to_string()
            } else {
                let mut names: Vec<String> = Vec::new();
                for i in 0..dirs.len()
                    invariant
                        names@.len() == i,
                        forall|j: int|
                            0 <= j < i ==> (#[trigger] names@[j])@ == direction_word(dirs@[j]),
                {
                    names.push(direction_name(dirs[i]).to_string());
                }
                assert(text::views(names@) =~= direction_words(dirs@));
                text::join_two("Exits: ", text::join(&names, ", ").as_str())
            };
            Some(styled(body.as_str(), Some("\x1b[2m"), style))  // dim
        },
        PresentationNode::Occupants(spans) => if spans.len() == 0 {
            None  // don't render an empty "Also here:" line
        } else {
            Some(text::join_two("Also here: ", render_spans(spans, style, ", ").as_str()))
        },
        PresentationNode::Line(spans) => Some(render_spans(spans, style, "")),
        PresentationNode::Denied(spans) => {
            // The whole line has the denial's colour, whatever roles its spans have.
            let mut parts: Vec<String> = Vec::new();
            for i in 0..spans.len()
                invariant
                    parts@.len() == i,
                    forall|j: int| 0 <= j < i ==> (#[trigger] parts@[j])@ == spans@[j]@.text,
            {
                parts.push(spans[i].text.clone());
            }
            assert(text::views(parts@) =~= bare_texts(text::views(spans@)));
            let body = text::join(&parts, "");
            Some(styled(body.as_str(), Some("\x1b[31m"), style))  // red
        },
        PresentationNode::Prompt => Some(styled(">", Some("\x1b[2m"), style)),  // dim
    }
}

/// Render a batch of presentation nodes to telnet wire text (CRLF line endings).
pub fn render(nodes: &[PresentationNode], style: RenderStyle) -> (r: String)
    ensures
        r@ == wire(text::views(nodes@), style),
{
    let ghost all = text::views(nodes@);
    let mut out = String::new();
    assert(out@ =~= wire(all.take(0), style));
    for i in 0..nodes.len()
        invariant
            all == text::views(nodes@),
            out@ == wire(all.take(i as int), style),
    {
        proof {
            assert(all.take(i + 1).drop_last() =~= all.take(i as int));
            assert(all.take(i + 1).last() == all[i as int]);
        }
        let ghost before = out@;
        if let Some(line) = render_node(&nodes[i], style) {
            out.append(line.as_str());
            out.append("\r\n");
            assert(out@ =~= before + (line@ + "\r\n"@));
        } else {
            assert(before =~= before + seq![]);
        }
    }
    assert(all.take(nodes@.len() as int) =~= all);
    out
}

/// The style for a setting: escape codes are used unless it says not to.
pub fn style_for(setting: Option<&str>) -> (r: RenderStyle)
    ensures
        r == match setting {
            Some(s) => if s@ == "0"@ || s@ == "false"@ || s@ == "off"@ {
                RenderStyle::Plain
            } else {
                RenderStyle::Ansi
            },
            None => RenderStyle::Ansi,
        },
{
    match setting {
        Some(s) => if text::same(s, "0") || text::same(s, "false") || text::same(s, "off") {
            RenderStyle::Plain
        } else {
            RenderStyle::Ansi
        },
        None => RenderStyle::Ansi,
    }
}

// ---------------------------------------------------------------------------
// Laws
// ---------------------------------------------------------------------------

/// Batches render one after the other: the wire text of two batches is that of
/// the first and that of the second.
pub proof fn lemma_batches_render_in_sequence(
    a: Seq<NodeView>,
    b: Seq<NodeView>,
    style: RenderStyle,
)
    ensures
        wire(a + b, style) == wire(a, style) + wire(b, style),
    decreases b.len(),
{
    if b.len() == 0 {
        assert(a + b =~= a);
        assert(wire(a, style) + wire(b, style) =~= wire(a, style));
    } else {
        lemma_batches_render_in_sequence(a, b.drop_last(), style);
        assert((a + b).drop_last() =~= a + b.drop_last());
        assert((a + b).last() == b.last());
        assert(wire(a, style) + (wire(b.drop_last(), style) + node_wire(b.last(), style)) =~= (wire(
            a,
            style,
        ) + wire(b.drop_last(), style)) + node_wire(b.last(), style));
    }
}

/// What goes out is made of whole lines: it is empty, or ends in CR LF.
pub proof fn lemma_output_ends_in_line_ending(nodes: Seq<NodeView>, style: RenderStyle)
    ensures
        ({
            let t = wire(nodes, style);
            t.len() == 0 || t.len() >= 2 && t[t.len() - 2] == '\r' && t[t.len() - 1] == '\n'
        }),
    decreases nodes.len(),
{
    if nodes.len() > 0 {
        reveal_strlit("\r\n");
        lemma_output_ends_in_line_ending(nodes.drop_last(), style);
        let front = wire(nodes.drop_last(), style);
        let t = wire(nodes, style);
        match node_line(nodes.last(), style) {
            Some(line) => {
                let last = line + "\r\n"@;
                assert(t == front + last);
                assert(t[t.len() - 2] == last[last.len() - 2]);
                assert(t[t.len() - 1] == last[last.len() - 1]);
            },
            None => {
                assert(t =~= front);
            },
        }
    }
}

/// Whether a text holds no escape character.
pub open spec fn escape_free(t: text::Text) -> bool {
    !t.contains('\x1b')
}

/// Whether the texts of the spans hold no escape character.
pub open spec fn spans_escape_free(spans: Seq<SpanView>) -> bool {
    forall|i: int| 0 <= i < spans.len() ==> escape_free(#[trigger] spans[i].text)
}

/// Whether the texts that a node carries hold no escape character.
pub open spec fn node_escape_free(node: NodeView) -> bool {
    match node {
        NodeView::RoomName(s) => escape_free(s),
        NodeView::RoomDescription(spans) => spans_escape_free(spans),
        NodeView::Exits(_) => true,
        NodeView::Occupants(spans) => spans_escape_free(spans),
        NodeView::Line(spans) => spans_escape_free(spans),
        NodeView::Denied(spans) => spans_escape_free(spans),
        NodeView::Prompt => true,
    }
}

proof fn lemma_escape_free_add(a: text::Text, b: text::Text)
    requires
        escape_free(a),
        escape_free(b),
    ensures
        escape_free(a + b),
{
    if (a + b).contains('\x1b') {
        let i = choose|i: int| 0 <= i < (a + b).len() && (a + b)[i] == '\x1b';
        if i < a.len() {
            assert(a[i] == '\x1b');
        } else {
            assert(b[i - a.len()] == '\x1b');
        }
    }
}

proof fn lemma_escape_free_joined(parts: Seq<text::Text>, separator: text::Text)
    requires
        forall|i: int| 0 <= i < parts.len() ==> escape_free(#[trigger] parts[i]),
        escape_free(separator),
    ensures
        escape_free(text::joined(parts, separator)),
    decreases parts.len(),
{
    if parts.len() > 1 {
        let front = text::joined(parts.drop_last(), separator);
        lemma_escape_free_joined(parts.drop_last(), separator);
        lemma_escape_free_add(front, separator);
        assert(escape_free(parts[parts.len() - 1]));
        lemma_escape_free_add(front + separator, parts.last());
    } else if parts.len() == 1 {
        assert(escape_free(parts[0]));
    }
}

proof fn lemma_plain_line_is_escape_free(node: NodeView)
    requires
        node_escape_free(node),
    ensures
        node_line(node, RenderStyle::Plain) matches Some(line) ==> escape_free(line),
{
    let style = RenderStyle::Plain;
    reveal_strlit("");
    reveal_strlit(", ");
    reveal_strlit("Exits: none");
    reveal_strlit("Exits: ");
    reveal_strlit("Also here: ");
    reveal_strlit(">");
    reveal_strlit("north");
    reveal_strlit("south");
    reveal_strlit("east");
    reveal_strlit("west");
    reveal_strlit("up");
    reveal_strlit("down");
    match node {
        NodeView::RoomName(_) => {},
        NodeView::RoomDescription(spans) => {
            assert forall|i: int| 0 <= i < spans.len() implies escape_free(
                #[trigger] span_texts(spans, style)[i],
            ) by {
                assert(escape_free(spans[i].text));
            }
            lemma_escape_free_joined(span_texts(spans, style), ""@);
        },
        NodeView::Line(spans) => {
            assert forall|i: int| 0 <= i < spans.len() implies escape_free(
                #[trigger] span_texts(spans, style)[i],
            ) by {
                assert(escape_free(spans[i].text));
            }
            lemma_escape_free_joined(span_texts(spans, style), ""@);
        },
        NodeView::Exits(dirs) => {
            lemma_escape_free_joined(direction_words(dirs), ", "@);
            lemma_escape_free_add("Exits: "@, text::joined(direction_words(dirs), ", "@));
        },
        NodeView::Occupants(spans) => {
            assert forall|i: int| 0 <= i < spans.len() implies escape_free(
                #[trigger] span_texts(spans, style)[i],
            ) by {
                assert(escape_free(spans[i].text));
            }
            lemma_escape_free_joined(span_texts(spans, style), ", "@);
            lemma_escape_free_add("Also here: "@, text::joined(span_texts(spans, style), ", "@));
        },
        NodeView::Denied(spans) => {
            assert forall|i: int| 0 <= i < spans.len() implies escape_free(
                #[trigger] bare_texts(spans)[i],
            ) by {
                assert(escape_free(spans[i].text));
            }
            lemma_escape_free_joined(bare_texts(spans), ""@);
        },
        NodeView::Prompt => {},
    }
}

/// Plain mode emits no escape codes of its own: where no text in the nodes holds
/// an escape character, neither does the wire text.
pub proof fn lemma_plain_mode_is_unstyled(nodes: Seq<NodeView>)
    requires
        forall|i: int| 0 <= i < nodes.len() ==> node_escape_free(#[trigger] nodes[i]),
    ensures
        escape_free(wire(nodes, RenderStyle::Plain)),
    decreases nodes.len(),
{
    if nodes.len() > 0 {
        let front = nodes.drop_last();
        lemma_plain_mode_is_unstyled(front);
        assert(node_escape_free(nodes[nodes.len() - 1]));
        lemma_plain_line_is_escape_free(nodes.last());
        reveal_strlit("\r\n");
        match node_line(nodes.last(), RenderStyle::Plain) {
            Some(line) => {
                lemma_escape_free_add(line, "\r\n"@);
            },
            None => {},
        }
        lemma_escape_free_add(
            wire(front, RenderStyle::Plain),
            node_wire(nodes.last(), RenderStyle::Plain),
        );
    }
}

/// `t` with the escape codes taken out, each from an escape character to the next
/// `m`; `inside` tells whether `t` begins within one.
pub open spec fn stripped(t: text::Text, inside: bool) -> text::Text
    decreases t.len(),
{
    if t.len() == 0 {
        seq![]
    } else if inside {
        stripped(t.drop_first(), t[0] != 'm')
    } else if t[0] == '\x1b' {
        stripped(t.drop_first(), true)
    } else {
        seq![t[0]] + stripped(t.drop_first(), false)
    }
}

proof fn lemma_text_is_kept(a: text::Text, b: text::Text)
    requires
        escape_free(a),
    ensures
        stripped(a + b, false) == a + stripped(b, false),
    decreases a.len(),
{
    if a.len() == 0 {
        assert(a + b =~= b);
        assert(a + stripped(b, false) =~= stripped(b, false));
    } else {
        let rest = a.drop_first();
        assert(a.contains(a[0]));
        if rest.contains('\x1b') {
            let i = choose|i: int| 0 <= i < rest.len() && rest[i] == '\x1b';
            assert(a[i + 1] == '\x1b');
        }
        lemma_text_is_kept(rest, b);
        assert((a + b).drop_first() =~= rest + b);
        assert((a + b)[0] == a[0]);
        assert(seq![a[0]] + (rest + stripped(b, false)) =~= a + stripped(b, false));
    }
}

proof fn lemma_code_tail_is_dropped(c: text::Text, b: text::Text)
    requires
        c.len() > 0,
        c.last() == 'm',
        forall|i: int| 0 <= i < c.len() - 1 ==> #[trigger] c[i] != 'm',
    ensures
        stripped(c + b, true) == stripped(b, false),
    decreases c.len(),
{
    assert((c + b)[0] == c[0]);
    if c.len() == 1 {
        assert((c + b).drop_first() =~= b);
    } else {
        let rest = c.drop_first();
        assert((c + b).drop_first() =~= rest + b);
        lemma_code_tail_is_dropped(rest, b);
    }
}

/// Whether `c` is an escape code.
pub open spec fn is_code(c: text::Text) -> bool {
    &&& c.len() > 1
    &&& c[0] == '\x1b'
    &&& c.last() == 'm'
    &&& forall|i: int| 0 <= i < c.len() - 1 ==> #[trigger] c[i] != 'm'
}

proof fn lemma_code_is_dropped(c: text::Text, b: text::Text)
    requires
        is_code(c),
    ensures
        stripped(c + b, false) == stripped(b, false),
{
    assert((c + b)[0] == c[0]);
    assert((c + b).drop_first() =~= c.drop_first() + b);
    lemma_code_tail_is_dropped(c.drop_first(), b);
}

proof fn lemma_style_is_dropped(t: text::Text, code: Option<text::Text>, b: text::Text)
    requires
        escape_free(t),
        code matches Some(c) ==> is_code(c),
    ensures
        stripped(styled_text(t, code, RenderStyle::Ansi) + b, false) == t + stripped(b, false),
{
    match code {
        Some(c) => {
            let reset = "\x1b[0m"@;
            reveal_strlit("\x1b[0m");
            assert(c + t + reset + b =~= c + (t + (reset + b)));
            lemma_code_is_dropped(c, t + (reset + b));
            lemma_text_is_kept(t, reset + b);
            lemma_code_is_dropped(reset, b);
        },
        None => {
            lemma_text_is_kept(t, b);
        },
    }
}

proof fn lemma_role_codes_are_codes(role: Role)
    ensures
        role_code(role) matches Some(c) ==> is_code(c),
{
    reveal_strlit("\x1b[36m");
}

proof fn lemma_spans_keep_their_text(spans: Seq<SpanView>, separator: text::Text, b: text::Text)
    requires
        spans_escape_free(spans),
        escape_free(separator),
    ensures
        stripped(text::joined(span_texts(spans, RenderStyle::Ansi), separator) + b, false)
            == text::joined(span_texts(spans, RenderStyle::Plain), separator) + stripped(b, false),
    decreases spans.len(),
{
    let styled = span_texts(spans, RenderStyle::Ansi);
    let plain = span_texts(spans, RenderStyle::Plain);
    if spans.len() == 0 {
        lemma_text_is_kept(seq![], b);
    } else {
        let last = spans.last();
        assert(escape_free(spans[spans.len() - 1].text));
        lemma_role_codes_are_codes(last.role);
        lemma_style_is_dropped(last.text, role_code(last.role), b);
        if spans.len() > 1 {
            let front = spans.drop_last();
            assert forall|i: int| 0 <= i < front.len() implies escape_free(
                #[trigger] front[i].text,
            ) by {
                assert(spans[i].text == front[i].text);
            }
            assert(styled.drop_last() =~= span_texts(front, RenderStyle::Ansi));
            assert(plain.drop_last() =~= span_texts(front, RenderStyle::Plain));
            let after = separator + (styled.last() + b);
            lemma_spans_keep_their_text(front, separator, after);
            lemma_text_is_kept(separator, styled.last() + b);
            let x = text::joined(styled.drop_last(), separator);
            let y = text::joined(plain.drop_last(), separator);
            assert(x + separator + styled.last() + b =~= x + after);
            assert(y + (separator + (last.text + stripped(b, false))) =~= y + separator
                + plain.last() + stripped(b, false));
        }
    }
}

/// Styling only adds escape codes: taking them out of a styled line gives the plain
/// line, and where there is no line in one mode there is none in the other.
pub proof fn lemma_styled_line_is_plain_line(node: NodeView)
    requires
        node_escape_free(node),
    ensures
        node_line(node, RenderStyle::Ansi) is None <==> (
        node matches NodeView::Occupants(spans) && spans.len() == 0),
        match (node_line(node, RenderStyle::Ansi), node_line(node, RenderStyle::Plain)) {
            (Some(styled), Some(plain)) => stripped(styled, false) == plain,
            (None, None) => true,
            _ => false,
        },
{
    if let Some(styled) = node_line(node, RenderStyle::Ansi) {
        lemma_styled_line_in_context(node, seq![]);
        let plain = node_line(node, RenderStyle::Plain)->0;
        assert(styled + seq![] =~= styled);
        assert(plain + stripped(seq![], false) =~= plain);
    }
}

proof fn lemma_styled_line_in_context(node: NodeView, b: text::Text)
    requires
        node_escape_free(node),
        node_line(node, RenderStyle::Ansi) is Some,
    ensures
        node_line(node, RenderStyle::Plain) is Some,
        stripped(node_line(node, RenderStyle::Ansi)->0 + b, false) == node_line(
            node,
            RenderStyle::Plain,
        )->0 + stripped(b, false),
{
    reveal_strlit("");
    reveal_strlit(", ");
    reveal_strlit("Exits: none");
    reveal_strlit("Exits: ");
    reveal_strlit("Also here: ");
    reveal_strlit(">");
    reveal_strlit("\x1b[1m");
    reveal_strlit("\x1b[2m");
    reveal_strlit("\x1b[31m");
    lemma_plain_line_is_escape_free(node);
    match node {
        NodeView::RoomName(s) => {
            lemma_style_is_dropped(s, Some("\x1b[1m"@), b);
        },
        NodeView::RoomDescription(spans) => {
            lemma_spans_keep_their_text(spans, ""@, b);
        },
        NodeView::Line(spans) => {
            lemma_spans_keep_their_text(spans, ""@, b);
        },
        NodeView::Exits(_) => {
            let body = node_line(node, RenderStyle::Plain)->0;
            lemma_style_is_dropped(body, Some("\x1b[2m"@), b);
        },
        NodeView::Occupants(spans) => {
            let names = text::joined(span_texts(spans, RenderStyle::Ansi), ", "@);
            let plain = text::joined(span_texts(spans, RenderStyle::Plain), ", "@);
            lemma_spans_keep_their_text(spans, ", "@, b);
            lemma_text_is_kept("Also here: "@, names + b);
            assert("Also here: "@ + names + b =~= "Also here: "@ + (names + b));
            assert("Also here: "@ + (plain + stripped(b, false)) =~= "Also here: "@ + plain
                + stripped(b, false));
        },
        NodeView::Denied(spans) => {
            let body = node_line(node, RenderStyle::Plain)->0;
            lemma_style_is_dropped(body, Some("\x1b[31m"@), b);
        },
        NodeView::Prompt => {
            lemma_style_is_dropped(">"@, Some("\x1b[2m"@), b);
        },
    }
}

/// Taking the escape codes out of what is sent in styled mode gives what is sent in
/// plain mode, where no text in the nodes holds an escape character.
pub proof fn lemma_styled_output_is_plain_output(nodes: Seq<NodeView>)
    requires
        forall|i: int| 0 <= i < nodes.len() ==> node_escape_free(#[trigger] nodes[i]),
    ensures
        stripped(wire(nodes, RenderStyle::Ansi), false) == wire(nodes, RenderStyle::Plain),
{
    lemma_styled_output_in_context(nodes, seq![]);
    assert(wire(nodes, RenderStyle::Ansi) + seq![] =~= wire(nodes, RenderStyle::Ansi));
    assert(wire(nodes, RenderStyle::Plain) + stripped(seq![], false) =~= wire(
        nodes,
        RenderStyle::Plain,
    ));
}

proof fn lemma_styled_output_in_context(nodes: Seq<NodeView>, b: text::Text)
    requires
        forall|i: int| 0 <= i < nodes.len() ==> node_escape_free(#[trigger] nodes[i]),
    ensures
        stripped(wire(nodes, RenderStyle::Ansi) + b, false) == wire(nodes, RenderStyle::Plain)
            + stripped(b, false),
    decreases nodes.len(),
{
    if nodes.len() == 0 {
        lemma_text_is_kept(seq![], b);
    } else {
        let front = nodes.drop_last();
        let last = nodes.last();
        assert(node_escape_free(nodes[nodes.len() - 1]));
        let styled = node_wire(last, RenderStyle::Ansi);
        let plain = node_wire(last, RenderStyle::Plain);
        assert(stripped(styled + b, false) == plain + stripped(b, false)) by {
            lemma_styled_line_is_plain_line(last);
            match node_line(last, RenderStyle::Ansi) {
                Some(line) => {
                    reveal_strlit("\r\n");
                    let plain_line = node_line(last, RenderStyle::Plain)->0;
                    assert(line + "\r\n"@ + b =~= line + ("\r\n"@ + b));
                    lemma_styled_line_in_context(last, "\r\n"@ + b);
                    lemma_text_is_kept("\r\n"@, b);
                    assert(plain_line + ("\r\n"@ + stripped(b, false)) =~= plain_line + "\r\n"@
                        + stripped(b, false));
                },
                None => {
                    assert(styled + b =~= b);
                    assert(plain + stripped(b, false) =~= stripped(b, false));
                },
            }
        }
        lemma_styled_output_in_context(front, styled + b);
        let x = wire(front, RenderStyle::Ansi);
        let y = wire(front, RenderStyle::Plain);
        assert(x + styled + b =~= x + (styled + b));
        assert(y + (plain + stripped(b, false)) =~= y + plain + stripped(b, false));
    }
}

// ---------------------------------------------------------------------------
// The lines
// ---------------------------------------------------------------------------

/// Whether `line` is `plain`, between the escape code and the code that resets it where
/// codes are used.
pub open spec fn coloured(
    line: text::Text,
    code: text::Text,
    plain: text::Text,
    style: RenderStyle,
) -> bool {
    match style {
        RenderStyle::Ansi => line == code + plain + "\x1b[0m"@,
        RenderStyle::Plain => line == plain,
    }
}

/// Whether `line` is the text of the span: cyan where it names an actor.
pub open spec fn spelled(line: text::Text, span: SpanView, style: RenderStyle) -> bool {
    match span.role {
        Role::Default => line == span.text,
        Role::Actor => coloured(line, "\x1b[36m"@, span.text, style),
    }
}

/// The name of a room is bold, the prompt is dim.
pub proof fn lemma_names_and_prompts(name: text::Text, style: RenderStyle)
    ensures
        node_line(NodeView::RoomName(name), style) is Some,
        coloured(node_line(NodeView::RoomName(name), style)->0, "\x1b[1m"@, name, style),
        node_line(NodeView::Prompt, style) is Some,
        coloured(node_line(NodeView::Prompt, style)->0, "\x1b[2m"@, ">"@, style),
{
}

/// A description and a line are their spans, one behind the other.
pub proof fn lemma_lines_are_their_spans(
    spans: Seq<SpanView>,
    span: SpanView,
    style: RenderStyle,
)
    ensures
        node_line(NodeView::Line(Seq::empty()), style) == Some(Seq::<char>::empty()),
        node_line(NodeView::Line(spans), style) is Some,
        node_line(NodeView::RoomDescription(spans), style) == node_line(
            NodeView::Line(spans),
            style,
        ),
        exists|t: text::Text| #[trigger]
            spelled(t, span, style) && node_line(NodeView::Line(spans.push(span)), style) == Some(
                node_line(NodeView::Line(spans), style)->0 + t,
            ),
{
    let none = Seq::<SpanView>::empty();
    assert(span_texts(none, style) =~= seq![]);
    let t = span_text(span, style);
    assert(spelled(t, span, style));
    let before = span_texts(spans, style);
    lemma_one_more_part(before, t, ""@);
    assert(span_texts(spans.push(span), style) =~= before.push(t));
}

proof fn lemma_one_more_part(parts: Seq<text::Text>, part: text::Text, separator: text::Text)
    requires
        separator == ""@,
    ensures
        text::joined(parts.push(part), separator) == text::joined(parts, separator) + part,
{
    reveal_strlit("");
    text::lemma_joining(parts, part, separator);
    let whole = text::joined(parts, separator);
    if parts.len() == 0 {
        assert(parts.push(part) =~= seq![part]);
        assert(whole + part =~= part);
    } else {
        assert(whole + separator =~= whole);
    }
}

/// A refusal is the bare texts of its spans, one behind the other, in red as a whole.
pub proof fn lemma_refusals_are_red(spans: Seq<SpanView>, span: SpanView, style: RenderStyle)
    ensures
        node_line(NodeView::Denied(Seq::empty()), RenderStyle::Plain) == Some(Seq::<char>::empty()),
        node_line(NodeView::Denied(spans), RenderStyle::Plain) is Some,
        node_line(NodeView::Denied(spans.push(span)), RenderStyle::Plain) == Some(
            node_line(NodeView::Denied(spans), RenderStyle::Plain)->0 + span.text,
        ),
        node_line(NodeView::Denied(spans), style) is Some,
        coloured(
            node_line(NodeView::Denied(spans), style)->0,
            "\x1b[31m"@,
            node_line(NodeView::Denied(spans), RenderStyle::Plain)->0,
            style,
        ),
{
    let none = Seq::<SpanView>::empty();
    assert(bare_texts(none) =~= seq![]);
    let before = bare_texts(spans);
    lemma_one_more_part(before, span.text, ""@);
    assert(bare_texts(spans.push(span)) =~= before.push(span.text));
}

/// The exits are named in the order in which they are given, with commas between them,
/// dim as a whole; where there is none, the line says so.
pub proof fn lemma_exits_are_listed(dirs: Seq<Direction>, d: Direction, style: RenderStyle)
    ensures
        ({
            let name = match d {
                Direction::North => "north"@,
                Direction::South => "south"@,
                Direction::East => "east"@,
                Direction::West => "west"@,
                Direction::Up => "up"@,
                Direction::Down => "down"@,
            };
            let line = node_line(NodeView::Exits(dirs), RenderStyle::Plain);
            let longer = node_line(NodeView::Exits(dirs.push(d)), RenderStyle::Plain);
            &&& line is Some
            &&& dirs.len() == 0 ==> line->0 == "Exits: none"@ && longer == Some("Exits: "@ + name)
            &&& dirs.len() > 0 ==> longer == Some(line->0 + ", "@ + name)
            &&& node_line(NodeView::Exits(dirs), style) is Some
            &&& coloured(
                node_line(NodeView::Exits(dirs), style)->0,
                "\x1b[2m"@,
                line->0,
                style,
            )
        }),
{
    let before = direction_words(dirs);
    let name = direction_word(d);
    assert(direction_words(dirs.push(d)) =~= before.push(name));
    text::lemma_joining(before, name, ", "@);
    if dirs.len() == 0 {
        assert(before.push(name) =~= seq![name]);
    } else {
        let whole = text::joined(before, ", "@);
        assert("Exits: "@ + (whole + ", "@ + name) =~= ("Exits: "@ + whole) + ", "@ + name);
    }
}

/// Those present are named in the order in which they are given, with commas between
/// them; where there is nobody, there is no line.
pub proof fn lemma_occupants_are_listed(
    spans: Seq<SpanView>,
    span: SpanView,
    style: RenderStyle,
)
    ensures
        node_line(NodeView::Occupants(Seq::empty()), style) is None,
        spans.len() > 0 ==> node_line(NodeView::Occupants(spans), style) is Some,
        exists|t: text::Text| #[trigger]
            spelled(t, span, style) && node_line(NodeView::Occupants(spans.push(span)), style)
                == Some(
                if spans.len() == 0 {
                    "Also here: "@ + t
                } else {
                    node_line(NodeView::Occupants(spans), style)->0 + ", "@ + t
                },
            ),
{
    let before = span_texts(spans, style);
    let t = span_text(span, style);
    assert(spelled(t, span, style));
    assert(span_texts(spans.push(span), style) =~= before.push(t));
    text::lemma_joining(before, t, ", "@);
    if spans.len() == 0 {
        assert(before.push(t) =~= seq![t]);
    } else {
        let whole = text::joined(before, ", "@);
        assert("Also here: "@ + (whole + ", "@ + t) =~= ("Also here: "@ + whole) + ", "@ + t);
    }
}

/// A batch is sent line by line, each ended by a carriage return and a line feed; what
/// has no line is not sent.
pub proof fn lemma_lines_are_sent_in_order(
    nodes: Seq<NodeView>,
    node: NodeView,
    style: RenderStyle,
)
    ensures
        wire(Seq::empty(), style).len() == 0,
        wire(nodes.push(node), style) == match node_line(node, style) {
            Some(line) => wire(nodes, style) + line + seq!['\r', '\n'],
            None => wire(nodes, style),
        },
{
    reveal_strlit("\r\n");
    assert(nodes.push(node).drop_last() =~= nodes);
    assert(wire(nodes.push(node), style) =~= match node_line(node, style) {
        Some(line) => wire(nodes, style) + line + seq!['\r', '\n'],
        None => wire(nodes, style),
    });
}

/// What the exits are called is what a player types to take them.
pub proof fn lemma_exits_can_be_typed(d: Direction, actor: text::Text)
    ensures
        crate::telnet::parse::parsed(direction_word(d), actor) == Some(
            IntentView::Move { actor, direction: d },
        ),
{
    reveal_strlit("north");
    reveal_strlit("south");
    reveal_strlit("east");
    reveal_strlit("west");
    reveal_strlit("up");
    reveal_strlit("down");
    let w = direction_word(d);
    let none = Seq::<char>::empty();
    assert(none + w + none =~= w);
    assert(w.take(1)[0] == w[0] && 97 <= w[0] as int <= 122);
    assert(w.skip(w.len() - 1)[0] == w[w.len() - 1] && 97 <= w[w.len() - 1] as int <= 122);
    crate::telnet::parse::lemma_the_vocabulary(none, w, none, actor);
    assert(text::spells(w, w));
    assert(crate::telnet::parse::calls_for(w, d));
}

/// Escape codes are used but where the setting is `0`, `false` or `off`.
pub proof fn lemma_when_codes_are_used(setting: Option<&str>, r: RenderStyle)
    requires
        call_ensures(style_for, (setting,), r),
    ensures
        r is Plain <==> setting is Some && (setting->0@ == "0"@ || setting->0@ == "false"@
            || setting->0@ == "off"@),
{
}

} // verus!
