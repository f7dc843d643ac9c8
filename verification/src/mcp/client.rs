//! What a client of the command API decides, apart from its connection.

use vstd::prelude::*;

use crate::api::protocol::{ApiRequest, ApiResponse, RequestView, ResponseView};
use crate::direction::Direction;
use crate::mcp::dispatch;
use crate::text;

verus! {

/// The session that a request is for, if it is for one.
pub open spec fn session_in(req: RequestView) -> Option<u64> {
    match req {
        RequestView::Look { session } => Some(session),
        RequestView::Move { session, .. } => Some(session),
        RequestView::Dig { session, .. } => Some(session),
        RequestView::Disconnect { session } => Some(session),
        _ => None,
    }
}

/// A request with its session replaced, if it has one.
pub open spec fn rebound(req: RequestView, session: u64) -> RequestView {
    match req {
        RequestView::Look { .. } => RequestView::Look { session },
        RequestView::Move { direction, .. } => RequestView::Move { session, direction },
        RequestView::Dig { direction, id, name, description, .. } => RequestView::Dig {
            session,
            direction,
            id,
            name,
            description,
        },
        RequestView::Disconnect { .. } => RequestView::Disconnect { session },
        other => other,
    }
}

/// Replace the session id in a session-scoped request (used after reconnect).
pub fn with_session(req: ApiRequest, session: u64) -> (r: ApiRequest)
    ensures
        r@ == rebound(req@, session),
{
    match req {
        ApiRequest::Look { .. } => ApiRequest::Look { session },
        ApiRequest::Move { direction, .. } => ApiRequest::Move { session, direction },
        ApiRequest::Dig { direction, id, name, description, .. } => ApiRequest::Dig {
            session,
            direction,
            id,
            name,
            description,
        },
        ApiRequest::Disconnect { .. } => ApiRequest::Disconnect { session },
        other => other,  // Connect / ConnectAs carry no session
    }
}

/// The session that a response to a connect attaches to, if it is such a
/// response.
pub fn attached_session(resp: &ApiResponse) -> (r: Option<u64>)
    ensures
        r == match resp@ {
            ResponseView::Connected { session, .. } => Some(session),
            _ => None,
        },
{
    match resp {
        ApiResponse::Connected { session, .. } => Some(*session),
        _ => None,
    }
}

/// What a client does about the reply to a request.
#[derive(Debug, PartialEq)]
pub enum NextStep {
    /// Hand the reply on.
    Give(Result<ApiResponse, String>),
    /// Connect and attach anew, and send the request again.
    Reconnect,
}

pub enum NextStepView {
    Give(Result<ResponseView, text::Text>),
    Reconnect,
}

impl View for NextStep {
    type V = NextStepView;

    open spec fn view(&self) -> NextStepView {
        match self {
            NextStep::Give(reply) => NextStepView::Give(dispatch::reply_view(*reply)),
            NextStep::Reconnect => NextStepView::Reconnect,
        }
    }
}

/// What is done about a reply: the first failure is worth another try, and
/// everything else is handed on.
pub open spec fn step_after(
    retried: bool,
    reply: Result<ResponseView, text::Text>,
) -> NextStepView {
    if reply is Err && !retried {
        NextStepView::Reconnect
    } else {
        NextStepView::Give(reply)
    }
}

/// Decide about the reply to a request that was sent for the first time, or for
/// the second (`retried`).
pub fn after_reply(retried: bool, reply: Result<ApiResponse, String>) -> (r: NextStep)
    ensures
        r@ == step_after(retried, dispatch::reply_view(reply)),
{
    match reply {
        Ok(resp) => NextStep::Give(Ok(resp)),
        Err(e) => if retried {
            NextStep::Give(Err(e))
        } else {
            NextStep::Reconnect
        },
    }
}

// ---------------------------------------------------------------------------
// Laws
// ---------------------------------------------------------------------------

/// A request is sent twice at most, and a second time only after a failure: an
/// answer is always handed on, and so is whatever comes of the second try.
pub proof fn lemma_at_most_one_retry(retried: bool, reply: Result<ResponseView, text::Text>)
    ensures
        step_after(true, reply) == NextStepView::Give(reply),
        reply is Ok ==> step_after(retried, reply) == NextStepView::Give(reply),
        step_after(retried, reply) is Reconnect ==> !retried && reply is Err,
{
}

/// A rebound request is for the session it was rebound to last. Rebinding it to
/// the session it was for is no change, and neither is rebinding one that is for
/// none.
pub proof fn lemma_rebinding_keeps_the_last_session(req: RequestView, a: u64, b: u64)
    ensures
        rebound(rebound(req, a), b) == rebound(req, b),
        session_in(req) is Some ==> session_in(rebound(req, a)) == Some(a),
        session_in(req) == Some(a) ==> rebound(req, a) == req,
        session_in(req) is None ==> rebound(req, a) == req,
{
}

/// A first failure is tried again.
pub proof fn lemma_a_first_failure_is_tried_again(why: text::Text)
    ensures
        step_after(false, Err(why)) is Reconnect,
{
}

/// Rebinding changes the session of a request and nothing else of it.
pub proof fn lemma_rebinding_keeps_the_request(
    a: u64,
    b: u64,
    direction: Direction,
    id: text::Text,
    name: text::Text,
    description: text::Text,
)
    ensures
        rebound(RequestView::Look { session: a }, b) == (RequestView::Look { session: b }),
        rebound(RequestView::Move { session: a, direction }, b) == (RequestView::Move {
            session: b,
            direction,
        }),
        rebound(RequestView::Dig { session: a, direction, id, name, description }, b) == (
        RequestView::Dig { session: b, direction, id, name, description }),
        rebound(RequestView::Disconnect { session: a }, b) == (RequestView::Disconnect {
            session: b,
        }),
        rebound(RequestView::Connect, b) == RequestView::Connect,
        rebound(RequestView::ConnectAs { actor: name }, b) == (RequestView::ConnectAs {
            actor: name,
        }),
{
}

/// A client is attached to the session that a connect was answered with, and by no other
/// response to any.
pub proof fn lemma_what_a_client_is_attached_to(resp: &ApiResponse, r: Option<u64>)
    requires
        call_ensures(attached_session, (resp,), r),
    ensures
        resp@ is Connected ==> r == Some(resp@->Connected_session),
        !(resp@ is Connected) ==> r is None,
{
}

} // verus!
