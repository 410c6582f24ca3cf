//! The client's side of the protocol: the requests it sends, and what it makes of the responses.

use vstd::prelude::*;

use crate::error::Error;
use crate::protocol::{
    ChatAttachment, ChatAttachmentView, ModelInfo, Request, RequestView, Response, ResponseView,
    SessionInfo,
};

verus! {

/// Why a call of the client failed.
#[derive(Debug)]
pub enum ClientError {
    Io(String),
    Json(String),
    Tars(Error),
    /// The server closed the connection.
    Closed,
    /// The server answered something else.
    Unexpected(Response),
}

/// Whether an error reports a response that was not expected.
pub open spec fn is_unexpected(e: ClientError, response: ResponseView) -> bool {
    e matches ClientError::Unexpected(r) && r@ == response
}

/// The request that creates a session.
pub fn create_session_request(model: Option<String>, cwd: Option<String>) -> (r: Request)
    ensures
        r@ == (RequestView::CreateSession {
            model: model.deep_view(),
            provider: None,
            system_prompt: None,
            cwd: cwd.deep_view(),
            parent_id: None,
            tagline: None,
        }),
{
    Request::CreateSession {
        model,
        provider: None,
        system_prompt: None,
        cwd,
        parent_id: None,
        tagline: None,
    }
}

/// The requests of a chat: the message, then the subscription to what comes of it.
pub fn chat_requests(session_id: &str, text: &str) -> (r: (Request, Request))
    ensures
        r.0@ == (RequestView::Chat { session_id: session_id@, text: text@, attachments: seq![] }),
        r.1@ == (RequestView::Subscribe { session_id: session_id@ }),
{
    let none: Vec<ChatAttachment> = Vec::new();
    assert(none.deep_view() =~= Seq::<ChatAttachmentView>::empty());
    (
        Request::Chat {
            session_id: session_id.to_owned(),
            text: text.to_owned(),
            attachments: none,
        },
        Request::Subscribe { session_id: session_id.to_owned() },
    )
}

/// The answer to a request that is merely acknowledged.
pub fn expect_ack(response: Response) -> (r: core::result::Result<(), ClientError>)
    ensures
        match r {
            Ok(_) => response@ == ResponseView::Ack,
            Err(e) => response@ != ResponseView::Ack && is_unexpected(e, response@),
        },
{
    match response {
        Response::Ack => Ok(()),
        other => Err(ClientError::Unexpected(other)),
    }
}

/// The id of a session that was created.
pub fn created_session(response: Response) -> (r: core::result::Result<String, ClientError>)
    ensures
        match r {
            Ok(id) => response@ == (ResponseView::SessionCreated { session_id: id@ }),
            Err(e) => !(response@ is SessionCreated) && is_unexpected(e, response@),
        },
{
    match response {
        Response::SessionCreated { session_id } => Ok(session_id),
        other => Err(ClientError::Unexpected(other)),
    }
}

/// The sessions that were asked for.
pub fn listed_sessions(response: Response) -> (r: core::result::Result<
    Vec<SessionInfo>,
    ClientError,
>)
    ensures
        match r {
            Ok(s) => response@ == (ResponseView::Sessions { sessions: s.deep_view() }),
            Err(e) => !(response@ is Sessions) && is_unexpected(e, response@),
        },
{
    match response {
        Response::Sessions { sessions } => Ok(sessions),
        other => Err(ClientError::Unexpected(other)),
    }
}

/// The models that were asked for.
pub fn listed_models(response: Response) -> (r: core::result::Result<Vec<ModelInfo>, ClientError>)
    ensures
        match r {
            Ok(m) => response@ == (ResponseView::Models { models: m.deep_view() }),
            Err(e) => !(response@ is Models) && is_unexpected(e, response@),
        },
{
    match response {
        Response::Models { models } => Ok(models),
        other => Err(ClientError::Unexpected(other)),
    }
}

/// Whether a running turn was cancelled.
pub fn was_cancelled(response: Response) -> (r: core::result::Result<bool, ClientError>)
    ensures
        match r {
            Ok(b) => response@ == (if b {
                ResponseView::Cancelled
            } else {
                ResponseView::Ack
            }),
            Err(e) => response@ != ResponseView::Cancelled && response@ != ResponseView::Ack
                && is_unexpected(e, response@),
        },
{
    match response {
        Response::Cancelled => Ok(true),
        Response::Ack => Ok(false),
        other => Err(ClientError::Unexpected(other)),
    }
}

/// Whether a chat is over with a response.
pub open spec fn ends_chat(r: ResponseView) -> bool {
    r is AgentDone || r is Cancelled || r is Error
}

/// Whether a chat is over with a response.
pub fn is_terminal(response: &Response) -> (r: bool)
    ensures
        r == ends_chat(response@),
{
    match response {
        Response::AgentDone => true,
        Response::Cancelled => true,
        Response::Error { .. } => true,
        _ => false,
    }
}

/// What the server answers to the requests of a chat is what the client expects.
pub proof fn law_chat_is_acknowledged(session_id: Seq<char>, text: Seq<char>, first: u64, second: u64)
    ensures
        crate::server::planned(
            RequestView::Chat { session_id, text, attachments: seq![] },
            first,
            second,
        )->StartTurn_reply == ResponseView::Ack,
        crate::server::planned(RequestView::Subscribe { session_id }, first, second)
            == crate::server::ServerStepView::Reply(ResponseView::Ack),
        crate::server::planned(RequestView::CancelChat { session_id }, first, second)
            == (crate::server::ServerStepView::CancelTurn {
            session_id,
            reply: ResponseView::Cancelled,
        }),
{
}

} // verus!
