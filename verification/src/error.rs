//! The error type.

use vstd::prelude::*;

use crate::text::u64_text;

verus! {

/// The error type propagated throughout tars. Variants carry structured data, so that callers can match on them and extract fields without string parsing.
#[derive(Debug, PartialEq)]
pub enum Error {
    NoProvider(String),
    NoApiKey(String),
    Http { status: u16, message: String },
    RateLimited { provider: String, retry_after: Option<u64> },
    Timeout(String),
    Auth(String),
    ContextOverflow,
    Cancelled,
    /// The text of an I/O error.
    Io(String),
    /// The text of a JSON error.
    Json(String),
    Parse(String),
    ChannelClosed,
    Internal(String),
}

/// What a [`Error`] holds.
#[verifier::ext_equal]
pub enum ErrorView {
    NoProvider(Seq<char>),
    NoApiKey(Seq<char>),
    Http { status: u16, message: Seq<char> },
    RateLimited { provider: Seq<char>, retry_after: Option<u64> },
    Timeout(Seq<char>),
    Auth(Seq<char>),
    ContextOverflow,
    Cancelled,
    Io(Seq<char>),
    Json(Seq<char>),
    Parse(Seq<char>),
    ChannelClosed,
    Internal(Seq<char>),
}

impl View for Error {
    type V = ErrorView;

    open spec fn view(&self) -> ErrorView {
        match *self {
            Error::NoProvider(x) => ErrorView::NoProvider(x@),
            Error::NoApiKey(x) => ErrorView::NoApiKey(x@),
            Error::Http { status, message } => ErrorView::Http { status: status, message: message@ },
            Error::RateLimited { provider, retry_after } => ErrorView::RateLimited { provider: provider@, retry_after: retry_after },
            Error::Timeout(x) => ErrorView::Timeout(x@),
            Error::Auth(x) => ErrorView::Auth(x@),
            Error::ContextOverflow => ErrorView::ContextOverflow,
            Error::Cancelled => ErrorView::Cancelled,
            Error::Io(x) => ErrorView::Io(x@),
            Error::Json(x) => ErrorView::Json(x@),
            Error::Parse(x) => ErrorView::Parse(x@),
            Error::ChannelClosed => ErrorView::ChannelClosed,
            Error::Internal(x) => ErrorView::Internal(x@),
        }
    }
}

impl DeepView for Error {
    type V = ErrorView;

    open spec fn deep_view(&self) -> ErrorView {
        self@
    }
}

impl Clone for Error {
    fn clone(&self) -> (r: Self)
        ensures
            r@ == self@,
    {
        match self {
            Error::NoProvider(x) => Error::NoProvider(x.clone()),
            Error::NoApiKey(x) => Error::NoApiKey(x.clone()),
            Error::Http { status, message } => Error::Http { status: *status, message: message.clone() },
            Error::RateLimited { provider, retry_after } => Error::RateLimited { provider: provider.clone(), retry_after: *retry_after },
            Error::Timeout(x) => Error::Timeout(x.clone()),
            Error::Auth(x) => Error::Auth(x.clone()),
            Error::ContextOverflow => Error::ContextOverflow,
            Error::Cancelled => Error::Cancelled,
            Error::Io(x) => Error::Io(x.clone()),
            Error::Json(x) => Error::Json(x.clone()),
            Error::Parse(x) => Error::Parse(x.clone()),
            Error::ChannelClosed => Error::ChannelClosed,
            Error::Internal(x) => Error::Internal(x.clone()),
        }
    }
}

/// The result of an operation that may fail.
pub type Result<T> = core::result::Result<T, Error>;

/// The text of an error.
pub open spec fn error_text(e: ErrorView) -> Seq<char> {
    match e {
        ErrorView::NoProvider(p) => "no provider registered for '"@ + p + "'"@,
        ErrorView::NoApiKey(p) => "no API key for provider '"@ + p + "'"@,
        ErrorView::Http { status, message } => "HTTP error: "@ + crate::text::decimal(status as nat)
            + " "@ + message,
        ErrorView::RateLimited { provider, .. } => "rate limited by "@ + provider,
        ErrorView::Timeout(p) => "request to '"@ + p + "' timed out"@,
        ErrorView::Auth(p) => "authentication error for provider '"@ + p + "'"@,
        ErrorView::ContextOverflow => "context window overflow"@,
        ErrorView::Cancelled => "cancelled"@,
        ErrorView::Io(s) => "io: "@ + s,
        ErrorView::Json(s) => "json: "@ + s,
        ErrorView::Parse(s) => "parse error: "@ + s,
        ErrorView::ChannelClosed => "channel closed"@,
        ErrorView::Internal(s) => "internal error: "@ + s,
    }
}

/// The three parts, one after the other.
fn three(a: &str, b: &str, c: &str) -> (r: String)
    ensures
        r@ == a@ + b@ + c@,
{
    let mut s: String = a.to_owned();
    s.append(b);
    s.append(c);
    s
}

/// The two parts, one after the other.
fn two(a: &str, b: &str) -> (r: String)
    ensures
        r@ == a@ + b@,
{
    let mut s: String = a.to_owned();
    s.append(b);
    s
}

impl Error {
    /// The text of the error.
    pub fn to_string(&self) -> (r: String)
        ensures
            r@ == error_text(self@),
    {
        match self {
            Error::NoProvider(p) => three("no provider registered for '", p.as_str(), "'"),
            Error::NoApiKey(p) => three("no API key for provider '", p.as_str(), "'"),
            Error::Http { status, message } => {
                let mut s: String = "HTTP error: ".to_owned();
                s.append(u64_text(*status as u64).as_str());
                s.append(" ");
                s.append(message.as_str());
                s
            },
            Error::RateLimited { provider, retry_after: _ } => two(
                "rate limited by ",
                provider.as_str(),
            ),
            Error::Timeout(p) => three("request to '", p.as_str(), "' timed out"),
            Error::Auth(p) => three("authentication error for provider '", p.as_str(), "'"),
            Error::ContextOverflow => "context window overflow".to_owned(),
            Error::Cancelled => "cancelled".to_owned(),
            Error::Io(t) => two("io: ", t.as_str()),
            Error::Json(t) => two("json: ", t.as_str()),
            Error::Parse(t) => two("parse error: ", t.as_str()),
            Error::ChannelClosed => "channel closed".to_owned(),
            Error::Internal(t) => two("internal error: ", t.as_str()),
        }
    }
}

/// The error that an HTTP status of at least 400 stands for.
pub open spec fn http_error(
    status: u16,
    body: Seq<char>,
    retry_after: Option<u64>,
    provider: Seq<char>,
) -> ErrorView {
    if status == 401 || status == 403 {
        ErrorView::Auth(provider)
    } else if status == 429 {
        ErrorView::RateLimited { provider, retry_after }
    } else if status == 408 {
        ErrorView::Timeout(provider)
    } else if status == 413 || status == 422 {
        ErrorView::ContextOverflow
    } else {
        ErrorView::Http { status, message: body }
    }
}

/// The error that an HTTP status of at least 400 stands for.
pub fn map_http_status(
    status: u16,
    body: String,
    retry_after: Option<u64>,
    provider: &str,
) -> (r: Error)
    ensures
        r@ == http_error(status, body@, retry_after, provider@),
{
    if status == 401 || status == 403 {
        Error::Auth(provider.to_owned())
    } else if status == 429 {
        Error::RateLimited { provider: provider.to_owned(), retry_after }
    } else if status == 408 {
        Error::Timeout(provider.to_owned())
    } else if status == 413 || status == 422 {
        Error::ContextOverflow
    } else {
        Error::Http { status, message: body }
    }
}

/// The error of a request that got no answer: a timeout, or an HTTP error without status.
pub fn map_transport_error(is_timeout: bool, message: String, provider: &str) -> (r: Error)
    ensures
        r@ == if is_timeout {
            ErrorView::Timeout(provider@)
        } else {
            ErrorView::Http { status: 0, message: message@ }
        },
{
    if is_timeout {
        Error::Timeout(provider.to_owned())
    } else {
        Error::Http { status: 0, message }
    }
}

/// The text of an error holds what it is about.
pub proof fn law_error_text_tells(e: ErrorView)
    ensures
        match e {
            ErrorView::NoProvider(p) => crate::text::contains(error_text(e), p),
            ErrorView::NoApiKey(p) => crate::text::contains(error_text(e), p),
            ErrorView::Http { message, .. } => crate::text::ends_with(error_text(e), message),
            ErrorView::RateLimited { provider, .. } => crate::text::ends_with(
                error_text(e),
                provider,
            ),
            ErrorView::Timeout(p) => crate::text::contains(error_text(e), p),
            ErrorView::Auth(p) => crate::text::contains(error_text(e), p),
            ErrorView::Io(s) => crate::text::ends_with(error_text(e), s),
            ErrorView::Json(s) => crate::text::ends_with(error_text(e), s),
            ErrorView::Parse(s) => crate::text::ends_with(error_text(e), s),
            ErrorView::Internal(s) => crate::text::ends_with(error_text(e), s),
            _ => error_text(e).len() > 0,
        },
{
    reveal_strlit("context window overflow");
    reveal_strlit("cancelled");
    reveal_strlit("channel closed");
    match e {
        ErrorView::NoProvider(p) => lemma_between("no provider registered for '"@, p, "'"@),
        ErrorView::NoApiKey(p) => lemma_between("no API key for provider '"@, p, "'"@),
        ErrorView::Http { status, message } => lemma_at_end(
            "HTTP error: "@ + crate::text::decimal(status as nat) + " "@,
            message,
        ),
        ErrorView::RateLimited { provider, .. } => lemma_at_end("rate limited by "@, provider),
        ErrorView::Timeout(p) => lemma_between("request to '"@, p, "' timed out"@),
        ErrorView::Auth(p) => lemma_between("authentication error for provider '"@, p, "'"@),
        ErrorView::Io(s) => lemma_at_end("io: "@, s),
        ErrorView::Json(s) => lemma_at_end("json: "@, s),
        ErrorView::Parse(s) => lemma_at_end("parse error: "@, s),
        ErrorView::Internal(s) => lemma_at_end("internal error: "@, s),
        _ => {},
    }
}

proof fn lemma_between(a: Seq<char>, p: Seq<char>, b: Seq<char>)
    ensures
        crate::text::contains(a + p + b, p),
{
    let s = a + p + b;
    let i = a.len() as int;
    assert(s.subrange(i, i + p.len()) =~= p);
    assert(crate::text::occurs_at(s, p, i));
}

proof fn lemma_at_end(a: Seq<char>, p: Seq<char>)
    ensures
        crate::text::ends_with(a + p, p),
{
    let s = a + p;
    assert(s.subrange(s.len() - p.len(), s.len() as int) =~= p);
}

} // verus!
