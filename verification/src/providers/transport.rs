//! Requests to providers: where they go, what they carry, and how their failures are reported.

use vstd::prelude::*;

use crate::error::{Error, ErrorView};
use crate::text::{str_parse_u64, str_trim_end_char};
use crate::types::{
    AssistantMessage, AssistantMessageView, Header, HeaderView, StopReason, StreamEvent,
    StreamEventView,
};

verus! {

/// A request whose JSON body is sent to a provider.
#[derive(Debug, PartialEq)]
pub struct HttpRequest {
    pub url: String,
    /// In the order in which they are added.
    pub headers: Vec<Header>,
    pub timeout_secs: u64,
}

/// What a [`HttpRequest`] holds.
#[verifier::ext_equal]
pub struct HttpRequestView {
    pub url: Seq<char>,
    pub headers: Seq<HeaderView>,
    pub timeout_secs: u64,
}

impl View for HttpRequest {
    type V = HttpRequestView;

    open spec fn view(&self) -> HttpRequestView {
        HttpRequestView {
            url: self.url@,
            headers: self.headers.deep_view(),
            timeout_secs: self.timeout_secs,
        }
    }
}

impl DeepView for HttpRequest {
    type V = HttpRequestView;

    open spec fn deep_view(&self) -> HttpRequestView {
        self@
    }
}

/// A header.
pub open spec fn header_of(name: Seq<char>, value: Seq<char>) -> HeaderView {
    HeaderView { name, value }
}

/// A path below a base URL.
pub open spec fn url_below(base_url: Seq<char>, path: Seq<char>) -> Seq<char> {
    crate::text::trim_end_char(base_url, '/') + path
}

/// A request to the Anthropic Messages API.
pub open spec fn anthropic_http(
    base_url: Seq<char>,
    api_key: Seq<char>,
    model_headers: Seq<HeaderView>,
    option_headers: Seq<HeaderView>,
) -> HttpRequestView {
    HttpRequestView {
        url: url_below(base_url, "/v1/messages"@),
        headers: seq![
            header_of("content-type"@, "application/json"@),
            header_of("anthropic-version"@, "2023-06-01"@),
            header_of("accept"@, "application/json"@),
            header_of("x-api-key"@, api_key),
        ] + model_headers + option_headers,
        timeout_secs: 600,
    }
}

/// A request to an OpenAI-compatible chat completions API. Without an API key it carries none.
pub open spec fn openai_http(
    base_url: Seq<char>,
    api_key: Seq<char>,
    model_headers: Seq<HeaderView>,
    option_headers: Seq<HeaderView>,
) -> HttpRequestView {
    let key = if api_key.len() == 0 {
        seq![]
    } else {
        seq![header_of("authorization"@, "Bearer "@ + api_key)]
    };
    HttpRequestView {
        url: url_below(base_url, "/chat/completions"@),
        headers: seq![
            header_of("content-type"@, "application/json"@),
            header_of("accept"@, "text/event-stream"@),
        ] + key + model_headers + option_headers,
        timeout_secs: 180,
    }
}

fn make_header(name: &str, value: &str) -> (r: Header)
    ensures
        r@ == header_of(name@, value@),
{
    Header { name: name.to_owned(), value: value.to_owned() }
}

fn make_url(base_url: &str, path: &str) -> (r: String)
    ensures
        r@ == url_below(base_url@, path@),
{
    let mut url = str_trim_end_char(base_url, '/');
    url.append(path);
    url
}

/// Add headers behind others.
fn add_headers(headers: &mut Vec<Header>, more: &Vec<Header>)
    ensures
        final(headers).deep_view() == old(headers).deep_view() + more.deep_view(),
{
    let ghost before = headers.deep_view();
    let ghost all = more.deep_view();
    let mut i: usize = 0;
    assert(headers.deep_view() =~= before + all.subrange(0, 0));
    while i < more.len()
        invariant
            i <= more.len(),
            all == more.deep_view(),
            headers.deep_view() == before + all.subrange(0, i as int),
        decreases more.len() - i,
    {
        assert(all[i as int] == more[i as int]@);
        let ghost now = headers.deep_view();
        let h = more[i].clone();
        headers.push(h);
        assert(headers.deep_view() =~= now.push(h@));
        assert(headers.deep_view() =~= before + all.subrange(0, i + 1));
        i = i + 1;
    }
    assert(all.subrange(0, i as int) =~= all);
}

/// A request to the Anthropic Messages API.
pub fn anthropic_request(
    base_url: &str,
    api_key: &str,
    model_headers: &Vec<Header>,
    option_headers: &Vec<Header>,
) -> (r: HttpRequest)
    ensures
        r@ == anthropic_http(
            base_url@,
            api_key@,
            model_headers.deep_view(),
            option_headers.deep_view(),
        ),
{
    let mut headers: Vec<Header> = vec![
        make_header("content-type", "application/json"),
        make_header("anthropic-version", "2023-06-01"),
        make_header("accept", "application/json"),
        make_header("x-api-key", api_key),
    ];
    assert(headers.deep_view() =~= seq![
        header_of("content-type"@, "application/json"@),
        header_of("anthropic-version"@, "2023-06-01"@),
        header_of("accept"@, "application/json"@),
        header_of("x-api-key"@, api_key@),
    ]);
    add_headers(&mut headers, model_headers);
    add_headers(&mut headers, option_headers);
    HttpRequest { url: make_url(base_url, "/v1/messages"), headers, timeout_secs: 600 }
}

/// A request to an OpenAI-compatible chat completions API.
pub fn openai_request(
    base_url: &str,
    api_key: &str,
    model_headers: &Vec<Header>,
    option_headers: &Vec<Header>,
) -> (r: HttpRequest)
    ensures
        r@ == openai_http(
            base_url@,
            api_key@,
            model_headers.deep_view(),
            option_headers.deep_view(),
        ),
{
    let mut headers: Vec<Header> = vec![
        make_header("content-type", "application/json"),
        make_header("accept", "text/event-stream"),
    ];
    let ghost fixed = seq![
        header_of("content-type"@, "application/json"@),
        header_of("accept"@, "text/event-stream"@),
    ];
    assert(headers.deep_view() =~= fixed);
    if !api_key.is_empty() {
        let mut bearer: String = "Bearer ".to_owned();
        bearer.append(api_key);
        let h = make_header("authorization", bearer.as_str());
        headers.push(h);
        assert(headers.deep_view() =~= fixed + seq![h@]);
    } else {
        assert(headers.deep_view() =~= fixed + Seq::<HeaderView>::empty());
    }
    add_headers(&mut headers, model_headers);
    add_headers(&mut headers, option_headers);
    HttpRequest { url: make_url(base_url, "/chat/completions"), headers, timeout_secs: 180 }
}

/// The API key for Anthropic: the one of the request, else the one of the environment; it cannot do
/// without.
pub fn anthropic_key(given: Option<String>, environment: Option<String>) -> (r: core::result::Result<
    String,
    Error,
>)
    ensures
        match r {
            Ok(k) => given.deep_view() == Some(k@) || (given is None && environment.deep_view()
                == Some(k@)),
            Err(e) => given is None && environment is None && e@ == ErrorView::NoApiKey(
                "anthropic"@,
            ),
        },
{
    match given {
        Some(k) => Ok(k),
        None => match environment {
            Some(k) => Ok(k),
            None => Err(Error::NoApiKey("anthropic".to_owned())),
        },
    }
}

/// The API key for an OpenAI-compatible service: the one of the request, else the one of the
/// environment, else none.
pub fn openai_key(given: Option<String>, environment: Option<String>) -> (r: String)
    ensures
        r@ == (match given.deep_view() {
            Some(k) => k,
            None => match environment.deep_view() {
                Some(k) => k,
                None => seq![],
            },
        }),
{
    match given {
        Some(k) => k,
        None => match environment {
            Some(k) => k,
            None => {
                let none: String = String::new();
                assert(none@ =~= seq![]);
                none
            },
        },
    }
}

/// The seconds after which a request may be repeated, as a `retry-after` header gives them.
pub fn retry_after(header: Option<&str>) -> (r: Option<u64>)
    ensures
        r == (match header {
            Some(h) => crate::text::parse_u64(h@),
            None => None,
        }),
{
    match header {
        Some(h) => str_parse_u64(h),
        None => None,
    }
}

/// Whether an event reports an error, in an otherwise empty message of a model.
pub open spec fn reports(
    e: StreamEventView,
    api_id: Seq<char>,
    provider: Seq<char>,
    model: Seq<char>,
    err: ErrorView,
) -> bool {
    &&& e matches StreamEventView::Error { reason, error }
    &&& reason == StopReason::Error
    &&& error.stop_reason == StopReason::Error
    &&& error.error_message == Some(crate::error::error_text(err))
    &&& (AssistantMessageView {
        stop_reason: StopReason::Stop,
        error_message: None,
        ..error
    }).is_empty_of(api_id, provider, model)
}

/// The event that reports why a stream failed.
pub fn failure_event(api_id: &str, provider: &str, model: &str, err: &Error) -> (r: StreamEvent)
    ensures
        reports(r@, api_id@, provider@, model@, err@),
{
    let mut msg = AssistantMessage::empty(api_id, provider, model);
    msg.stop_reason = StopReason::Error;
    msg.error_message = Some(err.to_string());
    StreamEvent::Error { reason: StopReason::Error, error: msg }
}

/// A request goes below the base URL, with one slash between, whether or not the base URL ends in
/// slashes.
pub proof fn law_url(base_url: Seq<char>, path: Seq<char>)
    ensures
        base_url.len() == 0 || base_url.last() != '/' ==> url_below(base_url, path) == base_url
            + path,
        url_below(base_url.push('/'), path) == url_below(base_url, path),
{
    let longer = base_url.push('/');
    assert(longer.subrange(0, longer.len() - 1) =~= base_url);
}

/// A request carries the key under the name that its API asks for, and the headers of the model and of
/// the call behind its own, in order. Without a key an OpenAI-compatible API is sent none.
pub proof fn law_requests_carry_key_and_headers(
    base_url: Seq<char>,
    api_key: Seq<char>,
    model_headers: Seq<HeaderView>,
    option_headers: Seq<HeaderView>,
)
    ensures
        ({
            let a = anthropic_http(base_url, api_key, model_headers, option_headers);
            let o = openai_http(base_url, api_key, model_headers, option_headers);
            let more = model_headers + option_headers;
            &&& a.headers.contains(HeaderView { name: "x-api-key"@, value: api_key })
            &&& a.headers.contains(HeaderView { name: "anthropic-version"@, value: "2023-06-01"@ })
            &&& a.headers.len() >= more.len()
            &&& a.headers.subrange(a.headers.len() - more.len(), a.headers.len() as int) == more
            &&& o.headers.len() >= more.len()
            &&& o.headers.subrange(o.headers.len() - more.len(), o.headers.len() as int) == more
            &&& api_key.len() > 0 ==> o.headers.contains(
                HeaderView { name: "authorization"@, value: "Bearer "@ + api_key },
            )
            &&& o.headers.len() == more.len() + if api_key.len() > 0 {
                3int
            } else {
                2
            }
            &&& crate::text::ends_with(a.url, "/v1/messages"@)
            &&& crate::text::ends_with(o.url, "/chat/completions"@)
        }),
{
    let a = anthropic_http(base_url, api_key, model_headers, option_headers);
    let o = openai_http(base_url, api_key, model_headers, option_headers);
    let more = model_headers + option_headers;
    assert(a.headers[3] == header_of("x-api-key"@, api_key));
    assert(a.headers[1] == header_of("anthropic-version"@, "2023-06-01"@));
    assert(a.headers.subrange(a.headers.len() - more.len(), a.headers.len() as int) =~= more);
    assert(o.headers.subrange(o.headers.len() - more.len(), o.headers.len() as int) =~= more);
    if api_key.len() > 0 {
        assert(o.headers[2] == header_of("authorization"@, "Bearer "@ + api_key));
    }
    let n = "/v1/messages"@.len() as int;
    assert(a.url.subrange(a.url.len() - n, a.url.len() as int) =~= "/v1/messages"@);
    let k = "/chat/completions"@.len() as int;
    assert(o.url.subrange(o.url.len() - k, o.url.len() as int) =~= "/chat/completions"@);
}

} // verus!
