//! What the command line prints, and what it makes of what is typed.

use vstd::prelude::*;

use crate::protocol::{ModelInfo, Response, ResponseView, SessionInfo, SessionInfoView};
use crate::text::{str_eq, str_join, str_trim, u64_text, usize_text};
use crate::types::{StreamEvent, StreamEventView};

verus! {

/// The row of a session.
pub open spec fn session_text(s: SessionInfoView) -> Seq<char> {
    s.id + "  model="@ + s.model + "  msgs="@ + crate::text::decimal(s.message_count as nat)
        + project_text(s.project_name) + "  "@ + match s.tagline {
        Some(t) => t,
        None => ""@,
    }
}

/// The project of a session, where it has one.
pub open spec fn project_text(project: Option<Seq<char>>) -> Seq<char> {
    match project {
        Some(p) => "  project="@ + p,
        None => ""@,
    }
}

/// The row of a session.
pub fn session_row(s: &SessionInfo) -> (r: String)
    ensures
        r@ == session_text(s@),
{
    let mut out: String = s.id.clone();
    out.append("  model=");
    out.append(s.model.as_str());
    out.append("  msgs=");
    out.append(usize_text(s.message_count).as_str());
    let mut project: String = "".to_owned();
    if let Some(p) = &s.project_name {
        project = "  project=".to_owned();
        project.append(p.as_str());
    }
    out.append(project.as_str());
    out.append("  ");
    match &s.tagline {
        Some(t) => {
            out.append(t.as_str());
        },
        None => {
            out.append("");
        },
    }
    out
}

/// A text with as many spaces behind it as make it `width` characters long.
pub open spec fn padded(s: Seq<char>, width: nat) -> Seq<char> {
    if s.len() >= width {
        s
    } else {
        s + Seq::new((width - s.len()) as nat, |i: int| ' ')
    }
}

fn pad(s: &str, width: usize) -> (r: String)
    ensures
        r@ == padded(s@, width as nat),
{
    let mut out: String = s.to_owned();
    let mut n: usize = crate::text::chars_of(s).len();
    let ghost start: nat = n as nat;
    assert(out@ =~= s@ + Seq::new(0, |i: int| ' '));
    while n < width
        invariant
            start == s@.len(),
            start <= n,
            n <= width || n == start,
            out@ == s@ + Seq::new((n - start) as nat, |i: int| ' '),
        decreases width - n,
    {
        out.push(' ');
        n = n + 1;
        assert(out@ =~= s@ + Seq::new((n - start) as nat, |i: int| ' '));
    }
    assert(out@ =~= padded(s@, width as nat));
    out
}

/// The row of a model.
pub fn model_row(m: &ModelInfo) -> (r: String)
    ensures
        r@ == padded(m@.id, 20) + " provider="@ + padded(m@.provider, 12) + " ctx="@
            + crate::text::decimal(m@.context_window as nat),
{
    let mut out: String = pad(m.id.as_str(), 20);
    out.append(" provider=");
    out.append(pad(m.provider.as_str(), 12).as_str());
    out.append(" ctx=");
    out.append(u64_text(m.context_window).as_str());
    out
}

/// The row of a configured provider.
pub fn provider_row(name: &str, api: &str, model_ids: &Vec<String>) -> (r: String)
    ensures
        r@ == "  "@ + name@ + " ("@ + api@ + "): "@ + crate::text::join(
            model_ids.deep_view(),
            ", "@,
        ),
{
    let mut out: String = "  ".to_owned();
    out.append(name);
    out.append(" (");
    out.append(api);
    out.append("): ");
    out.append(str_join(model_ids, ", ").as_str());
    out
}

/// What a response of a chat comes to on the terminal.
#[derive(Debug, PartialEq, Eq)]
pub enum ChatOutput {
    /// Text of the answer.
    Text(String),
    /// Thinking, which goes to the error output.
    Thinking(String),
    /// The turn failed.
    Failed(String),
    /// The turn is over.
    Done,
    /// Nothing to show.
    Silent,
}

/// What a response of a chat comes to on the terminal.
pub fn chat_output(response: &Response) -> (r: ChatOutput)
    ensures
        match response@ {
            ResponseView::Stream { event } => match event {
                StreamEventView::TextDelta { delta, .. } => r matches ChatOutput::Text(t) && t@
                    == delta,
                StreamEventView::ThinkingDelta { delta, .. } => r matches ChatOutput::Thinking(t)
                    && t@ == "[thinking] "@ + delta,
                _ => r is Silent,
            },
            ResponseView::AgentDone => r is Done,
            ResponseView::Error { message, .. } => r matches ChatOutput::Failed(t) && t@
                == "error: "@ + message,
            _ => r is Silent,
        },
{
    match response {
        Response::Stream { event } => match &**event {
            StreamEvent::TextDelta { delta, .. } => ChatOutput::Text(delta.clone()),
            StreamEvent::ThinkingDelta { delta, .. } => {
                let mut text: String = "[thinking] ".to_owned();
                text.append(delta.as_str());
                ChatOutput::Thinking(text)
            },
            _ => ChatOutput::Silent,
        },
        Response::AgentDone => ChatOutput::Done,
        Response::Error { message, .. } => {
            let mut text: String = "error: ".to_owned();
            text.append(message.as_str());
            ChatOutput::Failed(text)
        },
        _ => ChatOutput::Silent,
    }
}

/// What a typed line asks for.
#[derive(Debug, PartialEq, Eq)]
pub enum ReplAction {
    /// Nothing: read the next line.
    Skip,
    Quit,
    Send(String),
}

/// What a typed line asks for.
pub fn repl_action(line: &str) -> (r: ReplAction)
    ensures
        ({
            let text = crate::text::trim(line@);
            match r {
                ReplAction::Skip => text.len() == 0,
                ReplAction::Quit => text == "/quit"@ || text == "/exit"@,
                ReplAction::Send(t) => t@ == text && text.len() > 0 && text != "/quit"@ && text
                    != "/exit"@,
            }
        }),
{
    let text = str_trim(line);
    if text.as_str().is_empty() {
        ReplAction::Skip
    } else if str_eq(text.as_str(), "/quit") || str_eq(text.as_str(), "/exit") {
        ReplAction::Quit
    } else {
        ReplAction::Send(text)
    }
}

/// Padding makes a text as long as asked for, and changes nothing of it; a longer one stays.
pub proof fn law_padding(s: Seq<char>, width: nat)
    ensures
        padded(s, width).len() >= width,
        padded(s, width).len() >= s.len(),
        padded(s, width).subrange(0, s.len() as int) == s,
        s.len() >= width ==> padded(s, width) == s,
        s.len() < width ==> padded(s, width).len() == width,
        forall|i: int| s.len() <= i < padded(s, width).len() ==> #[trigger] padded(s, width)[i] == ' ',
{
    assert(padded(s, width).subrange(0, s.len() as int) =~= s);
}

/// The row of a session starts with its id and ends with its tagline.
pub proof fn law_session_row(s: SessionInfoView)
    ensures
        crate::text::starts_with(session_text(s), s.id + "  model="@ + s.model + "  msgs="@
            + crate::text::decimal(s.message_count as nat)),
        s.tagline matches Some(t) ==> crate::text::ends_with(session_text(s), t),
        s.project_name matches Some(p) ==> crate::text::contains(session_text(s), "  project="@ + p),
{
    let row = session_text(s);
    let head = s.id + "  model="@ + s.model + "  msgs="@ + crate::text::decimal(
        s.message_count as nat,
    );
    assert(row.subrange(0, head.len() as int) =~= head);
    if let Some(t) = s.tagline {
        assert(row.subrange(row.len() - t.len(), row.len() as int) =~= t);
    }
    if let Some(p) = s.project_name {
        let piece = "  project="@ + p;
        let i = head.len() as int;
        assert(row.subrange(i, i + piece.len()) =~= piece);
        assert(crate::text::occurs_at(row, piece, i));
    }
}

} // verus!
