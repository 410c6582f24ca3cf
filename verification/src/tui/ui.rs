//! What the screens show, as styled lines.

use vstd::prelude::*;

use crate::text::u64_text;
use crate::tui::app::{ChatState, ChatStateView, PickerState, PickerStateView, TranscriptLine, TranscriptLineView};
use crate::tui::markdown::{styled_line, Color, Line, LineView, Span, SpanView, Style};

verus! {

/// The keys of the picker.
pub const HINT_PICKER: &'static str = "j/k navigate  enter open  n new  r refresh  q quit";

/// A line of texts in their own styles.
pub open spec fn line_of(spans: Seq<SpanView>) -> LineView {
    LineView { spans, style: crate::tui::markdown::plain_style() }
}

/// A text in a style.
pub open spec fn span(text: Seq<char>, style: Style) -> SpanView {
    SpanView { text, style }
}

/// A plain text.
pub open spec fn raw(text: Seq<char>) -> SpanView {
    SpanView { text, style: crate::tui::markdown::plain_style() }
}

/// A plain line.
pub open spec fn plain_line(text: Seq<char>) -> LineView {
    crate::tui::markdown::line_in(text, crate::tui::markdown::plain_style())
}

/// A dim line.
pub open spec fn dim_line(text: Seq<char>) -> LineView {
    crate::tui::markdown::line_in(text, crate::tui::markdown::dimmed())
}

/// A line in a color.
pub open spec fn color_line(text: Seq<char>, color: Color) -> LineView {
    crate::tui::markdown::line_in(text, crate::tui::markdown::colored(color))
}

/// The style of what stands before a user's text.
pub open spec fn user_style() -> Style {
    Style { bold: true, ..crate::tui::markdown::colored(Color::Cyan) }
}

fn span_of(text: &str, style: Style) -> (r: Span)
    ensures
        r@ == span(text@, style),
{
    Span { text: text.to_owned(), style }
}

fn line_from(spans: Vec<Span>) -> (r: Line)
    ensures
        r@ == line_of(spans.deep_view()),
{
    Line { spans, style: Style::plain() }
}

// ---------------------------------------------------------------------------
// Picker
// ---------------------------------------------------------------------------

/// The row of the session at `i`.
pub open spec fn row(p: PickerStateView, i: int) -> LineView {
    let label = crate::tui::app::label(p.sessions[i]);
    if i == p.selected {
        line_of(seq![span("> "@, crate::tui::markdown::colored(Color::Cyan)), raw(label)])
    } else {
        plain_line("  "@ + label)
    }
}

/// The rows of the picker.
pub open spec fn rows(p: PickerStateView) -> Seq<LineView> {
    if p.sessions.len() == 0 {
        seq![
            dim_line(
                if p.loading {
                    "loading sessions..."@
                } else {
                    "no sessions yet, press n to create one"@
                },
            ),
        ]
    } else {
        Seq::new(p.sessions.len(), |i: int| row(p, i))
    }
}

/// The rows of the picker: the sessions, or a hint where there are none.
pub fn picker_rows(p: &PickerState) -> (r: Vec<Line>)
    ensures
        r.deep_view() == rows(p@),
{
    let ghost v = p@;
    let mut out: Vec<Line> = Vec::new();
    assert(v.sessions.len() == p.sessions.len());
    if p.sessions.len() == 0 {
        let hint: &str = if p.loading {
            "loading sessions..."
        } else {
            "no sessions yet, press n to create one"
        };
        out.push(styled_line(hint, Style::dim()));
        assert(out.deep_view() =~= rows(v));
        return out;
    }
    let mut i: usize = 0;
    while i < p.sessions.len()
        invariant
            i <= p.sessions.len(),
            v == p@,
            out.len() == i,
            forall|j: int| 0 <= j < i ==> (#[trigger] out@[j])@ == row(v, j),
        decreases p.sessions.len() - i,
    {
        assert(v.sessions[i as int] == p.sessions[i as int]@);
        let label = PickerState::row_label(&p.sessions[i]);
        let line = if i == p.selected {
            let spans: Vec<Span> = vec![
                span_of("> ", Style::color(Color::Cyan)),
                span_of(label.as_str(), Style::plain()),
            ];
            assert(spans.deep_view() =~= seq![
                span("> "@, crate::tui::markdown::colored(Color::Cyan)),
                raw(label@),
            ]);
            line_from(spans)
        } else {
            let mut text: String = "  ".to_owned();
            text.append(label.as_str());
            styled_line(text.as_str(), Style::plain())
        };
        out.push(line);
        i = i + 1;
    }
    assert(out.deep_view() =~= rows(v));
    out
}

/// The last line of the picker: its error, or the keys.
pub fn picker_footer(p: &PickerState) -> (r: Line)
    ensures
        r@ == (match p@.error {
            Some(e) => color_line(e, Color::Red),
            None => dim_line(HINT_PICKER@),
        }),
{
    match &p.error {
        Some(e) => styled_line(e.as_str(), Style::color(Color::Red)),
        None => styled_line(HINT_PICKER, Style::dim()),
    }
}

// ---------------------------------------------------------------------------
// Chat
// ---------------------------------------------------------------------------

/// The line for an entry of the transcript.
pub open spec fn entry(l: TranscriptLineView) -> LineView {
    match l {
        TranscriptLineView::User(text) => line_of(seq![span("you  "@, user_style()), raw(text)]),
        TranscriptLineView::Assistant(text) => plain_line(text),
        TranscriptLineView::Tool { name, is_error } => if is_error {
            line_of(
                seq![
                    span("[tool failed] "@ + name, crate::tui::markdown::colored(Color::Red)),
                ],
            )
        } else {
            line_of(
                seq![span("[tool] "@ + name, crate::tui::markdown::colored(Color::Green))],
            )
        },
        TranscriptLineView::Summary(_) => dim_line(
            "-- context compacted, earlier messages summarized --"@,
        ),
        TranscriptLineView::Info(text) => dim_line(text),
    }
}

/// The lines of a chat: the transcript, what is being thought and written, and the last error.
pub open spec fn chat_view(c: ChatStateView) -> Seq<LineView> {
    let past = Seq::new(c.lines.len(), |i: int| entry(c.lines[i]));
    let thinking = match c.thinking {
        Some(t) => seq![dim_line(t)],
        None => seq![],
    };
    let streaming = match c.streaming {
        Some(t) => seq![
            plain_line(t),
            line_of(seq![span("▌"@, crate::tui::markdown::colored(Color::Cyan))]),
        ],
        None => seq![],
    };
    let error = match c.error {
        Some(e) => seq![color_line("error: "@ + e, Color::Red)],
        None => seq![],
    };
    past + thinking + streaming + error
}

/// The line for an entry of the transcript.
fn entry_line(l: &TranscriptLine) -> (r: Line)
    ensures
        r@ == entry(l@),
{
    match l {
        TranscriptLine::User(text) => {
            let mut style = Style::color(Color::Cyan);
            style.bold = true;
            let spans: Vec<Span> = vec![
                span_of("you  ", style),
                span_of(text.as_str(), Style::plain()),
            ];
            assert(spans.deep_view() =~= seq![span("you  "@, user_style()), raw(text@)]);
            line_from(spans)
        },
        TranscriptLine::Assistant(text) => styled_line(text.as_str(), Style::plain()),
        TranscriptLine::Tool { name, is_error } => {
            let (mark, color) = if *is_error {
                ("[tool failed] ", Color::Red)
            } else {
                ("[tool] ", Color::Green)
            };
            let mut text: String = mark.to_owned();
            text.append(name.as_str());
            let spans: Vec<Span> = vec![span_of(text.as_str(), Style::color(color))];
            assert(spans.deep_view() =~= seq![
                span(mark@ + name@, crate::tui::markdown::colored(color)),
            ]);
            line_from(spans)
        },
        TranscriptLine::Summary(_) => styled_line(
            "-- context compacted, earlier messages summarized --",
            Style::dim(),
        ),
        TranscriptLine::Info(text) => styled_line(text.as_str(), Style::dim()),
    }
}

/// The lines of a chat.
pub fn chat_lines(chat: &ChatState) -> (r: Vec<Line>)
    ensures
        r.deep_view() == chat_view(chat@),
{
    let ghost v = chat@;
    let ghost past = Seq::new(v.lines.len(), |i: int| entry(v.lines[i]));
    let mut out: Vec<Line> = Vec::new();
    let mut i: usize = 0;
    while i < chat.lines.len()
        invariant
            i <= chat.lines.len(),
            v == chat@,
            out.len() == i,
            forall|j: int| 0 <= j < i ==> (#[trigger] out@[j])@ == entry(v.lines[j]),
        decreases chat.lines.len() - i,
    {
        assert(v.lines[i as int] == chat.lines[i as int]@);
        out.push(entry_line(&chat.lines[i]));
        i = i + 1;
    }
    assert(out.deep_view() =~= past);
    if let Some(t) = &chat.thinking {
        out.push(styled_line(t.as_str(), Style::dim()));
    }
    let ghost thinking = match v.thinking {
        Some(t) => seq![dim_line(t)],
        None => seq![],
    };
    assert(out.deep_view() =~= past + thinking);
    if let Some(t) = &chat.streaming {
        out.push(styled_line(t.as_str(), Style::plain()));
        let spans: Vec<Span> = vec![span_of("▌", Style::color(Color::Cyan))];
        assert(spans.deep_view() =~= seq![
            span("▌"@, crate::tui::markdown::colored(Color::Cyan)),
        ]);
        out.push(line_from(spans));
    }
    let ghost streaming = match v.streaming {
        Some(t) => seq![
            plain_line(t),
            line_of(seq![span("▌"@, crate::tui::markdown::colored(Color::Cyan))]),
        ],
        None => seq![],
    };
    assert(out.deep_view() =~= past + thinking + streaming);
    if let Some(e) = &chat.error {
        let mut text: String = "error: ".to_owned();
        text.append(e.as_str());
        out.push(styled_line(text.as_str(), Style::color(Color::Red)));
    }
    assert(out.deep_view() =~= chat_view(v));
    out
}

/// How many lines a chat is reckoned to take: one per entry of the transcript, two for a text that
/// streams in, and one for an error.
pub open spec fn line_count(c: ChatStateView) -> int {
    c.lines.len() + (if c.streaming is Some {
        2int
    } else {
        0
    }) + (if c.error is Some {
        1int
    } else {
        0
    })
}

/// How many lines of a chat do not fit on the screen, as far as an offset can tell.
pub open spec fn overflow(c: ChatStateView, visible: u16) -> int {
    if line_count(c) <= visible {
        0
    } else if line_count(c) - visible <= u16::MAX {
        line_count(c) - visible
    } else {
        u16::MAX as int
    }
}

/// How many lines of a chat do not fit on the screen. One render line is reckoned per transcript
/// entry, plus those of the streaming text and the error.
pub fn total_lines_overflow(chat: &ChatState, visible: u16) -> (r: u16)
    ensures
        r == overflow(chat@, visible),
{
    assert(chat@.lines.len() == chat.lines.len());
    let mut count: u32 = if chat.lines.len() < 0x20000 {
        chat.lines.len() as u32
    } else {
        0x20000
    };
    if chat.streaming.is_some() {
        count = count + 2;
    }
    if chat.error.is_some() {
        count = count + 1;
    }
    let over: u32 = count.saturating_sub(visible as u32);
    if over <= 0xFFFF {
        over as u16
    } else {
        0xFFFF
    }
}

/// The first line of a chat that is shown: `scroll` lines up from where the last line is at the
/// bottom, but never above the first line.
pub fn scroll_offset(chat: &ChatState, visible: u16) -> (r: u16)
    ensures
        r == (if chat@.scroll <= overflow(chat@, visible) {
            overflow(chat@, visible) - chat@.scroll
        } else {
            0
        }),
{
    total_lines_overflow(chat, visible).saturating_sub(chat.scroll)
}

/// The title of the transcript.
pub fn chat_title(chat: &ChatState) -> (r: String)
    ensures
        r@ == " tars chat  ["@ + chat@.model + "] "@,
{
    let mut out: String = " tars chat  [".to_owned();
    out.append(chat.model.as_str());
    out.append("] ");
    out
}

/// The title of the input field.
pub fn input_title(chat: &ChatState) -> (r: Span)
    ensures
        r@ == (if chat@.busy {
            span(
                " working... (esc disabled while busy) "@,
                crate::tui::markdown::colored(Color::Yellow),
            )
        } else {
            raw(" message  (enter send  esc back) "@)
        }),
{
    if chat.busy {
        span_of(" working... (esc disabled while busy) ", Style::color(Color::Yellow))
    } else {
        span_of(" message  (enter send  esc back) ", Style::plain())
    }
}

/// The status line.
pub open spec fn status(c: ChatStateView) -> LineView {
    LineView {
        spans: seq![
            raw("pgup/pgdn scroll  "@),
            raw("session "@ + c.session_id),
            raw(
                if c.scroll > 0 {
                    "  (scrolled "@ + crate::text::decimal(c.scroll as nat)
                        + " lines, pgdn to follow)"@
                } else {
                    seq![]
                },
            ),
        ],
        style: crate::tui::markdown::dimmed(),
    }
}

/// The status line.
pub fn status_line(chat: &ChatState) -> (r: Line)
    ensures
        r@ == status(chat@),
{
    let mut session: String = "session ".to_owned();
    session.append(chat.session_id.as_str());
    let mut note: String = String::new();
    if chat.scroll > 0 {
        note = "  (scrolled ".to_owned();
        note.append(u64_text(chat.scroll as u64).as_str());
        note.append(" lines, pgdn to follow)");
    }
    let spans: Vec<Span> = vec![
        span_of("pgup/pgdn scroll  ", Style::plain()),
        span_of(session.as_str(), Style::plain()),
        span_of(note.as_str(), Style::plain()),
    ];
    let r = Line { spans, style: Style::dim() };
    assert(note@ =~= status(chat@).spans[2].text);
    assert(r@.spans =~= status(chat@).spans);
    r
}

/// Every entry of the transcript is on the screen, in order, before anything that is still
/// streaming in.
pub proof fn law_transcript_comes_first(c: ChatStateView, i: int)
    requires
        0 <= i < c.lines.len(),
    ensures
        chat_view(c)[i] == entry(c.lines[i]),
        chat_view(c).len() >= line_count(c),
{
}

/// What is being thought and written, and the last error, stand below the transcript in this order, each
/// only where there is something.
pub proof fn law_live_lines(c: ChatStateView)
    ensures
        ({
            let view = chat_view(c);
            let n = c.lines.len() as int;
            &&& view.len() == n + (if c.thinking is Some {
                1int
            } else {
                0
            }) + (if c.streaming is Some {
                2int
            } else {
                0
            }) + (if c.error is Some {
                1int
            } else {
                0
            })
            &&& c.thinking matches Some(t) ==> view[n] == dim_line(t)
            &&& c.thinking is None ==> (c.streaming matches Some(t) ==> view[n] == plain_line(t))
            &&& c.thinking is Some ==> (c.streaming matches Some(t) ==> view[n + 1] == plain_line(
                t,
            ))
            &&& c.error matches Some(e) ==> view.last() == color_line("error: "@ + e, Color::Red)
        }),
{
}

/// An entry shows its text: what a user wrote behind a mark, what the assistant wrote as it is, and of a
/// tool its name, in red where it failed.
pub proof fn law_entries_show_their_text(l: TranscriptLineView)
    ensures
        match l {
            TranscriptLineView::User(text) => crate::tui::markdown::spans_text(entry(l).spans)
                == "you  "@ + text,
            TranscriptLineView::Assistant(text) => entry(l) == crate::tui::markdown::line_in(
                text,
                crate::tui::markdown::plain_style(),
            ),
            TranscriptLineView::Tool { name, is_error } => {
                &&& crate::text::ends_with(entry(l).spans[0].text, name)
                &&& (entry(l).spans[0].style.color == Color::Red) == is_error
            },
            TranscriptLineView::Summary(_) => entry(l).style.dim,
            TranscriptLineView::Info(text) => entry(l) == crate::tui::markdown::line_in(
                text,
                crate::tui::markdown::dimmed(),
            ),
        },
{
    match l {
        TranscriptLineView::User(text) => {
            let spans = entry(l).spans;
            let parts = Seq::new(spans.len(), |i: int| spans[i].text);
            let first = parts.subrange(0, 1);
            assert(parts.subrange(0, parts.len() - 1) =~= first);
            assert(first.subrange(0, 0) =~= Seq::empty());
            assert(crate::text::concat(first.subrange(0, first.len() - 1)) =~= Seq::empty());
            assert(crate::text::concat(first) =~= "you  "@);
        },
        TranscriptLineView::Tool { name, is_error } => {
            let text = entry(l).spans[0].text;
            assert(text.subrange(text.len() - name.len(), text.len() as int) =~= name);
        },
        _ => {},
    }
}

/// The chosen session is marked, and no other; each row shows its session.
pub proof fn law_rows(p: PickerStateView, i: int)
    requires
        0 <= i < p.sessions.len(),
    ensures
        rows(p).len() == p.sessions.len(),
        rows(p)[i] == row(p, i),
        i == p.selected ==> row(p, i).spans.len() == 2 && row(p, i).spans[0].text == "> "@ && row(
            p,
            i,
        ).spans[1].text == crate::tui::app::label(p.sessions[i]),
        i != p.selected ==> row(p, i) == crate::tui::markdown::line_in(
            "  "@ + crate::tui::app::label(p.sessions[i]),
            crate::tui::markdown::plain_style(),
        ),
{
}

/// A chat can be scrolled by as many lines as do not fit.
pub proof fn law_overflow(c: ChatStateView, visible: u16)
    ensures
        line_count(c) <= visible <==> overflow(c, visible) == 0,
        line_count(c) > visible && line_count(c) - visible <= u16::MAX ==> overflow(c, visible)
            + visible == line_count(c),
{
}

} // verus!
