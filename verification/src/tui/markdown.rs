//! Markdown rendering for the TUI transcript.
//!
//! Covers what LLM output actually contains: headings, paragraphs, bold/italic/strikethrough,
//! inline code, fenced code blocks, lists, block quotes, and horizontal rules. Unknown constructs
//! degrade to plain text.
//!
//! Output is a flat list of lines; the caller wraps them to the width of the terminal.

use pulldown_cmark::{Event, Tag, TagEnd};
use vstd::prelude::*;

use crate::text::{str_lines, str_split};

verus! {

/// The colors in use.
#[derive(Debug, Clone, Copy, PartialEq, Eq, Structural)]
pub enum Color {
    /// Whatever color the surroundings have.
    Plain,
    Cyan,
    Green,
    Yellow,
    Red,
}

/// How a text looks.
#[derive(Debug, Clone, Copy, PartialEq, Eq, Structural)]
pub struct Style {
    pub color: Color,
    pub bold: bool,
    pub dim: bool,
    pub italic: bool,
    pub crossed_out: bool,
}

/// Plain text.
pub open spec fn plain_style() -> Style {
    Style { color: Color::Plain, bold: false, dim: false, italic: false, crossed_out: false }
}

/// Plain text in a color.
pub open spec fn colored(color: Color) -> Style {
    Style { color, ..plain_style() }
}

/// Dim text.
pub open spec fn dimmed() -> Style {
    Style { dim: true, ..plain_style() }
}

impl Style {
    /// Plain text.
    pub fn plain() -> (r: Self)
        ensures
            r == plain_style(),
    {
        Style { color: Color::Plain, bold: false, dim: false, italic: false, crossed_out: false }
    }

    /// Plain text in a color.
    pub fn color(color: Color) -> (r: Self)
        ensures
            r == colored(color),
    {
        Style { color, bold: false, dim: false, italic: false, crossed_out: false }
    }

    /// Dim text.
    pub fn dim() -> (r: Self)
        ensures
            r == dimmed(),
    {
        Style { color: Color::Plain, bold: false, dim: true, italic: false, crossed_out: false }
    }
}

/// The elements of a markdown text that are told apart.
#[derive(Debug, Clone, Copy, PartialEq, Eq, Structural)]
pub enum Mark {
    Paragraph,
    /// A heading, with its level.
    Heading(u8),
    Strong,
    Emphasis,
    Strikethrough,
    CodeBlock,
    BlockQuote,
    List,
    Item,
    HtmlBlock,
    Other,
}

/// A text in one style.
#[derive(Debug, PartialEq)]
pub struct Span {
    pub text: String,
    pub style: Style,
}

/// What a [`Span`] holds.
#[verifier::ext_equal]
pub struct SpanView {
    pub text: Seq<char>,
    pub style: Style,
}

impl View for Span {
    type V = SpanView;

    open spec fn view(&self) -> SpanView {
        SpanView {
            text: self.text@,
            style: self.style,
        }
    }
}

impl DeepView for Span {
    type V = SpanView;

    open spec fn deep_view(&self) -> SpanView {
        self@
    }
}

impl Clone for Span {
    fn clone(&self) -> (r: Self)
        ensures
            r@ == self@,
    {
        let r = Span {
            text: self.text.clone(),
            style: self.style,
        };
        r
    }
}

/// A line of styled texts.
#[derive(Debug, PartialEq)]
pub struct Line {
    pub spans: Vec<Span>,
    /// The style that those of the texts add to.
    pub style: Style,
}

/// What a [`Line`] holds.
#[verifier::ext_equal]
pub struct LineView {
    pub spans: Seq<SpanView>,
    pub style: Style,
}

impl View for Line {
    type V = LineView;

    open spec fn view(&self) -> LineView {
        LineView {
            spans: self.spans.deep_view(),
            style: self.style,
        }
    }
}

impl DeepView for Line {
    type V = LineView;

    open spec fn deep_view(&self) -> LineView {
        self@
    }
}

impl Clone for Line {
    fn clone(&self) -> (r: Self)
        ensures
            r@ == self@,
    {
        let r = Line {
            spans: self.spans.clone(),
            style: self.style,
        };
        assert(r.spans.deep_view() =~= self.spans.deep_view());
        r
    }
}

/// A piece of a markdown text.
#[derive(Debug, PartialEq)]
pub enum Token {
    /// An element starts.
    Start(Mark),
    /// An element ends.
    End(Mark),
    Text(String),
    /// Inline code.
    Code(String),
    /// HTML, which is shown as it stands.
    Html(String),
    SoftBreak,
    HardBreak,
    Rule,
    Other,
}

/// What a [`Token`] holds.
#[verifier::ext_equal]
pub enum TokenView {
    Start(Mark),
    End(Mark),
    Text(Seq<char>),
    Code(Seq<char>),
    Html(Seq<char>),
    SoftBreak,
    HardBreak,
    Rule,
    Other,
}

impl View for Token {
    type V = TokenView;

    open spec fn view(&self) -> TokenView {
        match *self {
            Token::Start(x) => TokenView::Start(x),
            Token::End(x) => TokenView::End(x),
            Token::Text(x) => TokenView::Text(x@),
            Token::Code(x) => TokenView::Code(x@),
            Token::Html(x) => TokenView::Html(x@),
            Token::SoftBreak => TokenView::SoftBreak,
            Token::HardBreak => TokenView::HardBreak,
            Token::Rule => TokenView::Rule,
            Token::Other => TokenView::Other,
        }
    }
}

impl DeepView for Token {
    type V = TokenView;

    open spec fn deep_view(&self) -> TokenView {
        self@
    }
}

impl Clone for Token {
    fn clone(&self) -> (r: Self)
        ensures
            r@ == self@,
    {
        match self {
            Token::Start(x) => Token::Start(*x),
            Token::End(x) => Token::End(*x),
            Token::Text(x) => Token::Text(x.clone()),
            Token::Code(x) => Token::Code(x.clone()),
            Token::Html(x) => Token::Html(x.clone()),
            Token::SoftBreak => Token::SoftBreak,
            Token::HardBreak => Token::HardBreak,
            Token::Rule => Token::Rule,
            Token::Other => Token::Other,
        }
    }
}

// ---------------------------------------------------------------------------
// Parsing
// ---------------------------------------------------------------------------

/// An event of `pulldown_cmark`.
#[verifier::external_type_specification]
#[verifier::external_body]
pub struct ExEvent<'a>(pulldown_cmark::Event<'a>);

/// What an event holds.
pub uninterp spec fn event_of(e: pulldown_cmark::Event) -> TokenView;

/// The events of a markdown text, as `pulldown_cmark::Parser::new` finds them.
pub uninterp spec fn events_of(text: Seq<char>) -> Seq<TokenView>;

/// `pulldown_cmark::Parser::new`: all events of a text, in order.
#[verifier::external_body]
fn parse_events(text: &str) -> (r: Vec<pulldown_cmark::Event<'_>>)
    ensures
        r@.len() == events_of(text@).len(),
        forall|i: int| 0 <= i < r@.len() ==> event_of(#[trigger] r@[i]) == events_of(text@)[i],
{
    pulldown_cmark::Parser::new(text).collect()
}

/// The `pulldown_cmark::Event` variant `Start`: the element that starts, told by its
/// `pulldown_cmark::Tag`. Any other variant gives nothing.
#[verifier::external_body]
fn start_mark(e: &pulldown_cmark::Event<'_>) -> (r: Option<Mark>)
    ensures
        match r {
            Some(m) => event_of(*e) == TokenView::Start(m),
            None => !(event_of(*e) is Start),
        },
{
    let Event::Start(tag) = e else { return None };
    Some(match tag {
        Tag::Paragraph => Mark::Paragraph,
        Tag::Heading { level, .. } => Mark::Heading(*level as u8),
        Tag::Strong => Mark::Strong,
        Tag::Emphasis => Mark::Emphasis,
        Tag::Strikethrough => Mark::Strikethrough,
        Tag::CodeBlock(_) => Mark::CodeBlock,
        Tag::BlockQuote(_) => Mark::BlockQuote,
        Tag::List(_) => Mark::List,
        Tag::Item => Mark::Item,
        Tag::HtmlBlock => Mark::HtmlBlock,
        _ => Mark::Other,
    })
}

/// The `pulldown_cmark::Event` variant `End`: the element that ends, told by its
/// `pulldown_cmark::TagEnd`. Any other variant gives nothing.
#[verifier::external_body]
fn end_mark(e: &pulldown_cmark::Event<'_>) -> (r: Option<Mark>)
    ensures
        match r {
            Some(m) => event_of(*e) == TokenView::End(m),
            None => !(event_of(*e) is End),
        },
{
    let Event::End(tag) = e else { return None };
    Some(match tag {
        TagEnd::Paragraph => Mark::Paragraph,
        TagEnd::Heading(level) => Mark::Heading(*level as u8),
        TagEnd::Strong => Mark::Strong,
        TagEnd::Emphasis => Mark::Emphasis,
        TagEnd::Strikethrough => Mark::Strikethrough,
        TagEnd::CodeBlock => Mark::CodeBlock,
        TagEnd::BlockQuote(_) => Mark::BlockQuote,
        TagEnd::List(_) => Mark::List,
        TagEnd::Item => Mark::Item,
        TagEnd::HtmlBlock => Mark::HtmlBlock,
        _ => Mark::Other,
    })
}

/// The variants of `pulldown_cmark::Event` that neither start nor end an element.
#[verifier::external_body]
fn leaf_token(e: &pulldown_cmark::Event<'_>) -> (r: Token)
    ensures
        !(event_of(*e) is Start) && !(event_of(*e) is End) ==> r@ == event_of(*e),
{
    match e {
        Event::Text(t) => Token::Text(t.to_string()),
        Event::Code(c) => Token::Code(c.to_string()),
        Event::Html(h) => Token::Html(h.to_string()),
        Event::InlineHtml(h) => Token::Html(h.to_string()),
        Event::SoftBreak => Token::SoftBreak,
        Event::HardBreak => Token::HardBreak,
        Event::Rule => Token::Rule,
        _ => Token::Other,
    }
}

/// The pieces of a markdown text.
pub fn tokens(text: &str) -> (r: Vec<Token>)
    ensures
        r.deep_view() == events_of(text@),
{
    let events = parse_events(text);
    let mut out: Vec<Token> = Vec::new();
    let mut i: usize = 0;
    while i < events.len()
        invariant
            i <= events.len(),
            events@.len() == events_of(text@).len(),
            forall|j: int|
                0 <= j < events@.len() ==> event_of(#[trigger] events@[j]) == events_of(text@)[j],
            out.len() == i,
            forall|j: int| 0 <= j < i ==> (#[trigger] out@[j])@ == events_of(text@)[j],
        decreases events.len() - i,
    {
        assert(event_of(events@[i as int]) == events_of(text@)[i as int]);
        let token = match start_mark(&events[i]) {
            Some(m) => Token::Start(m),
            None => match end_mark(&events[i]) {
                Some(m) => Token::End(m),
                None => leaf_token(&events[i]),
            },
        };
        out.push(token);
        i = i + 1;
    }
    assert(out.deep_view() =~= events_of(text@));
    out
}

// ---------------------------------------------------------------------------
// Rendering
// ---------------------------------------------------------------------------

/// What has been rendered so far: complete lines, the line that is being filled, the styles of the
/// elements around it, innermost last, and whether it is in a code block.
#[verifier::ext_equal]
pub struct RenderView {
    pub lines: Seq<LineView>,
    pub spans: Seq<SpanView>,
    pub styles: Seq<Style>,
    pub in_code: bool,
}

impl RenderView {
    /// Nothing rendered yet.
    pub open spec fn start() -> RenderView {
        RenderView { lines: seq![], spans: seq![], styles: seq![], in_code: false }
    }

    /// The innermost style.
    pub open spec fn style(self) -> Style {
        if self.styles.len() > 0 {
            self.styles.last()
        } else {
            plain_style()
        }
    }

    /// The line that is being filled, if any, is complete.
    pub open spec fn flushed(self) -> RenderView {
        if self.spans.len() > 0 {
            RenderView {
                lines: self.lines.push(LineView { spans: self.spans, style: plain_style() }),
                spans: seq![],
                ..self
            }
        } else {
            self
        }
    }

    /// One more text in the line that is being filled.
    pub open spec fn with_span(self, text: Seq<char>, style: Style) -> RenderView {
        RenderView { spans: self.spans.push(SpanView { text, style }), ..self }
    }

    /// One more complete line.
    pub open spec fn with_line(self, l: LineView) -> RenderView {
        RenderView { lines: self.lines.push(l), ..self }
    }

    /// Inside an element with a style.
    pub open spec fn styled(self, style: Style) -> RenderView {
        RenderView { styles: self.styles.push(style), ..self }
    }

    /// Outside the innermost element with a style.
    pub open spec fn unstyled(self) -> RenderView {
        RenderView {
            styles: if self.styles.len() > 0 {
                self.styles.drop_last()
            } else {
                self.styles
            },
            ..self
        }
    }

    /// Whether the line that is being filled holds more than the marks of quotes and list items,
    /// which alone are dim.
    pub open spec fn has_text(self) -> bool {
        self.spans.len() > 0 && !self.spans.last().style.dim
    }

    /// A line that holds text is complete; one that holds marks only goes on.
    pub open spec fn settled(self) -> RenderView {
        if self.has_text() {
            self.flushed()
        } else {
            self
        }
    }

    /// A blank line behind what is there, unless there is nothing or one already.
    pub open spec fn separated(self) -> RenderView {
        if self.lines.len() > 0 && self.lines.last().spans.len() > 0 {
            self.with_line(LineView { spans: seq![], style: plain_style() })
        } else {
            self
        }
    }

    /// A block starts: a blank line comes before it, unless it stands right behind a mark.
    pub open spec fn opened(self) -> RenderView {
        let s = self.settled();
        if s.spans.len() == 0 {
            s.separated()
        } else {
            s
        }
    }

    /// An element starts. Blocks are separated by a blank line; the items of a list, and a list
    /// inside the text of an item, are not. Headings are bold, those of the two highest levels cyan
    /// as well; list items and quotes get a mark.
    pub open spec fn started(self, m: Mark) -> RenderView {
        match m {
            Mark::Paragraph => self.settled().separated(),
            Mark::Heading(level) => self.opened().styled(
                Style {
                    bold: true,
                    color: if level <= 2 {
                        Color::Cyan
                    } else {
                        Color::Plain
                    },
                    ..plain_style()
                },
            ),
            Mark::Strong => self.styled(Style { bold: true, ..self.style() }),
            Mark::Emphasis => self.styled(Style { italic: true, ..self.style() }),
            Mark::Strikethrough => self.styled(Style { crossed_out: true, ..self.style() }),
            Mark::CodeBlock => RenderView {
                in_code: true,
                ..self.opened().styled(colored(Color::Green))
            },
            Mark::BlockQuote => self.opened().with_span("> "@, dimmed()),
            Mark::List => if self.has_text() {
                self
            } else {
                self.opened()
            },
            Mark::Item => self.flushed().with_span("• "@, dimmed()),
            Mark::HtmlBlock => self.opened(),
            Mark::Other => self,
        }
    }

    /// An element ends.
    pub open spec fn ended(self, m: Mark) -> RenderView {
        match m {
            Mark::Heading(_) => self.unstyled().flushed(),
            Mark::CodeBlock => (RenderView { in_code: false, ..self.unstyled() }).flushed(),
            Mark::Paragraph => self.flushed(),
            Mark::Item => self.flushed(),
            Mark::Strong => self.unstyled(),
            Mark::Emphasis => self.unstyled(),
            Mark::Strikethrough => self.unstyled(),
            Mark::BlockQuote => self.flushed(),
            Mark::List => self,
            Mark::HtmlBlock => self.flushed(),
            Mark::Other => self,
        }
    }

    /// The first `n` lines of code or HTML, each on a line of its own.
    pub open spec fn with_code(self, segments: Seq<Seq<char>>, style: Style, n: int) -> RenderView
        decreases n,
    {
        if n <= 0 {
            self
        } else {
            let before = self.with_code(segments, style, n - 1);
            let here = if n > 1 {
                before.flushed()
            } else {
                before
            };
            if segments[n - 1].len() > 0 {
                here.with_span(segments[n - 1], style)
            } else {
                here
            }
        }
    }

    /// The next piece.
    pub open spec fn step(self, t: TokenView) -> RenderView {
        match t {
            TokenView::Start(m) => self.started(m),
            TokenView::End(m) => self.ended(m),
            TokenView::Text(text) => if self.in_code {
                let segments = crate::text::split(text, '\n');
                self.with_code(segments, self.style(), segments.len() as int)
            } else {
                self.with_span(text, self.style())
            },
            TokenView::Code(text) => self.with_span(
                text,
                Style { color: Color::Yellow, ..self.style() },
            ),
            TokenView::Html(text) => {
                let segments = crate::text::split(text, '\n');
                self.with_code(segments, self.style(), segments.len() as int)
            },
            TokenView::SoftBreak => self.flushed(),
            TokenView::HardBreak => self.flushed(),
            TokenView::Rule => self.opened().flushed().with_line(
                line_in("────────────────────────────────────────"@, dimmed()),
            ),
            TokenView::Other => self,
        }
    }
}

/// A line of a text in one style.
pub open spec fn line_in(text: Seq<char>, style: Style) -> LineView {
    LineView {
        spans: Seq::new(
            crate::text::lines(text).len(),
            |i: int| SpanView { text: crate::text::lines(text)[i], style: plain_style() },
        ),
        style,
    }
}

/// What the first `n` pieces render as.
pub open spec fn rendered(ts: Seq<TokenView>, n: int) -> RenderView
    decreases n,
{
    if n <= 0 {
        RenderView::start()
    } else {
        rendered(ts, n - 1).step(ts[n - 1])
    }
}

/// Lines without the blank ones at their end.
pub open spec fn without_trailing(lines: Seq<LineView>) -> Seq<LineView>
    decreases lines.len(),
{
    if lines.len() > 0 && lines.last().spans.len() == 0 {
        without_trailing(lines.drop_last())
    } else {
        lines
    }
}

/// The lines of a markdown text.
pub open spec fn document(ts: Seq<TokenView>) -> Seq<LineView> {
    without_trailing(rendered(ts, ts.len() as int).flushed().lines)
}

/// What has been rendered so far.
struct Render {
    lines: Vec<Line>,
    spans: Vec<Span>,
    styles: Vec<Style>,
    in_code: bool,
}

impl View for Render {
    type V = RenderView;

    closed spec fn view(&self) -> RenderView {
        RenderView {
            lines: self.lines.deep_view(),
            spans: self.spans.deep_view(),
            styles: self.styles@,
            in_code: self.in_code,
        }
    }
}

/// A line of a text in one style.
pub fn styled_line(text: &str, style: Style) -> (r: Line)
    ensures
        r@ == line_in(text@, style),
{
    let lines = str_lines(text);
    let ghost all = lines.deep_view();
    let mut spans: Vec<Span> = Vec::new();
    let mut i: usize = 0;
    while i < lines.len()
        invariant
            i <= lines.len(),
            all == lines.deep_view(),
            spans.len() == i,
            forall|j: int|
                0 <= j < i ==> (#[trigger] spans@[j])@ == (SpanView {
                    text: all[j],
                    style: plain_style(),
                }),
        decreases lines.len() - i,
    {
        assert(all[i as int] == lines[i as int]@);
        spans.push(Span { text: lines[i].clone(), style: Style::plain() });
        i = i + 1;
    }
    let r = Line { spans, style };
    assert(r@.spans =~= line_in(text@, style).spans);
    r
}

impl Render {
    fn new() -> (r: Self)
        ensures
            r@ == RenderView::start(),
    {
        let r = Render {
            lines: Vec::new(),
            spans: Vec::new(),
            styles: Vec::new(),
            in_code: false,
        };
        assert(r@.lines =~= seq![]);
        assert(r@.spans =~= seq![]);
        r
    }

    fn style(&self) -> (r: Style)
        ensures
            r == self@.style(),
    {
        if self.styles.len() > 0 {
            self.styles[self.styles.len() - 1]
        } else {
            Style::plain()
        }
    }

    fn flush(&mut self)
        ensures
            final(self)@ == old(self)@.flushed(),
    {
        assert(self@.spans.len() == self.spans.len());
        if self.spans.len() > 0 {
            let ghost before = self@.lines;
            let mut spans: Vec<Span> = Vec::new();
            std::mem::swap(&mut spans, &mut self.spans);
            let line = Line { spans, style: Style::plain() };
            self.lines.push(line);
            assert(self@.lines =~= before.push(line@));
            assert(self@.spans =~= seq![]);
        }
    }

    fn push_span(&mut self, text: String, style: Style)
        ensures
            final(self)@ == old(self)@.with_span(text@, style),
    {
        let ghost before = self@.spans;
        let span = Span { text, style };
        self.spans.push(span);
        assert(self@.spans =~= before.push(span@));
    }

    fn push_line(&mut self, line: Line)
        ensures
            final(self)@ == old(self)@.with_line(line@),
    {
        let ghost before = self@.lines;
        self.lines.push(line);
        assert(self@.lines =~= before.push(line@));
    }

    fn push_style(&mut self, style: Style)
        ensures
            final(self)@ == old(self)@.styled(style),
    {
        self.styles.push(style);
    }

    fn pop_style(&mut self)
        ensures
            final(self)@ == old(self)@.unstyled(),
    {
        let ghost before = self.styles@;
        let _ = self.styles.pop();
        assert(self.styles@ =~= (if before.len() > 0 {
            before.drop_last()
        } else {
            before
        }));
    }

    fn holds_text(&self) -> (r: bool)
        ensures
            r == self@.has_text(),
    {
        assert(self@.spans.len() == self.spans.len());
        if self.spans.len() > 0 {
            let last: usize = self.spans.len() - 1;
            assert(self@.spans.last() == self.spans[last as int]@);
            !self.spans[last].style.dim
        } else {
            false
        }
    }

    fn settle(&mut self)
        ensures
            final(self)@ == old(self)@.settled(),
    {
        if self.holds_text() {
            self.flush();
        }
    }

    fn separate(&mut self)
        ensures
            final(self)@ == old(self)@.separated(),
    {
        assert(self@.lines.len() == self.lines.len());
        if self.lines.len() > 0 {
            let last: usize = self.lines.len() - 1;
            assert(self@.lines.last() == self.lines[last as int]@);
            assert(self@.lines.last().spans.len() == self.lines[last as int].spans.len());
            if self.lines[last].spans.len() > 0 {
                let blank = Line { spans: Vec::new(), style: Style::plain() };
                assert(blank@.spans =~= seq![]);
                self.push_line(blank);
            }
        }
    }

    fn open(&mut self)
        ensures
            final(self)@ == old(self)@.opened(),
    {
        self.settle();
        assert(self@.spans.len() == self.spans.len());
        if self.spans.len() == 0 {
            self.separate();
        }
    }

    fn start_mark(&mut self, m: Mark)
        ensures
            final(self)@ == old(self)@.started(m),
    {
        match m {
            Mark::Paragraph => {
                self.settle();
                self.separate();
            },
            Mark::Heading(level) => {
                self.open();
                let color = if level <= 2 {
                    Color::Cyan
                } else {
                    Color::Plain
                };
                self.push_style(
                    Style { color, bold: true, dim: false, italic: false, crossed_out: false },
                );
            },
            Mark::Strong => {
                let mut style = self.style();
                style.bold = true;
                self.push_style(style);
            },
            Mark::Emphasis => {
                let mut style = self.style();
                style.italic = true;
                self.push_style(style);
            },
            Mark::Strikethrough => {
                let mut style = self.style();
                style.crossed_out = true;
                self.push_style(style);
            },
            Mark::CodeBlock => {
                self.open();
                self.in_code = true;
                self.push_style(Style::color(Color::Green));
            },
            Mark::BlockQuote => {
                self.open();
                self.push_span("> ".to_owned(), Style::dim());
            },
            Mark::List => {
                if !self.holds_text() {
                    self.open();
                }
            },
            Mark::Item => {
                self.flush();
                self.push_span("• ".to_owned(), Style::dim());
            },
            Mark::HtmlBlock => {
                self.open();
            },
            Mark::Other => {},
        }
    }

    fn end_mark(&mut self, m: Mark)
        ensures
            final(self)@ == old(self)@.ended(m),
    {
        match m {
            Mark::Heading(_) => {
                self.pop_style();
                self.flush();
            },
            Mark::CodeBlock => {
                self.in_code = false;
                self.pop_style();
                self.flush();
            },
            Mark::Paragraph => {
                self.flush();
            },
            Mark::Item => {
                self.flush();
            },
            Mark::Strong => {
                self.pop_style();
            },
            Mark::Emphasis => {
                self.pop_style();
            },
            Mark::Strikethrough => {
                self.pop_style();
            },
            Mark::BlockQuote => {
                self.flush();
            },
            Mark::List => {},
            Mark::HtmlBlock => {
                self.flush();
            },
            Mark::Other => {},
        }
    }

    fn push_code(&mut self, text: &str, style: Style)
        ensures
            ({
                let segments = crate::text::split(text@, '\n');
                final(self)@ == old(self)@.with_code(segments, style, segments.len() as int)
            }),
    {
        let segments = str_split(text, '\n');
        let ghost all = segments.deep_view();
        let ghost start = self@;
        let mut i: usize = 0;
        while i < segments.len()
            invariant
                i <= segments.len(),
                all == segments.deep_view(),
                self@ == start.with_code(all, style, i as int),
            decreases segments.len() - i,
        {
            assert(all[i as int] == segments[i as int]@);
            if i > 0 {
                self.flush();
            }
            if !segments[i].as_str().is_empty() {
                self.push_span(segments[i].clone(), style);
            }
            i = i + 1;
        }
    }

    fn push_token(&mut self, t: &Token)
        ensures
            final(self)@ == old(self)@.step(t@),
    {
        match t {
            Token::Start(m) => {
                self.start_mark(*m);
            },
            Token::End(m) => {
                self.end_mark(*m);
            },
            Token::Text(text) => {
                let style = self.style();
                if self.in_code {
                    self.push_code(text.as_str(), style);
                } else {
                    self.push_span(text.clone(), style);
                }
            },
            Token::Code(text) => {
                let mut style = self.style();
                style.color = Color::Yellow;
                self.push_span(text.clone(), style);
            },
            Token::Html(text) => {
                let style = self.style();
                self.push_code(text.as_str(), style);
            },
            Token::SoftBreak => {
                self.flush();
            },
            Token::HardBreak => {
                self.flush();
            },
            Token::Rule => {
                self.open();
                self.flush();
                self.push_line(
                    styled_line("────────────────────────────────────────", Style::dim()),
                );
            },
            Token::Other => {},
        }
    }
}

/// Render the pieces of a markdown text into styled lines.
pub fn render(ts: &[Token]) -> (r: Vec<Line>)
    ensures
        r.deep_view() == document(ts.deep_view()),
{
    let ghost all = ts.deep_view();
    let mut state = Render::new();
    let mut i: usize = 0;
    assert(all.len() == ts.len());
    while i < ts.len()
        invariant
            i <= ts.len(),
            all == ts.deep_view(),
            state@ == rendered(all, i as int),
        decreases ts.len() - i,
    {
        assert(all[i as int] == ts@[i as int]@);
        state.push_token(&ts[i]);
        i = i + 1;
    }
    assert(all.len() == ts.len());
    state.flush();
    let mut lines = state.lines;
    let ghost whole = lines.deep_view();
    loop
        invariant_except_break
            without_trailing(lines.deep_view()) == without_trailing(whole),
        ensures
            lines.deep_view() == without_trailing(whole),
        decreases lines.len(),
    {
        assert(lines.deep_view().len() == lines.len());
        if lines.len() == 0 {
            break;
        }
        let last: usize = lines.len() - 1;
        assert(lines.deep_view().last() == lines[last as int]@);
        assert(lines[last as int]@.spans.len() == lines[last as int].spans.len());
        if lines[last].spans.len() > 0 {
            break;
        }
        let ghost before = lines.deep_view();
        let _ = lines.pop();
        assert(lines.deep_view() =~= before.drop_last());
    }
    lines
}

/// Render markdown `text` into styled lines. Blocks are separated by one blank line; a trailing
/// blank line is trimmed.
pub fn to_lines(text: &str) -> (r: Vec<Line>)
    ensures
        r.deep_view() == document(events_of(text@)),
{
    let ts = tokens(text);
    let list = ts.as_slice();
    assert(list.deep_view() =~= ts.deep_view());
    render(list)
}

/// Whether a line, if it is blank, stands behind one that is not.
pub open spec fn single_at(lines: Seq<LineView>, i: int) -> bool {
    lines[i].spans.len() == 0 ==> i > 0 && lines[i - 1].spans.len() > 0
}

/// Whether every blank line stands behind a line that is none.
pub open spec fn single_blanks(lines: Seq<LineView>) -> bool {
    forall|i: int| 0 <= i < lines.len() ==> #[trigger] single_at(lines, i)
}

/// Blank lines stand alone between lines of text: a rendered text neither starts nor ends in one,
/// and never holds two in a row.
pub proof fn law_blank_lines_stand_alone(ts: Seq<TokenView>, i: int)
    requires
        0 <= i < document(ts).len(),
        document(ts)[i].spans.len() == 0,
    ensures
        0 < i < document(ts).len() - 1,
        document(ts)[i - 1].spans.len() > 0,
        document(ts)[i + 1].spans.len() > 0,
{
    lemma_rendered(ts, ts.len() as int);
    let all = rendered(ts, ts.len() as int).flushed().lines;
    lemma_without_trailing(all);
    lemma_trimmed(all);
    let d = document(ts);
    assert(single_blanks(d));
    assert(single_at(d, i));
    assert(d[d.len() - 1].spans.len() > 0);
    assert(single_at(d, i + 1));
}

/// Blocks are separated: where a paragraph, a heading, a code block, a quote, HTML or a list starts
/// on a line of its own, there is nothing above it, or a blank line. So it is with a rule.
pub proof fn law_blocks_are_separated(r: RenderView, m: Mark)
    requires
        m is Paragraph || m is Heading || m is CodeBlock || m is BlockQuote || m is HtmlBlock
            || m is List,
        r.spans.len() == 0 || (r.has_text() && !(m is List)),
    ensures
        r.started(m).lines.len() > 0 ==> r.started(m).lines.last().spans.len() == 0,
        ({
            let above = r.step(TokenView::Rule).lines.drop_last();
            above.len() > 0 ==> above.last().spans.len() == 0
        }),
{
    let above = r.step(TokenView::Rule).lines.drop_last();
    assert(above =~= r.opened().flushed().lines);
}

proof fn lemma_trimmed(lines: Seq<LineView>)
    requires
        single_blanks(lines),
    ensures
        single_blanks(without_trailing(lines)),
    decreases lines.len(),
{
    if lines.len() > 0 && lines.last().spans.len() == 0 {
        let init = lines.drop_last();
        assert forall|i: int| 0 <= i < init.len() implies #[trigger] single_at(init, i) by {
            assert(single_at(lines, i));
        }
        lemma_trimmed(init);
    }
}

proof fn lemma_single(lines: Seq<LineView>, l: LineView)
    requires
        single_blanks(lines),
        l.spans.len() > 0 || (lines.len() > 0 && lines.last().spans.len() > 0),
    ensures
        single_blanks(lines.push(l)),
{
    let all = lines.push(l);
    assert forall|i: int| 0 <= i < all.len() implies #[trigger] single_at(all, i) by {
        if i < lines.len() {
            assert(single_at(lines, i));
        }
    }
}

proof fn lemma_flushed(r: RenderView)
    requires
        single_blanks(r.lines),
    ensures
        single_blanks(r.flushed().lines),
{
    if r.spans.len() > 0 {
        lemma_single(r.lines, LineView { spans: r.spans, style: plain_style() });
    }
}

proof fn lemma_opened(r: RenderView)
    requires
        single_blanks(r.lines),
    ensures
        single_blanks(r.settled().separated().lines),
        single_blanks(r.opened().lines),
{
    lemma_flushed(r);
    let s = r.settled();
    if s.lines.len() > 0 && s.lines.last().spans.len() > 0 {
        lemma_single(s.lines, LineView { spans: seq![], style: plain_style() });
    }
}

proof fn lemma_with_code(r: RenderView, segments: Seq<Seq<char>>, style: Style, n: int)
    requires
        single_blanks(r.lines),
    ensures
        single_blanks(r.with_code(segments, style, n).lines),
    decreases n,
{
    if n > 0 {
        lemma_with_code(r, segments, style, n - 1);
        lemma_flushed(r.with_code(segments, style, n - 1));
    }
}

proof fn lemma_rule_is_seen()
    ensures
        line_in("────────────────────────────────────────"@, dimmed()).spans.len() > 0,
{
    reveal_strlit("────────────────────────────────────────");
}

proof fn lemma_rendered(ts: Seq<TokenView>, n: int)
    ensures
        single_blanks(rendered(ts, n).lines),
        single_blanks(rendered(ts, n).flushed().lines),
    decreases n,
{
    if n > 0 {
        lemma_rendered(ts, n - 1);
        let r = rendered(ts, n - 1);
        lemma_flushed(r);
        lemma_opened(r);
        lemma_flushed(r.opened());
        match ts[n - 1] {
            TokenView::Text(text) | TokenView::Html(text) => {
                let segments = crate::text::split(text, '\n');
                lemma_with_code(r, segments, r.style(), segments.len() as int);
            },
            TokenView::Rule => {
                lemma_rule_is_seen();
                lemma_single(
                    r.opened().flushed().lines,
                    line_in("────────────────────────────────────────"@, dimmed()),
                );
            },
            TokenView::End(m) => {
                lemma_flushed(r.unstyled());
                lemma_flushed(RenderView { in_code: false, ..r.unstyled() });
            },
            _ => {},
        }
        assert(single_blanks(rendered(ts, n).lines));
    }
    lemma_flushed(rendered(ts, n));
}

/// A rendered text never ends in a blank line.
pub proof fn law_no_trailing_blank(ts: Seq<TokenView>)
    ensures
        document(ts).len() > 0 ==> document(ts).last().spans.len() > 0,
{
    lemma_without_trailing(rendered(ts, ts.len() as int).flushed().lines);
}

proof fn lemma_without_trailing(lines: Seq<LineView>)
    ensures
        ({
            let w = without_trailing(lines);
            w.len() > 0 ==> w.last().spans.len() > 0
        }),
    decreases lines.len(),
{
    if lines.len() > 0 && lines.last().spans.len() == 0 {
        lemma_without_trailing(lines.drop_last());
    }
}

/// The style of an element does not outlast it: what stands between its start and its end, as long
/// as it starts and ends elements in pairs, leaves the styles around it as they were.
pub proof fn law_style_does_not_leak(r: RenderView, m: Mark, inner: RenderView)
    requires
        m is Heading || m is Strong || m is Emphasis || m is Strikethrough || m is CodeBlock,
        inner.styles == r.started(m).styles,
    ensures
        inner.ended(m).styles == r.styles,
{
    assert(r.started(m).styles.drop_last() =~= r.styles);
}

/// The text of some spans.
pub open spec fn spans_text(spans: Seq<SpanView>) -> Seq<char> {
    crate::text::concat(Seq::new(spans.len(), |i: int| spans[i].text))
}

/// The text of some lines, one after the other.
pub open spec fn lines_text(lines: Seq<LineView>) -> Seq<char> {
    crate::text::concat(Seq::new(lines.len(), |i: int| spans_text(lines[i].spans)))
}

/// All text that has been rendered.
pub open spec fn text_of(r: RenderView) -> Seq<char> {
    lines_text(r.lines) + spans_text(r.spans)
}

/// What a piece adds to the text: text as it is, lines of code and HTML without their line ends, and
/// the marks of quotes, list items and rules.
pub open spec fn piece_text(t: TokenView, in_code: bool) -> Seq<char> {
    match t {
        TokenView::Text(text) => if in_code {
            crate::text::concat(crate::text::split(text, '\n'))
        } else {
            text
        },
        TokenView::Code(text) => text,
        TokenView::Html(text) => crate::text::concat(crate::text::split(text, '\n')),
        TokenView::Start(Mark::BlockQuote) => "> "@,
        TokenView::Start(Mark::Item) => "• "@,
        TokenView::Rule => "────────────────────────────────────────"@,
        _ => seq![],
    }
}

proof fn lemma_concat_push(parts: Seq<Seq<char>>, s: Seq<char>)
    ensures
        crate::text::concat(parts.push(s)) == crate::text::concat(parts) + s,
{
    let all = parts.push(s);
    assert(all.subrange(0, all.len() - 1) =~= parts);
}

proof fn lemma_spans_push(spans: Seq<SpanView>, s: SpanView)
    ensures
        spans_text(spans.push(s)) == spans_text(spans) + s.text,
{
    let parts = Seq::new(spans.len(), |i: int| spans[i].text);
    let all = spans.push(s);
    assert(Seq::new(all.len(), |i: int| all[i].text) =~= parts.push(s.text));
    lemma_concat_push(parts, s.text);
}

proof fn lemma_lines_push(lines: Seq<LineView>, l: LineView)
    ensures
        lines_text(lines.push(l)) == lines_text(lines) + spans_text(l.spans),
{
    let parts = Seq::new(lines.len(), |i: int| spans_text(lines[i].spans));
    let all = lines.push(l);
    assert(Seq::new(all.len(), |i: int| spans_text(all[i].spans)) =~= parts.push(
        spans_text(l.spans),
    ));
    lemma_concat_push(parts, spans_text(l.spans));
}

proof fn lemma_no_spans(spans: Seq<SpanView>)
    requires
        spans.len() == 0,
    ensures
        spans_text(spans) == Seq::<char>::empty(),
{
    assert(spans_text(spans) =~= Seq::empty());
}

proof fn lemma_text_flushed(r: RenderView)
    ensures
        text_of(r.flushed()) == text_of(r),
        r.flushed().spans.len() == 0,
        text_of(r.flushed()) == lines_text(r.flushed().lines),
{
    lemma_no_spans(r.flushed().spans);
    if r.spans.len() > 0 {
        lemma_lines_push(r.lines, LineView { spans: r.spans, style: plain_style() });
    }
    assert(text_of(r.flushed()) =~= text_of(r));
    assert(text_of(r.flushed()) =~= lines_text(r.flushed().lines));
}

proof fn lemma_text_separated(r: RenderView)
    ensures
        text_of(r.separated()) == text_of(r),
{
    let blank = LineView { spans: seq![], style: plain_style() };
    lemma_lines_push(r.lines, blank);
    lemma_no_spans(blank.spans);
    assert(lines_text(r.lines) + Seq::<char>::empty() =~= lines_text(r.lines));
}

proof fn lemma_text_opened(r: RenderView)
    ensures
        text_of(r.settled().separated()) == text_of(r),
        text_of(r.opened()) == text_of(r),
{
    lemma_text_flushed(r);
    lemma_text_separated(r.settled());
}

proof fn lemma_text_span(r: RenderView, text: Seq<char>, style: Style)
    ensures
        text_of(r.with_span(text, style)) == text_of(r) + text,
{
    lemma_spans_push(r.spans, SpanView { text, style });
    assert(text_of(r.with_span(text, style)) =~= text_of(r) + text);
}

proof fn lemma_text_code(r: RenderView, segments: Seq<Seq<char>>, style: Style, n: int)
    requires
        0 <= n <= segments.len(),
    ensures
        text_of(r.with_code(segments, style, n)) == text_of(r) + crate::text::concat(
            segments.subrange(0, n),
        ),
    decreases n,
{
    let upto = segments.subrange(0, n);
    if n == 0 {
        assert(crate::text::concat(upto) =~= Seq::empty());
        assert(text_of(r) + crate::text::concat(upto) =~= text_of(r));
    } else {
        lemma_text_code(r, segments, style, n - 1);
        let before = r.with_code(segments, style, n - 1);
        let here = if n > 1 {
            before.flushed()
        } else {
            before
        };
        lemma_text_flushed(before);
        assert(upto =~= segments.subrange(0, n - 1).push(segments[n - 1]));
        lemma_concat_push(segments.subrange(0, n - 1), segments[n - 1]);
        if segments[n - 1].len() > 0 {
            lemma_text_span(here, segments[n - 1], style);
        }
        assert(text_of(r.with_code(segments, style, n)) =~= text_of(r) + crate::text::concat(upto));
    }
}

proof fn lemma_text_rule(r: RenderView)
    ensures
        text_of(r.step(TokenView::Rule)) == text_of(r)
            + "────────────────────────────────────────"@,
{
    let rule = "────────────────────────────────────────"@;
    reveal_strlit("────────────────────────────────────────");
    lemma_text_opened(r);
    let f = r.opened().flushed();
    lemma_text_flushed(r.opened());
    let l = line_in(rule, dimmed());
    assert(!rule.contains('\n'));
    crate::text::law_lines(rule, Seq::empty());
    assert(crate::text::lines(rule) == seq![rule]);
    lemma_lines_push(f.lines, l);
    assert(l.spans =~= seq![SpanView { text: rule, style: plain_style() }]);
    let none = Seq::<SpanView>::empty();
    lemma_no_spans(none);
    lemma_spans_push(none, SpanView { text: rule, style: plain_style() });
    assert(l.spans =~= none.push(SpanView { text: rule, style: plain_style() }));
    assert(spans_text(l.spans) =~= rule);
    assert(text_of(r.step(TokenView::Rule)) =~= text_of(r) + rule);
}

/// Each piece adds its text behind what is there, and nothing of what is there is lost.
pub proof fn law_pieces_add_their_text(r: RenderView, t: TokenView)
    ensures
        text_of(r.step(t)) == text_of(r) + piece_text(t, r.in_code),
{
    lemma_text_flushed(r);
    lemma_text_opened(r);
    match t {
        TokenView::Text(text) | TokenView::Html(text) => {
            let segments = crate::text::split(text, '\n');
            lemma_text_code(r, segments, r.style(), segments.len() as int);
            assert(segments.subrange(0, segments.len() as int) =~= segments);
            lemma_text_span(r, text, r.style());
        },
        TokenView::Code(text) => {
            lemma_text_span(r, text, Style { color: Color::Yellow, ..r.style() });
        },
        TokenView::Rule => {
            lemma_text_rule(r);
        },
        TokenView::Start(m) => {
            lemma_text_span(r.opened(), "> "@, dimmed());
            lemma_text_span(r.flushed(), "• "@, dimmed());
            assert(text_of(r.opened().styled(r.style())) == text_of(r));
            assert(text_of(r) + Seq::<char>::empty() =~= text_of(r));
        },
        TokenView::End(m) => {
            lemma_text_flushed(r.unstyled());
            lemma_text_flushed(RenderView { in_code: false, ..r.unstyled() });
            assert(text_of(r.unstyled()) == text_of(r));
            assert(text_of(r) + Seq::<char>::empty() =~= text_of(r));
        },
        _ => {
            assert(text_of(r) + Seq::<char>::empty() =~= text_of(r));
        },
    }
}

/// The text of the first `n` pieces.
pub open spec fn source_text(ts: Seq<TokenView>, n: int) -> Seq<char>
    decreases n,
{
    if n <= 0 {
        seq![]
    } else {
        source_text(ts, n - 1) + piece_text(ts[n - 1], rendered(ts, n - 1).in_code)
    }
}

proof fn lemma_source_text(ts: Seq<TokenView>, n: int)
    ensures
        text_of(rendered(ts, n)) == source_text(ts, n),
    decreases n,
{
    if n > 0 {
        lemma_source_text(ts, n - 1);
        law_pieces_add_their_text(rendered(ts, n - 1), ts[n - 1]);
    } else {
        let s = RenderView::start();
        lemma_no_spans(s.spans);
        assert(lines_text(s.lines) =~= Seq::empty());
        assert(text_of(s) =~= Seq::empty());
    }
}

proof fn lemma_text_trimmed(lines: Seq<LineView>)
    ensures
        lines_text(without_trailing(lines)) == lines_text(lines),
    decreases lines.len(),
{
    if lines.len() > 0 && lines.last().spans.len() == 0 {
        lemma_text_trimmed(lines.drop_last());
        lemma_lines_push(lines.drop_last(), lines.last());
        assert(lines.drop_last().push(lines.last()) =~= lines);
        lemma_no_spans(lines.last().spans);
        assert(lines_text(lines) =~= lines_text(lines.drop_last()));
    }
}

/// A rendered text holds the text of every piece, in order, and nothing else.
pub proof fn law_document_keeps_the_text(ts: Seq<TokenView>)
    ensures
        lines_text(document(ts)) == source_text(ts, ts.len() as int),
{
    let n = ts.len() as int;
    lemma_source_text(ts, n);
    lemma_text_flushed(rendered(ts, n));
    lemma_text_trimmed(rendered(ts, n).flushed().lines);
}

/// Text is code between the start and the end of a code block, and only there.
pub proof fn law_code_blocks(r: RenderView, t: TokenView)
    ensures
        r.step(t).in_code == (t == TokenView::Start(Mark::CodeBlock) || (r.in_code && t
            != TokenView::End(Mark::CodeBlock))),
        !RenderView::start().in_code,
{
    if let TokenView::Text(text) = t {
        let segments = crate::text::split(text, '\n');
        lemma_code_stays(r, segments, r.style(), segments.len() as int);
    }
    if let TokenView::Html(text) = t {
        let segments = crate::text::split(text, '\n');
        lemma_code_stays(r, segments, r.style(), segments.len() as int);
    }
}

proof fn lemma_code_stays(r: RenderView, segments: Seq<Seq<char>>, style: Style, n: int)
    ensures
        r.with_code(segments, style, n).in_code == r.in_code,
    decreases n,
{
    if n > 0 {
        lemma_code_stays(r, segments, style, n - 1);
    }
}

/// Each element changes the style in its own way and leaves the rest of it: strong text is bold, emphasis
/// italic, struck text crossed out; headings are bold, and cyan on the two highest levels; code blocks
/// are green. Text gets the style of the innermost element, and inline code is yellow besides.
pub proof fn law_styles(r: RenderView, level: u8, text: Seq<char>)
    ensures
        r.started(Mark::Strong).style() == (Style { bold: true, ..r.style() }),
        r.started(Mark::Emphasis).style() == (Style { italic: true, ..r.style() }),
        r.started(Mark::Strikethrough).style() == (Style { crossed_out: true, ..r.style() }),
        r.started(Mark::Heading(level)).style().bold,
        !r.started(Mark::Heading(level)).style().dim,
        r.started(Mark::Heading(level)).style().color == if level <= 2 {
            Color::Cyan
        } else {
            Color::Plain
        },
        r.started(Mark::CodeBlock).style().color == Color::Green,
        !r.in_code ==> r.step(TokenView::Text(text)).spans.last() == (SpanView {
            text,
            style: r.style(),
        }),
        r.step(TokenView::Code(text)).spans.last() == (SpanView {
            text,
            style: Style { color: Color::Yellow, ..r.style() },
        }),
{
}

/// A line ends at a break, and at the end of a block or of a list item.
pub proof fn law_lines_end(r: RenderView, m: Mark)
    requires
        m is Heading || m is CodeBlock || m is Paragraph || m is Item || m is BlockQuote
            || m is HtmlBlock,
    ensures
        r.step(TokenView::SoftBreak).spans.len() == 0,
        r.step(TokenView::HardBreak).spans.len() == 0,
        r.ended(m).spans.len() == 0,
        r.spans.len() > 0 ==> r.ended(m).lines == r.lines.push(
            LineView { spans: r.spans, style: plain_style() },
        ),
        r.spans.len() > 0 ==> r.step(TokenView::SoftBreak).lines == r.lines.push(
            LineView { spans: r.spans, style: plain_style() },
        ),
{
}

} // verus!
