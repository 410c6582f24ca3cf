//! The data of a provider's stream, out of the bytes that arrive.

use vstd::prelude::*;

use crate::providers::anthropic::{read_line as read_event_line, LineAction, LineActionView};
use crate::providers::openai::{read_line as read_chat_line, ChatLine, ChatLineView};
use crate::sse::LineBuffer;

verus! {

// ---------------------------------------------------------------------------
// Named events
// ---------------------------------------------------------------------------

/// The data of an event, with the event's name.
#[derive(Debug, PartialEq)]
pub struct NamedData {
    pub event: String,
    pub data: String,
}

/// What a [`NamedData`] holds.
#[verifier::ext_equal]
pub struct NamedDataView {
    pub event: Seq<char>,
    pub data: Seq<char>,
}

impl View for NamedData {
    type V = NamedDataView;

    open spec fn view(&self) -> NamedDataView {
        NamedDataView { event: self.event@, data: self.data@ }
    }
}

/// The data in lines before which the name in force is `name`. A name stays in force until the
/// next one.
pub open spec fn named_data(name: Seq<char>, lines: Seq<Seq<char>>) -> Seq<NamedDataView>
    decreases lines.len(),
{
    if lines.len() == 0 {
        seq![]
    } else {
        let rest = lines.subrange(1, lines.len() as int);
        match crate::providers::anthropic::line_action(lines[0]) {
            LineActionView::SetEvent(n) => named_data(n, rest),
            LineActionView::Data(data) => seq![NamedDataView { event: name, data }] + named_data(
                name,
                rest,
            ),
            LineActionView::Skip => named_data(name, rest),
        }
    }
}

/// The name in force after some lines.
pub open spec fn name_after(name: Seq<char>, lines: Seq<Seq<char>>) -> Seq<char>
    decreases lines.len(),
{
    if lines.len() == 0 {
        name
    } else {
        let rest = lines.subrange(1, lines.len() as int);
        match crate::providers::anthropic::line_action(lines[0]) {
            LineActionView::SetEvent(n) => name_after(n, rest),
            _ => name_after(name, rest),
        }
    }
}

/// Reads named events.
pub struct EventReader {
    buffer: LineBuffer,
    name: String,
}

/// What an [`EventReader`] holds.
#[verifier::ext_equal]
pub struct EventReaderView {
    /// Text that has not been read yet.
    pub text: Seq<char>,
    /// The name in force.
    pub name: Seq<char>,
}

impl EventReaderView {
    /// The data that can be read.
    pub open spec fn data(self) -> Seq<NamedDataView> {
        named_data(self.name, crate::sse::full_lines(self.text))
    }

    /// The name in force once that is read.
    pub open spec fn last_name(self) -> Seq<char> {
        name_after(self.name, crate::sse::full_lines(self.text))
    }
}

impl View for EventReader {
    type V = EventReaderView;

    closed spec fn view(&self) -> EventReaderView {
        EventReaderView { text: self.buffer@, name: self.name@ }
    }
}

impl EventReader {
    /// Nothing has arrived, and no name is in force.
    pub fn new() -> (r: Self)
        ensures
            r@ == (EventReaderView { text: seq![], name: seq![] }),
    {
        let r = EventReader { buffer: LineBuffer::new(), name: String::new() };
        assert(r@ =~= EventReaderView { text: seq![], name: seq![] });
        r
    }

    /// Bytes arrive.
    pub fn push_bytes(&mut self, bytes: &[u8])
        ensures
            final(self)@ == (EventReaderView {
                text: old(self)@.text + crate::sse::utf8_lossy(bytes@),
                ..old(self)@
            }),
    {
        self.buffer.push_bytes(bytes);
    }

    /// Take out the data of the next event, if it has arrived.
    pub fn next_data(&mut self) -> (r: Option<NamedData>)
        ensures
            match r {
                Some(d) => old(self)@.data() == seq![d@] + final(self)@.data(),
                None => old(self)@.data().len() == 0 && crate::sse::full_lines(
                    final(self)@.text,
                ).len() == 0 && final(self)@.name == old(self)@.last_name(),
            },
            crate::sse::remainder(final(self)@.text) == crate::sse::remainder(old(self)@.text),
            final(self)@.last_name() == old(self)@.last_name(),
    {
        let ghost before = self@;
        loop
            invariant
                before == old(self)@,
                self@.data() == before.data(),
                self@.last_name() == before.last_name(),
                crate::sse::remainder(self@.text) == crate::sse::remainder(before.text),
            decreases self@.text.len(),
        {
            let ghost lines = crate::sse::full_lines(self@.text);
            match self.buffer.next_line() {
                None => {
                    return None;
                },
                Some(line) => {
                    assert(lines.subrange(1, lines.len() as int) =~= crate::sse::full_lines(
                        self@.text,
                    ));
                    assert(lines[0] == line@);
                    match read_event_line(line.as_str()) {
                        LineAction::SetEvent(n) => {
                            self.name = n;
                        },
                        LineAction::Data(data) => {
                            return Some(NamedData { event: self.name.clone(), data });
                        },
                        LineAction::Skip => {},
                    }
                },
            }
        }
    }
}

/// Lines can be read in two parts.
proof fn lemma_named_data_append(name: Seq<char>, a: Seq<Seq<char>>, b: Seq<Seq<char>>)
    ensures
        named_data(name, a + b) == named_data(name, a) + named_data(name_after(name, a), b),
        name_after(name, a + b) == name_after(name_after(name, a), b),
    decreases a.len(),
{
    if a.len() == 0 {
        assert(a + b =~= b);
        assert(named_data(name, a) + named_data(name, b) =~= named_data(name, b));
    } else {
        let rest = a.subrange(1, a.len() as int);
        assert((a + b).subrange(1, (a + b).len() as int) =~= rest + b);
        assert((a + b)[0] == a[0]);
        match crate::providers::anthropic::line_action(a[0]) {
            LineActionView::SetEvent(n) => lemma_named_data_append(n, rest, b),
            LineActionView::Data(data) => {
                lemma_named_data_append(name, rest, b);
                assert(named_data(name, a + b) =~= named_data(name, a) + named_data(
                    name_after(name, a),
                    b,
                ));
            },
            LineActionView::Skip => lemma_named_data_append(name, rest, b),
        }
    }
}

/// It does not matter where a text is cut into chunks: the events of the first part, then those
/// of what was left together with the second part, are the events of the whole.
pub proof fn law_event_chunking(reader: EventReaderView, b: Seq<char>)
    ensures
        ({
            let whole = EventReaderView { text: reader.text + b, ..reader };
            let later = EventReaderView {
                text: crate::sse::remainder(reader.text) + b,
                name: reader.last_name(),
            };
            whole.data() == reader.data() + later.data() && whole.last_name() == later.last_name()
        }),
{
    crate::sse::law_chunking(reader.text, b);
    lemma_named_data_append(
        reader.name,
        crate::sse::full_lines(reader.text),
        crate::sse::full_lines(crate::sse::remainder(reader.text) + b),
    );
}

// ---------------------------------------------------------------------------
// Chat chunks
// ---------------------------------------------------------------------------

/// The data in lines up to the one that says that the stream is over.
pub open spec fn chunk_data(lines: Seq<Seq<char>>) -> Seq<Seq<char>>
    decreases lines.len(),
{
    if lines.len() == 0 {
        seq![]
    } else {
        let rest = lines.subrange(1, lines.len() as int);
        match crate::providers::openai::chat_line(lines[0]) {
            ChatLineView::Skip => chunk_data(rest),
            ChatLineView::Done => seq![],
            ChatLineView::Data(data) => seq![data] + chunk_data(rest),
        }
    }
}

/// Whether one of the lines says that the stream is over.
pub open spec fn says_done(lines: Seq<Seq<char>>) -> bool
    decreases lines.len(),
{
    lines.len() > 0 && (crate::providers::openai::chat_line(lines[0]) is Done || says_done(
        lines.subrange(1, lines.len() as int),
    ))
}

/// Reads chat chunks.
pub struct ChunkReader {
    buffer: LineBuffer,
}

impl View for ChunkReader {
    type V = Seq<char>;

    closed spec fn view(&self) -> Seq<char> {
        self.buffer@
    }
}

impl ChunkReader {
    /// Nothing has arrived.
    pub fn new() -> (r: Self)
        ensures
            r@ == Seq::<char>::empty(),
    {
        ChunkReader { buffer: LineBuffer::new() }
    }

    /// Bytes arrive.
    pub fn push_bytes(&mut self, bytes: &[u8])
        ensures
            final(self)@ == old(self)@ + crate::sse::utf8_lossy(bytes@),
    {
        self.buffer.push_bytes(bytes);
    }

    /// Take out the data of the next chunk, if it has arrived. The line that says that the stream
    /// is over takes with it whatever has arrived behind it.
    pub fn next_data(&mut self) -> (r: Option<String>)
        ensures
            ({
                let before = crate::sse::full_lines(old(self)@);
                let after = crate::sse::full_lines(final(self)@);
                match r {
                    Some(d) => {
                        &&& chunk_data(before) == seq![d@] + chunk_data(after)
                        &&& says_done(before) == says_done(after)
                        &&& crate::sse::remainder(old(self)@) == crate::sse::remainder(
                            final(self)@,
                        )
                    },
                    None => {
                        &&& chunk_data(before).len() == 0
                        &&& after.len() == 0
                        &&& final(self)@ == (if says_done(before) {
                            Seq::<char>::empty()
                        } else {
                            crate::sse::remainder(old(self)@)
                        })
                    },
                }
            }),
    {
        let ghost before = self@;
        loop
            invariant
                before == old(self)@,
                chunk_data(crate::sse::full_lines(self@)) == chunk_data(
                    crate::sse::full_lines(before),
                ),
                says_done(crate::sse::full_lines(self@)) == says_done(
                    crate::sse::full_lines(before),
                ),
                crate::sse::remainder(self@) == crate::sse::remainder(before),
            decreases self@.len(),
        {
            let ghost lines = crate::sse::full_lines(self@);
            match self.buffer.next_line() {
                None => {
                    return None;
                },
                Some(line) => {
                    assert(lines.subrange(1, lines.len() as int) =~= crate::sse::full_lines(self@));
                    assert(lines[0] == line@);
                    match read_chat_line(line.as_str()) {
                        ChatLine::Skip => {},
                        ChatLine::Done => {
                            self.buffer.clear();
                            return None;
                        },
                        ChatLine::Data(data) => {
                            return Some(data);
                        },
                    }
                },
            }
        }
    }
}

/// A line that names an event sets the name of the data behind it; a line of data is handed out under the
/// name in force; any other line says nothing.
pub proof fn law_events_line_by_line(
    name: Seq<char>,
    given: Seq<char>,
    data: Seq<char>,
    other: Seq<char>,
    rest: Seq<Seq<char>>,
)
    requires
        !crate::text::starts_with(other, "event: "@),
        !crate::text::starts_with(other, "data: "@),
    ensures
        named_data(name, seq!["event: "@ + given] + rest) == named_data(given, rest),
        named_data(name, seq!["data: "@ + data] + rest) == seq![
            NamedDataView { event: name, data },
        ] + named_data(name, rest),
        named_data(name, seq![other] + rest) == named_data(name, rest),
        named_data(name, Seq::empty()).len() == 0,
{
    reveal_strlit("event: ");
    reveal_strlit("data: ");
    let e = "event: "@ + given;
    let d = "data: "@ + data;
    assert(e.subrange(0, 7) =~= "event: "@);
    assert(e.subrange(7, e.len() as int) =~= given);
    assert(d.subrange(0, 6) =~= "data: "@);
    assert(d.subrange(6, d.len() as int) =~= data);
    assert(!crate::text::starts_with(d, "event: "@)) by {
        if crate::text::starts_with(d, "event: "@) {
            assert(d.subrange(0, 7)[0] == "event: "@[0]);
            assert(d[0] == "data: "@[0]);
        }
    }
    let all = seq![e] + rest;
    assert(all.subrange(1, all.len() as int) =~= rest);
    let all = seq![d] + rest;
    assert(all.subrange(1, all.len() as int) =~= rest);
    let all = seq![other] + rest;
    assert(all.subrange(1, all.len() as int) =~= rest);
}

/// A line of data is handed out, with the space behind its mark or without; the line that says that the
/// stream is over ends it, whatever stands behind; any other line says nothing.
pub proof fn law_chunks_line_by_line(data: Seq<char>, other: Seq<char>, rest: Seq<Seq<char>>)
    requires
        data.len() > 0,
        data[0] != ' ',
        data != "[DONE]"@,
        !crate::text::starts_with(other, "data:"@),
    ensures
        chunk_data(seq!["data: "@ + data] + rest) == seq![data] + chunk_data(rest),
        chunk_data(seq!["data:"@ + data] + rest) == seq![data] + chunk_data(rest),
        chunk_data(seq!["data: [DONE]"@] + rest).len() == 0,
        says_done(seq!["data: [DONE]"@] + rest),
        chunk_data(seq![other] + rest) == chunk_data(rest),
        says_done(seq![other] + rest) == says_done(rest),
{
    reveal_strlit("data:");
    reveal_strlit("data: ");
    reveal_strlit("data: [DONE]");
    reveal_strlit("[DONE]");
    let a = "data: "@ + data;
    let b = "data:"@ + data;
    let c = "data: [DONE]"@;
    assert(a.subrange(0, 5) =~= "data:"@);
    assert(b.subrange(0, 5) =~= "data:"@);
    assert(c.subrange(0, 5) =~= "data:"@);
    let rest_a = a.subrange(5, a.len() as int);
    let rest_c = c.subrange(5, c.len() as int);
    assert(rest_a.subrange(1, rest_a.len() as int) =~= data);
    assert(b.subrange(5, b.len() as int) =~= data);
    assert(rest_c.subrange(1, rest_c.len() as int) =~= "[DONE]"@);
    assert(rest_a[0] == ' ');
    assert(rest_c[0] == ' ');
    assert(crate::text::trim_start_char(data, ' ') == data);
    assert(crate::text::trim_start_char(rest_a, ' ') == data);
    assert(crate::text::trim_start_char("[DONE]"@, ' ') == "[DONE]"@);
    assert(crate::text::trim_start_char(rest_c, ' ') == "[DONE]"@);
    lemma_not_blank(a);
    lemma_not_blank(b);
    lemma_not_blank(c);
    let all = seq![a] + rest;
    assert(all.subrange(1, all.len() as int) =~= rest);
    let all = seq![b] + rest;
    assert(all.subrange(1, all.len() as int) =~= rest);
    let all = seq![c] + rest;
    assert(all.subrange(1, all.len() as int) =~= rest);
    let all = seq![other] + rest;
    assert(all.subrange(1, all.len() as int) =~= rest);
}

proof fn lemma_not_blank(s: Seq<char>)
    requires
        s.len() > 0,
        s[0] == 'd',
    ensures
        crate::text::trim(s).len() > 0,
{
    crate::text::law_trim_start(s);
    crate::text::law_trim_end(crate::text::trim_start(s));
    crate::text::law_whitespace();
    let t = crate::text::trim_start(s);
    assert(t.len() == s.len()) by {
        if t.len() < s.len() {
            assert(crate::text::is_ws(s[0]));
        }
    }
    assert(t[0] == s[0]);
    if crate::text::trim_end(t).len() == 0 {
        assert(crate::text::is_ws(t[0]));
    }
}

} // verus!
