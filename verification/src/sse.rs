//! Framing of server-sent events: bytes to lines.

use vstd::prelude::*;

use crate::text::{chars_of, find_char, str_trim_end_char, string_of};

verus! {

/// The text that `String::from_utf8_lossy` makes of bytes.
pub uninterp spec fn utf8_lossy(bytes: Seq<u8>) -> Seq<char>;

/// `String::from_utf8_lossy`: the text of the bytes, where what is no UTF-8 is
/// replaced. The result is named; of bytes that are UTF-8 it is their decoding.
#[verifier::external_body]
pub(crate) fn decode_lossy(bytes: &[u8]) -> (r: String)
    ensures
        r@ == utf8_lossy(bytes@),
        vstd::utf8::valid_utf8(bytes@) ==> r@ == vstd::utf8::decode_utf8(bytes@),
{
    String::from_utf8_lossy(bytes).into_owned()
}

/// The lines that are complete in `text`, without their line ends.
pub open spec fn full_lines(text: Seq<char>) -> Seq<Seq<char>>
    decreases text.len(),
{
    let i = crate::text::char_from(text, '\n', 0);
    if 0 <= i < text.len() {
        seq![crate::text::trim_end_char(text.subrange(0, i), '\r')] + full_lines(
            text.subrange(i + 1, text.len() as int),
        )
    } else {
        seq![]
    }
}

/// What follows the last complete line of `text`.
pub open spec fn remainder(text: Seq<char>) -> Seq<char>
    decreases text.len(),
{
    let i = crate::text::char_from(text, '\n', 0);
    if 0 <= i < text.len() {
        remainder(text.subrange(i + 1, text.len() as int))
    } else {
        text
    }
}

/// Text that has arrived and has not been taken out line by line yet.
pub struct LineBuffer {
    text: String,
}

impl View for LineBuffer {
    type V = Seq<char>;

    closed spec fn view(&self) -> Seq<char> {
        self.text@
    }
}

impl LineBuffer {
    /// A buffer that holds nothing.
    pub fn new() -> (r: Self)
        ensures
            r@ == Seq::<char>::empty(),
    {
        LineBuffer { text: String::new() }
    }

    /// Add a chunk of bytes.
    pub fn push_bytes(&mut self, bytes: &[u8])
        ensures
            final(self)@ == old(self)@ + utf8_lossy(bytes@),
    {
        let s = decode_lossy(bytes);
        self.text.append(s.as_str());
    }

    /// Add a chunk of text.
    pub fn push_text(&mut self, s: &str)
        ensures
            final(self)@ == old(self)@ + s@,
    {
        self.text.append(s);
    }

    /// Drop everything.
    pub fn clear(&mut self)
        ensures
            final(self)@ == Seq::<char>::empty(),
    {
        self.text = String::new();
    }

    /// Take out the first complete line, without its line end.
    pub fn next_line(&mut self) -> (r: Option<String>)
        ensures
            match r {
                Some(line) => full_lines(old(self)@) == seq![line@] + full_lines(final(self)@)
                    && remainder(old(self)@) == remainder(final(self)@) && final(self)@.len()
                    < old(self)@.len(),
                None => full_lines(old(self)@).len() == 0 && final(self)@ == old(self)@,
            },
    {
        let v = chars_of(self.text.as_str());
        let i = find_char(&v, '\n', 0);
        if i == v.len() {
            return None;
        }
        let line = string_of(&v, 0, i);
        let rest = string_of(&v, i + 1, v.len());
        self.text = rest;
        Some(str_trim_end_char(line.as_str(), '\r'))
    }
}

/// A search that ends inside `a` does not see what follows `a`.
proof fn lemma_char_from_append(a: Seq<char>, b: Seq<char>, c: char, k: int)
    requires
        0 <= k <= a.len(),
        crate::text::char_from(a, c, k) < a.len(),
    ensures
        crate::text::char_from(a + b, c, k) == crate::text::char_from(a, c, k),
    decreases a.len() - k,
{
    if k < a.len() && a[k] != c {
        lemma_char_from_append(a, b, c, k + 1);
    }
}

/// A search never ends before its start.
proof fn lemma_char_from_bounds(a: Seq<char>, c: char, k: int)
    requires
        0 <= k <= a.len(),
    ensures
        k <= crate::text::char_from(a, c, k) <= a.len(),
    decreases a.len() - k,
{
    if k < a.len() && a[k] != c {
        lemma_char_from_bounds(a, c, k + 1);
    }
}

/// It does not matter where a text is cut into chunks: taking the lines of the
/// first part, then those of what was left together with the second part,
/// gives the lines of the whole. This is about text: bytes are decoded chunk by
/// chunk, so a character that is cut in two is replaced.
pub proof fn law_chunking(a: Seq<char>, b: Seq<char>)
    ensures
        full_lines(a + b) == full_lines(a) + full_lines(remainder(a) + b),
        remainder(a + b) == remainder(remainder(a) + b),
    decreases a.len(),
{
    let i = crate::text::char_from(a, '\n', 0);
    lemma_char_from_bounds(a, '\n', 0);
    if i < a.len() {
        lemma_char_from_append(a, b, '\n', 0);
        let tail = a.subrange(i + 1, a.len() as int);
        law_chunking(tail, b);
        assert((a + b).subrange(0, i) =~= a.subrange(0, i));
        assert((a + b).subrange(i + 1, (a + b).len() as int) =~= tail + b);
        assert(full_lines(a + b) =~= full_lines(a) + full_lines(remainder(a) + b));
    } else {
        assert(full_lines(a) + full_lines(a + b) =~= full_lines(a + b));
    }
}

/// A line is complete with its line end, which may have a carriage return; what stands behind it is not
/// looked at. A text without a line end holds no complete line, and all of it is left.
pub proof fn law_lines_end_with_a_newline(line: Seq<char>, rest: Seq<char>)
    requires
        !line.contains('\n'),
    ensures
        full_lines(line).len() == 0,
        remainder(line) == line,
        line.len() == 0 || line.last() != '\r' ==> full_lines(line + seq!['\n'] + rest) == seq![line]
            + full_lines(rest) && full_lines(line + seq!['\r', '\n'] + rest) == seq![line]
            + full_lines(rest),
        remainder(line + seq!['\n'] + rest) == remainder(rest),
        !remainder(rest).contains('\n'),
    decreases rest.len(),
{
    assert forall|j: int| 0 <= j < line.len() implies #[trigger] line[j] != '\n' by {
        assert(line.contains(line[j]));
    }
    crate::text::lemma_char_from(line, '\n', 0);
    let plain = line + seq!['\n'] + rest;
    crate::text::lemma_char_from(plain, '\n', 0);
    assert(plain[line.len() as int] == '\n');
    let i = crate::text::char_from(plain, '\n', 0);
    assert(i == line.len()) by {
        if i < line.len() {
            assert(plain[i] == line[i]);
        }
    }
    assert(plain.subrange(0, i) =~= line);
    assert(plain.subrange(i + 1, plain.len() as int) =~= rest);
    let long = line + seq!['\r', '\n'] + rest;
    crate::text::lemma_char_from(long, '\n', 0);
    let m = crate::text::char_from(long, '\n', 0);
    assert(long[line.len() as int] == '\r');
    assert(long[(line.len() + 1) as int] == '\n');
    assert(m == line.len() + 1) by {
        if m < line.len() {
            assert(long[m] == line[m]);
        }
    }
    let full = line.push('\r');
    assert(long.subrange(0, m) =~= full);
    assert(long.subrange(m + 1, long.len() as int) =~= rest);
    assert(full.drop_last() =~= line);
    assert(full.subrange(0, full.len() - 1) =~= line);
    if line.len() == 0 || line.last() != '\r' {
        assert(crate::text::trim_end_char(line, '\r') == line);
        assert(crate::text::trim_end_char(full, '\r') == line);
    }
    let k = crate::text::char_from(rest, '\n', 0);
    crate::text::lemma_char_from(rest, '\n', 0);
    if k < rest.len() {
        law_lines_end_with_a_newline(Seq::empty(), rest.subrange(k + 1, rest.len() as int));
    } else if rest.contains('\n') {
        let j = choose|j: int| 0 <= j < rest.len() && rest[j] == '\n';
        assert(rest[j] != '\n');
    }
}

} // verus!
