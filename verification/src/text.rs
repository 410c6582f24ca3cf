//! Operations on text, stated over sequences of characters.
//!
//! Every executable function works on the characters of a string and has a
//! contract over a specification function of this module.

use vstd::prelude::*;

verus! {

/// `String::push` appends the given character to the end of the string.
pub assume_specification[ String::push ](s: &mut String, c: char)
    ensures
        final(s)@ == old(s)@.push(c),
;

// ---------------------------------------------------------------------------
// Specifications
// ---------------------------------------------------------------------------

/// The characters with the Unicode property White_Space.
pub open spec fn is_ws(c: char) -> bool {
    ||| '\u{9}' <= c <= '\u{d}'
    ||| c == ' '
    ||| c == '\u{85}'
    ||| c == '\u{a0}'
    ||| c == '\u{1680}'
    ||| '\u{2000}' <= c <= '\u{200a}'
    ||| c == '\u{2028}'
    ||| c == '\u{2029}'
    ||| c == '\u{202f}'
    ||| c == '\u{205f}'
    ||| c == '\u{3000}'
}

/// `s` without its leading whitespace.
pub open spec fn trim_start(s: Seq<char>) -> Seq<char>
    decreases s.len(),
{
    if s.len() > 0 && is_ws(s[0]) {
        trim_start(s.subrange(1, s.len() as int))
    } else {
        s
    }
}

/// `s` without its trailing whitespace.
pub open spec fn trim_end(s: Seq<char>) -> Seq<char>
    decreases s.len(),
{
    if s.len() > 0 && is_ws(s[s.len() - 1]) {
        trim_end(s.subrange(0, s.len() - 1))
    } else {
        s
    }
}

/// `s` without its leading and trailing whitespace.
pub open spec fn trim(s: Seq<char>) -> Seq<char> {
    trim_end(trim_start(s))
}

/// `s` without the leading run of `c`.
pub open spec fn trim_start_char(s: Seq<char>, c: char) -> Seq<char>
    decreases s.len(),
{
    if s.len() > 0 && s[0] == c {
        trim_start_char(s.subrange(1, s.len() as int), c)
    } else {
        s
    }
}

/// `s` without the trailing run of `c`.
pub open spec fn trim_end_char(s: Seq<char>, c: char) -> Seq<char>
    decreases s.len(),
{
    if s.len() > 0 && s[s.len() - 1] == c {
        trim_end_char(s.subrange(0, s.len() - 1), c)
    } else {
        s
    }
}

/// `pat` stands in `s` at position `i`.
pub open spec fn occurs_at(s: Seq<char>, pat: Seq<char>, i: int) -> bool {
    0 <= i && i + pat.len() <= s.len() && s.subrange(i, i + pat.len()) == pat
}

/// `pat` stands somewhere in `s`.
pub open spec fn contains(s: Seq<char>, pat: Seq<char>) -> bool {
    exists|i: int| occurs_at(s, pat, i)
}

/// `r` is the first position of `pat` in `s`, `None` if there is none.
pub open spec fn is_first(s: Seq<char>, pat: Seq<char>, r: Option<int>) -> bool {
    match r {
        Some(i) => occurs_at(s, pat, i) && forall|j: int| 0 <= j < i ==> !occurs_at(s, pat, j),
        None => !contains(s, pat),
    }
}

/// The first position of `pat` in `s` that is at least `from`.
pub open spec fn find_from(s: Seq<char>, pat: Seq<char>, from: int) -> Option<int>
    decreases s.len() + 1 - from,
{
    if from < 0 || from > s.len() {
        None
    } else if occurs_at(s, pat, from) {
        Some(from)
    } else {
        find_from(s, pat, from + 1)
    }
}

/// The first position of `pat` in `s`.
pub open spec fn find(s: Seq<char>, pat: Seq<char>) -> Option<int> {
    find_from(s, pat, 0)
}

/// `s` begins with `pat`.
pub open spec fn starts_with(s: Seq<char>, pat: Seq<char>) -> bool {
    occurs_at(s, pat, 0)
}

/// `s` ends with `pat`.
pub open spec fn ends_with(s: Seq<char>, pat: Seq<char>) -> bool {
    occurs_at(s, pat, s.len() - pat.len())
}

/// What follows `pat` at the start of `s`.
pub open spec fn strip_prefix(s: Seq<char>, pat: Seq<char>) -> Option<Seq<char>> {
    if starts_with(s, pat) {
        Some(s.subrange(pat.len() as int, s.len() as int))
    } else {
        None
    }
}

/// The first position of `c` in `s` that is at least `from`; `s.len()` if there is none.
pub open spec fn char_from(s: Seq<char>, c: char, from: int) -> int
    decreases s.len() - from,
{
    if from < 0 || from >= s.len() {
        s.len() as int
    } else if s[from] == c {
        from
    } else {
        char_from(s, c, from + 1)
    }
}

/// The pieces of `s` between occurrences of `c`.
pub open spec fn split(s: Seq<char>, c: char) -> Seq<Seq<char>>
    decreases s.len(),
{
    let i = char_from(s, c, 0);
    if 0 <= i < s.len() {
        seq![s.subrange(0, i)] + split(s.subrange(i + 1, s.len() as int), c)
    } else {
        seq![s]
    }
}

/// `s` without one trailing carriage return.
pub open spec fn chomp_cr(s: Seq<char>) -> Seq<char> {
    if s.len() > 0 && s[s.len() - 1] == '\r' {
        s.subrange(0, s.len() - 1)
    } else {
        s
    }
}

/// The lines of `s`: each ends at `\n` or `\r\n`, which is optional after the last.
pub open spec fn lines(s: Seq<char>) -> Seq<Seq<char>>
    decreases s.len(),
{
    let i = char_from(s, '\n', 0);
    if s.len() == 0 {
        seq![]
    } else if 0 <= i < s.len() {
        seq![chomp_cr(s.subrange(0, i))] + lines(s.subrange(i + 1, s.len() as int))
    } else {
        seq![s]
    }
}

/// The parts, one after the other.
pub open spec fn concat(parts: Seq<Seq<char>>) -> Seq<char>
    decreases parts.len(),
{
    if parts.len() == 0 {
        seq![]
    } else {
        concat(parts.subrange(0, parts.len() - 1)) + parts[parts.len() - 1]
    }
}

/// The parts, with `sep` between neighbours.
pub open spec fn join(parts: Seq<Seq<char>>, sep: Seq<char>) -> Seq<char>
    decreases parts.len(),
{
    if parts.len() == 0 {
        seq![]
    } else if parts.len() == 1 {
        parts[0]
    } else {
        join(parts.subrange(0, parts.len() - 1), sep) + sep + parts[parts.len() - 1]
    }
}

/// `s` with each occurrence of `from`, taken left to right without overlap,
/// replaced by `to`. An empty `from` changes nothing.
pub open spec fn replace(s: Seq<char>, from: Seq<char>, to: Seq<char>) -> Seq<char>
    decreases s.len(),
{
    if s.len() == 0 || from.len() == 0 {
        s
    } else if starts_with(s, from) {
        to + replace(s.subrange(from.len() as int, s.len() as int), from, to)
    } else {
        seq![s[0]] + replace(s.subrange(1, s.len() as int), from, to)
    }
}

/// The digit character of `d`.
pub open spec fn digit(d: nat) -> char {
    (48 + d) as char
}

/// The decimal digits of `n`.
pub open spec fn decimal(n: nat) -> Seq<char>
    decreases n,
{
    if n < 10 {
        seq![digit(n)]
    } else {
        decimal(n / 10).push(digit(n % 10))
    }
}

/// The decimal form of an integer, with a sign when it is negative.
pub open spec fn signed_decimal(n: int) -> Seq<char> {
    if n < 0 {
        seq!['-'] + decimal((-n) as nat)
    } else {
        decimal(n as nat)
    }
}

/// Whether `c` is an ASCII digit.
pub open spec fn is_digit(c: char) -> bool {
    '0' <= c <= '9'
}

/// The number that a sequence of ASCII digits denotes.
pub open spec fn digits_value(s: Seq<char>) -> nat
    decreases s.len(),
{
    if s.len() == 0 {
        0
    } else {
        digits_value(s.subrange(0, s.len() - 1)) * 10 + ((s[s.len() - 1] as u32 - 48) as nat)
    }
}

/// Whether `s` holds ASCII digits only.
pub open spec fn all_digits(s: Seq<char>) -> bool {
    forall|i: int| 0 <= i < s.len() ==> is_digit(#[trigger] s[i])
}

/// `s` without a leading `+`.
pub open spec fn unsigned_part(s: Seq<char>) -> Seq<char> {
    if s.len() > 0 && s[0] == '+' {
        s.subrange(1, s.len() as int)
    } else {
        s
    }
}

/// The `u64` that `s` denotes: an optional `+`, then at least one digit.
pub open spec fn parse_u64(s: Seq<char>) -> Option<u64> {
    let t = unsigned_part(s);
    if t.len() > 0 && all_digits(t) && digits_value(t) <= u64::MAX {
        Some(digits_value(t) as u64)
    } else {
        None
    }
}

/// The ASCII lower-case form of `c`.
pub open spec fn lower(c: char) -> char {
    if 'A' <= c <= 'Z' {
        (c as u32 + 32) as char
    } else {
        c
    }
}

/// `s` with every ASCII capital made small.
pub open spec fn ascii_lower(s: Seq<char>) -> Seq<char> {
    Seq::new(s.len(), |i: int| lower(s[i]))
}

/// How often `c` stands in `s`.
pub open spec fn count_char(s: Seq<char>, c: char) -> nat
    decreases s.len(),
{
    if s.len() == 0 {
        0
    } else {
        count_char(s.subrange(0, s.len() - 1), c) + if s[s.len() - 1] == c {
            1nat
        } else {
            0nat
        }
    }
}

// ---------------------------------------------------------------------------
// Conversions
// ---------------------------------------------------------------------------

/// Whether two strings hold the same characters.
pub fn str_eq(a: &str, b: &str) -> (r: bool)
    ensures
        r == (a@ == b@),
{
    let x: String = a.to_owned();
    let y: String = b.to_owned();
    x == y
}

/// The characters of `s`, in order.
pub fn chars_of(s: &str) -> (r: Vec<char>)
    ensures
        r@ == s@,
{
    let mut v: Vec<char> = Vec::new();
    for c in it: s.chars()
        invariant
            v@ == it.seq().take(it.index()),
            it.seq() == s@,
    {
        v.push(c);
    }
    v
}

/// The string made of the characters `v[from..to]`.
pub fn string_of(v: &Vec<char>, from: usize, to: usize) -> (r: String)
    requires
        from <= to <= v@.len(),
    ensures
        r@ == v@.subrange(from as int, to as int),
{
    let mut s: String = String::new();
    let mut i: usize = from;
    while i < to
        invariant
            from <= i <= to <= v@.len(),
            s@ == v@.subrange(from as int, i as int),
        decreases to - i,
    {
        s.push(v[i]);
        i = i + 1;
    }
    s
}

/// Whether `pat` stands in `s` at position `i`.
pub fn occurs_at_exec(s: &Vec<char>, pat: &Vec<char>, i: usize) -> (r: bool)
    ensures
        r == occurs_at(s@, pat@, i as int),
{
    if pat.len() > s.len() || i > s.len() - pat.len() {
        return false;
    }
    let mut k: usize = 0;
    while k < pat.len()
        invariant
            k <= pat.len(),
            i + pat.len() <= s.len(),
            forall|j: int| 0 <= j < k ==> s@[i + j] == pat@[j],
        decreases pat.len() - k,
    {
        if s[i + k] != pat[k] {
            assert(s@.subrange(i as int, i + pat.len())[k as int] != pat@[k as int]);
            return false;
        }
        k = k + 1;
    }
    assert(s@.subrange(i as int, i + pat.len()) =~= pat@);
    true
}

/// The first position of `pat` in `s` at or after `from`.
pub fn find_chars(s: &Vec<char>, pat: &Vec<char>, from: usize) -> (r: Option<usize>)
    requires
        from <= s.len(),
    ensures
        match r {
            Some(i) => find_from(s@, pat@, from as int) == Some(i as int) && from <= i
                && i + pat.len() <= s.len(),
            None => find_from(s@, pat@, from as int) is None,
        },
{
    let mut i: usize = from;
    loop
        invariant
            from <= i <= s.len(),
            find_from(s@, pat@, from as int) == find_from(s@, pat@, i as int),
        decreases s.len() - i,
    {
        if occurs_at_exec(s, pat, i) {
            return Some(i);
        }
        if i == s.len() {
            assert(find_from(s@, pat@, s.len() + 1) is None);
            return None;
        }
        i = i + 1;
    }
}

/// The first position of `c` in `s` at or after `from`, or the length.
pub fn find_char(s: &Vec<char>, c: char, from: usize) -> (r: usize)
    requires
        from <= s.len(),
    ensures
        r == char_from(s@, c, from as int),
        from <= r <= s.len(),
        r < s.len() ==> s@[r as int] == c,
        forall|j: int| from <= j < r ==> s@[j] != c,
{
    let mut i: usize = from;
    while i < s.len()
        invariant
            from <= i <= s.len(),
            char_from(s@, c, from as int) == char_from(s@, c, i as int),
            forall|j: int| from <= j < i ==> s@[j] != c,
        decreases s.len() - i,
    {
        if s[i] == c {
            return i;
        }
        i = i + 1;
    }
    i
}

// ---------------------------------------------------------------------------
// Searching
// ---------------------------------------------------------------------------

/// What `find_from` gives is the first occurrence at or after `from`.
pub proof fn lemma_find_from(s: Seq<char>, pat: Seq<char>, from: int)
    requires
        0 <= from,
    ensures
        match find_from(s, pat, from) {
            Some(i) => from <= i && occurs_at(s, pat, i) && forall|j: int|
                from <= j < i ==> !occurs_at(s, pat, j),
            None => forall|j: int| from <= j ==> !occurs_at(s, pat, j),
        },
    decreases s.len() + 1 - from,
{
    if from > s.len() {
    } else if occurs_at(s, pat, from) {
    } else {
        lemma_find_from(s, pat, from + 1);
    }
}

/// `find` gives the first occurrence, and nothing exactly when there is none.
pub proof fn lemma_find(s: Seq<char>, pat: Seq<char>)
    ensures
        is_first(s, pat, find(s, pat)),
{
    lemma_find_from(s, pat, 0);
}

/// Whether `pat` stands somewhere in `s`.
pub fn str_contains(s: &str, pat: &str) -> (r: bool)
    ensures
        r == contains(s@, pat@),
{
    let v = chars_of(s);
    let p = chars_of(pat);
    proof {
        lemma_find(s@, pat@);
    }
    match find_chars(&v, &p, 0) {
        Some(_) => true,
        None => false,
    }
}

/// Whether `s` begins with `pat`.
pub fn str_starts_with(s: &str, pat: &str) -> (r: bool)
    ensures
        r == starts_with(s@, pat@),
{
    let v = chars_of(s);
    let p = chars_of(pat);
    occurs_at_exec(&v, &p, 0)
}

/// Whether `s` ends with `pat`.
pub fn str_ends_with(s: &str, pat: &str) -> (r: bool)
    ensures
        r == ends_with(s@, pat@),
{
    let v = chars_of(s);
    let p = chars_of(pat);
    if p.len() > v.len() {
        return false;
    }
    occurs_at_exec(&v, &p, v.len() - p.len())
}

/// What follows `pat` at the start of `s`, if `s` begins with it.
pub fn str_strip_prefix(s: &str, pat: &str) -> (r: Option<String>)
    ensures
        r.deep_view() == strip_prefix(s@, pat@),
{
    let v = chars_of(s);
    let p = chars_of(pat);
    if occurs_at_exec(&v, &p, 0) {
        Some(string_of(&v, p.len(), v.len()))
    } else {
        None
    }
}

// ---------------------------------------------------------------------------
// Trimming
// ---------------------------------------------------------------------------

/// Whether `c` is whitespace.
pub fn is_whitespace(c: char) -> (r: bool)
    ensures
        r == is_ws(c),
{
    ('\u{9}' <= c && c <= '\u{d}') || c == ' ' || c == '\u{85}' || c == '\u{a0}' || c == '\u{1680}'
        || ('\u{2000}' <= c && c <= '\u{200a}') || c == '\u{2028}' || c == '\u{2029}' || c
        == '\u{202f}' || c == '\u{205f}' || c == '\u{3000}'
}

/// Where the leading whitespace of `v` ends.
fn ws_prefix(v: &Vec<char>) -> (r: usize)
    ensures
        r <= v.len(),
        trim_start(v@) == v@.subrange(r as int, v.len() as int),
        r < v.len() ==> !is_ws(v@[r as int]),
{
    let mut i: usize = 0;
    assert(v@.subrange(0, v.len() as int) =~= v@);
    while i < v.len() && is_whitespace(v[i])
        invariant
            i <= v.len(),
            trim_start(v@) == trim_start(v@.subrange(i as int, v.len() as int)),
        decreases v.len() - i,
    {
        let ghost t = v@.subrange(i as int, v.len() as int);
        assert(t.subrange(1, t.len() as int) =~= v@.subrange(i + 1, v.len() as int));
        i = i + 1;
    }
    i
}

/// Where the trailing whitespace of `v[from..]` begins.
fn ws_suffix(v: &Vec<char>, from: usize) -> (r: usize)
    requires
        from <= v.len(),
    ensures
        from <= r <= v.len(),
        trim_end(v@.subrange(from as int, v.len() as int)) == v@.subrange(from as int, r as int),
{
    let mut i: usize = v.len();
    while i > from && is_whitespace(v[i - 1])
        invariant
            from <= i <= v.len(),
            trim_end(v@.subrange(from as int, v.len() as int)) == trim_end(
                v@.subrange(from as int, i as int),
            ),
        decreases i,
    {
        let ghost t = v@.subrange(from as int, i as int);
        assert(t.subrange(0, t.len() - 1) =~= v@.subrange(from as int, i - 1));
        i = i - 1;
    }
    i
}

/// `s` without leading and trailing whitespace.
pub fn str_trim(s: &str) -> (r: String)
    ensures
        r@ == trim(s@),
{
    let v = chars_of(s);
    let a = ws_prefix(&v);
    let b = ws_suffix(&v, a);
    string_of(&v, a, b)
}

/// `s` without trailing whitespace.
pub fn str_trim_end(s: &str) -> (r: String)
    ensures
        r@ == trim_end(s@),
{
    let v = chars_of(s);
    let b = ws_suffix(&v, 0);
    assert(v@.subrange(0, v.len() as int) =~= s@);
    string_of(&v, 0, b)
}

/// Whether `s` holds nothing but whitespace.
pub fn is_blank(s: &str) -> (r: bool)
    ensures
        r == (trim(s@).len() == 0),
{
    let t = str_trim(s);
    t.as_str().is_empty()
}

/// `s` without the trailing run of `c`.
pub fn str_trim_end_char(s: &str, c: char) -> (r: String)
    ensures
        r@ == trim_end_char(s@, c),
{
    let v = chars_of(s);
    let mut i: usize = v.len();
    assert(v@.subrange(0, v.len() as int) =~= s@);
    while i > 0 && v[i - 1] == c
        invariant
            i <= v.len(),
            trim_end_char(s@, c) == trim_end_char(v@.subrange(0, i as int), c),
        decreases i,
    {
        let ghost t = v@.subrange(0, i as int);
        assert(t.subrange(0, t.len() - 1) =~= v@.subrange(0, i - 1));
        i = i - 1;
    }
    string_of(&v, 0, i)
}

/// `s` without the leading run of `c`.
pub fn str_trim_start_char(s: &str, c: char) -> (r: String)
    ensures
        r@ == trim_start_char(s@, c),
{
    let v = chars_of(s);
    let mut i: usize = 0;
    assert(v@.subrange(0, v.len() as int) =~= s@);
    while i < v.len() && v[i] == c
        invariant
            i <= v.len(),
            trim_start_char(s@, c) == trim_start_char(v@.subrange(i as int, v.len() as int), c),
        decreases v.len() - i,
    {
        let ghost t = v@.subrange(i as int, v.len() as int);
        assert(t.subrange(1, t.len() as int) =~= v@.subrange(i + 1, v.len() as int));
        i = i + 1;
    }
    string_of(&v, i, v.len())
}

// ---------------------------------------------------------------------------
// Splitting and joining
// ---------------------------------------------------------------------------

/// A search in a tail of `s` is a search in `s`.
pub proof fn lemma_char_from_tail(s: Seq<char>, c: char, from: int, k: int)
    requires
        0 <= from <= s.len(),
        0 <= k <= s.len() - from,
    ensures
        char_from(s.subrange(from, s.len() as int), c, k) == char_from(s, c, from + k) - from,
    decreases s.len() - from - k,
{
    let t = s.subrange(from, s.len() as int);
    if k < t.len() && t[k] != c {
        lemma_char_from_tail(s, c, from, k + 1);
    }
}

/// The lines of `s`.
pub fn str_lines(s: &str) -> (r: Vec<String>)
    ensures
        r.deep_view() == lines(s@),
{
    let v = chars_of(s);
    let mut out: Vec<String> = Vec::new();
    let mut i: usize = 0;
    assert(v@.subrange(0, v.len() as int) =~= s@);
    assert(out.deep_view() =~= Seq::<Seq<char>>::empty());
    assert(out.deep_view() + lines(s@) =~= lines(s@));
    while i < v.len()
        invariant
            i <= v.len(),
            v@ == s@,
            lines(s@) == out.deep_view() + lines(v@.subrange(i as int, v.len() as int)),
        decreases v.len() - i,
    {
        let ghost rest = v@.subrange(i as int, v.len() as int);
        let ghost before = out.deep_view();
        let nl = find_char(&v, '\n', i);
        proof {
            lemma_char_from_tail(v@, '\n', i as int, 0);
        }
        if nl < v.len() {
            let mut end: usize = nl;
            if end > i && v[end - 1] == '\r' {
                end = end - 1;
            }
            let line = string_of(&v, i, end);
            assert(rest.subrange(0, nl - i) =~= v@.subrange(i as int, nl as int));
            assert(line@ =~= chomp_cr(rest.subrange(0, nl - i)));
            out.push(line);
            assert(rest.subrange(nl - i + 1, rest.len() as int) =~= v@.subrange(
                nl + 1,
                v.len() as int,
            ));
            assert(out.deep_view() =~= before.push(line@));
            assert(before + lines(rest) =~= out.deep_view() + lines(
                v@.subrange(nl + 1, v.len() as int),
            ));
            i = nl + 1;
        } else {
            let line = string_of(&v, i, v.len());
            out.push(line);
            assert(out.deep_view() =~= before.push(line@));
            assert(before + lines(rest) =~= out.deep_view());
            assert(v@.subrange(v.len() as int, v.len() as int) =~= Seq::<char>::empty());
            assert(out.deep_view() + lines(Seq::<char>::empty()) =~= out.deep_view());
            i = v.len();
        }
    }
    assert(v@.subrange(i as int, v.len() as int) =~= Seq::<char>::empty());
    assert(out.deep_view() + lines(Seq::<char>::empty()) =~= out.deep_view());
    out
}

/// The pieces of `s` between occurrences of `c`.
pub fn str_split(s: &str, c: char) -> (r: Vec<String>)
    ensures
        r.deep_view() == split(s@, c),
        r.len() > 0,
{
    let v = chars_of(s);
    let mut out: Vec<String> = Vec::new();
    let mut i: usize = 0;
    assert(v@.subrange(0, v.len() as int) =~= s@);
    assert(out.deep_view() + split(s@, c) =~= split(s@, c));
    loop
        invariant
            i <= v.len(),
            v@ == s@,
            split(s@, c) == out.deep_view() + split(v@.subrange(i as int, v.len() as int), c),
        decreases v.len() - i,
    {
        let ghost rest = v@.subrange(i as int, v.len() as int);
        let ghost before = out.deep_view();
        let at = find_char(&v, c, i);
        proof {
            lemma_char_from_tail(v@, c, i as int, 0);
        }
        let piece = string_of(&v, i, at);
        assert(rest.subrange(0, at - i) =~= piece@);
        out.push(piece);
        assert(out.deep_view() =~= before.push(piece@));
        if at < v.len() {
            assert(rest.subrange(at - i + 1, rest.len() as int) =~= v@.subrange(
                at + 1,
                v.len() as int,
            ));
            assert(before + split(rest, c) =~= out.deep_view() + split(
                v@.subrange(at + 1, v.len() as int),
                c,
            ));
            i = at + 1;
        } else {
            assert(rest =~= piece@);
            assert(before + split(rest, c) =~= out.deep_view());
            return out;
        }
    }
}

/// The parts, with `sep` between neighbours.
pub fn str_join(parts: &Vec<String>, sep: &str) -> (r: String)
    ensures
        r@ == join(parts.deep_view(), sep@),
{
    let mut out: String = String::new();
    let mut i: usize = 0;
    assert(parts.deep_view().subrange(0, 0) =~= Seq::<Seq<char>>::empty());
    while i < parts.len()
        invariant
            i <= parts.len(),
            out@ == join(parts.deep_view().subrange(0, i as int), sep@),
        decreases parts.len() - i,
    {
        let ghost p = parts.deep_view().subrange(0, i + 1);
        assert(p.subrange(0, p.len() - 1) =~= parts.deep_view().subrange(0, i as int));
        if i > 0 {
            out.append(sep);
        }
        out.append(parts[i].as_str());
        assert(out@ =~= join(p, sep@));
        i = i + 1;
    }
    assert(parts.deep_view().subrange(0, i as int) =~= parts.deep_view());
    out
}

/// The parts, one after the other.
pub fn str_concat(parts: &Vec<String>) -> (r: String)
    ensures
        r@ == concat(parts.deep_view()),
{
    let mut out: String = String::new();
    let mut i: usize = 0;
    assert(parts.deep_view().subrange(0, 0) =~= Seq::<Seq<char>>::empty());
    while i < parts.len()
        invariant
            i <= parts.len(),
            out@ == concat(parts.deep_view().subrange(0, i as int)),
        decreases parts.len() - i,
    {
        let ghost p = parts.deep_view().subrange(0, i + 1);
        assert(p.subrange(0, p.len() - 1) =~= parts.deep_view().subrange(0, i as int));
        out.append(parts[i].as_str());
        i = i + 1;
    }
    assert(parts.deep_view().subrange(0, i as int) =~= parts.deep_view());
    out
}

/// `s` with each occurrence of `from` replaced by `to`.
pub fn str_replace(s: &str, from: &str, to: &str) -> (r: String)
    ensures
        r@ == replace(s@, from@, to@),
{
    let v = chars_of(s);
    let f = chars_of(from);
    if f.len() == 0 {
        return s.to_owned();
    }
    let mut out: String = String::new();
    let mut i: usize = 0;
    assert(v@.subrange(0, v.len() as int) =~= s@);
    assert(out@ + replace(s@, from@, to@) =~= replace(s@, from@, to@));
    while i < v.len()
        invariant
            i <= v.len(),
            f@ == from@,
            f.len() > 0,
            replace(s@, from@, to@) == out@ + replace(
                v@.subrange(i as int, v.len() as int),
                from@,
                to@,
            ),
        decreases v.len() - i,
    {
        let ghost rest = v@.subrange(i as int, v.len() as int);
        let ghost before = out@;
        let hit = occurs_at_exec(&v, &f, i);
        proof {
            if i + f.len() <= v.len() {
                assert(rest.subrange(0, f.len() as int) =~= v@.subrange(i as int, i + f.len()));
            }
        }
        if hit {
            out.append(to);
            assert(rest.subrange(f.len() as int, rest.len() as int) =~= v@.subrange(
                i + f.len(),
                v.len() as int,
            ));
            assert(before + replace(rest, from@, to@) =~= out@ + replace(
                v@.subrange(i + f.len(), v.len() as int),
                from@,
                to@,
            ));
            i = i + f.len();
        } else {
            out.push(v[i]);
            assert(rest.subrange(1, rest.len() as int) =~= v@.subrange(i + 1, v.len() as int));
            assert(before + replace(rest, from@, to@) =~= out@ + replace(
                v@.subrange(i + 1, v.len() as int),
                from@,
                to@,
            ));
            i = i + 1;
        }
    }
    assert(v@.subrange(i as int, v.len() as int) =~= Seq::<char>::empty());
    assert(out@ + Seq::<char>::empty() =~= out@);
    out
}

// ---------------------------------------------------------------------------
// Numbers
// ---------------------------------------------------------------------------

/// The decimal digits of `n`.
pub fn u128_text(n: u128) -> (r: String)
    ensures
        r@ == decimal(n as nat),
    decreases n,
{
    let mut s: String = if n < 10 {
        String::new()
    } else {
        u128_text(n / 10)
    };
    let d: u8 = (n % 10) as u8;
    let c: char = (48 + d) as char;
    s.push(c);
    assert(s@ =~= decimal(n as nat));
    s
}

/// The decimal digits of `n`.
pub fn u64_text(n: u64) -> (r: String)
    ensures
        r@ == decimal(n as nat),
{
    u128_text(n as u128)
}

/// The decimal digits of `n`.
pub fn usize_text(n: usize) -> (r: String)
    ensures
        r@ == decimal(n as nat),
{
    u64_text(n as u64)
}

/// The decimal form of `n`.
pub fn i32_text(n: i32) -> (r: String)
    ensures
        r@ == signed_decimal(n as int),
{
    if n < 0 {
        let m: u64 = (-(n as i64)) as u64;
        let mut s: String = String::new();
        s.push('-');
        s.append(u64_text(m).as_str());
        assert(s@ =~= signed_decimal(n as int));
        s
    } else {
        u64_text(n as u64)
    }
}

/// The value of a longer run of digits is at least that of its beginning.
proof fn lemma_digits_value_mono(s: Seq<char>, k: int)
    requires
        0 <= k <= s.len(),
        all_digits(s),
    ensures
        digits_value(s.subrange(0, k)) <= digits_value(s),
    decreases s.len() - k,
{
    if k < s.len() {
        lemma_digits_value_mono(s, k + 1);
        let t = s.subrange(0, k + 1);
        assert(t.subrange(0, t.len() - 1) =~= s.subrange(0, k));
        assert(digits_value(t) == digits_value(s.subrange(0, k)) * 10 + ((t[k] as u32 - 48) as nat));
    } else {
        assert(s.subrange(0, k) =~= s);
    }
}

/// The `u64` that `s` denotes.
pub fn str_parse_u64(s: &str) -> (r: Option<u64>)
    ensures
        r == parse_u64(s@),
{
    let v = chars_of(s);
    let start: usize = if v.len() > 0 && v[0] == '+' {
        1
    } else {
        0
    };
    let ghost t = v@.subrange(start as int, v.len() as int);
    assert(start == 0 ==> t =~= s@);
    if start == v.len() {
        return None;
    }
    let mut n: u64 = 0;
    let mut i: usize = start;
    assert(t.subrange(0, 0) =~= Seq::<char>::empty());
    while i < v.len()
        invariant
            start <= i <= v.len(),
            t == v@.subrange(start as int, v.len() as int),
            forall|j: int| 0 <= j < i - start ==> is_digit(#[trigger] t[j]),
            n == digits_value(t.subrange(0, i - start)),
            t == unsigned_part(s@),
            t.len() > 0,
        decreases v.len() - i,
    {
        let c = v[i];
        assert(t[i - start] == c);
        if c < '0' || c > '9' {
            assert(!is_digit(t[i - start]) && !all_digits(t));
            return None;
        }
        let d: u64 = (c as u32 - 48) as u64;
        let ghost u = t.subrange(0, i - start + 1);
        assert(u.subrange(0, u.len() - 1) =~= t.subrange(0, i - start));
        assert(digits_value(u) == n * 10 + d);
        if n > (u64::MAX - d) / 10 {
            proof {
                if all_digits(t) {
                    lemma_digits_value_mono(t, i - start + 1);
                }
            }
            return None;
        }
        n = n * 10 + d;
        i = i + 1;
    }
    assert(t.subrange(0, i - start) =~= t);
    Some(n)
}

/// `s` with every ASCII capital made small.
pub fn str_ascii_lower(s: &str) -> (r: String)
    ensures
        r@ == ascii_lower(s@),
{
    let v = chars_of(s);
    let mut out: String = String::new();
    let mut i: usize = 0;
    while i < v.len()
        invariant
            i <= v.len(),
            out@ =~= ascii_lower(v@.subrange(0, i as int)),
        decreases v.len() - i,
    {
        let c = v[i];
        if 'A' <= c && c <= 'Z' {
            let b: u8 = (c as u32 + 32) as u8;
            out.push(b as char);
        } else {
            out.push(c);
        }
        i = i + 1;
    }
    assert(v@.subrange(0, i as int) =~= s@);
    out
}

/// How often `c` stands in `s`.
pub fn str_count_char(s: &str, c: char) -> (r: usize)
    ensures
        r == count_char(s@, c),
{
    let v = chars_of(s);
    let mut n: usize = 0;
    let mut i: usize = 0;
    assert(v@.subrange(0, 0) =~= Seq::<char>::empty());
    while i < v.len()
        invariant
            i <= v.len(),
            n <= i,
            n == count_char(v@.subrange(0, i as int), c),
        decreases v.len() - i,
    {
        let ghost t = v@.subrange(0, i + 1);
        assert(t.subrange(0, t.len() - 1) =~= v@.subrange(0, i as int));
        if v[i] == c {
            n = n + 1;
        }
        i = i + 1;
    }
    assert(v@.subrange(0, i as int) =~= s@);
    n
}

// ---------------------------------------------------------------------------
// Length in bytes
// ---------------------------------------------------------------------------

/// The bytes that a character takes in UTF-8.
pub open spec fn width(c: char) -> nat {
    if (c as u32) < 0x80 {
        1
    } else if (c as u32) < 0x800 {
        2
    } else if (c as u32) < 0x10000 {
        3
    } else {
        4
    }
}

/// The bytes that a text takes in UTF-8.
pub open spec fn byte_len(s: Seq<char>) -> nat
    decreases s.len(),
{
    if s.len() == 0 {
        0
    } else {
        width(s[0]) + byte_len(s.subrange(1, s.len() as int))
    }
}

/// The longest prefix of whole characters that takes at most `max` bytes.
pub open spec fn longest_prefix(s: Seq<char>, max: nat) -> Seq<char>
    decreases s.len(),
{
    if s.len() == 0 || byte_len(s) <= max {
        s
    } else {
        longest_prefix(s.subrange(0, s.len() - 1), max)
    }
}

/// The longest suffix of whole characters that takes at most `max` bytes.
pub open spec fn longest_suffix(s: Seq<char>, max: nat) -> Seq<char>
    decreases s.len(),
{
    if s.len() == 0 || byte_len(s) <= max {
        s
    } else {
        longest_suffix(s.subrange(1, s.len() as int), max)
    }
}

proof fn lemma_byte_len_push(s: Seq<char>, c: char)
    ensures
        byte_len(s.push(c)) == byte_len(s) + width(c),
    decreases s.len(),
{
    let all = s.push(c);
    if s.len() == 0 {
        assert(all.subrange(1, all.len() as int) =~= seq![]);
        assert(byte_len(all.subrange(1, all.len() as int)) == 0);
    } else {
        let rest = s.subrange(1, s.len() as int);
        assert(all.subrange(1, all.len() as int) =~= rest.push(c));
        lemma_byte_len_push(rest, c);
    }
}

proof fn lemma_byte_len_utf8(s: Seq<char>)
    ensures
        vstd::utf8::encode_utf8(s).len() == byte_len(s),
    decreases s.len(),
{
    if s.len() > 0 {
        lemma_byte_len_utf8(s.subrange(1, s.len() as int));
        assert(s.drop_first() =~= s.subrange(1, s.len() as int));
        vstd::utf8::char_is_scalar(s[0]);
    }
}

/// The length of a text in bytes.
pub fn str_len(s: &str) -> (r: usize)
    ensures
        r == byte_len(s@),
{
    proof {
        lemma_byte_len_utf8(s@);
    }
    s.as_bytes().len()
}

/// The bytes that a character takes.
fn char_width(c: char) -> (r: usize)
    ensures
        r == width(c),
{
    let n: u32 = c as u32;
    if n < 0x80 {
        1
    } else if n < 0x800 {
        2
    } else if n < 0x10000 {
        3
    } else {
        4
    }
}

/// Truncate `s` to at most `max_bytes` bytes, rounding down to a char boundary. Keeps the start
/// of the string.
pub fn truncate_str(s: &str, max_bytes: usize) -> (r: &str)
    ensures
        r@ == longest_prefix(s@, max_bytes as nat),
{
    let mut left: usize = str_len(s);
    if left <= max_bytes {
        return s;
    }
    let v = chars_of(s);
    let mut n: usize = v.len();
    assert(v@.subrange(0, n as int) =~= v@);
    while n > 0 && left > max_bytes
        invariant
            n <= v.len(),
            left == byte_len(v@.subrange(0, n as int)),
            longest_prefix(v@, max_bytes as nat) == longest_prefix(
                v@.subrange(0, n as int),
                max_bytes as nat,
            ),
        decreases n,
    {
        let ghost p = v@.subrange(0, n as int);
        n = n - 1;
        let ghost q = v@.subrange(0, n as int);
        assert(p.subrange(0, p.len() - 1) =~= q);
        assert(p =~= q.push(v@[n as int]));
        proof {
            lemma_byte_len_push(q, v@[n as int]);
        }
        left = left - char_width(v[n]);
    }
    s.substring_char(0, n)
}

/// Truncate `s` to at most `max_bytes` bytes from the end, rounding up to a char boundary. Keeps
/// the end of the string.
pub fn truncate_str_end(s: &str, max_bytes: usize) -> (r: &str)
    ensures
        r@ == longest_suffix(s@, max_bytes as nat),
{
    let mut left: usize = str_len(s);
    if left <= max_bytes {
        return s;
    }
    let v = chars_of(s);
    let mut start: usize = 0;
    assert(v@.subrange(0, v@.len() as int) =~= v@);
    while start < v.len() && left > max_bytes
        invariant
            start <= v.len(),
            left == byte_len(v@.subrange(start as int, v@.len() as int)),
            longest_suffix(v@, max_bytes as nat) == longest_suffix(
                v@.subrange(start as int, v@.len() as int),
                max_bytes as nat,
            ),
        decreases v.len() - start,
    {
        let ghost p = v@.subrange(start as int, v@.len() as int);
        assert(p.subrange(1, p.len() as int) =~= v@.subrange(start + 1, v@.len() as int));
        left = left - char_width(v[start]);
        start = start + 1;
    }
    s.substring_char(start, v.len())
}

/// Truncation keeps as many characters of the start as fit, and no more.
pub proof fn law_truncate_keeps_the_start(s: Seq<char>, max: nat)
    ensures
        ({
            let r = longest_prefix(s, max);
            &&& r.len() <= s.len()
            &&& r == s.subrange(0, r.len() as int)
            &&& byte_len(r) <= max
            &&& forall|k: int|
                r.len() < k <= s.len() ==> byte_len(#[trigger] s.subrange(0, k)) > max
        }),
    decreases s.len(),
{
    let r = longest_prefix(s, max);
    if s.len() == 0 || byte_len(s) <= max {
        assert(s.subrange(0, s.len() as int) =~= s);
    } else {
        let init = s.subrange(0, s.len() - 1);
        law_truncate_keeps_the_start(init, max);
        assert(r =~= s.subrange(0, r.len() as int));
        assert forall|k: int| r.len() < k <= s.len() implies byte_len(
            #[trigger] s.subrange(0, k),
        ) > max by {
            if k < s.len() {
                assert(init.subrange(0, k) =~= s.subrange(0, k));
            } else {
                assert(s.subrange(0, k) =~= s);
            }
        }
    }
}

/// Truncation from the front keeps as many characters of the end as fit, and no more.
pub proof fn law_truncate_keeps_the_end(s: Seq<char>, max: nat)
    ensures
        ({
            let r = longest_suffix(s, max);
            &&& r.len() <= s.len()
            &&& r == s.subrange(s.len() - r.len(), s.len() as int)
            &&& byte_len(r) <= max
            &&& forall|k: int|
                0 <= k < s.len() - r.len() ==> byte_len(
                    #[trigger] s.subrange(k, s.len() as int),
                ) > max
        }),
    decreases s.len(),
{
    let r = longest_suffix(s, max);
    if s.len() == 0 || byte_len(s) <= max {
        assert(s.subrange(0, s.len() as int) =~= s);
    } else {
        let rest = s.subrange(1, s.len() as int);
        law_truncate_keeps_the_end(rest, max);
        assert(r =~= s.subrange(s.len() - r.len(), s.len() as int));
        assert forall|k: int| 0 <= k < s.len() - r.len() implies byte_len(
            #[trigger] s.subrange(k, s.len() as int),
        ) > max by {
            if k > 0 {
                assert(rest.subrange(k - 1, rest.len() as int) =~= s.subrange(k, s.len() as int));
            } else {
                assert(s.subrange(k, s.len() as int) =~= s);
            }
        }
    }
}

/// A number is the value of its decimal digits.
pub proof fn lemma_decimal(n: nat)
    ensures
        decimal(n).len() > 0,
        all_digits(decimal(n)),
        digits_value(decimal(n)) == n,
    decreases n,
{
    let d = decimal(n);
    if n < 10 {
        assert(d.subrange(0, 0) =~= Seq::empty());
        assert(digits_value(d.subrange(0, 0)) == 0);
    } else {
        lemma_decimal(n / 10);
        assert(d.subrange(0, d.len() - 1) =~= decimal(n / 10));
    }
}

/// A number is read back from its decimal form, which no whitespace surrounds.
pub proof fn law_decimal_round_trip(n: u64)
    ensures
        parse_u64(decimal(n as nat)) == Some(n),
        trim(decimal(n as nat)) == decimal(n as nat),
{
    lemma_decimal(n as nat);
    let d = decimal(n as nat);
    assert(is_digit(d[0]));
    assert(is_digit(d[d.len() - 1]));
}

/// Trimming the end takes away whitespace only, and all of it.
pub proof fn law_trim_end(s: Seq<char>)
    ensures
        trim_end(s).len() <= s.len(),
        trim_end(s) == s.subrange(0, trim_end(s).len() as int),
        forall|i: int| trim_end(s).len() <= i < s.len() ==> is_ws(#[trigger] s[i]),
        trim_end(s).len() > 0 ==> !is_ws(s[trim_end(s).len() - 1]),
    decreases s.len(),
{
    if s.len() > 0 && is_ws(s[s.len() - 1]) {
        let init = s.subrange(0, s.len() - 1);
        law_trim_end(init);
        assert(s.subrange(0, trim_end(s).len() as int) =~= init.subrange(
            0,
            trim_end(s).len() as int,
        ));
        assert forall|i: int| trim_end(s).len() <= i < s.len() implies is_ws(#[trigger] s[i]) by {
            if i < s.len() - 1 {
                assert(init[i] == s[i]);
            }
        }
        if trim_end(s).len() > 0 {
            assert(init[trim_end(s).len() - 1] == s[trim_end(s).len() - 1]);
        }
    } else {
        assert(s.subrange(0, s.len() as int) =~= s);
    }
}

/// Trimming the start takes away whitespace only, and all of it.
pub proof fn law_trim_start(s: Seq<char>)
    ensures
        trim_start(s).len() <= s.len(),
        trim_start(s) == s.subrange(s.len() - trim_start(s).len(), s.len() as int),
        forall|i: int| 0 <= i < s.len() - trim_start(s).len() ==> is_ws(#[trigger] s[i]),
        trim_start(s).len() > 0 ==> !is_ws(s[s.len() - trim_start(s).len()]),
    decreases s.len(),
{
    if s.len() > 0 && is_ws(s[0]) {
        let rest = s.subrange(1, s.len() as int);
        law_trim_start(rest);
        let n = trim_start(s).len() as int;
        assert(s.subrange(s.len() - n, s.len() as int) =~= rest.subrange(
            rest.len() - n,
            rest.len() as int,
        ));
        assert forall|i: int| 0 <= i < s.len() - n implies is_ws(#[trigger] s[i]) by {
            if i > 0 {
                assert(rest[i - 1] == s[i]);
            }
        }
        if n > 0 {
            assert(rest[rest.len() - n] == s[s.len() - n]);
        }
    } else {
        assert(s.subrange(0, s.len() as int) =~= s);
    }
}

/// Blanks, tabs and line ends are whitespace; what can be seen of ASCII is not.
pub proof fn law_whitespace()
    ensures
        is_ws(' ') && is_ws('\t') && is_ws('\n') && is_ws('\r'),
        forall|c: char| '!' <= c <= '~' ==> !#[trigger] is_ws(c),
{
}

/// The parts of two lists, one list behind the other.
pub proof fn law_concat(a: Seq<Seq<char>>, b: Seq<Seq<char>>)
    ensures
        concat(a + b) == concat(a) + concat(b),
        forall|s: Seq<char>| concat(#[trigger] seq![s]) == s,
        concat(Seq::empty()).len() == 0,
    decreases b.len(),
{
    assert forall|s: Seq<char>| concat(#[trigger] seq![s]) == s by {
        assert(seq![s].subrange(0, 0) =~= Seq::empty());
        assert(concat(Seq::<Seq<char>>::empty()) + s =~= s);
    }
    if b.len() == 0 {
        assert(a + b =~= a);
        assert(concat(a) + concat(b) =~= concat(a));
    } else {
        let init = b.subrange(0, b.len() - 1);
        law_concat(a, init);
        assert((a + b).subrange(0, (a + b).len() - 1) =~= a + init);
        assert(concat(a + b) =~= concat(a) + concat(b));
    }
}

/// Each part stands in the joined text, behind the parts before it and in front of those after it,
/// with the separator between neighbours.
pub proof fn law_join(a: Seq<Seq<char>>, b: Seq<Seq<char>>, sep: Seq<char>)
    ensures
        a.len() > 0 && b.len() > 0 ==> join(a + b, sep) == join(a, sep) + sep + join(b, sep),
        forall|s: Seq<char>| join(#[trigger] seq![s], sep) == s,
        join(Seq::empty(), sep).len() == 0,
    decreases b.len(),
{
    if a.len() > 0 && b.len() > 0 {
        let all = a + b;
        let init = b.subrange(0, b.len() - 1);
        assert(all.subrange(0, all.len() - 1) =~= a + init);
        if b.len() == 1 {
            assert(a + init =~= a);
        } else {
            law_join(a, init, sep);
        }
        assert(join(all, sep) =~= join(a, sep) + sep + join(b, sep));
    }
}

pub proof fn lemma_char_from(s: Seq<char>, c: char, from: int)
    requires
        0 <= from <= s.len(),
    ensures
        from <= char_from(s, c, from) <= s.len(),
        char_from(s, c, from) < s.len() ==> s[char_from(s, c, from)] == c,
        forall|i: int| from <= i < char_from(s, c, from) ==> #[trigger] s[i] != c,
    decreases s.len() - from,
{
    if from < s.len() && s[from] != c {
        lemma_char_from(s, c, from + 1);
    }
}

/// The pieces of a text hold nothing of what it is split at, and joined again they are the text.
pub proof fn law_split(s: Seq<char>, c: char)
    ensures
        split(s, c).len() > 0,
        join(split(s, c), seq![c]) == s,
        forall|i: int| 0 <= i < split(s, c).len() ==> !(#[trigger] split(s, c)[i]).contains(c),
    decreases s.len(),
{
    let at = char_from(s, c, 0);
    lemma_char_from(s, c, 0);
    if at < s.len() {
        let rest = s.subrange(at + 1, s.len() as int);
        let first = s.subrange(0, at);
        law_split(rest, c);
        law_join(seq![first], split(rest, c), seq![c]);
        assert(join(seq![first], seq![c]) == first);
        assert(s =~= first + seq![c] + rest);
        assert forall|i: int| 0 <= i < split(s, c).len() implies !(#[trigger] split(
            s,
            c,
        )[i]).contains(c) by {
            if i == 0 {
                assert(split(s, c)[0] == first);
                assert(forall|j: int| 0 <= j < first.len() ==> first[j] == s[j]);
            } else {
                assert(split(s, c)[i] == split(rest, c)[i - 1]);
            }
        }
    } else {
        law_join(seq![s], seq![s], seq![c]);
        assert(split(s, c) =~= seq![s]);
        assert(forall|j: int| 0 <= j < s.len() ==> s[j] != c);
    }
}

/// The lines of a text are what stands between its line ends, in order.
pub proof fn law_lines(first: Seq<char>, rest: Seq<char>)
    requires
        !first.contains('\n'),
        first.len() > 0 ==> first.last() != '\r',
    ensures
        lines(first.push('\n') + rest) == seq![first] + lines(rest),
        lines(first + "\r\n"@ + rest) == seq![first] + lines(rest),
        first.len() > 0 ==> lines(first) == seq![first],
        lines(Seq::empty()).len() == 0,
{
    reveal_strlit("\r\n");
    let a = first.push('\n') + rest;
    lemma_char_from(a, '\n', 0);
    assert(a[first.len() as int] == '\n');
    assert forall|i: int| 0 <= i < first.len() implies #[trigger] a[i] != '\n' by {
        assert(first[i] == a[i]);
        assert(first.contains(first[i]));
    }
    assert(char_from(a, '\n', 0) == first.len());
    assert(a.subrange(0, first.len() as int) =~= first);
    assert(a.subrange(first.len() as int + 1, a.len() as int) =~= rest);
    let b = first + "\r\n"@ + rest;
    lemma_char_from(b, '\n', 0);
    assert(b[first.len() as int] == '\r');
    assert(b[first.len() as int + 1] == '\n');
    assert forall|i: int| 0 <= i < first.len() implies #[trigger] b[i] != '\n' by {
        assert(first[i] == b[i]);
        assert(first.contains(first[i]));
    }
    assert(char_from(b, '\n', 0) == first.len() + 1);
    assert(chomp_cr(b.subrange(0, first.len() as int + 1)) =~= first);
    assert(b.subrange(first.len() as int + 2, b.len() as int) =~= rest);
    if first.len() > 0 {
        lemma_char_from(first, '\n', 0);
        if char_from(first, '\n', 0) < first.len() {
            assert(first.contains(first[char_from(first, '\n', 0)]));
        }
    }
}

/// A text takes as many bytes as its two parts.
pub proof fn law_byte_len(a: Seq<char>, b: Seq<char>)
    ensures
        byte_len(a + b) == byte_len(a) + byte_len(b),
        a.len() <= byte_len(a) <= 4 * a.len(),
    decreases a.len(),
{
    if a.len() == 0 {
        assert(a + b =~= b);
    } else {
        let rest = a.subrange(1, a.len() as int);
        law_byte_len(rest, b);
        assert((a + b).subrange(1, (a + b).len() as int) =~= rest + b);
    }
}

/// Replacing takes the occurrences from left to right: the text up to the first one stays, and what is
/// behind it is treated likewise. A text without an occurrence stays as it is.
pub proof fn law_replace(s: Seq<char>, from: Seq<char>, to: Seq<char>, at: int)
    requires
        from.len() > 0,
        0 <= at,
        forall|j: int| 0 <= j < at ==> !occurs_at(s, from, j),
    ensures
        occurs_at(s, from, at) ==> replace(s, from, to) == s.subrange(0, at) + to + replace(
            s.subrange(at + from.len(), s.len() as int),
            from,
            to,
        ),
        at >= s.len() ==> replace(s, from, to) == s,
    decreases s.len(),
{
    if s.len() > 0 {
        if at == 0 {
            if occurs_at(s, from, 0) {
                assert(s.subrange(0, 0) + to + replace(
                    s.subrange(from.len() as int, s.len() as int),
                    from,
                    to,
                ) =~= to + replace(s.subrange(from.len() as int, s.len() as int), from, to));
            }
        } else {
            let rest = s.subrange(1, s.len() as int);
            assert(!occurs_at(s, from, 0));
            assert forall|j: int| 0 <= j < at - 1 implies !occurs_at(rest, from, j) by {
                if occurs_at(rest, from, j) {
                    assert(s.subrange(j + 1, j + 1 + from.len()) =~= rest.subrange(
                        j,
                        j + from.len(),
                    ));
                    assert(occurs_at(s, from, j + 1));
                }
            }
            law_replace(rest, from, to, at - 1);
            if occurs_at(s, from, at) {
                assert(rest.subrange(at - 1, at - 1 + from.len()) =~= s.subrange(
                    at,
                    at + from.len(),
                ));
                assert(occurs_at(rest, from, at - 1));
                assert(rest.subrange(at - 1 + from.len(), rest.len() as int) =~= s.subrange(
                    at + from.len(),
                    s.len() as int,
                ));
                assert(seq![s[0]] + rest.subrange(0, at - 1) =~= s.subrange(0, at));
                assert(replace(s, from, to) =~= s.subrange(0, at) + to + replace(
                    s.subrange(at + from.len(), s.len() as int),
                    from,
                    to,
                ));
            }
            if at >= s.len() {
                assert(seq![s[0]] + rest =~= s);
            }
        }
    }
}

/// The bytes that are counted for a text are those of its UTF-8 form.
pub proof fn law_byte_len_is_utf8(s: Seq<char>)
    ensures
        byte_len(s) == vstd::utf8::encode_utf8(s).len(),
{
    lemma_byte_len_utf8(s);
}

/// The last digit of a number stands for its remainder by ten, and the digits before it are those of
/// its quotient.
pub proof fn law_decimal(n: nat)
    ensures
        decimal(n).last() as int == '0' as int + n % 10,
        n < 10 ==> decimal(n).len() == 1,
        n >= 10 ==> decimal(n).drop_last() == decimal(n / 10),
        signed_decimal(n as int) == decimal(n),
        n > 0 ==> signed_decimal(-(n as int)) == seq!['-'] + decimal(n),
{
    if n >= 10 {
        assert(decimal(n).drop_last() =~= decimal(n / 10));
    }
}

/// Different numbers have different digits.
pub proof fn law_decimal_is_injective(a: nat, b: nat)
    requires
        a != b,
    ensures
        decimal(a) != decimal(b),
{
    lemma_decimal(a);
    lemma_decimal(b);
}

/// A text is split at its first separator, and so is what follows it.
pub proof fn law_split_first(first: Seq<char>, c: char, rest: Seq<char>)
    requires
        !first.contains(c),
    ensures
        split(first, c) == seq![first],
        split(first.push(c) + rest, c) == seq![first] + split(rest, c),
{
    assert forall|i: int| 0 <= i < first.len() implies #[trigger] first[i] != c by {
        assert(first.contains(first[i]));
    }
    lemma_char_from(first, c, 0);
    let s = first.push(c) + rest;
    lemma_char_from(s, c, 0);
    assert(s[first.len() as int] == c);
    let at = char_from(s, c, 0);
    assert(at == first.len()) by {
        if at < first.len() {
            assert(s[at] == first[at]);
        }
    }
    assert(s.subrange(0, at) =~= first);
    assert(s.subrange(at + 1, s.len() as int) =~= rest);
}

/// A number has no characters but digits.
pub proof fn law_decimal_digits(n: nat, c: char)
    requires
        c < '0' || c > '9',
    ensures
        !decimal(n).contains(c),
        decimal(n).len() > 0,
    decreases n,
{
    if n >= 10 {
        law_decimal_digits(n / 10, c);
        let d = decimal(n);
        if d.contains(c) {
            let i = choose|i: int| 0 <= i < d.len() && d[i] == c;
            if i < d.len() - 1 {
                assert(decimal(n / 10)[i] == c);
            }
        }
    }
}

/// Lower-casing keeps the length, turns each capital of the alphabet into its small letter, and leaves every
/// other character; doing it twice is the same as doing it once.
pub proof fn law_ascii_lower(s: Seq<char>)
    ensures
        ascii_lower(s).len() == s.len(),
        forall|i: int|
            0 <= i < s.len() ==> (if 'A' <= s[i] <= 'Z' {
                #[trigger] ascii_lower(s)[i] as int == s[i] as int + ('a' as int - 'A' as int)
            } else {
                ascii_lower(s)[i] == s[i]
            }),
        ascii_lower(ascii_lower(s)) == ascii_lower(s),
{
    assert(ascii_lower(ascii_lower(s)) =~= ascii_lower(s));
}

/// A text is a number only if it holds digits, at least one, and nothing else but a plus sign before them.
/// One more digit at its end makes it ten times as large, and adds the digit.
pub proof fn law_parse_u64(s: Seq<char>, c: char)
    requires
        '0' <= c <= '9',
    ensures
        parse_u64(s) is Some ==> s.len() > 0 && is_digit(s.last()),
        parse_u64(s) is Some ==> forall|i: int| 0 < i < s.len() ==> is_digit(#[trigger] s[i]),
        parse_u64(s) matches Some(n) ==> 10 * n + (c as int - '0' as int) <= u64::MAX ==> parse_u64(
            s.push(c),
        ) == Some((10 * n + (c as int - '0' as int)) as u64),
        parse_u64(seq![c]) == Some((c as int - '0' as int) as u64),
{
    let t = unsigned_part(s);
    let u = unsigned_part(s.push(c));
    if parse_u64(s) is Some {
        assert(is_digit(t[t.len() - 1]));
        assert forall|i: int| 0 < i < s.len() implies is_digit(#[trigger] s[i]) by {
            if s[0] == '+' {
                assert(t[i - 1] == s[i]);
            } else {
                assert(t[i] == s[i]);
            }
        }
        assert(u =~= t.push(c));
        assert(u.subrange(0, u.len() - 1) =~= t);
        assert forall|i: int| 0 <= i < u.len() implies is_digit(#[trigger] u[i]) by {
            if i < t.len() {
                assert(u[i] == t[i]);
            }
        }
    }
    let one = seq![c];
    assert(unsigned_part(one) == one);
    assert(one.subrange(0, 0) =~= Seq::empty());
    assert(digits_value(one.subrange(0, one.len() - 1)) == 0);
}

/// What a search finds is the first place at which the pattern stands; it finds nothing only where the
/// pattern stands nowhere. A prefix that is there can be taken off, and put back.
pub proof fn law_find(s: Seq<char>, pat: Seq<char>, rest: Seq<char>)
    ensures
        find(s, pat) matches Some(i) ==> 0 <= i && i + pat.len() <= s.len() && s.subrange(
            i,
            i + pat.len(),
        ) == pat && forall|j: int| 0 <= j < i ==> #[trigger] s.subrange(j, j + pat.len()) != pat,
        find(s, pat) is None ==> forall|j: int|
            0 <= j && j + pat.len() <= s.len() ==> #[trigger] s.subrange(j, j + pat.len()) != pat,
        strip_prefix(pat + rest, pat) == Some(rest),
        strip_prefix(s, pat) matches Some(r) ==> s == pat + r,
{
    lemma_find(s, pat);
    if let Some(i) = find(s, pat) {
        assert forall|j: int| 0 <= j < i implies #[trigger] s.subrange(j, j + pat.len()) != pat by {
            assert(!occurs_at(s, pat, j));
        }
    } else {
        assert forall|j: int| 0 <= j && j + pat.len() <= s.len() implies #[trigger] s.subrange(
            j,
            j + pat.len(),
        ) != pat by {
            if s.subrange(j, j + pat.len()) == pat {
                assert(occurs_at(s, pat, j));
            }
        }
    }
    let all = pat + rest;
    assert(all.subrange(0, pat.len() as int) =~= pat);
    assert(all.subrange(pat.len() as int, all.len() as int) =~= rest);
    if let Some(r) = strip_prefix(s, pat) {
        assert(s =~= pat + r);
    }
}

/// How often a character stands in a text is how many places of it hold that character.
pub proof fn law_count_char(s: Seq<char>, c: char)
    ensures
        count_char(s, c) == s.filter(|x: char| x == c).len(),
    decreases s.len(),
{
    reveal(Seq::filter);
    if s.len() > 0 {
        assert(s.subrange(0, s.len() - 1) =~= s.drop_last());
        law_count_char(s.drop_last(), c);
    }
}

} // verus!
