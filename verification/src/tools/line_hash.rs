//! Line anchors: a short hash that names a line of a file.

use std::collections::HashMap;

use vstd::prelude::*;

use crate::text::usize_text;

verus! {

/// One byte into an FNV-1a hash.
pub open spec fn fnv_step(h: u32, b: u8) -> u32 {
    (((h ^ (b as u32)) as u64 * 16_777_619) % 0x1_0000_0000) as u32
}

/// The 32-bit FNV-1a hash of bytes.
pub open spec fn fnv(bytes: Seq<u8>) -> u32
    decreases bytes.len(),
{
    if bytes.len() == 0 {
        0x811c_9dc5
    } else {
        fnv_step(fnv(bytes.subrange(0, bytes.len() - 1)), bytes[bytes.len() - 1])
    }
}

/// A hexadecimal digit.
pub open spec fn hex_digit(d: nat) -> char {
    if d < 10 {
        (48 + d) as char
    } else {
        (87 + d) as char
    }
}

/// The last `n` hexadecimal digits of a number.
pub open spec fn hex(v: nat, n: nat) -> Seq<char>
    decreases n,
{
    if n == 0 {
        seq![]
    } else {
        hex(v / 16, (n - 1) as nat).push(hex_digit(v % 16))
    }
}

/// The hash of a line, as a number.
pub open spec fn line_code(line: Seq<char>) -> u32 {
    fnv(vstd::utf8::encode_utf8(line))
}

/// The hash of a line.
pub open spec fn line_hash(line: Seq<char>) -> Seq<char> {
    hex(line_code(line) as nat, 8)
}

/// How many of the first `n` lines have the hash.
pub open spec fn occurrences(lines: Seq<Seq<char>>, code: u32, n: int) -> nat
    decreases n,
{
    if n <= 0 {
        0
    } else {
        occurrences(lines, code, n - 1) + if line_code(lines[n - 1]) == code {
            1nat
        } else {
            0
        }
    }
}

/// The anchor of a line: its hash, with the number of its occurrence from the second on.
pub open spec fn anchor(lines: Seq<Seq<char>>, i: int) -> Seq<char> {
    let n = occurrences(lines, line_code(lines[i]), i);
    if n == 0 {
        line_hash(lines[i])
    } else {
        line_hash(lines[i]) + "."@ + crate::text::decimal(n + 1)
    }
}

/// The hash of a line, as a number.
fn code_of(line: &str) -> (r: u32)
    ensures
        r == line_code(line@),
{
    let bytes = line.as_bytes();
    let mut h: u32 = 0x811c_9dc5;
    let mut i: usize = 0;
    assert(bytes@.subrange(0, 0) =~= seq![]);
    while i < bytes.len()
        invariant
            i <= bytes.len(),
            h == fnv(bytes@.subrange(0, i as int)),
        decreases bytes.len() - i,
    {
        let ghost p = bytes@.subrange(0, i + 1);
        assert(p.subrange(0, p.len() - 1) =~= bytes@.subrange(0, i as int));
        let x: u32 = h ^ (bytes[i] as u32);
        h = ((x as u64 * 16_777_619) % 0x1_0000_0000) as u32;
        i = i + 1;
    }
    assert(bytes@.subrange(0, i as int) =~= bytes@);
    h
}

/// The hash of a line in eight hexadecimal digits.
pub fn fnv1a_8hex(line: &str) -> (r: String)
    ensures
        r@ == line_hash(line@),
{
    hex_text(code_of(line), 8)
}

/// The last `n` hexadecimal digits of a number.
fn hex_text(v: u32, n: u8) -> (r: String)
    ensures
        r@ == hex(v as nat, n as nat),
    decreases n,
{
    if n == 0 {
        return String::new();
    }
    let mut out: String = hex_text(v / 16, n - 1);
    let d: u8 = (v % 16) as u8;
    let c: char = if d < 10 {
        (48 + d) as char
    } else {
        (87 + d) as char
    };
    out.push(c);
    out
}

/// The count under a key, zero where there is none.
spec fn count_of(counts: Map<u32, usize>, code: u32) -> nat {
    if counts.contains_key(code) {
        counts[code] as nat
    } else {
        0
    }
}

/// The anchors of all lines.
pub fn hash_lines_with_disambiguators(lines: &Vec<String>) -> (r: Vec<String>)
    ensures
        r.deep_view() == Seq::new(
            lines.deep_view().len(),
            |i: int| anchor(lines.deep_view(), i),
        ),
{
    broadcast use vstd::std_specs::hash::group_hash_axioms;

    let ghost all = lines.deep_view();
    let mut counts: HashMap<u32, usize> = HashMap::new();
    let mut out: Vec<String> = Vec::new();
    let mut i: usize = 0;
    while i < lines.len()
        invariant
            i <= lines.len(),
            all == lines.deep_view(),
            out.len() == i,
            forall|c: u32| #[trigger] occurrences(all, c, i as int) == count_of(counts@, c),
            forall|c: u32| #[trigger] count_of(counts@, c) <= i,
            forall|j: int| 0 <= j < i ==> (#[trigger] out@[j])@ == anchor(all, j),
        decreases lines.len() - i,
    {
        assert(all[i as int] == lines[i as int]@);
        let code: u32 = code_of(lines[i].as_str());
        let n: usize = match counts.get(&code) {
            Some(k) => *k,
            None => 0,
        };
        assert(n == count_of(counts@, code));
        assert(n == occurrences(all, code, i as int));
        let mut a: String = hex_text(code, 8);
        if n > 0 {
            a.append(".");
            a.append(usize_text(n + 1).as_str());
        }
        assert(a@ == anchor(all, i as int));
        let ghost before = counts@;
        counts.insert(code, n + 1);
        assert forall|c: u32| #[trigger] occurrences(all, c, i + 1) == count_of(counts@, c) by {
            assert(occurrences(all, c, i as int) == count_of(before, c));
        }
        assert forall|c: u32| #[trigger] count_of(counts@, c) <= i + 1 by {
            assert(count_of(before, c) <= i);
        }
        out.push(a);
        i = i + 1;
    }
    assert(out.deep_view() =~= Seq::new(all.len(), |i: int| anchor(all, i)));
    out
}

/// No two lines of a file have the same anchor.
pub proof fn law_anchors_are_distinct(lines: Seq<Seq<char>>, i: int, j: int)
    requires
        0 <= i < j < lines.len(),
    ensures
        anchor(lines, i) != anchor(lines, j),
{
    let a = anchor(lines, i);
    let b = anchor(lines, j);
    let (ci, cj) = (line_code(lines[i]), line_code(lines[j]));
    lemma_hex_len(ci as nat, 8);
    lemma_hex_len(cj as nat, 8);
    assert(a.subrange(0, 8) =~= line_hash(lines[i]));
    assert(b.subrange(0, 8) =~= line_hash(lines[j]));
    if a == b {
        lemma_same_hash(ci, cj);
        let m = occurrences(lines, ci, i);
        let n = occurrences(lines, ci, j);
        lemma_occurrences_grow(lines, ci, i + 1, j);
        assert(m < n);
        reveal_strlit(".");
        if m > 0 {
            let da = crate::text::decimal(m + 1);
            let db = crate::text::decimal(n + 1);
            assert(a.subrange(9, a.len() as int) =~= da);
            assert(b.subrange(9, b.len() as int) =~= db);
            crate::text::lemma_decimal(m + 1);
            crate::text::lemma_decimal(n + 1);
        }
    }
}

/// How many numbers `n` hexadecimal digits can tell apart.
spec fn hex_range(n: nat) -> nat
    decreases n,
{
    if n == 0 {
        1
    } else {
        16 * hex_range((n - 1) as nat)
    }
}

/// There are as many digits as asked for.
proof fn lemma_hex_len(v: nat, n: nat)
    ensures
        hex(v, n).len() == n,
    decreases n,
{
    if n > 0 {
        lemma_hex_len(v / 16, (n - 1) as nat);
    }
}

/// Different digits look different.
proof fn lemma_hex_digit(a: nat, b: nat)
    requires
        a < 16,
        b < 16,
        hex_digit(a) == hex_digit(b),
    ensures
        a == b,
{
    assert(hex_digit(a) as nat == if a < 10 {
        48 + a
    } else {
        87 + a
    });
    assert(hex_digit(b) as nat == if b < 10 {
        48 + b
    } else {
        87 + b
    });
}

/// Digits that suffice tell numbers apart.
proof fn lemma_hex_injective(a: nat, b: nat, n: nat)
    requires
        a < hex_range(n),
        b < hex_range(n),
        hex(a, n) == hex(b, n),
    ensures
        a == b,
    decreases n,
{
    if n > 0 {
        let k = (n - 1) as nat;
        let (x, y) = (hex(a / 16, k), hex(b / 16, k));
        lemma_hex_len(a / 16, k);
        lemma_hex_len(b / 16, k);
        assert(hex(a, n) == x.push(hex_digit(a % 16)));
        assert(hex(b, n) == y.push(hex_digit(b % 16)));
        assert(hex(a, n)[k as int] == hex_digit(a % 16));
        assert(hex(b, n)[k as int] == hex_digit(b % 16));
        lemma_hex_digit(a % 16, b % 16);
        assert(hex(a, n).subrange(0, k as int) =~= x);
        assert(hex(b, n).subrange(0, k as int) =~= y);
        lemma_hex_injective(a / 16, b / 16, k);
    }
}

/// Hashes with the same digits are the same.
proof fn lemma_same_hash(a: u32, b: u32)
    requires
        hex(a as nat, 8) == hex(b as nat, 8),
    ensures
        a == b,
{
    reveal_with_fuel(hex_range, 9);
    lemma_hex_injective(a as nat, b as nat, 8);
}

/// More lines hold no fewer occurrences.
proof fn lemma_occurrences_grow(lines: Seq<Seq<char>>, code: u32, m: int, n: int)
    requires
        0 <= m <= n,
    ensures
        occurrences(lines, code, m) <= occurrences(lines, code, n),
    decreases n,
{
    if m < n {
        lemma_occurrences_grow(lines, code, m, n - 1);
    }
}

/// The lines from `from` to before `to`, each behind its anchor.
pub open spec fn shown_lines(
    lines: Seq<Seq<char>>,
    anchors: Seq<Seq<char>>,
    from: int,
    to: int,
) -> Seq<char> {
    crate::text::join(
        Seq::new((to - from) as nat, |i: int| anchors[from + i] + "§"@ + lines[from + i]),
        "\n"@,
    )
}

/// The lines from `from` to before `to`, each behind its anchor among all lines.
pub open spec fn anchored(lines: Seq<Seq<char>>, from: int, to: int) -> Seq<char> {
    shown_lines(lines, Seq::new(lines.len(), |i: int| anchor(lines, i)), from, to)
}

/// The lines from `from` to before `to`, each behind its anchor.
pub fn format_hashed(lines: &Vec<String>, anchors: &Vec<String>, from: usize, to: usize) -> (r:
    String)
    requires
        from <= to <= lines.len(),
        lines.len() == anchors.len(),
    ensures
        r@ == shown_lines(lines.deep_view(), anchors.deep_view(), from as int, to as int),
{
    let ghost all = lines.deep_view();
    let ghost named = anchors.deep_view();
    let mut parts: Vec<String> = Vec::new();
    let mut i: usize = from;
    while i < to
        invariant
            from <= i <= to <= lines.len(),
            lines.len() == anchors.len(),
            all == lines.deep_view(),
            named == anchors.deep_view(),
            parts.len() == i - from,
            forall|j: int|
                0 <= j < i - from ==> (#[trigger] parts@[j])@ == named[from + j] + "§"@
                    + all[from + j],
        decreases to - i,
    {
        assert(named[i as int] == anchors[i as int]@);
        assert(all[i as int] == lines[i as int]@);
        let mut line: String = anchors[i].clone();
        line.append("§");
        line.append(lines[i].as_str());
        parts.push(line);
        i = i + 1;
    }
    assert(parts.deep_view() =~= Seq::new(
        (to - from) as nat,
        |i: int| named[from + i] + "§"@ + all[from + i],
    ));
    crate::text::str_join(&parts, "\n")
}

/// Each line that is shown stands behind its anchor, a line each, in order.
pub proof fn law_lines_are_shown_with_their_anchors(lines: Seq<Seq<char>>, from: int, to: int, i: int)
    requires
        0 <= from < i < to <= lines.len(),
    ensures
        anchored(lines, from, to) == anchored(lines, from, i) + "\n"@ + anchored(lines, i, to),
        anchored(lines, i, i + 1) == anchor(lines, i) + "§"@ + lines[i],
{
    let anchors = Seq::new(lines.len(), |k: int| anchor(lines, k));
    let a = Seq::new((i - from) as nat, |k: int| anchors[from + k] + "§"@ + lines[from + k]);
    let b = Seq::new((to - i) as nat, |k: int| anchors[i + k] + "§"@ + lines[i + k]);
    let all = Seq::new((to - from) as nat, |k: int| anchors[from + k] + "§"@ + lines[from + k]);
    assert(all =~= a + b);
    crate::text::law_join(a, b, "\n"@);
    let one = Seq::new(((i + 1) - i) as nat, |k: int| anchors[i + k] + "§"@ + lines[i + k]);
    assert(one =~= seq![anchor(lines, i) + "§"@ + lines[i]]);
}

/// The hash of a line has eight digits and depends on the line alone: equal lines have anchors that
/// differ only in the number behind the hash.
pub proof fn law_anchor_starts_with_the_hash(lines: Seq<Seq<char>>, i: int)
    requires
        0 <= i < lines.len(),
    ensures
        line_hash(lines[i]).len() == 8,
        crate::text::starts_with(anchor(lines, i), line_hash(lines[i])),
        (forall|j: int| 0 <= j < i ==> #[trigger] lines[j] != lines[i] && line_code(lines[j])
            != line_code(lines[i])) ==> anchor(lines, i) == line_hash(lines[i]),
{
    lemma_hex_len(line_code(lines[i]) as nat, 8);
    let h = line_hash(lines[i]);
    assert(anchor(lines, i).subrange(0, h.len() as int) =~= h);
    if forall|j: int| 0 <= j < i ==> #[trigger] lines[j] != lines[i] && line_code(lines[j])
        != line_code(lines[i]) {
        lemma_none_before(lines, line_code(lines[i]), i);
    }
}

proof fn lemma_none_before(lines: Seq<Seq<char>>, code: u32, n: int)
    requires
        0 <= n <= lines.len(),
        forall|j: int| 0 <= j < n ==> line_code(#[trigger] lines[j]) != code,
    ensures
        occurrences(lines, code, n) == 0,
    decreases n,
{
    if n > 0 {
        lemma_none_before(lines, code, n - 1);
    }
}

} // verus!
