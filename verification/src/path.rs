//! Unix paths as text.

use vstd::prelude::*;

use crate::text::{chars_of, str_eq, string_of};

verus! {

/// `part` inside `base`; an absolute `part` stands for itself.
pub open spec fn joined(base: Seq<char>, part: Seq<char>) -> Seq<char> {
    if part.len() > 0 && part[0] == '/' {
        part
    } else if base.len() == 0 || base[base.len() - 1] == '/' {
        base + part
    } else {
        base.push('/') + part
    }
}

/// The position of the last separator, -1 where there is none.
pub open spec fn last_slash(s: Seq<char>) -> int
    decreases s.len(),
{
    if s.len() == 0 {
        -1
    } else if s[s.len() - 1] == '/' {
        s.len() - 1
    } else {
        last_slash(s.subrange(0, s.len() - 1))
    }
}

/// What follows the last separator.
pub open spec fn tail(s: Seq<char>) -> Seq<char> {
    s.subrange(last_slash(s) + 1, s.len() as int)
}

/// Whether a component says nothing.
pub open spec fn is_idle(c: Seq<char>) -> bool {
    c.len() == 0 || c == seq!['.']
}

/// A path without idle components at its end. The root and a lone component stay.
pub open spec fn stripped(s: Seq<char>) -> Seq<char>
    decreases s.len(),
{
    let i = last_slash(s);
    if i < 0 || i >= s.len() || !is_idle(tail(s)) {
        s
    } else if i == 0 {
        seq!['/']
    } else {
        stripped(s.subrange(0, i))
    }
}

/// The directory that holds a path; the root and the empty path have none.
pub open spec fn parent_of(s: Seq<char>) -> Option<Seq<char>> {
    let t = stripped(s);
    let i = last_slash(t);
    if t.len() == 0 || t == seq!['/'] {
        None
    } else if i < 0 {
        Some(seq![])
    } else if i == 0 {
        Some(seq!['/'])
    } else {
        Some(stripped(t.subrange(0, i)))
    }
}

/// The last component of a path, if it is a name.
pub open spec fn name_of(s: Seq<char>) -> Option<Seq<char>> {
    let c = tail(stripped(s));
    if is_idle(c) || c == seq!['.', '.'] {
        None
    } else {
        Some(c)
    }
}

/// The position of the last dot, -1 where there is none.
pub open spec fn last_dot(s: Seq<char>) -> int
    decreases s.len(),
{
    if s.len() == 0 {
        -1
    } else if s[s.len() - 1] == '.' {
        s.len() - 1
    } else {
        last_dot(s.subrange(0, s.len() - 1))
    }
}

/// What follows the last dot of the name; a dot at its start does not count.
pub open spec fn extension_of(s: Seq<char>) -> Option<Seq<char>> {
    match name_of(s) {
        Some(n) => if last_dot(n) > 0 {
            Some(n.subrange(last_dot(n) + 1, n.len() as int))
        } else {
            None
        },
        None => None,
    }
}

proof fn lemma_last_slash(s: Seq<char>)
    ensures
        -1 <= last_slash(s) < s.len(),
    decreases s.len(),
{
    if s.len() > 0 && s[s.len() - 1] != '/' {
        lemma_last_slash(s.subrange(0, s.len() - 1));
    }
}

proof fn lemma_last_dot(s: Seq<char>)
    ensures
        -1 <= last_dot(s) < s.len(),
    decreases s.len(),
{
    if s.len() > 0 && s[s.len() - 1] != '.' {
        lemma_last_dot(s.subrange(0, s.len() - 1));
    }
}

proof fn lemma_stripped(s: Seq<char>)
    ensures
        stripped(s).len() <= s.len(),
        stripped(s) == s.subrange(0, stripped(s).len() as int),
    decreases s.len(),
{
    lemma_last_slash(s);
    let i = last_slash(s);
    if i < 0 || !is_idle(tail(s)) {
        assert(s.subrange(0, s.len() as int) =~= s);
    } else if i == 0 {
        lemma_slash_at(s);
        assert(seq!['/'] =~= s.subrange(0, 1));
    } else {
        lemma_stripped(s.subrange(0, i));
        assert(stripped(s) =~= s.subrange(0, stripped(s).len() as int));
    }
}

proof fn lemma_slash_at(s: Seq<char>)
    ensures
        last_slash(s) >= 0 ==> last_slash(s) < s.len() && s[last_slash(s)] == '/',
    decreases s.len(),
{
    if s.len() > 0 && s[s.len() - 1] != '/' {
        lemma_slash_at(s.subrange(0, s.len() - 1));
        lemma_last_slash(s.subrange(0, s.len() - 1));
    }
}

/// A parent is shorter than its path, so walking up ends.
pub proof fn law_parent_is_shorter(s: Seq<char>)
    ensures
        parent_of(s) matches Some(p) ==> p.len() < s.len(),
{
    lemma_stripped(s);
    let t = stripped(s);
    lemma_last_slash(t);
    let i = last_slash(t);
    if i > 0 {
        lemma_stripped(t.subrange(0, i));
    } else if i == 0 {
        lemma_slash_at(t);
        if t.len() == 1 {
            assert(t =~= seq!['/']);
        }
    }
}

/// A relative part that is joined to a directory can be taken off again.
pub proof fn law_join_then_parent(base: Seq<char>, part: Seq<char>)
    requires
        base.len() > 0,
        stripped(base) == base,
        last_slash(part) < 0,
        !is_idle(part),
    ensures
        parent_of(joined(base, part)) == Some(base),
        part != seq!['.', '.'] ==> name_of(joined(base, part)) == Some(part),
{
    let s = joined(base, part);
    lemma_last_slash(part);
    lemma_no_slash(part);
    lemma_last_slash(base);
    lemma_slash_at(base);
    if base[base.len() - 1] == '/' {
        // Only the root ends with a separator and has no idle end.
        lemma_ends_with_slash(base);
        assert(base =~= seq!['/']);
        assert(s =~= base + part);
        lemma_last_slash_of_join(base, part);
        assert(tail(s) =~= part);
        assert(s.len() > 1);
    } else {
        let b = base.push('/');
        assert(s == b + part);
        lemma_last_slash_of_join(b, part);
        assert(tail(s) =~= part);
        assert(s.subrange(0, last_slash(s)) =~= base);
        assert(s.len() > 1);
    }
}

proof fn lemma_ends_with_slash(s: Seq<char>)
    requires
        s.len() > 0,
        s[s.len() - 1] == '/',
        stripped(s) == s,
    ensures
        s =~= seq!['/'],
{
    assert(last_slash(s) == s.len() - 1);
    assert(tail(s) =~= seq![]);
    if s.len() > 1 {
        lemma_stripped(s.subrange(0, s.len() - 1));
    }
}

proof fn lemma_no_slash(s: Seq<char>)
    requires
        last_slash(s) < 0,
    ensures
        forall|i: int| 0 <= i < s.len() ==> s[i] != '/',
    decreases s.len(),
{
    if s.len() > 0 {
        let init = s.subrange(0, s.len() - 1);
        lemma_no_slash(init);
        assert forall|i: int| 0 <= i < s.len() implies s[i] != '/' by {
            if i < s.len() - 1 {
                assert(init[i] == s[i]);
            }
        }
    }
}

proof fn lemma_last_slash_of_join(b: Seq<char>, part: Seq<char>)
    requires
        b.len() > 0,
        b[b.len() - 1] == '/',
        forall|i: int| 0 <= i < part.len() ==> part[i] != '/',
    ensures
        last_slash(b + part) == b.len() - 1,
    decreases part.len(),
{
    let s = b + part;
    if part.len() == 0 {
        assert(s =~= b);
    } else {
        let init = part.subrange(0, part.len() - 1);
        assert(s[s.len() - 1] == part[part.len() - 1]);
        assert(s.subrange(0, s.len() - 1) =~= b + init);
        assert forall|i: int| 0 <= i < init.len() implies init[i] != '/' by {
            assert(init[i] == part[i]);
        }
        lemma_last_slash_of_join(b, init);
    }
}

// ---------------------------------------------------------------------------
// Code
// ---------------------------------------------------------------------------

/// `part` inside `base`; an absolute `part` stands for itself.
pub fn join(base: &str, part: &str) -> (r: String)
    ensures
        r@ == joined(base@, part@),
{
    let b = chars_of(base);
    let p = chars_of(part);
    if p.len() > 0 && p[0] == '/' {
        return part.to_owned();
    }
    let mut out: String = base.to_owned();
    if b.len() > 0 && b[b.len() - 1] != '/' {
        out.push('/');
    }
    out.append(part);
    out
}

/// The position after the last separator among the first `n` characters, 0 where there is none.
fn after_slash(v: &Vec<char>, n: usize) -> (r: usize)
    requires
        n <= v.len(),
    ensures
        r == last_slash(v@.subrange(0, n as int)) + 1,
        r <= n,
{
    let mut i: usize = n;
    while i > 0
        invariant
            i <= n <= v.len(),
            last_slash(v@.subrange(0, n as int)) == last_slash(v@.subrange(0, i as int)),
        decreases i,
    {
        let ghost p = v@.subrange(0, i as int);
        assert(p.subrange(0, p.len() - 1) =~= v@.subrange(0, i - 1));
        if v[i - 1] == '/' {
            return i;
        }
        i = i - 1;
    }
    0
}

/// The length of the first `n` characters without idle components at their end.
fn stripped_len(v: &Vec<char>, n: usize) -> (r: usize)
    requires
        n <= v.len(),
    ensures
        r <= n,
        v@.subrange(0, r as int) == stripped(v@.subrange(0, n as int)),
{
    let mut m: usize = n;
    loop
        invariant
            m <= n <= v.len(),
            stripped(v@.subrange(0, n as int)) == stripped(v@.subrange(0, m as int)),
        decreases m,
    {
        let ghost s = v@.subrange(0, m as int);
        proof {
            lemma_last_slash(s);
            lemma_slash_at(s);
        }
        let after: usize = after_slash(v, m);
        assert(tail(s) =~= v@.subrange(after as int, m as int));
        let idle: bool = after == m || (after + 1 == m && v[after] == '.');
        proof {
            if after + 1 == m && v@[after as int] == '.' {
                assert(tail(s) =~= seq!['.']);
            } else if after < m && after + 1 == m {
                assert(tail(s)[0] == v@[after as int]);
            }
        }
        if after == 0 || !idle {
            return m;
        }
        if after == 1 {
            assert(s[0] == '/');
            assert(v@.subrange(0, 1) =~= seq!['/']);
            return 1;
        }
        assert(s.subrange(0, after - 1) =~= v@.subrange(0, after - 1));
        m = after - 1;
    }
}

/// The directory that holds a path; the root and the empty path have none.
pub fn parent(path: &str) -> (r: Option<String>)
    ensures
        r.deep_view() == parent_of(path@),
{
    let v = chars_of(path);
    assert(v@.subrange(0, v@.len() as int) =~= v@);
    let n: usize = stripped_len(&v, v.len());
    let ghost t = v@.subrange(0, n as int);
    proof {
        lemma_last_slash(t);
    }
    if n == 0 {
        return None;
    }
    if n == 1 && v[0] == '/' {
        assert(t =~= seq!['/']);
        return None;
    }
    proof {
        assert(t != seq!['/']) by {
            if n == 1 {
                assert(t[0] == v@[0]);
            }
        }
    }
    let after: usize = after_slash(&v, n);
    if after == 0 {
        return Some(String::new());
    }
    if after == 1 {
        proof {
            lemma_slash_at(t);
        }
        let r = string_of(&v, 0, 1);
        assert(r@ =~= seq!['/']);
        return Some(r);
    }
    assert(t.subrange(0, after - 1) =~= v@.subrange(0, after - 1));
    let m: usize = stripped_len(&v, after - 1);
    Some(string_of(&v, 0, m))
}

/// The last component of a path, if it is a name.
pub fn file_name(path: &str) -> (r: Option<String>)
    ensures
        r.deep_view() == name_of(path@),
{
    let v = chars_of(path);
    assert(v@.subrange(0, v@.len() as int) =~= v@);
    let n: usize = stripped_len(&v, v.len());
    let after: usize = after_slash(&v, n);
    let ghost t = v@.subrange(0, n as int);
    assert(tail(t) =~= v@.subrange(after as int, n as int));
    let c = string_of(&v, after, n);
    proof {
        reveal_strlit("");
        reveal_strlit(".");
        reveal_strlit("..");
        assert("."@ =~= seq!['.']);
        assert(".."@ =~= seq!['.', '.']);
    }
    if after == n || str_eq(c.as_str(), ".") || str_eq(c.as_str(), "..") {
        None
    } else {
        Some(c)
    }
}

/// What follows the last dot of the name of a path.
pub fn extension(path: &str) -> (r: Option<String>)
    ensures
        r.deep_view() == extension_of(path@),
{
    let name = match file_name(path) {
        Some(n) => n,
        None => {
            return None;
        },
    };
    let v = chars_of(name.as_str());
    let mut i: usize = v.len();
    assert(v@.subrange(0, v@.len() as int) =~= v@);
    while i > 0
        invariant
            i <= v.len(),
            v@ == name@,
            name_of(path@) == Some(name@),
            last_dot(v@) == last_dot(v@.subrange(0, i as int)),
        decreases i,
    {
        let ghost p = v@.subrange(0, i as int);
        assert(p.subrange(0, p.len() - 1) =~= v@.subrange(0, i - 1));
        if v[i - 1] == '.' {
            if i == 1 {
                return None;
            }
            return Some(string_of(&v, i, v.len()));
        }
        i = i - 1;
    }
    None
}

/// The extension of a file is what stands behind the last dot of its name, whatever directory holds it;
/// a name that only starts with a dot has none.
pub proof fn law_extension(base: Seq<char>, stem: Seq<char>, ext: Seq<char>)
    requires
        base.len() > 0,
        stripped(base) == base,
        last_slash(stem) < 0,
        last_slash(ext) < 0,
        last_dot(ext) < 0,
        stem.len() > 0,
        stem + seq!['.'] + ext != seq!['.', '.'],
    ensures
        extension_of(joined(base, stem + seq!['.'] + ext)) == Some(ext),
        ext.len() > 0 ==> extension_of(joined(base, seq!['.'] + ext)) is None,
        ext.len() > 0 ==> extension_of(joined(base, ext)) is None,
{
    let name = stem + seq!['.'] + ext;
    assert(last_slash(seq!['.'].subrange(0, 0)) == -1);
    lemma_no_slash_join(seq!['.'], ext);
    lemma_no_slash_join(stem, seq!['.'] + ext);
    assert(name =~= stem + (seq!['.'] + ext));
    assert(name.len() > 1 || name.len() == 2);
    law_join_then_parent(base, name);
    lemma_dot_at(stem, ext);
    assert(name.subrange(last_dot(name) + 1, name.len() as int) =~= ext);
    let hidden = seq!['.'] + ext;
    if ext.len() > 0 {
        assert(ext != seq!['.']) by {
            lemma_dot_at(Seq::empty(), Seq::empty());
            assert(Seq::<char>::empty() + seq!['.'] + Seq::<char>::empty() =~= seq!['.']);
        }
        assert(hidden != seq!['.', '.']) by {
            if hidden == seq!['.', '.'] {
                assert(ext =~= seq!['.']);
            }
        }
        assert(ext != seq!['.', '.']) by {
            lemma_dot_at(seq!['.'], Seq::empty());
            assert(seq!['.'] + seq!['.'] + Seq::<char>::empty() =~= seq!['.', '.']);
        }
        law_join_then_parent(base, hidden);
        lemma_dot_at(Seq::empty(), ext);
        assert(Seq::<char>::empty() + seq!['.'] + ext =~= hidden);
        law_join_then_parent(base, ext);
    }
}

proof fn lemma_dot_at(stem: Seq<char>, ext: Seq<char>)
    requires
        last_dot(ext) < 0,
    ensures
        last_dot(stem + seq!['.'] + ext) == stem.len(),
    decreases ext.len(),
{
    let name = stem + seq!['.'] + ext;
    if ext.len() > 0 {
        let init = ext.subrange(0, ext.len() - 1);
        lemma_last_dot(init);
        lemma_dot_at(stem, init);
        assert(name.subrange(0, name.len() - 1) =~= stem + seq!['.'] + init);
        assert(name[name.len() - 1] == ext[ext.len() - 1]);
    } else {
        assert(name[name.len() - 1] == '.');
    }
}

proof fn lemma_no_slash_join(a: Seq<char>, b: Seq<char>)
    requires
        last_slash(a) < 0,
        last_slash(b) < 0,
    ensures
        last_slash(a + b) < 0,
    decreases b.len(),
{
    let s = a + b;
    if b.len() > 0 {
        let init = b.subrange(0, b.len() - 1);
        lemma_last_slash(init);
        lemma_no_slash_join(a, init);
        assert(s.subrange(0, s.len() - 1) =~= a + init);
        assert(s[s.len() - 1] == b[b.len() - 1]);
    } else {
        assert(s =~= a);
    }
}

/// An absolute path stands for itself, whatever directory it is joined to; any other is put behind the
/// directory, with one separator between.
pub proof fn law_joined(base: Seq<char>, part: Seq<char>)
    ensures
        part.len() > 0 && part[0] == '/' ==> joined(base, part) == part,
        part.len() == 0 || part[0] != '/' ==> {
            &&& base.len() == 0 ==> joined(base, part) == part
            &&& base.len() > 0 && base.last() == '/' ==> joined(base, part) == base + part
            &&& base.len() > 0 && base.last() != '/' ==> joined(base, part) == base + seq!['/'] + part
        },
{
    if base.len() == 0 {
        assert(base + part =~= part);
    } else {
        assert(base.push('/') + part =~= base + seq!['/'] + part);
    }
}

} // verus!
