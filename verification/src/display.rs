//! Human-readable formatting for stats and token counts.
//!
//! Numbers are shown with one decimal, as 64-bit floating point division and formatting give
//! them; here they are computed with integers. A double is a whole number of 53 significant bits
//! times a power of two, and every operation rounds to the nearest one, ties to even.

use vstd::arithmetic::power2::*;
use vstd::prelude::*;

use crate::protocol::{SessionStats, TokenStats};
use crate::text::{str_join, u128_text, u64_text};

verus! {

// ---------------------------------------------------------------------------
// Rounding
// ---------------------------------------------------------------------------

/// The whole number nearest to `num / den`, the even one of two.
pub open spec fn nearest(num: nat, den: nat) -> nat {
    let q = num / den;
    let r = num % den;
    if 2 * r > den || (2 * r == den && q % 2 == 1) {
        q + 1
    } else {
        q
    }
}

/// How many bits of `num / den` are beyond the 53 that a double holds.
pub open spec fn excess(num: nat, den: nat) -> nat
    decreases num - den,
{
    if den == 0 || num / 0x20_0000_0000_0000 < den {
        0
    } else {
        1 + excess(num, 2 * den)
    }
}

/// By how many bits `num / den` must be shifted to have 53 of them before the point.
pub open spec fn shortage(num: nat, den: nat) -> nat
    decreases den * 0x20_0000_0000_0000 - num,
{
    if num == 0 || num / 0x10_0000_0000_0000 >= den {
        0
    } else {
        1 + shortage(2 * num, den)
    }
}

/// The double nearest to `num / den`, as a whole number over `2^shortage`.
pub open spec fn mantissa(num: nat, den: nat) -> nat {
    let s = shortage(num, den);
    let k = excess(num, den);
    nearest(num * pow2(s), den * pow2(k)) * pow2(k)
}

/// The double nearest to a whole number.
pub open spec fn double(n: nat) -> nat {
    nearest(n, pow2(excess(n, 1))) * pow2(excess(n, 1))
}

/// `n / unit` in tenths, as the quotient of doubles is shown.
pub open spec fn tenths(n: nat, unit: nat) -> nat {
    nearest(10 * mantissa(double(n), unit), pow2(shortage(double(n), unit)))
}

/// `part / whole` in tenths of a percent, as the product of doubles is shown.
pub open spec fn percent_tenths(part: nat, whole: nat) -> nat {
    let s = shortage(double(part), double(whole));
    let product = double(100 * mantissa(double(part), double(whole)));
    nearest(10 * product, pow2(s))
}

/// A number of tenths.
pub open spec fn one_decimal(t: nat) -> Seq<char> {
    crate::text::decimal(t / 10) + "."@ + crate::text::decimal(t % 10)
}

/// A token count for display.
pub open spec fn tokens_text(n: u64) -> Seq<char> {
    if n >= 1_000_000 {
        one_decimal(tenths(n as nat, 1_000_000)) + "M"@
    } else if n >= 1_000 {
        one_decimal(tenths(n as nat, 1_000)) + "K"@
    } else {
        crate::text::decimal(n as nat)
    }
}

// ---------------------------------------------------------------------------
// Code
// ---------------------------------------------------------------------------

/// The whole number nearest to `num / den`, the even one of two.
fn round_even(num: u128, den: u128) -> (r: u128)
    requires
        den > 0,
        num < u128::MAX,
    ensures
        r == nearest(num as nat, den as nat),
        r <= num / den + 1,
{
    let q: u128 = num / den;
    let rest: u128 = num % den;
    proof {
        assert(rest < den) by (nonlinear_arith)
            requires
                rest == num % den,
                den > 0,
        ;
        assert(q <= num) by (nonlinear_arith)
            requires
                q == num / den,
                den > 0,
        ;
    }
    let up: bool = rest > den - rest || (rest == den - rest && q % 2 == 1);
    if up {
        q + 1
    } else {
        q
    }
}

/// `2^k` for the bits of `num / den` that are beyond what a double holds.
fn excess_factor(num: u128, den: u128) -> (r: u128)
    requires
        0 < den,
        num < 0x4000_0000_0000_0000_0000_0000_0000_0000,
    ensures
        r == pow2(excess(num as nat, den as nat)),
        1 <= r,
        r == 1 || r * den <= num / 0x10_0000_0000_0000,
{
    let mut p: u128 = 1;
    let mut d: u128 = den;
    let ghost mut k: nat = 0;
    proof {
        lemma2_to64();
    }
    while num / 0x20_0000_0000_0000 >= d
        invariant
            0 < den,
            num < 0x4000_0000_0000_0000_0000_0000_0000_0000,
            1 <= p,
            d == p * den,
            d > 0,
            p == pow2(k),
            p == 1 || p * den <= num / 0x10_0000_0000_0000,
            p <= d,
            excess(num as nat, den as nat) == k + excess(num as nat, d as nat),
        decreases num - d,
    {
        proof {
            lemma_pow2_unfold(k + 1);
            assert(2 * (p * den) == (2 * p) * den) by (nonlinear_arith);
            assert(2 * d <= num / 0x10_0000_0000_0000);
        }
        d = 2 * d;
        p = 2 * p;
        proof {
            k = k + 1;
        }
    }
    p
}

/// `2^s` for the bits that `num / den` lacks.
fn shortage_factor(num: u128, den: u128) -> (r: u128)
    requires
        0 < num,
        0 < den <= 0x2_0000_0000_0000_0000,
        num < 0x10_0000_0000_0000_0000_0000_0000_0000,
    ensures
        r == pow2(shortage(num as nat, den as nat)),
        1 <= r,
        num * r < 0x40_0000_0000_0000_0000_0000_0000_0000,
{
    let mut p: u128 = 1;
    let mut m: u128 = num;
    let ghost mut s: nat = 0;
    proof {
        lemma2_to64();
    }
    while m / 0x10_0000_0000_0000 < den
        invariant
            0 < num,
            0 < den <= 0x2_0000_0000_0000_0000,
            1 <= p,
            p <= m,
            m == num * p,
            m < 0x40_0000_0000_0000_0000_0000_0000_0000,
            p == pow2(s),
            shortage(num as nat, den as nat) == s + shortage(m as nat, den as nat),
        decreases den * 0x20_0000_0000_0000 - m,
    {
        proof {
            lemma_pow2_unfold(s + 1);
            assert(2 * (num * p) == num * (2 * p)) by (nonlinear_arith);
        }
        m = 2 * m;
        p = 2 * p;
        proof {
            s = s + 1;
        }
    }
    p
}

/// The double nearest to a whole number.
fn to_double(n: u128) -> (r: u128)
    requires
        n < 0x4000_0000_0000_0000_0000_0000_0000_0000,
    ensures
        r == double(n as nat),
        r <= n + n / 0x10_0000_0000_0000,
        n > 0 ==> r > 0,
{
    let p: u128 = excess_factor(n, 1);
    let q: u128 = round_even(n, p);
    proof {
        assert(q * p <= n + p && (n / p) * p <= n) by (nonlinear_arith)
            requires
                q <= n / p + 1,
                p >= 1,
        ;
        if p == 1 {
            assert(n as nat / 1 == n && n as nat % 1 == 0);
            assert(q == n);
            assert(q * p == q) by (nonlinear_arith)
                requires
                    p == 1,
            ;
        } else {
            assert(p <= n / 0x10_0000_0000_0000);
        }
    }
    let r: u128 = q * p;
    proof {
        if p > 1 {
            assert(n / p >= 1) by (nonlinear_arith)
                requires
                    p <= n,
                    p >= 1,
            ;
            assert(r > 0) by (nonlinear_arith)
                requires
                    r == q * p,
                    q >= 1,
                    p >= 1,
            ;
        }
    }
    r
}

/// The double nearest to `num / den`, as a whole number over the second number.
fn divide(num: u128, den: u128) -> (r: (u128, u128))
    requires
        0 < num <= 0x2_0000_0000_0000_0000,
        0 < den <= 0x2_0000_0000_0000_0000,
    ensures
        r.0 == mantissa(num as nat, den as nat),
        r.1 == pow2(shortage(num as nat, den as nat)),
        r.1 >= 1,
        r.0 <= 0x40_0000_0000_0000_0000_0000_0000_0000 + 0x4_0000_0000_0000_0000,
{
    let p: u128 = shortage_factor(num, den);
    let k: u128 = excess_factor(num, den);
    proof {
        assert(den * k <= 0x2_0000_0000_0000_0000) by (nonlinear_arith)
            requires
                k == 1 || k * den <= num,
                num <= 0x2_0000_0000_0000_0000,
                den <= 0x2_0000_0000_0000_0000,
        ;
        assert(0 < den * k && k <= den * k) by (nonlinear_arith)
            requires
                k >= 1,
                den >= 1,
        ;
    }
    let m: u128 = num * p;
    let d: u128 = den * k;
    let q: u128 = round_even(m, d);
    proof {
        assert(q * k <= m + k) by (nonlinear_arith)
            requires
                q <= m / d + 1,
                k <= d,
                d >= 1,
                k >= 1,
        {
            assert((m / d) * d <= m);
            assert((m / d) * k <= (m / d) * d);
        }
    }
    (q * k, p)
}

/// A number of tenths.
fn decimal_text(t: u128) -> (r: String)
    ensures
        r@ == one_decimal(t as nat),
{
    let mut out: String = u128_text(t / 10);
    out.append(".");
    out.append(u128_text(t % 10).as_str());
    out
}

/// `n / unit` with one decimal.
fn scaled_text(n: u64, unit: u128) -> (r: String)
    requires
        n > 0,
        0 < unit <= 1_000_000,
    ensures
        r@ == one_decimal(tenths(n as nat, unit as nat)),
{
    let a: u128 = to_double(n as u128);
    let (m, p) = divide(a, unit);
    decimal_text(round_even(10 * m, p))
}

/// Format a token count for display: `1234` as `"1.2K"`, `1234567` as `"1.2M"`.
pub fn format_tokens(n: u64) -> (r: String)
    ensures
        r@ == tokens_text(n),
{
    if n >= 1_000_000 {
        let mut out: String = scaled_text(n, 1_000_000);
        out.append("M");
        out
    } else if n >= 1_000 {
        let mut out: String = scaled_text(n, 1_000);
        out.append("K");
        out
    } else {
        u64_text(n)
    }
}

/// `part / whole` as a percentage with one decimal.
fn percent_text(part: u64, whole: u64) -> (r: String)
    requires
        whole > 0,
    ensures
        r@ == one_decimal(percent_tenths(part as nat, whole as nat)),
{
    let w: u128 = to_double(whole as u128);
    if part == 0 {
        proof {
            lemma_zero_percent(w as nat);
        }
        return decimal_text(0);
    }
    let a: u128 = to_double(part as u128);
    let (m, p) = divide(a, w);
    let product: u128 = to_double(100 * m);
    decimal_text(round_even(10 * product, p))
}

proof fn lemma_zero_percent(whole: nat)
    requires
        whole > 0,
    ensures
        mantissa(0, whole) == 0,
        shortage(0, whole) == 0,
        double(0) == 0,
        nearest(10 * double(100 * mantissa(0, whole)), pow2(0)) == 0,
{
    lemma2_to64();
    assert(excess(0, whole) == 0);
    assert(0nat * pow2(0) == 0);
    assert(whole * pow2(0) == whole);
    assert(0nat / whole == 0 && 0nat % whole == 0) by (nonlinear_arith)
        requires
            whole > 0,
    ;
    assert(nearest(0, whole) == 0);
    assert(excess(0, 1) == 0);
    assert(nearest(0, 1) == 0);
    assert(nearest(0, 1) * pow2(0) == 0);
}

/// Append a part that counts tokens, unless there are none.
fn push_tokens(parts: &mut Vec<String>, mark: &str, n: u64)
    ensures
        final(parts).deep_view() == with_part(old(parts).deep_view(), mark@, n),
{
    if n > 0 {
        let mut out: String = mark.to_owned();
        out.append(format_tokens(n).as_str());
        parts.push(out);
        assert(parts.deep_view() =~= old(parts).deep_view().push(out@));
    }
}

/// Parts with one more that counts tokens, unless there are none.
pub open spec fn with_part(parts: Seq<Seq<char>>, mark: Seq<char>, n: u64) -> Seq<Seq<char>> {
    if n > 0 {
        parts.push(mark + tokens_text(n))
    } else {
        parts
    }
}

/// The parts that show token counts.
pub open spec fn token_parts(t: TokenStats) -> Seq<Seq<char>> {
    with_part(
        with_part(
            with_part(with_part(seq![], "↑"@, t.input), "↓"@, t.output),
            "R"@,
            t.cache_read,
        ),
        "W"@,
        t.cache_write,
    )
}

/// The parts that show token counts.
fn collect_tokens(tokens: &TokenStats) -> (r: Vec<String>)
    ensures
        r.deep_view() == token_parts(*tokens),
{
    let mut parts: Vec<String> = Vec::new();
    assert(parts.deep_view() =~= seq![]);
    push_tokens(&mut parts, "↑", tokens.input);
    push_tokens(&mut parts, "↓", tokens.output);
    push_tokens(&mut parts, "R", tokens.cache_read);
    push_tokens(&mut parts, "W", tokens.cache_write);
    parts
}

/// Format a `TokenStats` for display: `"↑1.2K ↓900"`.
pub fn format_token_stats(tokens: &TokenStats) -> (r: String)
    ensures
        r@ == crate::text::join(token_parts(*tokens), " "@),
{
    let parts = collect_tokens(tokens);
    str_join(&parts, " ")
}

/// How full the context window is.
pub open spec fn context_text(used: Option<u64>, window: u64) -> Seq<char> {
    match used {
        Some(t) => one_decimal(percent_tenths(t as nat, window as nat)) + "%/"@ + tokens_text(
            window,
        ),
        None => "?/"@ + tokens_text(window),
    }
}

/// The parts of a footer.
pub open spec fn stats_parts(stats: SessionStats, cost: Option<Seq<char>>) -> Seq<Seq<char>> {
    let tokens = token_parts(stats.tokens);
    let priced = match cost {
        Some(c) => tokens.push("$"@ + c),
        None => tokens,
    };
    if stats.context_window > 0 {
        priced.push(context_text(stats.context_tokens, stats.context_window))
    } else {
        priced
    }
}

/// Format session stats as a compact footer:
/// `↑12.0K ↓81.0K R18.0M W353.0K $13.434 18.4%/200.0K`
///
/// Only non-zero parts are emitted, so a fresh session renders as `""`. `cost` is the cost in
/// dollars as text, where there is any.
pub fn format_stats(stats: &SessionStats, cost: Option<&str>) -> (r: String)
    ensures
        r@ == crate::text::join(
            stats_parts(
                *stats,
                match cost {
                    Some(c) => Some(c@),
                    None => None,
                },
            ),
            " "@,
        ),
{
    let mut parts = collect_tokens(&stats.tokens);
    if let Some(c) = cost {
        let ghost before = parts.deep_view();
        let mut out: String = "$".to_owned();
        out.append(c);
        parts.push(out);
        assert(parts.deep_view() =~= before.push(out@));
    }
    if stats.context_window > 0 {
        let ghost before = parts.deep_view();
        let mut out: String = match stats.context_tokens {
            Some(t) => {
                let mut p: String = percent_text(t, stats.context_window);
                p.append("%/");
                p
            },
            None => "?/".to_owned(),
        };
        out.append(format_tokens(stats.context_window).as_str());
        parts.push(out);
        assert(parts.deep_view() =~= before.push(out@));
    }
    str_join(&parts, " ")
}

proof fn lemma_nearest(num: nat, den: nat)
    requires
        den > 0,
    ensures
        2 * (nearest(num, den) * den) <= 2 * num + den,
        2 * num <= 2 * (nearest(num, den) * den) + den,
{
    let q = num / den;
    let r = num % den;
    assert(num == q * den + r && r < den) by (nonlinear_arith)
        requires
            den > 0,
            q == num / den,
            r == num % den,
    ;
    assert((q + 1) * den == q * den + den) by (nonlinear_arith);
}

proof fn lemma_shortage(num: nat, den: nat)
    requires
        num > 0,
    ensures
        num * pow2(shortage(num, den)) >= 0x10_0000_0000_0000 * den,
    decreases den * 0x20_0000_0000_0000 - num,
{
    lemma2_to64();
    if num / 0x10_0000_0000_0000 >= den {
        assert(num * pow2(0) == num);
    } else {
        lemma_shortage(2 * num, den);
        let s = shortage(2 * num, den);
        lemma_pow2_unfold(s + 1);
        assert(num * (2 * pow2(s)) == (2 * num) * pow2(s)) by (nonlinear_arith);
    }
}

proof fn lemma_small_double(n: nat)
    requires
        n < 0x20_0000_0000_0000,
    ensures
        double(n) == n,
{
    lemma2_to64();
    assert(excess(n, 1) == 0);
    assert(n / 1 == n && n % 1 == 0);
    assert(nearest(n, 1) * pow2(0) == n);
}

/// The quotient of doubles, before the last rounding: `m / p` is `n / unit` up to half a unit of `p`.
proof fn lemma_mantissa(n: nat, unit: nat)
    requires
        unit > 0,
        0 < n < 0x20_0000_0000_0000,
    ensures
        ({
            let p = pow2(shortage(n, unit));
            let m = mantissa(n, unit);
            &&& p > 0
            &&& n * p >= 0x10_0000_0000_0000 * unit
            &&& 2 * (m * unit) <= 2 * (n * p) + unit
            &&& 2 * (n * p) <= 2 * (m * unit) + unit
        }),
{
    lemma2_to64();
    let s = shortage(n, unit);
    let p = pow2(s);
    assert(excess(n, unit) == 0);
    lemma_pow2_pos(s);
    lemma_shortage(n, unit);
    lemma_nearest(n * p, unit);
    assert(unit * pow2(0) == unit);
    assert(nearest(n * p, unit) * pow2(0) == nearest(n * p, unit));
}

/// A quantity that is off by at most `slack` parts of `p` is off by nothing.
proof fn lemma_close(a: nat, b: nat, p: nat, slack: nat)
    requires
        a * p <= b * p + slack,
        slack < p,
    ensures
        a <= b,
{
    if a > b {
        assert(a * p >= b * p + p) by (nonlinear_arith)
            requires
                a >= b + 1,
        ;
    }
}

/// A count of a thousand or more is shown as the nearest tenth of thousands or millions; a smaller one is
/// shown as it is.
pub proof fn law_tokens_are_rounded(n: u64)
    requires
        n < 400_000_000_000_000,
    ensures
        n < 1_000 ==> tokens_text(n) == crate::text::decimal(n as nat),
        n >= 1_000 ==> {
            let unit: nat = if n >= 1_000_000 {
                1_000_000
            } else {
                1_000
            };
            let t = tenths(n as nat, unit);
            &&& tokens_text(n) == crate::text::decimal(t / 10) + "."@ + crate::text::decimal(t % 10)
                + (if n >= 1_000_000 {
                "M"@
            } else {
                "K"@
            })
            &&& 2 * (t * unit) <= 20 * n + unit
            &&& 20 * n <= 2 * (t * unit) + unit
        },
{
    if n >= 1_000 {
        let unit: nat = if n >= 1_000_000 {
            1_000_000
        } else {
            1_000
        };
        let k = n as nat;
        lemma_small_double(k);
        lemma_mantissa(k, unit);
        let p = pow2(shortage(k, unit));
        let m = mantissa(k, unit);
        lemma_nearest(10 * m, p);
        let t = nearest(10 * m, p);
        assert(t == tenths(k, unit));
        let x = 2 * (t * unit);
        assert((2 * (t * p)) * unit == x * p) by (nonlinear_arith)
            requires
                x == 2 * (t * unit),
        ;
        assert((2 * (t * p)) * unit <= (2 * (10 * m) + p) * unit) by (nonlinear_arith)
            requires
                2 * (t * p) <= 2 * (10 * m) + p,
        ;
        assert((2 * (10 * m)) * unit <= (2 * (t * p) + p) * unit) by (nonlinear_arith)
            requires
                2 * (10 * m) <= 2 * (t * p) + p,
        ;
        assert((2 * (10 * m) + p) * unit == 10 * (2 * (m * unit)) + unit * p) by (nonlinear_arith);
        assert((2 * (10 * m)) * unit == 10 * (2 * (m * unit))) by (nonlinear_arith);
        assert((2 * (t * p) + p) * unit == (2 * (t * p)) * unit + unit * p) by (nonlinear_arith);
        assert((20 * k + unit) * p == 20 * (k * p) + unit * p) by (nonlinear_arith);
        assert((x + unit) * p == x * p + unit * p) by (nonlinear_arith);
        assert((20 * k) * p == 20 * (k * p)) by (nonlinear_arith);
        assert(10 * unit < p) by (nonlinear_arith)
            requires
                k * p >= 0x10_0000_0000_0000 * unit,
                k < 400_000_000_000_000,
                unit > 0,
        ;
        lemma_close(x, 20 * k + unit, p, 10 * unit);
        lemma_close(20 * k, x + unit, p, 10 * unit);
    }
}

proof fn lemma_excess(num: nat, den: nat)
    requires
        den > 0,
    ensures
        excess(num, den) == 0 || den * pow2(excess(num, den)) <= num / 0x10_0000_0000_0000,
    decreases num - den,
{
    lemma2_to64();
    if num / 0x20_0000_0000_0000 >= den {
        lemma_excess(num, 2 * den);
        let k = excess(num, 2 * den);
        lemma_pow2_unfold(k + 1);
        assert(den * (2 * pow2(k)) == (2 * den) * pow2(k)) by (nonlinear_arith);
        if k == 0 {
            assert((2 * den) * pow2(0) == 2 * den);
        }
    }
}

/// A double is off by less than one part in two to the power of fifty-two.
proof fn lemma_double(n: nat)
    ensures
        double(n) <= n + n / 0x10_0000_0000_0000,
        n <= double(n) + n / 0x10_0000_0000_0000,
{
    lemma_excess(n, 1);
    let k = excess(n, 1);
    if n < 0x20_0000_0000_0000 {
        lemma_small_double(n);
    } else {
        assert(k > 0);
        lemma_pow2_pos(k);
        lemma_nearest(n, pow2(k));
        assert(1 * pow2(k) == pow2(k));
    }
}

/// How full the context is is shown as the nearest tenth of a percent, up to the last digit that a
/// double has.
pub proof fn law_percent_is_rounded(part: u64, whole: u64)
    requires
        0 < part < 0x80_0000_0000,
        0 < whole < 0x80_0000_0000,
    ensures
        ({
            let t = percent_tenths(part as nat, whole as nat);
            &&& context_text(Some(part), whole) == crate::text::decimal(t / 10) + "."@
                + crate::text::decimal(t % 10) + "%/"@ + tokens_text(whole)
            &&& 2 * (t * whole) <= 2000 * part + whole + 1
            &&& 2000 * part <= 2 * (t * whole) + whole + 1
        }),
{
    let a = part as nat;
    let w = whole as nat;
    lemma_small_double(a);
    lemma_small_double(w);
    lemma_mantissa(a, w);
    let p = pow2(shortage(a, w));
    let m = mantissa(a, w);
    let product = double(100 * m);
    lemma_double(100 * m);
    let t = nearest(10 * product, p);
    lemma_nearest(10 * product, p);
    assert(t == percent_tenths(a, w));
    let off = 100 * m / 0x10_0000_0000_0000;
    // The error of the product, as a part of the whole.
    let x = 2 * (t * w);
    assert((2 * (t * p)) * w == x * p) by (nonlinear_arith)
        requires
            x == 2 * (t * w),
    ;
    assert((2 * (t * p)) * w <= (20 * product + p) * w) by (nonlinear_arith)
        requires
            2 * (t * p) <= 2 * (10 * product) + p,
    ;
    assert((20 * product) * w <= (2 * (t * p) + p) * w) by (nonlinear_arith)
        requires
            2 * (10 * product) <= 2 * (t * p) + p,
    ;
    assert((20 * product) * w <= (2000 * m + 20 * off) * w) by (nonlinear_arith)
        requires
            product <= 100 * m + off,
    ;
    assert((2000 * m) * w <= (20 * product + 20 * off) * w) by (nonlinear_arith)
        requires
            100 * m <= product + off,
    ;
    assert((20 * product + p) * w == (20 * product) * w + w * p) by (nonlinear_arith);
    assert((2 * (t * p) + p) * w == (2 * (t * p)) * w + w * p) by (nonlinear_arith);
    assert((2000 * m + 20 * off) * w == 1000 * (2 * (m * w)) + 20 * (off * w)) by (nonlinear_arith);
    assert((20 * product + 20 * off) * w == (20 * product) * w + 20 * (off * w))
        by (nonlinear_arith);
    assert((2000 * m) * w == 1000 * (2 * (m * w))) by (nonlinear_arith);
    let slack = 1000 * w + 20 * (off * w);
    assert(x * p <= 2000 * (a * p) + w * p + slack);
    assert(2000 * (a * p) <= x * p + w * p + slack);
    // That is less than one part of `p`.
    assert(0x10_0000_0000_0000 * (off * w) <= 100 * (m * w)) by (nonlinear_arith)
        requires
            0x10_0000_0000_0000 * off <= 100 * m,
    ;
    assert(a * p <= 0x80_0000_0000 * p) by (nonlinear_arith)
        requires
            a < 0x80_0000_0000,
    ;
    assert(slack < p);
    assert((2000 * a + w + 1) * p == 2000 * (a * p) + w * p + p) by (nonlinear_arith);
    assert((x + w + 1) * p == x * p + w * p + p) by (nonlinear_arith);
    assert((2000 * a) * p == 2000 * (a * p)) by (nonlinear_arith);
    lemma_close(x, 2000 * a + w + 1, p, slack);
    lemma_close(2000 * a, x + w + 1, p, slack);
}

/// Every count that is not zero is shown behind its own mark, in a fixed order, and nothing else is.
pub proof fn law_counts_are_shown(t: TokenStats)
    ensures
        t.input > 0 ==> token_parts(t).contains("↑"@ + tokens_text(t.input)),
        t.output > 0 ==> token_parts(t).contains("↓"@ + tokens_text(t.output)),
        t.cache_read > 0 ==> token_parts(t).contains("R"@ + tokens_text(t.cache_read)),
        t.cache_write > 0 ==> token_parts(t).contains("W"@ + tokens_text(t.cache_write)),
        t.input > 0 ==> token_parts(t)[0] == "↑"@ + tokens_text(t.input),
        t.cache_write > 0 ==> token_parts(t).last() == "W"@ + tokens_text(t.cache_write),
        t.cache_write == 0 && t.cache_read > 0 ==> token_parts(t).last() == "R"@ + tokens_text(
            t.cache_read,
        ),
        token_parts(t).len() == (if t.input > 0 {
            1int
        } else {
            0
        }) + (if t.output > 0 {
            1int
        } else {
            0
        }) + (if t.cache_read > 0 {
            1int
        } else {
            0
        }) + (if t.cache_write > 0 {
            1int
        } else {
            0
        }),
{
    let a = with_part(seq![], "↑"@, t.input);
    let b = with_part(a, "↓"@, t.output);
    let c = with_part(b, "R"@, t.cache_read);
    let d = with_part(c, "W"@, t.cache_write);
    if t.input > 0 {
        assert(d[0] == "↑"@ + tokens_text(t.input));
    }
    if t.output > 0 {
        assert(d[a.len() as int] == "↓"@ + tokens_text(t.output));
    }
    if t.cache_read > 0 {
        assert(d[b.len() as int] == "R"@ + tokens_text(t.cache_read));
    }
    if t.cache_write > 0 {
        assert(d[c.len() as int] == "W"@ + tokens_text(t.cache_write));
    }
}

/// A footer shows the counts, then the cost, then how full the context is, each where it is known.
pub proof fn law_footer(stats: SessionStats, cost: Option<Seq<char>>)
    ensures
        ({
            let parts = stats_parts(stats, cost);
            let tokens = token_parts(stats.tokens);
            &&& parts.len() >= tokens.len()
            &&& parts.subrange(0, tokens.len() as int) == tokens
            &&& cost matches Some(c) ==> parts[tokens.len() as int] == "$"@ + c
            &&& stats.context_window > 0 ==> parts.last() == context_text(
                stats.context_tokens,
                stats.context_window,
            )
            &&& parts.len() == tokens.len() + (if cost is Some {
                1int
            } else {
                0
            }) + (if stats.context_window > 0 {
                1int
            } else {
                0
            })
        }),
{
    let tokens = token_parts(stats.tokens);
    assert(stats_parts(stats, cost).subrange(0, tokens.len() as int) =~= tokens);
}

} // verus!
