//! Which errors are retried, and after how long.

use vstd::arithmetic::power2::*;
use vstd::prelude::*;

use crate::error::{Error, ErrorView};
use crate::text::{u64_text, usize_text};

verus! {

/// The longest delay between two attempts.
pub const MAX_RETRY_DELAY_MS: u64 = 32_000;

/// A span of time.
#[derive(Debug, Clone, Copy, PartialEq, Eq, Structural)]
pub struct Delay {
    pub secs: u64,
    /// Nanoseconds beyond the seconds, less than a billion.
    pub nanos: u32,
}

impl Delay {
    /// The span in nanoseconds.
    pub open spec fn total_nanos(self) -> nat {
        self.secs as nat * 1_000_000_000 + self.nanos as nat
    }

    /// The nanoseconds make less than a second.
    pub open spec fn wf(self) -> bool {
        self.nanos < 1_000_000_000
    }

    pub fn from_secs(secs: u64) -> (r: Self)
        ensures
            r.wf(),
            r == (Delay { secs, nanos: 0 }),
    {
        Delay { secs, nanos: 0 }
    }

    pub fn from_millis(millis: u64) -> (r: Self)
        ensures
            r.wf(),
            r.secs == millis / 1000,
            r.nanos == (millis % 1000) * 1_000_000,
            r.total_nanos() == millis * 1_000_000,
    {
        Delay { secs: millis / 1000, nanos: (millis % 1000) as u32 * 1_000_000 }
    }

    /// The span in whole milliseconds.
    pub fn as_millis(&self) -> (r: u128)
        ensures
            r == self.secs * 1000 + self.nanos / 1_000_000,
    {
        self.secs as u128 * 1000 + (self.nanos / 1_000_000) as u128
    }

    pub fn is_zero(&self) -> (r: bool)
        ensures
            r == (self.total_nanos() == 0),
    {
        self.secs == 0 && self.nanos == 0
    }
}

/// The delay before the retry that follows attempt `attempt`, in milliseconds: doubled with each
/// attempt, up to a limit.
pub open spec fn raw_backoff(attempt: usize, base_ms: u64) -> u64 {
    if base_ms * pow2(attempt as nat) <= MAX_RETRY_DELAY_MS {
        (base_ms * pow2(attempt as nat)) as u64
    } else {
        MAX_RETRY_DELAY_MS
    }
}

/// A delay shortened by up to a quarter; `nanos` of a billion says by how much.
pub open spec fn jittered(raw: u64, nanos: u32) -> u64 {
    (raw - raw * nanos / 4_000_000_000) as u64
}

/// Whether an error is retried after the doubled delay.
pub open spec fn backs_off(e: ErrorView) -> bool {
    match e {
        ErrorView::RateLimited { retry_after, .. } => retry_after is None,
        ErrorView::Timeout(_) => true,
        ErrorView::Http { status, .. } => 500 <= status < 600,
        ErrorView::Internal(_) => true,
        _ => false,
    }
}

/// When to retry after an error, with `nanos` as the source of jitter.
pub open spec fn retry_delay(
    e: ErrorView,
    attempt: usize,
    max_retries: usize,
    base_ms: u64,
    nanos: u32,
) -> Option<Delay> {
    if attempt >= max_retries {
        None
    } else if e is RateLimited && e->retry_after is Some {
        Some(Delay { secs: e->retry_after->0, nanos: 0 })
    } else if backs_off(e) {
        let ms = jittered(raw_backoff(attempt, base_ms), nanos);
        Some(Delay { secs: ms / 1000, nanos: ((ms % 1000) * 1_000_000) as u32 })
    } else {
        None
    }
}

/// The nanoseconds of the current second.
///
/// Reads `std::time::SystemTime::now` and takes `Duration::subsec_nanos`, which is less than a
/// billion; zero for a clock set before the epoch.
#[verifier::external_body]
fn subsec_nanos() -> (r: u32)
    ensures
        r < 1_000_000_000,
{
    std::time::SystemTime::now().duration_since(std::time::UNIX_EPOCH).unwrap_or_default().subsec_nanos()
}

/// The doubled delay in milliseconds.
fn raw_delay(attempt: usize, base_ms: u64) -> (r: u64)
    requires
        attempt < 64,
    ensures
        r == raw_backoff(attempt, base_ms),
{
    let shift: u64 = attempt as u64;
    proof {
        lemma_pow2_pos(attempt as nat);
        lemma2_to64_rest();
        if attempt < 63 {
            lemma_pow2_strictly_increases(attempt as nat, 63);
        }
        vstd::bits::lemma_u64_shl_is_mul(1, shift);
    }
    let factor: u64 = 1u64 << shift;
    match base_ms.checked_mul(factor) {
        Some(ms) => if ms <= MAX_RETRY_DELAY_MS {
            ms
        } else {
            MAX_RETRY_DELAY_MS
        },
        None => MAX_RETRY_DELAY_MS,
    }
}

/// The doubled delay, shortened by the given jitter.
fn backoff(attempt: usize, base_ms: u64, nanos: u32) -> (r: Delay)
    requires
        attempt < 64,
        nanos < 1_000_000_000,
    ensures
        ({
            let ms = jittered(raw_backoff(attempt, base_ms), nanos);
            r == (Delay { secs: ms / 1000, nanos: ((ms % 1000) * 1_000_000) as u32 })
        }),
{
    let raw: u64 = raw_delay(attempt, base_ms);
    assert(raw * nanos <= 32_000 * 1_000_000_000) by (nonlinear_arith)
        requires
            raw <= 32_000,
            nanos < 1_000_000_000,
    ;
    assert(raw * nanos <= raw * 1_000_000_000) by (nonlinear_arith)
        requires
            nanos < 1_000_000_000,
    ;
    let cut: u64 = raw * nanos as u64 / 4_000_000_000;
    assert(cut <= raw);
    Delay::from_millis(raw - cut)
}

/// The doubled delay without jitter.
pub fn backoff_for_test(attempt: usize, base_ms: u64) -> (r: Delay)
    requires
        attempt < 64,
    ensures
        r.wf(),
        r.total_nanos() == raw_backoff(attempt, base_ms) * 1_000_000,
{
    Delay::from_millis(raw_delay(attempt, base_ms))
}

/// Classify an error and decide the retry delay, with `nanos` as the source of jitter.
pub fn classify_error_at(
    err: &Error,
    attempt: usize,
    max_retries: usize,
    retry_base_ms: u64,
    nanos: u32,
) -> (r: Option<Delay>)
    requires
        attempt < max_retries && backs_off(err@) ==> attempt < 64,
        nanos < 1_000_000_000,
    ensures
        r == retry_delay(err@, attempt, max_retries, retry_base_ms, nanos),
{
    if attempt >= max_retries {
        return None;
    }
    match err {
        Error::RateLimited { retry_after, .. } => match retry_after {
            Some(secs) => Some(Delay::from_secs(*secs)),
            None => Some(backoff(attempt, retry_base_ms, nanos)),
        },
        Error::Timeout(_) => Some(backoff(attempt, retry_base_ms, nanos)),
        Error::Http { status, .. } => {
            if *status >= 500 && *status < 600 {
                Some(backoff(attempt, retry_base_ms, nanos))
            } else {
                None
            }
        },
        Error::Internal(_) => Some(backoff(attempt, retry_base_ms, nanos)),
        _ => None,
    }
}

/// Classify an error and decide the retry delay.
///
/// `Some(delay)` if the error is retried at this attempt, `None` if it is to be returned
/// immediately. The clock decides the jitter.
pub fn classify_error(
    err: &Error,
    attempt: usize,
    max_retries: usize,
    retry_base_ms: u64,
) -> (r: Option<Delay>)
    requires
        attempt < max_retries && backs_off(err@) ==> attempt < 64,
    ensures
        exists|nanos: u32|
            nanos < 1_000_000_000 && r == #[trigger] retry_delay(
                err@,
                attempt,
                max_retries,
                retry_base_ms,
                nanos,
            ),
{
    let nanos: u32 = subsec_nanos();
    classify_error_at(err, attempt, max_retries, retry_base_ms, nanos)
}

/// Jitter takes at most a quarter off the delay and never adds to it.
pub proof fn law_jitter_bounds(raw: u64, nanos: u32)
    requires
        nanos < 1_000_000_000,
    ensures
        jittered(raw, nanos) <= raw,
        4 * jittered(raw, nanos) >= 3 * raw,
{
    assert(0 <= raw * nanos <= raw * 1_000_000_000) by (nonlinear_arith)
        requires
            nanos < 1_000_000_000,
    ;
}

/// No delay that is backed off exceeds the limit, and later attempts never wait less.
pub proof fn law_backoff_grows_to_limit(attempt: usize, base_ms: u64)
    requires
        attempt < usize::MAX,
    ensures
        raw_backoff(attempt, base_ms) <= MAX_RETRY_DELAY_MS,
        raw_backoff(attempt, base_ms) <= raw_backoff((attempt + 1) as usize, base_ms),
{
    lemma_pow2_strictly_increases(attempt as nat, (attempt + 1) as nat);
    assert(base_ms * pow2(attempt as nat) <= base_ms * pow2((attempt + 1) as nat))
        by (nonlinear_arith)
        requires
            pow2(attempt as nat) < pow2((attempt + 1) as nat),
    ;
}

// ---------------------------------------------------------------------------
// Countdown
// ---------------------------------------------------------------------------

/// What a countdown does next.
#[derive(Debug, PartialEq)]
pub enum CountdownAction {
    /// The wait was cancelled.
    Cancelled,
    /// The delay is over.
    Finished,
    /// Show the status, if there is one, and sleep.
    Wait {
        status: Option<String>,
        /// The seconds that are shown now.
        shown: u64,
        sleep: Delay,
    },
}

/// The status that announces a retry without delay.
pub open spec fn immediate_status(
    attempt: usize,
    max_attempts: usize,
    err_msg: Seq<char>,
) -> Seq<char> {
    "Retrying (attempt "@ + crate::text::decimal(attempt as nat) + "/"@ + crate::text::decimal(
        max_attempts as nat,
    ) + ") immediately: "@ + err_msg
}

/// The status that counts the seconds down.
pub open spec fn countdown_status(
    attempt: usize,
    max_attempts: usize,
    secs: int,
    kind: Seq<char>,
    err_msg: Seq<char>,
) -> Seq<char> {
    "Retrying (attempt "@ + crate::text::decimal(attempt as nat) + "/"@ + crate::text::decimal(
        max_attempts as nat,
    ) + ") in "@ + crate::text::decimal(secs as nat) + "s... ("@ + kind + ": "@ + err_msg + ")"@
}

/// The seconds that are left, rounded up.
pub open spec fn secs_left(remaining: Delay) -> int {
    if remaining.nanos > 0 {
        remaining.secs + 1
    } else {
        remaining.secs as int
    }
}

/// The status that announces a retry without delay.
pub fn immediate_message(attempt: usize, max_attempts: usize, err_msg: &str) -> (r: String)
    ensures
        r@ == immediate_status(attempt, max_attempts, err_msg@),
{
    let mut out: String = "Retrying (attempt ".to_owned();
    out.append(usize_text(attempt).as_str());
    out.append("/");
    out.append(usize_text(max_attempts).as_str());
    out.append(") immediately: ");
    out.append(err_msg);
    out
}

/// The status that counts the seconds down.
fn countdown_message(
    attempt: usize,
    max_attempts: usize,
    secs: u64,
    kind: &str,
    err_msg: &str,
) -> (r: String)
    ensures
        r@ == countdown_status(attempt, max_attempts, secs as int, kind@, err_msg@),
{
    let mut out: String = "Retrying (attempt ".to_owned();
    out.append(usize_text(attempt).as_str());
    out.append("/");
    out.append(usize_text(max_attempts).as_str());
    out.append(") in ");
    out.append(u64_text(secs).as_str());
    out.append("s... (");
    out.append(kind);
    out.append(": ");
    out.append(err_msg);
    out.append(")");
    out
}

/// One turn of a countdown: stop when cancelled or when nothing remains; else show the seconds
/// that are left where they changed, and sleep for a second at most.
pub fn countdown_step(
    remaining: Delay,
    cancelled: bool,
    last_shown: Option<u64>,
    attempt: usize,
    max_attempts: usize,
    kind: &str,
    err_msg: &str,
) -> (r: CountdownAction)
    requires
        remaining.wf(),
        secs_left(remaining) <= u64::MAX,
    ensures
        r is Cancelled <==> cancelled,
        r is Finished <==> !cancelled && remaining.total_nanos() == 0,
        r matches CountdownAction::Wait { status, shown, sleep } ==> {
            &&& shown == secs_left(remaining)
            &&& status is Some <==> last_shown != Some(shown)
            &&& status matches Some(s) ==> s@ == countdown_status(
                attempt,
                max_attempts,
                shown as int,
                kind@,
                err_msg@,
            )
            &&& sleep == (if remaining.secs >= 1 {
                Delay { secs: 1, nanos: 0 }
            } else {
                remaining
            })
        },
{
    if cancelled {
        return CountdownAction::Cancelled;
    }
    if remaining.is_zero() {
        return CountdownAction::Finished;
    }
    let shown: u64 = if remaining.nanos > 0 {
        remaining.secs + 1
    } else {
        remaining.secs
    };
    let repeated: bool = match last_shown {
        Some(s) => s == shown,
        None => false,
    };
    let status: Option<String> = if repeated {
        None
    } else {
        Some(countdown_message(attempt, max_attempts, shown, kind, err_msg))
    };
    let sleep: Delay = if remaining.secs >= 1 {
        Delay::from_secs(1)
    } else {
        remaining
    };
    CountdownAction::Wait { status, shown, sleep }
}

/// The delay starts at the base and doubles with each attempt, until it reaches the limit.
pub proof fn law_backoff_doubles(attempt: usize, base_ms: u64)
    requires
        attempt < usize::MAX,
    ensures
        raw_backoff(0, base_ms) == if base_ms <= 32_000 {
            base_ms
        } else {
            32_000
        },
        raw_backoff((attempt + 1) as usize, base_ms) == if 2 * raw_backoff(attempt, base_ms)
            <= 32_000 {
            2 * raw_backoff(attempt, base_ms)
        } else {
            32_000
        },
{
    lemma2_to64();
    lemma_pow2_unfold((attempt + 1) as nat);
    let p = pow2(attempt as nat);
    assert(base_ms * (2 * p) == 2 * (base_ms * p)) by (nonlinear_arith);
}

/// Errors that may pass are retried as long as attempts are left: being turned away for too many
/// requests, timeouts, failures of the server and internal ones. All others are not.
pub proof fn law_passing_errors_are_retried(
    e: ErrorView,
    attempt: usize,
    max_retries: usize,
    base_ms: u64,
    nanos: u32,
)
    ensures
        ({
            let r = retry_delay(e, attempt, max_retries, base_ms, nanos);
            &&& attempt >= max_retries ==> r is None
            &&& attempt < max_retries ==> (r is Some <==> e is RateLimited || e is Timeout
                || e is Internal || (e matches ErrorView::Http { status, .. } && 500 <= status
                <= 599))
        }),
{
}

/// A retry waits exactly as long as the server asked for; where it did not ask, at most for the doubled
/// delay and at least for three quarters of it, in whole milliseconds.
pub proof fn law_retry_waits_long_enough(
    e: ErrorView,
    attempt: usize,
    max_retries: usize,
    base_ms: u64,
    nanos: u32,
)
    requires
        nanos < 1_000_000_000,
    ensures
        retry_delay(e, attempt, max_retries, base_ms, nanos) matches Some(d) ==> d.wf() && (if e
            is RateLimited && e->retry_after is Some {
            d.total_nanos() == e->retry_after->0 * 1_000_000_000
        } else {
            &&& d.total_nanos() <= raw_backoff(attempt, base_ms) * 1_000_000
            &&& 4 * d.total_nanos() >= 3 * raw_backoff(attempt, base_ms) * 1_000_000
        }),
{
    law_jitter_bounds(raw_backoff(attempt, base_ms), nanos);
}

/// Of the statuses that a server answers, being turned away for too many requests, a timeout and its own
/// failures are retried; a key that it does not accept, a request that is too long and any other
/// refusal are not.
pub proof fn law_statuses_that_are_retried(
    status: u16,
    body: Seq<char>,
    retry_after: Option<u64>,
    provider: Seq<char>,
    attempt: usize,
    max_retries: usize,
    base_ms: u64,
    nanos: u32,
)
    requires
        attempt < max_retries,
    ensures
        ({
            let e = crate::error::http_error(status, body, retry_after, provider);
            let r = retry_delay(e, attempt, max_retries, base_ms, nanos);
            &&& r is Some <==> status == 408 || status == 429 || 500 <= status <= 599
            &&& status == 429 ==> (retry_after matches Some(secs) ==> r == Some(
                Delay { secs, nanos: 0 },
            ))
            &&& e is Auth <==> status == 401 || status == 403
            &&& e is ContextOverflow <==> status == 413 || status == 422
            &&& e matches ErrorView::Http { status: s, message } ==> s == status && message == body
        }),
{
}

} // verus!
