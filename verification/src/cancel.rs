//! Cooperative cancellation.

use std::sync::atomic::{AtomicBool, Ordering};
use std::sync::Arc;

use vstd::prelude::*;

verus! {

/// A shared flag that asks running work to stop.
///
/// Every clone shares the flag, and anybody who holds one may set it at any time. So each function
/// states what it does to the flag: how it is made, what is put into it, what is read from it.
#[derive(Debug)]
pub struct CancelToken {
    flag: Arc<AtomicBool>,
}

/// The flag comes from `AtomicBool::new` with a value.
pub open spec fn flag_made(flag: AtomicBool, value: bool) -> bool {
    call_ensures(AtomicBool::new, (value,), flag)
}

/// A value is put into the flag: `AtomicBool::store`.
pub open spec fn flag_put(flag: AtomicBool, value: bool) -> bool {
    call_ensures(AtomicBool::store, (&flag, value, Ordering::Relaxed), ())
}

/// A value is read from the flag: `AtomicBool::load`.
pub open spec fn flag_seen(flag: AtomicBool, value: bool) -> bool {
    call_ensures(AtomicBool::load, (&flag, Ordering::Relaxed), value)
}

/// `Arc::clone`: another handle on the same value.
#[verifier::external_body]
pub(crate) fn share<T>(value: &Arc<T>) -> (r: Arc<T>)
    ensures
        r == *value,
{
    Arc::clone(value)
}

impl CancelToken {
    /// The flag that the token and its clones share.
    pub closed spec fn shared(self) -> Arc<AtomicBool> {
        self.flag
    }

    /// Create a new, un-cancelled token.
    pub fn new() -> (r: Self)
        ensures
            flag_made(*r.shared(), false),
    {
        CancelToken { flag: Arc::new(AtomicBool::new(false)) }
    }

    /// Wrap an existing shared flag.
    pub fn from_flag(flag: Arc<AtomicBool>) -> (r: Self)
        ensures
            r.shared() == flag,
    {
        CancelToken { flag }
    }

    /// The underlying shared flag (same `Arc`).
    pub fn flag(&self) -> (r: Arc<AtomicBool>)
        ensures
            r == self.shared(),
    {
        share(&self.flag)
    }

    /// True if the token has been cancelled.
    pub fn is_cancelled(&self) -> (r: bool)
        ensures
            flag_seen(*self.shared(), r),
    {
        self.flag.load(Ordering::Relaxed)
    }

    /// Set the cancel flag. Idempotent.
    pub fn cancel(&self)
        ensures
            flag_put(*self.shared(), true),
    {
        self.flag.store(true, Ordering::Relaxed);
    }
}

impl Clone for CancelToken {
    fn clone(&self) -> (r: Self)
        ensures
            r.shared() == self.shared(),
    {
        CancelToken { flag: share(&self.flag) }
    }
}

/// What happens to a flag.
pub enum FlagEvent {
    /// It is made with a value.
    Made(bool),
    /// A value is put into it.
    Put(bool),
    /// A value is read from it.
    Seen(bool),
}

/// Whether something happens to a flag.
pub open spec fn flag_event(flag: AtomicBool, event: FlagEvent) -> bool {
    match event {
        FlagEvent::Made(value) => flag_made(flag, value),
        FlagEvent::Put(value) => flag_put(flag, value),
        FlagEvent::Seen(value) => flag_seen(flag, value),
    }
}

/// What a flag holds after the events of a history: what it was made with, or what was put last.
pub open spec fn flag_value(history: Seq<FlagEvent>) -> Option<bool>
    decreases history.len(),
{
    if history.len() == 0 {
        None
    } else {
        match history.last() {
            FlagEvent::Made(value) => Some(value),
            FlagEvent::Put(value) => Some(value),
            FlagEvent::Seen(_) => flag_value(history.drop_last()),
        }
    }
}

/// Whether a history is one of a flag: all of it happens to the flag, in this order, so each look
/// reads what the flag holds at that point.
pub open spec fn flag_history(flag: AtomicBool, history: Seq<FlagEvent>) -> bool {
    &&& forall|i: int| 0 <= i < history.len() ==> flag_event(flag, #[trigger] history[i])
    &&& forall|i: int|
        0 <= i < history.len() ==> (#[trigger] history[i] matches FlagEvent::Seen(value)
            ==> flag_value(history.take(i)) == Some(value))
}

/// Whether a history starts with [`CancelToken::new`], and all that is put into the flag later is
/// `true`, as [`CancelToken::cancel`] does.
pub open spec fn only_cancels(history: Seq<FlagEvent>) -> bool {
    &&& history.len() > 0
    &&& history[0] == FlagEvent::Made(false)
    &&& forall|i: int|
        0 < i < history.len() ==> (#[trigger] history[i] is Seen || history[i] == FlagEvent::Put(
            true,
        ))
}

/// A token is cancelled exactly from the first call of `cancel` on, on itself or on a clone: before
/// it no look finds it cancelled, and after it every look does, however often it is cancelled
/// again.
pub proof fn law_cancelled_from_the_first_cancel_on(flag: AtomicBool, history: Seq<FlagEvent>)
    requires
        flag_history(flag, history),
        only_cancels(history),
    ensures
        forall|i: int|
            0 <= i < history.len() ==> (#[trigger] history[i] matches FlagEvent::Seen(value)
                ==> value == history.take(i).contains(FlagEvent::Put(true))),
{
    assert forall|i: int| 0 <= i < history.len() implies (
    #[trigger] history[i] matches FlagEvent::Seen(value) ==> value == history.take(i).contains(
        FlagEvent::Put(true),
    )) by {
        if history[i] is Seen {
            lemma_only_cancels(history, i);
        }
    }
}

proof fn lemma_only_cancels(history: Seq<FlagEvent>, i: int)
    requires
        only_cancels(history),
        0 < i <= history.len(),
    ensures
        flag_value(history.take(i)) == Some(history.take(i).contains(FlagEvent::Put(true))),
    decreases i,
{
    let seen = history.take(i);
    let event = FlagEvent::Put(true);
    if i == 1 {
        assert(seen.last() == FlagEvent::Made(false));
        assert(!seen.contains(event));
    } else {
        lemma_only_cancels(history, i - 1);
        let before = history.take(i - 1);
        assert(seen.drop_last() =~= before);
        assert(seen.last() == history[i - 1]);
        if history[i - 1] == event {
            assert(seen[i - 1] == event);
        } else {
            if seen.contains(event) {
                let j = seen.index_of(event);
                assert(before[j] == event);
            }
            if before.contains(event) {
                let j = before.index_of(event);
                assert(seen[j] == event);
            }
        }
    }
}

} // verus!
