//! Graceful shutdown coordination.
//!
//! Tracks in-flight agent turns and the PID file of the server.

use std::sync::atomic::{AtomicBool, AtomicUsize, Ordering};
use std::sync::Arc;

use vstd::prelude::*;

use crate::cancel::share;
use crate::text::{str_parse_u64, str_trim, u64_text};

verus! {

/// Shared shutdown state across all tasks.
///
/// Every clone shares the flag and the counter, and anybody who holds one may change them at any
/// time. So each function states what it does to them: how they are made, what is put into the flag
/// or counted, what is read.
#[derive(Debug)]
pub struct ShutdownHandle {
    /// Set to true when shutdown is requested.
    flag: Arc<AtomicBool>,
    /// Number of in-flight agent loops.
    in_flight: Arc<AtomicUsize>,
}

/// Guard of an in-flight turn, which ends when the guard is dropped.
pub struct ShutdownGuard {
    handle: ShutdownHandle,
}

/// The counter comes from `AtomicUsize::new` with a number.
pub open spec fn count_made(count: AtomicUsize, n: usize) -> bool {
    call_ensures(AtomicUsize::new, (n,), count)
}

/// The counter is raised by one from a number: `AtomicUsize::fetch_add`.
pub open spec fn counted_up(count: AtomicUsize, n: usize) -> bool {
    call_ensures(AtomicUsize::fetch_add, (&count, 1usize, Ordering::Relaxed), n)
}

/// The counter is lowered by one from a number: `AtomicUsize::fetch_sub`.
pub open spec fn counted_down(count: AtomicUsize, n: usize) -> bool {
    call_ensures(AtomicUsize::fetch_sub, (&count, 1usize, Ordering::Relaxed), n)
}

/// A number is read from the counter: `AtomicUsize::load`.
pub open spec fn count_seen(count: AtomicUsize, n: usize) -> bool {
    call_ensures(AtomicUsize::load, (&count, Ordering::Relaxed), n)
}

impl ShutdownHandle {
    /// The flag and the counter that the handle and its clones share.
    pub closed spec fn shared(self) -> (Arc<AtomicBool>, Arc<AtomicUsize>) {
        (self.flag, self.in_flight)
    }

    /// No turn is in flight, and no shutdown is requested.
    pub fn new() -> (r: Self)
        ensures
            crate::cancel::flag_made(*r.shared().0, false),
            count_made(*r.shared().1, 0),
    {
        ShutdownHandle {
            flag: Arc::new(AtomicBool::new(false)),
            in_flight: Arc::new(AtomicUsize::new(0)),
        }
    }

    /// Check if shutdown has been requested.
    pub fn is_shutting_down(&self) -> (r: bool)
        ensures
            crate::cancel::flag_seen(*self.shared().0, r),
    {
        self.flag.load(Ordering::Relaxed)
    }

    /// Request shutdown.
    pub fn request_shutdown(&self)
        ensures
            crate::cancel::flag_put(*self.shared().0, true),
    {
        self.flag.store(true, Ordering::Relaxed);
    }

    /// Increment in-flight counter. Returns a guard that decrements on drop.
    pub fn enter(&self) -> (r: ShutdownGuard)
        ensures
            r.shared() == self.shared(),
            exists|n: usize| counted_up(*self.shared().1, n),
    {
        let before: usize = self.in_flight.fetch_add(1, Ordering::Relaxed);
        assert(counted_up(*self.shared().1, before));
        ShutdownGuard { handle: self.clone() }
    }

    /// Number of active in-flight turns.
    pub fn active_count(&self) -> (r: usize)
        ensures
            count_seen(*self.shared().1, r),
    {
        self.in_flight.load(Ordering::Relaxed)
    }
}

/// `AtomicUsize::fetch_sub` of one. It neither panics nor blocks, and what it returns is a result of
/// that call.
#[verifier::external_body]
fn leave(in_flight: &AtomicUsize) -> (n: usize)
    ensures
        counted_down(*in_flight, n),
    opens_invariants none
    no_unwind
{
    in_flight.fetch_sub(1, Ordering::Relaxed)
}

impl Clone for ShutdownHandle {
    fn clone(&self) -> (r: Self)
        ensures
            r.shared() == self.shared(),
    {
        ShutdownHandle { flag: share(&self.flag), in_flight: share(&self.in_flight) }
    }
}

impl Default for ShutdownHandle {
    fn default() -> (r: Self)
        ensures
            crate::cancel::flag_made(*r.shared().0, false),
            count_made(*r.shared().1, 0),
    {
        ShutdownHandle::new()
    }
}

impl ShutdownGuard {
    /// The flag and the counter that the guard shares with its handle.
    pub closed spec fn shared(self) -> (Arc<AtomicBool>, Arc<AtomicUsize>) {
        self.handle.shared()
    }
}

impl Drop for ShutdownGuard {
    fn drop(&mut self)
        ensures
            exists|n: usize| counted_down(*old(self).shared().1, n),
        opens_invariants none
        no_unwind
    {
        let before: usize = leave(&self.handle.in_flight);
        assert(counted_down(*self.shared().1, before));
    }
}

/// What happens to a handle or to one of its clones.
pub enum HandleEvent {
    /// It is made by [`ShutdownHandle::new`].
    Made,
    /// Shutdown is requested.
    Requested,
    /// A look finds whether shutdown was requested.
    Asked(bool),
    /// A turn begins while this many are counted.
    Entered(usize),
    /// A guard is dropped while this many turns are counted.
    Left(usize),
    /// A look finds this many turns.
    Counted(usize),
}

/// Whether something happens to the flag and the counter that handles share.
pub open spec fn handle_event(
    shared: (Arc<AtomicBool>, Arc<AtomicUsize>),
    event: HandleEvent,
) -> bool {
    match event {
        HandleEvent::Made => crate::cancel::flag_made(*shared.0, false) && count_made(
            *shared.1,
            0,
        ),
        HandleEvent::Requested => crate::cancel::flag_put(*shared.0, true),
        HandleEvent::Asked(value) => crate::cancel::flag_seen(*shared.0, value),
        HandleEvent::Entered(n) => counted_up(*shared.1, n),
        HandleEvent::Left(n) => counted_down(*shared.1, n),
        HandleEvent::Counted(n) => count_seen(*shared.1, n),
    }
}

/// What the flag holds after the events of a history.
pub open spec fn flag_after(history: Seq<HandleEvent>) -> bool
    decreases history.len(),
{
    if history.len() == 0 {
        false
    } else {
        match history.last() {
            HandleEvent::Made => false,
            HandleEvent::Requested => true,
            _ => flag_after(history.drop_last()),
        }
    }
}

/// What the counter holds after the events of a history. It wraps around at its ends.
pub open spec fn count_after(history: Seq<HandleEvent>) -> usize
    decreases history.len(),
{
    if history.len() == 0 {
        0
    } else {
        let before = count_after(history.drop_last());
        match history.last() {
            HandleEvent::Made => 0,
            HandleEvent::Entered(_) => if before == usize::MAX {
                0
            } else {
                (before + 1) as usize
            },
            HandleEvent::Left(_) => if before == 0 {
                usize::MAX
            } else {
                (before - 1) as usize
            },
            _ => before,
        }
    }
}

/// How many guards were handed out and are not dropped yet.
pub open spec fn guards_out(history: Seq<HandleEvent>) -> int
    decreases history.len(),
{
    if history.len() == 0 {
        0
    } else {
        let before = guards_out(history.drop_last());
        match history.last() {
            HandleEvent::Entered(_) => before + 1,
            HandleEvent::Left(_) => before - 1,
            _ => before,
        }
    }
}

/// Whether a history is one of a handle and its clones: it starts with the making, all of it happens
/// in this order, and each call reads what the flag or the counter holds at that point.
pub open spec fn handle_history(
    shared: (Arc<AtomicBool>, Arc<AtomicUsize>),
    history: Seq<HandleEvent>,
) -> bool {
    &&& history.len() > 0
    &&& history[0] is Made
    &&& forall|i: int| 0 < i < history.len() ==> !(#[trigger] history[i] is Made)
    &&& forall|i: int| 0 <= i < history.len() ==> handle_event(shared, #[trigger] history[i])
    &&& forall|i: int|
        0 <= i < history.len() ==> match #[trigger] history[i] {
            HandleEvent::Asked(value) => value == flag_after(history.take(i)),
            HandleEvent::Entered(n) => n == count_after(history.take(i)),
            HandleEvent::Left(n) => n == count_after(history.take(i)),
            HandleEvent::Counted(n) => n == count_after(history.take(i)),
            _ => true,
        }
}

/// Shutdown counts as requested exactly from the first request on, whatever is called later. The
/// number of active turns is that of the guards which were handed out and are not dropped yet, and
/// a request leaves it as it is. No guard is dropped twice, so at no point are fewer than none out;
/// and no more are out than a `usize` counts.
pub proof fn law_shutdown_state(
    shared: (Arc<AtomicBool>, Arc<AtomicUsize>),
    history: Seq<HandleEvent>,
)
    requires
        handle_history(shared, history),
        forall|i: int|
            0 <= i <= history.len() ==> 0 <= #[trigger] guards_out(history.take(i)) <= usize::MAX,
    ensures
        forall|i: int|
            0 <= i < history.len() ==> match #[trigger] history[i] {
                HandleEvent::Asked(value) => value == history.take(i).contains(
                    HandleEvent::Requested,
                ),
                HandleEvent::Counted(n) => n == guards_out(history.take(i)),
                HandleEvent::Requested => guards_out(history.take(i + 1)) == guards_out(
                    history.take(i),
                ),
                _ => true,
            },
{
    assert forall|i: int| 0 <= i < history.len() implies match #[trigger] history[i] {
        HandleEvent::Asked(value) => value == history.take(i).contains(HandleEvent::Requested),
        HandleEvent::Counted(n) => n == guards_out(history.take(i)),
        HandleEvent::Requested => guards_out(history.take(i + 1)) == guards_out(history.take(i)),
        _ => true,
    } by {
        lemma_shutdown_state(shared, history, i);
        assert(history.take(i + 1).drop_last() =~= history.take(i));
    }
}

proof fn lemma_shutdown_state(
    shared: (Arc<AtomicBool>, Arc<AtomicUsize>),
    history: Seq<HandleEvent>,
    i: int,
)
    requires
        handle_history(shared, history),
        forall|j: int|
            0 <= j <= history.len() ==> 0 <= #[trigger] guards_out(history.take(j)) <= usize::MAX,
        0 <= i <= history.len(),
    ensures
        flag_after(history.take(i)) == history.take(i).contains(HandleEvent::Requested),
        count_after(history.take(i)) == guards_out(history.take(i)),
    decreases i,
{
    if i > 0 {
        lemma_shutdown_state(shared, history, i - 1);
        let event = HandleEvent::Requested;
        let before = history.take(i - 1);
        let now = history.take(i);
        assert(now.drop_last() =~= before);
        assert(now.last() == history[i - 1]);
        assert(now =~= before.push(history[i - 1]));
        if i == 1 {
            assert(before =~= seq![]);
        }
        if history[i - 1] == event {
            assert(now[i - 1] == event);
        } else {
            if now.contains(event) {
                let j = now.index_of(event);
                assert(before[j] == event);
            }
            if before.contains(event) {
                let j = before.index_of(event);
                assert(now[j] == event);
            }
        }
    }
}

/// How often a waiting task looks again, in milliseconds.
pub const POLL_MS: u64 = 50;

/// Whether a task that drains in-flight turns goes on waiting.
pub fn keeps_draining(active: usize, past_deadline: bool) -> (r: bool)
    ensures
        r == (active > 0 && !past_deadline),
{
    active > 0 && !past_deadline
}

// ---------------------------------------------------------------------------
// PID file
// ---------------------------------------------------------------------------

/// The process that a PID file names.
pub open spec fn pid_in(contents: Seq<char>) -> Option<u32> {
    match crate::text::parse_u64(crate::text::trim(contents)) {
        Some(n) => if n <= u32::MAX {
            Some(n as u32)
        } else {
            None
        },
        None => None,
    }
}

/// The process that a PID file names.
pub fn recorded_pid(contents: &str) -> (r: Option<u32>)
    ensures
        r == pid_in(contents@),
{
    match str_parse_u64(str_trim(contents).as_str()) {
        Some(n) => {
            if n <= u32::MAX as u64 {
                Some(n as u32)
            } else {
                None
            }
        },
        None => None,
    }
}

/// What is said where a server is running already.
pub open spec fn running_message(pid: u32) -> Seq<char> {
    "server already running (pid "@ + crate::text::decimal(pid as nat) + ")"@
}

/// PID file management.
#[derive(Debug, PartialEq, Eq)]
pub struct PidFile {
    path: String,
}

impl View for PidFile {
    type V = Seq<char>;

    closed spec fn view(&self) -> Seq<char> {
        self.path@
    }
}

impl PidFile {
    /// Claim a PID file. `contents` is what the file holds, where there is one that can be read, and
    /// `running` tells whether the process that it names is running: if so, the file is not ours.
    pub fn create(path: String, contents: Option<&str>, running: bool) -> (r: core::result::Result<
        Self,
        String,
    >)
        ensures
            match r {
                Ok(f) => f@ == path@ && !(running && contents is Some && pid_in(
                    contents->0@,
                ) is Some),
                Err(e) => running && contents is Some && pid_in(contents->0@) is Some && e@
                    == running_message(pid_in(contents->0@)->0),
            },
    {
        if running {
            if let Some(text) = contents {
                if let Some(pid) = recorded_pid(text) {
                    let mut message: String = "server already running (pid ".to_owned();
                    message.append(u64_text(pid as u64).as_str());
                    message.append(")");
                    return Err(message);
                }
            }
        }
        Ok(PidFile { path })
    }

    /// Where the file is.
    pub fn path(&self) -> (r: &str)
        ensures
            r@ == self@,
    {
        self.path.as_str()
    }
}

/// What a PID file holds.
pub fn pid_contents(pid: u32) -> (r: String)
    ensures
        r@ == crate::text::decimal(pid as nat),
{
    u64_text(pid as u64)
}

/// The process that a PID file was written for is the one that is read from it.
pub proof fn law_pid_round_trip(pid: u32)
    ensures
        pid_in(crate::text::decimal(pid as nat)) == Some(pid),
{
    crate::text::law_decimal_round_trip(pid as u64);
}

} // verus!
