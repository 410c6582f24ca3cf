//! Connecting to the server, which is started where none is running, and the files that it keeps.

use vstd::prelude::*;

use crate::path::{extension, join};
use crate::paths::Paths;
use crate::retry::Delay;
use crate::text::str_eq;

verus! {

/// How often a connection is tried after the server was started.
pub const CONNECT_ATTEMPTS: u32 = 50;

/// How long to wait before each of them, in milliseconds.
pub const CONNECT_WAIT_MS: u64 = 100;

/// What comes after an attempt to connect.
#[derive(Debug, PartialEq, Eq)]
pub enum ConnectAction {
    /// The connection stands.
    Ready,
    /// Start the server, then wait this many milliseconds and try again.
    StartServer { wait_ms: u64 },
    /// Wait this many milliseconds and try again.
    Retry { wait_ms: u64 },
    /// Give up, for this reason.
    Fail(String),
}

/// What comes after the attempt to connect that follows `attempts` earlier ones. The first that
/// fails has the server started; after as many more as are allowed, it is given up.
pub fn connect_action(connected: bool, attempts: u32) -> (r: ConnectAction)
    ensures
        match r {
            ConnectAction::Ready => connected,
            ConnectAction::StartServer { wait_ms } => !connected && attempts == 0 && wait_ms
                == CONNECT_WAIT_MS,
            ConnectAction::Retry { wait_ms } => !connected && 0 < attempts < CONNECT_ATTEMPTS
                && wait_ms == CONNECT_WAIT_MS,
            ConnectAction::Fail(e) => !connected && attempts >= CONNECT_ATTEMPTS && e@
                == "server did not start within 5s"@,
        },
{
    if connected {
        ConnectAction::Ready
    } else if attempts == 0 {
        ConnectAction::StartServer { wait_ms: CONNECT_WAIT_MS }
    } else if attempts < CONNECT_ATTEMPTS {
        ConnectAction::Retry { wait_ms: CONNECT_WAIT_MS }
    } else {
        ConnectAction::Fail("server did not start within 5s".to_owned())
    }
}

/// The session database.
pub fn db_path(paths: &Paths) -> (r: String)
    ensures
        r@ == crate::path::joined(paths@.data_dir, "tars.db"@),
{
    join(paths.data_dir(), "tars.db")
}

/// Whether a span of time is longer than some days.
pub open spec fn longer_than_days(age: Delay, days: int) -> bool {
    age.total_nanos() > days * 86_400 * 1_000_000_000
}

/// Whether a file is an old log: its extension is `log`, and it was last changed more than
/// `max_days` ago. `age` is the time since then, where it is known and not negative.
pub fn is_old_log(path: &str, age: Option<Delay>, max_days: u64) -> (r: bool)
    requires
        max_days * 86_400 <= u64::MAX,
        age matches Some(a) ==> a.wf(),
    ensures
        r == (crate::path::extension_of(path@) == Some("log"@) && age is Some && longer_than_days(
            age->0,
            max_days as int,
        )),
{
    let log: bool = match extension(path) {
        Some(e) => str_eq(e.as_str(), "log"),
        None => false,
    };
    if !log {
        return false;
    }
    match age {
        Some(a) => {
            let limit: u64 = max_days * 86_400;
            a.secs > limit || (a.secs == limit && a.nanos > 0)
        },
        None => false,
    }
}

} // verus!
