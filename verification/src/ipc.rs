//! How `wabi start` hands a pomodoro to a running app: one request and one
//! reply over a local socket beside `settings.toml`, each a single line of
//! JSON.

use vstd::prelude::*;

use crate::error::AppError;
use crate::path::{ends_with, join_path, joined, plain_component, verbatim};
use crate::text::{push_str, trim, trim_str};

verus! {

/// How long either side waits on the other, in seconds.
pub const IO_TIMEOUT_SECS: u64 = 5;

/// How many connections may fail in a row before the server stops
/// listening: one failed accept is a caller that changed its mind, but a
/// socket that fails every time would otherwise spin its thread forever.
pub const MAX_CONSECUTIVE_FAILURES: usize = 16;

pub const SOCKET_FILE: &'static str = "cli.sock";

/// What the command line asks the app to do.
#[derive(Debug, Clone, PartialEq, Eq)]
pub enum Request {
    /// Start a segment now, exactly as pressing start in the app would.
    Start {
        /// Written into the session record.
        label: Option<String>,
        /// This one segment's length; `None` means the app's own.
        planned_sec: Option<u64>,
        /// The vault the caller believes it is talking about. If the app has
        /// another one open the answer is a refusal, not a guess.
        vault: Option<String>,
    },
}

/// What the app answers.
#[derive(Debug, Clone, PartialEq, Eq)]
pub enum Response {
    /// The app is now counting this segment.
    Started { planned_sec: u64, label: Option<String> },
    /// The app heard the request and declined it.
    Refused { reason: String },
}

/// Where the socket file lives: beside `timer.json`, since it is
/// machine-local runtime state and no business of the vault's.
pub fn socket_path(config_dir: &str) -> (r: String)
    ensures
        !verbatim(config_dir@) ==> joined(config_dir@, "cli.sock"@, r@),
        ends_with(r@, "cli.sock"@),
{
    proof {
        reveal_strlit("cli.sock");
        assert(SOCKET_FILE@.len() == 8);
        assert(plain_component(SOCKET_FILE@));
    }
    join_path(config_dir, SOCKET_FILE)
}

pub const FNV_OFFSET: u64 = 0xcbf2_9ce4_8422_2325;

pub const FNV_PRIME: u64 = 0x0000_0100_0000_01b3;

/// FNV-1a over `bytes`.
pub open spec fn fnv1a(bytes: Seq<u8>) -> u64
    decreases bytes.len(),
{
    if bytes.len() == 0 {
        FNV_OFFSET
    } else {
        let h = fnv1a(bytes.drop_last());
        (h ^ (bytes.last() as u64)).wrapping_mul(FNV_PRIME)
    }
}

/// FNV-1a over the config directory's bytes, to give a named pipe a
/// per-user name: pipes share one machine-wide namespace. Nothing
/// security-sensitive rests on it; two directories only should not collide.
pub fn fingerprint(config_dir: &[u8]) -> (r: u64)
    ensures
        r == fnv1a(config_dir@),
{
    let mut hash: u64 = FNV_OFFSET;
    let mut i: usize = 0;
    while i < config_dir.len()
        invariant
            i <= config_dir@.len(),
            hash == fnv1a(config_dir@.subrange(0, i as int)),
        decreases config_dir@.len() - i,
    {
        assert(config_dir@.subrange(0, i + 1).drop_last() =~= config_dir@.subrange(0, i as int));
        hash = (hash ^ (config_dir[i] as u64)).wrapping_mul(FNV_PRIME);
        i = i + 1;
    }
    assert(config_dir@.subrange(0, i as int) =~= config_dir@);
    hash
}

/// A reply that is empty once trimmed: the app closed the connection
/// without answering.
pub fn check_reply(reply: &str) -> (r: Result<(), AppError>)
    ensures
        trim(reply@).len() == 0 ==> (r matches Err(AppError::IpcProtocol(m)) && m@
            == "the app closed the connection without answering"@),
        trim(reply@).len() > 0 ==> r is Ok,
{
    if trim_str(reply).as_str().is_empty() {
        return Err(AppError::IpcProtocol("the app closed the connection without answering".to_owned()));
    }
    Ok(())
}

pub open spec fn not_understood_reason(error: Seq<char>) -> Seq<char> {
    "this WabiCalendar does not understand the request ("@ + error + ")"@
}

/// The answer to a request that could not be read. Answered rather than
/// dropped: a newer client would otherwise take silence for "no app running"
/// and start a second timer beside the one already going.
pub fn not_understood(error: &str) -> (r: Response)
    ensures
        r matches Response::Refused { reason } && reason@ == not_understood_reason(error@),
{
    let mut reason = String::new();
    push_str(&mut reason, "this WabiCalendar does not understand the request (");
    push_str(&mut reason, error);
    push_str(&mut reason, ")");
    Response::Refused { reason }
}

/// How an attempt to reach the app's socket failed.
#[derive(Debug, Clone, Copy, PartialEq, Eq, Structural)]
pub enum ConnectFailure {
    /// There is no socket at all.
    NotFound,
    /// There is one, but nothing is listening on it.
    Refused,
    /// Anything else.
    Other,
}

/// No socket, or nobody listening on it, means no app is running, which is
/// the ordinary case. Any other failure is an error, because "no app" and
/// "an app that could not be reached" decide differently whether a second
/// timer may run.
pub fn nobody_listening(failure: ConnectFailure) -> (r: bool)
    ensures
        r == (failure is NotFound || failure is Refused),
{
    match failure {
        ConnectFailure::NotFound => true,
        ConnectFailure::Refused => true,
        ConnectFailure::Other => false,
    }
}

/// The app's answer to one caller: `line` is what was read from it, `None`
/// when it hung up before a whole line, else the request or why it could
/// not be read. A caller that hung up gets nothing; a request that could
/// not be read gets a refusal rather than silence; any other goes to
/// `handler`.
pub fn answer<F: Fn(Request) -> Response>(line: Option<Result<Request, String>>, handler: &F) -> (r: Option<
    Response,
>)
    requires
        forall|q: Request| handler.requires((q,)),
    ensures
        match line {
            None => r is None,
            Some(Ok(q)) => r matches Some(resp) && handler.ensures((q,), resp),
            Some(Err(e)) => r matches Some(Response::Refused { reason }) && reason@ == not_understood_reason(e@),
        },
{
    match line {
        None => None,
        Some(Ok(q)) => Some(handler(q)),
        Some(Err(e)) => Some(not_understood(e.as_str())),
    }
}

/// The serving loop's count of failures in a row.
pub struct FailureStreak {
    pub failures: usize,
}

impl FailureStreak {
    pub fn new() -> (r: FailureStreak)
        ensures
            r.failures == 0,
    {
        FailureStreak { failures: 0 }
    }

    /// Whether to wait for another caller.
    pub fn keep_serving(&self) -> (r: bool)
        ensures
            r == (self.failures < MAX_CONSECUTIVE_FAILURES),
    {
        self.failures < MAX_CONSECUTIVE_FAILURES
    }

    /// One caller was answered, or not: a success clears the streak.
    pub fn record(&mut self, ok: bool)
        requires
            old(self).failures < MAX_CONSECUTIVE_FAILURES,
        ensures
            final(self).failures == if ok {
                0
            } else {
                old(self).failures + 1
            },
    {
        if ok {
            self.failures = 0;
        } else {
            self.failures = self.failures + 1;
        }
    }
}

} // verus!
