//! One error type for the whole program. Failures of the operating system
//! and of the decoders carry the path they happened at and what was said
//! about them, as text.

use vstd::prelude::*;

use crate::text::{debug_quoted, push_str, quote};

verus! {

#[derive(Debug, Clone, PartialEq, Eq)]
pub enum AppError {
    /// An I/O failure, with the path it failed on: a bare I/O error is nearly
    /// impossible to act on.
    Io { path: String, reason: String },
    /// The vault directory is missing or unreadable.
    VaultMissing(String),
    NotADirectory(String),
    TomlDecode { path: String, reason: String },
    TomlEncode(String),
    JsonEncode(String),
    /// A shard that is not valid iCalendar.
    IcsDecode { path: String, reason: String },
    /// No vault has been chosen yet, or the one we had went away.
    NoVault,
    /// The command line found no vault anywhere it looks.
    VaultUnset,
    /// The platform gave us nowhere to look for `settings.toml`.
    NoConfigDir,
    EventNotFound(String),
    BackwardsEvent,
    /// A repeating event is shown but never edited from this side.
    RecurringNotEditable,
    /// The local socket between the command line and the app would not
    /// cooperate; `endpoint` is a socket path or a pipe name.
    Ipc { endpoint: String, reason: String },
    /// Something answered on the socket but did not speak the protocol.
    IpcProtocol(String),
    /// The app understood the request and said no.
    IpcRefused(String),
    /// Another process is holding the vault's write lock.
    VaultBusy(String),
    InvalidShortcut(String),
    /// An OS integration refused.
    Integration { feature: String, reason: String },
}

pub open spec fn message(e: AppError) -> Seq<char> {
    match e {
        AppError::Io { path, reason } => path@ + ": "@ + reason@,
        AppError::VaultMissing(p) => "vault directory is missing or unreadable: "@ + p@,
        AppError::NotADirectory(p) => "not a directory: "@ + p@,
        AppError::TomlDecode { path, reason } => path@ + " is not valid TOML: "@ + reason@,
        AppError::TomlEncode(s) => "could not encode TOML: "@ + s@,
        AppError::JsonEncode(s) => "could not encode JSON: "@ + s@,
        AppError::IcsDecode { path, reason } => path@ + " is not valid iCalendar: "@ + reason@,
        AppError::NoVault => "no vault is open"@,
        AppError::VaultUnset => "no vault configured — open WabiCalendar and choose one, or pass --vault <PATH>"@,
        AppError::NoConfigDir => "could not determine this platform's configuration directory"@,
        AppError::EventNotFound(uid) => "no event with uid "@ + debug_quoted(uid@),
        AppError::BackwardsEvent => "an event has to end after it starts"@,
        AppError::RecurringNotEditable => "a repeating event can only be changed by editing its RRULE in the .ics file"@,
        AppError::Ipc { endpoint, reason } => endpoint@ + ": "@ + reason@,
        AppError::IpcProtocol(s) => "unexpected answer from the WabiCalendar app: "@ + s@,
        AppError::IpcRefused(s) => "WabiCalendar declined: "@ + s@,
        AppError::VaultBusy(p) => "another WabiCalendar process is writing to "@ + p@ + "; try again"@,
        AppError::InvalidShortcut(s) => debug_quoted(s@) + " is not a key combination we can register"@,
        AppError::Integration { feature, reason } => feature@ + " is unavailable: "@ + reason@,
    }
}

impl AppError {
    /// What the error says to the user.
    pub fn to_message(&self) -> (r: String)
        ensures
            r@ == message(*self),
    {
        let mut out = String::new();
        match self {
            AppError::Io { path, reason } => {
                push_str(&mut out, path.as_str());
                push_str(&mut out, ": ");
                push_str(&mut out, reason.as_str());
            },
            AppError::TomlDecode { path, reason } => {
                push_str(&mut out, path.as_str());
                push_str(&mut out, " is not valid TOML: ");
                push_str(&mut out, reason.as_str());
            },
            AppError::TomlEncode(s) => {
                push_str(&mut out, "could not encode TOML: ");
                push_str(&mut out, s.as_str());
            },
            AppError::JsonEncode(s) => {
                push_str(&mut out, "could not encode JSON: ");
                push_str(&mut out, s.as_str());
            },
            AppError::Ipc { endpoint, reason } => {
                push_str(&mut out, endpoint.as_str());
                push_str(&mut out, ": ");
                push_str(&mut out, reason.as_str());
            },
            AppError::VaultMissing(p) => {
                push_str(&mut out, "vault directory is missing or unreadable: ");
                push_str(&mut out, p.as_str());
            },
            AppError::NotADirectory(p) => {
                push_str(&mut out, "not a directory: ");
                push_str(&mut out, p.as_str());
            },
            AppError::IcsDecode { path, reason } => {
                push_str(&mut out, path.as_str());
                push_str(&mut out, " is not valid iCalendar: ");
                push_str(&mut out, reason.as_str());
            },
            AppError::NoVault => push_str(&mut out, "no vault is open"),
            AppError::VaultUnset => push_str(
                &mut out,
                "no vault configured — open WabiCalendar and choose one, or pass --vault <PATH>",
            ),
            AppError::NoConfigDir => push_str(
                &mut out,
                "could not determine this platform's configuration directory",
            ),
            AppError::EventNotFound(uid) => {
                push_str(&mut out, "no event with uid ");
                let q = quote(uid.as_str());
                push_str(&mut out, q.as_str());
            },
            AppError::BackwardsEvent => push_str(&mut out, "an event has to end after it starts"),
            AppError::RecurringNotEditable => push_str(
                &mut out,
                "a repeating event can only be changed by editing its RRULE in the .ics file",
            ),
            AppError::IpcProtocol(s) => {
                push_str(&mut out, "unexpected answer from the WabiCalendar app: ");
                push_str(&mut out, s.as_str());
            },
            AppError::IpcRefused(s) => {
                push_str(&mut out, "WabiCalendar declined: ");
                push_str(&mut out, s.as_str());
            },
            AppError::VaultBusy(p) => {
                push_str(&mut out, "another WabiCalendar process is writing to ");
                push_str(&mut out, p.as_str());
                push_str(&mut out, "; try again");
            },
            AppError::InvalidShortcut(s) => {
                let q = quote(s.as_str());
                push_str(&mut out, q.as_str());
                push_str(&mut out, " is not a key combination we can register");
            },
            AppError::Integration { feature, reason } => {
                push_str(&mut out, feature.as_str());
                push_str(&mut out, " is unavailable: ");
                push_str(&mut out, reason.as_str());
            },
        }
        out
    }
}

#[verifier::external_type_specification]
#[verifier::external_body]
pub struct ExIoError(std::io::Error);

/// What `std::io::Error`'s `Display` says. The text comes from the operating
/// system, in its words and language, so no clause says what it is.
#[verifier::external_body]
fn io_reason(e: &std::io::Error) -> (r: String) {
    e.to_string()
}

/// Puts back the path an I/O failure happened at, which `std::io::Error`
/// does not carry.
pub trait IoResultExt<T> {
    fn at(self, path: &str) -> Result<T, AppError>;
}

impl<T> IoResultExt<T> for Result<T, std::io::Error> {
    /// A success passes through; a failure becomes [`AppError::Io`] at `path`.
    fn at(self, path: &str) -> (r: Result<T, AppError>)
        ensures
            self matches Ok(v) ==> r == Ok::<T, AppError>(v),
            self is Err ==> (r matches Err(AppError::Io { path: p, .. }) && p@ == path@),
    {
        match self {
            Ok(v) => Ok(v),
            Err(e) => {
                let reason = io_reason(&e);
                let mut at = String::new();
                push_str(&mut at, path);
                Err(AppError::Io { path: at, reason })
            },
        }
    }
}

} // verus!
