//! The command line: the same vault as the app, from a terminal.

pub mod report;
pub mod start;

use vstd::prelude::*;

use crate::error::AppError;

verus! {

/// The bundle identifier, which is also the directory `settings.toml` sits
/// in under the platform's config directory.
pub const APP_IDENTIFIER: &'static str = "com.hinoki.calenpomo";

/// Overrides the remembered vault for one invocation, below `--vault` and
/// above `settings.toml`.
pub const VAULT_ENV: &'static str = "CALENPOMO_VAULT";

/// Pick a vault from the three places one can come from, most specific
/// first: `--vault`, then the environment, then what the app remembers.
///
/// `remembered` is only consulted when neither of the others answered. That
/// is not an optimisation: a malformed `settings.toml` is a hard error, and
/// `--vault` has to stay usable as the way out of one.
pub fn choose_vault_path<F: FnOnce() -> Result<Option<String>, AppError>>(
    explicit: Option<String>,
    from_env: Option<String>,
    remembered: F,
) -> (r: Result<String, AppError>)
    requires
        explicit is None && from_env is None ==> call_requires(remembered, ()),
    ensures
        explicit matches Some(p) ==> r == Ok::<String, AppError>(p),
        explicit is None ==> (from_env matches Some(p) ==> r == Ok::<String, AppError>(p)),
        explicit is None && from_env is None ==> exists|v: Result<Option<String>, AppError>|
            #[trigger] call_ensures(remembered, (), v) && match v {
                Ok(Some(p)) => r == Ok::<String, AppError>(p),
                Ok(None) => r == Err::<String, AppError>(AppError::VaultUnset),
                Err(e) => r == Err::<String, AppError>(e),
            },
{
    match explicit {
        Some(p) => return Ok(p),
        None => {},
    }
    match from_env {
        Some(p) => return Ok(p),
        None => {},
    }
    match remembered() {
        Ok(Some(p)) => Ok(p),
        Ok(None) => Err(AppError::VaultUnset),
        Err(e) => Err(e),
    }
}

} // verus!
