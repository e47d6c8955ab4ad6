//! The one piece of state that cannot live inside the vault: where the vault
//! is. Stored in the OS application config directory.

use vstd::prelude::*;

use crate::error::AppError;
use crate::path::{ends_with, join_path, joined, plain_component, verbatim};
use crate::timer::{DEFAULT_BREAK, DEFAULT_WORK, NANOS_PER_SEC};

verus! {

/// Free on all three platforms as far as is known, and mnemonic. If it
/// collides with something the user already runs, registration fails and
/// the app says so rather than fighting over the key.
pub const DEFAULT_SHORTCUT: &'static str = "CommandOrControl+Shift+P";

pub const SETTINGS_FILE: &'static str = "settings.toml";

/// Where `settings.toml` sits in the config directory.
pub fn settings_path(config_dir: &str) -> (r: String)
    ensures
        !verbatim(config_dir@) ==> joined(config_dir@, "settings.toml"@, r@),
        ends_with(r@, "settings.toml"@),
{
    proof {
        reveal_strlit("settings.toml");
        assert(SETTINGS_FILE@.len() == 13);
        assert(plain_component(SETTINGS_FILE@));
    }
    join_path(config_dir, SETTINGS_FILE)
}

#[derive(Debug, Clone, PartialEq, Eq)]
pub struct Settings {
    /// Absolute path to the user's vault; `None` until one is picked.
    pub vault_path: Option<String>,
    /// Accelerator for the global start/pause key. `None` means the user
    /// turned the shortcut off, which is not the same as it failing to
    /// register.
    pub shortcut_toggle: Option<String>,
    pub autostart: bool,
    pub work_secs: u64,
    pub break_secs: u64,
}

/// The defaults a missing file reads as.
pub open spec fn default_settings(s: Settings) -> bool {
    &&& s.vault_path is None
    &&& s.shortcut_toggle matches Some(k) && k@ == DEFAULT_SHORTCUT@
    &&& !s.autostart
    &&& s.work_secs == DEFAULT_WORK / NANOS_PER_SEC
    &&& s.break_secs == DEFAULT_BREAK / NANOS_PER_SEC
}

// By hand because the interesting defaults are not zeros: a derived
// `Default` would hand out a zero-second pomodoro.
impl Default for Settings {
    fn default() -> (r: Settings)
        ensures
            default_settings(r),
    {
        Settings {
            vault_path: None,
            shortcut_toggle: Some(DEFAULT_SHORTCUT.to_owned()),
            autostart: false,
            work_secs: (DEFAULT_WORK / NANOS_PER_SEC) as u64,
            break_secs: (DEFAULT_BREAK / NANOS_PER_SEC) as u64,
        }
    }
}

/// A segment length as the settings store it: whole seconds, and never zero,
/// since a zero-length segment would finish the instant it started.
pub open spec fn stored_secs(secs: u64) -> u64 {
    if secs >= 1 {
        secs
    } else {
        1
    }
}

impl Settings {
    /// What reading `settings.toml` comes to: `None` when there is no file,
    /// which is a first launch and reads as the defaults, else what the file
    /// decoded to. A malformed file stays an error on purpose: falling back
    /// to the defaults would present the app as unconfigured, and the next
    /// pick would replace a vault the user still has.
    pub fn loaded(read: Option<Result<Settings, AppError>>) -> (r: Result<Settings, AppError>)
        ensures
            match read {
                None => r matches Ok(s) && default_settings(s),
                Some(x) => r == x,
            },
    {
        match read {
            None => Ok(Settings::default()),
            Some(x) => x,
        }
    }

    /// Load, change one thing, save: the only safe way to touch a single
    /// field, since a `Settings` built from scratch and saved would reset
    /// every field the caller did not mention.
    ///
    /// `load` reads `settings.toml` (the defaults when there is none) and
    /// `save` writes it. What `edit` makes of the loaded settings is what is
    /// saved and what comes back; a failed load saves nothing, and either
    /// failure is handed back as it came.
    pub fn update<L, E, S>(load: L, edit: E, save: S) -> (r: Result<Settings, AppError>) where
        L: FnOnce() -> Result<Settings, AppError>,
        E: FnOnce(Settings) -> Settings,
        S: FnOnce(&Settings) -> Result<(), AppError>,

        requires
            load.requires(()),
            forall|s: Settings| #[trigger] edit.requires((s,)),
            forall|s: &Settings| #[trigger] save.requires((s,)),
        ensures
            exists|loaded: Result<Settings, AppError>|
                #[trigger] load.ensures((), loaded) && match loaded {
                    Err(e) => r == Err::<Settings, AppError>(e),
                    Ok(current) => exists|edited: Settings, saved: Result<(), AppError>|
                        #[trigger] edit.ensures((current,), edited) && #[trigger] save.ensures((&edited,), saved)
                            && match saved {
                            Err(e) => r == Err::<Settings, AppError>(e),
                            Ok(()) => r == Ok::<Settings, AppError>(edited),
                        },
                },
    {
        let loaded = load();
        match loaded {
            Err(e) => Err(e),
            Ok(current) => {
                let edited = edit(current);
                let saved = save(&edited);
                match saved {
                    Err(e) => Err(e),
                    Ok(()) => Ok(edited),
                }
            },
        }
    }

    /// Store new segment lengths, each at least a second.
    pub fn set_durations(&mut self, work_secs: u64, break_secs: u64)
        ensures
            final(self).work_secs == stored_secs(work_secs),
            final(self).break_secs == stored_secs(break_secs),
            final(self).vault_path == old(self).vault_path,
            final(self).shortcut_toggle == old(self).shortcut_toggle,
            final(self).autostart == old(self).autostart,
    {
        self.work_secs = if work_secs >= 1 {
            work_secs
        } else {
            1
        };
        self.break_secs = if break_secs >= 1 {
            break_secs
        } else {
            1
        };
    }
}

} // verus!
