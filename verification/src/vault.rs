//! The vault holds the user's data, and this is where everything lives
//! inside it. The files are the source of truth; anything under `.index/` is a
//! cache that has to be rebuildable from them.

use vstd::prelude::*;

use crate::error::AppError;
use crate::calendar::store::{calendar_file_name, shard_name, YearMonth, push_signed_padded, signed_padded};
use crate::path::{ends_with, is_separator, join_path, joined, lemma_joined_twice, plain_base, plain_component, verbatim};
use crate::text::{push_char, push_zero_padded, zero_padded};

verus! {

pub const CALENDAR_DIR: &'static str = "calendar";

pub const SESSIONS_DIR: &'static str = "sessions";

pub const INDEX_DIR: &'static str = ".index";

pub const CONFIG_FILE: &'static str = "config.toml";

/// Lives inside `.index/`, so it is covered by "deleting that directory loses
/// nothing".
pub const LOCK_FILE: &'static str = "write.lock";

/// Bumped when the on-disk layout changes in a way that needs migrating.
pub const SCHEMA_VERSION: u32 = 1;

/// What a fresh vault's `config.toml` says.
pub const DEFAULT_CONFIG: &'static str = "# CalenPomo vault configuration.\n# Everything in this vault is plain text on purpose — edit it by hand if you like.\n\nschema_version = 1\n";

#[derive(Debug, Clone, PartialEq, Eq, Structural)]
pub struct VaultConfig {
    pub schema_version: u32,
}

/// What rebuilding the skeleton had to put back, as names relative to the
/// vault root.
#[derive(Debug, Clone, PartialEq, Eq)]
pub struct SkeletonReport {
    pub created: Vec<String>,
}

pub open spec fn skeleton_names(calendar: bool, sessions: bool, index: bool, config: bool) -> Seq<Seq<char>> {
    (if calendar { Seq::empty() } else { seq!["calendar"@] })
        + (if sessions { Seq::empty() } else { seq!["sessions"@] })
        + (if index { Seq::empty() } else { seq![".index"@] })
        + (if config { Seq::empty() } else { seq!["config.toml"@] })
}

/// Where one vault lives.
#[derive(Debug, Clone, PartialEq, Eq)]
pub struct Vault {
    root: String,
}

/// `YYYY-MM-DD.jsonl`: the name of a day's session file.
pub open spec fn session_file_name(year: int, month: nat, day: nat) -> Seq<char> {
    signed_padded(year, 4) + seq!['-'] + zero_padded(month, 2) + seq!['-'] + zero_padded(day, 2)
        + seq!['.', 'j', 's', 'o', 'n', 'l']
}

impl Vault {
    /// The vault rooted at `root`, which the caller has checked is an
    /// existing directory.
    pub fn at(root: String) -> (r: Vault)
        ensures
            r.root_view() == root@,
    {
        Vault { root }
    }

    pub closed spec fn root_view(&self) -> Seq<char> {
        self.root@
    }

    pub fn root(&self) -> (r: &str)
        ensures
            r@ == self.root_view(),
    {
        self.root.as_str()
    }

    pub fn calendar_dir(&self) -> (r: String)
        ensures
            !verbatim(self.root_view()) ==> joined(self.root_view(), "calendar"@, r@),
            ends_with(r@, "calendar"@),
    {
        proof {
            reveal_strlit("calendar");
            assert(CALENDAR_DIR@.len() == 8);
            assert(plain_component(CALENDAR_DIR@));
        }
        join_path(self.root.as_str(), CALENDAR_DIR)
    }

    pub fn sessions_dir(&self) -> (r: String)
        ensures
            !verbatim(self.root_view()) ==> joined(self.root_view(), "sessions"@, r@),
            ends_with(r@, "sessions"@),
    {
        proof {
            reveal_strlit("sessions");
            assert(SESSIONS_DIR@.len() == 8);
            assert(plain_component(SESSIONS_DIR@));
        }
        join_path(self.root.as_str(), SESSIONS_DIR)
    }

    /// Derived data only. Deleting this directory must never lose anything.
    pub fn index_dir(&self) -> (r: String)
        ensures
            !verbatim(self.root_view()) ==> joined(self.root_view(), ".index"@, r@),
            ends_with(r@, ".index"@),
    {
        proof {
            reveal_strlit(".index");
            assert(INDEX_DIR@.len() == 6);
            assert(plain_component(INDEX_DIR@));
        }
        join_path(self.root.as_str(), INDEX_DIR)
    }

    /// The file every writer takes an exclusive lock on before touching this
    /// vault.
    pub fn lock_path(&self) -> (r: String)
        ensures
            exists|dir: Seq<char>|
                #![trigger verbatim(dir)]
                (!verbatim(self.root_view()) ==> joined(self.root_view(), ".index"@, dir)) && (!verbatim(dir) ==> joined(
                    dir,
                    "write.lock"@,
                    r@,
                )),
            plain_base(self.root_view()) ==> exists|s1: char, s2: char|
                is_separator(s1) && is_separator(s2) && r@ == self.root_view() + seq![s1] + ".index"@ + seq![s2] + "write.lock"@,
            ends_with(r@, "write.lock"@),
    {
        proof {
            reveal_strlit("write.lock");
            assert(LOCK_FILE@.len() == 10);
            assert(plain_component(LOCK_FILE@));
        }
        let dir = self.index_dir();
        let r = join_path(dir.as_str(), LOCK_FILE);
        proof {
            if plain_base(self.root_view()) {
                reveal_strlit(".index");
                assert(".index"@.len() == 6);
                assert(plain_component(".index"@));
                lemma_joined_twice(self.root_view(), ".index"@, "write.lock"@, dir@, r@);
            }
        }
        let ghost d = dir@;
        assert((!verbatim(self.root_view()) ==> joined(self.root_view(), ".index"@, d)) && (!verbatim(d) ==> joined(
            d,
            "write.lock"@,
            r@,
        )));
        assert(exists|e: Seq<char>|
            #![trigger verbatim(e)]
            (!verbatim(self.root_view()) ==> joined(self.root_view(), ".index"@, e)) && (!verbatim(e) ==> joined(
                e,
                "write.lock"@,
                r@,
            )));
        r
    }

    pub fn config_path(&self) -> (r: String)
        ensures
            !verbatim(self.root_view()) ==> joined(self.root_view(), "config.toml"@, r@),
            ends_with(r@, "config.toml"@),
    {
        proof {
            reveal_strlit("config.toml");
            assert(CONFIG_FILE@.len() == 11);
            assert(plain_component(CONFIG_FILE@));
        }
        join_path(self.root.as_str(), CONFIG_FILE)
    }

    /// `calendar/YYYY-MM.ics` — one iCalendar file per month.
    pub fn calendar_file(&self, year: i32, month: u32) -> (r: String)
        ensures
            exists|dir: Seq<char>|
                #![trigger verbatim(dir)]
                (!verbatim(self.root_view()) ==> joined(self.root_view(), "calendar"@, dir)) && (!verbatim(dir) ==> joined(
                    dir,
                    shard_name(YearMonth { year, month }),
                    r@,
                )),
            plain_base(self.root_view()) ==> exists|s1: char, s2: char|
                is_separator(s1) && is_separator(s2) && r@ == self.root_view() + seq![s1] + "calendar"@ + seq![s2] + shard_name(YearMonth { year, month }),
            ends_with(r@, shard_name(YearMonth { year, month })),
    {
        let dir = self.calendar_dir();
        let name = calendar_file_name(year, month);
        proof {
            lemma_shard_name_plain(YearMonth { year, month });
        }
        let r = join_path(dir.as_str(), name.as_str());
        assert((!verbatim(self.root_view()) ==> joined(self.root_view(), "calendar"@, dir@)) && (!verbatim(dir@)
            ==> joined(dir@, shard_name(YearMonth { year, month }), r@)));
        proof {
            if plain_base(self.root_view()) {
                reveal_strlit("calendar");
                assert("calendar"@.len() == 8);
                assert(plain_component("calendar"@));
                lemma_joined_twice(self.root_view(), "calendar"@, shard_name(YearMonth { year, month }), dir@, r@);
            }
        }
        assert(verbatim(dir@) || !verbatim(dir@));
        r
    }

    /// `sessions/YYYY-MM-DD.jsonl` — one append-only file per day.
    pub fn sessions_file(&self, year: i32, month: u32, day: u32) -> (r: String)
        ensures
            exists|dir: Seq<char>|
                #![trigger verbatim(dir)]
                (!verbatim(self.root_view()) ==> joined(self.root_view(), "sessions"@, dir)) && (!verbatim(dir) ==> joined(
                    dir,
                    session_file_name(year as int, month as nat, day as nat),
                    r@,
                )),
            plain_base(self.root_view()) ==> exists|s1: char, s2: char|
                is_separator(s1) && is_separator(s2) && r@ == self.root_view() + seq![s1] + "sessions"@ + seq![s2] + session_file_name(year as int, month as nat, day as nat),
            ends_with(r@, session_file_name(year as int, month as nat, day as nat)),
    {
        let dir = self.sessions_dir();
        let mut name = String::new();
        push_signed_padded(&mut name, year, 4);
        push_char(&mut name, '-');
        push_zero_padded(&mut name, month as u64, 2);
        push_char(&mut name, '-');
        push_zero_padded(&mut name, day as u64, 2);
        push_char(&mut name, '.');
        push_char(&mut name, 'j');
        push_char(&mut name, 's');
        push_char(&mut name, 'o');
        push_char(&mut name, 'n');
        push_char(&mut name, 'l');
        assert(name@ =~= session_file_name(year as int, month as nat, day as nat));
        proof {
            lemma_session_name_plain(year as int, month as nat, day as nat);
        }
        let r = join_path(dir.as_str(), name.as_str());
        assert((!verbatim(self.root_view()) ==> joined(self.root_view(), "sessions"@, dir@)) && (!verbatim(dir@)
            ==> joined(dir@, session_file_name(year as int, month as nat, day as nat), r@)));
        proof {
            if plain_base(self.root_view()) {
                reveal_strlit("sessions");
                assert("sessions"@.len() == 8);
                assert(plain_component("sessions"@));
                lemma_joined_twice(self.root_view(), "sessions"@, session_file_name(year as int, month as nat, day as nat), dir@, r@);
            }
        }
        assert(verbatim(dir@) || !verbatim(dir@));
        r
    }
}

proof fn lemma_padded_plain(n: int, w: nat)
    ensures
        forall|i: int| 0 <= i < signed_padded(n, w).len() ==> {
            let c = #[trigger] signed_padded(n, w)[i];
            c != '/' && c != '\\' && c != ':' && c != '.'
        },
{
    crate::text::lemma_zero_padded((if n < 0 { -n } else { n }) as nat, if n < 0 {
        if w >= 1 {
            (w - 1) as nat
        } else {
            0
        }
    } else {
        w
    });
    let s = signed_padded(n, w);
    assert forall|i: int| 0 <= i < s.len() implies {
        let c = #[trigger] s[i];
        c != '/' && c != '\\' && c != ':' && c != '.'
    } by {
        if n < 0 && i > 0 {
            assert(s[i] == zero_padded((-n) as nat, if w >= 1 {
                (w - 1) as nat
            } else {
                0
            })[i - 1]);
        }
    }
}

proof fn lemma_shard_name_plain(ym: YearMonth)
    ensures
        plain_component(shard_name(ym)),
{
    lemma_padded_plain(ym.year as int, 4);
    lemma_padded_plain(ym.month as int, 2);
    let y = signed_padded(ym.year as int, 4);
    let m = zero_padded(ym.month as nat, 2);
    assert(m == signed_padded(ym.month as int, 2));
    let s = shard_name(ym);
    assert forall|i: int| 0 <= i < s.len() implies #[trigger] s[i] != '/' && s[i] != '\\' && s[i] != ':' by {
        if i < y.len() {
            assert(s[i] == y[i]);
        } else if i == y.len() {
        } else if i < y.len() + 1 + m.len() {
            assert(s[i] == m[i - y.len() - 1]);
        } else {
        }
    }
    assert(s.len() > 2);
}

proof fn lemma_session_name_plain(year: int, month: nat, day: nat)
    ensures
        plain_component(session_file_name(year, month, day)),
{
    lemma_padded_plain(year, 4);
    lemma_padded_plain(month as int, 2);
    lemma_padded_plain(day as int, 2);
    let y = signed_padded(year, 4);
    let m = zero_padded(month, 2);
    let d = zero_padded(day, 2);
    assert(m == signed_padded(month as int, 2));
    assert(d == signed_padded(day as int, 2));
    let s = session_file_name(year, month, day);
    assert forall|i: int| 0 <= i < s.len() implies #[trigger] s[i] != '/' && s[i] != '\\' && s[i] != ':' by {
        if i < y.len() {
            assert(s[i] == y[i]);
        } else if i == y.len() {
        } else if i < y.len() + 1 + m.len() {
            assert(s[i] == m[i - y.len() - 1]);
        } else if i == y.len() + 1 + m.len() {
        } else if i < y.len() + 2 + m.len() + d.len() {
            assert(s[i] == d[i - y.len() - 2 - m.len()]);
        } else {
        }
    }
    assert(s.len() > 2);
}

/// What is at the path a vault is opened from.
#[derive(Debug, Clone, Copy, PartialEq, Eq, Structural)]
pub enum RootKind {
    Missing,
    NotADirectory,
    Directory,
}

/// The skeleton was rebuilt as `report` says: each part was asked about
/// once, in order, and exactly the missing ones were made, the directories
/// by `make_dir` and the config by `write_config`.
pub open spec fn skeleton_rebuilt<P: Fn(&str) -> bool, M: Fn(&str) -> Result<(), AppError>, W: FnOnce() -> Result<(), AppError>>(
    present: P,
    make_dir: M,
    write_config: W,
    report: SkeletonReport,
) -> bool {
    exists|calendar: bool, sessions: bool, index: bool, config: bool|
        #![trigger skeleton_names(calendar, sessions, index, config)]
        {
            &&& present.ensures((CALENDAR_DIR,), calendar)
            &&& present.ensures((SESSIONS_DIR,), sessions)
            &&& present.ensures((INDEX_DIR,), index)
            &&& present.ensures((CONFIG_FILE,), config)
            &&& report.created@.map_values(|s: String| s@) == skeleton_names(calendar, sessions, index, config)
            &&& !calendar ==> made(make_dir, CALENDAR_DIR)
            &&& !sessions ==> made(make_dir, SESSIONS_DIR)
            &&& !index ==> made(make_dir, INDEX_DIR)
            &&& !config ==> exists|w: Result<(), AppError>| #[trigger] write_config.ensures((), w) && w is Ok
        }
}

/// `make_dir` made the directory `name`.
pub open spec fn made<M: Fn(&str) -> Result<(), AppError>>(make_dir: M, name: &str) -> bool {
    exists|m: Result<(), AppError>| #[trigger] make_dir.ensures((name,), m) && m is Ok
}

/// The rebuild stopped at a part that could not be made, with its error.
pub open spec fn skeleton_failed<M: Fn(&str) -> Result<(), AppError>, W: FnOnce() -> Result<(), AppError>>(
    make_dir: M,
    write_config: W,
    e: AppError,
) -> bool {
    ||| make_dir.ensures((CALENDAR_DIR,), Err::<(), AppError>(e))
    ||| make_dir.ensures((SESSIONS_DIR,), Err::<(), AppError>(e))
    ||| make_dir.ensures((INDEX_DIR,), Err::<(), AppError>(e))
    ||| write_config.ensures((), Err::<(), AppError>(e))
}

impl Vault {
    /// Recreate whatever part of the skeleton is missing, and only what is
    /// missing: the three directories, then `config.toml`. `present` says
    /// whether a part (named relative to the root) is there, `make_dir`
    /// creates a directory and `write_config` writes the default config.
    /// The first part that cannot be made stops the rebuild with its error.
    pub fn ensure_skeleton<P, M, W>(&self, present: P, make_dir: M, write_config: W) -> (r: Result<SkeletonReport, AppError>) where
        P: Fn(&str) -> bool,
        M: Fn(&str) -> Result<(), AppError>,
        W: FnOnce() -> Result<(), AppError>,

        requires
            forall|name: &str| #[trigger] present.requires((name,)),
            forall|name: &str| #[trigger] make_dir.requires((name,)),
            write_config.requires(()),
        ensures
            match r {
                Ok(report) => skeleton_rebuilt(present, make_dir, write_config, report),
                Err(e) => skeleton_failed(make_dir, write_config, e),
            },
    {
        let mut created: Vec<String> = Vec::new();
        let calendar = present(CALENDAR_DIR);
        if !calendar {
            let done = make_dir(CALENDAR_DIR);
            match done {
                Err(e) => return Err(e),
                Ok(()) => {
                    assert(made(make_dir, CALENDAR_DIR));
                    created.push(CALENDAR_DIR.to_owned());
                },
            }
        }
        let sessions = present(SESSIONS_DIR);
        if !sessions {
            let done = make_dir(SESSIONS_DIR);
            match done {
                Err(e) => return Err(e),
                Ok(()) => {
                    assert(made(make_dir, SESSIONS_DIR));
                    created.push(SESSIONS_DIR.to_owned());
                },
            }
        }
        let index = present(INDEX_DIR);
        if !index {
            let done = make_dir(INDEX_DIR);
            match done {
                Err(e) => return Err(e),
                Ok(()) => {
                    assert(made(make_dir, INDEX_DIR));
                    created.push(INDEX_DIR.to_owned());
                },
            }
        }
        let config = present(CONFIG_FILE);
        if !config {
            let written = write_config();
            match written {
                Err(e) => return Err(e),
                Ok(()) => {
                    created.push(CONFIG_FILE.to_owned());
                },
            }
        }
        proof {
            reveal_strlit("calendar");
            reveal_strlit("sessions");
            reveal_strlit(".index");
            reveal_strlit("config.toml");
        }
        assert(created@.map_values(|s: String| s@) =~= skeleton_names(calendar, sessions, index, config));
        Ok(SkeletonReport { created })
    }

    /// Adopt `root` as the vault, given what was `found` there: the root
    /// must already be a directory, since creating it would turn an
    /// unmounted drive into a brand new empty vault at its mount point,
    /// which to the user is indistinguishable from data loss. Then the
    /// skeleton is rebuilt where it has gaps (see [`Vault::ensure_skeleton`]),
    /// and `read_config` must understand `config.toml`: a config that cannot
    /// be read fails loudly rather than being overwritten.
    pub fn open<P, M, W, C>(
        root: String,
        found: Result<RootKind, AppError>,
        present: P,
        make_dir: M,
        write_config: W,
        read_config: C,
    ) -> (r: Result<(Vault, SkeletonReport), AppError>) where
        P: Fn(&str) -> bool,
        M: Fn(&str) -> Result<(), AppError>,
        W: FnOnce() -> Result<(), AppError>,
        C: FnOnce(&Vault) -> Result<VaultConfig, AppError>,

        requires
            forall|name: &str| #[trigger] present.requires((name,)),
            forall|name: &str| #[trigger] make_dir.requires((name,)),
            write_config.requires(()),
            forall|v: &Vault| #[trigger] read_config.requires((v,)),
        ensures
            match found {
                Err(e) => r == Err::<(Vault, SkeletonReport), AppError>(e),
                Ok(RootKind::Missing) => r == Err::<(Vault, SkeletonReport), AppError>(AppError::VaultMissing(root)),
                Ok(RootKind::NotADirectory) => r == Err::<(Vault, SkeletonReport), AppError>(
                    AppError::NotADirectory(root),
                ),
                Ok(RootKind::Directory) => match r {
                    Ok((vault, report)) => {
                        &&& vault.root_view() == root@
                        &&& skeleton_rebuilt(present, make_dir, write_config, report)
                        &&& exists|config: VaultConfig| #[trigger] read_config.ensures((&vault,), Ok::<VaultConfig, AppError>(config))
                    },
                    Err(e) => skeleton_failed(make_dir, write_config, e) || exists|v: Vault|
                        v.root_view() == root@ && #[trigger] read_config.ensures((&v,), Err::<VaultConfig, AppError>(e)),
                },
            },
    {
        match found {
            Err(e) => return Err(e),
            Ok(RootKind::Missing) => return Err(AppError::VaultMissing(root)),
            Ok(RootKind::NotADirectory) => return Err(AppError::NotADirectory(root)),
            Ok(RootKind::Directory) => {},
        }
        let vault = Vault { root };
        let report = match vault.ensure_skeleton(present, make_dir, write_config) {
            Err(e) => return Err(e),
            Ok(report) => report,
        };
        let checked = read_config(&vault);
        match checked {
            Err(e) => {
                assert(vault.root_view() == root@ && read_config.ensures((&vault,), Err::<VaultConfig, AppError>(e)));
                Err(e)
            },
            Ok(config) => {
                assert(read_config.ensures((&vault,), Ok::<VaultConfig, AppError>(config)));
                Ok((vault, report))
            },
        }
    }
}

} // verus!
