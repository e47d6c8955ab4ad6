//! The app's state and the decisions behind its commands.
//!
//! The desktop shell locks this state and performs the I/O each decision
//! names; what is decided, and in what order, is here.

use vstd::prelude::*;

use crate::error::AppError;
use crate::integrations::{FeatureStatus, IntegrationStatus};
use crate::settings::Settings;
use crate::timer::{
    lengths_fit, readings_ok, spec_observe, spec_persist_due, spec_persisted, state_at, wf as timer_wf, Ended, Persisted,
    RealClock, Timer, TimerModel, TimerState, Transition, MAX_DURATION_NANOS, NANOS_PER_SEC, persisted_in_range,
    spec_load,
};
use crate::vault::{SkeletonReport, Vault};

verus! {

/// How many finished segments may wait for a vault to be written to. The
/// queue only grows while the vault is unreachable, and the cap keeps an app
/// left running for weeks without one from growing without bound: at one
/// work segment every 25 minutes it is over four days of pomodoros.
pub const MAX_UNWRITTEN: usize = 256;

/// Everything the frontend needs to know about the vault.
#[derive(Debug, Clone, PartialEq, Eq)]
pub enum VaultStatus {
    /// First launch: no vault has been chosen yet.
    Unconfigured,
    /// A remembered path that is not there any more. The user is asked again
    /// rather than guessed for.
    Missing { path: String },
    Ready {
        path: String,
        /// Parts of the skeleton that were missing and had to be rebuilt.
        rebuilt: Vec<String>,
    },
}

/// Where the countdown can be shown on one platform.
#[derive(Debug, Clone, Copy, PartialEq, Eq, Structural)]
pub struct CountdownSupport {
    /// Text beside the tray icon. Not on Windows.
    pub title: bool,
    /// Hover tooltip. Not on Linux.
    pub tooltip: bool,
    /// The disabled first menu entry, which works everywhere.
    pub menu_item: bool,
}

#[derive(Debug, Clone, Copy, PartialEq, Eq, Structural)]
pub enum Platform {
    MacOs,
    Windows,
    Linux,
    Other,
}

impl CountdownSupport {
    pub fn on(platform: Platform) -> (r: CountdownSupport)
        ensures
            r.title == (platform == Platform::MacOs || platform == Platform::Linux),
            r.tooltip == (platform == Platform::MacOs || platform == Platform::Windows),
            r.menu_item,
    {
        CountdownSupport {
            title: platform == Platform::MacOs || platform == Platform::Linux,
            tooltip: platform == Platform::MacOs || platform == Platform::Windows,
            menu_item: true,
        }
    }
}

/// Everything the settings panel needs, in one round trip.
#[derive(Debug, Clone, PartialEq, Eq)]
pub struct IntegrationReport {
    pub status: IntegrationStatus,
    pub shortcut_toggle: Option<String>,
    pub autostart: bool,
    pub work_secs: u64,
    pub break_secs: u64,
    pub countdown: CountdownSupport,
}

fn copy_text(s: &String) -> (r: String)
    ensures
        r == *s,
{
    s.clone()
}

fn copy_status(s: &FeatureStatus) -> (r: FeatureStatus)
    ensures
        r == *s,
{
    match s {
        FeatureStatus::Ready => FeatureStatus::Ready,
        FeatureStatus::Off => FeatureStatus::Off,
        FeatureStatus::Unsupported { reason } => FeatureStatus::Unsupported { reason: copy_text(reason) },
        FeatureStatus::Denied { reason } => FeatureStatus::Denied { reason: copy_text(reason) },
    }
}

fn copy_statuses(s: &IntegrationStatus) -> (r: IntegrationStatus)
    ensures
        r == *s,
{
    IntegrationStatus {
        tray: copy_status(&s.tray),
        shortcut: copy_status(&s.shortcut),
        notification: copy_status(&s.notification),
        autostart: copy_status(&s.autostart),
    }
}

/// The panel's report: the live statuses, the preferences behind them as
/// `settings` has them, and where this platform shows the countdown.
pub fn report(status: &IntegrationStatus, settings: &Settings, countdown: CountdownSupport) -> (r:
    IntegrationReport)
    ensures
        r.status == *status,
        r.shortcut_toggle == settings.shortcut_toggle,
        r.autostart == settings.autostart,
        r.work_secs == settings.work_secs,
        r.break_secs == settings.break_secs,
        r.countdown == countdown,
{
    let shortcut_toggle = match &settings.shortcut_toggle {
        Some(k) => Some(copy_text(k)),
        None => None,
    };
    IntegrationReport {
        status: copy_statuses(status),
        shortcut_toggle,
        autostart: settings.autostart,
        work_secs: settings.work_secs,
        break_secs: settings.break_secs,
        countdown,
    }
}

/// The unwritten queue after `fresh` joins it: the oldest go first when it
/// is over its cap, since they are what the user is least likely to still be
/// looking for.
pub open spec fn queued(queue: Seq<Ended>, fresh: Seq<Ended>) -> Seq<Ended> {
    let all = queue + fresh;
    if all.len() > MAX_UNWRITTEN {
        all.skip(all.len() - MAX_UNWRITTEN)
    } else {
        all
    }
}

/// What one pass of the ticker produced.
pub struct Pumped {
    pub snapshot: TimerState,
    /// What the cold-start restore found, then what was just observed.
    pub transitions: Vec<Transition>,
    /// The state to write to `timer.json`, when it is due; once written, call
    /// [`AppState::persisted`].
    pub persist: Option<Persisted>,
}

/// The app's state.
pub struct AppState {
    config_dir: String,
    vault: Option<Vault>,
    timer: Timer<RealClock>,
    /// Transitions the cold-start restore found, waiting for the first pump
    /// to dispatch them.
    pending: Vec<Transition>,
    /// Segments that ended but are not on disk yet. The timer runs without a
    /// vault, so a pomodoro can finish with nowhere to put it; holding it here
    /// means choosing a vault afterwards still saves the morning's work.
    unwritten: Vec<Ended>,
    integrations: IntegrationStatus,
}

impl AppState {
    pub closed spec fn wf(&self) -> bool {
        timer_wf(self.timer@) && lengths_fit(self.timer@) && self.unwritten@.len() <= MAX_UNWRITTEN
    }

    pub closed spec fn config_dir_view(&self) -> Seq<char> {
        self.config_dir@
    }

    pub closed spec fn vault_view(&self) -> Option<Vault> {
        self.vault
    }

    pub closed spec fn timer_view(&self) -> TimerModel {
        self.timer@
    }

    pub closed spec fn pending_view(&self) -> Seq<Transition> {
        self.pending@
    }

    pub closed spec fn unwritten_view(&self) -> Seq<Ended> {
        self.unwritten@
    }

    pub closed spec fn integrations_view(&self) -> IntegrationStatus {
        self.integrations
    }

    /// Come up with the timer restored from `saved` at the lengths
    /// `settings` asks for, no vault yet, and nothing integrated yet.
    pub fn new(config_dir: String, settings: &Settings, saved: Option<Persisted>) -> (r: AppState)
        requires
            saved matches Some(p) ==> persisted_in_range(p),
        ensures
            r.wf(),
            r.config_dir_view() == config_dir@,
            r.vault_view() is None,
            r.unwritten_view().len() == 0,
            r.integrations_view().tray is Off,
            r.integrations_view().shortcut is Off,
            r.integrations_view().notification is Off,
            r.integrations_view().autostart is Off,
            exists|mono: u128, wall: i128|
                #![trigger readings_ok(mono, wall)]
                {
                    let loaded = spec_load(
                        saved,
                        (settings.work_secs as u128 * NANOS_PER_SEC) as u128,
                        (settings.break_secs as u128 * NANOS_PER_SEC) as u128,
                        mono,
                        wall,
                    );
                    &&& readings_ok(mono, wall)
                    &&& r.timer_view() == loaded.0
                    &&& r.pending_view() == loaded.1
                },
    {
        let work = settings.work_secs as u128 * NANOS_PER_SEC;
        let brk = settings.break_secs as u128 * NANOS_PER_SEC;
        let (timer, pending) = Timer::load(RealClock::new(), saved, work, brk);
        AppState {
            config_dir,
            vault: None,
            timer,
            pending,
            unwritten: Vec::new(),
            integrations: IntegrationStatus::default(),
        }
    }

    pub fn config_dir(&self) -> (r: &str)
        ensures
            r@ == self.config_dir_view(),
    {
        self.config_dir.as_str()
    }

    pub fn vault(&self) -> (r: Option<&Vault>)
        ensures
            match self.vault_view() {
                Some(v) => r == Some(&v),
                None => r is None,
            },
    {
        match &self.vault {
            Some(v) => Some(v),
            None => None,
        }
    }

    pub fn timer(&self) -> (r: &Timer<RealClock>)
        ensures
            r@ == self.timer_view(),
    {
        &self.timer
    }

    pub fn integrations(&self) -> (r: &IntegrationStatus)
        ensures
            *r == self.integrations_view(),
    {
        &self.integrations
    }

    /// Record what an integration turned out to be.
    pub fn set_integrations(&mut self, status: IntegrationStatus)
        ensures
            final(self).integrations_view() == status,
            final(self).wf() == old(self).wf(),
            final(self).timer_view() == old(self).timer_view(),
            final(self).vault_view() == old(self).vault_view(),
            final(self).pending_view() == old(self).pending_view(),
            final(self).unwritten_view() == old(self).unwritten_view(),
            final(self).config_dir_view() == old(self).config_dir_view(),
    {
        self.integrations = status;
    }

    /// The transitions the cold-start restore found, once.
    pub fn take_pending(&mut self) -> (r: Vec<Transition>)
        ensures
            r@ == old(self).pending_view(),
            final(self).pending_view().len() == 0,
            final(self).wf() == old(self).wf(),
            final(self).timer_view() == old(self).timer_view(),
            final(self).vault_view() == old(self).vault_view(),
            final(self).unwritten_view() == old(self).unwritten_view(),
            final(self).integrations_view() == old(self).integrations_view(),
            final(self).config_dir_view() == old(self).config_dir_view(),
    {
        let mut out: Vec<Transition> = Vec::new();
        std::mem::swap(&mut out, &mut self.pending);
        out
    }

    /// Queue segments that ended, for writing once there is a vault.
    fn queue_sessions(&mut self, fresh: Vec<Ended>)
        requires
            old(self).wf(),
        ensures
            final(self).unwritten_view() == queued(old(self).unwritten_view(), fresh@),
            final(self).wf(),
            final(self).timer_view() == old(self).timer_view(),
            final(self).vault_view() == old(self).vault_view(),
            final(self).pending_view() == old(self).pending_view(),
            final(self).integrations_view() == old(self).integrations_view(),
            final(self).config_dir_view() == old(self).config_dir_view(),
    {
        let mut fresh = fresh;
        let ghost all = self.unwritten@ + fresh@;
        self.unwritten.append(&mut fresh);
        assert(self.unwritten@ =~= all);
        if self.unwritten.len() > MAX_UNWRITTEN {
            let overflow = self.unwritten.len() - MAX_UNWRITTEN;
            let kept = self.unwritten.split_off(overflow);
            self.unwritten = kept;
            assert(self.unwritten@ =~= all.skip(all.len() - MAX_UNWRITTEN));
        }
    }

    /// Get finished segments onto disk, reporting how many landed.
    ///
    /// `fresh` joins the queue first (see [`queued`]). Then, with a vault
    /// open, `record` is handed the queue's segments oldest first and says
    /// whether each reached the vault's session file; the first that did not
    /// stops the run and stays queued, with everything after it, for the next
    /// call. Infallible on purpose: this runs on every tick, and a vault that
    /// went away must not stop the countdown.
    pub fn drain_sessions<F: Fn(&Vault, &Ended) -> bool>(&mut self, fresh: Vec<Ended>, record: F) -> (r: usize)
        requires
            old(self).wf(),
            forall|v: &Vault, e: &Ended| #[trigger] record.requires((v, e)),
        ensures
            ({
                let q = queued(old(self).unwritten_view(), fresh@);
                &&& r <= q.len()
                &&& final(self).unwritten_view() == q.skip(r as int)
                &&& old(self).vault_view() is None ==> r == 0
                &&& old(self).vault_view() matches Some(v) ==> {
                    &&& forall|i: int| 0 <= i < r ==> #[trigger] record.ensures((&v, &q[i]), true)
                    &&& r < q.len() ==> record.ensures((&v, &q[r as int]), false)
                }
            }),
            final(self).wf(),
            final(self).timer_view() == old(self).timer_view(),
            final(self).vault_view() == old(self).vault_view(),
            final(self).pending_view() == old(self).pending_view(),
            final(self).integrations_view() == old(self).integrations_view(),
            final(self).config_dir_view() == old(self).config_dir_view(),
    {
        self.queue_sessions(fresh);
        let ghost q = self.unwritten@;
        let vault = match &self.vault {
            Some(v) => v,
            None => {
                assert(q.skip(0) =~= q);
                return 0;
            },
        };
        let mut written: usize = 0;
        assert(q.skip(0) =~= q);
        let ghost before = *self;
        while self.unwritten.len() > 0
            invariant_except_break
                self.unwritten@ == q.skip(written as int),
                q.len() <= MAX_UNWRITTEN,
                self.timer == before.timer,
                self.vault == before.vault,
                self.pending == before.pending,
                self.integrations == before.integrations,
                self.config_dir == before.config_dir,
                before.vault == Some(*vault),
                written <= q.len(),
                forall|i: int| 0 <= i < written ==> #[trigger] record.ensures((vault, &q[i]), true),
                forall|v: &Vault, e: &Ended| #[trigger] record.requires((v, e)),
                self.unwritten@.len() <= MAX_UNWRITTEN,
            ensures
                self.unwritten@ == q.skip(written as int),
                self.timer == before.timer,
                self.vault == before.vault,
                self.pending == before.pending,
                self.integrations == before.integrations,
                self.config_dir == before.config_dir,
                written <= q.len(),
                forall|i: int| 0 <= i < written ==> #[trigger] record.ensures((vault, &q[i]), true),
                written < q.len() ==> record.ensures((vault, &q[written as int]), false),
                self.unwritten@.len() <= MAX_UNWRITTEN,
            decreases self.unwritten.len(),
        {
            let landed = record(vault, &self.unwritten[0]);
            if !landed {
                break;
            }
            let _ = self.unwritten.remove(0);
            assert(self.unwritten@ =~= q.skip(written as int + 1));
            written = written + 1;
        }
        written
    }

    /// The open vault, or the error a command that needs one fails with.
    pub fn with_vault(&self) -> (r: Result<&Vault, AppError>)
        ensures
            match self.vault_view() {
                Some(v) => r == Ok::<&Vault, AppError>(&v),
                None => r == Err::<&Vault, AppError>(AppError::NoVault),
            },
    {
        match &self.vault {
            Some(v) => Ok(v),
            None => Err(AppError::NoVault),
        }
    }

    /// Keep `vault` open and report it ready, with what had to be rebuilt.
    pub fn remember(&mut self, vault: Vault, report: SkeletonReport) -> (r: VaultStatus)
        ensures
            final(self).vault_view() == Some(vault),
            r matches VaultStatus::Ready { path, rebuilt } && path@ == vault.root_view() && rebuilt
                == report.created,
            final(self).wf() == old(self).wf(),
            final(self).timer_view() == old(self).timer_view(),
            final(self).pending_view() == old(self).pending_view(),
            final(self).unwritten_view() == old(self).unwritten_view(),
            final(self).integrations_view() == old(self).integrations_view(),
            final(self).config_dir_view() == old(self).config_dir_view(),
    {
        let path = vault.root().to_owned();
        self.vault = Some(vault);
        VaultStatus::Ready { path, rebuilt: report.created }
    }

    /// What opening the remembered vault came to. A vault that is not there
    /// any more is expected, and answered by asking the user again rather
    /// than with an error; any other failure is reported and leaves the open
    /// vault as it was.
    pub fn open_and_remember(&mut self, opened: Result<(Vault, SkeletonReport), AppError>) -> (r: Result<
        VaultStatus,
        AppError,
    >)
        ensures
            match opened {
                Ok((v, rep)) => final(self).vault_view() == Some(v) && (r matches Ok(
                    VaultStatus::Ready { path, rebuilt },
                ) && path@ == v.root_view() && rebuilt == rep.created),
                Err(AppError::VaultMissing(p)) => final(self).vault_view() is None && (r matches Ok(
                    VaultStatus::Missing { path },
                ) && path == p),
                Err(e) => final(self).vault_view() == old(self).vault_view() && r == Err::<
                    VaultStatus,
                    AppError,
                >(e),
            },
            final(self).wf() == old(self).wf(),
            final(self).timer_view() == old(self).timer_view(),
            final(self).pending_view() == old(self).pending_view(),
            final(self).unwritten_view() == old(self).unwritten_view(),
            final(self).integrations_view() == old(self).integrations_view(),
            final(self).config_dir_view() == old(self).config_dir_view(),
    {
        match opened {
            Ok((vault, report)) => Ok(self.remember(vault, report)),
            Err(AppError::VaultMissing(path)) => {
                self.vault = None;
                Ok(VaultStatus::Missing { path })
            },
            Err(e) => Err(e),
        }
    }

    /// Start the queued segment from zero.
    pub fn start_timer(&mut self)
        requires
            old(self).wf(),
        ensures
            final(self).wf(),
            final(self).vault_view() == old(self).vault_view(),
            final(self).pending_view() == old(self).pending_view(),
            final(self).unwritten_view() == old(self).unwritten_view(),
            final(self).integrations_view() == old(self).integrations_view(),
            exists|mono: u128, wall: i128|
                readings_ok(mono, wall) && final(self).timer_view() == crate::timer::spec_start(
                    old(self).timer_view(),
                    mono,
                    wall,
                ),
    {
        self.timer.start();
    }

    /// Pause, resume, or start, as the button reads.
    pub fn toggle_timer(&mut self)
        requires
            old(self).wf(),
        ensures
            final(self).wf(),
            final(self).vault_view() == old(self).vault_view(),
            final(self).pending_view() == old(self).pending_view(),
            final(self).unwritten_view() == old(self).unwritten_view(),
            final(self).integrations_view() == old(self).integrations_view(),
            exists|mono: u128, wall: i128|
                readings_ok(mono, wall) && final(self).timer_view() == crate::timer::spec_toggle(
                    old(self).timer_view(),
                    mono,
                    wall,
                ),
    {
        self.timer.toggle();
    }

    /// Back to the start of the work phase, keeping what the abandoned
    /// segment counted.
    pub fn reset_timer(&mut self)
        requires
            old(self).wf(),
        ensures
            final(self).wf(),
            final(self).vault_view() == old(self).vault_view(),
            final(self).pending_view() == old(self).pending_view(),
            final(self).unwritten_view() == old(self).unwritten_view(),
            final(self).integrations_view() == old(self).integrations_view(),
            exists|mono: u128, wall: i128|
                readings_ok(mono, wall) && final(self).timer_view() == crate::timer::spec_reset(
                    old(self).timer_view(),
                    mono,
                    wall,
                ),
    {
        self.timer.reset();
    }

    /// New segment lengths, in whole seconds; a zero is stored as one second,
    /// since a zero-length segment would finish the instant it started.
    pub fn set_durations(&mut self, work_secs: u64, break_secs: u64)
        requires
            old(self).wf(),
        ensures
            final(self).wf(),
            final(self).vault_view() == old(self).vault_view(),
            final(self).pending_view() == old(self).pending_view(),
            final(self).unwritten_view() == old(self).unwritten_view(),
            final(self).integrations_view() == old(self).integrations_view(),
            final(self).timer_view() == crate::timer::spec_set_durations(
                old(self).timer_view(),
                (crate::settings::stored_secs(work_secs) as u128 * NANOS_PER_SEC) as u128,
                (crate::settings::stored_secs(break_secs) as u128 * NANOS_PER_SEC) as u128,
            ),
    {
        let work: u64 = if work_secs >= 1 {
            work_secs
        } else {
            1
        };
        let brk: u64 = if break_secs >= 1 {
            break_secs
        } else {
            1
        };
        self.timer.set_durations(work as u128 * NANOS_PER_SEC, brk as u128 * NANOS_PER_SEC);
    }

    /// Advance the timer and gather what hangs off a transition: the
    /// transitions to announce, the cold-start ones first since they happened
    /// before anything just observed; the segments that ended, onto the
    /// unwritten queue; and the state to write, when it is due.
    pub fn pump(&mut self) -> (r: Pumped)
        requires
            old(self).wf(),
        ensures
            final(self).wf(),
            exists|mono: u128, wall: i128|
                #![trigger readings_ok(mono, wall)]
                {
                    let (observed, fresh) = spec_observe(old(self).timer_view(), mono, wall);
                    &&& readings_ok(mono, wall)
                    &&& r.snapshot == state_at(observed, mono)
                    &&& r.transitions@ == old(self).pending_view() + fresh
                    &&& final(self).unwritten_view() == queued(old(self).unwritten_view(), observed.ended)
                    &&& final(self).timer_view() == (TimerModel { ended: Seq::empty(), ..observed })
                },
            r.persist matches Some(p) ==> exists|mono: u128, wall: i128|
                readings_ok(mono, wall) && p == spec_persisted(final(self).timer_view(), mono, wall),
            r.persist is None ==> exists|mono: u128|
                mono <= MAX_DURATION_NANOS && !spec_persist_due(final(self).timer_view(), mono),
            final(self).pending_view().len() == 0,
            final(self).vault_view() == old(self).vault_view(),
            final(self).integrations_view() == old(self).integrations_view(),
            final(self).config_dir_view() == old(self).config_dir_view(),
    {
        let ghost before = self.timer@;
        let (snapshot, mut fresh) = self.timer.observe();
        let ghost observed = self.timer@;
        let mut transitions = self.take_pending();
        let ghost pending = transitions@;
        transitions.append(&mut fresh);
        let ended = self.timer.take_ended();
        self.queue_sessions(ended);
        let persist = if self.timer.persist_due() {
            Some(self.timer.to_persisted())
        } else {
            None
        };
        Pumped { snapshot, transitions, persist }
    }

    /// The state handed out by the last pump reached the disk.
    pub fn persisted(&mut self)
        requires
            old(self).wf(),
        ensures
            final(self).wf(),
            exists|mono: u128|
                mono <= MAX_DURATION_NANOS && final(self).timer_view() == crate::timer::spec_mark_persisted(
                    old(self).timer_view(),
                    mono,
                ),
            final(self).vault_view() == old(self).vault_view(),
            final(self).pending_view() == old(self).pending_view(),
            final(self).unwritten_view() == old(self).unwritten_view(),
            final(self).integrations_view() == old(self).integrations_view(),
    {
        self.timer.mark_persisted();
    }
}

} // verus!
