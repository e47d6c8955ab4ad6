//! The four OS integrations and what to do when a platform will not give us
//! one. Every one of them is optional by construction: each records why it is
//! unavailable, and nothing throws.
//!
//! Here are the decisions and the text; the calls into the desktop shell are
//! made by the program around the library.

use vstd::prelude::*;

use crate::text::{digits, push_char, push_digits, push_str, push_zero_padded, zero_padded};
use crate::timer::{Phase, RunState, TimerState, Transition};

verus! {

/// Emitted whenever a segment ends or is voided.
pub const TRANSITION_EVENT: &'static str = "timer://transition";

/// Emitted once one or more session records have reached the disk.
pub const SESSION_EVENT: &'static str = "sessions://recorded";

/// Whether one integration is working right now.
#[derive(Debug, Clone, PartialEq, Eq)]
pub enum FeatureStatus {
    Ready,
    /// The user switched it off. Not a failure.
    Off,
    /// This platform cannot do it at all; retrying will not help.
    Unsupported { reason: String },
    /// The OS or the user said no, or something else owns it already.
    Denied { reason: String },
}

#[derive(Debug, Clone, PartialEq, Eq)]
pub struct IntegrationStatus {
    pub tray: FeatureStatus,
    pub shortcut: FeatureStatus,
    pub notification: FeatureStatus,
    pub autostart: FeatureStatus,
}

// Nothing is wired up until start-up says so, and "off" is the honest
// reading of that: claiming `Ready` before trying would make the UI lie.
impl Default for IntegrationStatus {
    fn default() -> (r: IntegrationStatus)
        ensures
            r.tray is Off,
            r.shortcut is Off,
            r.notification is Off,
            r.autostart is Off,
    {
        IntegrationStatus {
            tray: FeatureStatus::Off,
            shortcut: FeatureStatus::Off,
            notification: FeatureStatus::Off,
            autostart: FeatureStatus::Off,
        }
    }
}

/// What a request to close the main window does.
#[derive(Debug, Clone, Copy, PartialEq, Eq, Structural)]
pub enum OnClose {
    /// Keep running in the tray, with the window hidden.
    Hide,
    /// Let the window close.
    Close,
}

/// Closing the window only hides it while there is a tray to bring it back
/// from; without one the user would be left with a process they can neither
/// see nor quit, so then close means close.
pub fn on_close(tray_live: bool) -> (r: OnClose)
    ensures
        r == (if tray_live {
            OnClose::Hide
        } else {
            OnClose::Close
        }),
{
    if tray_live {
        OnClose::Hide
    } else {
        OnClose::Close
    }
}

/// A refusal, with the reason it came with.
pub fn denied(reason: String) -> (r: FeatureStatus)
    ensures
        r == (FeatureStatus::Denied { reason }),
{
    FeatureStatus::Denied { reason }
}

/// What a switch that took effect reads as: on is ready, off is off.
pub open spec fn switched(enabled: bool) -> FeatureStatus {
    if enabled {
        FeatureStatus::Ready
    } else {
        FeatureStatus::Off
    }
}

pub fn switched_status(enabled: bool) -> (r: FeatureStatus)
    ensures
        r == switched(enabled),
{
    if enabled {
        FeatureStatus::Ready
    } else {
        FeatureStatus::Off
    }
}

/// Launch at login, brought into line with what the OS has registered.
pub struct Reconciled {
    pub status: FeatureStatus,
    /// What to write back into `settings.toml`, when it disagreed.
    pub record: Option<bool>,
}

/// The OS is the source of truth for launch at login, not the settings file:
/// the user may have removed the login item in system settings, and it must
/// not quietly come back. When the two disagree the OS wins and the settings
/// are corrected to match.
pub fn reconcile(registered: bool, wanted: bool) -> (r: Reconciled)
    ensures
        r.status == switched(registered),
        r.record == if registered == wanted {
            None::<bool>
        } else {
            Some(registered)
        },
{
    let record = if registered == wanted {
        None
    } else {
        Some(registered)
    };
    Reconciled { status: switched_status(registered), record }
}

/// Where notification permission stands.
#[derive(Debug, Clone, Copy, PartialEq, Eq, Structural)]
pub enum Permission {
    Granted,
    Denied,
    Prompt,
    PromptWithRationale,
}

/// Not decided yet: worth asking once.
pub fn needs_asking(p: Permission) -> (r: bool)
    ensures
        r == (p == Permission::Prompt || p == Permission::PromptWithRationale),
{
    match p {
        Permission::Prompt | Permission::PromptWithRationale => true,
        _ => false,
    }
}

pub open spec fn permission_name(p: Permission) -> Seq<char> {
    match p {
        Permission::Granted => "Granted"@,
        Permission::Denied => "Denied"@,
        Permission::Prompt => "Prompt"@,
        Permission::PromptWithRationale => "PromptWithRationale"@,
    }
}

fn permission_name_str(p: Permission) -> (r: &'static str)
    ensures
        r@ == permission_name(p),
{
    match p {
        Permission::Granted => "Granted",
        Permission::Denied => "Denied",
        Permission::Prompt => "Prompt",
        Permission::PromptWithRationale => "PromptWithRationale",
    }
}

pub open spec fn not_granted_reason(p: Permission) -> Seq<char> {
    "the system has not granted notification permission ("@ + permission_name(p) + ")"@
}

/// Notifications are ready only once permission is granted.
pub fn notification_status(decided: Permission) -> (r: FeatureStatus)
    ensures
        decided == Permission::Granted ==> r is Ready,
        decided != Permission::Granted ==> (r matches FeatureStatus::Denied { reason } && reason@
            == not_granted_reason(decided)),
{
    match decided {
        Permission::Granted => FeatureStatus::Ready,
        other => {
            let mut reason = String::new();
            push_str(&mut reason, "the system has not granted notification permission (");
            push_str(&mut reason, permission_name_str(other));
            push_str(&mut reason, ")");
            FeatureStatus::Denied { reason }
        },
    }
}

/// "MM:SS", minutes not wrapping at the hour.
pub open spec fn clock_text(total_sec: u64) -> Seq<char> {
    zero_padded((total_sec / 60) as nat, 2) + seq![':'] + zero_padded((total_sec % 60) as nat, 2)
}

pub fn format_clock(total_sec: u64) -> (r: String)
    ensures
        r@ == clock_text(total_sec),
{
    let mut out = String::new();
    push_zero_padded(&mut out, total_sec / 60, 2);
    push_char(&mut out, ':');
    push_zero_padded(&mut out, total_sec % 60, 2);
    out
}

pub open spec fn phase_name(phase: Phase) -> Seq<char> {
    match phase {
        Phase::Work => "Work"@,
        Phase::Break => "Break"@,
    }
}

fn phase_name_str(phase: Phase) -> (r: &'static str)
    ensures
        r@ == phase_name(phase),
{
    match phase {
        Phase::Work => "Work",
        Phase::Break => "Break",
    }
}

/// What the tray shows: the text beside the icon, its tooltip, the first
/// menu entry, and the start/pause entry.
#[derive(Debug, Clone, PartialEq, Eq)]
pub struct Painted {
    pub title: String,
    pub tooltip: String,
    pub remaining: String,
    pub toggle: String,
}

/// The text beside the icon stays empty when nothing is counting: a number
/// frozen in the menu bar reads as a bug.
pub open spec fn title_text(s: TimerState) -> Seq<char> {
    match s.run {
        RunState::Running | RunState::Paused => clock_text(s.remaining_sec),
        _ => Seq::empty(),
    }
}

pub open spec fn remaining_text(s: TimerState) -> Seq<char> {
    let clock = clock_text(s.remaining_sec);
    let phase = phase_name(s.phase);
    match s.run {
        RunState::Running => clock + " left"@,
        RunState::Paused => "Paused at "@ + clock,
        RunState::Idle => phase + " "@ + clock + ", ready to start"@,
        RunState::Finished => "Last segment done — "@ + phase + " "@ + clock + ", ready to start"@,
        RunState::Invalidated => "Last segment voided by sleep"@,
    }
}

pub open spec fn toggle_text(s: TimerState) -> Seq<char> {
    match s.run {
        RunState::Running => "Pause"@,
        RunState::Paused => "Resume"@,
        _ => "Start"@,
    }
}

/// Every surface, for one reading of the timer. Each platform draws the ones
/// it has: the menu entry works everywhere, which is why the countdown is
/// repeated there.
pub fn painted(state: &TimerState) -> (r: Painted)
    ensures
        r.title@ == title_text(*state),
        r.remaining@ == remaining_text(*state),
        r.tooltip@ == "CalenPomo — "@ + phase_name(state.phase) + " "@ + remaining_text(*state),
        r.toggle@ == toggle_text(*state),
{
    let clock = format_clock(state.remaining_sec);
    let phase = phase_name_str(state.phase);
    let mut title = String::new();
    let mut remaining = String::new();
    match state.run {
        RunState::Running => {
            push_str(&mut title, clock.as_str());
            push_str(&mut remaining, clock.as_str());
            push_str(&mut remaining, " left");
        },
        RunState::Paused => {
            push_str(&mut title, clock.as_str());
            push_str(&mut remaining, "Paused at ");
            push_str(&mut remaining, clock.as_str());
        },
        RunState::Idle => {
            push_str(&mut remaining, phase);
            push_str(&mut remaining, " ");
            push_str(&mut remaining, clock.as_str());
            push_str(&mut remaining, ", ready to start");
        },
        RunState::Finished => {
            push_str(&mut remaining, "Last segment done — ");
            push_str(&mut remaining, phase);
            push_str(&mut remaining, " ");
            push_str(&mut remaining, clock.as_str());
            push_str(&mut remaining, ", ready to start");
        },
        RunState::Invalidated => {
            push_str(&mut remaining, "Last segment voided by sleep");
        },
    }
    let mut tooltip = String::new();
    push_str(&mut tooltip, "CalenPomo — ");
    push_str(&mut tooltip, phase);
    push_str(&mut tooltip, " ");
    push_str(&mut tooltip, remaining.as_str());
    let toggle = match state.run {
        RunState::Running => "Pause",
        RunState::Paused => "Resume",
        _ => "Start",
    };
    proof {
        reveal_strlit("");
    }
    assert(title@ =~= title_text(*state));
    assert(remaining@ =~= remaining_text(*state));
    Painted { title, tooltip, remaining, toggle: toggle.to_owned() }
}

/// Whether a repaint would change anything: every setter is a round trip to
/// the main thread, and at once a second forever that adds up.
pub fn same_paint(a: &Painted, b: &Painted) -> (r: bool)
    ensures
        r == (a.title@ == b.title@ && a.tooltip@ == b.tooltip@ && a.remaining@ == b.remaining@ && a.toggle@
            == b.toggle@),
{
    a.title == b.title && a.tooltip == b.tooltip && a.remaining == b.remaining && a.toggle == b.toggle
}

pub open spec fn announcement_title(t: Transition) -> Seq<char> {
    match t {
        Transition::Finished { phase, .. } => phase_name(phase) + " segment finished"@,
        Transition::Invalidated { .. } => "This pomodoro was voided"@,
    }
}

/// Only the break starts by itself, so the two hand-overs read differently:
/// one is already counting, the other waits on the user.
pub open spec fn announcement_body(t: Transition) -> Seq<char> {
    match t {
        Transition::Finished { next, .. } => match next {
            Phase::Work => "Break's over — start the next pomodoro."@,
            Phase::Break => "Focus done — your break has started, so get up and walk around."@,
        },
        Transition::Invalidated { slept_sec, .. } => "The computer slept for about "@ + digits(
            (slept_sec / 60) as nat,
        ) + " minutes while the timer ran, so this segment is not recorded."@,
    }
}

/// The notification for a transition, as a title and a body.
pub fn announcement(transition: &Transition) -> (r: (String, String))
    ensures
        r.0@ == announcement_title(*transition),
        r.1@ == announcement_body(*transition),
{
    let mut title = String::new();
    let mut body = String::new();
    match transition {
        Transition::Finished { phase, next, .. } => {
            push_str(&mut title, phase_name_str(*phase));
            push_str(&mut title, " segment finished");
            match next {
                Phase::Work => push_str(&mut body, "Break's over — start the next pomodoro."),
                Phase::Break => push_str(
                    &mut body,
                    "Focus done — your break has started, so get up and walk around.",
                ),
            }
        },
        Transition::Invalidated { slept_sec, .. } => {
            push_str(&mut title, "This pomodoro was voided");
            push_str(&mut body, "The computer slept for about ");
            push_digits(&mut body, *slept_sec / 60);
            push_str(&mut body, " minutes while the timer ran, so this segment is not recorded.");
        },
    }
    (title, body)
}

/// The tray menu entry that checks for updates, and what it says when it is
/// not doing anything. Checking is the one thing that ever goes over the
/// network, and only when the user picks this entry.
pub const UPDATES_MENU_ID: &'static str = "updates";

pub const UPDATES_MENU_IDLE: &'static str = "Check for Updates…";

/// How far a download has got, and the whole percent the menu entry last
/// showed (none yet: `u8::MAX`).
#[derive(Debug, Clone, Copy, PartialEq, Eq, Structural)]
pub struct Progress {
    pub downloaded: u64,
    pub shown: u8,
}

impl Progress {
    pub fn new() -> (r: Progress)
        ensures
            r.downloaded == 0,
            r.shown == u8::MAX,
    {
        Progress { downloaded: 0, shown: u8::MAX }
    }
}

/// The whole percent of `total` that `downloaded` bytes are, at most 100.
pub open spec fn percent_of(downloaded: u64, total: u64) -> u8 {
    let p = downloaded as int * 100 / total as int;
    (if p > 100 {
        100
    } else {
        p
    }) as u8
}

/// The entry's text while a download runs.
pub open spec fn downloading_text(percent: u8) -> Seq<char> {
    "Downloading… "@ + digits(percent as nat) + "%"@
}

/// One chunk of a download arrived, of a bundle `total` bytes long when the
/// host said. The menu entry is the only surface a download has, and every
/// change to it is a hop to the main thread, so it is told once per whole
/// percent and never when the length is unknown.
pub fn download_step(p: Progress, chunk: u64, total: Option<u64>) -> (r: (Progress, Option<String>))
    requires
        p.downloaded + chunk <= u64::MAX,
    ensures
        r.0.downloaded == p.downloaded + chunk,
        match total {
            Some(t) if t > 0 => {
                let percent = percent_of((p.downloaded + chunk) as u64, t);
                if percent != p.shown {
                    r.0.shown == percent && (r.1 matches Some(text) && text@ == downloading_text(percent))
                } else {
                    r.0.shown == p.shown && r.1 is None
                }
            },
            _ => r.0.shown == p.shown && r.1 is None,
        },
{
    let downloaded = p.downloaded + chunk;
    let t = match total {
        Some(t) => {
            if t > 0 {
                t
            } else {
                return (Progress { downloaded, shown: p.shown }, None);
            }
        },
        None => return (Progress { downloaded, shown: p.shown }, None),
    };
    let whole = downloaded as u128 * 100 / t as u128;
    let percent: u8 = if whole > 100 {
        100
    } else {
        whole as u8
    };
    if percent == p.shown {
        return (Progress { downloaded, shown: p.shown }, None);
    }
    let mut text = String::new();
    push_str(&mut text, "Downloading… ");
    push_digits(&mut text, percent as u64);
    push_str(&mut text, "%");
    proof {
        reveal_strlit("Downloading… ");
        reveal_strlit("%");
    }
    (Progress { downloaded, shown: percent }, Some(text))
}

/// One entry of the tray's menu.
#[derive(Debug, Clone, Copy, PartialEq, Eq)]
pub enum MenuEntry {
    /// An item, with the id its clicks arrive under, its text, and whether
    /// it can be clicked.
    Item { id: &'static str, label: &'static str, enabled: bool },
    Separator,
}

pub open spec fn item_is(e: MenuEntry, id: Seq<char>, label: Seq<char>, enabled: bool) -> bool {
    e matches MenuEntry::Item { id: i, label: l, enabled: en } && i@ == id && l@ == label && en == enabled
}

/// The tray's menu, top to bottom: the countdown (text only, repainted every
/// second), then start/pause and reset, then showing the window, the update
/// check and quitting.
pub fn tray_menu() -> (r: Vec<MenuEntry>)
    ensures
        r@.len() == 8,
        item_is(r@[0], "remaining"@, "--:--"@, false),
        r@[1] is Separator,
        item_is(r@[2], "toggle"@, "Start"@, true),
        item_is(r@[3], "reset"@, "Reset"@, true),
        r@[4] is Separator,
        item_is(r@[5], "show"@, "Show window"@, true),
        item_is(r@[6], UPDATES_MENU_ID@, UPDATES_MENU_IDLE@, true),
        item_is(r@[7], "quit"@, "Quit"@, true),
{
    vec![
        MenuEntry::Item { id: "remaining", label: "--:--", enabled: false },
        MenuEntry::Separator,
        MenuEntry::Item { id: "toggle", label: "Start", enabled: true },
        MenuEntry::Item { id: "reset", label: "Reset", enabled: true },
        MenuEntry::Separator,
        MenuEntry::Item { id: "show", label: "Show window", enabled: true },
        MenuEntry::Item { id: UPDATES_MENU_ID, label: UPDATES_MENU_IDLE, enabled: true },
        MenuEntry::Item { id: "quit", label: "Quit", enabled: true },
    ]
}

/// What a click on a tray menu item asks for.
#[derive(Debug, Clone, Copy, PartialEq, Eq, Structural)]
pub enum MenuAction {
    Toggle,
    Reset,
    ShowWindow,
    CheckForUpdates,
    Quit,
}

/// The action behind a menu item's id; the countdown item and anything
/// unknown do nothing.
pub fn menu_action(id: &str) -> (r: Option<MenuAction>)
    ensures
        r == (if id@ == "toggle"@ {
            Some(MenuAction::Toggle)
        } else if id@ == "reset"@ {
            Some(MenuAction::Reset)
        } else if id@ == "show"@ {
            Some(MenuAction::ShowWindow)
        } else if id@ == UPDATES_MENU_ID@ {
            Some(MenuAction::CheckForUpdates)
        } else if id@ == "quit"@ {
            Some(MenuAction::Quit)
        } else {
            None
        }),
{
    if crate::text::str_eq(id, "toggle") {
        Some(MenuAction::Toggle)
    } else if crate::text::str_eq(id, "reset") {
        Some(MenuAction::Reset)
    } else if crate::text::str_eq(id, "show") {
        Some(MenuAction::ShowWindow)
    } else if crate::text::str_eq(id, UPDATES_MENU_ID) {
        Some(MenuAction::CheckForUpdates)
    } else if crate::text::str_eq(id, "quit") {
        Some(MenuAction::Quit)
    } else {
        None
    }
}

/// Why there is no tray when the build carries no window icon to reuse.
pub fn no_tray_icon() -> (r: crate::error::AppError)
    ensures
        r matches crate::error::AppError::Integration { feature, reason } && feature@ == "tray"@ && reason@
            == "this build has no window icon to reuse"@,
{
    crate::error::AppError::Integration {
        feature: "tray".to_owned(),
        reason: "this build has no window icon to reuse".to_owned(),
    }
}

} // verus!
