use calenpomo::integrations::{menu_action, no_tray_icon, tray_menu, MenuAction, MenuEntry, UPDATES_MENU_ID};
use calenpomo::integrations::{on_close, OnClose};
use calenpomo::ipc::{nobody_listening, ConnectFailure};
use calenpomo::ipc::{answer, Request};
use std::cell::RefCell;
use calenpomo::cli::choose_vault_path;
use calenpomo::commands::{AppState, CountdownSupport, Platform, VaultStatus, MAX_UNWRITTEN};
use calenpomo::error::{AppError, IoResultExt};
use calenpomo::fs_atomic::{ends_mid_line, frame_jsonl, JsonlRead};
use calenpomo::integrations::{
    announcement, denied, download_step, Progress, UPDATES_MENU_IDLE, format_clock, needs_asking, notification_status, painted, reconcile, same_paint,
    FeatureStatus, IntegrationStatus, Permission,
};
use calenpomo::ipc::{check_reply, fingerprint, not_understood, socket_path, FailureStreak, Response};
use calenpomo::sessions::{new_id, session_of, within, Session, SessionView, Stamp};
use calenpomo::settings::{settings_path, Settings, DEFAULT_SHORTCUT};
use calenpomo::timer::{Ended, Outcome, Phase, RunState, TimerState, Transition};
use calenpomo::vault::{SkeletonReport, Vault};

use std::cell::Cell;

#[test]
fn only_terminated_lines_are_framed_and_crlf_is_tolerated() {
    let framed = frame_jsonl(&b"{\"a\":1}\r\n\n  \n{\"b\":2}\n{\"half".to_vec());
    assert!(framed.truncated_tail);
    assert_eq!(framed.lines.len(), 2);
    assert_eq!(framed.lines[0].line_no, 1);
    assert_eq!(framed.lines[0].bytes, b"{\"a\":1}".to_vec());
    assert_eq!(framed.lines[1].line_no, 4);
    assert_eq!(framed.lines[1].bytes, b"{\"b\":2}".to_vec());
}

#[test]
fn a_clean_file_has_no_truncated_tail() {
    let framed = frame_jsonl(&b"{}\n".to_vec());
    assert!(!framed.truncated_tail);
    assert_eq!(framed.lines.len(), 1);
    let empty = frame_jsonl(&Vec::new());
    assert!(!empty.truncated_tail && empty.lines.is_empty());
}

#[test]
fn an_append_breaks_a_line_left_unterminated() {
    assert!(ends_mid_line(Some(b'}')));
    assert!(!ends_mid_line(Some(b'\n')));
    assert!(!ends_mid_line(None));
}

#[test]
fn an_empty_read_holds_nothing() {
    let read: JsonlRead<u8> = JsonlRead::empty();
    assert!(read.records.is_empty() && read.corrupt.is_empty() && !read.truncated_tail);
}

#[test]
fn the_socket_sits_beside_the_settings() {
    assert!(socket_path("/config").ends_with("cli.sock"));
    assert!(settings_path("/config").ends_with("settings.toml"));
}

#[test]
fn the_pipe_fingerprint_is_fnv1a() {
    assert_eq!(fingerprint(b""), 0xcbf2_9ce4_8422_2325);
    assert_eq!(fingerprint(b"a"), 0xaf63_dc4c_8601_ec8c);
    assert_ne!(fingerprint(b"/home/a"), fingerprint(b"/home/b"));
}

#[test]
fn an_empty_reply_is_a_protocol_error() {
    match check_reply("  \n") {
        Err(AppError::IpcProtocol(m)) => assert_eq!(m, "the app closed the connection without answering"),
        _ => panic!("expected a protocol error"),
    }
    assert!(check_reply("{\"reply\":\"started\"}\n").is_ok());
}

#[test]
fn an_unreadable_request_is_answered_not_dropped() {
    assert_eq!(
        not_understood("bad tag"),
        Response::Refused { reason: "this WabiCalendar does not understand the request (bad tag)".to_string() }
    );
}

#[test]
fn the_server_gives_up_after_sixteen_failures_in_a_row() {
    let mut streak = FailureStreak::new();
    for _ in 0..15 {
        streak.record(false);
    }
    assert!(streak.keep_serving());
    streak.record(true);
    assert_eq!(streak.failures, 0);
    for _ in 0..16 {
        streak.record(false);
    }
    assert!(!streak.keep_serving());
}

#[test]
fn absent_settings_read_as_unconfigured() {
    let s = Settings::default();
    assert_eq!(s.vault_path, None);
    assert_eq!(s.shortcut_toggle.as_deref(), Some(DEFAULT_SHORTCUT));
    assert!(!s.autostart);
    assert_eq!((s.work_secs, s.break_secs), (1500, 300));
}

#[test]
fn a_zero_length_is_stored_as_a_second() {
    let mut s = Settings::default();
    s.set_durations(0, 600);
    assert_eq!((s.work_secs, s.break_secs), (1, 600));
    assert_eq!(s.shortcut_toggle.as_deref(), Some(DEFAULT_SHORTCUT));
}

#[test]
fn integrations_start_off() {
    let s = IntegrationStatus::default();
    assert_eq!(s.tray, FeatureStatus::Off);
    assert_eq!(s.shortcut, FeatureStatus::Off);
    assert_eq!(s.notification, FeatureStatus::Off);
    assert_eq!(s.autostart, FeatureStatus::Off);
}

#[test]
fn the_os_wins_over_the_settings_file_for_launch_at_login() {
    let r = reconcile(false, true);
    assert_eq!(r.status, FeatureStatus::Off);
    assert_eq!(r.record, Some(false));
    let r = reconcile(true, true);
    assert_eq!(r.status, FeatureStatus::Ready);
    assert_eq!(r.record, None);
    assert_eq!(denied("taken".to_string()), FeatureStatus::Denied { reason: "taken".to_string() });
}

#[test]
fn notifications_are_ready_only_once_granted() {
    assert!(needs_asking(Permission::Prompt));
    assert!(!needs_asking(Permission::Denied));
    assert_eq!(notification_status(Permission::Granted), FeatureStatus::Ready);
    assert_eq!(
        notification_status(Permission::Denied),
        FeatureStatus::Denied { reason: "the system has not granted notification permission (Denied)".to_string() }
    );
}

#[test]
fn the_clock_reads_minutes_and_seconds() {
    assert_eq!(format_clock(0), "00:00");
    assert_eq!(format_clock(1499), "24:59");
    assert_eq!(format_clock(6000), "100:00");
}

fn state(run: RunState) -> TimerState {
    TimerState { phase: Phase::Work, run, planned_sec: 1500, elapsed_sec: 60, remaining_sec: 1440 }
}

#[test]
fn the_tray_shows_the_countdown_only_while_it_counts() {
    let p = painted(&state(RunState::Running));
    assert_eq!(p.title, "24:00");
    assert_eq!(p.remaining, "24:00 left");
    assert_eq!(p.tooltip, "CalenPomo — Work 24:00 left");
    assert_eq!(p.toggle, "Pause");
    let p = painted(&state(RunState::Paused));
    assert_eq!(p.remaining, "Paused at 24:00");
    assert_eq!(p.toggle, "Resume");
    let p = painted(&state(RunState::Idle));
    assert_eq!(p.title, "");
    assert_eq!(p.remaining, "Work 24:00, ready to start");
    assert_eq!(p.toggle, "Start");
    let p = painted(&state(RunState::Finished));
    assert_eq!(p.remaining, "Last segment done — Work 24:00, ready to start");
    let p = painted(&state(RunState::Invalidated));
    assert_eq!(p.remaining, "Last segment voided by sleep");
    assert!(same_paint(&p, &painted(&state(RunState::Invalidated))));
    assert!(!same_paint(&p, &painted(&state(RunState::Idle))));
}

#[test]
fn the_two_hand_overs_read_differently() {
    let (title, body) =
        announcement(&Transition::Finished { phase: Phase::Work, next: Phase::Break, planned_sec: 1500 });
    assert_eq!(title, "Work segment finished");
    assert_eq!(body, "Focus done — your break has started, so get up and walk around.");
    let (title, body) =
        announcement(&Transition::Finished { phase: Phase::Break, next: Phase::Work, planned_sec: 300 });
    assert_eq!(title, "Break segment finished");
    assert_eq!(body, "Break's over — start the next pomodoro.");
    let (title, body) =
        announcement(&Transition::Invalidated { phase: Phase::Work, elapsed_sec: 600, slept_sec: 1250 });
    assert_eq!(title, "This pomodoro was voided");
    assert_eq!(
        body,
        "The computer slept for about 20 minutes while the timer ran, so this segment is not recorded."
    );
}

#[test]
fn the_countdown_surfaces_differ_by_platform() {
    assert_eq!(CountdownSupport::on(Platform::Windows), CountdownSupport { title: false, tooltip: true, menu_item: true });
    assert_eq!(CountdownSupport::on(Platform::Linux), CountdownSupport { title: true, tooltip: false, menu_item: true });
    assert_eq!(CountdownSupport::on(Platform::MacOs), CountdownSupport { title: true, tooltip: true, menu_item: true });
}

fn ended(actual_sec: u64) -> Ended {
    Ended {
        phase: Phase::Work,
        planned_sec: 1500,
        actual_sec,
        started_at: 0,
        ended_at: 0,
        outcome: Outcome::Completed,
        label: None,
    }
}

fn with_vault() -> AppState {
    let mut app = AppState::new("/config".to_string(), &Settings::default(), None);
    let opened = app.open_and_remember(Ok((Vault::at("/v".to_string()), SkeletonReport { created: Vec::new() })));
    assert!(opened.is_ok());
    app
}

#[test]
fn the_unwritten_queue_drops_its_oldest_past_the_cap() {
    let mut app = AppState::new("/config".to_string(), &Settings::default(), None);
    assert_eq!(app.drain_sessions((0..200).map(ended).collect(), |_, _| true), 0, "no vault, nothing lands");
    assert_eq!(app.drain_sessions((200..300).map(ended).collect(), |_, _| true), 0);
    let opened = app.open_and_remember(Ok((Vault::at("/v".to_string()), SkeletonReport { created: Vec::new() })));
    assert!(opened.is_ok());
    let seen = RefCell::new(Vec::new());
    let landed = app.drain_sessions(Vec::new(), |_, e| {
        seen.borrow_mut().push(e.actual_sec);
        true
    });
    let seen = seen.into_inner();
    assert_eq!(landed, MAX_UNWRITTEN);
    assert_eq!(seen.len(), MAX_UNWRITTEN);
    assert_eq!(seen[0], 300 - MAX_UNWRITTEN as u64);
    assert_eq!(seen[MAX_UNWRITTEN - 1], 299);
    assert_eq!(app.drain_sessions(Vec::new(), |_, _| true), 0, "the queue is empty now");
}

#[test]
fn draining_stops_at_the_first_failed_write_and_keeps_the_rest() {
    let mut app = with_vault();
    let seen = RefCell::new(Vec::new());
    let landed = app.drain_sessions((0..5).map(ended).collect(), |v, e| {
        assert_eq!(v.root(), "/v");
        seen.borrow_mut().push(e.actual_sec);
        e.actual_sec != 2
    });
    assert_eq!(landed, 2);
    assert_eq!(seen.borrow().clone(), vec![0, 1, 2], "nothing after the failure is tried");
    seen.borrow_mut().clear();
    let landed = app.drain_sessions(vec![ended(5)], |_, e| {
        seen.borrow_mut().push(e.actual_sec);
        true
    });
    assert_eq!(landed, 4);
    assert_eq!(seen.into_inner(), vec![2, 3, 4, 5], "the failed one is retried first");
}

#[test]
fn a_command_without_a_vault_fails_with_no_vault() {
    let app = AppState::new("/config".to_string(), &Settings::default(), None);
    assert!(matches!(app.with_vault(), Err(AppError::NoVault)));
    assert!(app.vault().is_none());
    assert_eq!(app.config_dir(), "/config");
}

#[test]
fn a_missing_vault_asks_again_rather_than_failing() {
    let mut app = AppState::new("/config".to_string(), &Settings::default(), None);
    let status = app.open_and_remember(Err(AppError::VaultMissing("/Volumes/usb".to_string())));
    assert_eq!(status.ok(), Some(VaultStatus::Missing { path: "/Volumes/usb".to_string() }));
    let status = app.open_and_remember(Ok((Vault::at("/v".to_string()), SkeletonReport { created: vec!["sessions".to_string()] })));
    assert_eq!(status.ok(), Some(VaultStatus::Ready { path: "/v".to_string(), rebuilt: vec!["sessions".to_string()] }));
    assert!(app.with_vault().is_ok());
    assert!(matches!(app.open_and_remember(Err(AppError::NoConfigDir)), Err(AppError::NoConfigDir)));
    assert!(app.with_vault().is_ok(), "another failure leaves the open vault alone");
}

#[test]
fn a_pump_hands_out_what_the_restore_found_first() {
    let mut app = AppState::new("/config".to_string(), &Settings::default(), None);
    let pumped = app.pump();
    assert!(pumped.transitions.is_empty());
    assert_eq!(pumped.snapshot.run, RunState::Idle);
    app.start_timer();
    assert_eq!(app.timer().state().run, RunState::Running);
    app.toggle_timer();
    assert_eq!(app.timer().state().run, RunState::Paused);
    app.reset_timer();
    assert_eq!(app.timer().state().run, RunState::Idle);
    app.set_durations(0, 60);
    assert_eq!(app.timer().durations(), (1_000_000_000, 60_000_000_000));
    assert!(app.take_pending().is_empty());
    let pumped = app.pump();
    assert!(pumped.persist.is_some(), "a change is due for writing");
    app.persisted();
    assert!(!app.timer().persist_due());
}

#[test]
fn the_vault_is_chosen_most_specific_first() {
    let asked = Cell::new(0);
    let remembered = || {
        asked.set(asked.get() + 1);
        Ok(Some("/remembered".to_string()))
    };
    assert_eq!(choose_vault_path(Some("/flag".to_string()), Some("/env".to_string()), remembered).ok(), Some("/flag".to_string()));
    assert_eq!(asked.get(), 0, "settings are not read when --vault answered");
    let remembered = || {
        asked.set(asked.get() + 1);
        Err(AppError::NoConfigDir)
    };
    assert_eq!(choose_vault_path(None, Some("/env".to_string()), remembered).ok(), Some("/env".to_string()));
    assert_eq!(asked.get(), 0);
    assert!(matches!(choose_vault_path(None, None, || Ok(None)), Err(AppError::VaultUnset)));
    assert_eq!(choose_vault_path(None, None, || Ok(Some("/r".to_string()))).ok(), Some("/r".to_string()));
}

fn stored(id: &str, start: i128, end: i128) -> Session {
    Session {
        id: id.to_string(),
        kind: Phase::Work,
        planned_sec: 1500,
        actual_sec: 1500,
        started_at: Stamp { at: start, offset_sec: 32400 },
        ended_at: Stamp { at: end, offset_sec: 32400 },
        outcome: Outcome::Completed,
        label: None,
    }
}

#[test]
fn sessions_outside_the_window_are_left_out_and_the_rest_come_back_in_order() {
    let s = 1_000_000_000i128;
    let found = within(
        vec![stored("c", 300 * s, 400 * s), stored("x", 0, 100 * s), stored("a", 200 * s, 250 * s), stored("b", 200 * s, 260 * s)],
        100 * s,
        1000 * s,
    );
    let ids: Vec<&str> = found.iter().map(|x| x.id.as_str()).collect();
    assert_eq!(ids, vec!["a", "b", "c"], "a session ending when the window opens belongs to the one before");
}

#[test]
fn a_recorded_session_carries_the_segment_and_its_label() {
    let mut e = ended(1500);
    e.label = Some("写论文".to_string());
    e.started_at = 10;
    e.ended_at = 20;
    let s = session_of(&e, new_id(5, 6, 7), 32400, 32400);
    assert_eq!(s.id, "5-6-7");
    assert_eq!(s.started_at, Stamp { at: 10, offset_sec: 32400 });
    assert_eq!(s.label.as_deref(), Some("写论文"));
    let v = SessionView::of(&s);
    assert_eq!(v.id, s.id);
    assert_eq!(v.actual_sec, 1500);
}

#[test]
fn errors_say_what_went_wrong() {
    assert_eq!(AppError::BackwardsEvent.to_message(), "an event has to end after it starts");
    assert_eq!(AppError::EventNotFound("x".to_string()).to_message(), "no event with uid \"x\"");
    assert_eq!(AppError::NoVault.to_message(), "no vault is open");
}

#[test]
fn a_vault_names_its_parts() {
    let v = Vault::at("/v".to_string());
    assert_eq!(v.root(), "/v");
    assert!(v.calendar_dir().ends_with("calendar"));
    assert!(v.sessions_dir().ends_with("sessions"));
    assert!(v.index_dir().ends_with(".index"));
    assert!(v.lock_path().ends_with("write.lock"));
    assert!(v.config_path().ends_with("config.toml"));
    assert!(v.calendar_file(2026, 7).ends_with("2026-07.ics"));
    assert!(v.sessions_file(2026, 7, 23).ends_with("2026-07-23.jsonl"));
}

#[test]
fn an_io_failure_names_the_path_it_happened_at() {
    let failed: std::io::Result<u8> = Err(std::io::Error::new(std::io::ErrorKind::Other, "disk on fire"));
    let err = failed.at("/v/calendar").unwrap_err();
    assert_eq!(err, AppError::Io { path: "/v/calendar".to_string(), reason: "disk on fire".to_string() });
    assert_eq!(err.to_message(), "/v/calendar: disk on fire");
    let fine: std::io::Result<u8> = Ok(7);
    assert_eq!(fine.at("/v/calendar"), Ok(7));
}

fn stored_settings() -> Settings {
    Settings {
        vault_path: Some("/Users/someone/MyVault".to_string()),
        shortcut_toggle: Some("Alt+F1".to_string()),
        autostart: false,
        work_secs: 3000,
        break_secs: 600,
    }
}

#[test]
fn an_update_changes_one_field_and_saves_what_it_returns() {
    let saved = RefCell::new(None);
    let updated = Settings::update(
        || Ok(stored_settings()),
        |mut s| {
            s.autostart = true;
            s
        },
        |s| {
            *saved.borrow_mut() = Some(s.clone());
            Ok(())
        },
    );
    let expected = Settings { autostart: true, ..stored_settings() };
    assert_eq!(updated, Ok(expected.clone()));
    assert_eq!(saved.into_inner(), Some(expected), "every other field survives");
}

#[test]
fn a_settings_file_that_cannot_be_read_is_not_overwritten() {
    let saved = RefCell::new(false);
    let bad = AppError::TomlDecode { path: "/config/settings.toml".to_string(), reason: "expected `=`".to_string() };
    let updated = Settings::update(
        || Err(bad.clone()),
        |s| s,
        |_| {
            *saved.borrow_mut() = true;
            Ok(())
        },
    );
    assert_eq!(updated, Err(bad));
    assert!(!saved.into_inner());
}

#[test]
fn a_failed_save_is_handed_back() {
    let full = AppError::Io { path: "/config/settings.toml".to_string(), reason: "no space left on device".to_string() };
    let updated = Settings::update(|| Ok(stored_settings()), |s| s, |_| Err(full.clone()));
    assert_eq!(updated, Err(full));
}

#[test]
fn an_explicit_vault_beats_both_of_the_others() {
    let path = choose_vault_path(Some("/explicit".to_string()), Some("/env".to_string()), || {
        Ok(Some("/remembered".to_string()))
    })
    .expect("choose");
    assert_eq!(path, "/explicit");
}

#[test]
fn the_environment_beats_what_the_app_remembers() {
    let path = choose_vault_path(None, Some("/env".to_string()), || Ok(Some("/remembered".to_string()))).expect("choose");
    assert_eq!(path, "/env");
}

#[test]
fn the_remembered_vault_is_the_fallback() {
    let path = choose_vault_path(None, None, || Ok(Some("/remembered".to_string()))).expect("choose");
    assert_eq!(path, "/remembered");
}

#[test]
fn settings_are_not_read_at_all_when_something_more_specific_answered() {
    let consulted = std::cell::Cell::new(false);
    choose_vault_path(Some("/explicit".to_string()), None, || {
        consulted.set(true);
        Err(AppError::VaultUnset)
    })
    .expect("choose");
    assert!(!consulted.get(), "settings.toml was read anyway");
}

#[test]
fn nothing_anywhere_is_an_actionable_message_rather_than_a_guess() {
    let err = choose_vault_path(None, None, || Ok(None)).expect_err("should fail");
    assert!(matches!(err, AppError::VaultUnset), "{err:?}");
    // The one error here whose text is the whole point of it.
    assert!(err.to_message().contains("--vault"), "{}", err.to_message());
}

#[test]
fn updating_one_field_leaves_the_others_alone() {
    // What was saved before the update.
    let on_disk = RefCell::new(Settings { autostart: true, work_secs: 3000, ..Settings::default() });
    Settings::update(
        || Ok(on_disk.borrow().clone()),
        |mut s| {
            s.vault_path = Some("/tmp/vault".to_string());
            s
        },
        |s| {
            *on_disk.borrow_mut() = s.clone();
            Ok(())
        },
    )
    .expect("update");
    let settings = on_disk.into_inner();
    assert_eq!(settings.vault_path, Some("/tmp/vault".to_string()));
    assert!(settings.autostart, "autostart was clobbered");
    assert_eq!(settings.work_secs, 3000, "work_secs was clobbered");
}

#[test]
fn a_download_reports_each_whole_percent_once() {
    let p = Progress::new();
    let (p, text) = download_step(p, 10, Some(1000));
    assert_eq!(text.as_deref(), Some("Downloading… 1%"));
    let (p, text) = download_step(p, 5, Some(1000));
    assert_eq!(text, None, "still one percent");
    let (p, text) = download_step(p, 985, Some(1000));
    assert_eq!(text.as_deref(), Some("Downloading… 100%"));
    assert_eq!(p.downloaded, 1000);
    let (p, text) = download_step(p, 1, None);
    assert_eq!(text, None, "an unknown length says nothing");
    let (p, text) = download_step(p, 1, Some(0));
    assert_eq!(text, None);
    assert_eq!(p.downloaded, 1002);
    assert_eq!(UPDATES_MENU_IDLE, "Check for Updates…");
}

#[test]
fn closing_the_window_hides_it_only_while_the_tray_can_bring_it_back() {
    assert_eq!(on_close(true), OnClose::Hide);
    assert_eq!(on_close(false), OnClose::Close);
}

#[test]
fn no_socket_or_nobody_listening_means_no_app_anything_else_is_an_error() {
    assert!(nobody_listening(ConnectFailure::NotFound));
    assert!(nobody_listening(ConnectFailure::Refused));
    assert!(!nobody_listening(ConnectFailure::Other));
}

#[test]
fn a_request_is_handed_on_an_unreadable_one_refused_and_a_hang_up_left_alone() {
    let handler = |q: Request| match q {
        Request::Start { label, planned_sec, .. } => Response::Started { planned_sec: planned_sec.unwrap_or(1500), label },
    };
    let asked = Request::Start { label: Some("写论文".to_string()), planned_sec: Some(600), vault: None };
    assert_eq!(
        answer(Some(Ok(asked)), &handler),
        Some(Response::Started { planned_sec: 600, label: Some("写论文".to_string()) })
    );
    assert_eq!(
        answer(Some(Err("unknown variant `stop`".to_string())), &handler),
        Some(Response::Refused {
            reason: "this WabiCalendar does not understand the request (unknown variant `stop`)".to_string()
        })
    );
    assert_eq!(answer(None, &handler), None);
}

#[test]
fn no_settings_file_reads_as_the_defaults_and_a_bad_one_stays_an_error() {
    let first = Settings::loaded(None).expect("defaults");
    assert_eq!(first, Settings::default());
    let bad = Settings::loaded(Some(Err(AppError::TomlDecode { path: "s.toml".to_string(), reason: "x".to_string() })));
    assert!(bad.is_err());
}

#[test]
fn the_tray_menu_lists_its_entries_in_order() {
    let menu = tray_menu();
    assert_eq!(
        menu,
        vec![
            MenuEntry::Item { id: "remaining", label: "--:--", enabled: false },
            MenuEntry::Separator,
            MenuEntry::Item { id: "toggle", label: "Start", enabled: true },
            MenuEntry::Item { id: "reset", label: "Reset", enabled: true },
            MenuEntry::Separator,
            MenuEntry::Item { id: "show", label: "Show window", enabled: true },
            MenuEntry::Item { id: UPDATES_MENU_ID, label: UPDATES_MENU_IDLE, enabled: true },
            MenuEntry::Item { id: "quit", label: "Quit", enabled: true },
        ]
    );
}

#[test]
fn each_clickable_tray_item_has_its_action() {
    assert_eq!(menu_action("toggle"), Some(MenuAction::Toggle));
    assert_eq!(menu_action("reset"), Some(MenuAction::Reset));
    assert_eq!(menu_action("show"), Some(MenuAction::ShowWindow));
    assert_eq!(menu_action("updates"), Some(MenuAction::CheckForUpdates));
    assert_eq!(menu_action("quit"), Some(MenuAction::Quit));
    assert_eq!(menu_action("remaining"), None);
    assert_eq!(menu_action("Quit"), None);
}

#[test]
fn a_tray_without_an_icon_is_an_integration_error() {
    match no_tray_icon() {
        AppError::Integration { feature, reason } => {
            assert_eq!(feature, "tray");
            assert_eq!(reason, "this build has no window icon to reuse");
        }
        other => panic!("unexpected {other:?}"),
    }
}
