use calenpomo::calendar::blocks::{
    duration_of, in_order, occurrences, search_start, shards_up_to, whole_seconds, window_blocks, Vevent,
    IMPLIED_ALL_DAY_NANOS, IMPLIED_NANOS, MAX_WIDEN_NANOS,
};
use calenpomo::calendar::store::YearMonth;
use calenpomo::calendar::{
    canonical, check, format_copy_key, locate, new_uid, plan_delete, plan_update, rank_below, written_block, CalEvent,
    Chosen, Found, EditPlan, EventDraft, Rank,
};
use calenpomo::error::AppError;

const NS: i128 = 1_000_000_000;
const HOUR: i128 = 3600 * NS;
/// 2026-07-23T00:00:00Z.
const JULY_23: i128 = 1_784_764_800 * NS;

const JULY: YearMonth = YearMonth { year: 2026, month: 7 };
const AUGUST: YearMonth = YearMonth { year: 2026, month: 8 };

fn rank(sequence: u32, revised: Option<i128>, at_home: bool) -> Rank {
    Rank { sequence, revised, at_home }
}

fn copy(shard: YearMonth, index: usize, uid: &str, rank: Rank) -> Found {
    Found { shard, index, uid: uid.to_string(), rank, recurring: false }
}

fn draft(summary: &str, start: i128, end: i128) -> EventDraft {
    EventDraft { summary: summary.to_string(), start, end }
}

#[test]
fn a_draft_that_ends_before_it_starts_is_refused() {
    assert!(matches!(check(&draft("x", JULY_23 + HOUR, JULY_23)), Err(AppError::BackwardsEvent)));
    assert!(matches!(check(&draft("x", JULY_23, JULY_23)), Err(AppError::BackwardsEvent)));
    assert!(check(&draft("x", JULY_23, JULY_23 + HOUR)).is_ok());
}

#[test]
fn a_written_event_is_drawn_as_a_one_off_timed_block() {
    let b = written_block("u1", &draft("写论文", JULY_23, JULY_23 + HOUR));
    assert_eq!(
        b,
        CalEvent {
            id: "u1".to_string(),
            uid: "u1".to_string(),
            summary: "写论文".to_string(),
            start: JULY_23,
            end: JULY_23 + HOUR,
            recurring: false,
            all_day: false,
        }
    );
}

#[test]
fn a_new_uid_carries_its_parts_and_the_app_name() {
    assert_eq!(new_uid(1_784_764_800_123_456_789, 4242, 7), "1784764800123456789-4242-7@wabicalendar");
}

#[test]
fn a_copy_key_names_the_shard_and_the_position() {
    assert_eq!(format_copy_key(JULY, 3), "2026-07#3");
}

#[test]
fn ranks_order_by_revision_then_by_home() {
    assert!(rank_below(&rank(0, None, true), &rank(1, None, false)));
    assert!(rank_below(&rank(1, None, true), &rank(1, Some(5), false)));
    assert!(rank_below(&rank(1, Some(4), true), &rank(1, Some(5), false)));
    assert!(rank_below(&rank(1, Some(5), false), &rank(1, Some(5), true)));
    assert!(!rank_below(&rank(1, Some(5), true), &rank(1, Some(5), true)));
}

/// What a crash between the two writes of a cross-month move leaves: the
/// newer revision is the one shown.
#[test]
fn an_event_left_in_two_shards_is_shown_once() {
    let copies = vec![
        copy(JULY, 0, "moved", rank(0, Some(1), true)),
        copy(AUGUST, 0, "moved", rank(1, Some(2), true)),
    ];
    let chosen = canonical(&copies);
    assert_eq!(chosen, vec![Chosen { key: "2026-08#0".to_string(), copy: 1 }]);
    assert_eq!(locate(&copies, "moved"), Some(1));
}

#[test]
fn a_tie_goes_to_the_oldest_shard() {
    let copies = vec![copy(JULY, 2, "same", rank(0, None, true)), copy(AUGUST, 0, "same", rank(0, None, true))];
    assert_eq!(canonical(&copies), vec![Chosen { key: "2026-07#2".to_string(), copy: 0 }]);
    assert_eq!(locate(&copies, "same"), Some(0));
}

#[test]
fn uids_come_out_in_order_and_anonymous_events_last() {
    let copies = vec![
        copy(JULY, 0, "", rank(0, None, true)),
        copy(JULY, 1, "b", rank(0, None, true)),
        copy(JULY, 2, "a", rank(0, None, true)),
        copy(AUGUST, 0, "", rank(0, None, true)),
    ];
    assert_eq!(
        canonical(&copies),
        vec![
            Chosen { key: "2026-07#2".to_string(), copy: 2 },
            Chosen { key: "2026-07#1".to_string(), copy: 1 },
            Chosen { key: "2026-07#0".to_string(), copy: 0 },
            Chosen { key: "2026-08#0".to_string(), copy: 3 },
        ]
    );
}

#[test]
fn an_event_with_no_uid_cannot_be_located() {
    let copies = vec![copy(JULY, 0, "", rank(0, None, true))];
    assert_eq!(locate(&copies, ""), None);
    assert_eq!(locate(&copies, "missing"), None);
}

#[test]
fn an_edit_in_the_same_month_stays_in_its_slot() {
    let copies = vec![copy(JULY, 0, "mine", rank(0, None, true))];
    let plan = plan_update(&copies, "mine", &draft("x", JULY_23, JULY_23 + HOUR), JULY);
    assert!(matches!(plan, Ok((0, EditPlan::InPlace { shard })) if shard == JULY));
}

#[test]
fn an_edit_across_a_month_moves_the_event() {
    let copies = vec![copy(JULY, 0, "mine", rank(0, None, true))];
    let plan = plan_update(&copies, "mine", &draft("x", JULY_23, JULY_23 + HOUR), AUGUST);
    assert!(matches!(plan, Ok((0, EditPlan::Move { from, to })) if from == JULY && to == AUGUST));
}

#[test]
fn the_plan_reports_a_missing_event() {
    let copies = vec![copy(JULY, 0, "mine", rank(0, None, true))];
    match plan_update(&copies, "nope", &draft("x", JULY_23, JULY_23 + HOUR), JULY) {
        Err(AppError::EventNotFound(uid)) => assert_eq!(uid, "nope"),
        _ => panic!("expected not found"),
    }
    match plan_delete(&copies, "nope") {
        Err(AppError::EventNotFound(uid)) => assert_eq!(uid, "nope"),
        _ => panic!("expected not found"),
    }
    assert!(matches!(plan_delete(&copies, ""), Err(AppError::EventNotFound(_))));
}

#[test]
fn a_backwards_edit_is_refused_before_anything_is_looked_up() {
    let plan = plan_update(&vec![], "nope", &draft("x", JULY_23 + HOUR, JULY_23), JULY);
    assert!(matches!(plan, Err(AppError::BackwardsEvent)));
}

#[test]
fn the_plan_refuses_a_repeating_event() {
    let mut weekly = copy(JULY, 0, "weekly", rank(0, None, true));
    weekly.recurring = true;
    let copies = vec![weekly];
    assert!(matches!(
        plan_update(&copies, "weekly", &draft("x", JULY_23, JULY_23 + HOUR), JULY),
        Err(AppError::RecurringNotEditable)
    ));
    assert!(matches!(plan_delete(&copies, "weekly"), Err(AppError::RecurringNotEditable)));
}

#[test]
fn the_delete_plan_lists_every_shard_that_holds_it() {
    let copies = vec![
        copy(JULY, 0, "moved", rank(0, None, true)),
        copy(JULY, 1, "other", rank(0, None, true)),
        copy(AUGUST, 0, "moved", rank(0, None, true)),
        copy(AUGUST, 1, "moved", rank(0, None, true)),
    ];
    assert_eq!(plan_delete(&copies, "moved").expect("found"), vec![JULY, AUGUST]);
}

fn vevent(uid: &str, start: Option<i128>, end: Option<i128>) -> Vevent {
    Vevent { uid: uid.to_string(), summary: "写论文".to_string(), start, end, all_day: false, recurring: false }
}

fn blocks(ev: &Vevent, from: i128, to: i128, expansion: Option<&Vec<i128>>) -> Vec<CalEvent> {
    let mut out = Vec::new();
    occurrences(ev, from, to, "anon", expansion, &mut out);
    out
}

#[test]
fn a_missing_dtend_becomes_an_hour() {
    let found = blocks(&vevent("a", Some(JULY_23 + 5 * HOUR), None), JULY_23, JULY_23 + 24 * HOUR, None);
    assert_eq!(found.len(), 1);
    assert_eq!(found[0].end, JULY_23 + 6 * HOUR);
    assert_eq!(IMPLIED_NANOS, HOUR);
}

#[test]
fn a_dtend_before_its_dtstart_falls_back_rather_than_vanishing() {
    let found =
        blocks(&vevent("a", Some(JULY_23 + 5 * HOUR), Some(JULY_23 + 4 * HOUR)), JULY_23, JULY_23 + 24 * HOUR, None);
    assert_eq!(found.len(), 1);
    assert_eq!(found[0].end, JULY_23 + 6 * HOUR);
}

#[test]
fn a_date_valued_event_lasts_a_day() {
    let mut ev = vevent("a", Some(JULY_23), None);
    ev.all_day = true;
    let found = blocks(&ev, JULY_23 - 24 * HOUR, JULY_23 + 48 * HOUR, None);
    assert_eq!(found.len(), 1);
    assert!(found[0].all_day);
    assert_eq!(found[0].end, JULY_23 + IMPLIED_ALL_DAY_NANOS);
}

#[test]
fn an_event_that_ends_exactly_when_the_window_opens_is_outside_it() {
    let ends_at_open = vevent("a", Some(JULY_23 - HOUR), Some(JULY_23));
    assert!(blocks(&ends_at_open, JULY_23, JULY_23 + 24 * HOUR, None).is_empty());
    let straddles = vevent("b", Some(JULY_23 - HOUR), Some(JULY_23 + HOUR));
    assert_eq!(blocks(&straddles, JULY_23, JULY_23 + 24 * HOUR, None).len(), 1);
}

#[test]
fn an_event_with_no_uid_renders_under_its_fallback_key() {
    let found = blocks(&vevent("", Some(JULY_23 + 5 * HOUR), Some(JULY_23 + 6 * HOUR)), JULY_23, JULY_23 + 24 * HOUR, None);
    assert_eq!(found.len(), 1);
    assert_eq!(found[0].uid, "");
    assert_eq!(found[0].id, "anon");
}

#[test]
fn an_event_with_no_start_draws_nothing() {
    assert!(blocks(&vevent("a", None, None), JULY_23, JULY_23 + 24 * HOUR, None).is_empty());
    assert_eq!(duration_of(&vevent("a", None, None)), None);
}

#[test]
fn a_repeating_event_draws_each_occurrence_under_its_own_id() {
    let mut ev = vevent("a", Some(JULY_23 + HOUR), Some(JULY_23 + 2 * HOUR));
    ev.recurring = true;
    let week = 7 * 24 * HOUR;
    let ats = vec![JULY_23 + HOUR - week, JULY_23 + HOUR, JULY_23 + HOUR + week];
    let found = blocks(&ev, JULY_23, JULY_23 + week, Some(&ats));
    assert_eq!(found.len(), 1);
    assert!(found[0].recurring);
    assert_eq!(found[0].id, format!("a#{}", (JULY_23 + HOUR) / NS));
    assert_eq!(found[0].end, JULY_23 + 2 * HOUR);
}

#[test]
fn an_occurrence_running_into_the_window_is_still_found() {
    let mut ev = vevent("a", Some(JULY_23 - 2 * HOUR), Some(JULY_23 + 2 * HOUR));
    ev.recurring = true;
    let d = duration_of(&ev).expect("a start");
    assert_eq!(d, 4 * HOUR);
    assert_eq!(search_start(JULY_23 + 24 * HOUR, d), JULY_23 + 20 * HOUR);
    assert_eq!(search_start(JULY_23, 400 * 24 * HOUR), JULY_23 - MAX_WIDEN_NANOS);
    let ats = vec![JULY_23 + 22 * HOUR];
    let found = blocks(&ev, JULY_23 + 24 * HOUR, JULY_23 + 36 * HOUR, Some(&ats));
    assert_eq!(found.len(), 1);
    assert_eq!(found[0].start, JULY_23 + 22 * HOUR);
    assert_eq!(found[0].end, JULY_23 + 26 * HOUR);
}

#[test]
fn a_malformed_rule_costs_the_rule_but_not_the_event() {
    let mut ev = vevent("a", Some(JULY_23 + 5 * HOUR), Some(JULY_23 + 6 * HOUR));
    ev.recurring = true;
    let found = blocks(&ev, JULY_23, JULY_23 + 24 * HOUR, None);
    assert_eq!(found.len(), 1);
    assert!(found[0].recurring);
    assert_eq!(found[0].id, "a");
}

#[test]
fn an_occurrence_before_the_epoch_is_named_by_its_second_rounded_down() {
    assert_eq!(whole_seconds(-1), -1);
    assert_eq!(whole_seconds(-NS), -1);
    assert_eq!(whole_seconds(-NS - 1), -2);
    assert_eq!(whole_seconds(NS + 1), 1);
    let mut ev = vevent("a", Some(-NS - 1), Some(-1));
    ev.recurring = true;
    let ats = vec![-NS - 1];
    let found = blocks(&ev, -10 * NS, 10 * NS, Some(&ats));
    assert_eq!(found[0].id, "a#-2");
}

#[test]
fn blocks_are_drawn_earliest_first_then_by_id() {
    let b = |id: &str, start: i128| CalEvent {
        id: id.to_string(),
        uid: id.to_string(),
        summary: String::new(),
        start,
        end: start + HOUR,
        recurring: false,
        all_day: false,
    };
    let ordered = in_order(vec![b("c", 2), b("b", 1), b("a", 1)]);
    let ids: Vec<&str> = ordered.iter().map(|e| e.id.as_str()).collect();
    assert_eq!(ids, vec!["a", "b", "c"]);
}

#[test]
fn a_window_draws_every_chosen_event_in_order() {
    let events = vec![
        vevent("late", Some(JULY_23 + 9 * HOUR), Some(JULY_23 + 10 * HOUR)),
        vevent("early", Some(JULY_23 + 5 * HOUR), Some(JULY_23 + 6 * HOUR)),
        vevent("outside", Some(JULY_23 - 5 * HOUR), Some(JULY_23 - 4 * HOUR)),
    ];
    let chosen = vec![
        Chosen { key: "2026-07#0".to_string(), copy: 0 },
        Chosen { key: "2026-07#1".to_string(), copy: 1 },
        Chosen { key: "2026-07#2".to_string(), copy: 2 },
    ];
    let found = window_blocks(&events, &chosen, &vec![None, None, None], JULY_23, JULY_23 + 24 * HOUR);
    let ids: Vec<&str> = found.iter().map(|e| e.id.as_str()).collect();
    assert_eq!(ids, vec!["early", "late"]);
}

#[test]
fn a_window_reads_every_shard_up_to_its_last_month() {
    let shards = vec![YearMonth { year: 2025, month: 12 }, JULY, AUGUST];
    assert_eq!(shards_up_to(&shards, JULY), vec![YearMonth { year: 2025, month: 12 }, JULY]);
}
