use calenpomo::calendar::store::{calendar_file_name, sorted_shards, YearMonth};
use calenpomo::fs_atomic::temp_name;

#[test]
fn a_shard_name_round_trips() {
    assert_eq!(YearMonth::parse("2026-07.ics"), Some(YearMonth { year: 2026, month: 7 }));
}

#[test]
fn names_that_are_not_shards_are_not_mistaken_for_one() {
    for name in [
        "2026-7.ics",
        "2026-13.ics",
        "2026-00.ics",
        "2026-07.txt",
        "2026-07",
        "notes.ics",
        ".2026-07.ics.tmp-123-456-0",
        ".2026-07.ics.tmp-123-456-0.ics",
    ] {
        assert_eq!(YearMonth::parse(name), None, "{name} parsed as a shard");
    }
}

#[test]
fn a_month_writes_and_reads_back_as_the_same_file_name() {
    let name = calendar_file_name(2026, 7);
    assert_eq!(name, "2026-07.ics");
    assert_eq!(YearMonth::parse(&name), Some(YearMonth { year: 2026, month: 7 }));
}

#[test]
fn shards_come_back_in_chronological_order() {
    let names: Vec<String> = ["2026-01.ics", "2025-12.ics", "2026-02.ics", "readme.txt"]
        .iter()
        .map(|s| s.to_string())
        .collect();
    assert_eq!(
        sorted_shards(&names),
        vec![
            YearMonth { year: 2025, month: 12 },
            YearMonth { year: 2026, month: 1 },
            YearMonth { year: 2026, month: 2 },
        ]
    );
}

#[test]
fn one_month_is_after_another_by_year_then_month() {
    let july = YearMonth { year: 2026, month: 7 };
    assert!(YearMonth { year: 2026, month: 8 }.is_after(&july));
    assert!(YearMonth { year: 2027, month: 1 }.is_after(&july));
    assert!(!july.is_after(&july));
    assert!(!YearMonth { year: 2025, month: 12 }.is_after(&july));
}

#[test]
fn a_staged_write_is_not_read_as_a_shard() {
    let name = temp_name("2026-07.ics", 123, 456, 0);
    assert_eq!(name, ".2026-07.ics.tmp-123-456-0");
    assert_eq!(YearMonth::parse(&name), None);
}

#[test]
fn a_sign_or_a_space_in_the_year_or_month_is_not_a_shard() {
    for name in ["2026-+7.ics", "+026-07.ics", "2026- 7.ics", " 026-07.ics", "2026-0x.ics"] {
        assert_eq!(YearMonth::parse(name), None, "{name} parsed as a shard");
    }
}
