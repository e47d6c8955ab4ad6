use serde_json::Value;

use calenpomo::fs_atomic::{append_bytes, read_jsonl, JsonlRead};

#[derive(Debug, Clone, PartialEq, Eq)]
struct Rec {
    id: u32,
    label: String,
}

fn rec(id: u32, label: &str) -> Rec {
    Rec { id, label: label.to_string() }
}

fn encode(r: &Rec) -> Vec<u8> {
    let mut m = serde_json::Map::new();
    m.insert("id".to_string(), Value::from(r.id));
    m.insert("label".to_string(), Value::from(r.label.clone()));
    serde_json::to_vec(&Value::Object(m)).expect("encodes")
}

fn decode(line: &Vec<u8>) -> Result<Rec, String> {
    let v: Value = serde_json::from_slice(line).map_err(|e| e.to_string())?;
    match (v.get("id").and_then(Value::as_u64), v.get("label").and_then(Value::as_str)) {
        (Some(id), Some(label)) => Ok(Rec { id: id as u32, label: label.to_string() }),
        _ => Err("missing field".to_string()),
    }
}

/// Append a record to a file held in memory, as the app appends to disk.
fn append_jsonl(file: &mut Vec<u8>, r: &Rec) {
    let bytes = append_bytes(file.last().copied(), &encode(r));
    file.extend(bytes);
}

fn read(file: &Vec<u8>) -> JsonlRead<Rec> {
    read_jsonl(file, decode)
}

#[test]
fn append_jsonl_round_trips_records_in_order() {
    let mut file = Vec::new();
    append_jsonl(&mut file, &rec(1, "写论文"));
    append_jsonl(&mut file, &rec(2, "休息"));
    let read = read(&file);
    assert_eq!(read.records, vec![rec(1, "写论文"), rec(2, "休息")]);
    assert!(read.corrupt.is_empty());
    assert!(!read.truncated_tail);
}

#[test]
fn a_record_cut_off_mid_write_is_skipped_not_fatal() {
    let mut file = Vec::new();
    append_jsonl(&mut file, &rec(1, "写论文"));
    append_jsonl(&mut file, &rec(2, "休息"));
    // Third record, cut off before its terminating newline.
    file.extend_from_slice(br#"{"id":3,"lab"#);
    let read = read(&file);
    assert_eq!(read.records, vec![rec(1, "写论文"), rec(2, "休息")]);
    assert!(read.truncated_tail);
    assert!(read.corrupt.is_empty());
}

#[test]
fn a_truncated_record_that_parses_is_still_discarded() {
    let mut file = Vec::new();
    append_jsonl(&mut file, &rec(1, "写论文"));
    file.extend_from_slice(r#"{"id":2,"label":"休息"}"#.as_bytes());
    let read = read(&file);
    assert_eq!(read.records, vec![rec(1, "写论文")]);
    assert!(read.truncated_tail);
}

#[test]
fn appending_after_a_truncated_tail_does_not_splice_records() {
    let mut file = Vec::new();
    append_jsonl(&mut file, &rec(1, "写论文"));
    file.extend_from_slice(br#"{"id":3,"lab"#);
    append_jsonl(&mut file, &rec(4, "继续"));
    let read = read(&file);
    assert_eq!(read.records, vec![rec(1, "写论文"), rec(4, "继续")]);
    assert!(!read.truncated_tail);
    // The orphaned fragment is now a terminated, unparseable line: reported,
    // not fatal.
    assert_eq!(read.corrupt.len(), 1);
    assert_eq!(read.corrupt[0].line_no, 2);
    // And it is still there: the write path never destroys bytes.
    let raw = String::from_utf8(file).expect("text");
    assert!(raw.contains(r#"{"id":3,"lab"#), "fragment was destroyed: {raw}");
}

#[test]
fn a_corrupt_line_in_the_middle_costs_only_that_line() {
    let file = b"{\"id\":1,\"label\":\"a\"}\n!!! not json !!!\n{\"id\":3,\"label\":\"c\"}\n".to_vec();
    let read = read(&file);
    assert_eq!(read.records, vec![rec(1, "a"), rec(3, "c")]);
    assert_eq!(read.corrupt.len(), 1);
    assert_eq!(read.corrupt[0].line_no, 2);
    assert!(!read.truncated_tail);
}

#[test]
fn blank_lines_are_ignored_rather_than_reported() {
    let file = b"{\"id\":1,\"label\":\"a\"}\n\n   \n".to_vec();
    let read = read(&file);
    assert_eq!(read.records, vec![rec(1, "a")]);
    assert!(read.corrupt.is_empty());
}

#[test]
fn a_file_that_does_not_exist_reads_as_empty() {
    let read = JsonlRead::<Rec>::empty();
    assert!(read.records.is_empty());
    assert!(read.corrupt.is_empty());
    assert!(!read.truncated_tail);
}

#[test]
fn a_windows_line_ending_is_tolerated() {
    let read = read(&b"{\"id\":1,\"label\":\"a\"}\r\n".to_vec());
    assert_eq!(read.records, vec![rec(1, "a")]);
    assert!(read.corrupt.is_empty());
}

#[test]
fn an_append_to_a_clean_file_adds_no_blank_line() {
    assert_eq!(append_bytes(Some(b'\n'), &b"{}".to_vec()), b"{}\n".to_vec());
    assert_eq!(append_bytes(None, &b"{}".to_vec()), b"{}\n".to_vec());
    assert_eq!(append_bytes(Some(b'}'), &b"{}".to_vec()), b"\n{}\n".to_vec());
}
