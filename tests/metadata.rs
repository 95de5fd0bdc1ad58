use kioku::{updated_contents, write_target, MetaData, WriteMode};

fn record(label: &str, revision: Option<&str>) -> MetaData {
    MetaData {
        label: label.to_string(),
        revision: revision.map(|r| r.to_string()),
        timestamp: "2024-05-01T12:00:00+02:00".to_string(),
    }
}

#[test]
fn targets_and_modes() {
    assert_eq!(write_target("run"), ("run.json".to_string(), WriteMode::Overwrite));
    assert_eq!(write_target("run.json"), ("run.json".to_string(), WriteMode::Overwrite));
    assert_eq!(write_target("run.jsonl"), ("run.jsonl".to_string(), WriteMode::Append));
    assert_eq!(write_target("out.txt"), ("out.txt.json".to_string(), WriteMode::Overwrite));
    assert_eq!(write_target(""), (".json".to_string(), WriteMode::Overwrite));
}

#[test]
fn compact_record_line() {
    let r = record("brave-otter", None).render(WriteMode::Append);
    assert_eq!(
        r,
        "{\"label\":\"brave-otter\",\"revision\":null,\"timestamp\":\"2024-05-01T12:00:00+02:00\"}\n"
    );
}

#[test]
fn pretty_record() {
    let r = record("brave-otter", Some("abc123")).render(WriteMode::Overwrite);
    assert_eq!(
        r,
        "{\n  \"label\": \"brave-otter\",\n  \"revision\": \"abc123\",\n  \"timestamp\": \"2024-05-01T12:00:00+02:00\"\n}"
    );
}

#[test]
fn strings_are_escaped() {
    let r = record("a\"b\nc", None).render(WriteMode::Append);
    assert_eq!(r.matches('\n').count(), 1);
    let v: serde_json::Value = serde_json::from_str(r.trim_end()).unwrap();
    assert_eq!(v["label"], "a\"b\nc");
}

#[test]
fn overwrite_twice_keeps_second() {
    let (path, mode) = write_target("run.json");
    assert_eq!(path, "run.json");
    let first = record("first-label", None).render(mode);
    let second = record("second-label", None).render(mode);
    let after = updated_contents(mode, &updated_contents(mode, "", &first), &second);
    assert_eq!(after, second);
    let v: serde_json::Value = serde_json::from_str(&after).unwrap();
    assert_eq!(v["label"], "second-label");
}

#[test]
fn append_twice_keeps_both_lines() {
    let (_, mode) = write_target("run.jsonl");
    let first = record("first-label", Some("abc")).render(mode);
    let second = record("second-label", None).render(mode);
    let once = updated_contents(mode, "", &first);
    let after = updated_contents(mode, &once, &second);
    assert!(after.starts_with(&once));
    let lines: Vec<&str> = after.lines().collect();
    assert_eq!(lines.len(), 2);
    let a: serde_json::Value = serde_json::from_str(lines[0]).unwrap();
    let b: serde_json::Value = serde_json::from_str(lines[1]).unwrap();
    assert_eq!(a["label"], "first-label");
    assert_eq!(a["revision"], "abc");
    assert_eq!(b["label"], "second-label");
}

#[test]
fn missing_revision_is_null() {
    let r = record("x", None).render(WriteMode::Overwrite);
    let v: serde_json::Value = serde_json::from_str(&r).unwrap();
    assert!(v["revision"].is_null());
}

#[test]
fn stamped_record_has_time() {
    let m = MetaData::stamped("calm-heron", None);
    assert_eq!(m.label, "calm-heron");
    assert!(m.revision.is_none());
    assert!(!m.timestamp.is_empty());
    let v: serde_json::Value = serde_json::from_str(&m.render(WriteMode::Overwrite)).unwrap();
    assert_eq!(v["timestamp"], m.timestamp.as_str());
}

#[test]
fn control_characters_use_unicode_escapes() {
    let r = record("a\u{1}b\u{1f}\t\\", None).render(WriteMode::Append);
    assert_eq!(
        r,
        "{\"label\":\"a\\u0001b\\u001f\\t\\\\\",\"revision\":null,\"timestamp\":\"2024-05-01T12:00:00+02:00\"}\n"
    );
}

#[test]
fn stamped_time_is_rfc3339() {
    let t: Vec<char> = MetaData::stamped("x", None).timestamp.chars().collect();
    let n = t.len();
    assert!(n >= 25);
    assert_eq!(t[4], '-');
    assert_eq!(t[7], '-');
    assert_eq!(t[10], 'T');
    assert_eq!(t[13], ':');
    assert_eq!(t[16], ':');
    assert!(t[n - 6] == '+' || t[n - 6] == '-');
    assert_eq!(t[n - 3], ':');
}
