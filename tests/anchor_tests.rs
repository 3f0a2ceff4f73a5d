use anchor_drop::anchor::{prepare_drop, DropError};
use anchor_drop::ledger::{
    default_kind, resolve_ledger, AnchorEntry, AnchorsRecord, LedgerError, LedgerSource,
    RecoveryPolicy, LEDGER_VERSION,
};
use anchor_drop::lines::split_lines_preserve_newline;

fn sample_record() -> AnchorsRecord {
    let mut r = AnchorsRecord::new_at("2024-01-01T00:00:00Z".to_string());
    r.add_anchor("11111111".into(), "x.rs".into(), 1, None, "first".into());
    r
}

#[test]
fn three_line_python_file_at_line_two() {
    let d = prepare_drop(Some("a\nb\nc\n".to_string()), "a.py", 2, "checkpoint").unwrap();
    let lines = split_lines_preserve_newline(&d.content);
    assert_eq!(lines.len(), 4);
    assert_eq!(lines[0], "a\n");
    assert_eq!(lines[1], format!("# CLAUDE_ANCHOR[key={}] checkpoint\n", d.key));
    assert_eq!(lines[2], "b\n");
    assert_eq!(lines[3], "c\n");
    assert_eq!(d.comment, lines[1]);
    assert_eq!(d.key.chars().count(), 8);

    let mut rec = AnchorsRecord::new();
    rec.add_anchor(d.key.clone(), "a.py".into(), 2, None, "checkpoint".into());
    assert_eq!(rec.anchors.len(), 1);
    let e = &rec.anchors[0];
    assert_eq!(e.key, d.key);
    assert_eq!(e.path, "a.py");
    assert_eq!(e.line, 2);
    assert_eq!(e.kind, "line");
    assert_eq!(e.description, "checkpoint");
    assert_eq!(e.status, "active");
}

#[test]
fn missing_file_is_not_found() {
    let r = prepare_drop(None, "nope.py", 1, "x");
    assert_eq!(r.unwrap_err(), DropError::FileNotFound);
}

#[test]
fn html_file_gets_wrapped_comment() {
    let d = prepare_drop(Some("<p>\n".to_string()), "index.html", 1, "desc").unwrap();
    assert_eq!(d.comment, format!("<!-- CLAUDE_ANCHOR[key={}] desc -->\n", d.key));
    assert_eq!(d.content, format!("{}<p>\n", d.comment));
}

#[test]
fn drop_after_last_line_appends() {
    let d = prepare_drop(Some("a\nb\n".to_string()), "m.rs", 3, "end").unwrap();
    assert_eq!(d.content, format!("a\nb\n{}", d.comment));
    assert!(d.comment.starts_with("// CLAUDE_ANCHOR[key="));
}

#[test]
fn drop_at_zero_or_two_past_end_rejected() {
    let r = prepare_drop(Some("a\nb\nc\n".to_string()), "a.py", 0, "x");
    assert_eq!(r.unwrap_err(), DropError::InvalidLine { line: 0, total: 3 });
    let r = prepare_drop(Some("a\nb\nc\n".to_string()), "a.py", 5, "x");
    assert_eq!(r.unwrap_err(), DropError::InvalidLine { line: 5, total: 3 });
}

#[test]
fn repeated_drop_is_not_deduplicated() {
    let first = prepare_drop(Some("a\nb\n".to_string()), "a.py", 2, "same").unwrap();
    let second = prepare_drop(Some(first.content.clone()), "a.py", 2, "same").unwrap();
    assert_ne!(first.key, second.key);
    let lines = split_lines_preserve_newline(&second.content);
    assert_eq!(lines.len(), 4);
    assert_eq!(lines[1], second.comment);
    assert_eq!(lines[2], first.comment);

    let mut rec = AnchorsRecord::new();
    rec.add_anchor(first.key.clone(), "a.py".into(), 2, None, "same".into());
    rec.add_anchor(second.key.clone(), "a.py".into(), 2, None, "same".into());
    assert_eq!(rec.anchors.len(), 2);
    assert_ne!(rec.anchors[0].key, rec.anchors[1].key);
}

#[test]
fn new_record_is_empty_version_one() {
    let r = AnchorsRecord::new();
    assert_eq!(r.version, 1);
    assert_eq!(r.version, LEDGER_VERSION);
    assert!(r.anchors.is_empty());
    assert_eq!(r.generated.len(), "2024-01-01T00:00:00Z".len());
    assert!(r.generated.ends_with('Z'));
}

#[test]
fn add_anchor_appends_in_order_and_keeps_kind() {
    let mut r = sample_record();
    r.add_anchor("22222222".into(), "y.go".into(), 7, Some("todo".into()), "second".into());
    assert_eq!(r.anchors.len(), 2);
    assert_eq!(r.anchors[0].key, "11111111");
    assert_eq!(r.anchors[0].kind, "line");
    assert_eq!(r.anchors[1].key, "22222222");
    assert_eq!(r.anchors[1].kind, "todo");
    assert_eq!(r.anchors[1].line, 7);
    assert_eq!(r.anchors[1].path, "y.go");
    assert_ne!(r.generated, "2024-01-01T00:00:00Z");
}

#[test]
fn touch_generated_keeps_entries() {
    let mut r = sample_record();
    r.touch_generated();
    assert_eq!(r.anchors.len(), 1);
    assert_ne!(r.generated, "2024-01-01T00:00:00Z");
}

#[test]
fn entry_new_is_active() {
    let e = AnchorEntry::new("k".into(), "p".into(), 3, "kind".into(), "d".into(), "t".into());
    assert_eq!(e.status, "active");
    assert_eq!(e.created, "t");
    assert_eq!(e.line, 3);
}

#[test]
fn default_kind_is_line() {
    assert_eq!(default_kind(None), "line");
    assert_eq!(default_kind(Some("block".into())), "block");
}

#[test]
fn parsed_ledger_is_kept() {
    let r = resolve_ledger(LedgerSource::Parsed(sample_record()), RecoveryPolicy::ReinitializeOnCorrupt)
        .unwrap();
    assert_eq!(r.anchors.len(), 1);
    assert_eq!(r.anchors[0].description, "first");
    let fresh = AnchorsRecord::new_at("2024-01-01T00:00:00Z".to_string());
    let kept = resolve_ledger(LedgerSource::Parsed(fresh), RecoveryPolicy::FailOnCorrupt).unwrap();
    assert_eq!(kept.generated, "2024-01-01T00:00:00Z");
}

#[test]
fn missing_ledger_starts_empty() {
    let r = resolve_ledger(LedgerSource::Missing, RecoveryPolicy::FailOnCorrupt).unwrap();
    assert!(r.anchors.is_empty());
    assert_eq!(r.version, 1);
}

#[test]
fn corrupt_ledger_is_reinitialized() {
    let r = resolve_ledger(LedgerSource::Corrupt, RecoveryPolicy::ReinitializeOnCorrupt).unwrap();
    assert!(r.anchors.is_empty());
    assert_eq!(r.version, 1);
}

#[test]
fn corrupt_ledger_fails_under_strict_policy() {
    let r = resolve_ledger(LedgerSource::Corrupt, RecoveryPolicy::FailOnCorrupt);
    assert_eq!(r.unwrap_err(), LedgerError::Corrupt);
}

fn looks_like_utc_stamp(s: &str) -> bool {
    let b = s.as_bytes();
    b.len() == 20
        && b.iter().enumerate().all(|(i, c)| match i {
            4 | 7 => *c == b'-',
            10 => *c == b'T',
            13 | 16 => *c == b':',
            19 => *c == b'Z',
            _ => c.is_ascii_digit(),
        })
}

#[test]
fn timestamps_have_fixed_layout() {
    let mut r = AnchorsRecord::new();
    assert!(looks_like_utc_stamp(&r.generated));
    r.add_anchor("abcdef01".into(), "f.c".into(), 1, None, "d".into());
    assert!(looks_like_utc_stamp(&r.generated));
    assert!(looks_like_utc_stamp(&r.anchors[0].created));
}

#[test]
fn drop_after_unterminated_last_line_adds_line() {
    let d = prepare_drop(Some("a".to_string()), "a.py", 2, "end").unwrap();
    assert_eq!(d.content, format!("a\n{}", d.comment));
    assert_eq!(split_lines_preserve_newline(&d.content).len(), 2);
    let again = prepare_drop(Some(d.content.clone()), "a.py", 2, "end").unwrap();
    let lines = split_lines_preserve_newline(&again.content);
    assert_eq!(lines.len(), 3);
    assert_eq!(lines[1], again.comment);
    assert_eq!(lines[2], d.comment);
}
