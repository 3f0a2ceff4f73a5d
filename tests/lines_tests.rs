use anchor_drop::anchor::{insert_comment, DropError};
use anchor_drop::lines::{close_last_line, insert_line, join_lines, split_lines_preserve_newline};

fn owned(v: &[&str]) -> Vec<String> {
    v.iter().map(|s| s.to_string()).collect()
}

#[test]
fn split_empty_content_has_no_lines() {
    assert!(split_lines_preserve_newline("").is_empty());
}

#[test]
fn split_keeps_newlines() {
    assert_eq!(split_lines_preserve_newline("a\nb\nc\n"), owned(&["a\n", "b\n", "c\n"]));
}

#[test]
fn split_last_line_without_newline() {
    assert_eq!(split_lines_preserve_newline("a\nb"), owned(&["a\n", "b"]));
}

#[test]
fn split_blank_lines_and_lone_newline() {
    assert_eq!(split_lines_preserve_newline("\n\nx\n"), owned(&["\n", "\n", "x\n"]));
    assert_eq!(split_lines_preserve_newline("\n"), owned(&["\n"]));
}

#[test]
fn split_non_ascii_text() {
    assert_eq!(split_lines_preserve_newline("é\nü"), owned(&["é\n", "ü"]));
}

#[test]
fn join_reconstructs_content() {
    for text in ["", "a", "a\nb", "a\n\nb\n", "\r\nx\r\n"] {
        assert_eq!(join_lines(&split_lines_preserve_newline(text)), text);
    }
}

#[test]
fn insert_line_in_middle_and_at_end() {
    let mut lines = owned(&["a\n", "b\n"]);
    insert_line(&mut lines, 2, "x\n".to_string());
    assert_eq!(lines, owned(&["a\n", "x\n", "b\n"]));
    insert_line(&mut lines, 4, "z\n".to_string());
    assert_eq!(lines, owned(&["a\n", "x\n", "b\n", "z\n"]));
    insert_line(&mut lines, 1, "f\n".to_string());
    assert_eq!(lines[0], "f\n");
}

#[test]
fn insert_comment_before_existing_line() {
    let r = insert_comment("a\nb\nc\n", 2, "# m\n".to_string());
    assert_eq!(r, Ok("a\n# m\nb\nc\n".to_string()));
}

#[test]
fn insert_comment_after_last_line_appends() {
    let r = insert_comment("a\nb\nc\n", 4, "# m\n".to_string());
    assert_eq!(r, Ok("a\nb\nc\n# m\n".to_string()));
}

#[test]
fn insert_comment_into_empty_file() {
    assert_eq!(insert_comment("", 1, "# m\n".to_string()), Ok("# m\n".to_string()));
    assert_eq!(
        insert_comment("", 2, "# m\n".to_string()),
        Err(DropError::InvalidLine { line: 2, total: 0 })
    );
}

#[test]
fn insert_comment_line_zero_rejected() {
    assert_eq!(
        insert_comment("a\nb\nc\n", 0, "# m\n".to_string()),
        Err(DropError::InvalidLine { line: 0, total: 3 })
    );
}

#[test]
fn insert_comment_two_past_end_rejected() {
    assert_eq!(
        insert_comment("a\nb\nc\n", 5, "# m\n".to_string()),
        Err(DropError::InvalidLine { line: 5, total: 3 })
    );
    assert_eq!(
        insert_comment("a\nb\nc\n", usize::MAX, "# m\n".to_string()),
        Err(DropError::InvalidLine { line: usize::MAX, total: 3 })
    );
}

#[test]
fn append_after_unterminated_last_line_adds_new_line() {
    assert_eq!(insert_comment("a", 2, "# m\n".to_string()), Ok("a\n# m\n".to_string()));
    let r = insert_comment("a\nb", 3, "# m\n".to_string()).unwrap();
    assert_eq!(r, "a\nb\n# m\n");
    assert_eq!(split_lines_preserve_newline(&r).len(), 3);
}

#[test]
fn insert_before_unterminated_last_line_keeps_it() {
    assert_eq!(insert_comment("a\nb", 2, "# m\n".to_string()), Ok("a\n# m\nb".to_string()));
}

#[test]
fn close_last_line_adds_missing_newline_only() {
    let mut v = owned(&["a\n", "b"]);
    close_last_line(&mut v);
    assert_eq!(v, owned(&["a\n", "b\n"]));
    close_last_line(&mut v);
    assert_eq!(v, owned(&["a\n", "b\n"]));
    let mut e: Vec<String> = Vec::new();
    close_last_line(&mut e);
    assert!(e.is_empty());
}
