use todo_tracker::model::{Priority, TodoTag};
use todo_tracker::scanner::regex::RegexScanner;

#[test]
fn test_bare_todo_in_line_comment() {
    let scanner = RegexScanner::new().unwrap();
    let items = scanner.scan_content("test.rs", "// TODO fix this later\n");
    assert_eq!(items.len(), 1);
    assert_eq!(items[0].tag, TodoTag::Todo);
    assert_eq!(items[0].message, "fix this later");
    assert_eq!(items[0].line, 1);
    assert!(items[0].author.is_none());
    assert!(items[0].issue.is_none());
    assert!(items[0].priority.is_none());
}

#[test]
fn test_todo_with_author() {
    let scanner = RegexScanner::new().unwrap();
    let items = scanner.scan_content("test.rs", "// TODO(alice): refactor this\n");
    assert_eq!(items.len(), 1);
    assert_eq!(items[0].tag, TodoTag::Todo);
    assert_eq!(items[0].author, Some("alice".to_string()));
    assert_eq!(items[0].message, "refactor this");
}

#[test]
fn test_todo_with_author_and_issue() {
    let scanner = RegexScanner::new().unwrap();
    let items = scanner.scan_content("test.rs", "// FIXME(bob, #123): memory leak here\n");
    assert_eq!(items.len(), 1);
    assert_eq!(items[0].tag, TodoTag::Fixme);
    assert_eq!(items[0].author, Some("bob".to_string()));
    assert_eq!(items[0].issue, Some("#123".to_string()));
    assert_eq!(items[0].message, "memory leak here");
}

#[test]
fn test_todo_with_author_issue_and_priority() {
    let scanner = RegexScanner::new().unwrap();
    let items =
        scanner.scan_content("test.rs", "// HACK(carol, #456, p:high): temporary workaround\n");
    assert_eq!(items.len(), 1);
    assert_eq!(items[0].tag, TodoTag::Hack);
    assert_eq!(items[0].author, Some("carol".to_string()));
    assert_eq!(items[0].issue, Some("#456".to_string()));
    assert_eq!(items[0].priority, Some(Priority::High));
    assert_eq!(items[0].message, "temporary workaround");
}

#[test]
fn test_todo_with_priority_only() {
    let scanner = RegexScanner::new().unwrap();
    let items = scanner.scan_content("test.rs", "// BUG(p:critical): crashes on startup\n");
    assert_eq!(items.len(), 1);
    assert_eq!(items[0].tag, TodoTag::Bug);
    assert!(items[0].author.is_none());
    assert_eq!(items[0].priority, Some(Priority::Critical));
    assert_eq!(items[0].message, "crashes on startup");
}

#[test]
fn test_block_comment_todo() {
    let scanner = RegexScanner::new().unwrap();
    let content = "fn main() {\n    /* TODO: implement this */\n}\n";
    let items = scanner.scan_content("test.rs", content);
    assert_eq!(items.len(), 1);
    assert_eq!(items[0].tag, TodoTag::Todo);
    assert_eq!(items[0].line, 2);
}

#[test]
fn test_multiline_block_comment_todo() {
    let scanner = RegexScanner::new().unwrap();
    let content = "/*\n * TODO: fix this\n * across lines\n */\nfn main() {}\n";
    let items = scanner.scan_content("test.rs", content);
    assert_eq!(items.len(), 1);
    assert_eq!(items[0].tag, TodoTag::Todo);
    assert_eq!(items[0].line, 2);
}

#[test]
fn test_false_positive_rejection_in_code() {
    let scanner = RegexScanner::new().unwrap();
    let content = "let todo_list = vec![\"TODO\"];\nlet x = \"FIXME\";\n";
    let items = scanner.scan_content("test.rs", content);
    // these occurrences sit in code lines, not comments
    assert_eq!(items.len(), 0);
}

#[test]
fn test_multiple_todos_in_one_file() {
    let scanner = RegexScanner::new().unwrap();
    let content = "\
// TODO: first thing
fn foo() {}
// FIXME: second thing
fn bar() {}
// HACK: third thing
";
    let items = scanner.scan_content("test.rs", content);
    assert_eq!(items.len(), 3);
    assert_eq!(items[0].tag, TodoTag::Todo);
    assert_eq!(items[1].tag, TodoTag::Fixme);
    assert_eq!(items[2].tag, TodoTag::Hack);
    assert_eq!(items[0].line, 1);
    assert_eq!(items[1].line, 3);
    assert_eq!(items[2].line, 5);
}

#[test]
fn test_python_hash_comment() {
    let scanner = RegexScanner::new().unwrap();
    let content = "# TODO: add error handling\ndef foo():\n    pass\n";
    let items = scanner.scan_content("test.py", content);
    assert_eq!(items.len(), 1);
    assert_eq!(items[0].tag, TodoTag::Todo);
    assert_eq!(items[0].message, "add error handling");
}

#[test]
fn test_python_rejects_non_comment_todo() {
    let scanner = RegexScanner::new().unwrap();
    let content = "todo_items = []\nprint(\"TODO\")\n";
    let items = scanner.scan_content("test.py", content);
    assert_eq!(items.len(), 0);
}

#[test]
fn regex_test_javascript_block_comment() {
    let scanner = RegexScanner::new().unwrap();
    let content = "/* FIXME(bob, #42): broken sort */\nfunction sort() {}\n";
    let items = scanner.scan_content("test.js", content);
    assert_eq!(items.len(), 1);
    assert_eq!(items[0].tag, TodoTag::Fixme);
    assert_eq!(items[0].author, Some("bob".to_string()));
    assert_eq!(items[0].issue, Some("#42".to_string()));
}

#[test]
fn test_unknown_extension_scans_all_lines() {
    let scanner = RegexScanner::new().unwrap();
    let content = "TODO: this should be found\nnot a comment but unknown lang\n";
    let items = scanner.scan_content("test.xyz", content);
    assert_eq!(items.len(), 1);
    assert_eq!(items[0].tag, TodoTag::Todo);
}

#[test]
fn test_xxx_tag() {
    let scanner = RegexScanner::new().unwrap();
    let items = scanner.scan_content("test.rs", "// XXX: dangerous code\n");
    assert_eq!(items.len(), 1);
    assert_eq!(items[0].tag, TodoTag::Xxx);
}

#[test]
fn test_column_number() {
    let scanner = RegexScanner::new().unwrap();
    let items = scanner.scan_content("test.rs", "    // TODO: indented\n");
    assert_eq!(items.len(), 1);
    // the tag starts at byte index 7, so the one-based column is 8
    assert_eq!(items[0].column, 8);
}

#[test]
fn test_context_line_preserved() {
    let scanner = RegexScanner::new().unwrap();
    let line = "    // TODO(alice): important fix";
    let items = scanner.scan_content("test.rs", &format!("{}\n", line));
    assert_eq!(items.len(), 1);
    assert_eq!(items[0].context_line, line);
}

#[test]
fn test_issue_slug_format() {
    let scanner = RegexScanner::new().unwrap();
    let items = scanner.scan_content("test.rs", "// TODO(dave, #issue-slug): handle edge case\n");
    assert_eq!(items.len(), 1);
    assert_eq!(items[0].issue, Some("#issue-slug".to_string()));
}

#[test]
fn test_metadata_example_line() {
    // A full metadata-bearing annotation yields every field exactly.
    let scanner = RegexScanner::new().unwrap();
    let line = "// TODO(alice, #123, p:high): fix race condition";
    let items = scanner.scan_content("example.rs", &format!("{}\n", line));
    assert_eq!(items.len(), 1);
    assert_eq!(items[0].tag, TodoTag::Todo);
    assert_eq!(items[0].author, Some("alice".to_string()));
    assert_eq!(items[0].issue, Some("#123".to_string()));
    assert_eq!(items[0].priority, Some(Priority::High));
    assert_eq!(items[0].message, "fix race condition");
    assert_eq!(items[0].line, 1);
    assert_eq!(items[0].column, 4);
    assert_eq!(items[0].file, "example.rs");
}

#[test]
fn test_string_literal_line_not_scanned() {
    // Outside any comment, a quoted occurrence is not even a lexical candidate.
    let scanner = RegexScanner::new().unwrap();
    let items = scanner.scan_content("test.rs", "let s = \"TODO: not real\";\n");
    assert_eq!(items.len(), 0);
}

#[test]
fn test_two_tags_on_one_line() {
    // Two occurrences on one in-comment line both come out.
    let scanner = RegexScanner::new().unwrap();
    let items = scanner.scan_content("test.rs", "// TODO first XXX second\n");
    assert_eq!(items.len(), 2);
    assert_eq!(items[0].tag, TodoTag::Todo);
    assert_eq!(items[1].tag, TodoTag::Xxx);
}

#[test]
fn test_crlf_lines() {
    let scanner = RegexScanner::new().unwrap();
    let items = scanner.scan_content("test.rs", "// TODO: one\r\n// FIXME: two\r\n");
    assert_eq!(items.len(), 2);
    assert_eq!(items[0].message, "one");
    assert_eq!(items[1].message, "two");
}
