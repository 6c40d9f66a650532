use todo_tracker::model::Priority;
use todo_tracker::scanner::languages::LanguageDatabase;
use todo_tracker::scanner::regex::{extract_message, is_line_comment, parse_metadata,
    path_extension};

#[test]
fn test_is_line_comment_prefixes() {
    let db = LanguageDatabase::new();
    let rust = db.from_extension("rs").unwrap();
    assert!(is_line_comment("// a comment", &rust));
    assert!(!is_line_comment("let x = 1;", &rust));
    let python = db.from_extension("py").unwrap();
    assert!(is_line_comment("# a comment", &python));
    assert!(!is_line_comment("// not python", &python));
}

#[test]
fn test_parse_metadata_classification() {
    let (author, issue, priority) = parse_metadata("alice, #123, p:high");
    assert_eq!(author.as_deref(), Some("alice"));
    assert_eq!(issue.as_deref(), Some("#123"));
    assert_eq!(priority, Some(Priority::High));
}

#[test]
fn test_parse_metadata_first_author_wins() {
    let (author, _, _) = parse_metadata("alice, bob");
    assert_eq!(author.as_deref(), Some("alice"));
}

#[test]
fn test_parse_metadata_empty_tokens_skipped() {
    let (author, issue, priority) = parse_metadata(" , #7 , ");
    assert!(author.is_none());
    assert_eq!(issue.as_deref(), Some("#7"));
    assert!(priority.is_none());
}

#[test]
fn test_extract_message_strips_leading_punctuation() {
    let line = "// TODO: - fix the build";
    // the match covers the tag word at columns 4 through 7
    assert_eq!(extract_message(line, 3, 7), "fix the build");
}

#[test]
fn test_extract_message_skips_paren_group() {
    let line = "// TODO(alice): tidy up";
    assert_eq!(extract_message(line, 3, 7), "tidy up");
}

#[test]
fn test_extract_message_empty() {
    let line = "// TODO";
    assert_eq!(extract_message(line, 3, 7), "");
}

#[test]
fn test_path_extension_cases() {
    assert_eq!(path_extension("src/main.rs"), "rs");
    assert_eq!(path_extension("archive.tar.gz"), "gz");
    assert_eq!(path_extension("Makefile"), "");
    assert_eq!(path_extension("src/.hidden"), "");
}
