use todo_tracker::model::{Priority, ScanMetadata, ScanResult, ScanStats, TodoItem, TodoTag};
use todo_tracker::output::markdown::format_metadata;
use todo_tracker::output::text::TextFormatter;
use todo_tracker::output::OutputFormatter;

fn sample_result() -> ScanResult {
    let items = vec![
        TodoItem {
            tag: TodoTag::Todo,
            message: "Add error handling".to_string(),
            file: "src/main.rs".to_string(),
            line: 12,
            column: 5,
            author: Some("alice".to_string()),
            issue: Some("123".to_string()),
            priority: None,
            context_line: "// TODO(alice): Add error handling #123".to_string(),
            git_author: None,
            git_date: None,
        },
        TodoItem {
            tag: TodoTag::Fixme,
            message: "This is broken".to_string(),
            file: "src/main.rs".to_string(),
            line: 45,
            column: 3,
            author: None,
            issue: None,
            priority: Some(Priority::High),
            context_line: "// FIXME: This is broken".to_string(),
            git_author: None,
            git_date: None,
        },
        TodoItem {
            tag: TodoTag::Hack,
            message: "Temporary workaround".to_string(),
            file: "src/lib.rs".to_string(),
            line: 3,
            column: 1,
            author: None,
            issue: None,
            priority: None,
            context_line: "// HACK: Temporary workaround".to_string(),
            git_author: None,
            git_date: None,
        },
    ];

    let by_tag = vec![
        ("TODO".to_string(), 1),
        ("FIXME".to_string(), 1),
        ("HACK".to_string(), 1),
    ];

    ScanResult {
        items,
        stats: ScanStats {
            files_scanned: 15,
            files_with_todos: 2,
            total_todos: 3,
            by_tag,
        },
        metadata: ScanMetadata {
            scan_duration_ms: 42,
            root_path: ".".to_string(),
            timestamp: "2026-02-05T00:00:00Z".to_string(),
        },
    }
}

#[test]
fn test_format_contains_file_paths() {
    let formatter = TextFormatter { show_summary: true };
    let result = sample_result();
    let output = formatter.format(&result).unwrap();

    assert!(output.contains("src/main.rs"), "Should contain src/main.rs");
    assert!(output.contains("src/lib.rs"), "Should contain src/lib.rs");
}

#[test]
fn test_format_contains_line_numbers() {
    let formatter = TextFormatter { show_summary: true };
    let result = sample_result();
    let output = formatter.format(&result).unwrap();

    assert!(output.contains("L12"), "Should contain L12");
    assert!(output.contains("L45"), "Should contain L45");
    assert!(output.contains("L3"), "Should contain L3");
}

#[test]
fn test_format_contains_tags() {
    let formatter = TextFormatter { show_summary: true };
    let result = sample_result();
    let output = formatter.format(&result).unwrap();

    assert!(output.contains("TODO"), "Should contain TODO tag");
    assert!(output.contains("FIXME"), "Should contain FIXME tag");
    assert!(output.contains("HACK"), "Should contain HACK tag");
}

#[test]
fn test_format_contains_messages() {
    let formatter = TextFormatter { show_summary: true };
    let result = sample_result();
    let output = formatter.format(&result).unwrap();

    assert!(output.contains("Add error handling"), "Should contain message");
    assert!(output.contains("This is broken"), "Should contain message");
    assert!(output.contains("Temporary workaround"), "Should contain message");
}

#[test]
fn test_format_contains_metadata() {
    let formatter = TextFormatter { show_summary: true };
    let result = sample_result();
    let output = formatter.format(&result).unwrap();

    assert!(output.contains("alice"), "Should contain author");
    assert!(output.contains("#123"), "Should contain issue");
    assert!(output.contains("p:high"), "Should contain priority");
}

#[test]
fn test_format_summary() {
    let formatter = TextFormatter { show_summary: true };
    let result = sample_result();
    let output = formatter.format(&result).unwrap();

    assert!(output.contains("Summary"), "Should contain Summary header");
    assert!(output.contains("3 TODOs in 2 files"), "Should contain total summary");
    assert!(output.contains("scanned 15 files in 42ms"), "Should contain scan info");
    assert!(output.contains("TODO: 1"), "Should contain TODO count");
    assert!(output.contains("FIXME: 1"), "Should contain FIXME count");
    assert!(output.contains("HACK: 1"), "Should contain HACK count");
}

#[test]
fn test_format_no_summary() {
    let formatter = TextFormatter { show_summary: false };
    let result = sample_result();
    let output = formatter.format(&result).unwrap();

    assert!(!output.contains("Summary"), "Should not contain Summary when disabled");
}

#[test]
fn test_format_metadata_all_fields() {
    let item = TodoItem {
        tag: TodoTag::Todo,
        message: "test".to_string(),
        file: "test.rs".to_string(),
        line: 1,
        column: 1,
        author: Some("bob".to_string()),
        issue: Some("456".to_string()),
        priority: Some(Priority::Critical),
        context_line: String::new(),
        git_author: None,
        git_date: None,
    };

    let meta = format_metadata(&item);
    assert_eq!(meta, "(bob, #456, p:critical)");
}

#[test]
fn test_format_metadata_no_fields() {
    let item = TodoItem {
        tag: TodoTag::Todo,
        message: "test".to_string(),
        file: "test.rs".to_string(),
        line: 1,
        column: 1,
        author: None,
        issue: None,
        priority: None,
        context_line: String::new(),
        git_author: None,
        git_date: None,
    };

    let meta = format_metadata(&item);
    assert!(meta.is_empty(), "No metadata should produce empty string");
}

#[test]
fn test_format_metadata_issue_with_hash() {
    let item = TodoItem {
        tag: TodoTag::Todo,
        message: "test".to_string(),
        file: "test.rs".to_string(),
        line: 1,
        column: 1,
        author: None,
        issue: Some("#789".to_string()),
        priority: None,
        context_line: String::new(),
        git_author: None,
        git_date: None,
    };

    let meta = format_metadata(&item);
    assert_eq!(meta, "(#789)", "Should not double-prefix #");
}

#[test]
fn text_test_empty_result() {
    let formatter = TextFormatter { show_summary: true };
    let result = ScanResult {
        items: vec![],
        stats: ScanStats {
            files_scanned: 5,
            files_with_todos: 0,
            total_todos: 0,
            by_tag: Vec::new(),
        },
        metadata: ScanMetadata {
            scan_duration_ms: 10,
            root_path: ".".to_string(),
            timestamp: "2026-02-05T00:00:00Z".to_string(),
        },
    };
    let output = formatter.format(&result).unwrap();

    assert!(output.contains("0 TODOs in 0 files"), "Should show zero counts");
}

#[test]
fn test_custom_tag_in_breakdown() {
    // A custom tag's count appears after the fixed five, under its own name.
    let mut result = sample_result();
    result.items.push(TodoItem {
        tag: TodoTag::Custom("WARN".to_string()),
        message: "beware".to_string(),
        file: "src/lib.rs".to_string(),
        line: 9,
        column: 1,
        author: None,
        issue: None,
        priority: None,
        context_line: String::new(),
        git_author: None,
        git_date: None,
    });
    result.stats.total_todos = 4;
    result.stats.by_tag.push(("WARN".to_string(), 1));
    let formatter = TextFormatter { show_summary: true };
    let output = formatter.format(&result).unwrap();
    assert!(output.contains("WARN: 1"));
}
