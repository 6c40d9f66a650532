use todo_tracker::model::{Priority, ScanMetadata, ScanResult, ScanStats, TodoItem, TodoTag};
use todo_tracker::output::markdown::MarkdownFormatter;
use todo_tracker::output::OutputFormatter;

fn sample_result() -> ScanResult {
    let items = vec![
        TodoItem {
            tag: TodoTag::Todo,
            message: "Add error handling".to_string(),
            file: "src/main.rs".to_string(),
            line: 12,
            column: 5,
            author: Some("alice".to_string()),
            issue: Some("123".to_string()),
            priority: None,
            context_line: "// TODO(alice): Add error handling #123".to_string(),
            git_author: None,
            git_date: None,
        },
        TodoItem {
            tag: TodoTag::Fixme,
            message: "This is broken".to_string(),
            file: "src/main.rs".to_string(),
            line: 45,
            column: 3,
            author: None,
            issue: None,
            priority: Some(Priority::High),
            context_line: "// FIXME: This is broken".to_string(),
            git_author: None,
            git_date: None,
        },
        TodoItem {
            tag: TodoTag::Hack,
            message: "Temporary workaround".to_string(),
            file: "src/lib.rs".to_string(),
            line: 3,
            column: 1,
            author: None,
            issue: None,
            priority: None,
            context_line: "// HACK: Temporary workaround".to_string(),
            git_author: None,
            git_date: None,
        },
    ];

    let by_tag = vec![
        ("TODO".to_string(), 1),
        ("FIXME".to_string(), 1),
        ("HACK".to_string(), 1),
    ];

    ScanResult {
        items,
        stats: ScanStats {
            files_scanned: 15,
            files_with_todos: 2,
            total_todos: 3,
            by_tag,
        },
        metadata: ScanMetadata {
            scan_duration_ms: 42,
            root_path: ".".to_string(),
            timestamp: "2026-02-05T00:00:00Z".to_string(),
        },
    }
}

#[test]
fn test_markdown_has_title() {
    let formatter = MarkdownFormatter;
    let result = sample_result();
    let output = formatter.format(&result).unwrap();
    assert!(output.starts_with("# TODO Report\n"));
}

#[test]
fn test_markdown_has_file_headings() {
    let formatter = MarkdownFormatter;
    let result = sample_result();
    let output = formatter.format(&result).unwrap();
    assert!(output.contains("## src/main.rs"), "Should have file heading for src/main.rs");
    assert!(output.contains("## src/lib.rs"), "Should have file heading for src/lib.rs");
}

#[test]
fn test_markdown_has_items_with_tags() {
    let formatter = MarkdownFormatter;
    let result = sample_result();
    let output = formatter.format(&result).unwrap();
    assert!(output.contains("**TODO** (L12): Add error handling"));
    assert!(output.contains("**FIXME** (L45): This is broken"));
    assert!(output.contains("**HACK** (L3): Temporary workaround"));
}

#[test]
fn test_markdown_has_metadata() {
    let formatter = MarkdownFormatter;
    let result = sample_result();
    let output = formatter.format(&result).unwrap();
    assert!(output.contains("*(alice, #123)*"), "Should show author and issue");
    assert!(output.contains("*(p:high)*"), "Should show priority");
}

#[test]
fn test_markdown_has_summary() {
    let formatter = MarkdownFormatter;
    let result = sample_result();
    let output = formatter.format(&result).unwrap();
    assert!(output.contains("---"), "Should have horizontal rule before summary");
    assert!(output.contains("**3 TODOs** in 2 files"));
    assert!(output.contains("scanned 15 files in 42ms"));
}

#[test]
fn test_markdown_empty_result() {
    let formatter = MarkdownFormatter;
    let result = ScanResult {
        items: vec![],
        stats: ScanStats {
            files_scanned: 5,
            files_with_todos: 0,
            total_todos: 0,
            by_tag: Vec::new(),
        },
        metadata: ScanMetadata {
            scan_duration_ms: 10,
            root_path: ".".to_string(),
            timestamp: "2026-02-05T00:00:00Z".to_string(),
        },
    };
    let output = formatter.format(&result).unwrap();
    assert!(output.contains("No TODO items found."));
    assert!(output.contains("**0 TODOs** in 0 files"));
}

#[test]
fn test_markdown_no_metadata_no_italic() {
    let formatter = MarkdownFormatter;
    let items = vec![TodoItem {
        tag: TodoTag::Hack,
        message: "Temporary workaround".to_string(),
        file: "src/lib.rs".to_string(),
        line: 3,
        column: 1,
        author: None,
        issue: None,
        priority: None,
        context_line: "// HACK: Temporary workaround".to_string(),
        git_author: None,
        git_date: None,
    }];

    let by_tag = vec![("HACK".to_string(), 1)];

    let result = ScanResult {
        items,
        stats: ScanStats {
            files_scanned: 1,
            files_with_todos: 1,
            total_todos: 1,
            by_tag,
        },
        metadata: ScanMetadata {
            scan_duration_ms: 1,
            root_path: ".".to_string(),
            timestamp: "2026-02-05T00:00:00Z".to_string(),
        },
    };

    let output = formatter.format(&result).unwrap();
    assert!(output.contains("- **HACK** (L3): Temporary workaround\n"));
}
