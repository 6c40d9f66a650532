use todo_tracker::model::{Priority, ScanMetadata, ScanResult, ScanStats, TodoItem, TodoTag};
use todo_tracker::output::csv::CsvFormatter;
use todo_tracker::output::OutputFormatter;

fn sample_result() -> ScanResult {
    let items = vec![
        TodoItem {
            tag: TodoTag::Todo,
            message: "Add error handling".to_string(),
            file: "src/main.rs".to_string(),
            line: 12,
            column: 5,
            author: Some("alice".to_string()),
            issue: Some("123".to_string()),
            priority: None,
            context_line: "// TODO(alice): Add error handling #123".to_string(),
            git_author: None,
            git_date: None,
        },
        TodoItem {
            tag: TodoTag::Fixme,
            message: "This is broken".to_string(),
            file: "src/main.rs".to_string(),
            line: 45,
            column: 3,
            author: None,
            issue: None,
            priority: Some(Priority::High),
            context_line: "// FIXME: This is broken".to_string(),
            git_author: None,
            git_date: None,
        },
    ];

    let by_tag = vec![("TODO".to_string(), 1), ("FIXME".to_string(), 1)];

    ScanResult {
        items,
        stats: ScanStats {
            files_scanned: 10,
            files_with_todos: 1,
            total_todos: 2,
            by_tag,
        },
        metadata: ScanMetadata {
            scan_duration_ms: 25,
            root_path: ".".to_string(),
            timestamp: "2026-02-05T00:00:00Z".to_string(),
        },
    }
}

#[test]
fn test_csv_has_header() {
    let formatter = CsvFormatter;
    let result = sample_result();
    let output = formatter.format(&result).unwrap();
    let first_line = output.lines().next().unwrap();
    assert_eq!(first_line, "file,line,column,tag,message,author,issue,priority");
}

#[test]
fn test_csv_row_count() {
    let formatter = CsvFormatter;
    let result = sample_result();
    let output = formatter.format(&result).unwrap();
    let lines: Vec<&str> = output.lines().collect();
    // one header plus two data rows
    assert_eq!(lines.len(), 3);
}

#[test]
fn test_csv_data_row_content() {
    let formatter = CsvFormatter;
    let result = sample_result();
    let output = formatter.format(&result).unwrap();
    let lines: Vec<&str> = output.lines().collect();

    assert!(lines[1].contains("src/main.rs"));
    assert!(lines[1].contains("12"));
    assert!(lines[1].contains("TODO"));
    assert!(lines[1].contains("Add error handling"));
    assert!(lines[1].contains("alice"));
    assert!(lines[1].contains("123"));
}

#[test]
fn test_csv_priority_field() {
    let formatter = CsvFormatter;
    let result = sample_result();
    let output = formatter.format(&result).unwrap();
    let lines: Vec<&str> = output.lines().collect();

    // the second data row carries the high priority
    assert!(lines[2].contains("high"));
}

#[test]
fn test_csv_empty_result() {
    let formatter = CsvFormatter;
    let result = ScanResult {
        items: vec![],
        stats: ScanStats {
            files_scanned: 0,
            files_with_todos: 0,
            total_todos: 0,
            by_tag: Vec::new(),
        },
        metadata: ScanMetadata {
            scan_duration_ms: 0,
            root_path: ".".to_string(),
            timestamp: "2026-02-05T00:00:00Z".to_string(),
        },
    };
    let output = formatter.format(&result).unwrap();
    let lines: Vec<&str> = output.lines().collect();
    assert_eq!(lines.len(), 1);
    assert_eq!(lines[0], "file,line,column,tag,message,author,issue,priority");
}

#[test]
fn test_csv_message_with_comma() {
    let formatter = CsvFormatter;
    let items = vec![TodoItem {
        tag: TodoTag::Todo,
        message: "Fix this, please".to_string(),
        file: "test.rs".to_string(),
        line: 1,
        column: 1,
        author: None,
        issue: None,
        priority: None,
        context_line: String::new(),
        git_author: None,
        git_date: None,
    }];

    let by_tag = vec![("TODO".to_string(), 1)];

    let result = ScanResult {
        items,
        stats: ScanStats {
            files_scanned: 1,
            files_with_todos: 1,
            total_todos: 1,
            by_tag,
        },
        metadata: ScanMetadata {
            scan_duration_ms: 0,
            root_path: ".".to_string(),
            timestamp: "2026-02-05T00:00:00Z".to_string(),
        },
    };

    let output = formatter.format(&result).unwrap();
    assert!(
        output.contains("\"Fix this, please\""),
        "Commas in fields should be properly quoted"
    );
}
