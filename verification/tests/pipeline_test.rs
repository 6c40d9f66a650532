use todo_tracker::cache::db::CacheDb;
use todo_tracker::git::blame::{apply_blame, parse_blame_porcelain};
use todo_tracker::git::diff::diff_items;
use todo_tracker::model::{Priority, TodoItem, TodoTag};
use todo_tracker::output::OutputFormat;
use todo_tracker::scanner::build_scan_result;
use todo_tracker::scanner::incremental::{cached_items_if_fresh, scan_and_store};
use todo_tracker::scanner::regex::RegexScanner;

fn make_item(file: &str, line: usize, tag: TodoTag, message: &str) -> TodoItem {
    TodoItem {
        tag,
        message: message.to_string(),
        file: file.to_string(),
        line,
        column: 1,
        author: None,
        issue: None,
        priority: None,
        context_line: String::new(),
        git_author: None,
        git_date: None,
    }
}

#[test]
fn test_build_scan_result_sorts_and_counts() {
    let items = vec![
        make_item("b.rs", 2, TodoTag::Fixme, "second"),
        make_item("a.rs", 9, TodoTag::Todo, "third"),
        make_item("a.rs", 1, TodoTag::Todo, "first"),
    ];
    let result = build_scan_result(items, 7, 42, ".".to_string(), "now".to_string());

    assert_eq!(result.items.len(), 3);
    assert_eq!(result.items[0].file, "a.rs");
    assert_eq!(result.items[0].line, 1);
    assert_eq!(result.items[1].file, "a.rs");
    assert_eq!(result.items[1].line, 9);
    assert_eq!(result.items[2].file, "b.rs");

    assert_eq!(result.stats.total_todos, 3);
    assert_eq!(result.stats.files_with_todos, 2);
    assert_eq!(result.stats.files_scanned, 7);
    assert_eq!(result.stats.by_tag_count("TODO"), 2);
    assert_eq!(result.stats.by_tag_count("FIXME"), 1);
    assert_eq!(result.stats.by_tag_count("HACK"), 0);
    assert_eq!(result.metadata.scan_duration_ms, 42);
}

#[test]
fn test_build_scan_result_sort_is_stable() {
    let items = vec![
        make_item("a.rs", 5, TodoTag::Todo, "left"),
        make_item("a.rs", 5, TodoTag::Xxx, "right"),
    ];
    let result = build_scan_result(items, 1, 0, ".".to_string(), "now".to_string());
    assert_eq!(result.items[0].message, "left");
    assert_eq!(result.items[1].message, "right");
}

#[test]
fn test_incremental_rescan_reproduces_fresh_scan() {
    // A fresh scan, stored and read back through the cache, yields the
    // same item list field for field.
    let scanner = RegexScanner::new().unwrap();
    let mut cache = CacheDb::open_in_memory().unwrap();
    let content = "// TODO(alice, #9, p:low): one\n// FIXME: two\n";
    let path = "src/demo.rs";

    assert!(cached_items_if_fresh(&cache, path, 10, 20).is_none());

    let (fresh_items, stored) = scan_and_store(&scanner, &mut cache, path, 10, 20, content);
    assert!(stored);
    assert_eq!(fresh_items.len(), 2);

    let cached = cached_items_if_fresh(&cache, path, 10, 20).expect("fingerprint should match");
    assert_eq!(cached.len(), fresh_items.len());
    for (a, b) in cached.iter().zip(fresh_items.iter()) {
        assert_eq!(a.tag, b.tag);
        assert_eq!(a.message, b.message);
        assert_eq!(a.file, b.file);
        assert_eq!(a.line, b.line);
        assert_eq!(a.column, b.column);
        assert_eq!(a.author, b.author);
        assert_eq!(a.issue, b.issue);
        assert_eq!(a.priority, b.priority);
        assert_eq!(a.context_line, b.context_line);
    }
}

#[test]
fn test_store_then_freshness_edges() {
    // Storing (m, s) makes exactly (m, s) fresh; bumping either field is stale.
    let mut cache = CacheDb::open_in_memory().unwrap();
    let path = "x.rs";
    cache.store_file(path, 5, 7, &Vec::new()).unwrap();
    assert!(cache.is_file_fresh(path, 5, 7));
    assert!(!cache.is_file_fresh(path, 6, 7));
    assert!(!cache.is_file_fresh(path, 5, 8));
}

#[test]
fn test_diff_items_added_and_removed() {
    let base = vec![
        make_item("a.rs", 1, TodoTag::Todo, "kept"),
        make_item("a.rs", 2, TodoTag::Fixme, "gone"),
    ];
    let head = vec![
        make_item("a.rs", 3, TodoTag::Todo, "kept"),
        make_item("b.rs", 1, TodoTag::Hack, "new"),
    ];
    let diff = diff_items(&base, &head, "main", "HEAD");
    assert_eq!(diff.base_ref, "main");
    assert_eq!(diff.head_ref, "HEAD");
    assert_eq!(diff.added.len(), 1);
    assert_eq!(diff.added[0].message, "new");
    assert_eq!(diff.removed.len(), 1);
    assert_eq!(diff.removed[0].message, "gone");
}

#[test]
fn test_apply_blame_attaches_author_and_date() {
    let porcelain = "\
abc1234567890abcdef1234567890abcdef123456 1 1 1
author Alice Smith
author-time 1697328000
\t// TODO: fix this
";
    let blame = parse_blame_porcelain(porcelain).unwrap();
    let mut items = vec![
        make_item("src/main.rs", 1, TodoTag::Todo, "fix this"),
        make_item("src/main.rs", 2, TodoTag::Fixme, "unknown line"),
    ];
    apply_blame(&mut items, &blame);
    assert_eq!(items[0].git_author.as_deref(), Some("Alice Smith"));
    assert_eq!(items[0].git_date.as_deref(), Some("2023-10-15"));
    assert!(items[1].git_author.is_none());
}

#[test]
fn test_output_format_from_str() {
    assert_eq!(OutputFormat::from_str("text").unwrap(), OutputFormat::Text);
    assert_eq!(OutputFormat::from_str("JSON").unwrap(), OutputFormat::Json);
    assert_eq!(OutputFormat::from_str("md").unwrap(), OutputFormat::Markdown);
    assert_eq!(OutputFormat::from_str("ga").unwrap(), OutputFormat::GithubActions);
    let err = OutputFormat::from_str("yaml").unwrap_err();
    assert_eq!(err, "Unknown output format: yaml");
}

#[test]
fn test_priority_aliases() {
    assert_eq!(Priority::from_str_tag("p:high"), Some(Priority::High));
    assert_eq!(Priority::from_str_tag("p3"), Some(Priority::Low));
    assert_eq!(Priority::from_str_tag("LOW"), Some(Priority::Low));
    assert_eq!(Priority::from_str_tag("MED"), Some(Priority::Medium));
    assert_eq!(Priority::from_str_tag("crit"), Some(Priority::Critical));
    assert_eq!(Priority::from_str_tag("urgent"), None);
}

#[test]
fn test_tag_from_str_custom() {
    assert_eq!(TodoTag::from_str("todo"), TodoTag::Todo);
    assert_eq!(TodoTag::from_str("NOTE"), TodoTag::Custom("NOTE".to_string()));
    // a custom tag keeps its case as written
    assert_eq!(TodoTag::from_str("note"), TodoTag::Custom("note".to_string()));
    assert_eq!(TodoTag::from_str("note").as_str(), "note");
}

#[test]
fn test_custom_tag_not_extracted_by_scanner() {
    // The scanner's vocabulary is the fixed five; other words pass by.
    let scanner = RegexScanner::new().unwrap();
    let items = scanner.scan_content("test.rs", "// NOTE: not in the vocabulary\n");
    assert_eq!(items.len(), 0);
}

#[test]
fn test_binary_extension_screen() {
    assert!(todo_tracker::discovery::is_binary_extension("logo.PNG"));
    assert!(todo_tracker::discovery::is_binary_extension("a/b/c.exe"));
    assert!(!todo_tracker::discovery::is_binary_extension("src/main.rs"));
    assert!(!todo_tracker::discovery::is_binary_extension("README"));
}

#[test]
fn test_discovery_builders() {
    let d = todo_tracker::discovery::FileDiscovery::new(".")
        .with_max_file_size(500)
        .with_gitignore(false);
    assert_eq!(d.root(), ".");
    assert_eq!(d.max_file_size, 500);
    assert!(!d.respect_gitignore);
}
