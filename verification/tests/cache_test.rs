use todo_tracker::cache::db::CacheDb;
use todo_tracker::model::{Priority, TodoItem, TodoTag};

fn make_todo(file: &str, line: usize, tag: TodoTag, message: &str) -> TodoItem {
    let context_line = format!("// {}: {}", tag.as_str(), message);
    TodoItem {
        file: file.to_string(),
        line,
        column: 1,
        tag,
        message: message.to_string(),
        author: None,
        issue: None,
        priority: None,
        context_line,
        git_author: None,
        git_date: None,
    }
}

#[test]
fn test_open_in_memory() {
    let mut db = CacheDb::open_in_memory().unwrap();
    // Clearing a fresh store succeeds
    db.clear().unwrap();
}

#[test]
fn test_file_freshness_unknown_file() {
    let db = CacheDb::open_in_memory().unwrap();
    assert!(!db.is_file_fresh("nonexistent.rs", 100, 200));
}

#[test]
fn test_store_and_retrieve_todos() {
    let mut db = CacheDb::open_in_memory().unwrap();
    let path = "src/main.rs";
    let items = vec![
        make_todo("src/main.rs", 10, TodoTag::Todo, "fix this"),
        make_todo("src/main.rs", 20, TodoTag::Fixme, "urgent fix"),
    ];

    db.store_file(path, 1000, 500, &items).unwrap();

    let retrieved = db.get_todos(path);
    assert_eq!(retrieved.len(), 2);
    assert_eq!(retrieved[0].line, 10);
    assert_eq!(retrieved[0].tag, TodoTag::Todo);
    assert_eq!(retrieved[0].message, "fix this");
    assert_eq!(retrieved[1].line, 20);
    assert_eq!(retrieved[1].tag, TodoTag::Fixme);
    assert_eq!(retrieved[1].message, "urgent fix");
}

#[test]
fn test_file_freshness_after_store() {
    let mut db = CacheDb::open_in_memory().unwrap();
    let path = "src/lib.rs";

    db.store_file(path, 1000, 500, &Vec::new()).unwrap();

    // Same mtime and size: fresh
    assert!(db.is_file_fresh(path, 1000, 500));

    // Different mtime: stale
    assert!(!db.is_file_fresh(path, 1001, 500));

    // Different size: stale
    assert!(!db.is_file_fresh(path, 1000, 501));
}

#[test]
fn test_store_replaces_old_todos() {
    let mut db = CacheDb::open_in_memory().unwrap();
    let path = "src/main.rs";

    let items_v1 = vec![make_todo("src/main.rs", 10, TodoTag::Todo, "old task")];
    db.store_file(path, 1000, 500, &items_v1).unwrap();

    let items_v2 = vec![
        make_todo("src/main.rs", 5, TodoTag::Hack, "new hack"),
        make_todo("src/main.rs", 15, TodoTag::Bug, "new bug"),
    ];
    db.store_file(path, 1001, 600, &items_v2).unwrap();

    let retrieved = db.get_todos(path);
    assert_eq!(retrieved.len(), 2);
    assert_eq!(retrieved[0].message, "new hack");
    assert_eq!(retrieved[1].message, "new bug");
}

#[test]
fn test_store_with_priority_and_metadata() {
    let mut db = CacheDb::open_in_memory().unwrap();
    let path = "src/main.rs";

    let mut item = make_todo("src/main.rs", 10, TodoTag::Todo, "critical task");
    item.priority = Some(Priority::Critical);
    item.author = Some("alice".to_string());
    item.issue = Some("#123".to_string());

    db.store_file(path, 1000, 500, &vec![item]).unwrap();

    let retrieved = db.get_todos(path);
    assert_eq!(retrieved.len(), 1);
    assert_eq!(retrieved[0].priority, Some(Priority::Critical));
    assert_eq!(retrieved[0].author, Some("alice".to_string()));
    assert_eq!(retrieved[0].issue, Some("#123".to_string()));
}

#[test]
fn test_get_todos_empty_file() {
    let db = CacheDb::open_in_memory().unwrap();
    let retrieved = db.get_todos("no/such/file.rs");
    assert!(retrieved.is_empty());
}

#[test]
fn test_clear() {
    let mut db = CacheDb::open_in_memory().unwrap();
    let path = "src/main.rs";
    let items = vec![make_todo("src/main.rs", 10, TodoTag::Todo, "task")];

    db.store_file(path, 1000, 500, &items).unwrap();
    assert!(db.is_file_fresh(path, 1000, 500));
    assert_eq!(db.get_todos(path).len(), 1);

    db.clear().unwrap();
    assert!(!db.is_file_fresh(path, 1000, 500));
    assert!(db.get_todos(path).is_empty());
}
