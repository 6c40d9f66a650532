use std::collections::HashSet;
use todo_tracker::scanner::languages::LanguageDatabase;

#[test]
fn test_rust_extension() {
    let db = LanguageDatabase::new();
    let lang = db.from_extension("rs").unwrap();
    assert_eq!(lang.name, "Rust");
    assert_eq!(lang.line_comments, vec!["//".to_string()]);
    assert_eq!(lang.block_comment_start.as_deref(), Some("/*"));
    assert_eq!(lang.block_comment_end.as_deref(), Some("*/"));
}

#[test]
fn test_python_extensions() {
    let db = LanguageDatabase::new();
    let lang = db.from_extension("py").unwrap();
    assert_eq!(lang.name, "Python");
    assert_eq!(lang.line_comments, vec!["#".to_string()]);
    assert_eq!(lang.block_comment_start, None);

    let lang2 = db.from_extension("pyi").unwrap();
    assert_eq!(lang2.name, "Python");
}

#[test]
fn test_javascript_extensions() {
    let db = LanguageDatabase::new();
    for ext in &["js", "jsx", "mjs", "cjs"] {
        let lang = db.from_extension(ext).unwrap();
        assert_eq!(lang.name, "JavaScript");
    }
}

#[test]
fn test_typescript_extensions() {
    let db = LanguageDatabase::new();
    for ext in &["ts", "tsx"] {
        let lang = db.from_extension(ext).unwrap();
        assert_eq!(lang.name, "TypeScript");
    }
}

#[test]
fn test_cpp_extensions() {
    let db = LanguageDatabase::new();
    for ext in &["cpp", "cxx", "cc", "hpp", "hxx", "hh"] {
        let lang = db.from_extension(ext).unwrap();
        assert_eq!(lang.name, "C++");
    }
}

#[test]
fn test_c_extensions() {
    let db = LanguageDatabase::new();
    for ext in &["c", "h"] {
        let lang = db.from_extension(ext).unwrap();
        assert_eq!(lang.name, "C");
    }
}

#[test]
fn test_go_extension() {
    let db = LanguageDatabase::new();
    let lang = db.from_extension("go").unwrap();
    assert_eq!(lang.name, "Go");
}

#[test]
fn test_java_extension() {
    let db = LanguageDatabase::new();
    let lang = db.from_extension("java").unwrap();
    assert_eq!(lang.name, "Java");
}

#[test]
fn test_csharp_extension() {
    let db = LanguageDatabase::new();
    let lang = db.from_extension("cs").unwrap();
    assert_eq!(lang.name, "C#");
}

#[test]
fn test_ruby_extension() {
    let db = LanguageDatabase::new();
    let lang = db.from_extension("rb").unwrap();
    assert_eq!(lang.name, "Ruby");
    assert_eq!(lang.line_comments, vec!["#".to_string()]);
    assert_eq!(lang.block_comment_start, None);
}

#[test]
fn test_unknown_extension() {
    let db = LanguageDatabase::new();
    assert!(db.from_extension("xyz").is_none());
    assert!(db.from_extension("").is_none());
}

#[test]
fn test_all_ten_languages_registered() {
    let db = LanguageDatabase::new();
    let unique_names: HashSet<&str> = db.languages.iter().map(|lang| lang.name.as_str()).collect();
    assert_eq!(unique_names.len(), 10);
}
