use todo_tracker::config::Config;

#[test]
fn test_default_config() {
    let config = Config::default();
    assert!(config.scan.is_none());
    assert!(config.output.is_none());
    assert!(config.filter.is_none());
}

#[test]
fn test_default_accessors() {
    let config = Config::default();
    assert_eq!(config.get_max_file_size(), 1_048_576);
    assert_eq!(config.get_format(), "text");
}

#[test]
fn test_default_template_is_valid_comment_only() {
    let template = Config::default_template();
    // The template is all comments, so parsing it should yield an empty table
    let value: toml::Value = toml::from_str(&template).unwrap();
    let table = value.as_table().unwrap();
    assert!(table.get("scan").is_none());
    assert!(table.get("output").is_none());
    assert!(table.get("filter").is_none());
}
