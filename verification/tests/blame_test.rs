use todo_tracker::git::blame::{format_timestamp, is_leap_year, parse_blame_porcelain};

#[test]
fn test_format_timestamp_epoch() {
    // Unix epoch
    assert_eq!(format_timestamp(0), "1970-01-01");
}

#[test]
fn test_format_timestamp_known_date() {
    // midnight UTC
    assert_eq!(format_timestamp(1697328000), "2023-10-15");
}

#[test]
fn test_format_timestamp_leap_year() {
    assert_eq!(format_timestamp(1709251200), "2024-03-01");
    assert_eq!(format_timestamp(1709164800), "2024-02-29");
}

#[test]
fn test_format_timestamp_year_2000() {
    assert_eq!(format_timestamp(946684800), "2000-01-01");
}

#[test]
fn test_is_leap_year() {
    assert!(is_leap_year(2000)); // divisible by 400
    assert!(!is_leap_year(1900)); // divisible by 100 but not 400
    assert!(is_leap_year(2024)); // divisible by 4 but not 100
    assert!(!is_leap_year(2023)); // not divisible by 4
}

#[test]
fn test_parse_blame_porcelain_basic() {
    let porcelain = "\
abc1234567890abcdef1234567890abcdef123456 1 1 1
author Alice Smith
author-mail <alice@example.com>
author-time 1697328000
author-tz +0000
committer Alice Smith
committer-mail <alice@example.com>
committer-time 1697328000
committer-tz +0000
summary Initial commit
filename src/main.rs
\t// TODO: fix this
def4567890abcdef1234567890abcdef12345678 2 2 1
author Bob Jones
author-mail <bob@example.com>
author-time 1709164800
author-tz +0000
committer Bob Jones
committer-mail <bob@example.com>
committer-time 1709164800
committer-tz +0000
summary Second commit
filename src/main.rs
\tfn main() {}
";

    let result = parse_blame_porcelain(porcelain).unwrap();

    assert_eq!(result.len(), 2);

    let line1 = result.get(&1).expect("should have line 1");
    assert_eq!(line1.author, "Alice Smith");
    assert_eq!(line1.date, "2023-10-15");
    assert_eq!(line1.commit, "abc1234567890abcdef1234567890abcdef123456");

    let line2 = result.get(&2).expect("should have line 2");
    assert_eq!(line2.author, "Bob Jones");
    assert_eq!(line2.date, "2024-02-29");
    assert_eq!(line2.commit, "def4567890abcdef1234567890abcdef12345678");
}

#[test]
fn test_parse_blame_porcelain_empty() {
    let result = parse_blame_porcelain("").unwrap();
    assert!(result.is_empty());
}

#[test]
fn test_parse_blame_porcelain_repeated_commit() {
    // Later lines of the same commit only repeat the abbreviated header.
    let porcelain = "\
abc1234567890abcdef1234567890abcdef123456 1 1 3
author Alice Smith
author-mail <alice@example.com>
author-time 1697328000
author-tz +0000
committer Alice Smith
committer-mail <alice@example.com>
committer-time 1697328000
committer-tz +0000
summary Initial commit
filename src/main.rs
\tline one
abc1234567890abcdef1234567890abcdef123456 2 2
\tline two
abc1234567890abcdef1234567890abcdef123456 3 3
\tline three
";

    let result = parse_blame_porcelain(porcelain).unwrap();
    assert_eq!(result.len(), 3);
    for k in 1..=3usize {
        let info = result.get(&k).unwrap();
        assert_eq!(info.author, "Alice Smith");
        assert_eq!(info.commit, "abc1234567890abcdef1234567890abcdef123456");
    }
}
