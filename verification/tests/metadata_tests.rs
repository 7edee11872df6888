use nntp_rs::response::{HeaderEntry, NewsGroup, OverviewEntry};

#[test]
fn test_newsgroup() {
    let group = NewsGroup {
        name: "misc.test".to_string(),
        last: 100,
        first: 1,
        posting_status: 'y',
    };
    assert_eq!(group.name, "misc.test");
    assert_eq!(group.first, 1);
    assert_eq!(group.last, 100);
    assert_eq!(group.posting_status, 'y');
}

#[test]
fn test_overview_entry() {
    let entry = OverviewEntry {
        fields: vec![
            "3000".to_string(),
            "I am just a test article".to_string(),
            "demo@example.com".to_string(),
            "6 Oct 1998 04:38:40 -0500".to_string(),
            "<45223423@example.com>".to_string(),
            "".to_string(),
            "1234".to_string(),
            "42".to_string(),
        ],
    };

    assert_eq!(entry.number(), Some(3000));
    assert_eq!(entry.subject(), Some("I am just a test article"));
    assert_eq!(entry.from(), Some("demo@example.com"));
    assert_eq!(entry.date(), Some("6 Oct 1998 04:38:40 -0500"));
    assert_eq!(entry.message_id(), Some("<45223423@example.com>"));
    assert_eq!(entry.references(), Some(""));
    assert_eq!(entry.byte_count(), Some(1234));
    assert_eq!(entry.line_count(), Some(42));

    // Test get_default_field
    assert_eq!(
        entry.get_default_field("subject"),
        Some("I am just a test article")
    );
    assert_eq!(entry.get_default_field("from"), Some("demo@example.com"));
    assert_eq!(entry.get_default_field("bytes"), Some("1234"));
    assert_eq!(entry.get_default_field("lines"), Some("42"));
    assert_eq!(entry.get_default_field("unknown"), None);
}

#[test]
fn test_header_entry() {
    let entry = HeaderEntry {
        article: "3000".to_string(),
        value: "Test Subject".to_string(),
    };
    assert_eq!(entry.article, "3000");
    assert_eq!(entry.value, "Test Subject");
}
