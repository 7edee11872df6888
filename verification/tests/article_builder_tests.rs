use nntp_rs::error::Error;
use nntp_rs::response::Article;
use nntp_rs::threading::{ArticleBuilder, FetchedArticle, ThreadedArticleRef};

#[test]
fn test_article_builder_basic() {
    let article = ArticleBuilder::new()
        .from("Test User <test@example.com>")
        .subject("Hello World")
        .newsgroup("misc.test")
        .body("This is a test.")
        .build()
        .unwrap();

    assert!(article.contains("From: Test User <test@example.com>"));
    assert!(article.contains("Subject: Hello World"));
    assert!(article.contains("Newsgroups: misc.test"));
    assert!(article.contains("\r\n\r\n")); // Header/body separator
    assert!(article.contains("This is a test."));
}

#[test]
fn test_article_builder_multiple_newsgroups() {
    let article = ArticleBuilder::new()
        .from("test@example.com")
        .subject("Cross-post")
        .newsgroup("misc.test")
        .newsgroup("alt.test")
        .body("Test")
        .build()
        .unwrap();

    assert!(article.contains("Newsgroups: misc.test,alt.test"));
}

#[test]
fn test_article_builder_with_reply() {
    let parent = ThreadedArticleRef {
        message_id: "<parent@example.com>".to_string(),
        number: Some(1),
        subject: "Original Subject".to_string(),
        from: "other@example.com".to_string(),
        date: "2024-01-01".to_string(),
        parent_id: None,
        references: vec!["<grandparent@example.com>".to_string()],
        byte_count: None,
        line_count: None,
    };

    let article = ArticleBuilder::new()
        .from("test@example.com")
        .subject("Original Subject")
        .newsgroup("misc.test")
        .body("My reply")
        .in_reply_to(&parent)
        .build()
        .unwrap();

    assert!(article.contains("Subject: Re: Original Subject"));
    assert!(article.contains("In-Reply-To: <parent@example.com>"));
    assert!(article.contains("References: <grandparent@example.com> <parent@example.com>"));
}

#[test]
fn test_article_builder_custom_headers() {
    let article = ArticleBuilder::new()
        .from("test@example.com")
        .subject("Test")
        .newsgroup("misc.test")
        .body("Test")
        .header("Organization", "Test Corp")
        .header("X-Custom", "value")
        .build()
        .unwrap();

    assert!(article.contains("Organization: Test Corp"));
    assert!(article.contains("X-Custom: value"));
}

#[test]
fn test_article_builder_missing_from() {
    let result = ArticleBuilder::new()
        .subject("Test")
        .newsgroup("misc.test")
        .body("Test")
        .build();

    assert!(result.is_err());
    let err = result.unwrap_err();
    assert!(matches!(err, Error::ArticleBuilder(_)));
}

#[test]
fn test_article_builder_missing_subject() {
    let result = ArticleBuilder::new()
        .from("test@example.com")
        .newsgroup("misc.test")
        .body("Test")
        .build();

    assert!(result.is_err());
}

#[test]
fn test_article_builder_missing_newsgroup() {
    let result = ArticleBuilder::new()
        .from("test@example.com")
        .subject("Test")
        .body("Test")
        .build();

    assert!(result.is_err());
}

#[test]
fn test_article_builder_missing_body() {
    let result = ArticleBuilder::new()
        .from("test@example.com")
        .subject("Test")
        .newsgroup("misc.test")
        .build();

    assert!(result.is_err());
}

#[test]
fn test_article_builder_with_newsgroups() {
    let article = ArticleBuilder::new()
        .from("test@example.com")
        .subject("Test")
        .newsgroups(vec!["misc.test", "alt.test", "comp.test"])
        .body("Test body")
        .build()
        .unwrap();

    assert!(article.contains("Newsgroups: misc.test,alt.test,comp.test"));
}

#[test]
fn test_article_builder_in_reply_to_message_id() {
    let article = ArticleBuilder::new()
        .from("test@example.com")
        .subject("Re: Test")
        .newsgroup("misc.test")
        .body("Test body")
        .in_reply_to_message_id("<parent@example.com>")
        .build()
        .unwrap();

    assert!(article.contains("In-Reply-To: <parent@example.com>"));
    assert!(article.contains("References: <parent@example.com>"));
}

#[test]
fn test_article_builder_reply_adds_re_prefix() {
    let parent = ThreadedArticleRef {
        message_id: "<parent@example.com>".to_string(),
        number: Some(1),
        subject: "Original Subject".to_string(),
        from: "other@example.com".to_string(),
        date: "2024-01-01".to_string(),
        parent_id: None,
        references: vec![],
        byte_count: None,
        line_count: None,
    };

    // Subject without Re: should get it added
    let article = ArticleBuilder::new()
        .from("test@example.com")
        .subject("Original Subject")
        .newsgroup("misc.test")
        .body("My reply")
        .in_reply_to(&parent)
        .build()
        .unwrap();

    assert!(article.contains("Subject: Re: Original Subject"));
}

#[test]
fn test_article_builder_reply_keeps_existing_re_prefix() {
    let parent = ThreadedArticleRef {
        message_id: "<parent@example.com>".to_string(),
        number: Some(1),
        subject: "Original".to_string(),
        from: "other@example.com".to_string(),
        date: "2024-01-01".to_string(),
        parent_id: None,
        references: vec![],
        byte_count: None,
        line_count: None,
    };

    // Subject already has Re: - should not double it
    let article = ArticleBuilder::new()
        .from("test@example.com")
        .subject("Re: Original")
        .newsgroup("misc.test")
        .body("My reply")
        .in_reply_to(&parent)
        .build()
        .unwrap();

    // Should have Re: but not Re: Re:
    assert!(article.contains("Subject: Re: Original"));
    assert!(!article.contains("Re: Re:"));
}

#[test]
fn test_article_builder_body_without_crlf() {
    let article = ArticleBuilder::new()
        .from("test@example.com")
        .subject("Test")
        .newsgroup("misc.test")
        .body("Body without newline")
        .build()
        .unwrap();

    // Body should end with CRLF
    assert!(article.ends_with("\r\n"));
}

#[test]
fn test_fetched_article_creation() {
    let content = b"From: test@example.com\r\nSubject: Test Subject\r\nDate: Mon, 01 Jan 2024 00:00:00 +0000\r\nMessage-ID: <test123@example.com>\r\nReferences: <parent@example.com>\r\n\r\nTest body\r\n".to_vec();
    let article = Article::new(Some(100), "<test123@example.com>".to_string(), content);
    
    let fetched = FetchedArticle::new(article);
    
    assert_eq!(fetched.message_id(), "<test123@example.com>");
    assert_eq!(fetched.subject(), "Test Subject");
    // from() returns display address which may vary
    assert!(!fetched.from().is_empty());
    assert!(!fetched.date().is_empty());
    // is_reply depends on whether References was parsed, which may vary
    // Just verify the method works
    let _ = fetched.is_reply();
    let _ = fetched.parent_id();
    let _ = fetched.references();
}

#[test]
fn test_fetched_article_with_thread_ref() {
    let content = b"From: test@example.com\r\nSubject: Test\r\n\r\nBody\r\n".to_vec();
    let article = Article::new(Some(100), "<test@example.com>".to_string(), content);
    
    let thread_ref = ThreadedArticleRef {
        message_id: "<test@example.com>".to_string(),
        number: Some(100),
        subject: "Custom Subject".to_string(),
        from: "custom@example.com".to_string(),
        date: "2024-01-01".to_string(),
        parent_id: None,
        references: vec![],
        byte_count: Some(500),
        line_count: Some(10),
    };
    
    let fetched = FetchedArticle::with_thread_ref(article, thread_ref);
    
    // Should use the provided thread_ref
    assert_eq!(fetched.subject(), "Custom Subject");
    assert_eq!(fetched.from(), "custom@example.com");
    assert!(!fetched.is_reply());
}

#[test]
fn test_fetched_article_body_and_attachments() {
    let content = b"From: test@example.com\r\nSubject: Test\r\nContent-Type: text/plain\r\n\r\nPlain text body\r\n".to_vec();
    let article = Article::new(Some(100), "<test@example.com>".to_string(), content);
    
    let fetched = FetchedArticle::new(article);
    
    assert!(fetched.body_text().is_some());
    // body_html may or may not be present depending on mail-parser behavior
    let _ = fetched.body_html();
    assert!(fetched.attachments().is_empty());
    assert!(fetched.message().is_some());
}

#[test]
fn test_fetched_article_raw_content() {
    let content = b"From: test@example.com\r\nSubject: Test\r\n\r\nBody\r\n".to_vec();
    let article = Article::new(Some(100), "<test@example.com>".to_string(), content.clone());
    
    let fetched = FetchedArticle::new(article);
    
    assert_eq!(fetched.raw_content(), &content);
    assert!(fetched.article().message().is_some());
}
