use nntp_rs::threading::{FetchOptions, IncrementalThreadBuilder, ThreadedArticleRef};
use nntp_rs::response::Article;
use nntp_rs::response::OverviewEntry;
use nntp_rs::threading::builder::FetchedArticle;

fn make_article(
    message_id: &str,
    subject: &str,
    parent_id: Option<&str>,
) -> ThreadedArticleRef {
    ThreadedArticleRef {
        message_id: message_id.to_string(),
        number: Some(1),
        subject: subject.to_string(),
        from: "test@example.com".to_string(),
        date: "2024-01-01".to_string(),
        parent_id: parent_id.map(|s| s.to_string()),
        references: parent_id.map(|s| vec![s.to_string()]).unwrap_or_default(),
        byte_count: Some(100),
        line_count: Some(10),
    }
}

#[test]
fn test_builder_new() {
    let builder = IncrementalThreadBuilder::new("test.group");
    assert_eq!(builder.group(), "test.group");
    assert!(builder.is_empty());
    assert_eq!(builder.article_count(), 0);
    assert!(!builder.has_missing_parents());
}

#[test]
fn test_builder_add_article() {
    let mut builder = IncrementalThreadBuilder::new("test.group");
    
    let article = make_article("<root@x.com>", "Hello", None);
    builder.add_article(article);

    assert_eq!(builder.article_count(), 1);
    assert!(builder.contains("<root@x.com>"));
    assert!(!builder.has_missing_parents());
}

#[test]
fn test_builder_tracks_missing_parents() {
    let mut builder = IncrementalThreadBuilder::new("test.group");

    // Add a reply without its parent
    let reply = make_article("<reply@x.com>", "Re: Hello", Some("<root@x.com>"));
    builder.add_article(reply);

    assert_eq!(builder.article_count(), 1);
    assert!(builder.has_missing_parents());
    assert_eq!(builder.missing_count(), 1);
    assert!(builder.missing_parents().contains(&"<root@x.com>"));
}

#[test]
fn test_builder_resolves_missing_when_added() {
    let mut builder = IncrementalThreadBuilder::new("test.group");

    // Add a reply first (parent is missing)
    let reply = make_article("<reply@x.com>", "Re: Hello", Some("<root@x.com>"));
    builder.add_article(reply);
    assert!(builder.has_missing_parents());

    // Add the parent
    let root = make_article("<root@x.com>", "Hello", None);
    builder.add_article(root);

    // Parent should no longer be missing
    assert!(!builder.has_missing_parents());
    assert_eq!(builder.missing_count(), 0);
}

#[test]
fn test_builder_mark_unavailable() {
    let mut builder = IncrementalThreadBuilder::new("test.group");

    // Add a reply with missing parent
    let reply = make_article("<reply@x.com>", "Re: Hello", Some("<root@x.com>"));
    builder.add_article(reply);
    assert!(builder.has_missing_parents());

    // Mark parent as unavailable
    builder.mark_unavailable("<root@x.com>");

    // Should no longer be in missing parents
    assert!(!builder.has_missing_parents());
    assert!(builder.unavailable().contains(&"<root@x.com>"));
}

#[test]
fn test_builder_build_threads() {
    let mut builder = IncrementalThreadBuilder::new("test.group");

    builder.add_article(make_article("<root@x.com>", "Hello", None));
    builder.add_article(make_article("<reply1@x.com>", "Re: Hello", Some("<root@x.com>")));
    builder.add_article(make_article("<reply2@x.com>", "Re: Hello", Some("<root@x.com>")));

    let threads = builder.build();
    assert_eq!(threads.len(), 1);
    assert_eq!(threads.total_articles(), 3);
    assert_eq!(threads.threads()[0].root().reply_count(), 2);
}

#[test]
fn test_builder_multiple_threads() {
    let mut builder = IncrementalThreadBuilder::new("test.group");

    builder.add_article(make_article("<t1@x.com>", "Thread 1", None));
    builder.add_article(make_article("<t2@x.com>", "Thread 2", None));
    builder.add_article(make_article("<t1r@x.com>", "Re: Thread 1", Some("<t1@x.com>")));

    let threads = builder.build();
    assert_eq!(threads.len(), 2);
    assert_eq!(threads.total_articles(), 3);
}

#[test]
fn test_builder_retains_after_build() {
    let mut builder = IncrementalThreadBuilder::new("test.group");

    builder.add_article(make_article("<root@x.com>", "Hello", None));
    let threads1 = builder.build();
    assert_eq!(threads1.len(), 1);

    // Builder still has articles
    assert_eq!(builder.article_count(), 1);

    // Can add more and rebuild
    builder.add_article(make_article("<reply@x.com>", "Re: Hello", Some("<root@x.com>")));
    let threads2 = builder.build();
    assert_eq!(threads2.total_articles(), 2);
}

#[test]
fn test_builder_into_threads() {
    let mut builder = IncrementalThreadBuilder::new("test.group");

    builder.add_article(make_article("<root@x.com>", "Hello", None));
    builder.add_article(make_article("<reply@x.com>", "Re: Hello", Some("<root@x.com>")));

    let threads = builder.into_threads();
    assert_eq!(threads.len(), 1);
    assert_eq!(threads.total_articles(), 2);
    // builder is consumed
}

#[test]
fn test_builder_merge() {
    let mut builder1 = IncrementalThreadBuilder::new("test.group");
    builder1.add_article(make_article("<a@x.com>", "Article A", None));
    builder1.add_article(make_article("<c@x.com>", "Re: B", Some("<b@x.com>"))); // missing parent

    let mut builder2 = IncrementalThreadBuilder::new("test.group");
    builder2.add_article(make_article("<b@x.com>", "Article B", None));
    builder2.mark_unavailable("<missing@x.com>");

    builder1.merge(builder2);

    assert_eq!(builder1.article_count(), 3);
    assert!(!builder1.has_missing_parents()); // <b@x.com> now present
    assert!(builder1.unavailable().contains(&"<missing@x.com>"));
}

#[test]
fn test_builder_clear() {
    let mut builder = IncrementalThreadBuilder::new("test.group");
    builder.add_article(make_article("<root@x.com>", "Hello", None));
    builder.add_article(make_article("<reply@x.com>", "Re: Hello", Some("<missing@x.com>")));
    builder.mark_unavailable("<other@x.com>");

    builder.clear();

    assert!(builder.is_empty());
    assert!(!builder.has_missing_parents());
    assert!(builder.unavailable().is_empty());
    assert!(builder.fetched_ranges().is_empty());
}

#[test]
fn test_builder_with_capacity() {
    let builder = IncrementalThreadBuilder::with_capacity("test.group", 10000);
    assert!(builder.is_empty());
    assert_eq!(builder.group(), "test.group");
}

#[test]
fn test_builder_get_article() {
    let mut builder = IncrementalThreadBuilder::new("test.group");
    builder.add_article(make_article("<root@x.com>", "Hello", None));

    let article = builder.get("<root@x.com>");
    assert!(article.is_some());
    assert_eq!(article.unwrap().subject, "Hello");

    assert!(builder.get("<nonexistent@x.com>").is_none());
}

#[test]
fn test_fetch_options_default() {
    let opts = FetchOptions::default();
    assert_eq!(opts.batch_size, 50);
    assert_eq!(opts.max_depth, Some(10));
    assert!(opts.continue_on_error);
    assert_eq!(opts.max_total_fetches, Some(500));
}

#[test]
fn test_fetch_options_unlimited() {
    let opts = FetchOptions::unlimited();
    assert!(opts.max_depth.is_none());
    assert!(opts.max_total_fetches.is_none());
}

#[test]
fn test_fetch_options_shallow() {
    let opts = FetchOptions::shallow();
    assert_eq!(opts.max_depth, Some(1));
}

#[test]
fn test_add_from_overview() {
    
    let mut builder = IncrementalThreadBuilder::new("test.group");
    
    // Create overview entries with tab-separated fields
    let entry1 = OverviewEntry { 
        fields: vec![
            "100".to_string(),
            "Subject 1".to_string(),
            "user@example.com".to_string(),
            "2024-01-01".to_string(),
            "<msg1@example.com>".to_string(),
            "".to_string(),
            "1000".to_string(),
            "50".to_string(),
        ]
    };
    let entry2 = OverviewEntry { 
        fields: vec![
            "101".to_string(),
            "Subject 2".to_string(),
            "user@example.com".to_string(),
            "2024-01-02".to_string(),
            "<msg2@example.com>".to_string(),
            "".to_string(),
            "2000".to_string(),
            "60".to_string(),
        ]
    };
    
    let count = builder.add_from_overview(&[entry1, entry2]);
    assert_eq!(count, 2);
    assert_eq!(builder.article_count(), 2);
    
    // Check fetched ranges
    let ranges = builder.fetched_ranges();
    assert!(!ranges.is_empty());
    assert!(builder.is_number_fetched(100));
    assert!(builder.is_number_fetched(101));
    assert!(!builder.is_number_fetched(99));
}

#[test]
fn test_add_fetched_article() {
    
    let mut builder = IncrementalThreadBuilder::new("test.group");
    
    // Add an article with a missing parent
    builder.add_article(make_article("<reply@x.com>", "Re: Hello", Some("<root@x.com>")));
    
    assert!(builder.has_missing_parents());
    assert!(builder.missing_parents().contains(&"<root@x.com>"));
    
    // Now add the parent via FetchedArticle
    let content = b"From: test@example.com\r\nSubject: Hello\r\nMessage-ID: <root@x.com>\r\n\r\nBody\r\n".to_vec();
    let article = Article::new(None, "<root@x.com>".to_string(), content);
    let fetched = FetchedArticle::new(article);
    
    let was_missing = builder.add_fetched_article(&fetched);
    assert!(was_missing);
    assert!(!builder.has_missing_parents());
}

#[test]
fn test_rebuild_missing_cache() {
    let mut builder = IncrementalThreadBuilder::new("test.group");
    
    // Add articles with missing parents
    builder.add_article(make_article("<reply@x.com>", "Re: Hello", Some("<root@x.com>")));
    assert!(builder.has_missing_parents());
    
    // Mark the parent as unavailable
    builder.mark_unavailable("<root@x.com>");
    
    // Rebuild cache
    builder.rebuild_missing_cache();
    
    // Should have no missing parents since root is unavailable
    assert!(!builder.has_missing_parents());
}

#[test]
fn test_contains() {
    let mut builder = IncrementalThreadBuilder::new("test.group");
    builder.add_article(make_article("<root@x.com>", "Hello", None));
    
    assert!(builder.contains("<root@x.com>"));
    assert!(!builder.contains("<other@x.com>"));
}

#[test]
fn test_is_number_fetched() {
    let mut builder = IncrementalThreadBuilder::new("test.group");
    
    // Manually add range tracking by using add_from_overview
    let entry = OverviewEntry { 
        fields: vec![
            "100".to_string(),
            "Subject".to_string(),
            "user@example.com".to_string(),
            "2024-01-01".to_string(),
            "<msg@example.com>".to_string(),
            "".to_string(),
            "1000".to_string(),
            "50".to_string(),
        ]
    };
    builder.add_from_overview(&[entry]);
    
    assert!(builder.is_number_fetched(100));
    assert!(!builder.is_number_fetched(50));
}

#[test]
fn test_unavailable() {
    let mut builder = IncrementalThreadBuilder::new("test.group");
    
    builder.mark_unavailable("<missing1@x.com>");
    builder.mark_unavailable("<missing2@x.com>");
    
    let unavailable = builder.unavailable();
    assert_eq!(unavailable.len(), 2);
    assert!(unavailable.contains(&"<missing1@x.com>"));
    assert!(unavailable.contains(&"<missing2@x.com>"));
}
