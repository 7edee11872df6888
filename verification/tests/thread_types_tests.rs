use nntp_rs::response::OverviewEntry;
use nntp_rs::threading::{Thread, ThreadCollection, ThreadNode, ThreadedArticleRef};

fn make_article_ref(
    message_id: &str,
    subject: &str,
    parent_id: Option<&str>,
) -> ThreadedArticleRef {
    ThreadedArticleRef {
        message_id: message_id.to_string(),
        number: Some(1),
        subject: subject.to_string(),
        from: "test@example.com".to_string(),
        date: "2024-01-01".to_string(),
        parent_id: parent_id.map(|s| s.to_string()),
        references: parent_id.map(|s| vec![s.to_string()]).unwrap_or_default(),
        byte_count: Some(100),
        line_count: Some(10),
    }
}

#[test]
fn test_threaded_article_ref_parse_references() {
    // Empty references
    assert!(ThreadedArticleRef::parse_references(None).is_empty());
    assert!(ThreadedArticleRef::parse_references(Some("")).is_empty());

    // Single reference
    let refs = ThreadedArticleRef::parse_references(Some("<abc@example.com>"));
    assert_eq!(refs, vec!["<abc@example.com>"]);

    // Multiple references
    let refs = ThreadedArticleRef::parse_references(Some("<a@x.com> <b@x.com> <c@x.com>"));
    assert_eq!(refs, vec!["<a@x.com>", "<b@x.com>", "<c@x.com>"]);

    // Invalid entries filtered out
    let refs =
        ThreadedArticleRef::parse_references(Some("<valid@x.com> invalid <also-valid@y.com>"));
    assert_eq!(refs, vec!["<valid@x.com>", "<also-valid@y.com>"]);
}

#[test]
fn test_threaded_article_ref_is_reply() {
    let root = make_article_ref("<root@x.com>", "Hello", None);
    assert!(!root.is_reply());

    let reply = make_article_ref("<reply@x.com>", "Re: Hello", Some("<root@x.com>"));
    assert!(reply.is_reply());
}

#[test]
fn test_thread_node_find_by_message_id() {
    let root = ThreadNode {
        article: Some(make_article_ref("<root@x.com>", "Hello", None)),
        message_id: "<root@x.com>".to_string(),
        replies: vec![
            ThreadNode {
                article: Some(make_article_ref(
                    "<reply1@x.com>",
                    "Re: Hello",
                    Some("<root@x.com>"),
                )),
                message_id: "<reply1@x.com>".to_string(),
                replies: vec![],
            },
            ThreadNode {
                article: Some(make_article_ref(
                    "<reply2@x.com>",
                    "Re: Hello",
                    Some("<root@x.com>"),
                )),
                message_id: "<reply2@x.com>".to_string(),
                replies: vec![ThreadNode {
                    article: Some(make_article_ref(
                        "<nested@x.com>",
                        "Re: Re: Hello",
                        Some("<reply2@x.com>"),
                    )),
                    message_id: "<nested@x.com>".to_string(),
                    replies: vec![],
                }],
            },
        ],
    };

    assert!(root.find_by_message_id("<root@x.com>").is_some());
    assert!(root.find_by_message_id("<reply1@x.com>").is_some());
    assert!(root.find_by_message_id("<nested@x.com>").is_some());
    assert!(root.find_by_message_id("<nonexistent@x.com>").is_none());
}

#[test]
fn test_thread_node_count_articles() {
    let root = ThreadNode {
        article: Some(make_article_ref("<root@x.com>", "Hello", None)),
        message_id: "<root@x.com>".to_string(),
        replies: vec![
            ThreadNode::new(make_article_ref(
                "<reply1@x.com>",
                "Re: Hello",
                Some("<root@x.com>"),
            )),
            ThreadNode {
                article: Some(make_article_ref(
                    "<reply2@x.com>",
                    "Re: Hello",
                    Some("<root@x.com>"),
                )),
                message_id: "<reply2@x.com>".to_string(),
                replies: vec![ThreadNode::new(make_article_ref(
                    "<nested@x.com>",
                    "Re: Re: Hello",
                    Some("<reply2@x.com>"),
                ))],
            },
        ],
    };

    assert_eq!(root.count_articles(), 4);
}

#[test]
fn test_thread_node_count_articles_with_placeholder() {
    // Test that placeholders don't count toward article count
    let root = ThreadNode {
        article: None, // Placeholder
        message_id: "<missing@x.com>".to_string(),
        replies: vec![
            ThreadNode::new(make_article_ref(
                "<reply1@x.com>",
                "Re: Missing",
                Some("<missing@x.com>"),
            )),
            ThreadNode::new(make_article_ref(
                "<reply2@x.com>",
                "Re: Missing",
                Some("<missing@x.com>"),
            )),
        ],
    };

    // Only 2 articles, not 3 (placeholder doesn't count)
    assert_eq!(root.count_articles(), 2);
    // But 3 nodes total
    assert_eq!(root.count_nodes(), 3);
    assert!(root.is_placeholder());
}

#[test]
fn test_thread_node_max_depth() {
    // Single node
    let single = ThreadNode::new(make_article_ref("<root@x.com>", "Hello", None));
    assert_eq!(single.max_depth(), 0);

    // One level of replies
    let with_replies = ThreadNode {
        article: Some(make_article_ref("<root@x.com>", "Hello", None)),
        message_id: "<root@x.com>".to_string(),
        replies: vec![ThreadNode::new(make_article_ref(
            "<reply@x.com>",
            "Re: Hello",
            Some("<root@x.com>"),
        ))],
    };
    assert_eq!(with_replies.max_depth(), 1);

    // Nested replies
    let nested = ThreadNode {
        article: Some(make_article_ref("<root@x.com>", "Hello", None)),
        message_id: "<root@x.com>".to_string(),
        replies: vec![ThreadNode {
            article: Some(make_article_ref(
                "<reply@x.com>",
                "Re: Hello",
                Some("<root@x.com>"),
            )),
            message_id: "<reply@x.com>".to_string(),
            replies: vec![ThreadNode::new(make_article_ref(
                "<nested@x.com>",
                "Re: Re: Hello",
                Some("<reply@x.com>"),
            ))],
        }],
    };
    assert_eq!(nested.max_depth(), 2);
}

#[test]
fn test_thread_iterator() {
    let root = ThreadNode {
        article: Some(make_article_ref("<root@x.com>", "Hello", None)),
        message_id: "<root@x.com>".to_string(),
        replies: vec![
            ThreadNode::new(make_article_ref(
                "<reply1@x.com>",
                "Re: Hello",
                Some("<root@x.com>"),
            )),
            ThreadNode::new(make_article_ref(
                "<reply2@x.com>",
                "Re: Hello",
                Some("<root@x.com>"),
            )),
        ],
    };

    let thread = Thread::new(root, "Hello".to_string());
    let message_ids: Vec<&str> = thread.iter().map(|a| a.message_id.as_str()).collect();

    assert_eq!(
        message_ids,
        vec!["<root@x.com>", "<reply1@x.com>", "<reply2@x.com>"]
    );
}

#[test]
fn test_thread_iterator_skips_placeholders() {
    // Iterator should skip placeholder nodes
    let root = ThreadNode {
        article: None, // Placeholder root
        message_id: "<missing@x.com>".to_string(),
        replies: vec![
            ThreadNode::new(make_article_ref(
                "<reply1@x.com>",
                "Re: Missing",
                Some("<missing@x.com>"),
            )),
            ThreadNode::new(make_article_ref(
                "<reply2@x.com>",
                "Re: Missing",
                Some("<missing@x.com>"),
            )),
        ],
    };

    let thread = Thread::new(root, "Missing".to_string());
    let message_ids: Vec<&str> = thread.iter().map(|a| a.message_id.as_str()).collect();

    // Should only contain the two real articles, not the placeholder
    assert_eq!(message_ids, vec!["<reply1@x.com>", "<reply2@x.com>"]);
}

#[test]
fn test_thread_node_iterator_includes_placeholders() {
    // Node iterator should include placeholder nodes
    let root = ThreadNode {
        article: None, // Placeholder root
        message_id: "<missing@x.com>".to_string(),
        replies: vec![
            ThreadNode::new(make_article_ref(
                "<reply1@x.com>",
                "Re: Missing",
                Some("<missing@x.com>"),
            )),
            ThreadNode::new(make_article_ref(
                "<reply2@x.com>",
                "Re: Missing",
                Some("<missing@x.com>"),
            )),
        ],
    };

    let thread = Thread::new(root, "Missing".to_string());
    let message_ids: Vec<&str> = thread.iter_nodes().map(|n| n.message_id.as_str()).collect();

    // Should contain all three nodes including the placeholder
    assert_eq!(
        message_ids,
        vec!["<missing@x.com>", "<reply1@x.com>", "<reply2@x.com>"]
    );
}

#[test]
fn test_thread_collection() {
    let thread1 = Thread::new(
        ThreadNode::new(make_article_ref("<t1@x.com>", "Thread 1", None)),
        "Thread 1".to_string(),
    );
    let thread2 = Thread::new(
        ThreadNode::new(make_article_ref("<t2@x.com>", "Thread 2", None)),
        "Thread 2".to_string(),
    );

    let collection = ThreadCollection::new("test.group".to_string(), vec![thread1, thread2]);

    assert_eq!(collection.len(), 2);
    assert_eq!(collection.total_articles(), 2);
    assert!(collection.find_thread_by_message_id("<t1@x.com>").is_some());
    assert!(collection
        .find_thread_by_message_id("<nonexistent@x.com>")
        .is_none());
}

#[test]
fn test_threaded_article_ref_from_overview() {
    let overview = OverviewEntry {
        fields: vec![
            "100".to_string(),
            "Test Subject".to_string(),
            "test@example.com".to_string(),
            "Mon, 01 Jan 2024 00:00:00 +0000".to_string(),
            "<test@example.com>".to_string(),
            "<parent@example.com>".to_string(),
            "1000".to_string(),
            "50".to_string(),
        ],
    };

    let article_ref = ThreadedArticleRef::from_overview(&overview);
    assert!(article_ref.is_some());
    
    let article_ref = article_ref.unwrap();
    assert_eq!(article_ref.message_id, "<test@example.com>");
    assert_eq!(article_ref.number, Some(100));
    assert_eq!(article_ref.subject, "Test Subject");
    assert_eq!(article_ref.from, "test@example.com");
    assert!(article_ref.is_reply());
    assert_eq!(article_ref.parent_id, Some("<parent@example.com>".to_string()));
}

#[test]
fn test_threaded_article_ref_from_overview_missing_fields() {
    // Overview entry missing required fields
    let overview = OverviewEntry {
        fields: vec!["100".to_string()], // Only number, missing subject, from, date, message-id
    };

    let article_ref = ThreadedArticleRef::from_overview(&overview);
    assert!(article_ref.is_none());
}

#[test]
fn test_threaded_article_ref_depth() {
    // Root article has no references
    let root = make_article_ref("<root@x.com>", "Root", None);
    assert_eq!(root.depth(), 0);

    // First-level reply
    let reply1 = ThreadedArticleRef {
        message_id: "<reply1@x.com>".to_string(),
        number: Some(2),
        subject: "Re: Root".to_string(),
        from: "test@example.com".to_string(),
        date: "2024-01-01".to_string(),
        parent_id: Some("<root@x.com>".to_string()),
        references: vec!["<root@x.com>".to_string()],
        byte_count: None,
        line_count: None,
    };
    assert_eq!(reply1.depth(), 1);

    // Second-level reply
    let reply2 = ThreadedArticleRef {
        message_id: "<reply2@x.com>".to_string(),
        number: Some(3),
        subject: "Re: Re: Root".to_string(),
        from: "test@example.com".to_string(),
        date: "2024-01-01".to_string(),
        parent_id: Some("<reply1@x.com>".to_string()),
        references: vec!["<root@x.com>".to_string(), "<reply1@x.com>".to_string()],
        byte_count: None,
        line_count: None,
    };
    assert_eq!(reply2.depth(), 2);
}

#[test]
fn test_thread_node_new_and_placeholder() {
    let article = make_article_ref("<test@x.com>", "Test", None);
    let node = ThreadNode::new(article);
    
    assert!(!node.is_placeholder());
    assert_eq!(node.reply_count(), 0);
    assert!(!node.has_replies());
    assert_eq!(node.message_id, "<test@x.com>");
    
    let placeholder = ThreadNode::placeholder("<missing@x.com>".to_string());
    assert!(placeholder.is_placeholder());
    assert_eq!(placeholder.message_id, "<missing@x.com>");
}

#[test]
fn test_thread_all_message_ids() {
    let root = ThreadNode {
        article: Some(make_article_ref("<root@x.com>", "Hello", None)),
        message_id: "<root@x.com>".to_string(),
        replies: vec![
            ThreadNode::new(make_article_ref("<reply1@x.com>", "Re: Hello", Some("<root@x.com>"))),
            ThreadNode::new(make_article_ref("<reply2@x.com>", "Re: Hello", Some("<root@x.com>"))),
        ],
    };

    let thread = Thread::new(root, "Hello".to_string());
    let ids = thread.all_message_ids();
    
    assert_eq!(ids.len(), 3);
    assert!(ids.contains(&"<root@x.com>"));
    assert!(ids.contains(&"<reply1@x.com>"));
    assert!(ids.contains(&"<reply2@x.com>"));
}

#[test]
fn test_thread_find_by_message_id() {
    let root = ThreadNode {
        article: Some(make_article_ref("<root@x.com>", "Hello", None)),
        message_id: "<root@x.com>".to_string(),
        replies: vec![
            ThreadNode::new(make_article_ref("<reply@x.com>", "Re: Hello", Some("<root@x.com>"))),
        ],
    };

    let thread = Thread::new(root, "Hello".to_string());
    
    assert!(thread.find_by_message_id("<root@x.com>").is_some());
    assert!(thread.find_by_message_id("<reply@x.com>").is_some());
    assert!(thread.find_by_message_id("<missing@x.com>").is_none());
}

#[test]
fn test_thread_has_placeholder_root() {
    // Thread with real root
    let real_root = ThreadNode::new(make_article_ref("<root@x.com>", "Hello", None));
    let thread1 = Thread::new(real_root, "Hello".to_string());
    assert!(!thread1.has_placeholder_root());

    // Thread with placeholder root
    let placeholder_root = ThreadNode::placeholder("<missing@x.com>".to_string());
    let thread2 = Thread::new(placeholder_root, "Missing".to_string());
    assert!(thread2.has_placeholder_root());
}

#[test]
fn test_thread_properties() {
    let root = ThreadNode {
        article: Some(make_article_ref("<root@x.com>", "Hello World", None)),
        message_id: "<root@x.com>".to_string(),
        replies: vec![
            ThreadNode::new(make_article_ref("<reply@x.com>", "Re: Hello World", Some("<root@x.com>"))),
        ],
    };

    let thread = Thread::new(root, "Hello World".to_string());
    
    assert_eq!(thread.subject(), "Hello World");
    assert_eq!(thread.article_count(), 2);
    assert_eq!(thread.root_message_id(), "<root@x.com>");
    assert_eq!(thread.max_depth(), 1);
    assert!(thread.root().article.is_some());
}

#[test]
fn test_thread_collection_empty() {
    let collection = ThreadCollection::new("test.group".to_string(), vec![]);
    
    assert!(collection.is_empty());
    assert_eq!(collection.len(), 0);
    assert_eq!(collection.total_articles(), 0);
}

#[test]
fn test_thread_collection_into_iter() {
    let thread = Thread::new(
        ThreadNode::new(make_article_ref("<t1@x.com>", "Thread 1", None)),
        "Thread 1".to_string(),
    );

    let collection = ThreadCollection::new("test.group".to_string(), vec![thread]);
    
    // Test IntoIterator for owned collection
    let threads: Vec<Thread> = collection.into_iter().collect();
    assert_eq!(threads.len(), 1);
}

#[test]
fn test_thread_collection_iter_ref() {
    let thread = Thread::new(
        ThreadNode::new(make_article_ref("<t1@x.com>", "Thread 1", None)),
        "Thread 1".to_string(),
    );

    let collection = ThreadCollection::new("test.group".to_string(), vec![thread]);
    
    // Test iter() method
    let count = collection.iter().count();
    assert_eq!(count, 1);
    
    // Test IntoIterator for reference
    let count2 = (&collection).into_iter().count();
    assert_eq!(count2, 1);
}
