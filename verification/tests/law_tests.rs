use nntp_rs::client::Client;
use nntp_rs::mock::ClientMockTest;
use nntp_rs::response::lines::parse_overview_entry;
use nntp_rs::command::{ArticleSpec, Command, ListVariant};
use nntp_rs::error::Error;
use nntp_rs::response::decode::decode_text_with_encoding;
use nntp_rs::response::Response;
use nntp_rs::threading::backfill::{
    next_backfill_batch, range_param, recent_range, record_fetch, threads_from_overview,
};
use nntp_rs::threading::{
    build_threads, normalize_subject, FetchOptions, IncrementalThreadBuilder, ThreadNode,
    ThreadedArticleRef,
};
use nntp_rs::{HeaderEntry, NewsGroup, OverviewEntry};

fn art(id: &str, date: &str, parent: Option<&str>) -> ThreadedArticleRef {
    ThreadedArticleRef {
        message_id: id.to_string(),
        number: None,
        subject: format!("subject {id}"),
        from: "a@example.com".to_string(),
        date: date.to_string(),
        parent_id: parent.map(|p| p.to_string()),
        references: parent.map(|p| vec![p.to_string()]).unwrap_or_default(),
        byte_count: None,
        line_count: None,
    }
}

// ---- normalize_subject is idempotent ----

#[test]
fn law_normalize_subject_idempotent() {
    let subjects = [
        "Re: Re: Fwd: Hello",
        "  RE:  AW:  SV: Antw: topic  ",
        "[rust] Re: [tag] question",
        "",
        "Re:",
        "fw:fwd:re:",
        "Plain subject",
    ];
    for s in subjects {
        let once = normalize_subject(s);
        assert_eq!(normalize_subject(&once), once, "subject {s:?}");
    }
    assert_eq!(normalize_subject("Re: Re: Fwd: Hello"), "Hello");
}

// ---- every encoded command is one CRLF-terminated line of at most 512 octets ----

fn assert_one_line(bytes: &[u8]) {
    assert!(bytes.len() >= 2 && bytes.len() <= 512);
    assert!(bytes.ends_with(b"\r\n"));
    let body = &bytes[..bytes.len() - 2];
    assert!(!body.contains(&b'\r') && !body.contains(&b'\n'));
}

#[test]
fn law_commands_are_single_lines() {
    let commands = vec![
        Command::Capabilities,
        Command::AuthInfoUser("user".to_string()),
        Command::Group("comp.lang.rust".to_string()),
        Command::Article(ArticleSpec::MessageId("<a@b>".to_string())),
        Command::Stat(ArticleSpec::number_in_group("misc.test", 18446744073709551615)),
        Command::List(ListVariant::Active(Some("comp.*".to_string()))),
        Command::NewGroups {
            date: "20240101".to_string(),
            time: "000000".to_string(),
            gmt: true,
            distributions: Some("world".to_string()),
        },
        Command::NewNews {
            wildmat: "*".to_string(),
            date: "240101".to_string(),
            time: "120000".to_string(),
            gmt: false,
        },
        Command::Hdr { field: "Subject".to_string(), range: Some("1-10".to_string()) },
        Command::Ihave { message_id: "<x@y>".to_string() },
    ];
    for c in commands {
        assert_one_line(&c.encode().unwrap());
    }
}

#[test]
fn law_line_breaks_in_parameters_are_refused() {
    for bad in ["a\rb", "a\nb", "\r\nQUIT"] {
        assert_eq!(
            Command::Group(bad.to_string()).encode(),
            Err(Error::InvalidCommand("Parameters cannot contain line breaks".to_string()))
        );
        assert_eq!(
            Command::Hdr { field: "Subject".to_string(), range: Some(bad.to_string()) }.encode(),
            Err(Error::InvalidCommand("Parameters cannot contain line breaks".to_string()))
        );
    }
}

#[test]
fn command_length_limit_edge() {
    // "GROUP " is 6 octets: a 504-octet name makes a 510-octet line.
    let ok = Command::Group("g".repeat(504)).encode().unwrap();
    assert_eq!(ok.len(), 512);
    assert_one_line(&ok);
    assert_eq!(
        Command::Group("g".repeat(505)).encode(),
        Err(Error::InvalidCommand("Command exceeds maximum length of 510 octets (got 511)".to_string()))
    );
    // Multi-byte characters count by octets.
    assert_eq!(
        Command::Group("é".repeat(253)).encode(),
        Err(Error::InvalidCommand("Command exceeds maximum length of 510 octets (got 512)".to_string()))
    );
}

// ---- framing does not depend on how the bytes arrive ----

#[test]
fn law_frame_stable_under_split_feeding() {
    let data: &[u8] = b"215 list follows\r\nmisc.test 10 1 y\r\ncomp.lang 5 2 n\r\n.\r\n200 ready\r\n";
    let mut whole = Client::new();
    whole.feed_bytes(data);
    let first = whole.decode_response().unwrap().unwrap();
    let second = whole.decode_response().unwrap().unwrap();
    assert_eq!(whole.decode_response().unwrap(), None);
    assert_eq!(whole.buffered_len(), 0);

    let mut piecewise = Client::new();
    let mut got = Vec::new();
    for b in data {
        piecewise.feed_bytes(&[*b]);
        if let Some(r) = piecewise.decode_response().unwrap() {
            got.push(r);
        }
    }
    assert_eq!(got, vec![first, second.clone()]);
    assert_eq!(second, Response::ModeReader { posting_allowed: true });
}

#[test]
fn partial_frames_wait_for_more() {
    let mut c = Client::new();
    c.feed_bytes(b"215 list follows\r\nmisc.test 10 1 y\r\n");
    assert_eq!(c.decode_response().unwrap(), None);
    assert_eq!(c.buffered_len(), 35);
    c.feed_bytes(b".\r\n");
    assert!(matches!(c.decode_response().unwrap(), Some(Response::NewsgroupList(g)) if g.len() == 1));
}

// ---- thread forests: sorted by recency, linked, replies by date ----

fn most_recent(node: &ThreadNode) -> String {
    let mut best = node.article.as_ref().map(|a| a.date.clone()).unwrap_or_default();
    for r in &node.replies {
        let d = most_recent(r);
        if d > best {
            best = d;
        }
    }
    best
}

fn check_linked_sorted(node: &ThreadNode) {
    for w in node.replies.windows(2) {
        let a = w[0].article.as_ref().map(|a| a.date.as_str()).unwrap_or("");
        let b = w[1].article.as_ref().map(|a| a.date.as_str()).unwrap_or("");
        assert!(a <= b);
    }
    for r in &node.replies {
        let a = r.article.as_ref().expect("a reply is an article");
        assert_eq!(a.parent_id.as_deref(), Some(node.message_id.as_str()));
        check_linked_sorted(r);
    }
}

#[test]
fn law_threads_sorted_and_well_formed() {
    let articles = vec![
        art("<1>", "2024-01-01", None),
        art("<2>", "2024-01-05", Some("<1>")),
        art("<3>", "2024-01-03", Some("<1>")),
        art("<4>", "2024-01-02", None),
        art("<5>", "2024-01-09", Some("<missing>")),
        art("<6>", "2024-01-04", Some("<missing>")),
        art("<7>", "2024-01-07", Some("<3>")),
    ];
    let threads = build_threads(articles, "misc.test");
    assert_eq!(threads.len(), 3);
    let recents: Vec<String> = threads.iter().map(|t| most_recent(t.root())).collect();
    for w in recents.windows(2) {
        assert!(w[0] >= w[1]);
    }
    assert_eq!(recents, vec!["2024-01-09", "2024-01-07", "2024-01-02"]);
    for t in threads.iter() {
        check_linked_sorted(t.root());
    }
    let first = &threads.threads()[0];
    assert!(first.has_placeholder_root());
    assert_eq!(first.root().replies[0].message_id, "<6>");
    assert_eq!(first.root().replies[1].message_id, "<5>");
}

// ---- the incremental builder keeps its tracking consistent ----

#[test]
fn law_incremental_tracking_consistent() {
    let mut b = IncrementalThreadBuilder::new("misc.test");
    b.add_article(art("<c>", "3", Some("<b>")));
    assert_eq!(b.missing_parents(), vec!["<b>"]);
    b.add_article(art("<b>", "2", Some("<a>")));
    assert_eq!(b.missing_parents(), vec!["<a>"]);
    b.mark_unavailable("<a>");
    assert!(!b.has_missing_parents());
    assert_eq!(b.unavailable(), vec!["<a>"]);
    b.add_article(art("<d>", "4", Some("<a>")));
    // An unavailable parent is not asked for again.
    assert!(!b.has_missing_parents());
    b.add_article(art("<e>", "5", Some("<e>")));
    assert_eq!(b.missing_parents(), vec!["<e>"]);
    for id in b.missing_parents() {
        assert!(!b.unavailable().contains(&id));
    }
}

// ---- backfill decisions ----

#[test]
fn backfill_range_edges() {
    assert_eq!(recent_range(100, 10), (91, 100));
    assert_eq!(recent_range(5, 10), (1, 5));
    assert_eq!(recent_range(10, 10), (1, 10));
    assert_eq!(recent_range(0, 0), (1, 0));
    assert_eq!(recent_range(u64::MAX, 1), (u64::MAX, u64::MAX));
    assert_eq!(range_param(91, 100), "91-100");
    assert_eq!(range_param(0, 18446744073709551615), "0-18446744073709551615");
}

#[test]
fn backfill_batches_follow_limits() {
    let mut b = IncrementalThreadBuilder::new("g");
    b.add_article(art("<z>", "1", Some("<p3>")));
    b.add_article(art("<y>", "1", Some("<p1>")));
    b.add_article(art("<x>", "1", Some("<p2>")));
    let options = FetchOptions { batch_size: 2, max_depth: Some(3), continue_on_error: false, max_total_fetches: Some(5) };
    assert_eq!(next_backfill_batch(&b, &options, 0, 0), vec!["<p1>", "<p2>"]);
    assert_eq!(next_backfill_batch(&b, &options, 0, 4), vec!["<p1>"]);
    assert!(next_backfill_batch(&b, &options, 0, 5).is_empty());
    assert!(next_backfill_batch(&b, &options, 3, 0).is_empty());
    let unlimited = FetchOptions::unlimited();
    assert_eq!(next_backfill_batch(&b, &unlimited, 1000, 1000).len(), 3);
}

#[test]
fn backfill_record_fetch_outcomes() {
    let mut b = IncrementalThreadBuilder::new("g");
    b.add_article(art("<child>", "2", Some("<p>")));
    b.add_article(art("<child2>", "2", Some("<q>")));
    let not_found = Err(Error::Protocol { code: 430, message: "No such article".to_string() });
    assert_eq!(record_fetch(&mut b, "<p>", not_found, false, 7), Ok(7));
    assert_eq!(b.unavailable(), vec!["<p>"]);
    let other = || Err(Error::Io("reset".to_string()));
    assert_eq!(record_fetch(&mut b, "<q>", other(), false, 7), Err(Error::Io("reset".to_string())));
    assert_eq!(b.missing_parents(), vec!["<q>"]);
    assert_eq!(record_fetch(&mut b, "<q>", other(), true, 7), Ok(7));
    assert!(!b.has_missing_parents());
}

#[test]
fn threads_from_overview_skips_unusable_entries() {
    let entry = |fields: &[&str]| OverviewEntry { fields: fields.iter().map(|s| s.to_string()).collect() };
    let entries = vec![
        entry(&["1", "Hello", "a@b", "2024-01-01", "<1@x>", "", "10", "1"]),
        entry(&["2", "Re: Hello", "c@d", "2024-01-02", "<2@x>", "<1@x>", "10", "1"]),
        entry(&["3", "short"]),
    ];
    let threads = threads_from_overview(&entries, "misc.test");
    assert_eq!(threads.len(), 1);
    assert_eq!(threads.total_articles(), 2);
    assert_eq!(threads.threads()[0].subject(), "Hello");
}

// ---- outside-crate calls behind the library ----

#[test]
fn legacy_text_decoding_uses_windows_1252() {
    // 0xE9 is not UTF-8 on its own; Windows-1252 reads it as 'é'.
    assert_eq!(decode_text_with_encoding(&[b'c', b'a', b'f', 0xE9]), "café");
    assert_eq!(decode_text_with_encoding("naïve".as_bytes()), "naïve");
    // 0x80 is the euro sign in Windows-1252.
    assert_eq!(decode_text_with_encoding(&[0x80]), "€");
}

#[test]
fn io_errors_become_io() {
    let e: Error = std::io::Error::new(std::io::ErrorKind::Other, "boom").into();
    assert_eq!(e, Error::Io("boom".to_string()));
}

#[test]
fn encoded_command_bytes_match() {
    let mut c = Client::new();
    let bytes = c.encode_command(Command::Group("misc.test".to_string())).unwrap();
    assert_eq!(bytes.as_ref(), b"GROUP misc.test\r\n");
    let refused = c.encode_command(Command::Group("a\nb".to_string()));
    assert_eq!(refused, Err(Error::InvalidCommand("Parameters cannot contain line breaks".to_string())));
}

#[test]
fn decoded_bytes_leave_the_buffer() {
    let mut c = Client::new();
    c.feed_bytes(b"281 ok\r\n381 more\r\n4");
    assert_eq!(c.decode_response().unwrap(), Some(Response::AuthSuccess));
    assert_eq!(c.buffered_len(), 11);
    assert_eq!(c.decode_response().unwrap(), Some(Response::AuthRequired));
    assert_eq!(c.buffered_len(), 1);
    assert_eq!(c.decode_response().unwrap(), None);
}

// ---- a one-line reply sent by the mock server is read back as sent ----

#[test]
fn law_one_line_replies_read_back() {
    let replies = vec![
        Response::ModeReader { posting_allowed: false },
        Response::AuthSuccess,
        Response::Quit,
        Response::Date("20240315123045".to_string()),
        Response::TlsNotAvailable { message: "TLS not available".to_string() },
        Response::Success { code: 290, message: "Feature enabled".to_string() },
        Response::Error { code: 411, message: "No such newsgroup".to_string() },
        Response::Error { code: 502, message: "".to_string() },
        Response::Error { code: 999, message: "odd but one line".to_string() },
        Response::GroupSelected { count: 1234, first: 1, last: 18446744073709551615, name: "misc.test".to_string() },
        Response::ArticleStatus { number: 0, message_id: "<a@b>".to_string() },
    ];
    for reply in replies {
        let mut t = ClientMockTest::new_relaxed(vec![(Command::Help, reply.clone())]);
        assert_eq!(t.send_command(Command::Help).unwrap(), reply);
        assert_eq!(t.client().buffered_len(), 0);
    }
}

#[test]
fn replies_outside_the_law_change_kind() {
    // Code 435 names another kind of reply.
    let mut t = ClientMockTest::new_relaxed(vec![(
        Command::Help,
        Response::Error { code: 435, message: "x".to_string() },
    )]);
    assert_eq!(t.send_command(Command::Help).unwrap(), Response::ArticleNotWanted);
}

#[test]
fn law_list_replies_read_back() {
    let replies = vec![
        Response::Capabilities(vec!["VERSION 2".to_string(), "READER".to_string(), "".to_string()]),
        Response::Help(vec!["help line".to_string(), "..".to_string(), ". x".to_string()]),
        Response::NewArticles(vec![]),
        Response::NewArticles(vec!["<a@b>".to_string(), "<c@d>".to_string()]),
        Response::OverviewFormat(vec!["Subject:".to_string(), "From:".to_string()]),
        Response::NewsgroupList(vec![
            NewsGroup { name: "misc.test".to_string(), last: 3002, first: 3000, posting_status: 'y' },
            NewsGroup { name: "comp.lang.rust".to_string(), last: 0, first: 1, posting_status: 'm' },
        ]),
        Response::NewNewsgroups(vec![NewsGroup { name: "alt.new".to_string(), last: 5, first: 1, posting_status: 'n' }]),
        Response::HeaderData(vec![
            HeaderEntry { article: "3000".to_string(), value: "I am just a test article".to_string() },
            HeaderEntry { article: "3001".to_string(), value: "".to_string() },
        ]),
        Response::OverviewData(vec![
            OverviewEntry { fields: vec!["3000".to_string(), "I am just a test article".to_string(), "".to_string(), "<a@b>".to_string()] },
            OverviewEntry { fields: vec!["single".to_string()] },
        ]),
    ];
    for reply in replies {
        let mut t = ClientMockTest::new_relaxed(vec![(Command::Help, reply.clone())]);
        assert_eq!(t.send_command(Command::Help).unwrap(), reply);
        assert_eq!(t.client().buffered_len(), 0);
    }
}

#[test]
fn listgroup_listings_are_read_whole() {
    let reply = Response::ArticleListing(vec![3000, 3001]);
    let mut t = ClientMockTest::new_relaxed(vec![(Command::ListGroup(None), reply.clone())]);
    assert_eq!(t.send_command(Command::ListGroup(None)).unwrap(), reply);
    assert_eq!(t.client().buffered_len(), 0);
}

#[test]
fn listgroup_reply_is_framed_to_the_dot() {
    let mut c = Client::new();
    c.encode_command(Command::ListGroup(Some("misc.test".to_string()))).unwrap();
    assert_eq!(c.state(), "waiting");
    c.feed_bytes(b"211 list follows\r\n3000\r\n3001\r\n");
    assert_eq!(c.decode_response().unwrap(), None);
    c.feed_bytes(b".\r\n");
    assert_eq!(c.decode_response().unwrap(), Some(Response::ArticleListing(vec![3000, 3001])));
    assert_eq!(c.decode_response().unwrap(), None);
    assert_eq!(c.buffered_len(), 0);
    assert_eq!(c.state(), "reader");
}

#[test]
fn group_reply_stays_one_line() {
    let mut c = Client::new();
    c.encode_command(Command::Group("misc.test".to_string())).unwrap();
    c.feed_bytes(b"211 1234 3000 3234 misc.test\r\n");
    assert!(matches!(c.decode_response().unwrap(), Some(Response::GroupSelected { .. })));
    assert_eq!(c.current_group(), Some("misc.test"));
}

#[test]
fn listgroup_error_keeps_waiting() {
    let mut c = Client::new();
    c.encode_command(Command::ListGroup(None)).unwrap();
    c.feed_bytes(b"412 No newsgroup selected\r\n");
    assert!(matches!(c.decode_response().unwrap(), Some(Response::Error { code: 412, .. })));
    assert_eq!(c.state(), "waiting");
}

#[test]
fn replies_to_a_missing_parent_below_a_present_ancestor_are_kept() {
    let articles = vec![
        art("<grandparent@x.com>", "2024-01-01", None),
        ThreadedArticleRef {
            references: vec!["<grandparent@x.com>".to_string(), "<missing-parent@x.com>".to_string()],
            ..art("<grandchild@x.com>", "2024-01-03", Some("<missing-parent@x.com>"))
        },
    ];
    let c = build_threads(articles, "test.group");
    assert_eq!(c.total_articles(), 2);
    assert_eq!(c.len(), 2);
    let t = c.find_thread_by_message_id("<grandchild@x.com>").unwrap();
    assert_eq!(t.root_message_id(), "<missing-parent@x.com>");
    assert!(t.has_placeholder_root());
}

#[test]
fn lone_dot_line_ends_a_list_early() {
    let reply = Response::Help(vec!["a".to_string(), ".".to_string(), "b".to_string()]);
    let mut t = ClientMockTest::new_relaxed(vec![(Command::Help, reply)]);
    assert_eq!(t.send_command(Command::Help).unwrap(), Response::Help(vec!["a".to_string()]));
}

#[test]
fn law_article_replies_read_back() {
    let article = Response::Article {
        number: Some(3000),
        message_id: "<45223423@example.com>".to_string(),
        content: "Path: pathost!demo!whitehouse!not-for-mail\r\nSubject: Héllo\r\n\r\nThis is just a test article.\r\n..\r\n".as_bytes().to_vec(),
    };
    let mut t = ClientMockTest::new_relaxed(vec![(Command::Help, article.clone())]);
    assert_eq!(t.send_command(Command::Help).unwrap(), article);
    assert_eq!(t.client().buffered_len(), 0);

    let unnumbered = Response::Article { number: None, message_id: "<x@y>".to_string(), content: b"line\r\n".to_vec() };
    let mut t = ClientMockTest::new_relaxed(vec![(Command::Help, unnumbered.clone())]);
    assert_eq!(t.send_command(Command::Help).unwrap(), unnumbered);
}

#[test]
fn article_content_without_final_crlf_gains_one() {
    let article = Response::Article { number: Some(1), message_id: "<x@y>".to_string(), content: b"abc".to_vec() };
    let mut t = ClientMockTest::new_relaxed(vec![(Command::Help, article)]);
    assert_eq!(
        t.send_command(Command::Help).unwrap(),
        Response::Article { number: Some(1), message_id: "<x@y>".to_string(), content: b"abc\r\n".to_vec() }
    );
}

#[test]
fn law_normalized_subject_is_trimmed_and_unprefixed() {
    for s in ["  Re: FWD: Aw:  topic  ", "SV: Antw: x", "[Fwd: y] re: z ", "   "] {
        let n = normalize_subject(s);
        assert_eq!(n.trim(), n);
        for p in ["re:", "fwd:", "fw:", "aw:", "sv:", "antw:"] {
            assert!(!n.to_lowercase().starts_with(p), "{n:?} starts with {p}");
        }
    }
}

#[test]
fn law_overview_fields_join_back() {
    for line in ["", "a", "1\tSubject\t\t<id>", "\t\t", "x\ty\t"] {
        let e = parse_overview_entry(line).unwrap();
        assert_eq!(e.fields.join("\t"), line);
    }
}

#[test]
fn law_status_lines_parse_to_error_or_success() {
    assert_eq!(
        Response::parse_str("411 No such newsgroup").unwrap(),
        Response::Error { code: 411, message: "No such newsgroup".to_string() }
    );
    assert_eq!(
        Response::parse_str("599 x").unwrap(),
        Response::Error { code: 599, message: "x".to_string() }
    );
    assert_eq!(
        Response::parse_str("290 ok").unwrap(),
        Response::Success { code: 290, message: "ok".to_string() }
    );
    assert_eq!(Response::parse_str("436 again").unwrap(), Response::ArticleNotWanted);
}

#[test]
fn law_parse_of_utf8_bytes_matches_parse_str() {
    let texts = [
        "200 Willkommen bei ünserem Server\r\n",
        "211 3 1 3 comp.lang.rust — ok\r\n",
        "480 Authentication required\r\n",
        "101 Capability list follows\r\nVERSION 2\r\nREADER\r\n.\r\n",
    ];
    for text in texts {
        assert_eq!(Response::parse(text.as_bytes()), Response::parse_str(text));
    }
}

#[test]
fn deep_chain_with_side_branches_builds_every_level() {
    const DEPTH: usize = 2000;
    let mut articles = vec![art("<n0>", "2024-01-01", None)];
    for i in 1..DEPTH {
        let id = format!("<n{i}>");
        let parent = format!("<n{}>", i - 1);
        articles.push(art(&id, "2024-01-02", Some(&parent)));
    }
    // a leaf hanging off the middle of the chain
    articles.push(art("<side>", "2024-01-03", Some("<n1000>")));
    let collection = build_threads(articles, "deep.group");
    assert_eq!(collection.len(), 1);
    let thread = &collection.threads()[0];
    assert_eq!(thread.article_count(), DEPTH + 1);
    assert_eq!(thread.max_depth(), DEPTH - 1);
    assert_eq!(collection.total_articles(), DEPTH + 1);
}
