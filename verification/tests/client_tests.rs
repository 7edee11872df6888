use nntp_rs::client::{find_crlf, find_terminator, parse_status_code, Client};
use nntp_rs::command::Command;
use nntp_rs::response::Response;

#[test]
fn client_test_client_creation() {
    let client = Client::new();
    assert_eq!(client.state(), "connected");
    assert!(client.is_ready());
    assert!(!client.is_authenticated());
    assert_eq!(client.current_group(), None);
}

#[test]
fn test_encode_command() {
    let mut client = Client::new();
    let bytes = client.encode_command(Command::Capabilities).unwrap();
    assert_eq!(bytes.as_ref(), b"CAPABILITIES\r\n");
}

#[test]
fn test_single_line_response() {
    let mut client = Client::new();
    client.feed_bytes(b"200 Reader mode, posting allowed\r\n");

    let response = client.decode_response().unwrap().unwrap();
    if let Response::ModeReader { posting_allowed } = response {
        assert!(posting_allowed);
    } else {
        panic!("Expected ModeReader response");
    }

    assert_eq!(client.state(), "reader");
}

#[test]
fn test_multiline_response() {
    let mut client = Client::new();
    let data = b"101 Capability list:\r\nVERSION 2\r\nREADER\r\n.\r\n";
    client.feed_bytes(data);

    let response = client.decode_response().unwrap().unwrap();
    if let Response::Capabilities(caps) = response {
        assert_eq!(caps.len(), 2);
        assert_eq!(caps[0], "VERSION 2");
        assert_eq!(caps[1], "READER");
    } else {
        panic!("Expected Capabilities response");
    }
}

#[test]
fn test_partial_response() {
    let mut client = Client::new();

    // Feed partial data
    client.feed_bytes(b"101 Capability list:\r\nVERSION 2\r\n");
    assert!(client.decode_response().unwrap().is_none());

    // Feed rest of data
    client.feed_bytes(b"READER\r\n.\r\n");
    let response = client.decode_response().unwrap().unwrap();

    if let Response::Capabilities(caps) = response {
        assert_eq!(caps.len(), 2);
    } else {
        panic!("Expected Capabilities response");
    }
}

#[test]
fn test_group_selection() {
    let mut client = Client::new();

    // Select group
    client
        .encode_command(Command::Group("misc.test".to_string()))
        .unwrap();
    client.feed_bytes(b"211 1234 3000 4234 misc.test\r\n");

    let response = client.decode_response().unwrap().unwrap();
    if let Response::GroupSelected {
        name,
        count,
        first,
        last,
    } = response
    {
        assert_eq!(name, "misc.test");
        assert_eq!(count, 1234);
        assert_eq!(first, 3000);
        assert_eq!(last, 4234);
    } else {
        panic!("Expected GroupSelected response");
    }

    assert_eq!(client.state(), "group_selected");
    assert_eq!(client.current_group(), Some("misc.test"));
}

#[test]
fn test_authentication_flow() {
    let mut client = Client::new();

    // Send user
    client
        .encode_command(Command::AuthInfoUser("testuser".to_string()))
        .unwrap();
    client.feed_bytes(b"381 More authentication information required\r\n");
    let response = client.decode_response().unwrap().unwrap();
    assert!(matches!(response, Response::AuthRequired));

    // Send password
    client
        .encode_command(Command::AuthInfoPass("testpass".to_string()))
        .unwrap();
    client.feed_bytes(b"281 Authentication accepted\r\n");
    let response = client.decode_response().unwrap().unwrap();
    assert!(matches!(response, Response::AuthSuccess));

    assert!(client.is_authenticated());
    assert_eq!(client.state(), "authenticated");
}

#[test]
fn client_test_quit_command() {
    let mut client = Client::new();

    client.encode_command(Command::Quit).unwrap();
    assert_eq!(client.state(), "closed");

    client.feed_bytes(b"205 Goodbye\r\n");
    let response = client.decode_response().unwrap().unwrap();
    assert!(matches!(response, Response::Quit));
}

#[test]
fn test_post_flow() {
    let mut client = Client::new();

    // Set up reader mode first
    client.encode_command(Command::ModeReader).unwrap();
    client.feed_bytes(b"200 Reader mode, posting allowed\r\n");
    client.decode_response().unwrap();

    // Start posting
    client.encode_command(Command::Post).unwrap();
    assert_eq!(client.state(), "posting");

    client.feed_bytes(b"340 Send article to be posted\r\n");
    let response = client.decode_response().unwrap().unwrap();
    assert!(matches!(response, Response::PostAccepted));
}

#[test]
fn test_state_validation_last_requires_group() {
    let mut client = Client::new();

    // Try LAST without selecting a group
    let result = client.encode_command(Command::Last);
    assert!(result.is_err());

    if let Err(nntp_rs::Error::Protocol { code, .. }) = result {
        assert_eq!(code, 412);
    } else {
        panic!("Expected Protocol error with code 412");
    }
}

#[test]
fn test_state_validation_next_requires_group() {
    let mut client = Client::new();

    // Try NEXT without selecting a group
    let result = client.encode_command(Command::Next);
    assert!(result.is_err());
}

#[test]
fn test_state_validation_over_without_range_requires_group() {
    let mut client = Client::new();

    // OVER without range requires group
    let result = client.encode_command(Command::Over { range: None });
    assert!(result.is_err());

    // OVER with range is okay without group
    let result = client.encode_command(Command::Over {
        range: Some("100-200".to_string()),
    });
    assert!(result.is_ok());
}

#[test]
fn test_state_validation_hdr_without_range_requires_group() {
    let mut client = Client::new();

    // HDR without range requires group
    let result = client.encode_command(Command::Hdr {
        field: "Subject".to_string(),
        range: None,
    });
    assert!(result.is_err());
}

#[test]
fn test_error_response_state_handling() {
    let mut client = Client::new();

    // Enter reader mode
    client.encode_command(Command::ModeReader).unwrap();
    client.feed_bytes(b"200 Reader mode, posting allowed\r\n");
    client.decode_response().unwrap();
    assert_eq!(client.state(), "reader");

    // Send a command that results in error
    client
        .encode_command(Command::Group("nonexistent.group".to_string()))
        .unwrap();
    client.feed_bytes(b"411 No such newsgroup\r\n");
    let response = client.decode_response().unwrap().unwrap();

    assert!(matches!(response, Response::Error { code: 411, .. }));
    // State is 'reader' after error response is processed (not waiting anymore)
    // The client returns to reader state after an error
    assert!(client.state() == "reader" || client.state() == "waiting");
}

#[test]
fn test_default_client() {
    let client = Client::default();
    assert_eq!(client.state(), "connected");
}

#[test]
fn test_empty_buffer_returns_none() {
    let mut client = Client::new();

    // No data fed
    let response = client.decode_response().unwrap();
    assert!(response.is_none());
}

#[test]
fn test_post_success_returns_to_reader() {
    let mut client = Client::new();

    // Set up reader mode
    client.encode_command(Command::ModeReader).unwrap();
    client.feed_bytes(b"200 Reader mode, posting allowed\r\n");
    client.decode_response().unwrap();

    // Start posting
    client.encode_command(Command::Post).unwrap();
    client.feed_bytes(b"340 Send article\r\n");
    client.decode_response().unwrap();
    assert_eq!(client.state(), "posting");

    // Post success returns to reader state (since we weren't authenticated)
    client.feed_bytes(b"240 Article posted\r\n");
    let response = client.decode_response().unwrap().unwrap();
    assert!(matches!(response, Response::PostSuccess));
    // After post success from reader mode, returns to reader
    assert_eq!(client.state(), "reader");
}

#[test]
fn test_post_from_authenticated_state() {
    let mut client = Client::new();

    // Set up reader mode and authenticate
    client.encode_command(Command::ModeReader).unwrap();
    client.feed_bytes(b"200 Reader mode, posting allowed\r\n");
    client.decode_response().unwrap();

    // Authenticate
    client
        .encode_command(Command::AuthInfoUser("user".to_string()))
        .unwrap();
    client.feed_bytes(b"381 Password required\r\n");
    client.decode_response().unwrap();

    client
        .encode_command(Command::AuthInfoPass("pass".to_string()))
        .unwrap();
    client.feed_bytes(b"281 Authentication accepted\r\n");
    client.decode_response().unwrap();
    assert!(client.is_authenticated());
    assert_eq!(client.state(), "authenticated");

    // Start posting - state becomes posting
    client.encode_command(Command::Post).unwrap();
    client.feed_bytes(b"340 Send article\r\n");
    client.decode_response().unwrap();
    assert_eq!(client.state(), "posting");
    // Note: is_authenticated() returns false when in Posting state
    // because the state machine doesn't track previous auth state
}

#[test]
fn test_permanent_error_state_reset() {
    let mut client = Client::new();

    // Set up reader mode
    client.encode_command(Command::ModeReader).unwrap();
    client.feed_bytes(b"200 Reader mode, posting allowed\r\n");
    client.decode_response().unwrap();

    // Send a command
    client
        .encode_command(Command::Group("test.group".to_string()))
        .unwrap();

    // Get a 5xx permanent error
    client.feed_bytes(b"502 Access denied\r\n");
    let response = client.decode_response().unwrap().unwrap();

    assert!(matches!(response, Response::Error { code: 502, .. }));
    // After permanent error while waiting, should return to reader state
    assert_eq!(client.state(), "reader");
}

#[test]
fn test_generic_response_after_waiting() {
    let mut client = Client::new();

    // Set up reader mode
    client.encode_command(Command::ModeReader).unwrap();
    client.feed_bytes(b"200 Reader mode, posting allowed\r\n");
    client.decode_response().unwrap();

    // Send help command (puts us in waiting state)
    client.encode_command(Command::Help).unwrap();
    assert_eq!(client.state(), "waiting");

    // Get help response
    client.feed_bytes(b"100 Help follows\r\nTest\r\n.\r\n");
    let response = client.decode_response().unwrap().unwrap();

    assert!(matches!(response, Response::Help(_)));
    // After help response, returns to reader (not authenticated since we never authed)
    assert_eq!(client.state(), "reader");
}

#[test]
fn test_find_crlf() {
    assert_eq!(find_crlf(b"hello\r\nworld"), Some(5));
    assert_eq!(find_crlf(b"no newline"), None);
    assert_eq!(find_crlf(b"\r\n"), Some(0));
    assert_eq!(find_crlf(b"a\r\nb"), Some(1));
    assert_eq!(find_crlf(b"\r"), None); // incomplete CRLF
}

#[test]
fn test_find_terminator() {
    assert_eq!(find_terminator(b"data\r\n.\r\n"), Some(4));
    assert_eq!(find_terminator(b"\r\n.\r\n"), Some(0));
    assert_eq!(find_terminator(b"no terminator"), None);
    assert_eq!(find_terminator(b"\r\n.\r"), None); // incomplete
    assert_eq!(find_terminator(b"\r\n."), None); // too short
}

#[test]
fn test_parse_status_code() {
    assert_eq!(parse_status_code(b"200"), Some(200));
    assert_eq!(parse_status_code(b"101"), Some(101));
    assert_eq!(parse_status_code(b"599"), Some(599));
    assert_eq!(parse_status_code(b"ABC"), None);
    assert_eq!(parse_status_code(b"20"), None); // too short
    assert_eq!(parse_status_code(b"2x0"), None); // non-digit
}

#[test]
fn test_non_utf8_in_multiline_response() {
    let mut client = Client::new();

    // Create a multiline response with non-UTF-8 bytes (e.g., ISO-8859-1 encoded name)
    let mut response_data = Vec::new();
    response_data.extend_from_slice(b"225 Header follows\r\n");
    response_data.extend_from_slice(b"3000 Test ");
    response_data.push(0xE9); // é in ISO-8859-1
    response_data.extend_from_slice(b" Author\r\n");
    response_data.extend_from_slice(b".\r\n");

    client.feed_bytes(&response_data);

    // Should not error due to non-UTF-8 content
    let result = client.decode_response();
    assert!(result.is_ok());
    let response = result.unwrap();
    assert!(response.is_some());
}

#[test]
fn test_non_utf8_in_hdr_from_response() {
    let mut client = Client::new();

    // Simulate a large HDR From response with non-UTF-8 bytes
    // This mimics the real-world error: "incomplete utf-8 byte sequence from index 212928"
    let mut response_data = Vec::new();
    response_data.extend_from_slice(b"225 Header follows\r\n");

    // Add many header entries, some with non-UTF-8 characters
    for i in 0..100 {
        response_data.extend_from_slice(format!("{} ", 3000 + i).as_bytes());
        // Add some non-UTF-8 bytes (common in email From headers with legacy encodings)
        if i % 10 == 0 {
            response_data.push(0xE9); // é in ISO-8859-1
            response_data.push(0xF1); // ñ in ISO-8859-1
        }
        response_data.extend_from_slice(b"Test Author\r\n");
    }
    response_data.extend_from_slice(b".\r\n");

    client.feed_bytes(&response_data);

    // Should not error due to non-UTF-8 content
    let result = client.decode_response();
    assert!(result.is_ok());
}

#[test]
fn test_chunked_non_utf8_data() {
    let mut client = Client::new();

    // Feed data in chunks, with a split happening in the middle of non-UTF-8 bytes
    // This tests that the byte-based approach handles chunking correctly
    let part1 = b"225 Header follows\r\n3000 Test ";
    let mut part2 = Vec::new();
    part2.push(0xE9); // é in ISO-8859-1
    part2.extend_from_slice(b" Author\r\n.\r\n");

    client.feed_bytes(part1);
    // No complete response yet
    assert!(client.decode_response().unwrap().is_none());

    client.feed_bytes(&part2);
    // Now should have complete response
    let response = client.decode_response().unwrap();
    assert!(response.is_some());
}

#[test]
fn test_net_client_module_compiles() {
    // The network client lives with the I/O code; the protocol client it
    // drives is exercised by the tests above.
    let client = Client::new();
    assert!(client.is_ready());
}

#[test]
fn async_std_test_client_creation() {
    // Basic compilation test
    let _client = Client::new();
}

#[test]
fn tokio_test_client_creation() {
    // Basic compilation test
    let _client = Client::new();
}
