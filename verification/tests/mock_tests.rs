use nntp_rs::command::Command;
use nntp_rs::mock::{encode_response, ClientMockTest, MockServer};
use nntp_rs::response::Response;

#[test]
fn test_mock_server_basic() {
    let interactions = vec![
        (
            Command::Capabilities,
            Response::Capabilities(vec!["VERSION 2".to_string(), "READER".to_string()]),
        ),
        (
            Command::ModeReader,
            Response::ModeReader {
                posting_allowed: true,
            },
        ),
    ];

    let mut mock = MockServer::new(interactions);

    // Test expected sequence
    let response1 = mock.handle_command(&Command::Capabilities).unwrap();
    if let Response::Capabilities(caps) = response1 {
        assert_eq!(caps.len(), 2);
    } else {
        panic!("Expected Capabilities response");
    }

    let response2 = mock.handle_command(&Command::ModeReader).unwrap();
    if let Response::ModeReader { posting_allowed } = response2 {
        assert!(posting_allowed);
    } else {
        panic!("Expected ModeReader response");
    }

    assert!(mock.is_complete());
}

#[test]
fn test_mock_server_wrong_command() {
    let interactions = vec![(
        Command::Capabilities,
        Response::Capabilities(vec!["VERSION 2".to_string()]),
    )];

    let mut mock = MockServer::new(interactions);

    // Send wrong command
    let result = mock.handle_command(&Command::ModeReader);
    assert!(result.is_err());
}

#[test]
fn test_mock_server_relaxed_mode() {
    let interactions = vec![(
        Command::Capabilities,
        Response::Capabilities(vec!["VERSION 2".to_string()]),
    )];

    let mut mock = MockServer::new_relaxed(interactions);

    // Send wrong command - should get error response, not panic
    let response = mock.handle_command(&Command::ModeReader).unwrap();
    if let Response::Error { code, .. } = response {
        assert_eq!(code, 500);
    } else {
        panic!("Expected Error response");
    }

    // Original interaction should still be available
    assert_eq!(mock.remaining_interactions(), 1);
}

#[test]
fn test_client_mock_integration() {
    let interactions = vec![
        (
            Command::Capabilities,
            Response::Capabilities(vec!["VERSION 2".to_string(), "READER".to_string()]),
        ),
        (
            Command::ModeReader,
            Response::ModeReader {
                posting_allowed: true,
            },
        ),
        (
            Command::Group("comp.lang.rust".to_string()),
            Response::GroupSelected {
                count: 1234,
                first: 3000,
                last: 4234,
                name: "comp.lang.rust".to_string(),
            },
        ),
    ];

    let mut test = ClientMockTest::new(interactions);

    // Test capabilities
    let response = test.send_command(Command::Capabilities).unwrap();
    if let Response::Capabilities(caps) = response {
        assert_eq!(caps.len(), 2);
        assert_eq!(caps[0], "VERSION 2");
        assert_eq!(caps[1], "READER");
    } else {
        panic!("Expected Capabilities response");
    }

    // Test mode reader
    let response = test.send_command(Command::ModeReader).unwrap();
    if let Response::ModeReader { posting_allowed } = response {
        assert!(posting_allowed);
    } else {
        panic!("Expected ModeReader response");
    }

    assert_eq!(test.client().state(), "reader");

    // Test group selection
    let response = test
        .send_command(Command::Group("comp.lang.rust".to_string()))
        .unwrap();
    if let Response::GroupSelected { name, count, .. } = response {
        assert_eq!(name, "comp.lang.rust");
        assert_eq!(count, 1234);
    } else {
        panic!("Expected GroupSelected response");
    }

    assert_eq!(test.client().state(), "group_selected");
    assert_eq!(test.client().current_group(), Some("comp.lang.rust"));
    assert!(test.is_complete());
}

#[test]
fn test_response_encoding() {
    // Test capability response encoding
    let caps_response =
        Response::Capabilities(vec!["VERSION 2".to_string(), "READER".to_string()]);
    let encoded = encode_response(&caps_response).unwrap();
    let expected = b"101 Capability list:\r\nVERSION 2\r\nREADER\r\n.\r\n";
    assert_eq!(encoded, expected);

    // Test group response encoding
    let group_response = Response::GroupSelected {
        count: 1234,
        first: 3000,
        last: 4234,
        name: "comp.lang.rust".to_string(),
    };
    let encoded = encode_response(&group_response).unwrap();
    let expected = b"211 1234 3000 4234 comp.lang.rust\r\n";
    assert_eq!(encoded, expected);

    // Test error response encoding
    let error_response = Response::Error {
        code: 500,
        message: "Command not recognized".to_string(),
    };
    let encoded = encode_response(&error_response).unwrap();
    let expected = b"500 Command not recognized\r\n";
    assert_eq!(encoded, expected);
}
