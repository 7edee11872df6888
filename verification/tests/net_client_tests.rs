use nntp_rs::error::Error;
use nntp_rs::net_client::{
    after_auth_pass, after_auth_user, after_ihave_article, after_ihave_command,
    after_post_article, after_post_command, article_upload, body_content, check_reply,
    head_content, list_groups, posting_allowed_of, AuthStep,
};
use nntp_rs::response::{NewsGroup, Response};

fn protocol(code: u16, message: &str) -> Error {
    Error::Protocol { code, message: message.to_string() }
}

fn err_reply(code: u16, message: &str) -> Response {
    Response::Error { code, message: message.to_string() }
}

#[test]
fn check_reply_passes_non_error_replies() {
    assert_eq!(check_reply(Response::Date("20240101000000".to_string())), Ok(Response::Date("20240101000000".to_string())));
    assert_eq!(check_reply(err_reply(411, "No such group")), Err(protocol(411, "No such group")));
}

#[test]
fn auth_user_steps() {
    assert!(matches!(after_auth_user(Response::AuthSuccess), Ok(AuthStep::Authenticated)));
    assert!(matches!(after_auth_user(Response::AuthRequired), Ok(AuthStep::SendPassword)));
    assert_eq!(after_auth_user(err_reply(481, "Bad")).err(), Some(protocol(481, "Bad")));
    assert_eq!(
        after_auth_user(Response::Quit).err(),
        Some(Error::InvalidResponse("Unexpected auth response".to_string()))
    );
}

#[test]
fn auth_pass_result() {
    assert_eq!(after_auth_pass(Response::AuthSuccess), Ok(()));
    assert_eq!(after_auth_pass(err_reply(481, "Rejected")), Err(protocol(481, "Rejected")));
    assert_eq!(
        after_auth_pass(Response::AuthRequired),
        Err(Error::InvalidResponse("Expected auth response".to_string()))
    );
}

#[test]
fn post_steps() {
    assert_eq!(after_post_command(Response::PostAccepted), Ok(()));
    assert_eq!(after_post_command(err_reply(440, "Posting not permitted")), Err(protocol(440, "Posting not permitted")));
    assert_eq!(
        after_post_command(Response::PostSuccess),
        Err(Error::InvalidResponse("Expected post ready response".to_string()))
    );
    assert_eq!(after_post_article(Response::PostSuccess), Ok(()));
    assert_eq!(after_post_article(err_reply(441, "Posting failed")), Err(protocol(441, "Posting failed")));
    assert_eq!(
        after_post_article(Response::PostAccepted),
        Err(Error::InvalidResponse("Expected post response".to_string()))
    );
}

#[test]
fn ihave_steps() {
    assert_eq!(after_ihave_command(Response::ArticleWanted), Ok(()));
    assert_eq!(after_ihave_command(Response::ArticleNotWanted), Err(protocol(435, "Article not wanted")));
    assert_eq!(after_ihave_command(err_reply(480, "Transfer not permitted")), Err(protocol(480, "Transfer not permitted")));
    assert_eq!(
        after_ihave_command(Response::PostAccepted),
        Err(Error::InvalidResponse("Expected ihave response".to_string()))
    );
    assert_eq!(after_ihave_article(Response::ArticleTransferred), Ok(()));
    assert_eq!(after_ihave_article(err_reply(437, "Rejected")), Err(protocol(437, "Rejected")));
    assert_eq!(
        after_ihave_article(Response::ArticleWanted),
        Err(Error::InvalidResponse("Expected transfer response".to_string()))
    );
}

#[test]
fn upload_appends_terminator() {
    assert_eq!(article_upload("Subject: x\r\n\r\nbody".to_string()), b"Subject: x\r\n\r\nbody\r\n.\r\n".to_vec());
    assert_eq!(article_upload(String::new()), b"\r\n.\r\n".to_vec());
    assert_eq!(article_upload("é".to_string()), vec![0xC3, 0xA9, 13, 10, 46, 13, 10]);
}

#[test]
fn head_and_body_content() {
    let reply = Response::Article { number: Some(3), message_id: "<a@b>".to_string(), content: b"From: x".to_vec() };
    assert_eq!(head_content(reply.clone()), Ok(b"From: x".to_vec()));
    assert_eq!(body_content(reply), Ok(b"From: x".to_vec()));
    assert_eq!(head_content(err_reply(430, "No article")), Err(protocol(430, "No article")));
    assert_eq!(head_content(Response::Quit), Err(Error::InvalidResponse("Expected headers response".to_string())));
    assert_eq!(body_content(Response::Quit), Err(Error::InvalidResponse("Expected body response".to_string())));
}

#[test]
fn list_groups_results() {
    let g = NewsGroup { name: "misc.test".to_string(), last: 10, first: 1, posting_status: 'y' };
    let list = list_groups(Response::NewsgroupList(vec![g.clone()])).unwrap();
    assert_eq!(list.0, vec![g.clone()]);
    let fresh = list_groups(Response::NewNewsgroups(vec![g.clone()])).unwrap();
    assert_eq!(fresh.0, vec![g]);
    let empty = list_groups(Response::OverviewFormat(vec!["Subject:".to_string()])).unwrap();
    assert!(empty.0.is_empty());
    assert_eq!(list_groups(err_reply(503, "Not supported")).err(), Some(protocol(503, "Not supported")));
    assert_eq!(
        list_groups(Response::Quit).err(),
        Some(Error::InvalidResponse("Expected newsgroup list response".to_string()))
    );
}

#[test]
fn posting_permission_from_greeting() {
    assert_eq!(posting_allowed_of(&Response::ModeReader { posting_allowed: true }), Some(true));
    assert_eq!(posting_allowed_of(&Response::ModeReader { posting_allowed: false }), Some(false));
    assert_eq!(posting_allowed_of(&Response::Quit), None);
}
