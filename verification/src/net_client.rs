//! The decisions of a networked NNTP client: how each server reply to a
//! command is turned into the command's result, and what is sent after a
//! POST or IHAVE is accepted. The caller does the reading and writing.

use vstd::prelude::*;
use vstd::utf8::encode_utf8;
use crate::error::{Error, ErrorV, Result};
use crate::response::{Response, ResponseV};
use crate::response::lines::groups_view;
use crate::response::wrappers::NewsgroupList;

verus! {

/// The error for an error reply, if the reply is one.
pub open spec fn reply_error(r: ResponseV) -> Option<ErrorV> {
    match r {
        ResponseV::Error { code, message } => Some(ErrorV::Protocol { code, message }),
        _ => None,
    }
}

/// An error reply becomes `Error::Protocol` with its code and message; any
/// other reply is passed on.
pub fn check_reply(response: Response) -> (r: Result<Response>)
    ensures
        match reply_error(response@) {
            Some(e) => r matches Err(x) && x@ == e,
            None => r == Ok::<Response, Error>(response),
        },
{
    match response {
        Response::Error { code, message } => Err(Error::Protocol { code, message }),
        other => Ok(other),
    }
}

/// What to do after the reply to AUTHINFO USER.
pub enum AuthStep {
    /// The user is authenticated already.
    Authenticated,
    /// The password is to be sent.
    SendPassword,
}

/// The step after the reply to AUTHINFO USER: done on 281, send the
/// password on 381; an error reply fails with its code and message, any
/// other with `Error::InvalidResponse`.
pub fn after_auth_user(response: Response) -> (r: Result<AuthStep>)
    ensures
        match response@ {
            ResponseV::AuthSuccess => r matches Ok(AuthStep::Authenticated),
            ResponseV::AuthRequired => r matches Ok(AuthStep::SendPassword),
            ResponseV::Error { code, message } => r matches Err(e) && e@ == (ErrorV::Protocol { code, message }),
            _ => r matches Err(e) && e@ == ErrorV::InvalidResponse("Unexpected auth response"@),
        },
{
    match response {
        Response::AuthSuccess => Ok(AuthStep::Authenticated),
        Response::AuthRequired => Ok(AuthStep::SendPassword),
        Response::Error { code, message } => Err(Error::Protocol { code, message }),
        _ => Err(Error::InvalidResponse("Unexpected auth response".to_owned())),
    }
}

/// A reply that acknowledges a step: 281 after AUTHINFO PASS, 240 after a
/// posted article, 340 after POST, 235 after a transferred article.
enum Ack {
    AuthOk,
    Posted,
    PostReady,
    Transferred,
}

/// Whether `r` is the reply that `ack` names.
spec fn acknowledges(ack: Ack, r: ResponseV) -> bool {
    match ack {
        Ack::AuthOk => r is AuthSuccess,
        Ack::Posted => r is PostSuccess,
        Ack::PostReady => r is PostAccepted,
        Ack::Transferred => r is ArticleTransferred,
    }
}

/// The result of a reply that should acknowledge a step: success on the
/// acknowledgement, the code and message of an error reply, else
/// `Error::InvalidResponse` with `other`.
fn expect_reply(response: Response, ack: Ack, other: &str) -> (r: Result<()>)
    ensures
        if acknowledges(ack, response@) {
            r is Ok
        } else {
            match response@ {
                ResponseV::Error { code, message } => r matches Err(e) && e@ == (ErrorV::Protocol { code, message }),
                _ => r matches Err(e) && e@ == ErrorV::InvalidResponse(other@),
            }
        },
{
    let matched = match (&response, &ack) {
        (Response::AuthSuccess, Ack::AuthOk) => true,
        (Response::PostSuccess, Ack::Posted) => true,
        (Response::PostAccepted, Ack::PostReady) => true,
        (Response::ArticleTransferred, Ack::Transferred) => true,
        _ => false,
    };
    if matched {
        return Ok(());
    }
    match response {
        Response::Error { code, message } => Err(Error::Protocol { code, message }),
        _ => Err(Error::InvalidResponse(other.to_owned())),
    }
}

/// The result of the reply to AUTHINFO PASS: success on 281.
pub fn after_auth_pass(response: Response) -> (r: Result<()>)
    ensures
        match response@ {
            ResponseV::AuthSuccess => r is Ok,
            ResponseV::Error { code, message } => r matches Err(e) && e@ == (ErrorV::Protocol { code, message }),
            _ => r matches Err(e) && e@ == ErrorV::InvalidResponse("Expected auth response"@),
        },
{
    expect_reply(response, Ack::AuthOk, "Expected auth response")
}

/// The result of the reply to POST: the article may be sent on 340.
pub fn after_post_command(response: Response) -> (r: Result<()>)
    ensures
        match response@ {
            ResponseV::PostAccepted => r is Ok,
            ResponseV::Error { code, message } => r matches Err(e) && e@ == (ErrorV::Protocol { code, message }),
            _ => r matches Err(e) && e@ == ErrorV::InvalidResponse("Expected post ready response"@),
        },
{
    expect_reply(response, Ack::PostReady, "Expected post ready response")
}

/// The result of the reply to a posted article: success on 240.
pub fn after_post_article(response: Response) -> (r: Result<()>)
    ensures
        match response@ {
            ResponseV::PostSuccess => r is Ok,
            ResponseV::Error { code, message } => r matches Err(e) && e@ == (ErrorV::Protocol { code, message }),
            _ => r matches Err(e) && e@ == ErrorV::InvalidResponse("Expected post response"@),
        },
{
    expect_reply(response, Ack::Posted, "Expected post response")
}

/// The result of the reply to IHAVE: the article may be sent on 335; 435
/// and 436 (not wanted) fail with code 435.
pub fn after_ihave_command(response: Response) -> (r: Result<()>)
    ensures
        match response@ {
            ResponseV::ArticleWanted => r is Ok,
            ResponseV::ArticleNotWanted => r matches Err(e) && e@ == (ErrorV::Protocol {
                code: 435,
                message: "Article not wanted"@,
            }),
            ResponseV::Error { code, message } => r matches Err(e) && e@ == (ErrorV::Protocol { code, message }),
            _ => r matches Err(e) && e@ == ErrorV::InvalidResponse("Expected ihave response"@),
        },
{
    match response {
        Response::ArticleWanted => Ok(()),
        Response::ArticleNotWanted => Err(
            Error::Protocol { code: 435, message: "Article not wanted".to_owned() },
        ),
        Response::Error { code, message } => Err(Error::Protocol { code, message }),
        _ => Err(Error::InvalidResponse("Expected ihave response".to_owned())),
    }
}

/// The result of the reply to a transferred article: success on 235.
pub fn after_ihave_article(response: Response) -> (r: Result<()>)
    ensures
        match response@ {
            ResponseV::ArticleTransferred => r is Ok,
            ResponseV::Error { code, message } => r matches Err(e) && e@ == (ErrorV::Protocol { code, message }),
            _ => r matches Err(e) && e@ == ErrorV::InvalidResponse("Expected transfer response"@),
        },
{
    expect_reply(response, Ack::Transferred, "Expected transfer response")
}

/// The bytes sent for an article after POST or IHAVE is accepted: the
/// article's UTF-8 bytes, then CR LF "." CR LF.
pub fn article_upload(article: String) -> (r: Vec<u8>)
    ensures
        r@ == encode_utf8(article@) + seq![13u8, 10u8, 46u8, 13u8, 10u8],
{
    let b = article.as_str().as_bytes();
    let mut out = vstd::slice::slice_to_vec(b);
    out.push(13u8);
    out.push(10u8);
    out.push(46u8);
    out.push(13u8);
    out.push(10u8);
    assert(out@ =~= encode_utf8(article@) + seq![13u8, 10u8, 46u8, 13u8, 10u8]);
    out
}

/// The content of the reply to HEAD (`what` "headers") or BODY (`what`
/// "body"): the article's content; an error reply fails with its code and
/// message, any other reply with "Expected {what} response".
fn article_content(response: Response, other: &str) -> (r: Result<Vec<u8>>)
    ensures
        match response@ {
            ResponseV::Article { content, .. } => r matches Ok(c) && c@ == content,
            ResponseV::Error { code, message } => r matches Err(e) && e@ == (ErrorV::Protocol { code, message }),
            _ => r matches Err(e) && e@ == ErrorV::InvalidResponse(other@),
        },
{
    match response {
        Response::Article { content, .. } => Ok(content),
        Response::Error { code, message } => Err(Error::Protocol { code, message }),
        _ => Err(Error::InvalidResponse(other.to_owned())),
    }
}

/// The content of the reply to HEAD.
pub fn head_content(response: Response) -> (r: Result<Vec<u8>>)
    ensures
        match response@ {
            ResponseV::Article { content, .. } => r matches Ok(c) && c@ == content,
            ResponseV::Error { code, message } => r matches Err(e) && e@ == (ErrorV::Protocol { code, message }),
            _ => r matches Err(e) && e@ == ErrorV::InvalidResponse("Expected headers response"@),
        },
{
    article_content(response, "Expected headers response")
}

/// The content of the reply to BODY.
pub fn body_content(response: Response) -> (r: Result<Vec<u8>>)
    ensures
        match response@ {
            ResponseV::Article { content, .. } => r matches Ok(c) && c@ == content,
            ResponseV::Error { code, message } => r matches Err(e) && e@ == (ErrorV::Protocol { code, message }),
            _ => r matches Err(e) && e@ == ErrorV::InvalidResponse("Expected body response"@),
        },
{
    article_content(response, "Expected body response")
}

/// The newsgroups of the reply to LIST: an error reply fails with its code
/// and message; the overview format reply (LIST OVERVIEW.FMT) gives an
/// empty list; a newsgroup list is returned; any other reply is an
/// `Error::InvalidResponse`.
pub fn list_groups(response: Response) -> (r: Result<NewsgroupList>)
    ensures
        match response@ {
            ResponseV::Error { code, message } => r matches Err(e) && e@ == (ErrorV::Protocol { code, message }),
            ResponseV::OverviewFormat(_) => r matches Ok(l) && l.0@.len() == 0,
            ResponseV::NewsgroupList(g) => r matches Ok(l) && groups_view(l.0@) == g,
            ResponseV::NewNewsgroups(g) => r matches Ok(l) && groups_view(l.0@) == g,
            _ => r matches Err(e) && e@ == ErrorV::InvalidResponse("Expected newsgroup list response"@),
        },
{
    match response {
        Response::Error { code, message } => Err(Error::Protocol { code, message }),
        Response::OverviewFormat(_) => Ok(NewsgroupList(Vec::new())),
        other => NewsgroupList::try_from(other),
    }
}

/// Whether posting is allowed, from a server greeting or MODE READER
/// reply (200 or 201); nothing for another reply.
pub fn posting_allowed_of(response: &Response) -> (r: Option<bool>)
    ensures
        match response@ {
            ResponseV::ModeReader { posting_allowed } => r == Some(posting_allowed),
            _ => r is None,
        },
{
    match response {
        Response::ModeReader { posting_allowed } => Some(*posting_allowed),
        _ => None,
    }
}

} // verus!
