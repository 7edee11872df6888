//! NNTP response types and parsing.
//!
//! - [`metadata`] - newsgroup metadata types ([`NewsGroup`], [`OverviewEntry`], [`HeaderEntry`])
//! - [`lines`] - line-level parsing of multi-line payloads

pub mod metadata;
pub mod lines;
pub mod decode;
pub mod article;
pub mod wrappers;

pub use metadata::{HeaderEntry, NewsGroup, OverviewEntry};
pub use article::{Article, Attachment, ParsedArticle};
pub use wrappers::{ActiveTimeEntry, ActiveTimesList, ArticleNumbers, ArticlePointer, Capabilities, CountsEntry, CountsList, DistribPat, DistribPatsList, DistributionEntry, DistributionsList, GroupStats, HeaderData, HeadersList, HelpText, MessageIdList, ModeratorEntry, ModeratorsList, NewsgroupDesc, NewsgroupDescList, NewsgroupList, OverviewData, OverviewFormat, PostingStatus, ServerDate};

use vstd::prelude::*;
use crate::error::{Error, ErrorV, Result, rv};
use crate::text::{
    chars_of, chars_of_string, contains_seq, find_char, index_of, lemma_index_of, lines,
    lower_seq, lowercase, parse_u16, parse_u16_spec, parse_u64, parse_u64_spec, seq_contains,
    seqs_of, split_lines, split_whitespace, split_ws, string_from_chars, string_of_range,
    strings_of, copy_chars, push_str,
};
use metadata::{HeaderEntryV, NewsGroupV};
use lines::{
    body, body_end, collect_content, collect_groups, collect_headers, collect_lines,
    collect_numbers, collect_overview, content_of, groups_of, groups_view, headers_of,
    headers_view, numbers_of, overview_of, overviews_view,
};

verus! {

/// NNTP server responses
#[derive(Debug, Clone, PartialEq)]
pub enum Response {
    /// Server capabilities response (101)
    Capabilities(Vec<String>),
    /// Mode reader response (200/201)
    ModeReader {
        /// Whether posting is allowed
        posting_allowed: bool,
    },
    /// Authentication successful (281)
    AuthSuccess,
    /// Authentication required (381)
    AuthRequired,
    /// Group selected successfully (211)
    GroupSelected {
        /// Estimated number of articles
        count: u64,
        /// First article number
        first: u64,
        /// Last article number
        last: u64,
        /// Group name
        name: String,
    },
    /// Article listing (211)
    ArticleListing(Vec<u64>),
    /// Article retrieved (220/221/222)
    Article {
        /// Article number
        number: Option<u64>,
        /// Message-ID
        message_id: String,
        /// Article content (headers and/or body)
        content: Vec<u8>,
    },
    /// Article status (223)
    ArticleStatus {
        /// Article number
        number: u64,
        /// Message-ID
        message_id: String,
    },
    /// Newsgroup list (215)
    NewsgroupList(Vec<NewsGroup>),
    /// New newsgroups (231)
    NewNewsgroups(Vec<NewsGroup>),
    /// New articles (230)
    NewArticles(Vec<String>),
    /// Post accepted (340)
    PostAccepted,
    /// Article wanted for IHAVE (335)
    ArticleWanted,
    /// Article not wanted for IHAVE (435/436)
    ArticleNotWanted,
    /// Article transferred successfully (235)
    ArticleTransferred,
    /// Article posted successfully (240)
    PostSuccess,
    /// Connection closing (205)
    Quit,
    /// Help information (100)
    Help(Vec<String>),
    /// Server date and time (111)
    Date(String),
    /// Header field data (225)
    HeaderData(Vec<HeaderEntry>),
    /// Overview data (224)
    OverviewData(Vec<OverviewEntry>),
    /// Overview format data (215)
    OverviewFormat(Vec<String>),
    /// Generic successful response
    Success {
        /// Response code
        code: u16,
        /// Response message
        message: String,
    },
    /// Protocol error response (4xx/5xx codes).
    Error {
        /// Error code
        code: u16,
        /// Error message
        message: String,
    },
    /// TLS negotiation may begin (382 response).
    TlsReady,
    /// TLS temporarily unavailable (483 response).
    TlsNotAvailable {
        /// Server-provided message explaining why TLS is unavailable
        message: String,
    },
}

/// Mathematical value of a [`Response`].
pub enum ResponseV {
    Capabilities(Seq<Seq<char>>),
    ModeReader { posting_allowed: bool },
    AuthSuccess,
    AuthRequired,
    GroupSelected { count: u64, first: u64, last: u64, name: Seq<char> },
    ArticleListing(Seq<u64>),
    Article { number: Option<u64>, message_id: Seq<char>, content: Seq<u8> },
    ArticleStatus { number: u64, message_id: Seq<char> },
    NewsgroupList(Seq<NewsGroupV>),
    NewNewsgroups(Seq<NewsGroupV>),
    NewArticles(Seq<Seq<char>>),
    PostAccepted,
    ArticleWanted,
    ArticleNotWanted,
    ArticleTransferred,
    PostSuccess,
    Quit,
    Help(Seq<Seq<char>>),
    Date(Seq<char>),
    HeaderData(Seq<HeaderEntryV>),
    OverviewData(Seq<Seq<Seq<char>>>),
    OverviewFormat(Seq<Seq<char>>),
    Success { code: u16, message: Seq<char> },
    Error { code: u16, message: Seq<char> },
    TlsReady,
    TlsNotAvailable { message: Seq<char> },
}

impl View for Response {
    type V = ResponseV;

    open spec fn view(&self) -> ResponseV {
        match self {
            Response::Capabilities(v) => ResponseV::Capabilities(strings_of(v@)),
            Response::ModeReader { posting_allowed } => ResponseV::ModeReader {
                posting_allowed: *posting_allowed,
            },
            Response::AuthSuccess => ResponseV::AuthSuccess,
            Response::AuthRequired => ResponseV::AuthRequired,
            Response::GroupSelected { count, first, last, name } => ResponseV::GroupSelected {
                count: *count,
                first: *first,
                last: *last,
                name: name@,
            },
            Response::ArticleListing(v) => ResponseV::ArticleListing(v@),
            Response::Article { number, message_id, content } => ResponseV::Article {
                number: *number,
                message_id: message_id@,
                content: content@,
            },
            Response::ArticleStatus { number, message_id } => ResponseV::ArticleStatus {
                number: *number,
                message_id: message_id@,
            },
            Response::NewsgroupList(v) => ResponseV::NewsgroupList(groups_view(v@)),
            Response::NewNewsgroups(v) => ResponseV::NewNewsgroups(groups_view(v@)),
            Response::NewArticles(v) => ResponseV::NewArticles(strings_of(v@)),
            Response::PostAccepted => ResponseV::PostAccepted,
            Response::ArticleWanted => ResponseV::ArticleWanted,
            Response::ArticleNotWanted => ResponseV::ArticleNotWanted,
            Response::ArticleTransferred => ResponseV::ArticleTransferred,
            Response::PostSuccess => ResponseV::PostSuccess,
            Response::Quit => ResponseV::Quit,
            Response::Help(v) => ResponseV::Help(strings_of(v@)),
            Response::Date(d) => ResponseV::Date(d@),
            Response::HeaderData(v) => ResponseV::HeaderData(headers_view(v@)),
            Response::OverviewData(v) => ResponseV::OverviewData(overviews_view(v@)),
            Response::OverviewFormat(v) => ResponseV::OverviewFormat(strings_of(v@)),
            Response::Success { code, message } => ResponseV::Success {
                code: *code,
                message: message@,
            },
            Response::Error { code, message } => ResponseV::Error {
                code: *code,
                message: message@,
            },
            Response::TlsReady => ResponseV::TlsReady,
            Response::TlsNotAvailable { message } => ResponseV::TlsNotAvailable {
                message: message@,
            },
        }
    }
}

/// The status line split at its first space into code and message.
pub open spec fn status_line(l: Seq<char>) -> core::result::Result<(u16, Seq<char>), ErrorV> {
    let i = index_of(l, ' ');
    if i >= l.len() {
        Err(ErrorV::Parse("Invalid status line: "@ + l))
    } else {
        match parse_u16_spec(l.take(i)) {
            None => Err(ErrorV::Parse("Invalid response code: "@ + l.take(i))),
            Some(code) => Ok((code, l.skip(i + 1))),
        }
    }
}

/// A GROUP response message `count first last name`.
pub open spec fn group_response(msg: Seq<char>) -> core::result::Result<ResponseV, ErrorV> {
    let p = split_ws(msg);
    if p.len() < 4 {
        Err(ErrorV::Parse("Invalid group response: "@ + msg))
    } else {
        match parse_u64_spec(p[0]) {
            None => Err(ErrorV::Parse("Invalid article count"@)),
            Some(count) => match parse_u64_spec(p[1]) {
                None => Err(ErrorV::Parse("Invalid first article number"@)),
                Some(first) => match parse_u64_spec(p[2]) {
                    None => Err(ErrorV::Parse("Invalid last article number"@)),
                    Some(last) => Ok(ResponseV::GroupSelected { count, first, last, name: p[3] }),
                },
            },
        }
    }
}

/// An article response message `number message-id`, with the payload as
/// content; number `0` means none.
pub open spec fn article_response(msg: Seq<char>, b: Seq<Seq<char>>) -> core::result::Result<ResponseV, ErrorV> {
    let p = split_ws(msg);
    if p.len() < 2 {
        Err(ErrorV::Parse("Invalid article response: "@ + msg))
    } else if p[0] == "0"@ {
        Ok(ResponseV::Article { number: None, message_id: p[1], content: content_of(b) })
    } else {
        match parse_u64_spec(p[0]) {
            None => Err(ErrorV::Parse("Invalid article number"@)),
            Some(n) => Ok(ResponseV::Article { number: Some(n), message_id: p[1], content: content_of(b) }),
        }
    }
}

/// An article status message `number message-id`.
pub open spec fn article_status(msg: Seq<char>) -> core::result::Result<ResponseV, ErrorV> {
    let p = split_ws(msg);
    if p.len() < 2 {
        Err(ErrorV::Parse("Invalid status response: "@ + msg))
    } else {
        match parse_u64_spec(p[0]) {
            None => Err(ErrorV::Parse("Invalid article number"@)),
            Some(n) => Ok(ResponseV::ArticleStatus { number: n, message_id: p[1] }),
        }
    }
}

/// The response for a status code, its message and the payload lines.
pub open spec fn dispatch(code: u16, msg: Seq<char>, b: Seq<Seq<char>>) -> core::result::Result<ResponseV, ErrorV> {
    if code == 100 {
        Ok(ResponseV::Help(b))
    } else if code == 101 {
        Ok(ResponseV::Capabilities(b))
    } else if code == 111 {
        Ok(ResponseV::Date(msg))
    } else if code == 200 {
        Ok(ResponseV::ModeReader { posting_allowed: true })
    } else if code == 201 {
        Ok(ResponseV::ModeReader { posting_allowed: false })
    } else if code == 205 {
        Ok(ResponseV::Quit)
    } else if code == 211 {
        if seq_contains(msg, "list follows"@) {
            Ok(ResponseV::ArticleListing(numbers_of(b)))
        } else {
            group_response(msg)
        }
    } else if code == 215 {
        if seq_contains(lower_seq(msg), "overview"@) {
            Ok(ResponseV::OverviewFormat(b))
        } else {
            Ok(ResponseV::NewsgroupList(groups_of(b)))
        }
    } else if 220 <= code && code <= 222 {
        article_response(msg, b)
    } else if code == 223 {
        article_status(msg)
    } else if code == 224 {
        Ok(ResponseV::OverviewData(overview_of(b)))
    } else if code == 225 {
        Ok(ResponseV::HeaderData(headers_of(b)))
    } else if code == 230 {
        Ok(ResponseV::NewArticles(b))
    } else if code == 231 {
        Ok(ResponseV::NewNewsgroups(groups_of(b)))
    } else if code == 235 {
        Ok(ResponseV::ArticleTransferred)
    } else if code == 240 {
        Ok(ResponseV::PostSuccess)
    } else if code == 281 {
        Ok(ResponseV::AuthSuccess)
    } else if code == 335 {
        Ok(ResponseV::ArticleWanted)
    } else if code == 340 {
        Ok(ResponseV::PostAccepted)
    } else if code == 381 {
        Ok(ResponseV::AuthRequired)
    } else if code == 382 {
        Ok(ResponseV::TlsReady)
    } else if code == 435 || code == 436 {
        Ok(ResponseV::ArticleNotWanted)
    } else if code == 483 {
        Ok(ResponseV::TlsNotAvailable { message: msg })
    } else if 400 <= code && code <= 599 {
        Ok(ResponseV::Error { code, message: msg })
    } else if 200 <= code && code < 400 {
        Ok(ResponseV::Success { code, message: msg })
    } else {
        Ok(ResponseV::Error { code, message: msg })
    }
}

/// The response that a sequence of lines holds.
pub open spec fn parse_lines(ls: Seq<Seq<char>>) -> core::result::Result<ResponseV, ErrorV> {
    if ls.len() == 0 {
        Err(ErrorV::Parse("Empty response"@))
    } else {
        match status_line(ls[0]) {
            Err(e) => Err(e),
            Ok((code, msg)) => dispatch(code, msg, body(ls)),
        }
    }
}

/// The response that a text holds.
pub open spec fn parse_text(s: Seq<char>) -> core::result::Result<ResponseV, ErrorV> {
    parse_lines(lines(s))
}

/// A parse error whose message is `prefix` followed by `tail`.
fn parse_error(prefix: &str, tail: &Vec<char>, start: usize, end: usize) -> (e: Error)
    requires
        start <= end <= tail.len(),
    ensures
        e@ == ErrorV::Parse(prefix@ + tail@.subrange(start as int, end as int)),
{
    let mut v = chars_of(prefix);
    let t = string_of_range(tail, start, end);
    push_str(&mut v, t.as_str());
    Error::Parse(string_from_chars(v))
}

/// A parse error with a fixed message.
fn parse_error_lit(m: &str) -> (e: Error)
    ensures
        e@ == ErrorV::Parse(m@),
{
    Error::Parse(m.to_owned())
}

/// Parses a GROUP response message.
fn parse_group_response(msg: &Vec<char>) -> (r: Result<Response>)
    ensures
        rv(r) == group_response(msg@),
{
    assert(msg@.subrange(0, msg.len() as int) =~= msg@);
    let p = split_whitespace(msg, 0, msg.len());
    if p.len() < 4 {
        return Err(parse_error("Invalid group response: ", msg, 0, msg.len()));
    }
    let count = match crate::text::parse_u64_all(&p[0]) {
        Some(v) => v,
        None => return Err(parse_error_lit("Invalid article count")),
    };
    let first = match crate::text::parse_u64_all(&p[1]) {
        Some(v) => v,
        None => return Err(parse_error_lit("Invalid first article number")),
    };
    let last = match crate::text::parse_u64_all(&p[2]) {
        Some(v) => v,
        None => return Err(parse_error_lit("Invalid last article number")),
    };
    let name = string_from_chars(copy_chars(&p[3]));
    Ok(Response::GroupSelected { count, first, last, name })
}

/// Parses an article response (220-222).
fn parse_article_response(msg: &Vec<char>, ls: &Vec<Vec<char>>, end: usize) -> (r: Result<Response>)
    requires
        1 <= end <= ls.len(),
    ensures
        rv(r) == article_response(msg@, seqs_of(ls@).subrange(1, end as int)),
{
    assert(msg@.subrange(0, msg.len() as int) =~= msg@);
    let p = split_whitespace(msg, 0, msg.len());
    if p.len() < 2 {
        return Err(parse_error("Invalid article response: ", msg, 0, msg.len()));
    }
    let number = if metadata::chars_eq(&p[0], "0") {
        None
    } else {
        match crate::text::parse_u64_all(&p[0]) {
            Some(v) => Some(v),
            None => return Err(parse_error_lit("Invalid article number")),
        }
    };
    let message_id = string_from_chars(copy_chars(&p[1]));
    let content = collect_content(ls, end);
    Ok(Response::Article { number, message_id, content })
}

/// Parses an article status response (223).
fn parse_article_status(msg: &Vec<char>) -> (r: Result<Response>)
    ensures
        rv(r) == article_status(msg@),
{
    assert(msg@.subrange(0, msg.len() as int) =~= msg@);
    let p = split_whitespace(msg, 0, msg.len());
    if p.len() < 2 {
        return Err(parse_error("Invalid status response: ", msg, 0, msg.len()));
    }
    let number = match crate::text::parse_u64_all(&p[0]) {
        Some(v) => v,
        None => return Err(parse_error_lit("Invalid article number")),
    };
    let message_id = string_from_chars(copy_chars(&p[1]));
    Ok(Response::ArticleStatus { number, message_id })
}

/// Builds the response for a status code.
fn dispatch_exec(code: u16, msg: Vec<char>, ls: &Vec<Vec<char>>) -> (r: Result<Response>)
    requires
        ls.len() >= 1,
    ensures
        rv(r) == dispatch(code, msg@, body(seqs_of(ls@))),
{
    let end = body_end(ls);
    let ghost b = body(seqs_of(ls@));
    if code == 100 {
        Ok(Response::Help(collect_lines(ls, end)))
    } else if code == 101 {
        Ok(Response::Capabilities(collect_lines(ls, end)))
    } else if code == 111 {
        Ok(Response::Date(string_from_chars(msg)))
    } else if code == 200 {
        Ok(Response::ModeReader { posting_allowed: true })
    } else if code == 201 {
        Ok(Response::ModeReader { posting_allowed: false })
    } else if code == 205 {
        Ok(Response::Quit)
    } else if code == 211 {
        if contains_seq(&msg, &chars_of("list follows")) {
            Ok(Response::ArticleListing(collect_numbers(ls, end)))
        } else {
            parse_group_response(&msg)
        }
    } else if code == 215 {
        if contains_seq(&lowercase(&msg), &chars_of("overview")) {
            Ok(Response::OverviewFormat(collect_lines(ls, end)))
        } else {
            Ok(Response::NewsgroupList(collect_groups(ls, end)))
        }
    } else if 220 <= code && code <= 222 {
        parse_article_response(&msg, ls, end)
    } else if code == 223 {
        parse_article_status(&msg)
    } else if code == 224 {
        Ok(Response::OverviewData(collect_overview(ls, end)))
    } else if code == 225 {
        Ok(Response::HeaderData(collect_headers(ls, end)))
    } else if code == 230 {
        Ok(Response::NewArticles(collect_lines(ls, end)))
    } else if code == 231 {
        Ok(Response::NewNewsgroups(collect_groups(ls, end)))
    } else if code == 235 {
        Ok(Response::ArticleTransferred)
    } else if code == 240 {
        Ok(Response::PostSuccess)
    } else if code == 281 {
        Ok(Response::AuthSuccess)
    } else if code == 335 {
        Ok(Response::ArticleWanted)
    } else if code == 340 {
        Ok(Response::PostAccepted)
    } else if code == 381 {
        Ok(Response::AuthRequired)
    } else if code == 382 {
        Ok(Response::TlsReady)
    } else if code == 435 || code == 436 {
        Ok(Response::ArticleNotWanted)
    } else if code == 483 {
        Ok(Response::TlsNotAvailable { message: string_from_chars(msg) })
    } else if 400 <= code && code <= 599 {
        Ok(Response::Error { code, message: string_from_chars(msg) })
    } else if 200 <= code && code < 400 {
        Ok(Response::Success { code, message: string_from_chars(msg) })
    } else {
        Ok(Response::Error { code, message: string_from_chars(msg) })
    }
}

impl Response {
    /// Parse response from a sequence of lines.
    fn parse_line_vec(ls: &Vec<Vec<char>>) -> (r: Result<Response>)
        ensures
            rv(r) == parse_lines(seqs_of(ls@)),
    {
        if ls.len() == 0 {
            return Err(parse_error_lit("Empty response"));
        }
        let status = &ls[0];
        let i = find_char(status, ' ');
        if i >= status.len() {
            assert(status@.subrange(0, status.len() as int) =~= status@);
            return Err(parse_error("Invalid status line: ", status, 0, status.len()));
        }
        assert(status@.subrange(0, i as int) =~= status@.take(i as int));
        let code = match parse_u16(status, 0, i) {
            Some(c) => c,
            None => return Err(parse_error("Invalid response code: ", status, 0, i)),
        };
        let mut msg: Vec<char> = Vec::new();
        let mut k = i + 1;
        while k < status.len()
            invariant
                i + 1 <= k <= status.len(),
                msg@ =~= status@.subrange(i + 1, k as int),
            decreases status.len() - k,
        {
            msg.push(status[k]);
            k = k + 1;
        }
        assert(msg@ =~= status@.skip(i + 1));
        dispatch_exec(code, msg, ls)
    }

    /// The content of an article response parsed as a MIME message; nothing
    /// for any other response or for content that does not parse.
    pub fn parsed_message(&self) -> (r: Option<mail_parser::Message<'_>>)
        ensures
            r is Some <==> match self@ {
                ResponseV::Article { content, .. } => article::mail_part_count(content) is Some,
                _ => false,
            },
    {
        match self {
            Response::Article { content, .. } => article::parse_message(content.as_slice()),
            _ => None,
        }
    }

    /// Get subject from article content (only applicable to Article responses).
    pub fn article_subject(&self) -> (r: Option<String>)
        ensures
            article::opt_string(r) == match self@ {
                ResponseV::Article { content, .. } => article::mail_subject(content),
                _ => None,
            },
    {
        match self {
            Response::Article { content, .. } => Article::new(None, String::new(), content.clone()).subject(),
            _ => None,
        }
    }

    /// Get sender from article content (only applicable to Article responses).
    pub fn article_from(&self) -> (r: Option<String>)
        ensures
            article::opt_string(r) == match self@ {
                ResponseV::Article { content, .. } => article::mail_from_address(content),
                _ => None,
            },
    {
        match self {
            Response::Article { content, .. } => Article::new(None, String::new(), content.clone()).from(),
            _ => None,
        }
    }

    /// Get body text from article content (only applicable to Article responses).
    pub fn article_body(&self) -> (r: Option<String>)
        ensures
            article::opt_string(r) == match self@ {
                ResponseV::Article { content, .. } => article::mail_body_text(content),
                _ => None,
            },
    {
        match self {
            Response::Article { content, .. } => Article::new(None, String::new(), content.clone()).body_text(),
            _ => None,
        }
    }

    /// The error code, when this is an error response with that code.
    pub open spec fn error_code_is(&self, c: u16) -> bool {
        self matches Response::Error { code, .. } && code == c
    }

    /// Check if this is an error response.
    pub fn is_error(&self) -> (r: bool)
        ensures
            r == (self is Error),
    {
        match self {
            Response::Error { .. } => true,
            _ => false,
        }
    }

    /// Get the error code if this is an error response.
    pub fn error_code(&self) -> (r: Option<u16>)
        ensures
            r == match self {
                Response::Error { code, .. } => Some(*code),
                _ => None,
            },
    {
        match self {
            Response::Error { code, .. } => Some(*code),
            _ => None,
        }
    }

    /// Get the error message if this is an error response.
    pub fn error_message(&self) -> (r: Option<&str>)
        ensures
            metadata::opt_str(r) == match self {
                Response::Error { message, .. } => Some(message@),
                _ => None,
            },
    {
        match self {
            Response::Error { message, .. } => Some(message.as_str()),
            _ => None,
        }
    }

    /// Check if this is a "service discontinued" error (400).
    pub fn is_service_discontinued(&self) -> (r: bool)
        ensures
            r == self.error_code_is(400),
    {
        self.has_error_code(400)
    }

    /// Check if this is a "no such newsgroup" error (411).
    pub fn is_no_such_newsgroup(&self) -> (r: bool)
        ensures
            r == self.error_code_is(411),
    {
        self.has_error_code(411)
    }

    /// Check if this is a "no newsgroup selected" error (412).
    pub fn is_no_newsgroup_selected(&self) -> (r: bool)
        ensures
            r == self.error_code_is(412),
    {
        self.has_error_code(412)
    }

    /// Check if this is a "no current article" error (420).
    pub fn is_no_current_article(&self) -> (r: bool)
        ensures
            r == self.error_code_is(420),
    {
        self.has_error_code(420)
    }

    /// Check if this is a "no next article" error (421).
    pub fn is_no_next_article(&self) -> (r: bool)
        ensures
            r == self.error_code_is(421),
    {
        self.has_error_code(421)
    }

    /// Check if this is a "no previous article" error (422).
    pub fn is_no_previous_article(&self) -> (r: bool)
        ensures
            r == self.error_code_is(422),
    {
        self.has_error_code(422)
    }

    /// Check if this is a "no such article" error (430).
    pub fn is_no_such_article(&self) -> (r: bool)
        ensures
            r == self.error_code_is(430),
    {
        self.has_error_code(430)
    }

    /// Check if this is an "authentication required" error (480).
    pub fn is_auth_required(&self) -> (r: bool)
        ensures
            r == self.error_code_is(480),
    {
        self.has_error_code(480)
    }

    /// Check if this is a "command not recognized" error (500).
    pub fn is_command_not_recognized(&self) -> (r: bool)
        ensures
            r == self.error_code_is(500),
    {
        self.has_error_code(500)
    }

    /// Check if this is a "command syntax error" (501).
    pub fn is_command_syntax_error(&self) -> (r: bool)
        ensures
            r == self.error_code_is(501),
    {
        self.has_error_code(501)
    }

    /// Check if this is an "access denied" error (502).
    pub fn is_access_denied(&self) -> (r: bool)
        ensures
            r == self.error_code_is(502),
    {
        self.has_error_code(502)
    }

    /// Check if this is a "program fault" error (503).
    pub fn is_program_fault(&self) -> (r: bool)
        ensures
            r == self.error_code_is(503),
    {
        self.has_error_code(503)
    }

    /// Whether this is an error response with the given code.
    fn has_error_code(&self, c: u16) -> (r: bool)
        ensures
            r == self.error_code_is(c),
    {
        match self {
            Response::Error { code, .. } => *code == c,
            _ => false,
        }
    }

    /// Parse response from server bytes with automatic encoding detection.
    pub fn parse(data: &[u8]) -> (r: Result<Response>)
        ensures
            rv(r) == parse_text(decode::decoded_text(data@)),
    {
        let text = decode::decode_text_with_encoding(data);
        Self::parse_str(text.as_str())
    }

    /// Parse response from string.
    pub fn parse_str(response: &str) -> (r: Result<Response>)
        ensures
            rv(r) == parse_text(response@),
    {
        let chars = chars_of(response);
        let ls = split_lines(&chars);
        Self::parse_line_vec(&ls)
    }
}

/// Bytes that are the UTF-8 encoding of a text parse as that text does: for
/// valid UTF-8 input, `Response::parse` and `Response::parse_str` agree.
pub proof fn lemma_parse_utf8_text(text: Seq<char>)
    ensures
        parse_text(decode::decoded_text(vstd::utf8::encode_utf8(text))) == parse_text(text),
{
    vstd::utf8::encode_utf8_valid_utf8(text);
    vstd::utf8::encode_utf8_decode_utf8(text);
}

} // verus!
