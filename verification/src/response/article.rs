//! Articles: identifiers, raw content and MIME access.
//!
//! MIME parsing is done by `mail_parser`; what it yields for given content
//! is named by the specification functions below, and the raw header/body
//! split is verified here.

use vstd::prelude::*;
use mail_parser::{Message, MessageParser, MimeHeaders};
use crate::search::{find_bytes, find_pattern, lemma_find_bytes};

verus! {

/// An NNTP article: number, Message-ID and raw content (headers and body).
#[derive(Debug, Clone)]
pub struct Article {
    /// Article number within the group (if available)
    number: Option<u64>,
    /// Message-ID (globally unique identifier)
    message_id: String,
    /// Raw article content (headers + body)
    content: Vec<u8>,
}

/// Represents an attachment in a MIME message.
#[derive(Debug, Clone, PartialEq)]
pub struct Attachment {
    /// Attachment filename if specified in Content-Disposition.
    pub filename: Option<String>,
    /// MIME content type (e.g., "image/png", "application/pdf").
    pub content_type: Option<String>,
    /// Raw attachment data (already decoded from base64/quoted-printable).
    pub data: Vec<u8>,
}

/// Mathematical value of an [`Attachment`].
pub struct AttachmentV {
    pub filename: Option<Seq<char>>,
    pub content_type: Option<Seq<char>>,
    pub data: Seq<u8>,
}

/// View of an optional `String`.
pub open spec fn opt_string(o: Option<String>) -> Option<Seq<char>> {
    match o {
        Some(s) => Some(s@),
        None => None,
    }
}

impl View for Attachment {
    type V = AttachmentV;

    open spec fn view(&self) -> AttachmentV {
        AttachmentV {
            filename: opt_string(self.filename),
            content_type: opt_string(self.content_type),
            data: self.data@,
        }
    }
}

/// View of a sequence of attachments.
pub open spec fn attachments_view(v: Seq<Attachment>) -> Seq<AttachmentV> {
    v.map_values(|a: Attachment| a@)
}

/// What `mail_parser` gives as the Subject of a message with this content
/// (`MessageParser::parse`, then `Message::subject`).
pub uninterp spec fn mail_subject(content: Seq<u8>) -> Option<Seq<char>>;

/// The address of the first From mailbox (`Message::from`, `first`, `address`).
pub uninterp spec fn mail_from_address(content: Seq<u8>) -> Option<Seq<char>>;

/// The Date header in RFC 3339 form (`Message::date`, `DateTime::to_rfc3339`).
pub uninterp spec fn mail_date_rfc3339(content: Seq<u8>) -> Option<Seq<char>>;

/// A header's value as text (`Message::header`, `HeaderValue::as_text`).
pub uninterp spec fn mail_header_text(content: Seq<u8>, name: Seq<char>) -> Option<Seq<char>>;

/// The first plain-text body part (`Message::body_text(0)`).
pub uninterp spec fn mail_body_text(content: Seq<u8>) -> Option<Seq<char>>;

/// The first HTML body part (`Message::body_html(0)`).
pub uninterp spec fn mail_body_html(content: Seq<u8>) -> Option<Seq<char>>;

/// The number of MIME parts, when the content parses (`Message::parts`).
pub uninterp spec fn mail_part_count(content: Seq<u8>) -> Option<nat>;

/// The attachments (`Message::attachments`, with each part's name, content
/// type and decoded contents); empty when the content does not parse.
pub uninterp spec fn mail_attachments(content: Seq<u8>) -> Seq<AttachmentV>;

#[verifier::external_type_specification]
#[verifier::external_body]
pub struct ExMessage<'x>(Message<'x>);

/// `MessageParser::parse`: the message borrowed from `content`, when it
/// parses. It parses exactly when a part count is named for the content.
#[verifier::external_body]
pub(crate) fn parse_message(content: &[u8]) -> (r: Option<Message<'_>>)
    ensures
        r is Some <==> mail_part_count(content@) is Some,
{
    MessageParser::default().parse(content)
}

/// `MessageParser::parse` then `Message::subject`; the result is named only.
#[verifier::external_body]
fn parse_subject(content: &[u8]) -> (r: Option<String>)
    ensures
        opt_string(r) == mail_subject(content@),
{
    let m = MessageParser::default().parse(content)?;
    m.subject().map(|s| s.to_owned())
}

/// `MessageParser::parse` then the first From address; named only.
#[verifier::external_body]
fn parse_from_address(content: &[u8]) -> (r: Option<String>)
    ensures
        opt_string(r) == mail_from_address(content@),
{
    let m = MessageParser::default().parse(content)?;
    m.from()?.first()?.address().map(|s| s.to_owned())
}

/// `MessageParser::parse` then `date().to_rfc3339()`; named only.
#[verifier::external_body]
fn parse_date(content: &[u8]) -> (r: Option<String>)
    ensures
        opt_string(r) == mail_date_rfc3339(content@),
{
    let m = MessageParser::default().parse(content)?;
    m.date().map(|d| d.to_rfc3339())
}

/// `MessageParser::parse` then `header(name)` as text; named only.
#[verifier::external_body]
fn parse_header_text(content: &[u8], name: &str) -> (r: Option<String>)
    ensures
        opt_string(r) == mail_header_text(content@, name@),
{
    let m = MessageParser::default().parse(content)?;
    m.header(name).and_then(|h| h.as_text()).map(|s| s.to_owned())
}

/// `MessageParser::parse` then `body_text(0)`; named only.
#[verifier::external_body]
fn parse_body_text(content: &[u8]) -> (r: Option<String>)
    ensures
        opt_string(r) == mail_body_text(content@),
{
    let m = MessageParser::default().parse(content)?;
    m.body_text(0).map(|s| s.to_string())
}

/// `MessageParser::parse` then `body_html(0)`; named only.
#[verifier::external_body]
fn parse_body_html(content: &[u8]) -> (r: Option<String>)
    ensures
        opt_string(r) == mail_body_html(content@),
{
    let m = MessageParser::default().parse(content)?;
    m.body_html(0).map(|s| s.to_string())
}

/// `MessageParser::parse` then the number of parts; named only.
#[verifier::external_body]
fn parse_part_count(content: &[u8]) -> (r: Option<usize>)
    ensures
        match r {
            Some(n) => mail_part_count(content@) == Some(n as nat),
            None => mail_part_count(content@) is None,
        },
{
    let m = MessageParser::default().parse(content)?;
    Some(m.parts.len())
}

/// `MessageParser::parse` then `attachments()`, each converted field by
/// field; named only.
#[verifier::external_body]
fn parse_attachments(content: &[u8]) -> (r: Vec<Attachment>)
    ensures
        attachments_view(r@) == mail_attachments(content@),
{
    let Some(m) = MessageParser::default().parse(content) else {
        return Vec::new();
    };
    m.attachments()
        .map(|att| Attachment {
            filename: att.attachment_name().map(|s| s.to_owned()),
            content_type: att.content_type().map(|ct| ct.ctype().to_owned()),
            data: att.contents().to_vec(),
        })
        .collect()
}

/// CR LF CR LF.
pub open spec fn crlf_crlf() -> Seq<u8> {
    seq![13u8, 10u8, 13u8, 10u8]
}

/// LF LF.
pub open spec fn lf_lf() -> Seq<u8> {
    seq![10u8, 10u8]
}

/// The header part of raw content: up to and including the CRLF before the
/// first blank line (CRLF CRLF), or else before the first LF LF.
pub open spec fn raw_headers_of(c: Seq<u8>) -> Option<Seq<u8>> {
    let a = find_bytes(c, crlf_crlf(), 0);
    let b = find_bytes(c, lf_lf(), 0);
    if a >= 0 {
        Some(c.take(a + 2))
    } else if b >= 0 {
        Some(c.take(b + 1))
    } else {
        None
    }
}

/// The body part of raw content: what follows the first blank line.
pub open spec fn raw_body_of(c: Seq<u8>) -> Option<Seq<u8>> {
    let a = find_bytes(c, crlf_crlf(), 0);
    let b = find_bytes(c, lf_lf(), 0);
    if a >= 0 {
        Some(c.skip(a + 4))
    } else if b >= 0 {
        Some(c.skip(b + 2))
    } else {
        None
    }
}

/// The bytes CR LF CR LF.
fn crlf_crlf_bytes() -> (r: Vec<u8>)
    ensures
        r@ == crlf_crlf(),
{
    let mut v = Vec::new();
    v.push(13u8);
    v.push(10u8);
    v.push(13u8);
    v.push(10u8);
    assert(v@ =~= crlf_crlf());
    v
}

/// The bytes LF LF.
fn lf_lf_bytes() -> (r: Vec<u8>)
    ensures
        r@ == lf_lf(),
{
    let mut v = Vec::new();
    v.push(10u8);
    v.push(10u8);
    assert(v@ =~= lf_lf());
    v
}

impl Article {
    /// Create a new Article from raw NNTP response data.
    pub fn new(number: Option<u64>, message_id: String, content: Vec<u8>) -> (r: Self)
        ensures
            r.number_spec() == number,
            r.message_id_spec() == message_id@,
            r.content_spec() == content@,
    {
        Self { number, message_id, content }
    }

    /// The article number.
    pub closed spec fn number_spec(&self) -> Option<u64> {
        self.number
    }

    /// The Message-ID.
    pub closed spec fn message_id_spec(&self) -> Seq<char> {
        self.message_id@
    }

    /// The raw content.
    pub closed spec fn content_spec(&self) -> Seq<u8> {
        self.content@
    }

    /// Get the article's Message-ID (globally unique identifier).
    pub fn article_id(&self) -> (r: &str)
        ensures
            r@ == self.message_id_spec(),
    {
        self.message_id.as_str()
    }

    /// Get the article number within the group, if available.
    pub fn number(&self) -> (r: Option<u64>)
        ensures
            r == self.number_spec(),
    {
        self.number
    }

    /// Get raw article content bytes.
    pub fn raw_content(&self) -> (r: &[u8])
        ensures
            r@ == self.content_spec(),
    {
        self.content.as_slice()
    }

    /// The content parsed as a MIME message, for structured access; nothing
    /// when it does not parse. It is parsed anew on each call.
    pub fn message(&self) -> (r: Option<Message<'_>>)
        ensures
            r is Some <==> mail_part_count(self.content_spec()) is Some,
    {
        parse_message(self.content.as_slice())
    }

    /// Get the Subject header value.
    pub fn subject(&self) -> (r: Option<String>)
        ensures
            opt_string(r) == mail_subject(self.content_spec()),
    {
        parse_subject(self.content.as_slice())
    }

    /// Get the From header as email address.
    pub fn from(&self) -> (r: Option<String>)
        ensures
            opt_string(r) == mail_from_address(self.content_spec()),
    {
        parse_from_address(self.content.as_slice())
    }

    /// Get the Date header as RFC 3339 formatted string.
    pub fn date(&self) -> (r: Option<String>)
        ensures
            opt_string(r) == mail_date_rfc3339(self.content_spec()),
    {
        parse_date(self.content.as_slice())
    }

    /// Get the Newsgroups header value.
    pub fn newsgroups(&self) -> (r: Option<String>)
        ensures
            opt_string(r) == mail_header_text(self.content_spec(), "Newsgroups"@),
    {
        self.header("Newsgroups")
    }

    /// Get the References header value.
    pub fn references(&self) -> (r: Option<String>)
        ensures
            opt_string(r) == mail_header_text(self.content_spec(), "References"@),
    {
        self.header("References")
    }

    /// Get a specific header by name.
    pub fn header(&self, name: &str) -> (r: Option<String>)
        ensures
            opt_string(r) == mail_header_text(self.content_spec(), name@),
    {
        parse_header_text(self.content.as_slice(), name)
    }

    /// Get all headers as raw bytes (everything before the blank line).
    pub fn raw_headers(&self) -> (r: Option<&[u8]>)
        ensures
            match r {
                Some(h) => raw_headers_of(self.content_spec()) == Some(h@),
                None => raw_headers_of(self.content_spec()) is None,
            },
    {
        let c = self.content.as_slice();
        let crlf = crlf_crlf_bytes();
        let lf = lf_lf_bytes();
        let cs = crlf.as_slice();
        let ls = lf.as_slice();
        proof {
            lemma_find_bytes(c@, crlf_crlf(), 0);
            lemma_find_bytes(c@, lf_lf(), 0);
        }
        if let Some(i) = find_pattern(c, cs) {
            assert(find_bytes(c@, crlf_crlf(), 0) == i as int);
            proof { lemma_find_bytes(c@, crlf_crlf(), 0); }
            assert(crlf_crlf().len() == 4);
            assert(i + 4 <= c@.len());
            assert(c@.len() == c.len());
            let h = vstd::slice::slice_subrange(c, 0, i + 2);
            assert(h@ =~= c@.take(i + 2));
            return Some(h);
        }
        if let Some(i) = find_pattern(c, ls) {
            assert(find_bytes(c@, lf_lf(), 0) == i as int);
            proof { lemma_find_bytes(c@, lf_lf(), 0); }
            assert(lf_lf().len() == 2);
            assert(i + 2 <= c@.len());
            assert(c@.len() == c.len());
            let h = vstd::slice::slice_subrange(c, 0, i + 1);
            assert(h@ =~= c@.take(i + 1));
            return Some(h);
        }
        None
    }

    /// Get the article body as plain text (first text part).
    pub fn body_text(&self) -> (r: Option<String>)
        ensures
            opt_string(r) == mail_body_text(self.content_spec()),
    {
        parse_body_text(self.content.as_slice())
    }

    /// Get the article body as HTML if available.
    pub fn body_html(&self) -> (r: Option<String>)
        ensures
            opt_string(r) == mail_body_html(self.content_spec()),
    {
        parse_body_html(self.content.as_slice())
    }

    /// Get raw body bytes (everything after the blank line separator).
    pub fn raw_body(&self) -> (r: Option<&[u8]>)
        ensures
            match r {
                Some(b) => raw_body_of(self.content_spec()) == Some(b@),
                None => raw_body_of(self.content_spec()) is None,
            },
    {
        let c = self.content.as_slice();
        let crlf = crlf_crlf_bytes();
        let lf = lf_lf_bytes();
        let cs = crlf.as_slice();
        let ls = lf.as_slice();
        proof {
            lemma_find_bytes(c@, crlf_crlf(), 0);
            lemma_find_bytes(c@, lf_lf(), 0);
        }
        if let Some(i) = find_pattern(c, cs) {
            assert(find_bytes(c@, crlf_crlf(), 0) == i as int);
            proof { lemma_find_bytes(c@, crlf_crlf(), 0); }
            assert(crlf_crlf().len() == 4);
            assert(i + 4 <= c@.len());
            assert(c@.len() == c.len());
            let b = vstd::slice::slice_subrange(c, i + 4, c.len());
            assert(b@ =~= c@.skip(i + 4));
            return Some(b);
        }
        if let Some(i) = find_pattern(c, ls) {
            assert(find_bytes(c@, lf_lf(), 0) == i as int);
            proof { lemma_find_bytes(c@, lf_lf(), 0); }
            assert(lf_lf().len() == 2);
            assert(i + 2 <= c@.len());
            assert(c@.len() == c.len());
            let b = vstd::slice::slice_subrange(c, i + 2, c.len());
            assert(b@ =~= c@.skip(i + 2));
            return Some(b);
        }
        None
    }

    /// Check if this is a multi-part MIME message.
    pub fn is_multipart(&self) -> (r: bool)
        ensures
            r == (mail_part_count(self.content_spec()) matches Some(n) && n > 1),
    {
        match parse_part_count(self.content.as_slice()) {
            Some(n) => n > 1,
            None => false,
        }
    }

    /// Get the number of MIME parts.
    pub fn part_count(&self) -> (r: usize)
        ensures
            match mail_part_count(self.content_spec()) {
                Some(n) => r as nat == n,
                None => r == 0,
            },
    {
        match parse_part_count(self.content.as_slice()) {
            Some(n) => n,
            None => 0,
        }
    }

    /// Get attachments from the article.
    pub fn attachments(&self) -> (r: Vec<Attachment>)
        ensures
            attachments_view(r@) == mail_attachments(self.content_spec()),
    {
        parse_attachments(self.content.as_slice())
    }
}

/// Former name of [`Article`].
pub type ParsedArticle = Article;

} // verus!
