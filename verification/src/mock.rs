//! Mock NNTP server for testing purposes.
//!
//! This module provides a mock server that plays back expected
//! command/response pairs, and a helper that runs commands through a
//! [`Client`] against it.

use vstd::prelude::*;
use std::collections::VecDeque;
use vstd::utf8::{decode_utf8, encode_scalar, encode_utf8, valid_utf8};
use crate::encoding::{
    lemma_encode_ascii, lemma_encode_concat, lemma_encode_len, lemma_encode_without,
    lemma_scalar_bytes,
};
use crate::client::{Client, ClientV, StateV, command_allowed, crlf, frame_len, multiline_in, terminator, multiline_code, status_code, msg_no_group, state_after_command, state_after_response};
use crate::command::encode_spec;
use crate::response::parse_text;
use crate::search::find_bytes;
use crate::response::decode::decoded_text;
use crate::command::{ArticleSpec, Command, ListVariant};
use crate::error::{Error, ErrorV, Result};
use crate::response::{HeaderEntry, NewsGroup, OverviewEntry, Response, ResponseV};
use crate::response::decode::{lossy_utf8, utf8_lossy};
use crate::response::metadata::{HeaderEntryV, NewsGroupV};
use crate::text::{
    all_digits, chars_of, chars_of_string, decimal, digit_char, digit_val, digits_value, index_of,
    is_digit, is_ws, lemma_index_of, lines, lower_seq, occurs_at, parse_u64_spec, push_str,
    seq_contains, seqs_of, split_char, split_nl, split_ws, string_from_chars, strings_of, strip_cr,
    u64_to_decimal, uint_digits,
};
use crate::command::single_line;
use crate::response::{article_response, dispatch};
use crate::response::lines::{body_end_from, content_of, groups_of, header_line, headers_of, newsgroup_line, numbers_of, overview_of};
use crate::threading::builder::{join, join_strings, push_chars};

verus! {

/// Whether two optional strings are equal.
pub open spec fn same_opt(a: Option<String>, b: Option<String>) -> bool {
    match (a, b) {
        (Some(x), Some(y)) => x@ == y@,
        (None, None) => true,
        _ => false,
    }
}

/// Whether two article specifications are equal.
pub open spec fn same_article_spec(a: ArticleSpec, b: ArticleSpec) -> bool {
    match (a, b) {
        (
            ArticleSpec::GroupNumber { group: g1, article_number: n1 },
            ArticleSpec::GroupNumber { group: g2, article_number: n2 },
        ) => g1@ == g2@ && n1 == n2,
        (ArticleSpec::MessageId(x), ArticleSpec::MessageId(y)) => x@ == y@,
        (ArticleSpec::Current, ArticleSpec::Current) => true,
        _ => false,
    }
}

/// Whether two LIST variants are equal.
pub open spec fn same_list_variant(a: ListVariant, b: ListVariant) -> bool {
    match (a, b) {
        (ListVariant::Active(x), ListVariant::Active(y)) => same_opt(x, y),
        (ListVariant::Newsgroups(x), ListVariant::Newsgroups(y)) => same_opt(x, y),
        (ListVariant::Headers, ListVariant::Headers) => true,
        (ListVariant::ActiveTimes, ListVariant::ActiveTimes) => true,
        (ListVariant::Distributions, ListVariant::Distributions) => true,
        (ListVariant::OverviewFmt, ListVariant::OverviewFmt) => true,
        (ListVariant::Basic(x), ListVariant::Basic(y)) => same_opt(x, y),
        _ => false,
    }
}

/// Whether two commands are equal: same variant, equal parameters.
pub open spec fn same_command(a: Command, b: Command) -> bool {
    match (a, b) {
        (Command::Capabilities, Command::Capabilities) => true,
        (Command::ModeReader, Command::ModeReader) => true,
        (Command::AuthInfoUser(x), Command::AuthInfoUser(y)) => x@ == y@,
        (Command::AuthInfoPass(x), Command::AuthInfoPass(y)) => x@ == y@,
        (Command::Group(x), Command::Group(y)) => x@ == y@,
        (Command::ListGroup(x), Command::ListGroup(y)) => same_opt(x, y),
        (Command::Article(x), Command::Article(y)) => same_article_spec(x, y),
        (Command::Head(x), Command::Head(y)) => same_article_spec(x, y),
        (Command::Body(x), Command::Body(y)) => same_article_spec(x, y),
        (Command::Stat(x), Command::Stat(y)) => same_article_spec(x, y),
        (Command::List(x), Command::List(y)) => same_list_variant(x, y),
        (
            Command::NewGroups { date: d1, time: t1, gmt: g1, distributions: s1 },
            Command::NewGroups { date: d2, time: t2, gmt: g2, distributions: s2 },
        ) => d1@ == d2@ && t1@ == t2@ && g1 == g2 && same_opt(s1, s2),
        (
            Command::NewNews { wildmat: w1, date: d1, time: t1, gmt: g1 },
            Command::NewNews { wildmat: w2, date: d2, time: t2, gmt: g2 },
        ) => w1@ == w2@ && d1@ == d2@ && t1@ == t2@ && g1 == g2,
        (Command::Post, Command::Post) => true,
        (Command::Quit, Command::Quit) => true,
        (Command::Help, Command::Help) => true,
        (Command::Date, Command::Date) => true,
        (Command::Last, Command::Last) => true,
        (Command::Next, Command::Next) => true,
        (Command::Hdr { field: f1, range: r1 }, Command::Hdr { field: f2, range: r2 }) => f1@ == f2@
            && same_opt(r1, r2),
        (Command::Over { range: r1 }, Command::Over { range: r2 }) => same_opt(r1, r2),
        (Command::Ihave { message_id: m1 }, Command::Ihave { message_id: m2 }) => m1@ == m2@,
        (Command::StartTls, Command::StartTls) => true,
        _ => false,
    }
}

fn opt_eq(a: &Option<String>, b: &Option<String>) -> (r: bool)
    ensures
        r == same_opt(*a, *b),
{
    match (a, b) {
        (Some(x), Some(y)) => *x == *y,
        (None, None) => true,
        _ => false,
    }
}

fn article_spec_eq(a: &ArticleSpec, b: &ArticleSpec) -> (r: bool)
    ensures
        r == same_article_spec(*a, *b),
{
    match (a, b) {
        (
            ArticleSpec::GroupNumber { group: g1, article_number: n1 },
            ArticleSpec::GroupNumber { group: g2, article_number: n2 },
        ) => *g1 == *g2 && *n1 == *n2,
        (ArticleSpec::MessageId(x), ArticleSpec::MessageId(y)) => *x == *y,
        (ArticleSpec::Current, ArticleSpec::Current) => true,
        _ => false,
    }
}

fn list_variant_eq(a: &ListVariant, b: &ListVariant) -> (r: bool)
    ensures
        r == same_list_variant(*a, *b),
{
    match (a, b) {
        (ListVariant::Active(x), ListVariant::Active(y)) => opt_eq(x, y),
        (ListVariant::Newsgroups(x), ListVariant::Newsgroups(y)) => opt_eq(x, y),
        (ListVariant::Headers, ListVariant::Headers) => true,
        (ListVariant::ActiveTimes, ListVariant::ActiveTimes) => true,
        (ListVariant::Distributions, ListVariant::Distributions) => true,
        (ListVariant::OverviewFmt, ListVariant::OverviewFmt) => true,
        (ListVariant::Basic(x), ListVariant::Basic(y)) => opt_eq(x, y),
        _ => false,
    }
}

fn copy_opt(o: &Option<String>) -> (r: Option<String>)
    ensures
        r == *o,
{
    match o {
        Some(x) => Some(x.clone()),
        None => None,
    }
}

fn copy_article_spec(a: &ArticleSpec) -> (r: ArticleSpec)
    ensures
        r == *a,
{
    match a {
        ArticleSpec::GroupNumber { group, article_number } => ArticleSpec::GroupNumber {
            group: group.clone(),
            article_number: *article_number,
        },
        ArticleSpec::MessageId(x) => ArticleSpec::MessageId(x.clone()),
        ArticleSpec::Current => ArticleSpec::Current,
    }
}

/// A copy of a command.
fn copy_command(c: &Command) -> (r: Command)
    ensures
        r == *c,
{
    match c {
        Command::Capabilities => Command::Capabilities,
        Command::ModeReader => Command::ModeReader,
        Command::AuthInfoUser(x) => Command::AuthInfoUser(x.clone()),
        Command::AuthInfoPass(x) => Command::AuthInfoPass(x.clone()),
        Command::Group(x) => Command::Group(x.clone()),
        Command::ListGroup(x) => Command::ListGroup(copy_opt(x)),
        Command::Article(x) => Command::Article(copy_article_spec(x)),
        Command::Head(x) => Command::Head(copy_article_spec(x)),
        Command::Body(x) => Command::Body(copy_article_spec(x)),
        Command::Stat(x) => Command::Stat(copy_article_spec(x)),
        Command::List(x) => Command::List(
            match x {
                ListVariant::Active(o) => ListVariant::Active(copy_opt(o)),
                ListVariant::Newsgroups(o) => ListVariant::Newsgroups(copy_opt(o)),
                ListVariant::Headers => ListVariant::Headers,
                ListVariant::ActiveTimes => ListVariant::ActiveTimes,
                ListVariant::Distributions => ListVariant::Distributions,
                ListVariant::OverviewFmt => ListVariant::OverviewFmt,
                ListVariant::Basic(o) => ListVariant::Basic(copy_opt(o)),
            },
        ),
        Command::NewGroups { date, time, gmt, distributions } => Command::NewGroups {
            date: date.clone(),
            time: time.clone(),
            gmt: *gmt,
            distributions: copy_opt(distributions),
        },
        Command::NewNews { wildmat, date, time, gmt } => Command::NewNews {
            wildmat: wildmat.clone(),
            date: date.clone(),
            time: time.clone(),
            gmt: *gmt,
        },
        Command::Post => Command::Post,
        Command::Quit => Command::Quit,
        Command::Help => Command::Help,
        Command::Date => Command::Date,
        Command::Last => Command::Last,
        Command::Next => Command::Next,
        Command::Hdr { field, range } => Command::Hdr { field: field.clone(), range: copy_opt(range) },
        Command::Over { range } => Command::Over { range: copy_opt(range) },
        Command::Ihave { message_id } => Command::Ihave { message_id: message_id.clone() },
        Command::StartTls => Command::StartTls,
    }
}

/// Whether two commands are equal (see `same_command`).
pub fn commands_equal(a: &Command, b: &Command) -> (r: bool)
    ensures
        r == same_command(*a, *b),
{
    match (a, b) {
        (Command::Capabilities, Command::Capabilities) => true,
        (Command::ModeReader, Command::ModeReader) => true,
        (Command::AuthInfoUser(x), Command::AuthInfoUser(y)) => *x == *y,
        (Command::AuthInfoPass(x), Command::AuthInfoPass(y)) => *x == *y,
        (Command::Group(x), Command::Group(y)) => *x == *y,
        (Command::ListGroup(x), Command::ListGroup(y)) => opt_eq(x, y),
        (Command::Article(x), Command::Article(y)) => article_spec_eq(x, y),
        (Command::Head(x), Command::Head(y)) => article_spec_eq(x, y),
        (Command::Body(x), Command::Body(y)) => article_spec_eq(x, y),
        (Command::Stat(x), Command::Stat(y)) => article_spec_eq(x, y),
        (Command::List(x), Command::List(y)) => list_variant_eq(x, y),
        (
            Command::NewGroups { date: d1, time: t1, gmt: g1, distributions: s1 },
            Command::NewGroups { date: d2, time: t2, gmt: g2, distributions: s2 },
        ) => *d1 == *d2 && *t1 == *t2 && *g1 == *g2 && opt_eq(s1, s2),
        (
            Command::NewNews { wildmat: w1, date: d1, time: t1, gmt: g1 },
            Command::NewNews { wildmat: w2, date: d2, time: t2, gmt: g2 },
        ) => *w1 == *w2 && *d1 == *d2 && *t1 == *t2 && *g1 == *g2,
        (Command::Post, Command::Post) => true,
        (Command::Quit, Command::Quit) => true,
        (Command::Help, Command::Help) => true,
        (Command::Date, Command::Date) => true,
        (Command::Last, Command::Last) => true,
        (Command::Next, Command::Next) => true,
        (Command::Hdr { field: f1, range: r1 }, Command::Hdr { field: f2, range: r2 }) => *f1 == *f2
            && opt_eq(r1, r2),
        (Command::Over { range: r1 }, Command::Over { range: r2 }) => opt_eq(r1, r2),
        (Command::Ihave { message_id: m1 }, Command::Ihave { message_id: m2 }) => *m1 == *m2,
        (Command::StartTls, Command::StartTls) => true,
        _ => false,
    }
}

/// `format!` with `Debug` of a command. What `Debug` prints for a derived
/// impl is not specified, so the contract says nothing of it.
#[verifier::external_body]
fn command_debug(c: &Command) -> (r: String) {
    format!("{c:?}")
}

/// The message of the error for an unexpected command.
pub open spec fn mismatch_text(expected: Seq<char>, got: Seq<char>) -> Seq<char> {
    "Expected command "@ + expected + ", got "@ + got
}

/// The message for an unexpected command, naming both commands as `Debug`
/// prints them.
fn mismatch_message(expected: &Command, got: &Command) -> (r: String)
    ensures
        exists|x: Seq<char>, y: Seq<char>| r@ == mismatch_text(x, y),
{
    let mut v = chars_of("Expected command ");
    let e = command_debug(expected);
    push_str(&mut v, e.as_str());
    push_str(&mut v, ", got ");
    let g = command_debug(got);
    push_str(&mut v, g.as_str());
    let r = string_from_chars(v);
    assert(r@ == mismatch_text(e@, g@));
    r
}

/// A mock NNTP server that simulates server responses for testing.
///
/// The mock server accepts a series of expected request/response pairs
/// and validates that the client sends the expected commands in order.
pub struct MockServer {
    expected_interactions: VecDeque<(Command, Response)>,
    strict_mode: bool,
}

/// What a mock server holds: the interactions still expected, in order,
/// and whether it is strict.
pub struct MockServerV {
    pub expected: Seq<(Command, Response)>,
    pub strict: bool,
}

impl View for MockServer {
    type V = MockServerV;

    closed spec fn view(&self) -> MockServerV {
        MockServerV { expected: self.expected_interactions@, strict: self.strict_mode }
    }
}

/// The error response a relaxed server gives for an unexpected command.
pub open spec fn msg_not_recognized() -> Seq<char> {
    "Command not recognized"@
}

/// The error response a relaxed server gives when nothing is expected.
pub open spec fn msg_no_handler() -> Seq<char> {
    "No handler for command"@
}

/// The error a strict server gives when nothing is expected.
pub open spec fn msg_no_more() -> Seq<char> {
    "No more expected commands"@
}

impl MockServer {
    /// Create a new mock server with a series of expected interactions.
    ///
    /// Each interaction consists of an expected command and the response
    /// that should be sent back to the client.
    pub fn new(interactions: Vec<(Command, Response)>) -> (r: Self)
        ensures
            r@ == (MockServerV { expected: interactions@, strict: true }),
    {
        Self { expected_interactions: to_queue(interactions), strict_mode: true }
    }

    /// Create a new mock server in non-strict mode.
    ///
    /// In non-strict mode, unexpected commands result in a generic error
    /// response rather than an error.
    pub fn new_relaxed(interactions: Vec<(Command, Response)>) -> (r: Self)
        ensures
            r@ == (MockServerV { expected: interactions@, strict: false }),
    {
        Self { expected_interactions: to_queue(interactions), strict_mode: false }
    }

    /// Process a command from the client and return the appropriate response.
    ///
    /// The next expected interaction is taken: if its command is the one
    /// given, its response is returned. Otherwise a strict server fails with
    /// `Error::InvalidCommand` (the interaction is used up), and a relaxed
    /// one keeps the interaction and answers with a 500 error response. With
    /// nothing expected, a strict server fails and a relaxed one answers
    /// with a 500 error response.
    pub fn handle_command(&mut self, command: &Command) -> (r: Result<Response>)
        ensures
            old(self)@.expected.len() == 0 ==> final(self)@ == old(self)@ && (if old(self)@.strict {
                r matches Err(e) && e@ == ErrorV::InvalidCommand(msg_no_more())
            } else {
                r matches Ok(x) && x@ == (ResponseV::Error { code: 500, message: msg_no_handler() })
            }),
            old(self)@.expected.len() > 0 && same_command(*command, old(self)@.expected[0].0) ==> r
                == Ok::<Response, Error>(old(self)@.expected[0].1) && final(self)@ == (MockServerV {
                expected: old(self)@.expected.drop_first(),
                ..old(self)@
            }),
            old(self)@.expected.len() > 0 && !same_command(*command, old(self)@.expected[0].0) ==> (
            if old(self)@.strict {
                r matches Err(e) && (exists|x: Seq<char>, y: Seq<char>| e@ == ErrorV::InvalidCommand(mismatch_text(x, y)))
                    && final(self)@ == (MockServerV {
                    expected: old(self)@.expected.drop_first(),
                    ..old(self)@
                })
            } else {
                r matches Ok(x) && x@ == (ResponseV::Error { code: 500, message: msg_not_recognized() })
                    && final(self)@ == old(self)@
            }),
    {
        if self.expected_interactions.len() == 0 {
            if self.strict_mode {
                return Err(Error::InvalidCommand("No more expected commands".to_owned()));
            } else {
                return Ok(Response::Error { code: 500, message: "No handler for command".to_owned() });
            }
        }
        let ghost before = self.expected_interactions@;
        let (expected_cmd, response) = match self.expected_interactions.pop_front() {
            Some(x) => x,
            None => {
                return Err(Error::InvalidCommand("No more expected commands".to_owned()));
            },
        };
        assert(self.expected_interactions@ =~= before.drop_first());
        if commands_equal(command, &expected_cmd) {
            Ok(response)
        } else if self.strict_mode {
            Err(Error::InvalidCommand(mismatch_message(&expected_cmd, command)))
        } else {
            self.expected_interactions.push_front((expected_cmd, response));
            assert(self.expected_interactions@ =~= before);
            Ok(Response::Error { code: 500, message: "Command not recognized".to_owned() })
        }
    }

    /// Check if all expected interactions have been processed.
    pub fn is_complete(&self) -> (r: bool)
        ensures
            r == (self@.expected.len() == 0),
    {
        self.expected_interactions.len() == 0
    }

    /// Get the number of remaining expected interactions.
    pub fn remaining_interactions(&self) -> (r: usize)
        ensures
            r == self@.expected.len(),
    {
        self.expected_interactions.len()
    }

    /// Reset the mock server with a new set of interactions.
    pub fn reset(&mut self, interactions: Vec<(Command, Response)>)
        ensures
            final(self)@ == (MockServerV { expected: interactions@, ..old(self)@ }),
    {
        self.expected_interactions = to_queue(interactions);
    }
}

/// The interactions of a vector, in order, as a queue.
fn to_queue(v: Vec<(Command, Response)>) -> (r: VecDeque<(Command, Response)>)
    ensures
        r@ == v@,
{
    let ghost all = v@;
    let mut v = v;
    let mut q: VecDeque<(Command, Response)> = VecDeque::new();
    while v.len() > 0
        invariant
            all == v@ + q@,
        decreases v.len(),
    {
        let ghost before = v@;
        let x = v.pop().unwrap();
        assert(v@ =~= before.drop_last());
        q.push_front(x);
        assert(all =~= v@ + q@);
    }
    assert(all =~= q@);
    q
}

/// Lines, each followed by CRLF.
pub open spec fn line_block(ls: Seq<Seq<char>>) -> Seq<char>
    decreases ls.len(),
{
    if ls.len() == 0 {
        Seq::empty()
    } else {
        line_block(ls.drop_last()) + ls.last() + "\r\n"@
    }
}

/// The line for a newsgroup: name, last, first and posting status.
pub open spec fn group_line(g: NewsGroupV) -> Seq<char> {
    g.name + " "@ + decimal(g.last as nat) + " "@ + decimal(g.first as nat) + " "@ + seq![
        g.posting_status,
    ]
}

/// The line for a header entry: article and value.
pub open spec fn header_entry_line(h: HeaderEntryV) -> Seq<char> {
    h.article + " "@ + h.value
}

/// The dot that ends a multi-line response, and its CRLF.
pub open spec fn dot_line() -> Seq<char> {
    ".\r\n"@
}

/// Whether bytes end with CR LF.
pub open spec fn ends_crlf(b: Seq<u8>) -> bool {
    b.len() >= 2 && b[b.len() - 2] == 13 && b[b.len() - 1] == 10
}

/// The text of article content as the mock server writes it: the characters
/// of valid UTF-8, else what lossy UTF-8 decoding gives.
pub open spec fn content_text(content: Seq<u8>) -> Seq<char> {
    if valid_utf8(content) {
        decode_utf8(content)
    } else {
        lossy_utf8(content)
    }
}

/// The text a server sends for a response.
pub open spec fn response_text(r: ResponseV) -> Seq<char> {
    match r {
        ResponseV::Capabilities(c) => "101 Capability list:\r\n"@ + line_block(c) + dot_line(),
        ResponseV::ModeReader { posting_allowed } => if posting_allowed {
            "200 Reader mode, posting allowed\r\n"@
        } else {
            "201 Reader mode, posting prohibited\r\n"@
        },
        ResponseV::AuthSuccess => "281 Authentication accepted\r\n"@,
        ResponseV::AuthRequired => "381 More authentication information required\r\n"@,
        ResponseV::GroupSelected { count, first, last, name } => "211 "@ + decimal(count as nat)
            + " "@ + decimal(first as nat) + " "@ + decimal(last as nat) + " "@ + name + "\r\n"@,
        ResponseV::ArticleListing(ns) => "211 Article list follows\r\n"@ + line_block(
            ns.map_values(|n: u64| decimal(n as nat)),
        ) + dot_line(),
        ResponseV::Article { number, message_id, content } => "220 "@ + decimal(
            match number {
                Some(n) => n as nat,
                None => 0nat,
            },
        ) + " "@ + message_id + " Article follows\r\n"@ + content_text(content) + (if ends_crlf(
            content,
        ) {
            Seq::empty()
        } else {
            "\r\n"@
        }) + dot_line(),
        ResponseV::ArticleStatus { number, message_id } => "223 "@ + decimal(number as nat) + " "@
            + message_id + "\r\n"@,
        ResponseV::NewsgroupList(gs) => "215 Newsgroups follow:\r\n"@ + line_block(
            gs.map_values(|g: NewsGroupV| group_line(g)),
        ) + dot_line(),
        ResponseV::NewNewsgroups(gs) => "231 New newsgroups follow:\r\n"@ + line_block(
            gs.map_values(|g: NewsGroupV| group_line(g)),
        ) + dot_line(),
        ResponseV::NewArticles(a) => "230 New articles follow:\r\n"@ + line_block(a) + dot_line(),
        ResponseV::PostAccepted => "340 Send article to be posted\r\n"@,
        ResponseV::PostSuccess => "240 Article posted successfully\r\n"@,
        ResponseV::ArticleWanted => "335 Send article to be transferred\r\n"@,
        ResponseV::ArticleNotWanted => "435 Article not wanted\r\n"@,
        ResponseV::ArticleTransferred => "235 Article transferred successfully\r\n"@,
        ResponseV::Quit => "205 Goodbye\r\n"@,
        ResponseV::Help(h) => "100 Help text follows\r\n"@ + line_block(h) + dot_line(),
        ResponseV::Date(d) => "111 "@ + d + "\r\n"@,
        ResponseV::HeaderData(hs) => "225 Header follows\r\n"@ + line_block(
            hs.map_values(|h: HeaderEntryV| header_entry_line(h)),
        ) + dot_line(),
        ResponseV::OverviewData(os) => "224 Overview information follows\r\n"@ + line_block(
            os.map_values(|f: Seq<Seq<char>>| join(f, "\t"@)),
        ) + dot_line(),
        ResponseV::OverviewFormat(f) => "215 Order of fields in overview database\r\n"@ + line_block(
            f,
        ) + dot_line(),
        ResponseV::Success { code, message } => decimal(code as nat) + " "@ + message + "\r\n"@,
        ResponseV::Error { code, message } => decimal(code as nat) + " "@ + message + "\r\n"@,
        ResponseV::TlsReady => "382 Continue with TLS negotiation\r\n"@,
        ResponseV::TlsNotAvailable { message } => "483 "@ + message + "\r\n"@,
    }
}

/// Append each line followed by CRLF.
fn push_block(out: &mut Vec<char>, lines: &Vec<Vec<char>>)
    ensures
        final(out)@ == old(out)@ + line_block(seqs_of(lines@)),
{
    let ghost start = out@;
    let ghost ls = seqs_of(lines@);
    let mut i: usize = 0;
    assert(ls.take(0) =~= Seq::<Seq<char>>::empty());
    assert(start + line_block(ls.take(0)) =~= start);
    while i < lines.len()
        invariant
            ls == seqs_of(lines@),
            i <= lines.len(),
            out@ == start + line_block(ls.take(i as int)),
        decreases lines.len() - i,
    {
        push_chars(out, &lines[i]);
        push_str(out, "\r\n");
        assert(ls.take(i + 1).drop_last() =~= ls.take(i as int));
        assert(ls.take(i + 1).last() == lines@[i as int]@);
        i = i + 1;
        assert(out@ =~= start + line_block(ls.take(i as int)));
    }
    assert(ls.take(i as int) =~= ls);
}

fn string_lines(v: &Vec<String>) -> (r: Vec<Vec<char>>)
    ensures
        seqs_of(r@) == strings_of(v@),
{
    let mut r: Vec<Vec<char>> = Vec::new();
    let mut i: usize = 0;
    while i < v.len()
        invariant
            i <= v.len(),
            seqs_of(r@) =~= strings_of(v@).take(i as int),
        decreases v.len() - i,
    {
        let ghost before = seqs_of(r@);
        let c = chars_of_string(&v[i]);
        r.push(c);
        assert(seqs_of(r@) =~= before.push(v@[i as int]@));
        i = i + 1;
        assert(seqs_of(r@) =~= strings_of(v@).take(i as int));
    }
    assert(strings_of(v@).take(i as int) =~= strings_of(v@));
    r
}

fn number_lines(v: &Vec<u64>) -> (r: Vec<Vec<char>>)
    ensures
        seqs_of(r@) == v@.map_values(|n: u64| decimal(n as nat)),
{
    let ghost t = v@.map_values(|n: u64| decimal(n as nat));
    let mut r: Vec<Vec<char>> = Vec::new();
    let mut i: usize = 0;
    while i < v.len()
        invariant
            i <= v.len(),
            t == v@.map_values(|n: u64| decimal(n as nat)),
            seqs_of(r@) =~= t.take(i as int),
        decreases v.len() - i,
    {
        let ghost before = seqs_of(r@);
        let c = u64_to_decimal(v[i]);
        r.push(c);
        assert(seqs_of(r@) =~= before.push(t[i as int]));
        i = i + 1;
        assert(seqs_of(r@) =~= t.take(i as int));
    }
    assert(t.take(i as int) =~= t);
    r
}

fn group_lines(v: &Vec<NewsGroup>) -> (r: Vec<Vec<char>>)
    ensures
        seqs_of(r@) == v@.map_values(|g: NewsGroup| g@).map_values(|g: NewsGroupV| group_line(g)),
{
    let ghost t = v@.map_values(|g: NewsGroup| g@).map_values(|g: NewsGroupV| group_line(g));
    let mut r: Vec<Vec<char>> = Vec::new();
    let mut i: usize = 0;
    while i < v.len()
        invariant
            i <= v.len(),
            t == v@.map_values(|g: NewsGroup| g@).map_values(|g: NewsGroupV| group_line(g)),
            seqs_of(r@) =~= t.take(i as int),
        decreases v.len() - i,
    {
        let ghost before = seqs_of(r@);
        let g = &v[i];
        let mut c = chars_of_string(&g.name);
        push_str(&mut c, " ");
        let mut d = u64_to_decimal(g.last);
        c.append(&mut d);
        push_str(&mut c, " ");
        let mut d = u64_to_decimal(g.first);
        c.append(&mut d);
        push_str(&mut c, " ");
        c.push(g.posting_status);
        assert(c@ =~= group_line(g@));
        r.push(c);
        assert(seqs_of(r@) =~= before.push(t[i as int]));
        i = i + 1;
        assert(seqs_of(r@) =~= t.take(i as int));
    }
    assert(t.take(i as int) =~= t);
    r
}

fn header_lines(v: &Vec<HeaderEntry>) -> (r: Vec<Vec<char>>)
    ensures
        seqs_of(r@) == v@.map_values(|h: HeaderEntry| h@).map_values(|h: HeaderEntryV| header_entry_line(h)),
{
    let ghost t = v@.map_values(|h: HeaderEntry| h@).map_values(|h: HeaderEntryV| header_entry_line(h));
    let mut r: Vec<Vec<char>> = Vec::new();
    let mut i: usize = 0;
    while i < v.len()
        invariant
            i <= v.len(),
            t == v@.map_values(|h: HeaderEntry| h@).map_values(|h: HeaderEntryV| header_entry_line(h)),
            seqs_of(r@) =~= t.take(i as int),
        decreases v.len() - i,
    {
        let ghost before = seqs_of(r@);
        let h = &v[i];
        let mut c = chars_of_string(&h.article);
        push_str(&mut c, " ");
        push_chars(&mut c, &chars_of_string(&h.value));
        assert(c@ =~= header_entry_line(h@));
        r.push(c);
        assert(seqs_of(r@) =~= before.push(t[i as int]));
        i = i + 1;
        assert(seqs_of(r@) =~= t.take(i as int));
    }
    assert(t.take(i as int) =~= t);
    r
}

fn overview_lines(v: &Vec<OverviewEntry>) -> (r: Vec<Vec<char>>)
    ensures
        seqs_of(r@) == v@.map_values(|e: OverviewEntry| e@).map_values(|f: Seq<Seq<char>>| join(f, "\t"@)),
{
    let ghost t = v@.map_values(|e: OverviewEntry| e@).map_values(|f: Seq<Seq<char>>| join(f, "\t"@));
    let mut r: Vec<Vec<char>> = Vec::new();
    let mut i: usize = 0;
    while i < v.len()
        invariant
            i <= v.len(),
            t == v@.map_values(|e: OverviewEntry| e@).map_values(|f: Seq<Seq<char>>| join(f, "\t"@)),
            seqs_of(r@) =~= t.take(i as int),
        decreases v.len() - i,
    {
        let ghost before = seqs_of(r@);
        let c = join_strings(&v[i].fields, "\t");
        r.push(c);
        assert(seqs_of(r@) =~= before.push(t[i as int]));
        i = i + 1;
        assert(seqs_of(r@) =~= t.take(i as int));
    }
    assert(t.take(i as int) =~= t);
    r
}

/// Encode a response as it would come from a real NNTP server: the UTF-8
/// bytes of its text (see `response_text`).
pub fn encode_response(response: &Response) -> (r: Result<Vec<u8>>)
    ensures
        r matches Ok(b) && b@ == encode_utf8(response_text(response@)),
{
    let mut t: Vec<char> = Vec::new();
    match response {
        Response::Capabilities(caps) => {
            push_str(&mut t, "101 Capability list:\r\n");
            push_block(&mut t, &string_lines(caps));
            push_str(&mut t, ".\r\n");
        },
        Response::ModeReader { posting_allowed } => {
            if *posting_allowed {
                push_str(&mut t, "200 Reader mode, posting allowed\r\n");
            } else {
                push_str(&mut t, "201 Reader mode, posting prohibited\r\n");
            }
        },
        Response::AuthSuccess => {
            push_str(&mut t, "281 Authentication accepted\r\n");
        },
        Response::AuthRequired => {
            push_str(&mut t, "381 More authentication information required\r\n");
        },
        Response::GroupSelected { count, first, last, name } => {
            push_str(&mut t, "211 ");
            push_chars(&mut t, &u64_to_decimal(*count));
            push_str(&mut t, " ");
            push_chars(&mut t, &u64_to_decimal(*first));
            push_str(&mut t, " ");
            push_chars(&mut t, &u64_to_decimal(*last));
            push_str(&mut t, " ");
            push_chars(&mut t, &chars_of_string(name));
            push_str(&mut t, "\r\n");
        },
        Response::ArticleListing(articles) => {
            push_str(&mut t, "211 Article list follows\r\n");
            push_block(&mut t, &number_lines(articles));
            push_str(&mut t, ".\r\n");
        },
        Response::Article { number, message_id, content } => {
            let n: u64 = match number {
                Some(n) => *n,
                None => 0,
            };
            push_str(&mut t, "220 ");
            push_chars(&mut t, &u64_to_decimal(n));
            push_str(&mut t, " ");
            push_chars(&mut t, &chars_of_string(message_id));
            push_str(&mut t, " Article follows\r\n");
            let body = utf8_lossy(content.as_slice());
            push_chars(&mut t, &chars_of_string(&body));
            let k = content.len();
            if !(k >= 2 && content[k - 2] == 13 && content[k - 1] == 10) {
                push_str(&mut t, "\r\n");
            }
            push_str(&mut t, ".\r\n");
        },
        Response::ArticleStatus { number, message_id } => {
            push_str(&mut t, "223 ");
            push_chars(&mut t, &u64_to_decimal(*number));
            push_str(&mut t, " ");
            push_chars(&mut t, &chars_of_string(message_id));
            push_str(&mut t, "\r\n");
        },
        Response::NewsgroupList(groups) => {
            push_str(&mut t, "215 Newsgroups follow:\r\n");
            push_block(&mut t, &group_lines(groups));
            push_str(&mut t, ".\r\n");
        },
        Response::NewNewsgroups(groups) => {
            push_str(&mut t, "231 New newsgroups follow:\r\n");
            push_block(&mut t, &group_lines(groups));
            push_str(&mut t, ".\r\n");
        },
        Response::NewArticles(articles) => {
            push_str(&mut t, "230 New articles follow:\r\n");
            push_block(&mut t, &string_lines(articles));
            push_str(&mut t, ".\r\n");
        },
        Response::PostAccepted => {
            push_str(&mut t, "340 Send article to be posted\r\n");
        },
        Response::PostSuccess => {
            push_str(&mut t, "240 Article posted successfully\r\n");
        },
        Response::ArticleWanted => {
            push_str(&mut t, "335 Send article to be transferred\r\n");
        },
        Response::ArticleNotWanted => {
            push_str(&mut t, "435 Article not wanted\r\n");
        },
        Response::ArticleTransferred => {
            push_str(&mut t, "235 Article transferred successfully\r\n");
        },
        Response::Quit => {
            push_str(&mut t, "205 Goodbye\r\n");
        },
        Response::Help(lines) => {
            push_str(&mut t, "100 Help text follows\r\n");
            push_block(&mut t, &string_lines(lines));
            push_str(&mut t, ".\r\n");
        },
        Response::Date(date) => {
            push_str(&mut t, "111 ");
            push_chars(&mut t, &chars_of_string(date));
            push_str(&mut t, "\r\n");
        },
        Response::HeaderData(headers) => {
            push_str(&mut t, "225 Header follows\r\n");
            push_block(&mut t, &header_lines(headers));
            push_str(&mut t, ".\r\n");
        },
        Response::OverviewData(overview) => {
            push_str(&mut t, "224 Overview information follows\r\n");
            push_block(&mut t, &overview_lines(overview));
            push_str(&mut t, ".\r\n");
        },
        Response::OverviewFormat(fields) => {
            push_str(&mut t, "215 Order of fields in overview database\r\n");
            push_block(&mut t, &string_lines(fields));
            push_str(&mut t, ".\r\n");
        },
        Response::Success { code, message } => {
            push_chars(&mut t, &u64_to_decimal(*code as u64));
            push_str(&mut t, " ");
            push_chars(&mut t, &chars_of_string(message));
            push_str(&mut t, "\r\n");
        },
        Response::Error { code, message } => {
            push_chars(&mut t, &u64_to_decimal(*code as u64));
            push_str(&mut t, " ");
            push_chars(&mut t, &chars_of_string(message));
            push_str(&mut t, "\r\n");
        },
        Response::TlsReady => {
            push_str(&mut t, "382 Continue with TLS negotiation\r\n");
        },
        Response::TlsNotAvailable { message } => {
            push_str(&mut t, "483 ");
            push_chars(&mut t, &chars_of_string(message));
            push_str(&mut t, "\r\n");
        },
    }
    assert(t@ =~= response_text(response@));
    let s = string_from_chars(t);
    let b = s.as_str().as_bytes();
    let out = vstd::slice::slice_to_vec(b);
    Ok(out)
}

/// What a mock server replies to a command (see `MockServer::handle_command`),
/// or `None` when it fails.
pub open spec fn mock_reply(m: MockServerV, c: Command) -> Option<ResponseV> {
    if m.expected.len() == 0 {
        if m.strict {
            None
        } else {
            Some(ResponseV::Error { code: 500, message: msg_no_handler() })
        }
    } else if same_command(c, m.expected[0].0) {
        Some(m.expected[0].1@)
    } else if m.strict {
        None
    } else {
        Some(ResponseV::Error { code: 500, message: msg_not_recognized() })
    }
}

/// The mock server once it has handled a command.
pub open spec fn mock_after(m: MockServerV, c: Command) -> MockServerV {
    if m.expected.len() > 0 && (same_command(c, m.expected[0].0) || m.strict) {
        MockServerV { expected: m.expected.drop_first(), ..m }
    } else {
        m
    }
}

/// Test helper that combines a Client and MockServer for integration testing.
///
/// This helper simulates the complete request/response cycle, encoding commands
/// from the client and feeding responses back.
pub struct ClientMockTest {
    client: Client,
    mock_server: MockServer,
}

/// What a client/mock pair holds.
pub struct ClientMockTestV {
    pub client: ClientV,
    pub mock: MockServerV,
}

impl View for ClientMockTest {
    type V = ClientMockTestV;

    closed spec fn view(&self) -> ClientMockTestV {
        ClientMockTestV { client: self.client@, mock: self.mock_server@ }
    }
}

/// The message of the error given when no response can be decoded.
pub open spec fn msg_decode_failed() -> Seq<char> {
    "Failed to decode response"@
}

/// Whether the client's buffer can take the reply to a command (the
/// buffer cannot grow past `isize::MAX` bytes).
pub open spec fn reply_fits(t: ClientMockTestV, c: Command) -> bool {
    match mock_reply(t.mock, c) {
        Some(resp) => t.client.buffered.len() + encode_utf8(response_text(resp)).len() <= isize::MAX,
        None => true,
    }
}

/// The result of decoding after the reply to an encoded command was fed:
/// the client and what `send_command` returns.
pub open spec fn decoded_reply(state: StateV, buf: Seq<u8>) -> (ClientV, core::result::Result<ResponseV, ErrorV>) {
    match frame_len(state, buf) {
        None => (ClientV { state, buffered: buf }, Err(ErrorV::Parse(msg_decode_failed()))),
        Some(n) => match parse_text(decoded_text(buf.take(n as int))) {
            Ok(resp) => (
                ClientV { state: state_after_response(state, resp), buffered: buf.skip(n as int) },
                Ok(resp),
            ),
            Err(e) => (ClientV { state, buffered: buf.skip(n as int) }, Err(e)),
        },
    }
}

/// View of a response result.
pub open spec fn response_rv(r: Result<Response>) -> core::result::Result<ResponseV, ErrorV> {
    match r {
        Ok(x) => Ok(x@),
        Err(e) => Err(e@),
    }
}

impl ClientMockTest {
    /// Create a new test setup with the given interactions.
    pub fn new(interactions: Vec<(Command, Response)>) -> (r: Self)
        ensures
            r@.client == (ClientV { state: StateV::Connected, buffered: Seq::empty() }),
            r@.mock == (MockServerV { expected: interactions@, strict: true }),
    {
        Self { client: Client::new(), mock_server: MockServer::new(interactions) }
    }

    /// Create a new test setup in relaxed mode.
    pub fn new_relaxed(interactions: Vec<(Command, Response)>) -> (r: Self)
        ensures
            r@.client == (ClientV { state: StateV::Connected, buffered: Seq::empty() }),
            r@.mock == (MockServerV { expected: interactions@, strict: false }),
    {
        Self { client: Client::new(), mock_server: MockServer::new_relaxed(interactions) }
    }

    /// Send a command through the client and get the response from the mock server.
    ///
    /// This simulates the complete network round-trip by encoding the command,
    /// processing it through the mock server, and feeding the response back to
    /// the client, which decodes it. An error from any step is returned; if
    /// no complete response can be decoded, the result is a parse error.
    pub fn send_command(&mut self, command: Command) -> (r: Result<Response>)
        requires
            reply_fits(old(self)@, command),
        ensures
            !command_allowed(old(self)@.client.state, command) ==> final(self)@ == old(self)@
                && response_rv(r) == Err::<ResponseV, ErrorV>(ErrorV::Protocol { code: 412, message: msg_no_group() }),
            command_allowed(old(self)@.client.state, command) ==> ({
                let s1 = state_after_command(command);
                match encode_spec(command) {
                    Err(e) => response_rv(r) == Err::<ResponseV, ErrorV>(e) && final(self)@ == (ClientMockTestV {
                        client: ClientV { state: s1, ..old(self)@.client },
                        ..old(self)@
                    }),
                    Ok(_) => final(self)@.mock == mock_after(old(self)@.mock, command) && match mock_reply(
                        old(self)@.mock,
                        command,
                    ) {
                        None => r matches Err(e) && e is InvalidCommand && final(self)@.client == (ClientV {
                            state: s1,
                            ..old(self)@.client
                        }),
                        Some(resp) => {
                            let d = decoded_reply(s1, old(self)@.client.buffered + encode_utf8(response_text(resp)));
                            final(self)@.client == d.0 && response_rv(r) == d.1
                        },
                    },
                }
            }),
    {
        let ghost m0 = self.mock_server@;
        let ghost b0 = self.client@.buffered;
        match self.client.encode_command(copy_command(&command)) {
            Ok(_) => {},
            Err(e) => {
                return Err(e);
            },
        }
        let response = match self.mock_server.handle_command(&command) {
            Ok(resp) => resp,
            Err(e) => {
                return Err(e);
            },
        };
        let bytes = match encode_response(&response) {
            Ok(b) => b,
            Err(e) => {
                return Err(e);
            },
        };
        self.client.feed_bytes(bytes.as_slice());
        match self.client.decode_response() {
            Ok(Some(decoded)) => Ok(decoded),
            Ok(None) => Err(Error::Parse("Failed to decode response".to_owned())),
            Err(e) => Err(e),
        }
    }

    /// Get a reference to the client.
    pub fn client(&self) -> (r: &Client)
        ensures
            r@ == self@.client,
    {
        &self.client
    }

    /// Get a mutable reference to the client.
    pub fn client_mut(&mut self) -> (r: &mut Client)
        ensures
            r@ == old(self)@.client,
            final(self)@ == (ClientMockTestV { client: final(r)@, mock: old(self)@.mock }),
    {
        &mut self.client
    }

    /// Check if all expected interactions have been processed.
    pub fn is_complete(&self) -> (r: bool)
        ensures
            r == (self@.mock.expected.len() == 0),
    {
        self.mock_server.is_complete()
    }

    /// Get the number of remaining expected interactions.
    pub fn remaining_interactions(&self) -> (r: usize)
        ensures
            r == self@.mock.expected.len(),
    {
        self.mock_server.remaining_interactions()
    }
}


/// Every character of a decimal numeral is a digit, and the digits spell
/// the number back.
proof fn lemma_decimal_parses(n: nat)
    ensures
        decimal(n).len() >= 1,
        all_digits(decimal(n)),
        digits_value(decimal(n)) == n,
    decreases n,
{
    let d = decimal(n);
    if n < 10 {
        assert(digit_val(d.last()) == n);
        assert(d.drop_last() =~= Seq::<char>::empty());
        assert(digits_value(d) == digits_value(d.drop_last()) * 10 + digit_val(d.last()));
    } else {
        lemma_decimal_parses(n / 10);
        assert(d.drop_last() =~= decimal(n / 10));
        assert(digit_val(d.last()) == n % 10);
        assert(digits_value(d) == digits_value(d.drop_last()) * 10 + digit_val(d.last()));
        assert(n == (n / 10) * 10 + n % 10);
        assert forall|i: int| 0 <= i < d.len() implies #[trigger] is_digit(d[i]) by {
            if i < d.len() - 1 {
                assert(d[i] == decimal(n / 10)[i]);
            }
        }
    }
}

/// The text of a one-line reply: code, space, message, CR LF.
pub open spec fn status_text(code: u16, message: Seq<char>) -> Seq<char> {
    decimal(code as nat) + " "@ + message + "\r\n"@
}

/// A one-line text ended by CR LF is one line.
proof fn lemma_lines_of_one_line(x: Seq<char>)
    requires
        single_line(x),
        x.len() > 0,
    ensures
        lines(x + "\r\n"@) == seq![x],
{
    reveal_strlit("\r\n");
    lemma_split_nl_no_break(x);
    let t = x + "\r\n"@;
    let u = x.push('\r');
    assert(t.drop_last() =~= u);
    assert(u.drop_last() =~= x);
    assert(split_nl(u) == (Seq::<Seq<char>>::empty(), u));
    assert(strip_cr(u) =~= x);
    assert(t.last() == '\n');
    assert(split_nl(t) == (seq![x], Seq::<char>::empty()));
}

proof fn lemma_split_nl_no_break(x: Seq<char>)
    requires
        !x.contains('\n'),
    ensures
        split_nl(x) == (Seq::<Seq<char>>::empty(), x),
    decreases x.len(),
{
    if x.len() > 0 {
        let p = x.drop_last();
        assert(!p.contains('\n')) by {
            if p.contains('\n') {
                let i = choose|i: int| 0 <= i < p.len() && p[i] == '\n';
                assert(x[i] == '\n');
            }
        }
        lemma_split_nl_no_break(p);
        assert(x.last() != '\n') by {
            assert(x[x.len() - 1] == x.last());
        }
        assert(p.push(x.last()) =~= x);
    }
}

/// A one-line reply parses as what its code and message dispatch to.
proof fn lemma_status_text_parses(code: u16, message: Seq<char>)
    requires
        single_line(message),
    ensures
        parse_text(status_text(code, message)) == dispatch(code, message, Seq::<Seq<char>>::empty()),
{
    reveal_strlit(" ");
    let d = decimal(code as nat);
    let l = d + " "@ + message;
    lemma_decimal_parses(code as nat);
    lemma_decimal_no_space(code as nat);
    assert(single_line(l)) by {
        assert forall|i: int| 0 <= i < l.len() implies l[i] != '\r' && l[i] != '\n' by {
            if i < d.len() {
                assert(is_digit(d[i]));
            } else if i > d.len() {
                assert(l[i] == message[i - d.len() - 1]);
                assert(message.contains(l[i]));
            }
        }
    }
    assert(status_text(code, message) == l + "\r\n"@);
    lemma_lines_of_one_line(l);
    lemma_index_of(l, ' ');
    assert(l[d.len() as int] == ' ');
    assert(index_of(l, ' ') == d.len()) by {
        if index_of(l, ' ') < d.len() {
            assert(l[index_of(l, ' ')] == d[index_of(l, ' ')]);
            assert(is_digit(d[index_of(l, ' ')]));
        }
    }
    assert(l.take(d.len() as int) =~= d);
    assert(l.skip(d.len() as int + 1) =~= message);
    assert(is_digit(d[0]));
    assert(uint_digits(d) == d);
}

proof fn lemma_decimal_no_space(n: nat)
    ensures
        !decimal(n).contains(' '),
{
    lemma_decimal_parses(n);
    if decimal(n).contains(' ') {
        let i = choose|i: int| 0 <= i < decimal(n).len() && decimal(n)[i] == ' ';
        assert(is_digit(decimal(n)[i]));
    }
}





/// In bytes without CR followed by CR LF, the first CR LF is at the end.
proof fn lemma_find_final_crlf(x: Seq<u8>, i: int)
    requires
        !x.contains(13u8),
        0 <= i <= x.len(),
    ensures
        find_bytes(x + crlf(), crlf(), i) == x.len(),
    decreases x.len() - i,
{
    let t = x + crlf();
    if i < x.len() {
        assert(t.subrange(i, i + 2)[0] == x[i]);
        assert(x.contains(x[i]));
        lemma_find_final_crlf(x, i + 1);
    } else {
        assert(t.subrange(i, i + 2) =~= crlf());
    }
}



/// A three-digit code is written with three digits, and those bytes read
/// back as the code.
proof fn lemma_three_digit_code(code: u16)
    requires
        100 <= code <= 999,
    ensures
        decimal(code as nat) == seq![
            digit_char(code as nat / 100),
            digit_char((code as nat / 10) % 10),
            digit_char(code as nat % 10),
        ],
        encode_utf8(decimal(code as nat)).len() == 3,
        status_code(encode_utf8(decimal(code as nat))) == Some(code),
{
    let n = code as nat;
    let a = digit_char(n / 100);
    let b = digit_char((n / 10) % 10);
    let c = digit_char(n % 10);
    assert(decimal(n / 100) == seq![a]);
    assert(decimal(n / 10) == decimal(n / 100).push(b));
    assert(decimal(n) == decimal(n / 10).push(c));
    let d = decimal(n);
    assert(d =~= seq![a, b, c]);
    assert(a as u32 == n / 100 + 48);
    assert(b as u32 == (n / 10) % 10 + 48);
    assert(c as u32 == n % 10 + 48);
    lemma_encode_ascii(d);
    let e = encode_utf8(d);
    assert(e[0] == n / 100 + 48 && e[1] == (n / 10) % 10 + 48 && e[2] == n % 10 + 48);
    assert(n == (n / 100) * 100 + ((n / 10) % 10) * 10 + n % 10);
}

/// The replies that the client reads back as they were sent: those sent as
/// one status line whose message has no line break, with a code that is
/// read as the same kind of reply (not one that announces a multi-line
/// reply or names another kind), and whose group name or Message-ID is one
/// word.
pub open spec fn reads_back(r: ResponseV) -> bool {
    match r {
        ResponseV::ModeReader { .. } => true,
        ResponseV::AuthSuccess => true,
        ResponseV::AuthRequired => true,
        ResponseV::PostAccepted => true,
        ResponseV::PostSuccess => true,
        ResponseV::ArticleWanted => true,
        ResponseV::ArticleNotWanted => true,
        ResponseV::ArticleTransferred => true,
        ResponseV::Quit => true,
        ResponseV::TlsReady => true,
        ResponseV::Date(d) => single_line(d),
        ResponseV::TlsNotAvailable { message } => single_line(message),
        ResponseV::GroupSelected { name, .. } => word(name),
        ResponseV::ArticleStatus { message_id, .. } => word(message_id),
        ResponseV::Success { code, message } => {
            &&& single_line(message)
            &&& 200 <= code < 400
            &&& !(code == 200 || code == 201 || code == 205 || code == 211 || code == 215 || (220 <= code
                && code <= 225) || code == 230 || code == 231 || code == 235 || code == 240 || code
                == 281 || code == 335 || code == 340 || code == 381 || code == 382)
        },
        ResponseV::Error { code, message } => {
            &&& single_line(message)
            &&& 400 <= code <= 999
            &&& !(code == 435 || code == 436 || code == 483)
        },
        _ => false,
    }
}

/// The code and message of a reply that reads back.
proof fn lemma_reply_line(r: ResponseV) -> (cm: (u16, Seq<char>))
    requires
        reads_back(r),
    ensures
        response_text(r) == status_text(cm.0, cm.1),
        single_line(cm.1),
        100 <= cm.0 <= 999,
        !multiline_code(cm.0),
        cm.0 == 211 ==> r is GroupSelected,
        dispatch(cm.0, cm.1, Seq::<Seq<char>>::empty()) == Ok::<ResponseV, ErrorV>(r),
{
    reveal_strlit(" ");
    reveal_strlit("\r\n");
    let cm: (u16, Seq<char>) = match r {
        ResponseV::ModeReader { posting_allowed } => if posting_allowed {
            reveal_strlit("200 Reader mode, posting allowed\r\n");
            reveal_strlit("Reader mode, posting allowed");
            (200u16, "Reader mode, posting allowed"@)
        } else {
            reveal_strlit("201 Reader mode, posting prohibited\r\n");
            reveal_strlit("Reader mode, posting prohibited");
            (201u16, "Reader mode, posting prohibited"@)
        },
        ResponseV::AuthSuccess => {
            reveal_strlit("281 Authentication accepted\r\n");
            reveal_strlit("Authentication accepted");
            (281u16, "Authentication accepted"@)
        },
        ResponseV::AuthRequired => {
            reveal_strlit("381 More authentication information required\r\n");
            reveal_strlit("More authentication information required");
            (381u16, "More authentication information required"@)
        },
        ResponseV::PostAccepted => {
            reveal_strlit("340 Send article to be posted\r\n");
            reveal_strlit("Send article to be posted");
            (340u16, "Send article to be posted"@)
        },
        ResponseV::PostSuccess => {
            reveal_strlit("240 Article posted successfully\r\n");
            reveal_strlit("Article posted successfully");
            (240u16, "Article posted successfully"@)
        },
        ResponseV::ArticleWanted => {
            reveal_strlit("335 Send article to be transferred\r\n");
            reveal_strlit("Send article to be transferred");
            (335u16, "Send article to be transferred"@)
        },
        ResponseV::ArticleNotWanted => {
            reveal_strlit("435 Article not wanted\r\n");
            reveal_strlit("Article not wanted");
            (435u16, "Article not wanted"@)
        },
        ResponseV::ArticleTransferred => {
            reveal_strlit("235 Article transferred successfully\r\n");
            reveal_strlit("Article transferred successfully");
            (235u16, "Article transferred successfully"@)
        },
        ResponseV::Quit => {
            reveal_strlit("205 Goodbye\r\n");
            reveal_strlit("Goodbye");
            (205u16, "Goodbye"@)
        },
        ResponseV::TlsReady => {
            reveal_strlit("382 Continue with TLS negotiation\r\n");
            reveal_strlit("Continue with TLS negotiation");
            (382u16, "Continue with TLS negotiation"@)
        },
        ResponseV::Date(d) => {
            reveal_strlit("111 ");
            (111u16, d)
        },
        ResponseV::TlsNotAvailable { message } => {
            reveal_strlit("483 ");
            (483u16, message)
        },
        ResponseV::GroupSelected { count, first, last, name } => {
            let m = lemma_group_line(count, first, last, name);
            (211u16, m)
        },
        ResponseV::ArticleStatus { number, message_id } => {
            let m = lemma_article_status_line(number, message_id);
            (223u16, m)
        },
        ResponseV::Success { code, message } => (code, message),
        ResponseV::Error { code, message } => (code, message),
        _ => (0u16, Seq::empty()),
    };
    lemma_three_digit_code(cm.0);
    assert(response_text(r) =~= status_text(cm.0, cm.1));
    cm
}

/// What the mock server sends for a reply that reads back is one complete
/// frame, and the client decodes it to that reply: a client in any state
/// fed those bytes moves on as for the reply and keeps no bytes.
pub proof fn lemma_reply_reads_back(state: StateV, r: ResponseV)
    requires
        reads_back(r),
        r is GroupSelected ==> !(state is Listing),
    ensures
        frame_len(state, encode_utf8(response_text(r))) == Some(encode_utf8(response_text(r)).len()),
        parse_text(decoded_text(encode_utf8(response_text(r)))) == Ok::<ResponseV, ErrorV>(r),
        decoded_reply(state, encode_utf8(response_text(r))) == (
            ClientV { state: state_after_response(state, r), buffered: Seq::<u8>::empty() },
            Ok::<ResponseV, ErrorV>(r),
        ),
{
    broadcast use vstd::utf8::encode_utf8_valid_utf8, vstd::utf8::encode_utf8_decode_utf8;

    reveal_strlit(" ");
    reveal_strlit("\r\n");
    let (code, m) = lemma_reply_line(r);
    let t = response_text(r);
    let d = decimal(code as nat);
    let l = d + " "@ + m;
    assert(t == l + "\r\n"@);
    lemma_status_text_parses(code, m);
    let b = encode_utf8(t);
    assert(decoded_text(b) == t);
    lemma_decimal_parses(code as nat);
    assert(single_line(l)) by {
        assert forall|i: int| 0 <= i < l.len() implies l[i] != '\r' && l[i] != '\n' by {
            if i < d.len() {
                assert(is_digit(d[i]));
            } else if i > d.len() {
                assert(l[i] == m[i - d.len() - 1]);
                assert(m.contains(l[i]));
            }
        }
    }
    lemma_encode_concat(l, "\r\n"@);
    lemma_encode_ascii("\r\n"@);
    assert(encode_utf8("\r\n"@) =~= crlf());
    lemma_encode_without_cr(l);
    let x = encode_utf8(l);
    assert(b == x + crlf());
    lemma_find_final_crlf(x, 0);
    lemma_encode_concat(d, " "@ + m);
    assert(l == d + (" "@ + m));
    lemma_three_digit_code(code);
    assert(b.take(3) =~= encode_utf8(d)) by {
        assert forall|i: int| 0 <= i < 3 implies b.take(3)[i] == encode_utf8(d)[i] by {
            assert(b[i] == x[i]);
        }
    }
    assert(b.take(b.len() as int) =~= b);
    assert(b.skip(b.len() as int) =~= Seq::<u8>::empty());
}


/// Splitting after a finished line: the lines of the rest follow.
proof fn lemma_split_nl_concat(a: Seq<char>, b: Seq<char>)
    requires
        split_nl(a).1.len() == 0,
    ensures
        split_nl(a + b) == (split_nl(a).0 + split_nl(b).0, split_nl(b).1),
    decreases b.len(),
{
    if b.len() == 0 {
        assert(a + b =~= a);
        assert(split_nl(a).0 + Seq::<Seq<char>>::empty() =~= split_nl(a).0);
        assert(split_nl(a).1 =~= Seq::<char>::empty());
    } else {
        let p = b.drop_last();
        lemma_split_nl_concat(a, p);
        assert((a + b).drop_last() =~= a + p);
        assert((a + b).last() == b.last());
        let (da, ca) = split_nl(a);
        let (dp, cp) = split_nl(p);
        if b.last() == '\n' {
            assert((da + dp).push(strip_cr(cp)) =~= da + dp.push(strip_cr(cp)));
        }
    }
}

/// One line without breaks, ended by CR LF, is split as that line.
proof fn lemma_split_nl_line(x: Seq<char>)
    requires
        single_line(x),
    ensures
        split_nl(x + "\r\n"@) == (seq![x], Seq::<char>::empty()),
{
    reveal_strlit("\r\n");
    lemma_split_nl_no_break(x);
    let t = x + "\r\n"@;
    let u = x.push('\r');
    assert(t.drop_last() =~= u);
    assert(u.drop_last() =~= x);
    assert(split_nl(u) == (Seq::<Seq<char>>::empty(), u));
    assert(strip_cr(u) =~= x);
    assert(t.last() == '\n');
    assert(Seq::<Seq<char>>::empty().push(x) =~= seq![x]);
}

/// The lines written one after another, each ended by CR LF, split back
/// into those lines.
proof fn lemma_split_nl_block(ls: Seq<Seq<char>>)
    requires
        forall|i: int| 0 <= i < ls.len() ==> single_line(#[trigger] ls[i]),
    ensures
        split_nl(line_block(ls)) == (ls, Seq::<char>::empty()),
    decreases ls.len(),
{
    if ls.len() == 0 {
        assert(line_block(ls) =~= Seq::<char>::empty());
        assert(ls =~= Seq::<Seq<char>>::empty());
    } else {
        let p = ls.drop_last();
        assert forall|i: int| 0 <= i < p.len() implies single_line(#[trigger] p[i]) by {
            assert(p[i] == ls[i]);
        }
        lemma_split_nl_block(p);
        assert(single_line(ls[ls.len() - 1]));
        lemma_split_nl_line(ls.last());
        lemma_split_nl_concat(line_block(p), ls.last() + "\r\n"@);
        assert(line_block(ls) =~= line_block(p) + (ls.last() + "\r\n"@));
        assert(p + seq![ls.last()] =~= ls);
    }
}

/// Where the first dot line is, when only the last line is one.
proof fn lemma_body_end_last(ls: Seq<Seq<char>>, i: int)
    requires
        1 <= i < ls.len(),
        ls.last() == seq!['.'],
        forall|j: int| i <= j < ls.len() - 1 ==> #[trigger] ls[j] != seq!['.'],
    ensures
        body_end_from(ls, i) == ls.len() - 1,
    decreases ls.len() - i,
{
    if i < ls.len() - 1 {
        lemma_body_end_last(ls, i + 1);
    }
}

/// Payload lines that travel unchanged: no line breaks, and no line that
/// is a lone dot (which would end the payload).
pub open spec fn payload_lines(ls: Seq<Seq<char>>) -> bool {
    forall|i: int| 0 <= i < ls.len() ==> single_line(#[trigger] ls[i]) && ls[i] != seq!['.']
}

/// A multi-line reply's text parses as what its code, message and payload
/// lines dispatch to.
proof fn lemma_block_text_parses(code: u16, message: Seq<char>, ls: Seq<Seq<char>>)
    requires
        single_line(message),
        payload_lines(ls),
    ensures
        parse_text(status_text(code, message) + line_block(ls) + dot_line()) == dispatch(code, message, ls),
{
    reveal_strlit(" ");
    reveal_strlit("\r\n");
    reveal_strlit(".\r\n");
    let d = decimal(code as nat);
    let l = d + " "@ + message;
    lemma_decimal_parses(code as nat);
    lemma_decimal_no_space(code as nat);
    assert(single_line(l)) by {
        assert forall|i: int| 0 <= i < l.len() implies l[i] != '\r' && l[i] != '\n' by {
            if i < d.len() {
                assert(is_digit(d[i]));
            } else if i > d.len() {
                assert(l[i] == message[i - d.len() - 1]);
                assert(message.contains(l[i]));
            }
        }
    }
    let dot = seq!['.'];
    assert(single_line(dot)) by {
        assert forall|i: int| 0 <= i < dot.len() implies dot[i] != '\r' && dot[i] != '\n' by {}
    }
    assert(dot_line() =~= dot + "\r\n"@);
    assert forall|i: int| 0 <= i < ls.len() implies single_line(#[trigger] ls[i]) by {}
    lemma_split_nl_line(l);
    lemma_split_nl_block(ls);
    lemma_split_nl_line(dot);
    let a = l + "\r\n"@;
    lemma_split_nl_concat(a, line_block(ls));
    lemma_split_nl_concat(a + line_block(ls), dot + "\r\n"@);
    let t = status_text(code, message) + line_block(ls) + dot_line();
    assert(t =~= a + line_block(ls) + (dot + "\r\n"@));
    let all = seq![l] + ls + seq![dot];
    assert(lines(t) =~= all);
    lemma_index_of(l, ' ');
    assert(l[d.len() as int] == ' ');
    assert(index_of(l, ' ') == d.len()) by {
        if index_of(l, ' ') < d.len() {
            assert(is_digit(d[index_of(l, ' ')]));
        }
    }
    assert(l.take(d.len() as int) =~= d);
    assert(l.skip(d.len() as int + 1) =~= message);
    assert(is_digit(d[0]));
    assert(uint_digits(d) == d);
    assert(all[0] == l);
    lemma_body_end_last(all, 1);
    assert(all.subrange(1, all.len() - 1) =~= ls);
}


/// The multi-line replies whose text parses back to them: lists of text
/// lines whose lines travel unchanged, article number listings (read back
/// in reply to LISTGROUP), and lists of newsgroups, header entries and
/// overview fields whose lines read back.
pub open spec fn lines_read_back(r: ResponseV) -> bool {
    match r {
        ResponseV::Capabilities(c) => payload_lines(c),
        ResponseV::Help(h) => payload_lines(h),
        ResponseV::NewArticles(a) => payload_lines(a),
        ResponseV::OverviewFormat(f) => payload_lines(f),
        ResponseV::NewsgroupList(gs) => forall|i: int| 0 <= i < gs.len() ==> group_reads_back(#[trigger] gs[i]),
        ResponseV::NewNewsgroups(gs) => forall|i: int| 0 <= i < gs.len() ==> group_reads_back(#[trigger] gs[i]),
        ResponseV::HeaderData(hs) => forall|i: int| 0 <= i < hs.len() ==> header_reads_back(#[trigger] hs[i]),
        ResponseV::OverviewData(os) => forall|i: int| 0 <= i < os.len() ==> fields_read_back(#[trigger] os[i]),
        ResponseV::ArticleListing(_) => true,
        _ => false,
    }
}

/// The code, message and payload lines of a list reply that reads back.
proof fn lemma_block_line(r: ResponseV) -> (cm: (u16, Seq<char>, Seq<Seq<char>>))
    requires
        lines_read_back(r),
    ensures
        response_text(r) == status_text(cm.0, cm.1) + line_block(cm.2) + dot_line(),
        single_line(cm.1),
        payload_lines(cm.2),
        100 <= cm.0 <= 999,
        multiline_code(cm.0) || cm.0 == 211,
        cm.0 == 211 ==> r is ArticleListing,
        dispatch(cm.0, cm.1, cm.2) == Ok::<ResponseV, ErrorV>(r),
{
    reveal_strlit(" ");
    reveal_strlit("\r\n");
    let cm: (u16, Seq<char>, Seq<Seq<char>>) = match r {
        ResponseV::Capabilities(c) => {
            reveal_strlit("101 Capability list:\r\n");
            reveal_strlit("Capability list:");
            (101u16, "Capability list:"@, c)
        },
        ResponseV::Help(h) => {
            reveal_strlit("100 Help text follows\r\n");
            reveal_strlit("Help text follows");
            (100u16, "Help text follows"@, h)
        },
        ResponseV::NewArticles(a) => {
            reveal_strlit("230 New articles follow:\r\n");
            reveal_strlit("New articles follow:");
            (230u16, "New articles follow:"@, a)
        },
        ResponseV::OverviewFormat(f) => {
            let msg = "Order of fields in overview database"@;
            reveal_strlit("215 Order of fields in overview database\r\n");
            reveal_strlit("Order of fields in overview database");
            reveal_strlit("overview");
            assert(lower_seq(msg).subrange(19, 27) =~= "overview"@);
            assert(occurs_at(lower_seq(msg), "overview"@, 19));
            (215u16, msg, f)
        },
        ResponseV::NewsgroupList(gs) => lemma_groups_block(gs, false),
        ResponseV::NewNewsgroups(gs) => lemma_groups_block(gs, true),
        ResponseV::HeaderData(hs) => lemma_headers_block(hs),
        ResponseV::OverviewData(os) => lemma_overviews_block(os),
        ResponseV::ArticleListing(ns) => lemma_listing_block(ns),
        _ => (0u16, Seq::empty(), Seq::empty()),
    };
    lemma_three_digit_code(cm.0);
    assert(response_text(r) =~= status_text(cm.0, cm.1) + line_block(cm.2) + dot_line());
    cm
}

/// The text the mock server sends for a reply parses back to that reply,
/// for the replies that read back and the lists of text lines that do.
pub proof fn lemma_reply_text_parses_back(r: ResponseV)
    requires
        reads_back(r) || lines_read_back(r),
    ensures
        parse_text(response_text(r)) == Ok::<ResponseV, ErrorV>(r),
{
    if reads_back(r) {
        let (code, m) = lemma_reply_line(r);
        lemma_status_text_parses(code, m);
    } else {
        let (code, m, ls) = lemma_block_line(r);
        lemma_block_text_parses(code, m, ls);
    }
}

/// Writing two lists of lines one after the other.
proof fn lemma_line_block_concat(a: Seq<Seq<char>>, b: Seq<Seq<char>>)
    ensures
        line_block(a + b) == line_block(a) + line_block(b),
    decreases b.len(),
{
    if b.len() == 0 {
        assert(a + b =~= a);
        assert(line_block(a) + line_block(b) =~= line_block(a));
    } else {
        lemma_line_block_concat(a, b.drop_last());
        assert((a + b).drop_last() =~= a + b.drop_last());
        assert((a + b).last() == b.last());
        assert(line_block(a + b) =~= line_block(a) + line_block(b));
    }
}

/// The bytes of a list of lines: those of the earlier lines, then the last
/// line's, then CR LF.
proof fn lemma_block_bytes(ls: Seq<Seq<char>>)
    requires
        ls.len() > 0,
    ensures
        encode_utf8(line_block(ls)) == encode_utf8(line_block(ls.drop_last())) + encode_utf8(ls.last())
            + crlf(),
{
    reveal_strlit("\r\n");
    lemma_encode_concat(line_block(ls.drop_last()) + ls.last(), "\r\n"@);
    lemma_encode_concat(line_block(ls.drop_last()), ls.last());
    lemma_encode_ascii("\r\n"@);
    assert(encode_utf8("\r\n"@) =~= crlf());
}

/// A line whose bytes are the single byte of a dot is a lone dot.
proof fn lemma_dot_bytes(x: Seq<char>)
    requires
        encode_utf8(x).len() == 1,
        encode_utf8(x)[0] == 46u8,
    ensures
        x == seq!['.'],
{
    assert(x.len() > 0);
    let v = x[0] as u32;
    lemma_scalar_bytes(v);
    vstd::utf8::char_is_scalar(x[0]);
    assert(encode_utf8(x) == encode_scalar(v) + encode_utf8(x.drop_first()));
    if v > 0x7F {
        assert(encode_scalar(v).len() >= 1);
        assert(encode_utf8(x)[0] == encode_scalar(v)[0]);
    } else {
        assert(encode_utf8(x.drop_first()).len() == 0);
        if x.drop_first().len() > 0 {
            lemma_encode_len(x.drop_first());
        }
        assert(v == 46);
        vstd::utf8::char_u32_cast(x[0], v);
        assert(x[0] == (46u32 as char));
        assert(x =~= seq!['.']);
    }
}


/// Before the CR LF that ends the last of some lines, whatever follows, no
/// CR LF "." CR LF starts, when no line holds a CR and no line but the
/// first is a lone dot.
proof fn lemma_no_early_terminator(m: Seq<Seq<char>>, rest: Seq<u8>, j: int)
    requires
        forall|k: int| 0 <= k < m.len() ==> !(#[trigger] m[k]).contains('\r'),
        forall|k: int| 1 <= k < m.len() ==> #[trigger] m[k] != seq!['.'],
        0 <= j < encode_utf8(line_block(m)).len() - 2,
        j + 5 <= encode_utf8(line_block(m)).len() + rest.len(),
    ensures
        (encode_utf8(line_block(m)) + rest).subrange(j, j + 5) != terminator(),
    decreases m.len(),
{
    if m.len() == 0 {
        assert(line_block(m) =~= Seq::<char>::empty());
    } else {
        let mp = m.drop_last();
        let x = m.last();
        lemma_block_bytes(m);
        let gp = encode_utf8(line_block(mp));
        let ex = encode_utf8(x);
        let s = encode_utf8(line_block(m)) + rest;
        let tail = ex + crlf() + rest;
        assert(s =~= gp + tail);
        assert(!x.contains('\r'));
        lemma_encode_without_cr(x);
        if s.subrange(j, j + 5) == terminator() {
            assert(s[j] == 13u8);
            if j < gp.len() - 2 {
                assert forall|k: int| 0 <= k < mp.len() implies !(#[trigger] mp[k]).contains('\r') by {
                    assert(mp[k] == m[k]);
                }
                assert forall|k: int| 1 <= k < mp.len() implies #[trigger] mp[k] != seq!['.'] by {
                    assert(mp[k] == m[k]);
                }
                lemma_no_early_terminator(mp, tail, j);
            } else if j == gp.len() - 2 {
                assert(s[j + 2] == tail[0] && s[j + 3] == tail[1]);
                assert(tail[0] == 46u8 && tail[1] == 13u8);
                if ex.len() == 0 {
                    assert(tail[0] == 13u8);
                } else if ex.len() >= 2 {
                    assert(tail[1] == ex[1]);
                    assert(ex.contains(13u8));
                } else {
                    assert(ex[0] == tail[0]);
                    lemma_dot_bytes(x);
                    assert(m[m.len() - 1] == x);
                    if mp.len() == 0 {
                        assert(gp.len() == 0);
                    }
                }
            } else if j == gp.len() - 1 {
                lemma_block_bytes(mp);
                assert(gp[gp.len() - 1] == 10u8);
                assert(s[j] == gp[j]);
            } else {
                assert(s[j] == ex[j - gp.len()]);
                assert(ex.contains(13u8));
            }
        }
    }
}


/// The first occurrence of `p` at or after `i` is at `k` when it occurs at
/// `k` and nowhere in between.
proof fn lemma_find_first(s: Seq<u8>, p: Seq<u8>, i: int, k: int)
    requires
        0 <= i <= k,
        k + p.len() <= s.len(),
        s.subrange(k, k + p.len()) == p,
        forall|j: int| i <= j < k ==> #[trigger] s.subrange(j, j + p.len()) != p,
    ensures
        find_bytes(s, p, i) == k,
    decreases k - i,
{
    if i < k {
        assert(s.subrange(i, i + p.len()) != p);
        lemma_find_first(s, p, i + 1, k);
    }
}

/// What the mock server sends for a list reply that reads back is one
/// complete frame, up to and including the final dot line, and the client
/// decodes it to that reply: a client in any state fed those bytes moves on
/// as for the reply and keeps no bytes.
pub proof fn lemma_list_reply_reads_back(state: StateV, r: ResponseV)
    requires
        lines_read_back(r),
        r is ArticleListing ==> state is Listing,
    ensures
        frame_len(state, encode_utf8(response_text(r))) == Some(encode_utf8(response_text(r)).len()),
        decoded_reply(state, encode_utf8(response_text(r))) == (
            ClientV { state: state_after_response(state, r), buffered: Seq::<u8>::empty() },
            Ok::<ResponseV, ErrorV>(r),
        ),
{
    let (code, msg, ls) = lemma_block_line(r);
    lemma_block_reads_back(state, r, code, msg, ls);
}

/// The bytes of a list reply with this code, message and payload lines are
/// one frame that decodes to the reply.
#[verifier::spinoff_prover]
#[verifier::rlimit(60)]
proof fn lemma_block_reads_back(state: StateV, r: ResponseV, code: u16, msg: Seq<char>, ls: Seq<Seq<char>>)
    requires
        response_text(r) == status_text(code, msg) + line_block(ls) + dot_line(),
        single_line(msg),
        payload_lines(ls),
        100 <= code <= 999,
        multiline_in(state, code),
        dispatch(code, msg, ls) == Ok::<ResponseV, ErrorV>(r),
    ensures
        frame_len(state, encode_utf8(response_text(r))) == Some(encode_utf8(response_text(r)).len()),
        decoded_reply(state, encode_utf8(response_text(r))) == (
            ClientV { state: state_after_response(state, r), buffered: Seq::<u8>::empty() },
            Ok::<ResponseV, ErrorV>(r),
        ),
{
    broadcast use vstd::utf8::encode_utf8_valid_utf8, vstd::utf8::encode_utf8_decode_utf8;

    reveal_strlit(" ");
    reveal_strlit("\r\n");
    reveal_strlit(".\r\n");
    lemma_block_text_parses(code, msg, ls);
    let t = response_text(r);
    let b = encode_utf8(t);
    assert(decoded_text(b) == t);
    let d = decimal(code as nat);
    let l = d + " "@ + msg;
    lemma_decimal_parses(code as nat);
    assert(single_line(l)) by {
        assert forall|i: int| 0 <= i < l.len() implies l[i] != '\r' && l[i] != '\n' by {
            if i < d.len() {
                assert(is_digit(d[i]));
            } else if i > d.len() {
                assert(l[i] == msg[i - d.len() - 1]);
                assert(msg.contains(l[i]));
            }
        }
    }
    let m = seq![l] + ls;
    lemma_line_block_concat(seq![l], ls);
    assert(line_block(seq![l]) =~= l + "\r\n"@) by {
        assert(seq![l].drop_last() =~= Seq::<Seq<char>>::empty());
        assert(line_block(Seq::<Seq<char>>::empty()) =~= Seq::<char>::empty());
        assert(Seq::<char>::empty() + l =~= l);
    }
    assert(t =~= line_block(m) + ".\r\n"@);
    let g = encode_utf8(line_block(m));
    lemma_encode_concat(line_block(m), ".\r\n"@);
    lemma_encode_ascii(".\r\n"@);
    let dotb = encode_utf8(".\r\n"@);
    assert(dotb =~= seq![46u8, 13u8, 10u8]);
    assert(b == g + dotb);
    // The terminator ends the frame.
    lemma_block_bytes(m);
    assert(b.subrange(g.len() - 2, g.len() as int + 3) =~= terminator()) by {
        assert(g[g.len() - 2] == 13u8 && g[g.len() - 1] == 10u8);
    }
    assert forall|k: int| 0 <= k < m.len() implies !(#[trigger] m[k]).contains('\r') by {
        if k > 0 {
            assert(m[k] == ls[k - 1]);
            assert(single_line(ls[k - 1]));
        }
    }
    assert forall|k: int| 1 <= k < m.len() implies #[trigger] m[k] != seq!['.'] by {
        assert(m[k] == ls[k - 1]);
    }
    assert forall|j: int| 0 <= j < g.len() - 2 implies #[trigger] b.subrange(j, j + terminator().len()) != terminator() by {
        lemma_no_early_terminator(m, dotb, j);
    }
    lemma_find_first(b, terminator(), 0, g.len() - 2);
    // The status line ends at the first CR LF.
    let rest1 = line_block(ls) + ".\r\n"@;
    let rest0 = "\r\n"@ + rest1;
    assert(t =~= l + rest0);
    lemma_encode_concat(l, rest0);
    lemma_encode_concat("\r\n"@, rest1);
    lemma_encode_ascii("\r\n"@);
    assert(encode_utf8("\r\n"@) =~= crlf());
    lemma_encode_without_cr(l);
    let x = encode_utf8(l);
    lemma_find_final_crlf(x, 0);
    let after = encode_utf8(rest1);
    assert(b =~= (x + crlf()) + after);
    crate::search::lemma_find_bytes_extend(x + crlf(), after, crlf(), 0);
    lemma_encode_concat(d, " "@ + msg);
    assert(l == d + (" "@ + msg));
    lemma_three_digit_code(code);
    assert(b.take(3) =~= encode_utf8(d)) by {
        assert forall|i: int| 0 <= i < 3 implies b.take(3)[i] == encode_utf8(d)[i] by {
            assert(b[i] == x[i]);
        }
    }
    assert(b.take(b.len() as int) =~= b);
    assert(b.skip(b.len() as int) =~= Seq::<u8>::empty());
}


/// A non-empty text without whitespace.
pub open spec fn word(w: Seq<char>) -> bool {
    w.len() > 0 && forall|i: int| 0 <= i < w.len() ==> !is_ws(#[trigger] w[i])
}

/// A word is split as itself.
proof fn lemma_split_ws_word(w: Seq<char>)
    requires
        word(w),
    ensures
        split_ws(w) == seq![w],
    decreases w.len(),
{
    let p = w.drop_last();
    assert(!is_ws(w[w.len() - 1]));
    if p.len() == 0 {
        assert(split_ws(p) =~= Seq::<Seq<char>>::empty());
        assert(w =~= seq![w.last()]);
    } else {
        assert forall|i: int| 0 <= i < p.len() implies !is_ws(#[trigger] p[i]) by {
            assert(p[i] == w[i]);
        }
        lemma_split_ws_word(p);
        assert(!is_ws(p.last())) by {
            assert(p.last() == w[p.len() - 1]);
        }
        assert(p.push(w.last()) =~= w);
        assert(seq![p].update(0, p.push(w.last())) =~= seq![w]);
    }
}

/// A space and a word after a text add that word to its split.
proof fn lemma_split_ws_then_word(a: Seq<char>, w: Seq<char>)
    requires
        word(w),
    ensures
        split_ws(a + " "@ + w) == split_ws(a).push(w),
    decreases w.len(),
{
    reveal_strlit(" ");
    let s = a + " "@ + w;
    let p = w.drop_last();
    assert(!is_ws(w[w.len() - 1]));
    if p.len() == 0 {
        assert(s.drop_last() =~= a + " "@);
        assert((a + " "@).drop_last() =~= a);
        assert(is_ws((a + " "@).last()));
        assert(split_ws(a + " "@) == split_ws(a));
        assert(w =~= seq![w.last()]);
        assert(s.last() == w.last());
        assert(split_ws(s) == split_ws(a + " "@).push(seq![w.last()]));
    } else {
        assert forall|i: int| 0 <= i < p.len() implies !is_ws(#[trigger] p[i]) by {
            assert(p[i] == w[i]);
        }
        lemma_split_ws_then_word(a, p);
        assert(s.drop_last() =~= a + " "@ + p);
        assert(!is_ws((a + " "@ + p).last())) by {
            assert((a + " "@ + p).last() == p.last());
            assert(p.last() == w[p.len() - 1]);
        }
        assert(p.push(w.last()) =~= w);
        assert(s.last() == w.last());
        assert(split_ws(s) == split_ws(a + " "@ + p).update(split_ws(a).len() as int, p.push(w.last())));
        assert(split_ws(a).push(p).update(split_ws(a).len() as int, p.push(w.last())) =~= split_ws(a).push(w));
    }
}

/// A decimal numeral is a word, and reads back as its number.
proof fn lemma_decimal_word(n: nat)
    requires
        n <= u64::MAX,
    ensures
        word(decimal(n)),
        parse_u64_spec(decimal(n)) == Some(n as u64),
{
    lemma_decimal_parses(n);
    let d = decimal(n);
    assert forall|i: int| 0 <= i < d.len() implies !is_ws(#[trigger] d[i]) by {
        assert(is_digit(d[i]));
    }
    assert(is_digit(d[0]));
    assert(uint_digits(d) == d);
}

/// A word holds no line break.
proof fn lemma_word_single_line(w: Seq<char>)
    requires
        word(w),
    ensures
        single_line(w),
{
    assert forall|i: int| 0 <= i < w.len() implies w[i] != '\r' && w[i] != '\n' by {
        assert(!is_ws(w[i]));
    }
}

/// Words joined by single spaces hold no line break.
proof fn lemma_words_single_line(a: Seq<char>, w: Seq<char>)
    requires
        single_line(a),
        word(w),
    ensures
        single_line(a + " "@ + w),
{
    reveal_strlit(" ");
    lemma_word_single_line(w);
    let s = a + " "@ + w;
    assert forall|i: int| 0 <= i < s.len() implies s[i] != '\r' && s[i] != '\n' by {
        if i < a.len() {
            assert(a.contains(s[i]));
        } else if i > a.len() {
            assert(s[i] == w[i - a.len() - 1]);
            assert(w.contains(s[i]));
        }
    }
}

/// The message of a GROUP reply does not say that a list follows.
proof fn lemma_group_message_no_list(c: Seq<char>, f: Seq<char>, l: Seq<char>, name: Seq<char>)
    requires
        all_digits(c),
        all_digits(f),
        all_digits(l),
        word(name),
    ensures
        !seq_contains(c + " "@ + f + " "@ + l + " "@ + name, "list follows"@),
{
    reveal_strlit(" ");
    reveal_strlit("list follows");
    let m = c + " "@ + f + " "@ + l + " "@ + name;
    let k = c.len() + f.len() + l.len() + 3;
    assert forall|j: int| 0 <= j < k implies #[trigger] m[j] == ' ' || is_digit(m[j]) by {
        if j < c.len() {
            assert(m[j] == c[j]);
        } else if j == c.len() {
        } else if j < c.len() + 1 + f.len() {
            assert(m[j] == f[j - c.len() - 1]);
        } else if j == c.len() + 1 + f.len() {
        } else if j < c.len() + 2 + f.len() + l.len() {
            assert(m[j] == l[j - c.len() - 2 - f.len()]);
        }
    }
    if seq_contains(m, "list follows"@) {
        let i = choose|i: int| occurs_at(m, "list follows"@, i);
        assert(m.subrange(i, i + 12) == "list follows"@);
        assert(m[i] == 'l') by {
            assert(m.subrange(i, i + 12)[0] == m[i]);
        }
        assert(m[i + 4] == ' ') by {
            assert(m.subrange(i, i + 12)[4] == m[i + 4]);
        }
        if i < k {
            assert(m[i] == ' ' || is_digit(m[i]));
        } else {
            assert(m[i + 4] == name[i + 4 - k]);
            assert(!is_ws(name[i + 4 - k]));
        }
    }
}


/// The message of a GROUP reply with a one-word name.
#[verifier::spinoff_prover]
#[verifier::rlimit(40)]
proof fn lemma_group_line(count: u64, first: u64, last: u64, name: Seq<char>) -> (m: Seq<char>)
    requires
        word(name),
    ensures
        response_text(ResponseV::GroupSelected { count, first, last, name }) == status_text(211, m),
        single_line(m),
        dispatch(211, m, Seq::<Seq<char>>::empty()) == Ok::<ResponseV, ErrorV>(
            ResponseV::GroupSelected { count, first, last, name },
        ),
{
    reveal_strlit(" ");
    reveal_strlit("\r\n");
    reveal_strlit("211 ");
    let c = decimal(count as nat);
    let f = decimal(first as nat);
    let l = decimal(last as nat);
    let m = c + " "@ + f + " "@ + l + " "@ + name;
    lemma_decimal_word(count as nat);
    lemma_decimal_word(first as nat);
    lemma_decimal_word(last as nat);
    lemma_decimal_parses(count as nat);
    lemma_decimal_parses(first as nat);
    lemma_decimal_parses(last as nat);
    lemma_split_ws_word(c);
    lemma_split_ws_then_word(c, f);
    lemma_split_ws_then_word(c + " "@ + f, l);
    lemma_split_ws_then_word(c + " "@ + f + " "@ + l, name);
    assert(split_ws(m) =~= seq![c, f, l, name]);
    lemma_word_single_line(c);
    lemma_words_single_line(c, f);
    lemma_words_single_line(c + " "@ + f, l);
    lemma_words_single_line(c + " "@ + f + " "@ + l, name);
    lemma_group_message_no_list(c, f, l, name);
    lemma_three_digit_code(211);
    assert(response_text(ResponseV::GroupSelected { count, first, last, name }) =~= status_text(211, m));
    m
}

/// The message of a STAT reply with a one-word Message-ID.
proof fn lemma_article_status_line(number: u64, message_id: Seq<char>) -> (m: Seq<char>)
    requires
        word(message_id),
    ensures
        response_text(ResponseV::ArticleStatus { number, message_id }) == status_text(223, m),
        single_line(m),
        dispatch(223, m, Seq::<Seq<char>>::empty()) == Ok::<ResponseV, ErrorV>(
            ResponseV::ArticleStatus { number, message_id },
        ),
{
    reveal_strlit(" ");
    reveal_strlit("\r\n");
    reveal_strlit("223 ");
    let n = decimal(number as nat);
    let m = n + " "@ + message_id;
    lemma_decimal_word(number as nat);
    lemma_split_ws_word(n);
    lemma_split_ws_then_word(n, message_id);
    assert(split_ws(m) =~= seq![n, message_id]);
    lemma_word_single_line(n);
    lemma_words_single_line(n, message_id);
    lemma_three_digit_code(223);
    assert(response_text(ResponseV::ArticleStatus { number, message_id }) =~= status_text(223, m));
    m
}


/// A newsgroup whose line reads back: a one-word name and a posting status
/// that is not whitespace.
pub open spec fn group_reads_back(g: NewsGroupV) -> bool {
    word(g.name) && !is_ws(g.posting_status)
}

/// A newsgroup's line reads back as the newsgroup.
proof fn lemma_group_line_read_back(g: NewsGroupV)
    requires
        group_reads_back(g),
    ensures
        newsgroup_line(group_line(g)) == Some(g),
        single_line(group_line(g)),
        group_line(g) != seq!['.'],
{
    reveal_strlit(" ");
    let l = decimal(g.last as nat);
    let f = decimal(g.first as nat);
    let st = seq![g.posting_status];
    assert(word(st));
    lemma_decimal_word(g.last as nat);
    lemma_decimal_word(g.first as nat);
    lemma_split_ws_word(g.name);
    lemma_split_ws_then_word(g.name, l);
    lemma_split_ws_then_word(g.name + " "@ + l, f);
    lemma_split_ws_then_word(g.name + " "@ + l + " "@ + f, st);
    assert(split_ws(group_line(g)) =~= seq![g.name, l, f, st]);
    lemma_word_single_line(g.name);
    lemma_words_single_line(g.name, l);
    lemma_words_single_line(g.name + " "@ + l, f);
    lemma_words_single_line(g.name + " "@ + l + " "@ + f, st);
    assert(group_line(g).len() > 1);
}

/// Newsgroup lines read back as the newsgroups.
proof fn lemma_groups_read_back(gs: Seq<NewsGroupV>)
    requires
        forall|i: int| 0 <= i < gs.len() ==> group_reads_back(#[trigger] gs[i]),
    ensures
        groups_of(gs.map_values(|g: NewsGroupV| group_line(g))) == gs,
        payload_lines(gs.map_values(|g: NewsGroupV| group_line(g))),
    decreases gs.len(),
{
    let ls = gs.map_values(|g: NewsGroupV| group_line(g));
    if gs.len() > 0 {
        let p = gs.drop_last();
        assert forall|i: int| 0 <= i < p.len() implies group_reads_back(#[trigger] p[i]) by {
            assert(p[i] == gs[i]);
        }
        lemma_groups_read_back(p);
        assert(ls.drop_last() =~= p.map_values(|g: NewsGroupV| group_line(g)));
        assert(group_reads_back(gs[gs.len() - 1]));
        lemma_group_line_read_back(gs.last());
        assert(p.push(gs.last()) =~= gs);
    }
    assert forall|i: int| 0 <= i < ls.len() implies single_line(#[trigger] ls[i]) && ls[i] != seq!['.'] by {
        lemma_group_line_read_back(gs[i]);
    }
}

/// A header entry whose line reads back: an article field without spaces
/// or line breaks, and a value without line breaks.
pub open spec fn header_reads_back(h: HeaderEntryV) -> bool {
    !h.article.contains(' ') && single_line(h.article) && single_line(h.value)
}

/// Header entry lines read back as the entries.
proof fn lemma_headers_read_back(hs: Seq<HeaderEntryV>)
    requires
        forall|i: int| 0 <= i < hs.len() ==> header_reads_back(#[trigger] hs[i]),
    ensures
        headers_of(hs.map_values(|h: HeaderEntryV| header_entry_line(h))) == hs,
        payload_lines(hs.map_values(|h: HeaderEntryV| header_entry_line(h))),
    decreases hs.len(),
{
    reveal_strlit(" ");
    let ls = hs.map_values(|h: HeaderEntryV| header_entry_line(h));
    assert forall|i: int| 0 <= i < hs.len() implies header_line(header_entry_line(#[trigger] hs[i])) == Some(hs[i])
        && single_line(header_entry_line(hs[i])) && header_entry_line(hs[i]) != seq!['.'] by {
        let h = hs[i];
        let l = header_entry_line(h);
        assert(header_reads_back(h));
        lemma_index_of(l, ' ');
        assert(l[h.article.len() as int] == ' ');
        assert(index_of(l, ' ') == h.article.len()) by {
            if index_of(l, ' ') < h.article.len() {
                assert(l[index_of(l, ' ')] == h.article[index_of(l, ' ')]);
                assert(h.article.contains(' '));
            }
        }
        assert(l.take(h.article.len() as int) =~= h.article);
        assert(l.skip(h.article.len() as int + 1) =~= h.value);
        assert forall|k: int| 0 <= k < l.len() implies l[k] != '\r' && l[k] != '\n' by {
            if k < h.article.len() {
                assert(l[k] == h.article[k]);
                assert(h.article.contains(l[k]));
            } else if k > h.article.len() {
                assert(l[k] == h.value[k - h.article.len() - 1]);
                assert(h.value.contains(l[k]));
            }
        }
        if l == seq!['.'] {
            assert(l[h.article.len() as int] == '.');
        }
    }
    if hs.len() > 0 {
        let p = hs.drop_last();
        assert forall|i: int| 0 <= i < p.len() implies header_reads_back(#[trigger] p[i]) by {
            assert(p[i] == hs[i]);
        }
        lemma_headers_read_back(p);
        assert(ls.drop_last() =~= p.map_values(|h: HeaderEntryV| header_entry_line(h)));
        assert(header_line(header_entry_line(hs[hs.len() - 1])) == Some(hs[hs.len() - 1]));
        assert(p.push(hs.last()) =~= hs);
    }
    assert forall|i: int| 0 <= i < ls.len() implies single_line(#[trigger] ls[i]) && ls[i] != seq!['.'] by {
        assert(ls[i] == header_entry_line(hs[i]));
    }
}


/// The newsgroup list reply's (or, when `fresh`, the new newsgroups
/// reply's) code, message and lines.
proof fn lemma_groups_block(gs: Seq<NewsGroupV>, fresh: bool) -> (cm: (u16, Seq<char>, Seq<Seq<char>>))
    requires
        forall|i: int| 0 <= i < gs.len() ==> group_reads_back(#[trigger] gs[i]),
    ensures
        ({
            let r = if fresh {
                ResponseV::NewNewsgroups(gs)
            } else {
                ResponseV::NewsgroupList(gs)
            };
            &&& response_text(r) == status_text(cm.0, cm.1) + line_block(cm.2) + dot_line()
            &&& cm.0 == (if fresh { 231u16 } else { 215u16 })
            &&& single_line(cm.1)
            &&& payload_lines(cm.2)
            &&& dispatch(cm.0, cm.1, cm.2) == Ok::<ResponseV, ErrorV>(r)
        }),
{
    reveal_strlit(" ");
    reveal_strlit("\r\n");
    let ls = gs.map_values(|g: NewsGroupV| group_line(g));
    lemma_groups_read_back(gs);
    if fresh {
        reveal_strlit("231 New newsgroups follow:\r\n");
        reveal_strlit("New newsgroups follow:");
        lemma_three_digit_code(231);
        assert("231 New newsgroups follow:\r\n"@ =~= status_text(231, "New newsgroups follow:"@));
        (231u16, "New newsgroups follow:"@, ls)
    } else {
        let msg = "Newsgroups follow:"@;
        reveal_strlit("215 Newsgroups follow:\r\n");
        reveal_strlit("Newsgroups follow:");
        reveal_strlit("overview");
        let low = lower_seq(msg);
        assert forall|j: int| 0 <= j < low.len() implies #[trigger] low[j] != 'v' by {}
        assert forall|i: int| !occurs_at(low, "overview"@, i) by {
            if occurs_at(low, "overview"@, i) {
                assert(low.subrange(i, i + 8)[1] == low[i + 1]);
            }
        }
        lemma_three_digit_code(215);
        assert("215 Newsgroups follow:\r\n"@ =~= status_text(215, msg));
        (215u16, msg, ls)
    }
}

/// The header data reply's code, message and lines.
proof fn lemma_headers_block(hs: Seq<HeaderEntryV>) -> (cm: (u16, Seq<char>, Seq<Seq<char>>))
    requires
        forall|i: int| 0 <= i < hs.len() ==> header_reads_back(#[trigger] hs[i]),
    ensures
        response_text(ResponseV::HeaderData(hs)) == status_text(cm.0, cm.1) + line_block(cm.2) + dot_line(),
        cm.0 == 225,
        single_line(cm.1),
        payload_lines(cm.2),
        dispatch(cm.0, cm.1, cm.2) == Ok::<ResponseV, ErrorV>(ResponseV::HeaderData(hs)),
{
    reveal_strlit(" ");
    reveal_strlit("\r\n");
    reveal_strlit("225 Header follows\r\n");
    reveal_strlit("Header follows");
    let ls = hs.map_values(|h: HeaderEntryV| header_entry_line(h));
    lemma_headers_read_back(hs);
    lemma_three_digit_code(225);
    assert("225 Header follows\r\n"@ =~= status_text(225, "Header follows"@));
    (225u16, "Header follows"@, ls)
}


/// Overview fields whose line reads back: at least one field, no field with
/// a tab or a line break, and not a lone dot.
pub open spec fn fields_read_back(f: Seq<Seq<char>>) -> bool {
    &&& f.len() > 0
    &&& forall|i: int| 0 <= i < f.len() ==> !(#[trigger] f[i]).contains('\t') && single_line(f[i])
    &&& f != seq![seq!['.']]
}

/// Characters without a tab after a text extend its last tab-separated
/// piece.
proof fn lemma_split_char_extend(a: Seq<char>, w: Seq<char>)
    requires
        !w.contains('\t'),
        split_char(a, '\t').len() > 0,
    ensures
        split_char(a + w, '\t') == split_char(a, '\t').update(
            split_char(a, '\t').len() - 1,
            split_char(a, '\t').last() + w,
        ),
    decreases w.len(),
{
    let t = split_char(a, '\t');
    if w.len() == 0 {
        assert(a + w =~= a);
        assert(t.last() + w =~= t.last());
        assert(t.update(t.len() - 1, t.last()) =~= t);
    } else {
        let p = w.drop_last();
        assert(!p.contains('\t')) by {
            if p.contains('\t') {
                let i = choose|i: int| 0 <= i < p.len() && p[i] == '\t';
                assert(w[i] == '\t');
            }
        }
        lemma_split_char_extend(a, p);
        assert((a + w).drop_last() =~= a + p);
        assert(w.last() != '\t') by {
            assert(w.contains(w[w.len() - 1]));
        }
        assert((a + w).last() == w.last());
        let u = t.update(t.len() - 1, t.last() + p);
        assert(u.last() == t.last() + p);
        assert((t.last() + p).push(w.last()) =~= t.last() + w);
        assert(split_char(a + w, '\t') == u.update(u.len() - 1, u.last().push(w.last())));
        assert(u.update(u.len() - 1, u.last().push(w.last())) =~= t.update(t.len() - 1, t.last() + w));
    }
}

/// Splitting a tab-joined list of fields at the tabs gives the fields back.
proof fn lemma_split_join(f: Seq<Seq<char>>)
    requires
        f.len() > 0,
        forall|i: int| 0 <= i < f.len() ==> !(#[trigger] f[i]).contains('\t'),
    ensures
        split_char(join(f, "\t"@), '\t') == f,
    decreases f.len(),
{
    reveal_strlit("\t");
    let e = Seq::<char>::empty();
    assert(split_char(e, '\t') == seq![e]);
    if f.len() == 1 {
        assert(!f[0].contains('\t'));
        lemma_split_char_extend(e, f[0]);
        assert(e + f[0] =~= f[0]);
        assert(seq![e].update(0, e + f[0]) =~= f);
    } else {
        let p = f.drop_last();
        assert forall|i: int| 0 <= i < p.len() implies !(#[trigger] p[i]).contains('\t') by {
            assert(p[i] == f[i]);
        }
        lemma_split_join(p);
        let a = join(p, "\t"@) + "\t"@;
        assert(a.drop_last() =~= join(p, "\t"@));
        assert(split_char(a, '\t') == p.push(e));
        assert(!f[f.len() - 1].contains('\t'));
        lemma_split_char_extend(a, f.last());
        assert(join(f, "\t"@) == a + f.last());
        assert(e + f.last() =~= f.last());
        assert(p.push(e).update(p.len() as int, f.last()) =~= f);
    }
}

/// A tab-joined line of fields that read back.
proof fn lemma_fields_line(f: Seq<Seq<char>>)
    requires
        fields_read_back(f),
    ensures
        split_char(join(f, "\t"@), '\t') == f,
        single_line(join(f, "\t"@)),
        join(f, "\t"@) != seq!['.'],
{
    assert forall|i: int| 0 <= i < f.len() implies !(#[trigger] f[i]).contains('\t') by {}
    lemma_split_join(f);
    lemma_join_single_line(f);
    if join(f, "\t"@) == seq!['.'] {
        reveal_strlit(".");
        assert(split_char(seq!['.'], '\t') =~= seq![seq!['.']]) by {
            let e = Seq::<char>::empty();
            assert(seq!['.'].drop_last() =~= e);
            assert(split_char(e, '\t') == seq![e]);
        }
    }
}

/// Joining lines without breaks by tabs gives a line without breaks.
proof fn lemma_join_single_line(f: Seq<Seq<char>>)
    requires
        forall|i: int| 0 <= i < f.len() ==> single_line(#[trigger] f[i]),
    ensures
        single_line(join(f, "\t"@)),
    decreases f.len(),
{
    reveal_strlit("\t");
    if f.len() == 1 {
        assert(single_line(f[0]));
    } else if f.len() > 1 {
        let p = f.drop_last();
        assert forall|i: int| 0 <= i < p.len() implies single_line(#[trigger] p[i]) by {
            assert(p[i] == f[i]);
        }
        lemma_join_single_line(p);
        assert(single_line("\t"@)) by {
            assert forall|i: int| 0 <= i < "\t"@.len() implies "\t"@[i] != '\r' && "\t"@[i] != '\n' by {}
        }
        lemma_concat_lines(join(p, "\t"@), "\t"@);
        assert(single_line(f[f.len() - 1]));
        lemma_concat_lines(join(p, "\t"@) + "\t"@, f.last());
    } else {
        assert(join(f, "\t"@) =~= Seq::<char>::empty());
    }
}

/// Two texts without line breaks make one.
proof fn lemma_concat_lines(a: Seq<char>, b: Seq<char>)
    requires
        single_line(a),
        single_line(b),
    ensures
        single_line(a + b),
{
    let s = a + b;
    assert forall|i: int| 0 <= i < s.len() implies s[i] != '\r' && s[i] != '\n' by {
        if i < a.len() {
            assert(a.contains(s[i]));
        } else {
            assert(s[i] == b[i - a.len()]);
            assert(b.contains(s[i]));
        }
    }
}

/// Overview lines read back as the overview fields.
proof fn lemma_overviews_read_back(os: Seq<Seq<Seq<char>>>)
    requires
        forall|i: int| 0 <= i < os.len() ==> fields_read_back(#[trigger] os[i]),
    ensures
        overview_of(os.map_values(|f: Seq<Seq<char>>| join(f, "\t"@))) == os,
        payload_lines(os.map_values(|f: Seq<Seq<char>>| join(f, "\t"@))),
    decreases os.len(),
{
    let ls = os.map_values(|f: Seq<Seq<char>>| join(f, "\t"@));
    if os.len() > 0 {
        let p = os.drop_last();
        assert forall|i: int| 0 <= i < p.len() implies fields_read_back(#[trigger] p[i]) by {
            assert(p[i] == os[i]);
        }
        lemma_overviews_read_back(p);
        assert(ls.drop_last() =~= p.map_values(|f: Seq<Seq<char>>| join(f, "\t"@)));
        assert(fields_read_back(os[os.len() - 1]));
        lemma_fields_line(os.last());
        assert(p.push(os.last()) =~= os);
    }
    assert forall|i: int| 0 <= i < ls.len() implies single_line(#[trigger] ls[i]) && ls[i] != seq!['.'] by {
        lemma_fields_line(os[i]);
    }
}

/// The overview data reply's code, message and lines.
proof fn lemma_overviews_block(os: Seq<Seq<Seq<char>>>) -> (cm: (u16, Seq<char>, Seq<Seq<char>>))
    requires
        forall|i: int| 0 <= i < os.len() ==> fields_read_back(#[trigger] os[i]),
    ensures
        response_text(ResponseV::OverviewData(os)) == status_text(cm.0, cm.1) + line_block(cm.2) + dot_line(),
        cm.0 == 224,
        single_line(cm.1),
        payload_lines(cm.2),
        dispatch(cm.0, cm.1, cm.2) == Ok::<ResponseV, ErrorV>(ResponseV::OverviewData(os)),
{
    reveal_strlit(" ");
    reveal_strlit("\r\n");
    reveal_strlit("224 Overview information follows\r\n");
    reveal_strlit("Overview information follows");
    let ls = os.map_values(|f: Seq<Seq<char>>| join(f, "\t"@));
    lemma_overviews_read_back(os);
    lemma_three_digit_code(224);
    assert("224 Overview information follows\r\n"@ =~= status_text(224, "Overview information follows"@));
    (224u16, "Overview information follows"@, ls)
}


/// Article content made of lines is the UTF-8 bytes of those lines, each
/// ended by CR LF.
proof fn lemma_content_bytes(ls: Seq<Seq<char>>)
    ensures
        content_of(ls) == encode_utf8(line_block(ls)),
    decreases ls.len(),
{
    if ls.len() == 0 {
        assert(line_block(ls) =~= Seq::<char>::empty());
        assert(content_of(ls) =~= Seq::<u8>::empty());
    } else {
        lemma_content_bytes(ls.drop_last());
        lemma_block_bytes(ls);
        assert(crlf() =~= seq![13u8, 10u8]);
    }
}

/// The message of an article reply.
proof fn lemma_article_message(number: Option<u64>, message_id: Seq<char>, b: Seq<Seq<char>>) -> (m: Seq<char>)
    requires
        number != Some(0u64),
        word(message_id),
    ensures
        m == decimal(
            match number {
                Some(n) => n as nat,
                None => 0nat,
            },
        ) + " "@ + message_id + " Article follows"@,
        single_line(m),
        article_response(m, b) == Ok::<ResponseV, ErrorV>(
            ResponseV::Article { number, message_id, content: content_of(b) },
        ),
{
    reveal_strlit(" ");
    reveal_strlit(" Article follows");
    reveal_strlit("Article");
    reveal_strlit("follows");
    reveal_strlit("0");
    let n0: nat = match number {
        Some(n) => n as nat,
        None => 0nat,
    };
    let d = decimal(n0);
    let w1 = "Article"@;
    let w2 = "follows"@;
    assert(word(w1)) by {
        assert forall|i: int| 0 <= i < w1.len() implies !is_ws(#[trigger] w1[i]) by {}
    }
    assert(word(w2)) by {
        assert forall|i: int| 0 <= i < w2.len() implies !is_ws(#[trigger] w2[i]) by {}
    }
    let m = d + " "@ + message_id + " Article follows"@;
    assert(m =~= d + " "@ + message_id + " "@ + w1 + " "@ + w2);
    lemma_decimal_word(n0);
    lemma_decimal_parses(n0);
    lemma_split_ws_word(d);
    lemma_split_ws_then_word(d, message_id);
    lemma_split_ws_then_word(d + " "@ + message_id, w1);
    lemma_split_ws_then_word(d + " "@ + message_id + " "@ + w1, w2);
    assert(split_ws(m) =~= seq![d, message_id, w1, w2]);
    lemma_word_single_line(d);
    lemma_words_single_line(d, message_id);
    lemma_words_single_line(d + " "@ + message_id, w1);
    lemma_words_single_line(d + " "@ + message_id + " "@ + w1, w2);
    if number is None {
        assert(d =~= "0"@);
    } else {
        assert(n0 != 0);
        if d == "0"@ {
            assert(d.drop_last() =~= Seq::<char>::empty());
            assert(digits_value(d) == digits_value(d.drop_last()) * 10 + digit_val(d.last()));
        }
    }
    m
}

/// What the mock server sends for an article whose content is lines that
/// travel unchanged (at least one; none a lone dot), with a one-word
/// Message-ID and a number other than 0, is one complete frame, and the
/// client decodes it to that article: a client in any state fed those
/// bytes moves on as for the reply and keeps no bytes.
#[verifier::spinoff_prover]
pub proof fn lemma_article_reads_back(state: StateV, number: Option<u64>, message_id: Seq<char>, ls: Seq<Seq<char>>)
    requires
        number != Some(0u64),
        word(message_id),
        payload_lines(ls),
        ls.len() > 0,
    ensures
        ({
            let r = ResponseV::Article { number, message_id, content: content_of(ls) };
            &&& frame_len(state, encode_utf8(response_text(r))) == Some(encode_utf8(response_text(r)).len())
            &&& decoded_reply(state, encode_utf8(response_text(r))) == (
                ClientV { state: state_after_response(state, r), buffered: Seq::<u8>::empty() },
                Ok::<ResponseV, ErrorV>(r),
            )
        }),
{
    broadcast use vstd::utf8::encode_utf8_valid_utf8, vstd::utf8::encode_utf8_decode_utf8;

    reveal_strlit(" ");
    reveal_strlit("\r\n");
    reveal_strlit("220 ");
    reveal_strlit(" Article follows\r\n");
    reveal_strlit(" Article follows");
    let content = content_of(ls);
    let r = ResponseV::Article { number, message_id, content };
    let lb = line_block(ls);
    lemma_content_bytes(ls);
    assert(content_text(content) == lb);
    lemma_block_bytes(ls);
    assert(ends_crlf(content));
    let m = lemma_article_message(number, message_id, ls);
    lemma_three_digit_code(220);
    assert(response_text(r) =~= status_text(220, m) + lb + dot_line());
    lemma_block_reads_back(state, r, 220, m, ls);
}


/// A text without CR encodes to bytes without CR.
proof fn lemma_encode_without_cr(x: Seq<char>)
    requires
        !x.contains('\r'),
    ensures
        !encode_utf8(x).contains(13u8),
{
    lemma_encode_without(x, '\r');
}

/// Article numbers written one per line read back as those numbers.
proof fn lemma_numbers_read_back(ns: Seq<u64>)
    ensures
        numbers_of(ns.map_values(|n: u64| decimal(n as nat))) == ns,
        payload_lines(ns.map_values(|n: u64| decimal(n as nat))),
    decreases ns.len(),
{
    let ls = ns.map_values(|n: u64| decimal(n as nat));
    if ns.len() > 0 {
        let p = ns.drop_last();
        lemma_numbers_read_back(p);
        assert(ls.drop_last() =~= p.map_values(|n: u64| decimal(n as nat)));
        lemma_decimal_word(ns.last() as nat);
        assert(ls.last() == decimal(ns.last() as nat));
        assert(p.push(ns.last()) =~= ns);
    }
    assert forall|i: int| 0 <= i < ls.len() implies single_line(#[trigger] ls[i]) && ls[i] != seq!['.'] by {
        lemma_decimal_word(ns[i] as nat);
        lemma_word_single_line(ls[i]);
        lemma_decimal_parses(ns[i] as nat);
        assert(is_digit(ls[i][0]));
    }
}

/// The listing reply's code, message and lines.
proof fn lemma_listing_block(ns: Seq<u64>) -> (cm: (u16, Seq<char>, Seq<Seq<char>>))
    ensures
        response_text(ResponseV::ArticleListing(ns)) == status_text(cm.0, cm.1) + line_block(cm.2) + dot_line(),
        cm.0 == 211,
        single_line(cm.1),
        payload_lines(cm.2),
        dispatch(cm.0, cm.1, cm.2) == Ok::<ResponseV, ErrorV>(ResponseV::ArticleListing(ns)),
{
    reveal_strlit(" ");
    reveal_strlit("\r\n");
    reveal_strlit("211 Article list follows\r\n");
    reveal_strlit("Article list follows");
    reveal_strlit("list follows");
    let msg = "Article list follows"@;
    let ls = ns.map_values(|n: u64| decimal(n as nat));
    lemma_numbers_read_back(ns);
    assert(msg.subrange(8, 20) =~= "list follows"@);
    assert(occurs_at(msg, "list follows"@, 8));
    lemma_three_digit_code(211);
    assert("211 Article list follows\r\n"@ =~= status_text(211, msg));
    (211u16, msg, ls)
}


/// A status line `code message`, with or without its CR LF, parses as what
/// its code and message dispatch to: an error code (400 to 599, but for 435,
/// 436 and 483, which have replies of their own) gives `Error`, and a
/// success code without a reply of its own gives `Success`, each with the
/// message.
pub proof fn lemma_status_line_parses(code: u16, message: Seq<char>)
    requires
        single_line(message),
    ensures
        parse_text(decimal(code as nat) + " "@ + message) == dispatch(code, message, Seq::<Seq<char>>::empty()),
        parse_text(status_text(code, message)) == dispatch(code, message, Seq::<Seq<char>>::empty()),
        400 <= code <= 599 && !(code == 435 || code == 436 || code == 483) ==> parse_text(
            decimal(code as nat) + " "@ + message,
        ) == Ok::<ResponseV, ErrorV>(ResponseV::Error { code, message }),
        200 <= code < 400 && !(code == 200 || code == 201 || code == 205 || code == 211 || code == 215
            || (220 <= code && code <= 225) || code == 230 || code == 231 || code == 235 || code == 240
            || code == 281 || code == 335 || code == 340 || code == 381 || code == 382) ==> parse_text(
            decimal(code as nat) + " "@ + message,
        ) == Ok::<ResponseV, ErrorV>(ResponseV::Success { code, message }),
{
    reveal_strlit(" ");
    lemma_status_text_parses(code, message);
    let d = decimal(code as nat);
    let l = d + " "@ + message;
    lemma_decimal_parses(code as nat);
    lemma_decimal_no_space(code as nat);
    assert(!l.contains('\n')) by {
        if l.contains('\n') {
            let i = choose|i: int| 0 <= i < l.len() && l[i] == '\n';
            if i < d.len() {
                assert(is_digit(d[i]));
            } else if i > d.len() {
                assert(l[i] == message[i - d.len() - 1]);
                assert(message.contains(l[i]));
            }
        }
    }
    lemma_split_nl_no_break(l);
    assert(lines(l) =~= seq![l]);
    lemma_index_of(l, ' ');
    assert(l[d.len() as int] == ' ');
    assert(index_of(l, ' ') == d.len()) by {
        if index_of(l, ' ') < d.len() {
            assert(is_digit(d[index_of(l, ' ')]));
        }
    }
    assert(l.take(d.len() as int) =~= d);
    assert(l.skip(d.len() as int + 1) =~= message);
    assert(is_digit(d[0]));
    assert(uint_digits(d) == d);
}

} // verus!
