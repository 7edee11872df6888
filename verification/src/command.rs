//! NNTP command types and encoding.

use vstd::prelude::*;
use vstd::utf8::encode_utf8;
use crate::encoding::lemma_encode_without;
use crate::error::{Error, ErrorV, Result, rv};
use crate::text::{chars_of, chars_of_string, contains_char, decimal, push_str, string_from_chars, u64_to_decimal};

verus! {

/// LIST command variants as specified in RFC 3977
#[derive(Debug, Clone, PartialEq)]
pub enum ListVariant {
    /// LIST ACTIVE \[wildmat\] - Active newsgroups (RFC 3977 Section 7.6.3)
    Active(Option<String>),
    /// LIST NEWSGROUPS \[wildmat\] - Newsgroup descriptions (RFC 3977 Section 7.6.6)
    Newsgroups(Option<String>),
    /// LIST HEADERS - Available header fields for HDR command
    Headers,
    /// LIST ACTIVE.TIMES - Newsgroup creation times (RFC 3977 Section 7.6.4)
    ActiveTimes,
    /// LIST DISTRIBUTIONS - Distribution values (RFC 3977 Section 7.6.5)
    Distributions,
    /// LIST OVERVIEW.FMT - Overview format specification
    OverviewFmt,
    /// LIST \[wildmat\] - Basic list (backwards compatibility)
    Basic(Option<String>),
}

/// NNTP commands that can be sent to the server.
#[derive(Debug, Clone, PartialEq)]
pub enum Command {
    /// Request server capabilities
    Capabilities,
    /// Switch to reader mode
    ModeReader,
    /// Authenticate with username
    AuthInfoUser(String),
    /// Authenticate with password
    AuthInfoPass(String),
    /// Select a newsgroup
    Group(String),
    /// List articles in current group with optional range
    ListGroup(Option<String>),
    /// Retrieve full article by message-id or number
    Article(ArticleSpec),
    /// Retrieve article headers by message-id or number
    Head(ArticleSpec),
    /// Retrieve article body by message-id or number
    Body(ArticleSpec),
    /// Get article status by message-id or number
    Stat(ArticleSpec),
    /// List information with specific variants
    List(ListVariant),
    /// List new newsgroups since date/time
    NewGroups {
        /// Date in YYMMDD or YYYYMMDD format
        date: String,
        /// Time in HHMMSS format
        time: String,
        /// Optional timezone (GMT)
        gmt: bool,
        /// Optional distributions parameter
        distributions: Option<String>,
    },
    /// List new articles since date/time
    NewNews {
        /// Wildcard pattern for newsgroups
        wildmat: String,
        /// Date in YYMMDD or YYYYMMDD format
        date: String,
        /// Time in HHMMSS format
        time: String,
        /// Optional timezone (GMT)
        gmt: bool,
    },
    /// Post an article
    Post,
    /// Terminate connection
    Quit,
    /// Request help information
    Help,
    /// Request server date and time
    Date,
    /// Move to previous article in current group
    Last,
    /// Move to next article in current group
    Next,
    /// Retrieve specific header field for articles
    Hdr {
        /// Header field name (e.g. "Subject", "From")
        field: String,
        /// Range specification (message-id, number, or range)
        range: Option<String>,
    },
    /// Retrieve overview information for articles
    Over {
        /// Range specification (message-id, number, or range)
        range: Option<String>,
    },
    /// Offer an article to the server
    Ihave {
        /// Message-ID of the article being offered
        message_id: String,
    },
    /// STARTTLS command (RFC 4642).
    StartTls,
}

/// Article specification - either message-id or article number within a group
#[derive(Debug, Clone, PartialEq)]
pub enum ArticleSpec {
    /// Article number within a specific group
    GroupNumber {
        /// The newsgroup name
        group: String,
        /// Article number within the group
        article_number: u64,
    },
    /// Message-ID in angle brackets (globally unique)
    MessageId(String),
    /// Current article (no parameter)
    Current,
}

impl ArticleSpec {
    /// Create an ArticleSpec for an article number within a group
    pub fn number_in_group(group: &str, number: u64) -> (r: Self)
        ensures
            r matches ArticleSpec::GroupNumber { group: g, article_number } && g@ == group@
                && article_number == number,
    {
        ArticleSpec::GroupNumber { group: group.to_owned(), article_number: number }
    }
}

/// Message for a parameter holding CR or LF.
pub open spec fn msg_line_break() -> Seq<char> {
    "Parameters cannot contain line breaks"@
}

/// Message for an empty parameter.
pub open spec fn msg_empty() -> Seq<char> {
    "Parameters cannot be empty"@
}

/// Message for a Message-ID without angle brackets.
pub open spec fn msg_angle() -> Seq<char> {
    "Message-ID must be enclosed in angle brackets"@
}

/// What is wrong with a command parameter, if anything: line breaks are
/// checked first, then emptiness.
pub open spec fn param_problem(p: Seq<char>) -> Option<Seq<char>> {
    if p.contains('\r') || p.contains('\n') {
        Some(msg_line_break())
    } else if p.len() == 0 {
        Some(msg_empty())
    } else {
        None
    }
}

/// A Message-ID enclosed in angle brackets.
pub open spec fn angle_enclosed(id: Seq<char>) -> bool {
    id.len() > 0 && id[0] == '<' && id.last() == '>'
}

/// `r` unless parameter `p` has a problem, which then becomes the error.
pub open spec fn checked(p: Seq<char>, r: core::result::Result<Seq<char>, Seq<char>>) -> core::result::Result<Seq<char>, Seq<char>> {
    match param_problem(p) {
        Some(m) => Err(m),
        None => r,
    }
}

/// Text of an article specification on the wire.
pub open spec fn article_spec_text(a: ArticleSpec) -> core::result::Result<Seq<char>, Seq<char>> {
    match a {
        ArticleSpec::GroupNumber { article_number, .. } => Ok(decimal(article_number as nat)),
        ArticleSpec::MessageId(id) => if !angle_enclosed(id@) {
            Err(msg_angle())
        } else {
            checked(id@, Ok(id@))
        },
        ArticleSpec::Current => Ok(seq![]),
    }
}

/// `kw` followed by the article specification.
pub open spec fn with_spec(kw: Seq<char>, a: ArticleSpec) -> core::result::Result<Seq<char>, Seq<char>> {
    match article_spec_text(a) {
        Ok(t) => Ok(kw + t),
        Err(m) => Err(m),
    }
}

/// `kw` alone, or `kw`, a space and the checked optional parameter.
pub open spec fn with_opt(kw: Seq<char>, o: Option<String>) -> core::result::Result<Seq<char>, Seq<char>> {
    match o {
        None => Ok(kw),
        Some(p) => checked(p@, Ok(kw + " "@ + p@)),
    }
}

/// `" GMT"` when `gmt` holds.
pub open spec fn gmt_suffix(gmt: bool) -> Seq<char> {
    if gmt {
        " GMT"@
    } else {
        seq![]
    }
}

/// The command line (without CRLF) of a command, or the message of the
/// first parameter problem found.
pub open spec fn command_line(c: Command) -> core::result::Result<Seq<char>, Seq<char>> {
    match c {
        Command::Capabilities => Ok("CAPABILITIES"@),
        Command::ModeReader => Ok("MODE READER"@),
        Command::AuthInfoUser(u) => checked(u@, Ok("AUTHINFO USER"@ + " "@ + u@)),
        Command::AuthInfoPass(p) => checked(p@, Ok("AUTHINFO PASS"@ + " "@ + p@)),
        Command::Group(g) => checked(g@, Ok("GROUP"@ + " "@ + g@)),
        Command::ListGroup(r) => with_opt("LISTGROUP"@, r),
        Command::Article(a) => with_spec("ARTICLE "@, a),
        Command::Head(a) => with_spec("HEAD "@, a),
        Command::Body(a) => with_spec("BODY "@, a),
        Command::Stat(a) => with_spec("STAT "@, a),
        Command::List(v) => match v {
            ListVariant::Active(p) => with_opt("LIST ACTIVE"@, p),
            ListVariant::Newsgroups(p) => with_opt("LIST NEWSGROUPS"@, p),
            ListVariant::Headers => Ok("LIST HEADERS"@),
            ListVariant::ActiveTimes => Ok("LIST ACTIVE.TIMES"@),
            ListVariant::Distributions => Ok("LIST DISTRIBUTIONS"@),
            ListVariant::OverviewFmt => Ok("LIST OVERVIEW.FMT"@),
            ListVariant::Basic(p) => with_opt("LIST"@, p),
        },
        Command::NewGroups { date, time, gmt, distributions } => checked(
            date@,
            checked(
                time@,
                with_opt("NEWGROUPS "@ + date@ + " "@ + time@ + gmt_suffix(gmt), distributions),
            ),
        ),
        Command::NewNews { wildmat, date, time, gmt } => checked(
            wildmat@,
            checked(
                date@,
                checked(
                    time@,
                    Ok("NEWNEWS "@ + wildmat@ + " "@ + date@ + " "@ + time@ + gmt_suffix(gmt)),
                ),
            ),
        ),
        Command::Post => Ok("POST"@),
        Command::Quit => Ok("QUIT"@),
        Command::Help => Ok("HELP"@),
        Command::Date => Ok("DATE"@),
        Command::Last => Ok("LAST"@),
        Command::Next => Ok("NEXT"@),
        Command::Hdr { field, range } => checked(field@, with_opt("HDR "@ + field@, range)),
        Command::Over { range } => with_opt("OVER"@, range),
        Command::Ihave { message_id } => if !angle_enclosed(message_id@) {
            Err(msg_angle())
        } else {
            checked(message_id@, Ok("IHAVE"@ + " "@ + message_id@))
        },
        Command::StartTls => Ok("STARTTLS"@),
    }
}

/// Message for a command line longer than 510 octets of `n`.
pub open spec fn msg_too_long(n: nat) -> Seq<char> {
    "Command exceeds maximum length of 510 octets (got "@ + decimal(n) + ")"@
}

/// The bytes sent for a command: its UTF-8 line and CRLF, when the line
/// fits in 510 octets (RFC 3977: 512 with the CRLF).
pub open spec fn encode_spec(c: Command) -> core::result::Result<Seq<u8>, ErrorV> {
    match command_line(c) {
        Err(m) => Err(ErrorV::InvalidCommand(m)),
        Ok(l) => if encode_utf8(l).len() > 510 {
            Err(ErrorV::InvalidCommand(msg_too_long(encode_utf8(l).len())))
        } else {
            Ok(encode_utf8(l) + seq![13u8, 10u8])
        },
    }
}

/// Checks a parameter: no line breaks, not empty.
fn validate_parameter(param: &String) -> (r: Option<String>)
    ensures
        match r {
            Some(m) => param_problem(param@) == Some(m@),
            None => param_problem(param@) is None,
        },
{
    let v = chars_of_string(param);
    if contains_char(&v, '\r') || contains_char(&v, '\n') {
        return Some("Parameters cannot contain line breaks".to_owned());
    }
    if v.len() == 0 {
        return Some("Parameters cannot be empty".to_owned());
    }
    None
}

/// Whether a Message-ID is enclosed in angle brackets.
fn is_angle_enclosed(id: &String) -> (r: bool)
    ensures
        r == angle_enclosed(id@),
{
    let v = chars_of_string(id);
    v.len() > 0 && v[0] == '<' && v[v.len() - 1] == '>'
}

/// View of a command-line result.
pub open spec fn line_rv(r: core::result::Result<Vec<char>, String>) -> core::result::Result<Seq<char>, Seq<char>> {
    match r {
        Ok(v) => Ok(v@),
        Err(m) => Err(m@),
    }
}

/// `kw`, a space and the parameter, once the parameter is checked.
fn line_with_param(kw: &str, p: &String) -> (r: core::result::Result<Vec<char>, String>)
    ensures
        line_rv(r) == checked(p@, Ok(kw@ + " "@ + p@)),
{
    if let Some(m) = validate_parameter(p) {
        return Err(m);
    }
    let mut v = chars_of(kw);
    push_str(&mut v, " ");
    push_str(&mut v, p.as_str());
    Ok(v)
}

/// `kw` alone, or with a checked optional parameter.
fn line_with_opt(kw: Vec<char>, o: &Option<String>) -> (r: core::result::Result<Vec<char>, String>)
    ensures
        line_rv(r) == with_opt(kw@, *o),
{
    match o {
        None => Ok(kw),
        Some(p) => {
            if let Some(m) = validate_parameter(p) {
                return Err(m);
            }
            let mut v = kw;
            push_str(&mut v, " ");
            push_str(&mut v, p.as_str());
            Ok(v)
        },
    }
}

impl ArticleSpec {
    /// The article specification as sent on the wire.
    fn encode(&self) -> (r: core::result::Result<Vec<char>, String>)
        ensures
            line_rv(r) == article_spec_text(*self),
    {
        match self {
            ArticleSpec::GroupNumber { article_number, .. } => Ok(u64_to_decimal(*article_number)),
            ArticleSpec::MessageId(id) => {
                if !is_angle_enclosed(id) {
                    return Err("Message-ID must be enclosed in angle brackets".to_owned());
                }
                if let Some(m) = validate_parameter(id) {
                    return Err(m);
                }
                Ok(chars_of_string(id))
            },
            ArticleSpec::Current => Ok(Vec::new()),
        }
    }
}

/// `kw` followed by the encoded article specification.
fn line_with_spec(kw: &str, a: &ArticleSpec) -> (r: core::result::Result<Vec<char>, String>)
    ensures
        line_rv(r) == with_spec(kw@, *a),
{
    match a.encode() {
        Ok(mut t) => {
            let mut v = chars_of(kw);
            v.append(&mut t);
            Ok(v)
        },
        Err(m) => Err(m),
    }
}

/// The characters of `kw`, as a successful line.
fn fixed(kw: &str) -> (r: core::result::Result<Vec<char>, String>)
    ensures
        line_rv(r) == Ok::<Seq<char>, Seq<char>>(kw@),
{
    Ok(chars_of(kw))
}

impl Command {
    /// The command line without its CRLF, or the problem found.
    fn command_line(&self) -> (r: core::result::Result<Vec<char>, String>)
        ensures
            line_rv(r) == command_line(*self),
    {
        match self {
            Command::Capabilities => fixed("CAPABILITIES"),
            Command::ModeReader => fixed("MODE READER"),
            Command::AuthInfoUser(u) => line_with_param("AUTHINFO USER", u),
            Command::AuthInfoPass(p) => line_with_param("AUTHINFO PASS", p),
            Command::Group(g) => line_with_param("GROUP", g),
            Command::ListGroup(r) => line_with_opt(chars_of("LISTGROUP"), r),
            Command::Article(a) => line_with_spec("ARTICLE ", a),
            Command::Head(a) => line_with_spec("HEAD ", a),
            Command::Body(a) => line_with_spec("BODY ", a),
            Command::Stat(a) => line_with_spec("STAT ", a),
            Command::List(v) => match v {
                ListVariant::Active(p) => line_with_opt(chars_of("LIST ACTIVE"), p),
                ListVariant::Newsgroups(p) => line_with_opt(chars_of("LIST NEWSGROUPS"), p),
                ListVariant::Headers => fixed("LIST HEADERS"),
                ListVariant::ActiveTimes => fixed("LIST ACTIVE.TIMES"),
                ListVariant::Distributions => fixed("LIST DISTRIBUTIONS"),
                ListVariant::OverviewFmt => fixed("LIST OVERVIEW.FMT"),
                ListVariant::Basic(p) => line_with_opt(chars_of("LIST"), p),
            },
            Command::NewGroups { date, time, gmt, distributions } => {
                if let Some(m) = validate_parameter(date) {
                    return Err(m);
                }
                if let Some(m) = validate_parameter(time) {
                    return Err(m);
                }
                let mut v = chars_of("NEWGROUPS ");
                push_str(&mut v, date.as_str());
                push_str(&mut v, " ");
                push_str(&mut v, time.as_str());
                if *gmt {
                    push_str(&mut v, " GMT");
                } else {
                    assert(v@ + gmt_suffix(*gmt) =~= v@);
                }
                line_with_opt(v, distributions)
            },
            Command::NewNews { wildmat, date, time, gmt } => {
                if let Some(m) = validate_parameter(wildmat) {
                    return Err(m);
                }
                if let Some(m) = validate_parameter(date) {
                    return Err(m);
                }
                if let Some(m) = validate_parameter(time) {
                    return Err(m);
                }
                let mut v = chars_of("NEWNEWS ");
                push_str(&mut v, wildmat.as_str());
                push_str(&mut v, " ");
                push_str(&mut v, date.as_str());
                push_str(&mut v, " ");
                push_str(&mut v, time.as_str());
                if *gmt {
                    push_str(&mut v, " GMT");
                } else {
                    assert(v@ + gmt_suffix(*gmt) =~= v@);
                }
                Ok(v)
            },
            Command::Post => fixed("POST"),
            Command::Quit => fixed("QUIT"),
            Command::Help => fixed("HELP"),
            Command::Date => fixed("DATE"),
            Command::Last => fixed("LAST"),
            Command::Next => fixed("NEXT"),
            Command::Hdr { field, range } => {
                if let Some(m) = validate_parameter(field) {
                    return Err(m);
                }
                let mut v = chars_of("HDR ");
                push_str(&mut v, field.as_str());
                line_with_opt(v, range)
            },
            Command::Over { range } => line_with_opt(chars_of("OVER"), range),
            Command::Ihave { message_id } => {
                if !is_angle_enclosed(message_id) {
                    return Err("Message-ID must be enclosed in angle brackets".to_owned());
                }
                line_with_param("IHAVE", message_id)
            },
            Command::StartTls => fixed("STARTTLS"),
        }
    }

    /// Encode command as bytes for transmission to server.
    ///
    /// The result is the command line in UTF-8 followed by CRLF; a parameter
    /// with a line break or an empty parameter, a Message-ID without angle
    /// brackets, or a line over 510 octets gives `Error::InvalidCommand`.
    pub fn encode(&self) -> (r: Result<Vec<u8>>)
        ensures
            rv(r) == encode_spec(*self),
    {
        let line = match self.command_line() {
            Ok(l) => l,
            Err(m) => {
                return Err(Error::InvalidCommand(m));
            },
        };
        let s = string_from_chars(line);
        let b = s.as_str().as_bytes();
        if b.len() > 510 {
            let mut msg = chars_of("Command exceeds maximum length of 510 octets (got ");
            let mut d = u64_to_decimal(b.len() as u64);
            msg.append(&mut d);
            push_str(&mut msg, ")");
            return Err(Error::InvalidCommand(string_from_chars(msg)));
        }
        let ghost l = s@;
        assert(b@ == encode_utf8(l));
        let mut out = vstd::slice::slice_to_vec(b);
        out.push(13u8);
        out.push(10u8);
        assert(out@ =~= encode_utf8(l) + seq![13u8, 10u8]);
        Ok(out)
    }
}


/// A text with no CR and no LF in it.
pub open spec fn single_line(s: Seq<char>) -> bool {
    !s.contains('\r') && !s.contains('\n')
}

proof fn lemma_concat_single_line(a: Seq<char>, b: Seq<char>)
    requires
        single_line(a),
        single_line(b),
    ensures
        single_line(a + b),
{
    assert forall|c: char| #[trigger] (a + b).contains(c) implies a.contains(c) || b.contains(c) by {
        let i = choose|i: int| 0 <= i < (a + b).len() && (a + b)[i] == c;
        if i < a.len() {
            assert(a[i] == c);
        } else {
            assert(b[i - a.len()] == c);
        }
    }
}

proof fn lemma_decimal_single_line(n: nat)
    ensures
        single_line(decimal(n)),
    decreases n,
{
    let d = decimal(n);
    if n >= 10 {
        lemma_decimal_single_line(n / 10);
    }
    assert forall|i: int| 0 <= i < d.len() implies d[i] != '\r' && d[i] != '\n' by {
        if n >= 10 && i < d.len() - 1 {
            assert(d[i] == decimal(n / 10)[i]);
            assert(decimal(n / 10).contains(d[i]));
        }
    }
}

proof fn lemma_opt_single_line(kw: Seq<char>, o: Option<String>)
    requires
        single_line(kw),
    ensures
        with_opt(kw, o) matches Ok(l) ==> single_line(l),
{
    reveal_strlit(" ");
    if let Some(p) = o {
        if with_opt(kw, o) is Ok {
            lemma_concat_single_line(kw, " "@);
            lemma_concat_single_line(kw + " "@, p@);
        }
    }
}

proof fn lemma_param_single_line(kw: Seq<char>, p: Seq<char>)
    requires
        single_line(kw),
    ensures
        checked(p, Ok(kw + " "@ + p)) matches Ok(l) ==> single_line(l),
{
    reveal_strlit(" ");
    if checked(p, Ok(kw + " "@ + p)) is Ok {
        lemma_concat_single_line(kw, " "@);
        lemma_concat_single_line(kw + " "@, p);
    }
}

proof fn lemma_spec_single_line(kw: Seq<char>, a: ArticleSpec)
    requires
        single_line(kw),
    ensures
        with_spec(kw, a) matches Ok(l) ==> single_line(l),
{
    if let Ok(t) = article_spec_text(a) {
        match a {
            ArticleSpec::GroupNumber { article_number, .. } => lemma_decimal_single_line(article_number as nat),
            ArticleSpec::MessageId(id) => {},
            ArticleSpec::Current => {},
        }
        lemma_concat_single_line(kw, t);
    }
}

/// Every command that encodes is one line: its text holds no CR or LF (a
/// parameter with a line break is refused), and its bytes are CR LF at the
/// end and nowhere else, 512 octets at most in all (RFC 3977).
pub proof fn lemma_command_single_line(c: Command)
    ensures
        command_line(c) matches Ok(l) ==> single_line(l),
        encode_spec(c) matches Ok(b) ==> {
            &&& 2 <= b.len() <= 512
            &&& b[b.len() - 2] == 13u8
            &&& b[b.len() - 1] == 10u8
            &&& !b.take(b.len() - 2).contains(13u8)
            &&& !b.take(b.len() - 2).contains(10u8)
        },
{
    lemma_command_text_single_line(c);
    if let Ok(l) = command_line(c) {
        if let Ok(b) = encode_spec(c) {
            lemma_encode_without(l, '\r');
            lemma_encode_without(l, '\n');
            assert(b.take(b.len() - 2) =~= encode_utf8(l));
        }
    }
}

/// The text of every command that encodes holds no CR or LF.
proof fn lemma_command_text_single_line(c: Command)
    ensures
        command_line(c) matches Ok(l) ==> single_line(l),
{
    reveal_strlit(" ");
    match c {
        Command::Capabilities => reveal_strlit("CAPABILITIES"),
        Command::ModeReader => reveal_strlit("MODE READER"),
        Command::AuthInfoUser(u) => {
            reveal_strlit("AUTHINFO USER");
            lemma_param_single_line("AUTHINFO USER"@, u@);
        },
        Command::AuthInfoPass(p) => {
            reveal_strlit("AUTHINFO PASS");
            lemma_param_single_line("AUTHINFO PASS"@, p@);
        },
        Command::Group(g) => {
            reveal_strlit("GROUP");
            lemma_param_single_line("GROUP"@, g@);
        },
        Command::ListGroup(r) => {
            reveal_strlit("LISTGROUP");
            lemma_opt_single_line("LISTGROUP"@, r);
        },
        Command::Article(a) => {
            reveal_strlit("ARTICLE ");
            lemma_spec_single_line("ARTICLE "@, a);
        },
        Command::Head(a) => {
            reveal_strlit("HEAD ");
            lemma_spec_single_line("HEAD "@, a);
        },
        Command::Body(a) => {
            reveal_strlit("BODY ");
            lemma_spec_single_line("BODY "@, a);
        },
        Command::Stat(a) => {
            reveal_strlit("STAT ");
            lemma_spec_single_line("STAT "@, a);
        },
        Command::List(v) => match v {
            ListVariant::Active(p) => {
                reveal_strlit("LIST ACTIVE");
                lemma_opt_single_line("LIST ACTIVE"@, p);
            },
            ListVariant::Newsgroups(p) => {
                reveal_strlit("LIST NEWSGROUPS");
                lemma_opt_single_line("LIST NEWSGROUPS"@, p);
            },
            ListVariant::Headers => reveal_strlit("LIST HEADERS"),
            ListVariant::ActiveTimes => reveal_strlit("LIST ACTIVE.TIMES"),
            ListVariant::Distributions => reveal_strlit("LIST DISTRIBUTIONS"),
            ListVariant::OverviewFmt => reveal_strlit("LIST OVERVIEW.FMT"),
            ListVariant::Basic(p) => {
                reveal_strlit("LIST");
                lemma_opt_single_line("LIST"@, p);
            },
        },
        Command::NewGroups { date, time, gmt, distributions } => {
            reveal_strlit("NEWGROUPS ");
            reveal_strlit(" GMT");
            if command_line(c) is Ok {
                let kw = "NEWGROUPS "@ + date@ + " "@ + time@ + gmt_suffix(gmt);
                lemma_concat_single_line("NEWGROUPS "@, date@);
                lemma_concat_single_line("NEWGROUPS "@ + date@, " "@);
                lemma_concat_single_line("NEWGROUPS "@ + date@ + " "@, time@);
                lemma_concat_single_line("NEWGROUPS "@ + date@ + " "@ + time@, gmt_suffix(gmt));
                lemma_opt_single_line(kw, distributions);
            }
        },
        Command::NewNews { wildmat, date, time, gmt } => {
            reveal_strlit("NEWNEWS ");
            reveal_strlit(" GMT");
            if command_line(c) is Ok {
                lemma_concat_single_line("NEWNEWS "@, wildmat@);
                lemma_concat_single_line("NEWNEWS "@ + wildmat@, " "@);
                lemma_concat_single_line("NEWNEWS "@ + wildmat@ + " "@, date@);
                lemma_concat_single_line("NEWNEWS "@ + wildmat@ + " "@ + date@, " "@);
                lemma_concat_single_line("NEWNEWS "@ + wildmat@ + " "@ + date@ + " "@, time@);
                lemma_concat_single_line(
                    "NEWNEWS "@ + wildmat@ + " "@ + date@ + " "@ + time@,
                    gmt_suffix(gmt),
                );
            }
        },
        Command::Post => reveal_strlit("POST"),
        Command::Quit => reveal_strlit("QUIT"),
        Command::Help => reveal_strlit("HELP"),
        Command::Date => reveal_strlit("DATE"),
        Command::Last => reveal_strlit("LAST"),
        Command::Next => reveal_strlit("NEXT"),
        Command::Hdr { field, range } => {
            reveal_strlit("HDR ");
            if command_line(c) is Ok {
                lemma_concat_single_line("HDR "@, field@);
                lemma_opt_single_line("HDR "@ + field@, range);
            }
        },
        Command::Over { range } => {
            reveal_strlit("OVER");
            lemma_opt_single_line("OVER"@, range);
        },
        Command::Ihave { message_id } => {
            reveal_strlit("IHAVE");
            lemma_param_single_line("IHAVE"@, message_id@);
        },
        Command::StartTls => reveal_strlit("STARTTLS"),
    }
}

} // verus!
