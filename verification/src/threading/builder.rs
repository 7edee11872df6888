//! Article building and fetched article types.

use vstd::prelude::*;
use crate::error::{Error, ErrorV, Result, rv};
use crate::response::{Article, Attachment};
use crate::response::article::{
    attachments_view, mail_attachments, mail_body_html, mail_body_text, mail_date_rfc3339,
    mail_from_address, mail_header_text, mail_part_count, mail_subject, opt_string,
};
use crate::text::{chars_of, chars_of_string, clone_strings, push_str, string_from_chars, strings_of};
use crate::utils::{references_of, starts_ci, starts_with_ci};
use super::types::{ArticleRefV, ThreadedArticleRef};

verus! {

/// Builder for composing new NNTP articles.
///
/// This provides a fluent API for constructing articles with proper
/// headers for posting to newsgroups.
#[derive(Debug, Clone)]
pub struct ArticleBuilder {
    from: Option<String>,
    subject: Option<String>,
    newsgroups: Vec<String>,
    body: Option<String>,
    references: Vec<String>,
    in_reply_to: Option<String>,
    additional_headers: Vec<(String, String)>,
}

/// What an [`ArticleBuilder`] holds.
pub struct ArticleBuilderV {
    pub from: Option<Seq<char>>,
    pub subject: Option<Seq<char>>,
    pub newsgroups: Seq<Seq<char>>,
    pub body: Option<Seq<char>>,
    pub references: Seq<Seq<char>>,
    pub in_reply_to: Option<Seq<char>>,
    pub headers: Seq<(Seq<char>, Seq<char>)>,
}

/// Name/value pairs of header strings.
pub open spec fn pairs_view(v: Seq<(String, String)>) -> Seq<(Seq<char>, Seq<char>)> {
    v.map_values(|p: (String, String)| (p.0@, p.1@))
}

impl View for ArticleBuilder {
    type V = ArticleBuilderV;

    closed spec fn view(&self) -> ArticleBuilderV {
        ArticleBuilderV {
            from: opt_string(self.from),
            subject: opt_string(self.subject),
            newsgroups: strings_of(self.newsgroups@),
            body: opt_string(self.body),
            references: strings_of(self.references@),
            in_reply_to: opt_string(self.in_reply_to),
            headers: pairs_view(self.additional_headers@),
        }
    }
}

/// A builder holding nothing.
pub open spec fn empty_builder() -> ArticleBuilderV {
    ArticleBuilderV {
        from: None,
        subject: None,
        newsgroups: Seq::empty(),
        body: None,
        references: Seq::empty(),
        in_reply_to: None,
        headers: Seq::empty(),
    }
}

/// The pieces of `s` joined with `sep` between them.
pub open spec fn join(s: Seq<Seq<char>>, sep: Seq<char>) -> Seq<char>
    decreases s.len(),
{
    if s.len() == 0 {
        Seq::empty()
    } else if s.len() == 1 {
        s[0]
    } else {
        join(s.drop_last(), sep) + sep + s.last()
    }
}

/// CR LF.
pub open spec fn crlf_text() -> Seq<char> {
    "\r\n"@
}

/// A custom header line: name, ": ", value, CRLF.
pub open spec fn header_line(name: Seq<char>, value: Seq<char>) -> Seq<char> {
    name + ": "@ + value + crlf_text()
}

/// The lines of the custom headers, in order.
pub open spec fn custom_header_lines(h: Seq<(Seq<char>, Seq<char>)>) -> Seq<char>
    decreases h.len(),
{
    if h.len() == 0 {
        Seq::empty()
    } else {
        custom_header_lines(h.drop_last()) + header_line(h.last().0, h.last().1)
    }
}

/// The header block of an article: From, Subject, Newsgroups (joined with
/// commas), References (joined with spaces) when there are any,
/// In-Reply-To when set, then the custom headers.
pub open spec fn header_block(from: Seq<char>, subject: Seq<char>, b: ArticleBuilderV) -> Seq<char> {
    "From: "@ + from + crlf_text() + "Subject: "@ + subject + crlf_text() + "Newsgroups: "@ + join(
        b.newsgroups,
        ","@,
    ) + crlf_text() + (if b.references.len() > 0 {
        "References: "@ + join(b.references, " "@) + crlf_text()
    } else {
        Seq::empty()
    }) + (match b.in_reply_to {
        Some(r) => "In-Reply-To: "@ + r + crlf_text(),
        None => Seq::empty(),
    }) + custom_header_lines(b.headers)
}

/// Whether text ends with CR LF.
pub open spec fn ends_with_crlf(s: Seq<char>) -> bool {
    s.len() >= 2 && s[s.len() - 2] == '\r' && s[s.len() - 1] == '\n'
}

/// The article text a builder gives, or the error for the first required
/// field that is missing (From, Subject, a newsgroup, the body). The text is
/// the header block, a blank line and the body, with CRLF added at the end
/// if it does not end with one.
pub open spec fn built_article(b: ArticleBuilderV) -> core::result::Result<Seq<char>, ErrorV> {
    match b.from {
        None => Err(ErrorV::ArticleBuilder("From header is required"@)),
        Some(from) => match b.subject {
            None => Err(ErrorV::ArticleBuilder("Subject header is required"@)),
            Some(subject) => if b.newsgroups.len() == 0 {
                Err(ErrorV::ArticleBuilder("At least one newsgroup is required"@))
            } else {
                match b.body {
                    None => Err(ErrorV::ArticleBuilder("Body is required"@)),
                    Some(body) => {
                        let a = header_block(from, subject, b) + crlf_text() + body;
                        Ok(
                            if ends_with_crlf(a) {
                                a
                            } else {
                                a + crlf_text()
                            },
                        )
                    },
                }
            },
        },
    }
}

/// The "Re: " prefix for a reply's subject, unless it has one.
pub open spec fn reply_subject(s: Seq<char>) -> Seq<char> {
    if starts_with_ci(s, seq!['r', 'e', ':']) {
        s
    } else {
        "Re: "@ + s
    }
}

impl Default for ArticleBuilder {
    fn default() -> (r: Self)
        ensures
            r@ == empty_builder(),
    {
        let r = Self {
            from: None,
            subject: None,
            newsgroups: Vec::new(),
            body: None,
            references: Vec::new(),
            in_reply_to: None,
            additional_headers: Vec::new(),
        };
        assert(r@.newsgroups =~= Seq::<Seq<char>>::empty());
        assert(r@.references =~= Seq::<Seq<char>>::empty());
        assert(r@.headers =~= Seq::<(Seq<char>, Seq<char>)>::empty());
        r
    }
}

/// Append `s` and a CRLF.
fn push_line(v: &mut Vec<char>, s: &Vec<char>)
    ensures
        final(v)@ == old(v)@ + s@ + "\r\n"@,
{
    let mut i: usize = 0;
    let ghost start = v@;
    while i < s.len()
        invariant
            i <= s.len(),
            v@ == start + s@.take(i as int),
        decreases s.len() - i,
    {
        v.push(s[i]);
        i = i + 1;
        assert(v@ =~= start + s@.take(i as int));
    }
    assert(s@.take(i as int) =~= s@);
    push_str(v, "\r\n");
}

/// Append `s`.
pub(crate) fn push_chars(v: &mut Vec<char>, s: &Vec<char>)
    ensures
        final(v)@ == old(v)@ + s@,
{
    let mut i: usize = 0;
    let ghost start = v@;
    while i < s.len()
        invariant
            i <= s.len(),
            v@ == start + s@.take(i as int),
        decreases s.len() - i,
    {
        v.push(s[i]);
        i = i + 1;
        assert(v@ =~= start + s@.take(i as int));
    }
    assert(s@.take(i as int) =~= s@);
}

/// Strings joined with `sep` between them.
pub(crate) fn join_strings(v: &Vec<String>, sep: &str) -> (r: Vec<char>)
    ensures
        r@ == join(strings_of(v@), sep@),
{
    let ghost s = strings_of(v@);
    let mut out: Vec<char> = Vec::new();
    let mut i: usize = 0;
    assert(s.take(0) =~= Seq::<Seq<char>>::empty());
    while i < v.len()
        invariant
            s == strings_of(v@),
            i <= v.len(),
            out@ == join(s.take(i as int), sep@),
        decreases v.len() - i,
    {
        let ghost before = out@;
        if i > 0 {
            push_str(&mut out, sep);
        }
        let piece = chars_of_string(&v[i]);
        push_chars(&mut out, &piece);
        assert(s.take(i + 1).drop_last() =~= s.take(i as int));
        assert(s.take(i + 1).last() == v@[i as int]@);
        if i == 0 {
            assert(out@ =~= piece@);
        }
        i = i + 1;
    }
    assert(s.take(i as int) =~= s);
    out
}

impl ArticleBuilder {
    /// Create a new article builder.
    pub fn new() -> (r: Self)
        ensures
            r@ == empty_builder(),
    {
        Self::default()
    }

    /// Set the From header (required).
    ///
    /// Should be in the format "Name <email@example.com>" or just "email@example.com".
    pub fn from(self, from: &str) -> (r: Self)
        ensures
            r@ == (ArticleBuilderV { from: Some(from@), ..self@ }),
    {
        let mut b = self;
        b.from = Some(from.to_owned());
        b
    }

    /// Set the Subject header (required).
    pub fn subject(self, subject: &str) -> (r: Self)
        ensures
            r@ == (ArticleBuilderV { subject: Some(subject@), ..self@ }),
    {
        let mut b = self;
        b.subject = Some(subject.to_owned());
        b
    }

    /// Add a newsgroup to post to (at least one required).
    ///
    /// Can be called multiple times for cross-posting.
    pub fn newsgroup(self, group: &str) -> (r: Self)
        ensures
            r@ == (ArticleBuilderV { newsgroups: self@.newsgroups.push(group@), ..self@ }),
    {
        let mut b = self;
        let ghost before = strings_of(b.newsgroups@);
        b.newsgroups.push(group.to_owned());
        assert(strings_of(b.newsgroups@) =~= before.push(group@));
        b
    }

    /// Add multiple newsgroups at once.
    pub fn newsgroups(self, groups: Vec<&str>) -> (r: Self)
        ensures
            r@ == (ArticleBuilderV {
                newsgroups: self@.newsgroups + groups@.map_values(|g: &str| g@),
                ..self@
            }),
    {
        let mut b = self;
        let ghost start = strings_of(b.newsgroups@);
        let ghost gs = groups@.map_values(|g: &str| g@);
        let mut i: usize = 0;
        while i < groups.len()
            invariant
                i <= groups.len(),
                gs == groups@.map_values(|g: &str| g@),
                strings_of(b.newsgroups@) == start + gs.take(i as int),
                b@.from == self@.from,
                b@.subject == self@.subject,
                b@.body == self@.body,
                b@.references == self@.references,
                b@.in_reply_to == self@.in_reply_to,
                b@.headers == self@.headers,
            decreases groups.len() - i,
        {
            let ghost before = strings_of(b.newsgroups@);
            b.newsgroups.push(groups[i].to_owned());
            assert(strings_of(b.newsgroups@) =~= before.push(gs[i as int]));
            i = i + 1;
            assert(start + gs.take(i as int) =~= before.push(gs[i - 1]));
        }
        assert(gs.take(i as int) =~= gs);
        b
    }

    /// Set the article body (required).
    pub fn body(self, body: &str) -> (r: Self)
        ensures
            r@ == (ArticleBuilderV { body: Some(body@), ..self@ }),
    {
        let mut b = self;
        b.body = Some(body.to_owned());
        b
    }

    /// Set this article as a reply to another article.
    ///
    /// Sets the References header to the parent's references followed by
    /// the parent's Message-ID, and In-Reply-To to the parent's Message-ID;
    /// a subject already set gets a "Re: " prefix unless it starts with
    /// "re:" in any case.
    pub fn in_reply_to(self, article: &ThreadedArticleRef) -> (r: Self)
        ensures
            r@ == (ArticleBuilderV {
                references: article@.references.push(article@.message_id),
                in_reply_to: Some(article@.message_id),
                subject: match self@.subject {
                    Some(s) => Some(reply_subject(s)),
                    None => None,
                },
                ..self@
            }),
    {
        let mut b = self;
        let mut refs = clone_strings(&article.references);
        let ghost before = strings_of(refs@);
        refs.push(article.message_id.clone());
        assert(strings_of(refs@) =~= before.push(article@.message_id));
        b.references = refs;
        b.in_reply_to = Some(article.message_id.clone());
        let new_subject = match &b.subject {
            Some(s) => {
                let v = chars_of_string(s);
                let mut re: Vec<char> = Vec::new();
                re.push('r');
                re.push('e');
                re.push(':');
                assert(re@ =~= seq!['r', 'e', ':']);
                if starts_ci(&v, &re) {
                    Some(s.clone())
                } else {
                    let mut t = chars_of("Re: ");
                    push_chars(&mut t, &v);
                    Some(string_from_chars(t))
                }
            },
            None => None,
        };
        b.subject = new_subject;
        b
    }

    /// Set this article as a reply, using just a Message-ID.
    ///
    /// Use `in_reply_to` with a `ThreadedArticleRef` when possible,
    /// as it properly builds the complete References chain.
    pub fn in_reply_to_message_id(self, message_id: &str) -> (r: Self)
        ensures
            r@ == (ArticleBuilderV {
                references: self@.references.push(message_id@),
                in_reply_to: Some(message_id@),
                ..self@
            }),
    {
        let mut b = self;
        let ghost before = strings_of(b.references@);
        b.references.push(message_id.to_owned());
        assert(strings_of(b.references@) =~= before.push(message_id@));
        b.in_reply_to = Some(message_id.to_owned());
        b
    }

    /// Add a custom header.
    pub fn header(self, name: &str, value: &str) -> (r: Self)
        ensures
            r@ == (ArticleBuilderV { headers: self@.headers.push((name@, value@)), ..self@ }),
    {
        let mut b = self;
        let ghost before = pairs_view(b.additional_headers@);
        b.additional_headers.push((name.to_owned(), value.to_owned()));
        assert(pairs_view(b.additional_headers@) =~= before.push((name@, value@)));
        b
    }

    /// Build the article as a formatted string ready for posting.
    ///
    /// Returns an error if required fields (from, subject, newsgroups, body) are missing.
    pub fn build(self) -> (r: Result<String>)
        ensures
            rv(r) == built_article(self@),
    {
        let ghost bv = self@;
        let from = match &self.from {
            Some(f) => f,
            None => {
                return Err(Error::ArticleBuilder("From header is required".to_owned()));
            },
        };
        let subject = match &self.subject {
            Some(s) => s,
            None => {
                return Err(Error::ArticleBuilder("Subject header is required".to_owned()));
            },
        };
        if self.newsgroups.len() == 0 {
            return Err(Error::ArticleBuilder("At least one newsgroup is required".to_owned()));
        }
        let body = match &self.body {
            Some(b) => b,
            None => {
                return Err(Error::ArticleBuilder("Body is required".to_owned()));
            },
        };
        let mut a: Vec<char> = Vec::new();
        push_str(&mut a, "From: ");
        push_line(&mut a, &chars_of_string(from));
        push_str(&mut a, "Subject: ");
        push_line(&mut a, &chars_of_string(subject));
        push_str(&mut a, "Newsgroups: ");
        push_line(&mut a, &join_strings(&self.newsgroups, ","));
        let ghost h3 = a@;
        if self.references.len() > 0 {
            push_str(&mut a, "References: ");
            push_line(&mut a, &join_strings(&self.references, " "));
        }
        let ghost h4 = a@;
        match &self.in_reply_to {
            Some(x) => {
                push_str(&mut a, "In-Reply-To: ");
                push_line(&mut a, &chars_of_string(x));
            },
            None => {},
        }
        let ghost h5 = a@;
        let ghost hs = pairs_view(self.additional_headers@);
        let mut i: usize = 0;
        assert(hs.take(0) =~= Seq::<(Seq<char>, Seq<char>)>::empty());
        assert(h5 + custom_header_lines(hs.take(0)) =~= h5);
        while i < self.additional_headers.len()
            invariant
                i <= self.additional_headers.len(),
                hs == pairs_view(self.additional_headers@),
                a@ == h5 + custom_header_lines(hs.take(i as int)),
            decreases self.additional_headers.len() - i,
        {
            let (name, value) = &self.additional_headers[i];
            assert(hs[i as int] == (name@, value@));
            push_chars(&mut a, &chars_of_string(name));
            push_str(&mut a, ": ");
            push_line(&mut a, &chars_of_string(value));
            assert(hs.take(i + 1).drop_last() =~= hs.take(i as int));
            i = i + 1;
            assert(a@ =~= h5 + custom_header_lines(hs.take(i as int)));
        }
        assert(hs.take(i as int) =~= hs);
        assert(a@ =~= header_block(from@, subject@, bv));
        push_str(&mut a, "\r\n");
        push_chars(&mut a, &chars_of_string(body));
        let n = a.len();
        if !(n >= 2 && a[n - 2] == '\r' && a[n - 1] == '\n') {
            push_str(&mut a, "\r\n");
        }
        let r = string_from_chars(a);
        assert(built_article(bv) == Ok::<Seq<char>, ErrorV>(r@));
        Ok(r)
    }
}

/// A fully fetched article with its threading context.
///
/// This combines the full `Article` content with `ThreadedArticleRef`
/// metadata for convenient access to both content and threading info.
#[derive(Debug)]
pub struct FetchedArticle {
    /// The underlying Article with full content
    article: Article,
    /// Threading metadata
    pub thread_ref: ThreadedArticleRef,
}

/// An optional string, or the empty string.
pub open spec fn or_empty(o: Option<Seq<char>>) -> Seq<char> {
    match o {
        Some(s) => s,
        None => Seq::empty(),
    }
}

/// The threading metadata read from an article's headers: its Message-ID
/// and number, Subject, From address and Date (empty when absent), and the
/// Message-IDs of its References header, the last being its parent.
pub open spec fn thread_ref_of(number: Option<u64>, message_id: Seq<char>, content: Seq<u8>) -> ArticleRefV {
    let refs = references_of(mail_header_text(content, "References"@));
    ArticleRefV {
        message_id,
        number,
        subject: or_empty(mail_subject(content)),
        from: or_empty(mail_from_address(content)),
        date: or_empty(mail_date_rfc3339(content)),
        parent_id: if refs.len() > 0 {
            Some(refs.last())
        } else {
            None
        },
        references: refs,
        byte_count: None,
        line_count: None,
    }
}

/// An optional string, or an empty one.
fn unwrap_or_empty(o: Option<String>) -> (r: String)
    ensures
        r@ == or_empty(opt_string(o)),
{
    match o {
        Some(s) => s,
        None => String::new(),
    }
}

impl FetchedArticle {
    /// The underlying article.
    pub closed spec fn article_spec(&self) -> Article {
        self.article
    }

    /// The threading metadata.
    pub closed spec fn thread_ref_spec(&self) -> ArticleRefV {
        self.thread_ref@
    }

    /// Create a new FetchedArticle from an Article.
    ///
    /// Extracts threading information from the article headers.
    pub fn new(article: Article) -> (r: Self)
        ensures
            r.article_spec() == article,
            r.thread_ref_spec() == thread_ref_of(
                article.number_spec(),
                article.message_id_spec(),
                article.content_spec(),
            ),
    {
        let message_id = article.article_id().to_owned();
        let refs_header = article.references();
        let references = match &refs_header {
            Some(h) => ThreadedArticleRef::parse_references(Some(h.as_str())),
            None => ThreadedArticleRef::parse_references(None),
        };
        let parent_id = if references.len() > 0 {
            Some(references[references.len() - 1].clone())
        } else {
            None
        };
        let thread_ref = ThreadedArticleRef {
            message_id,
            number: article.number(),
            subject: unwrap_or_empty(article.subject()),
            from: unwrap_or_empty(article.from()),
            date: unwrap_or_empty(article.date()),
            parent_id,
            references,
            byte_count: None,
            line_count: None,
        };
        Self { article, thread_ref }
    }

    /// Create a FetchedArticle with explicit thread reference.
    pub fn with_thread_ref(article: Article, thread_ref: ThreadedArticleRef) -> (r: Self)
        ensures
            r.article_spec() == article,
            r.thread_ref_spec() == thread_ref@,
    {
        Self { article, thread_ref }
    }

    /// Get the underlying Article.
    pub fn article(&self) -> (r: &Article)
        ensures
            *r == self.article_spec(),
    {
        &self.article
    }

    /// Get the body as plain text.
    pub fn body_text(&self) -> (r: Option<String>)
        ensures
            opt_string(r) == mail_body_text(self.article_spec().content_spec()),
    {
        self.article.body_text()
    }

    /// Get the body as HTML if available.
    pub fn body_html(&self) -> (r: Option<String>)
        ensures
            opt_string(r) == mail_body_html(self.article_spec().content_spec()),
    {
        self.article.body_html()
    }

    /// Get attachments from the article.
    pub fn attachments(&self) -> (r: Vec<Attachment>)
        ensures
            attachments_view(r@) == mail_attachments(self.article_spec().content_spec()),
    {
        self.article.attachments()
    }

    /// Get the Message-ID.
    pub fn message_id(&self) -> (r: &str)
        ensures
            r@ == self.thread_ref_spec().message_id,
    {
        self.thread_ref.message_id.as_str()
    }

    /// Get the subject.
    pub fn subject(&self) -> (r: &str)
        ensures
            r@ == self.thread_ref_spec().subject,
    {
        self.thread_ref.subject.as_str()
    }

    /// Get the From header.
    pub fn from(&self) -> (r: &str)
        ensures
            r@ == self.thread_ref_spec().from,
    {
        self.thread_ref.from.as_str()
    }

    /// Get the date.
    pub fn date(&self) -> (r: &str)
        ensures
            r@ == self.thread_ref_spec().date,
    {
        self.thread_ref.date.as_str()
    }

    /// Get the parent Message-ID if this is a reply.
    pub fn parent_id(&self) -> (r: Option<&str>)
        ensures
            crate::response::metadata::opt_str(r) == self.thread_ref_spec().parent_id,
    {
        match &self.thread_ref.parent_id {
            Some(p) => Some(p.as_str()),
            None => None,
        }
    }

    /// Get the references (ancestor Message-IDs).
    pub fn references(&self) -> (r: &[String])
        ensures
            strings_of(r@) == self.thread_ref_spec().references,
    {
        self.thread_ref.references.as_slice()
    }

    /// Check if this article is a reply.
    pub fn is_reply(&self) -> (r: bool)
        ensures
            r == (self.thread_ref_spec().parent_id is Some),
    {
        self.thread_ref.is_reply()
    }

    /// The full MIME message, for advanced parsing.
    pub fn message(&self) -> (r: Option<mail_parser::Message<'_>>)
        ensures
            r is Some <==> mail_part_count(self.article_spec().content_spec()) is Some,
    {
        self.article.message()
    }

    /// Get the raw article content.
    pub fn raw_content(&self) -> (r: &[u8])
        ensures
            r@ == self.article_spec().content_spec(),
    {
        self.article.raw_content()
    }
}

} // verus!
