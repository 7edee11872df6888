//! Newtype wrappers for NNTP response data.
//!
//! Each wrapper dereferences to its inner data; the `TryFrom<Response>`
//! conversions extract it from the matching response variant and give
//! `Error::InvalidResponse` for any other.
//!
//! `TryFromSpecImpl::obeys_try_from_spec` is `false` for these types: the
//! error carries a message `String`, which a specification function cannot
//! build, so `try_from`'s own `ensures` states the conversion instead.

use vstd::prelude::*;
use core::ops::Deref;
use crate::error::{Error, ErrorV};
use crate::text::strings_of;
use super::{Article, HeaderEntry, NewsGroup, OverviewEntry, Response, ResponseV};
use super::lines::{groups_view, headers_view, overviews_view};

verus! {

/// Server capabilities list (CAPABILITIES, 101).
#[derive(Debug, Clone, PartialEq)]
pub struct Capabilities(pub Vec<String>);

impl Deref for Capabilities {
    type Target = Vec<String>;

    fn deref(&self) -> (r: &Vec<String>)
        ensures
            r == &self.0,
    {
        &self.0
    }
}

impl TryFrom<Response> for Capabilities {
    type Error = Error;

    fn try_from(response: Response) -> (r: core::result::Result<Self, Error>)
        ensures
            match response@ {
                ResponseV::Capabilities(c) => r matches Ok(w) && strings_of(w.0@) == c,
                _ => r matches Err(e) && e@ == ErrorV::InvalidResponse("Expected capabilities response"@),
            },
    {
        match response {
            Response::Capabilities(caps) => Ok(Capabilities(caps)),
            _ => Err(Error::InvalidResponse("Expected capabilities response".to_owned())),
        }
    }
}

impl vstd::std_specs::convert::TryFromSpecImpl<Response> for Capabilities {
    open spec fn obeys_try_from_spec() -> bool {
        false
    }

    open spec fn try_from_spec(v: Response) -> core::result::Result<Self, Error> {
        vstd::pervasive::arbitrary()
    }
}

/// Help text from server (HELP, 100).
#[derive(Debug, Clone, PartialEq)]
pub struct HelpText(pub Vec<String>);

impl Deref for HelpText {
    type Target = Vec<String>;

    fn deref(&self) -> (r: &Vec<String>)
        ensures
            r == &self.0,
    {
        &self.0
    }
}

impl TryFrom<Response> for HelpText {
    type Error = Error;

    fn try_from(response: Response) -> (r: core::result::Result<Self, Error>)
        ensures
            match response@ {
                ResponseV::Help(c) => r matches Ok(w) && strings_of(w.0@) == c,
                _ => r matches Err(e) && e@ == ErrorV::InvalidResponse("Expected help response"@),
            },
    {
        match response {
            Response::Help(lines) => Ok(HelpText(lines)),
            _ => Err(Error::InvalidResponse("Expected help response".to_owned())),
        }
    }
}

impl vstd::std_specs::convert::TryFromSpecImpl<Response> for HelpText {
    open spec fn obeys_try_from_spec() -> bool {
        false
    }

    open spec fn try_from_spec(v: Response) -> core::result::Result<Self, Error> {
        vstd::pervasive::arbitrary()
    }
}

/// List of newsgroups (LIST, NEWGROUPS; 215/231).
#[derive(Debug, Clone, PartialEq)]
pub struct NewsgroupList(pub Vec<NewsGroup>);

impl Deref for NewsgroupList {
    type Target = Vec<NewsGroup>;

    fn deref(&self) -> (r: &Vec<NewsGroup>)
        ensures
            r == &self.0,
    {
        &self.0
    }
}

impl TryFrom<Response> for NewsgroupList {
    type Error = Error;

    fn try_from(response: Response) -> (r: core::result::Result<Self, Error>)
        ensures
            match response@ {
                ResponseV::NewsgroupList(g) => r matches Ok(w) && groups_view(w.0@) == g,
                ResponseV::NewNewsgroups(g) => r matches Ok(w) && groups_view(w.0@) == g,
                _ => r matches Err(e) && e@ == ErrorV::InvalidResponse("Expected newsgroup list response"@),
            },
    {
        match response {
            Response::NewsgroupList(groups) => Ok(NewsgroupList(groups)),
            Response::NewNewsgroups(groups) => Ok(NewsgroupList(groups)),
            _ => Err(Error::InvalidResponse("Expected newsgroup list response".to_owned())),
        }
    }
}

impl vstd::std_specs::convert::TryFromSpecImpl<Response> for NewsgroupList {
    open spec fn obeys_try_from_spec() -> bool {
        false
    }

    open spec fn try_from_spec(v: Response) -> core::result::Result<Self, Error> {
        vstd::pervasive::arbitrary()
    }
}

/// List of message IDs (NEWNEWS, 230).
#[derive(Debug, Clone, PartialEq)]
pub struct MessageIdList(pub Vec<String>);

impl Deref for MessageIdList {
    type Target = Vec<String>;

    fn deref(&self) -> (r: &Vec<String>)
        ensures
            r == &self.0,
    {
        &self.0
    }
}

impl TryFrom<Response> for MessageIdList {
    type Error = Error;

    fn try_from(response: Response) -> (r: core::result::Result<Self, Error>)
        ensures
            match response@ {
                ResponseV::NewArticles(c) => r matches Ok(w) && strings_of(w.0@) == c,
                _ => r matches Err(e) && e@ == ErrorV::InvalidResponse("Expected new articles response"@),
            },
    {
        match response {
            Response::NewArticles(ids) => Ok(MessageIdList(ids)),
            _ => Err(Error::InvalidResponse("Expected new articles response".to_owned())),
        }
    }
}

impl vstd::std_specs::convert::TryFromSpecImpl<Response> for MessageIdList {
    open spec fn obeys_try_from_spec() -> bool {
        false
    }

    open spec fn try_from_spec(v: Response) -> core::result::Result<Self, Error> {
        vstd::pervasive::arbitrary()
    }
}

/// List of article numbers (LISTGROUP, 211).
#[derive(Debug, Clone, PartialEq)]
pub struct ArticleNumbers(pub Vec<u64>);

impl Deref for ArticleNumbers {
    type Target = Vec<u64>;

    fn deref(&self) -> (r: &Vec<u64>)
        ensures
            r == &self.0,
    {
        &self.0
    }
}

impl TryFrom<Response> for ArticleNumbers {
    type Error = Error;

    fn try_from(response: Response) -> (r: core::result::Result<Self, Error>)
        ensures
            match response@ {
                ResponseV::ArticleListing(c) => r matches Ok(w) && w.0@ == c,
                _ => r matches Err(e) && e@ == ErrorV::InvalidResponse("Expected article listing response"@),
            },
    {
        match response {
            Response::ArticleListing(numbers) => Ok(ArticleNumbers(numbers)),
            _ => Err(Error::InvalidResponse("Expected article listing response".to_owned())),
        }
    }
}

impl vstd::std_specs::convert::TryFromSpecImpl<Response> for ArticleNumbers {
    open spec fn obeys_try_from_spec() -> bool {
        false
    }

    open spec fn try_from_spec(v: Response) -> core::result::Result<Self, Error> {
        vstd::pervasive::arbitrary()
    }
}

/// Newsgroup statistics (count, first, last) from GROUP (211).
#[derive(Debug, Clone, Copy, PartialEq)]
pub struct GroupStats {
    /// Estimated number of articles in the group.
    pub count: u64,
    /// First (lowest) article number in the group.
    pub first: u64,
    /// Last (highest) article number in the group.
    pub last: u64,
}

impl TryFrom<Response> for GroupStats {
    type Error = Error;

    fn try_from(response: Response) -> (r: core::result::Result<Self, Error>)
        ensures
            match response@ {
                ResponseV::GroupSelected { count, first, last, .. } => r == Ok::<GroupStats, Error>(GroupStats { count, first, last }),
                _ => r matches Err(e) && e@ == ErrorV::InvalidResponse("Expected group selected response"@),
            },
    {
        match response {
            Response::GroupSelected { count, first, last, .. } => Ok(GroupStats { count, first, last }),
            _ => Err(Error::InvalidResponse("Expected group selected response".to_owned())),
        }
    }
}

impl vstd::std_specs::convert::TryFromSpecImpl<Response> for GroupStats {
    open spec fn obeys_try_from_spec() -> bool {
        false
    }

    open spec fn try_from_spec(v: Response) -> core::result::Result<Self, Error> {
        vstd::pervasive::arbitrary()
    }
}

/// Posting status (true = allowed), from MODE READER (200/201).
#[derive(Debug, Clone, Copy, PartialEq)]
pub struct PostingStatus(pub bool);

impl Deref for PostingStatus {
    type Target = bool;

    fn deref(&self) -> (r: &bool)
        ensures
            r == &self.0,
    {
        &self.0
    }
}

impl TryFrom<Response> for PostingStatus {
    type Error = Error;

    fn try_from(response: Response) -> (r: core::result::Result<Self, Error>)
        ensures
            match response@ {
                ResponseV::ModeReader { posting_allowed } => r == Ok::<PostingStatus, Error>(PostingStatus(posting_allowed)),
                _ => r matches Err(e) && e@ == ErrorV::InvalidResponse("Expected mode reader response"@),
            },
    {
        match response {
            Response::ModeReader { posting_allowed } => Ok(PostingStatus(posting_allowed)),
            _ => Err(Error::InvalidResponse("Expected mode reader response".to_owned())),
        }
    }
}

impl vstd::std_specs::convert::TryFromSpecImpl<Response> for PostingStatus {
    open spec fn obeys_try_from_spec() -> bool {
        false
    }

    open spec fn try_from_spec(v: Response) -> core::result::Result<Self, Error> {
        vstd::pervasive::arbitrary()
    }
}

/// Server date/time string (DATE, 111).
#[derive(Debug, Clone, PartialEq)]
pub struct ServerDate(pub String);

impl Deref for ServerDate {
    type Target = String;

    fn deref(&self) -> (r: &String)
        ensures
            r == &self.0,
    {
        &self.0
    }
}

impl TryFrom<Response> for ServerDate {
    type Error = Error;

    fn try_from(response: Response) -> (r: core::result::Result<Self, Error>)
        ensures
            match response@ {
                ResponseV::Date(d) => r matches Ok(w) && w.0@ == d,
                _ => r matches Err(e) && e@ == ErrorV::InvalidResponse("Expected date response"@),
            },
    {
        match response {
            Response::Date(date) => Ok(ServerDate(date)),
            _ => Err(Error::InvalidResponse("Expected date response".to_owned())),
        }
    }
}

impl vstd::std_specs::convert::TryFromSpecImpl<Response> for ServerDate {
    open spec fn obeys_try_from_spec() -> bool {
        false
    }

    open spec fn try_from_spec(v: Response) -> core::result::Result<Self, Error> {
        vstd::pervasive::arbitrary()
    }
}

/// Article pointer information (number and message ID), from STAT, NEXT or LAST (223).
#[derive(Debug, Clone, PartialEq)]
pub struct ArticlePointer {
    /// Article number within the current group.
    pub number: u64,
    /// Message ID (globally unique identifier).
    pub message_id: String,
}

impl TryFrom<Response> for ArticlePointer {
    type Error = Error;

    fn try_from(response: Response) -> (r: core::result::Result<Self, Error>)
        ensures
            match response@ {
                ResponseV::ArticleStatus { number, message_id } => r matches Ok(w) && w.number == number && w.message_id@ == message_id,
                _ => r matches Err(e) && e@ == ErrorV::InvalidResponse("Expected article status response"@),
            },
    {
        match response {
            Response::ArticleStatus { number, message_id } => Ok(ArticlePointer { number, message_id }),
            _ => Err(Error::InvalidResponse("Expected article status response".to_owned())),
        }
    }
}

impl vstd::std_specs::convert::TryFromSpecImpl<Response> for ArticlePointer {
    open spec fn obeys_try_from_spec() -> bool {
        false
    }

    open spec fn try_from_spec(v: Response) -> core::result::Result<Self, Error> {
        vstd::pervasive::arbitrary()
    }
}

/// Header data entries (HDR, 225).
#[derive(Debug, Clone, PartialEq)]
pub struct HeaderData(pub Vec<HeaderEntry>);

impl Deref for HeaderData {
    type Target = Vec<HeaderEntry>;

    fn deref(&self) -> (r: &Vec<HeaderEntry>)
        ensures
            r == &self.0,
    {
        &self.0
    }
}

impl TryFrom<Response> for HeaderData {
    type Error = Error;

    fn try_from(response: Response) -> (r: core::result::Result<Self, Error>)
        ensures
            match response@ {
                ResponseV::HeaderData(h) => r matches Ok(w) && headers_view(w.0@) == h,
                _ => r matches Err(e) && e@ == ErrorV::InvalidResponse("Expected header data response"@),
            },
    {
        match response {
            Response::HeaderData(entries) => Ok(HeaderData(entries)),
            _ => Err(Error::InvalidResponse("Expected header data response".to_owned())),
        }
    }
}

impl vstd::std_specs::convert::TryFromSpecImpl<Response> for HeaderData {
    open spec fn obeys_try_from_spec() -> bool {
        false
    }

    open spec fn try_from_spec(v: Response) -> core::result::Result<Self, Error> {
        vstd::pervasive::arbitrary()
    }
}

/// Overview data entries (OVER, 224).
#[derive(Debug, Clone, PartialEq)]
pub struct OverviewData(pub Vec<OverviewEntry>);

impl Deref for OverviewData {
    type Target = Vec<OverviewEntry>;

    fn deref(&self) -> (r: &Vec<OverviewEntry>)
        ensures
            r == &self.0,
    {
        &self.0
    }
}

impl TryFrom<Response> for OverviewData {
    type Error = Error;

    fn try_from(response: Response) -> (r: core::result::Result<Self, Error>)
        ensures
            match response@ {
                ResponseV::OverviewData(o) => r matches Ok(w) && overviews_view(w.0@) == o,
                _ => r matches Err(e) && e@ == ErrorV::InvalidResponse("Expected overview data response"@),
            },
    {
        match response {
            Response::OverviewData(entries) => Ok(OverviewData(entries)),
            _ => Err(Error::InvalidResponse("Expected overview data response".to_owned())),
        }
    }
}

impl vstd::std_specs::convert::TryFromSpecImpl<Response> for OverviewData {
    open spec fn obeys_try_from_spec() -> bool {
        false
    }

    open spec fn try_from_spec(v: Response) -> core::result::Result<Self, Error> {
        vstd::pervasive::arbitrary()
    }
}

/// Overview format field names (LIST OVERVIEW.FMT, 215).
#[derive(Debug, Clone, PartialEq)]
pub struct OverviewFormat(pub Vec<String>);

impl Deref for OverviewFormat {
    type Target = Vec<String>;

    fn deref(&self) -> (r: &Vec<String>)
        ensures
            r == &self.0,
    {
        &self.0
    }
}

impl TryFrom<Response> for OverviewFormat {
    type Error = Error;

    fn try_from(response: Response) -> (r: core::result::Result<Self, Error>)
        ensures
            match response@ {
                ResponseV::OverviewFormat(c) => r matches Ok(w) && strings_of(w.0@) == c,
                _ => r matches Err(e) && e@ == ErrorV::InvalidResponse("Expected overview format response"@),
            },
    {
        match response {
            Response::OverviewFormat(fields) => Ok(OverviewFormat(fields)),
            _ => Err(Error::InvalidResponse("Expected overview format response".to_owned())),
        }
    }
}

impl vstd::std_specs::convert::TryFromSpecImpl<Response> for OverviewFormat {
    open spec fn obeys_try_from_spec() -> bool {
        false
    }

    open spec fn try_from_spec(v: Response) -> core::result::Result<Self, Error> {
        vstd::pervasive::arbitrary()
    }
}

/// Newsgroup creation time entry (LIST ACTIVE.TIMES): `groupname timestamp creator`.
#[derive(Debug, Clone, PartialEq)]
pub struct ActiveTimeEntry {
    /// Newsgroup name.
    pub name: String,
    /// Unix timestamp when the group was created.
    pub timestamp: u64,
    /// Email address or identifier of the creator.
    pub creator: String,
}

/// Distribution pattern entry (LIST DISTRIB.PATS): `weight:wildmat:distribution`.
#[derive(Debug, Clone, PartialEq)]
pub struct DistribPat {
    /// Weight for pattern priority (higher = more specific).
    pub weight: u32,
    /// Wildcard pattern matching newsgroup names.
    pub wildmat: String,
    /// Default distribution value.
    pub distribution: String,
}

/// Newsgroup counts entry (LIST COUNTS): `groupname count low high status`.
#[derive(Debug, Clone, PartialEq)]
pub struct CountsEntry {
    /// Newsgroup name.
    pub name: String,
    /// Estimated number of articles in the group.
    pub count: u64,
    /// Lowest article number in the group.
    pub low: u64,
    /// Highest article number in the group.
    pub high: u64,
    /// Posting status ('y' = posting allowed, 'n' = no posting, 'm' = moderated).
    pub status: char,
}

/// Moderator pattern entry (LIST MODERATORS): `wildmat:template`.
#[derive(Debug, Clone, PartialEq)]
pub struct ModeratorEntry {
    /// Wildcard pattern matching newsgroup names.
    pub wildmat: String,
    /// Email template (%s is replaced with group name components).
    pub template: String,
}

/// Distribution entry (LIST DISTRIBUTIONS): `distribution description`.
#[derive(Debug, Clone, PartialEq)]
pub struct DistributionEntry {
    /// Distribution value.
    pub name: String,
    /// Human-readable description.
    pub description: String,
}

/// Newsgroup description entry (LIST NEWSGROUPS): `groupname description`.
#[derive(Debug, Clone, PartialEq)]
pub struct NewsgroupDesc {
    /// Newsgroup name.
    pub name: String,
    /// Human-readable description.
    pub description: String,
}

/// List of newsgroup creation times.
#[derive(Debug, Clone, PartialEq)]
pub struct ActiveTimesList(pub Vec<ActiveTimeEntry>);

impl Deref for ActiveTimesList {
    type Target = Vec<ActiveTimeEntry>;

    fn deref(&self) -> (r: &Vec<ActiveTimeEntry>)
        ensures
            r == &self.0,
    {
        &self.0
    }
}

/// List of distribution patterns.
#[derive(Debug, Clone, PartialEq)]
pub struct DistribPatsList(pub Vec<DistribPat>);

impl Deref for DistribPatsList {
    type Target = Vec<DistribPat>;

    fn deref(&self) -> (r: &Vec<DistribPat>)
        ensures
            r == &self.0,
    {
        &self.0
    }
}

/// List of header fields available for HDR (LIST HEADERS).
#[derive(Debug, Clone, PartialEq)]
pub struct HeadersList(pub Vec<String>);

impl Deref for HeadersList {
    type Target = Vec<String>;

    fn deref(&self) -> (r: &Vec<String>)
        ensures
            r == &self.0,
    {
        &self.0
    }
}

/// List of newsgroup counts.
#[derive(Debug, Clone, PartialEq)]
pub struct CountsList(pub Vec<CountsEntry>);

impl Deref for CountsList {
    type Target = Vec<CountsEntry>;

    fn deref(&self) -> (r: &Vec<CountsEntry>)
        ensures
            r == &self.0,
    {
        &self.0
    }
}

/// List of moderator patterns.
#[derive(Debug, Clone, PartialEq)]
pub struct ModeratorsList(pub Vec<ModeratorEntry>);

impl Deref for ModeratorsList {
    type Target = Vec<ModeratorEntry>;

    fn deref(&self) -> (r: &Vec<ModeratorEntry>)
        ensures
            r == &self.0,
    {
        &self.0
    }
}

/// List of valid distributions.
#[derive(Debug, Clone, PartialEq)]
pub struct DistributionsList(pub Vec<DistributionEntry>);

impl Deref for DistributionsList {
    type Target = Vec<DistributionEntry>;

    fn deref(&self) -> (r: &Vec<DistributionEntry>)
        ensures
            r == &self.0,
    {
        &self.0
    }
}

/// List of newsgroup descriptions.
#[derive(Debug, Clone, PartialEq)]
pub struct NewsgroupDescList(pub Vec<NewsgroupDesc>);

impl Deref for NewsgroupDescList {
    type Target = Vec<NewsgroupDesc>;

    fn deref(&self) -> (r: &Vec<NewsgroupDesc>)
        ensures
            r == &self.0,
    {
        &self.0
    }
}

impl TryFrom<Response> for Article {
    type Error = Error;

    fn try_from(response: Response) -> (r: core::result::Result<Self, Error>)
        ensures
            match response@ {
                ResponseV::Article { number, message_id, content } => r matches Ok(a) && a.number_spec() == number && a.message_id_spec() == message_id && a.content_spec() == content,
                _ => r matches Err(e) && e@ == ErrorV::InvalidResponse("Expected article response"@),
            },
    {
        match response {
            Response::Article { number, message_id, content } => Ok(Article::new(number, message_id, content)),
            _ => Err(Error::InvalidResponse("Expected article response".to_owned())),
        }
    }
}

impl vstd::std_specs::convert::TryFromSpecImpl<Response> for Article {
    open spec fn obeys_try_from_spec() -> bool {
        false
    }

    open spec fn try_from_spec(v: Response) -> core::result::Result<Self, Error> {
        vstd::pervasive::arbitrary()
    }
}

} // verus!
