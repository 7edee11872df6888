//! Incremental thread building for efficient handling of large groups.
//!
//! `IncrementalThreadBuilder` is a mutable builder that collects articles as
//! they are fetched and keeps track of the parents that are referenced but
//! not present (so that they can be fetched), and of those found to be
//! unavailable.

use vstd::prelude::*;
use crate::response::OverviewEntry;
use crate::response::metadata::number_at;
use crate::text::{chars_le, chars_of, str_eq, str_le, strings_of, lemma_str_le_total, lemma_str_le_trans};
use super::algorithm::{arts_view, build_threads, contains_id, copy_articles, has_id, thread_forest};
use super::builder::FetchedArticle;
use super::types::{ArticleRefV, ThreadCollection, ThreadedArticleRef, article_from_overview, strs_view};

verus! {

broadcast use vstd::seq_lib::group_seq_properties;

/// A mutable builder for incrementally constructing thread trees.
///
/// This builder maintains an internal collection of articles (one per
/// Message-ID) and can add new articles as they are fetched. It tracks which
/// parent articles are missing (placeholders) so they can be fetched on
/// demand.
#[derive(Debug, Clone)]
pub struct IncrementalThreadBuilder {
    /// The newsgroup name
    group: String,
    /// The articles, one per Message-ID
    articles: Vec<ThreadedArticleRef>,
    /// Message-IDs that are referenced but not present
    missing_parents: Vec<String>,
    /// Message-IDs that we tried to fetch but weren't available
    unavailable: Vec<String>,
    /// Article number ranges that have been fetched
    fetched_ranges: Vec<(u64, u64)>,
}

/// What an incremental builder holds.
pub struct IncrementalV {
    pub group: Seq<char>,
    /// The articles, one per Message-ID
    pub articles: Seq<ArticleRefV>,
    /// The parents tracked as missing
    pub missing: Set<Seq<char>>,
    /// The Message-IDs marked unavailable
    pub unavailable: Set<Seq<char>>,
    /// The article number ranges fetched
    pub ranges: Seq<(u64, u64)>,
}

impl View for IncrementalThreadBuilder {
    type V = IncrementalV;

    closed spec fn view(&self) -> IncrementalV {
        IncrementalV {
            group: self.group@,
            articles: arts_view(self.articles@),
            missing: strings_of(self.missing_parents@).to_set(),
            unavailable: strings_of(self.unavailable@).to_set(),
            ranges: self.fetched_ranges@,
        }
    }
}

/// No two articles share a Message-ID.
pub open spec fn ids_unique(s: Seq<ArticleRefV>) -> bool {
    forall|i: int, j: int| 0 <= i < j < s.len() ==> #[trigger] s[i].message_id != #[trigger] s[j].message_id
}

/// The index of the article with Message-ID `id`, or -1.
pub open spec fn id_index(s: Seq<ArticleRefV>, id: Seq<char>) -> int
    decreases s.len(),
{
    if s.len() == 0 {
        -1
    } else if s.last().message_id == id {
        s.len() - 1
    } else {
        id_index(s.drop_last(), id)
    }
}

/// `id_index` finds the article if there is one.
pub proof fn lemma_id_index(s: Seq<ArticleRefV>, id: Seq<char>)
    ensures
        -1 <= id_index(s, id) < s.len(),
        id_index(s, id) >= 0 <==> has_id(s, id),
        id_index(s, id) >= 0 ==> s[id_index(s, id)].message_id == id,
        ids_unique(s) ==> forall|i: int| 0 <= i < s.len() && #[trigger] s[i].message_id == id ==> i == id_index(s, id),
    decreases s.len(),
{
    if s.len() > 0 {
        let p = s.drop_last();
        lemma_id_index(p, id);
        if has_id(p, id) {
            let i = choose|i: int| 0 <= i < p.len() && p[i].message_id == id;
            assert(s[i].message_id == id);
        }
        if has_id(s, id) && s.last().message_id != id {
            let i = choose|i: int| 0 <= i < s.len() && s[i].message_id == id;
            assert(p[i].message_id == id);
        }
        if ids_unique(s) {
            assert(ids_unique(p)) by {
                assert forall|i: int, j: int| 0 <= i < j < p.len() implies #[trigger] p[i].message_id != #[trigger] p[j].message_id by {
                    assert(s[i] == p[i] && s[j] == p[j]);
                }
            }
            assert forall|i: int| 0 <= i < s.len() && #[trigger] s[i].message_id == id implies i == id_index(s, id) by {
                if i < s.len() - 1 {
                    assert(p[i].message_id == id);
                    if s.last().message_id == id {
                        assert(s[i].message_id != s[s.len() - 1].message_id);
                    }
                }
            }
        }
    }
}

/// The articles with `a` added: it replaces the article with its Message-ID,
/// in place, or comes last.
pub open spec fn upsert(s: Seq<ArticleRefV>, a: ArticleRefV) -> Seq<ArticleRefV> {
    let i = id_index(s, a.message_id);
    if i >= 0 {
        s.update(i, a)
    } else {
        s.push(a)
    }
}

/// The builder once article `a` has been added: its Message-ID is no longer
/// missing; its parent becomes missing when it is neither among the
/// articles nor unavailable.
pub open spec fn with_article(v: IncrementalV, a: ArticleRefV) -> IncrementalV {
    let m = v.missing.remove(a.message_id);
    IncrementalV {
        articles: upsert(v.articles, a),
        missing: match a.parent_id {
            Some(p) => if !has_id(v.articles, p) && !v.unavailable.contains(p) {
                m.insert(p)
            } else {
                m
            },
            None => m,
        },
        ..v
    }
}

/// The builder once the articles `s` have been added, in order.
pub open spec fn with_articles(v: IncrementalV, s: Seq<ArticleRefV>) -> IncrementalV
    decreases s.len(),
{
    if s.len() == 0 {
        v
    } else {
        with_article(with_articles(v, s.drop_last()), s.last())
    }
}

/// The builder once the overview entries `es` have been added: each entry
/// with the required fields becomes an article.
pub open spec fn with_overview(v: IncrementalV, es: Seq<Seq<Seq<char>>>) -> IncrementalV
    decreases es.len(),
{
    if es.len() == 0 {
        v
    } else {
        let w = with_overview(v, es.drop_last());
        match article_from_overview(es.last()) {
            Some(a) => with_article(w, a),
            None => w,
        }
    }
}

/// Adding overview entries changes only the articles and missing parents.
proof fn lemma_with_overview_fields(v: IncrementalV, es: Seq<Seq<Seq<char>>>)
    ensures
        with_overview(v, es).group == v.group,
        with_overview(v, es).unavailable == v.unavailable,
        with_overview(v, es).ranges == v.ranges,
    decreases es.len(),
{
    if es.len() > 0 {
        lemma_with_overview_fields(v, es.drop_last());
    }
}

/// How many of the overview entries `es` have the required fields.
pub open spec fn usable_entries(es: Seq<Seq<Seq<char>>>) -> nat
    decreases es.len(),
{
    if es.len() == 0 {
        0
    } else {
        usable_entries(es.drop_last()) + if article_from_overview(es.last()) is Some {
            1nat
        } else {
            0nat
        }
    }
}

/// The range of article numbers an OVER batch covered: from its first
/// entry's number to its last's, when both are numbers.
pub open spec fn overview_range(es: Seq<Seq<Seq<char>>>) -> Option<(u64, u64)> {
    if es.len() > 0 && number_at(es[0], 0) is Some && number_at(es.last(), 0) is Some {
        Some((number_at(es[0], 0)->0, number_at(es.last(), 0)->0))
    } else {
        None
    }
}

/// The missing parents as recomputed from the articles: the parents of the
/// articles that are neither among them nor unavailable.
pub open spec fn recomputed_missing(v: IncrementalV) -> Set<Seq<char>> {
    Set::new(
        |p: Seq<char>|
            exists|i: int|
                0 <= i < v.articles.len() && #[trigger] v.articles[i].parent_id == Some(p) && !has_id(
                    v.articles,
                    p,
                ) && !v.unavailable.contains(p),
    )
}

/// Whether an article's parent, if it has one, is among the articles,
/// unavailable, or missing.
pub open spec fn parent_tracked(v: IncrementalV, a: ArticleRefV) -> bool {
    match a.parent_id {
        Some(p) => has_id(v.articles, p) || v.unavailable.contains(p) || v.missing.contains(p),
        None => true,
    }
}

/// The tracking a builder keeps: nothing is both missing and unavailable;
/// every article's parent is among the articles, unavailable, or missing;
/// and a Message-ID both missing and present is that of an article naming
/// itself as its parent.
pub open spec fn tracking_consistent(v: IncrementalV) -> bool {
    &&& forall|x: Seq<char>| !(v.missing.contains(x) && v.unavailable.contains(x))
    &&& forall|i: int| 0 <= i < v.articles.len() ==> parent_tracked(v, #[trigger] v.articles[i])
    &&& forall|i: int|
        0 <= i < v.articles.len() && v.missing.contains(#[trigger] v.articles[i].message_id)
            ==> v.articles[i].parent_id == Some(v.articles[i].message_id)
}

/// Whether article numbers lie in one of the ranges.
pub open spec fn in_ranges(ranges: Seq<(u64, u64)>, n: u64) -> bool {
    exists|i: int| 0 <= i < ranges.len() && #[trigger] ranges[i].0 <= n && n <= ranges[i].1
}

/// A number counts as fetched exactly when one of the recorded ranges holds
/// it, whichever range that is; recording one more range marks every
/// number in it as fetched and keeps those fetched before.
pub proof fn lemma_in_ranges(ranges: Seq<(u64, u64)>, range: (u64, u64), n: u64)
    ensures
        forall|i: int| 0 <= i < ranges.len() && #[trigger] ranges[i].0 <= n && n <= ranges[i].1
            ==> in_ranges(ranges, n),
        in_ranges(ranges, n) ==> exists|i: int|
            0 <= i < ranges.len() && #[trigger] ranges[i].0 <= n && n <= ranges[i].1,
        range.0 <= n <= range.1 ==> in_ranges(ranges.push(range), n),
        in_ranges(ranges, n) ==> in_ranges(ranges.push(range), n),
{
    let r2 = ranges.push(range);
    if range.0 <= n <= range.1 {
        assert(r2[ranges.len() as int] == range);
    }
    if in_ranges(ranges, n) {
        let i = choose|i: int| 0 <= i < ranges.len() && #[trigger] ranges[i].0 <= n && n <= ranges[i].1;
        assert(r2[i] == ranges[i]);
    }
}

/// Upserting keeps Message-IDs unique and gives the articles with that
/// Message-ID replaced by (or joined by) the new one.
proof fn lemma_upsert(s: Seq<ArticleRefV>, a: ArticleRefV)
    requires
        ids_unique(s),
    ensures
        ids_unique(upsert(s, a)),
        forall|x: Seq<char>| #[trigger] has_id(upsert(s, a), x) <==> (has_id(s, x) || x == a.message_id),
        forall|i: int|
            0 <= i < upsert(s, a).len() ==> (#[trigger] upsert(s, a)[i] == a || (upsert(s, a)[i].message_id
                != a.message_id && s.contains(upsert(s, a)[i]))),
        forall|i: int| 0 <= i < s.len() && s[i].message_id != a.message_id ==> upsert(s, a).contains(#[trigger] s[i]),
{
    lemma_id_index(s, a.message_id);
    let u = upsert(s, a);
    let k = id_index(s, a.message_id);
    assert forall|i: int, j: int| 0 <= i < j < u.len() implies #[trigger] u[i].message_id != #[trigger] u[j].message_id by {
        if k >= 0 {
            if i != k && j != k {
                assert(u[i] == s[i] && u[j] == s[j]);
            } else if i == k {
                assert(u[j] == s[j]);
                assert(s[j].message_id != s[k].message_id);
            } else {
                assert(u[i] == s[i]);
                assert(s[i].message_id != s[k].message_id);
            }
        } else {
            if j == s.len() {
                assert(u[i] == s[i]);
                assert(s[i].message_id != a.message_id);
            } else {
                assert(u[i] == s[i] && u[j] == s[j]);
            }
        }
    }
    assert forall|x: Seq<char>| #[trigger] has_id(u, x) <==> (has_id(s, x) || x == a.message_id) by {
        if has_id(u, x) {
            let i = choose|i: int| 0 <= i < u.len() && u[i].message_id == x;
            if !(k >= 0 && i == k) && !(k < 0 && i == s.len()) {
                assert(s[i].message_id == x);
            }
        }
        if has_id(s, x) {
            let i = choose|i: int| 0 <= i < s.len() && s[i].message_id == x;
            if k >= 0 && i == k {
                assert(u[k].message_id == x);
            } else {
                assert(u[i].message_id == x);
            }
        }
        if x == a.message_id {
            if k >= 0 {
                assert(u[k].message_id == x);
            } else {
                assert(u[s.len() as int].message_id == x);
            }
        }
    }
    assert forall|i: int| 0 <= i < u.len() implies (#[trigger] u[i] == a || (u[i].message_id != a.message_id
        && s.contains(u[i]))) by {
        if u[i] != a {
            assert(u[i] == s[i]);
            if k >= 0 {
                assert(i != k);
            }
        }
    }
    assert forall|i: int| 0 <= i < s.len() && s[i].message_id != a.message_id implies u.contains(#[trigger] s[i]) by {
        assert(u[i] == s[i]);
    }
}

/// Adding an article keeps the tracking consistent.
pub proof fn lemma_with_article_consistent(v: IncrementalV, a: ArticleRefV)
    requires
        ids_unique(v.articles),
        tracking_consistent(v),
    ensures
        ids_unique(with_article(v, a).articles),
        tracking_consistent(with_article(v, a)),
{
    let w = with_article(v, a);
    lemma_upsert(v.articles, a);
    assert forall|i: int| 0 <= i < w.articles.len() implies parent_tracked(w, #[trigger] w.articles[i]) by {
        let b = w.articles[i];
        if let Some(p) = b.parent_id {
            assert(has_id(w.articles, p) <==> (has_id(v.articles, p) || p == a.message_id));
            if b != a {
                let j = choose|j: int| 0 <= j < v.articles.len() && v.articles[j] == b;
                assert(v.articles[j].parent_id == Some(p));
            }
        }
    }
    assert forall|i: int| 0 <= i < w.articles.len() && w.missing.contains(#[trigger] w.articles[i].message_id)
        implies w.articles[i].parent_id == Some(w.articles[i].message_id) by {
        let b = w.articles[i];
        if b != a {
            let j = choose|j: int| 0 <= j < v.articles.len() && v.articles[j] == b;
            assert(v.articles[j].message_id == b.message_id);
            if !v.missing.contains(b.message_id) {
                assert(a.parent_id == Some(b.message_id));
                assert(has_id(v.articles, b.message_id));
            }
        }
    }
}

/// Adding articles in turn keeps the tracking consistent.
pub proof fn lemma_with_articles_consistent(v: IncrementalV, s: Seq<ArticleRefV>)
    requires
        ids_unique(v.articles),
        tracking_consistent(v),
    ensures
        ids_unique(with_articles(v, s).articles),
        tracking_consistent(with_articles(v, s)),
        with_articles(v, s).unavailable == v.unavailable,
    decreases s.len(),
{
    if s.len() > 0 {
        lemma_with_articles_consistent(v, s.drop_last());
        lemma_with_article_consistent(with_articles(v, s.drop_last()), s.last());
    }
}

/// Removing an element of a sequence without duplicates.
proof fn lemma_remove_distinct(s: Seq<Seq<char>>, i: int)
    requires
        s.no_duplicates(),
        0 <= i < s.len(),
    ensures
        s.remove(i).no_duplicates(),
        s.remove(i).to_set() == s.to_set().remove(s[i]),
{
    let t = s.remove(i);
    assert forall|a: int, b: int| 0 <= a < t.len() && 0 <= b < t.len() && a != b implies t[a] != t[b] by {
        let a2 = if a < i { a } else { a + 1 };
        let b2 = if b < i { b } else { b + 1 };
        assert(t[a] == s[a2] && t[b] == s[b2]);
    }
    assert forall|y: Seq<char>| t.to_set().contains(y) <==> s.to_set().remove(s[i]).contains(y) by {
        if t.contains(y) {
            let j = choose|j: int| 0 <= j < t.len() && t[j] == y;
            let j2 = if j < i { j } else { j + 1 };
            assert(s[j2] == y);
            assert(j2 != i);
        }
        if s.contains(y) && y != s[i] {
            let j = choose|j: int| 0 <= j < s.len() && s[j] == y;
            if j < i {
                assert(t[j] == y);
            } else {
                assert(j != i);
                assert(t[j - 1] == y);
            }
        }
    }
    assert(t.to_set() =~= s.to_set().remove(s[i]));
}

/// Adding articles changes only the articles and missing parents.
proof fn lemma_with_articles_fields(v: IncrementalV, s: Seq<ArticleRefV>)
    ensures
        with_articles(v, s).group == v.group,
        with_articles(v, s).unavailable == v.unavailable,
        with_articles(v, s).ranges == v.ranges,
    decreases s.len(),
{
    if s.len() > 0 {
        lemma_with_articles_fields(v, s.drop_last());
    }
}

/// Remove `x` from a vector of distinct strings.
fn remove_string(v: &mut Vec<String>, x: &str)
    requires
        strings_of(old(v)@).no_duplicates(),
    ensures
        strings_of(final(v)@).no_duplicates(),
        strings_of(final(v)@).to_set() == strings_of(old(v)@).to_set().remove(x@),
{
    let ghost s = strings_of(v@);
    let mut i: usize = 0;
    while i < v.len()
        invariant
            s == strings_of(v@),
            s == strings_of(old(v)@),
            s.no_duplicates(),
            i <= v.len(),
            forall|j: int| 0 <= j < i ==> s[j] != x@,
        decreases v.len() - i,
    {
        if str_eq(v[i].as_str(), x) {
            assert(s[i as int] == x@);
            v.remove(i);
            assert(strings_of(v@) =~= s.remove(i as int));
            proof {
                lemma_remove_distinct(s, i as int);
            }
            return;
        }
        i = i + 1;
    }
    assert(s.to_set() =~= s.to_set().remove(x@));
}

/// Add `x` to a vector of distinct strings, if it is not there.
fn insert_string(v: &mut Vec<String>, x: &String)
    requires
        strings_of(old(v)@).no_duplicates(),
    ensures
        strings_of(final(v)@).no_duplicates(),
        strings_of(final(v)@).to_set() == strings_of(old(v)@).to_set().insert(x@),
{
    let ghost s = strings_of(v@);
    let mut i: usize = 0;
    while i < v.len()
        invariant
            s == strings_of(v@),
            s.no_duplicates(),
            i <= v.len(),
            forall|j: int| 0 <= j < i ==> s[j] != x@,
        decreases v.len() - i,
    {
        if v[i] == *x {
            assert(s[i as int] == x@);
            assert(s.to_set() =~= s.to_set().insert(x@));
            return;
        }
        i = i + 1;
    }
    v.push(x.clone());
    assert(strings_of(v@) =~= s.push(x@));
    assert(strings_of(v@).to_set() =~= s.to_set().insert(x@));
    assert(strings_of(v@).no_duplicates()) by {
        let t = strings_of(v@);
        assert forall|a: int, b: int| 0 <= a < t.len() && 0 <= b < t.len() && a != b implies t[a] != t[b] by {
            if a < s.len() && b < s.len() {
                assert(t[a] == s[a] && t[b] == s[b]);
            } else if a < s.len() {
                assert(t[a] == s[a]);
            } else {
                assert(t[b] == s[b]);
            }
        }
    }
}

/// Whether a vector of strings holds `x`.
fn has_string(v: &Vec<String>, x: &String) -> (r: bool)
    ensures
        r == strings_of(v@).to_set().contains(x@),
{
    let ghost s = strings_of(v@);
    let mut i: usize = 0;
    while i < v.len()
        invariant
            s == strings_of(v@),
            i <= v.len(),
            forall|j: int| 0 <= j < i ==> s[j] != x@,
        decreases v.len() - i,
    {
        if v[i] == *x {
            assert(s[i as int] == x@);
            return true;
        }
        i = i + 1;
    }
    false
}

/// The index of the article with Message-ID `id` (see `id_index`).
fn article_index(v: &Vec<ThreadedArticleRef>, id: &String) -> (r: Option<usize>)
    ensures
        match r {
            Some(i) => i < v.len() && i as int == id_index(arts_view(v@), id@),
            None => id_index(arts_view(v@), id@) == -1,
        },
{
    let ghost s = arts_view(v@);
    let mut i: usize = v.len();
    assert(s.take(i as int) =~= s);
    while i > 0
        invariant
            s == arts_view(v@),
            i <= v.len(),
            id_index(s, id@) == id_index(s.take(i as int), id@),
        decreases i,
    {
        assert(s.take(i as int).last() == v@[i - 1]@);
        assert(s.take(i as int).drop_last() =~= s.take(i - 1));
        if v[i - 1].message_id == *id {
            return Some(i - 1);
        }
        i = i - 1;
    }
    None
}

/// Insert `x` into a sorted vector of distinct strings that lacks it.
fn insert_sorted<'a>(v: &mut Vec<&'a str>, x: &'a str)
    requires
        strs_view(old(v)@).no_duplicates(),
        !strs_view(old(v)@).contains(x@),
        forall|i: int, j: int| 0 <= i < j < old(v).len() ==> str_le(#[trigger] strs_view(old(v)@)[i], #[trigger] strs_view(old(v)@)[j]),
    ensures
        strs_view(final(v)@).no_duplicates(),
        strs_view(final(v)@).to_set() == strs_view(old(v)@).to_set().insert(x@),
        forall|i: int, j: int| 0 <= i < j < final(v).len() ==> str_le(#[trigger] strs_view(final(v)@)[i], #[trigger] strs_view(final(v)@)[j]),
{
    let ghost s = strs_view(v@);
    let xc = chars_of(x);
    let mut p: usize = v.len();
    while p > 0 && !chars_le(&chars_of(v[p - 1]), &xc)
        invariant
            s == strs_view(v@),
            p <= v.len(),
            xc@ == x@,
            forall|k: int| p <= k < v.len() ==> !str_le(#[trigger] s[k], x@),
        decreases p,
    {
        assert(s[p - 1] == v@[p - 1]@);
        p = p - 1;
    }
    if p > 0 {
        assert(s[p - 1] == v@[p - 1]@);
    }
    v.insert(p, x);
    let ghost t = strs_view(v@);
    assert(t =~= s.insert(p as int, x@));
    assert forall|i: int, j: int| 0 <= i < j < t.len() implies str_le(#[trigger] t[i], #[trigger] t[j]) by {
        if j < p {
            assert(t[i] == s[i] && t[j] == s[j]);
        } else if j == p {
            assert(t[i] == s[i]);
            if i < p - 1 {
                assert(str_le(s[i], s[p - 1]));
                lemma_str_le_trans(s[i], s[p - 1], x@);
            }
        } else if i == p {
            assert(t[j] == s[j - 1]);
            lemma_str_le_total(x@, s[j - 1]);
        } else if i < p {
            assert(t[i] == s[i] && t[j] == s[j - 1]);
        } else {
            assert(t[i] == s[i - 1] && t[j] == s[j - 1]);
        }
    }
    assert forall|i: int, j: int| 0 <= i < t.len() && 0 <= j < t.len() && i != j implies t[i] != t[j] by {
        if i != p && j != p {
            let i2 = if i < p { i } else { i - 1 };
            let j2 = if j < p { j } else { j - 1 };
            assert(t[i] == s[i2] && t[j] == s[j2]);
        } else if i == p {
            let j2 = if j < p { j } else { j - 1 };
            assert(t[j] == s[j2]);
        } else {
            let i2 = if i < p { i } else { i - 1 };
            assert(t[i] == s[i2]);
        }
    }
    assert(t.to_set() =~= s.to_set().insert(x@)) by {
        assert forall|y: Seq<char>| t.contains(y) <==> s.to_set().insert(x@).contains(y) by {
            if t.contains(y) {
                let j = choose|j: int| 0 <= j < t.len() && t[j] == y;
                if j < p {
                    assert(s[j] == y);
                } else if j > p {
                    assert(s[j - 1] == y);
                }
            }
            if s.contains(y) {
                let j = choose|j: int| 0 <= j < s.len() && s[j] == y;
                if j < p {
                    assert(t[j] == y);
                } else {
                    assert(t[j + 1] == y);
                }
            }
            if y == x@ {
                assert(t[p as int] == y);
            }
        }
    }
}

impl IncrementalThreadBuilder {
    /// The builder's structure: one article per Message-ID, each tracked
    /// Message-ID listed once, and the tracking consistent.
    pub closed spec fn wf(&self) -> bool {
        &&& self.shape_ok()
        &&& tracking_consistent(self@)
    }

    /// One article per Message-ID, and each tracked Message-ID listed once.
    spec fn shape_ok(&self) -> bool {
        &&& ids_unique(arts_view(self.articles@))
        &&& strings_of(self.missing_parents@).no_duplicates()
        &&& strings_of(self.unavailable@).no_duplicates()
    }

    /// A builder's tracking is consistent: no Message-ID is both missing and
    /// unavailable, every article's parent is present, unavailable or
    /// missing, and a missing Message-ID that is present names itself as
    /// its parent.
    pub proof fn lemma_tracking(&self)
        requires
            self.wf(),
        ensures
            tracking_consistent(self@),
            self@.missing.disjoint(self@.unavailable),
    {
        assert(self@.missing.disjoint(self@.unavailable)) by {
            assert forall|x: Seq<char>| !(self@.missing.contains(x) && self@.unavailable.contains(x)) by {}
        }
    }

    /// Create a new builder for the given newsgroup.
    pub fn new(group: &str) -> (r: Self)
        ensures
            r.wf(),
            r@ == (IncrementalV {
                group: group@,
                articles: Seq::empty(),
                missing: Set::empty(),
                unavailable: Set::empty(),
                ranges: Seq::empty(),
            }),
            tracking_consistent(r@),
    {
        let r = Self {
            group: group.to_owned(),
            articles: Vec::new(),
            missing_parents: Vec::new(),
            unavailable: Vec::new(),
            fetched_ranges: Vec::new(),
        };
        assert(r@.articles =~= Seq::<ArticleRefV>::empty());
        assert(r@.missing =~= Set::<Seq<char>>::empty());
        assert(r@.unavailable =~= Set::<Seq<char>>::empty());
        r
    }

    /// Create a new builder with pre-allocated capacity.
    ///
    /// Use this when you know approximately how many articles you'll be processing.
    pub fn with_capacity(group: &str, capacity: usize) -> (r: Self)
        ensures
            r.wf(),
            r@ == (IncrementalV {
                group: group@,
                articles: Seq::empty(),
                missing: Set::empty(),
                unavailable: Set::empty(),
                ranges: Seq::empty(),
            }),
            tracking_consistent(r@),
    {
        let r = Self {
            group: group.to_owned(),
            articles: Vec::with_capacity(capacity),
            missing_parents: Vec::with_capacity(capacity / 4),
            unavailable: Vec::new(),
            fetched_ranges: Vec::new(),
        };
        assert(r@.articles =~= Seq::<ArticleRefV>::empty());
        assert(r@.missing =~= Set::<Seq<char>>::empty());
        assert(r@.unavailable =~= Set::<Seq<char>>::empty());
        r
    }

    /// Get the newsgroup name.
    pub fn group(&self) -> (r: &str)
        ensures
            r@ == self@.group,
    {
        self.group.as_str()
    }

    /// Get the number of articles currently in the builder.
    pub fn article_count(&self) -> (r: usize)
        ensures
            r == self@.articles.len(),
    {
        self.articles.len()
    }

    /// Check if the builder has any articles.
    pub fn is_empty(&self) -> (r: bool)
        ensures
            r == (self@.articles.len() == 0),
    {
        self.articles.len() == 0
    }

    /// Add an article and update the tracking of missing parents.
    fn add_article_internal(&mut self, article: ThreadedArticleRef)
        requires
            old(self).wf(),
        ensures
            final(self).wf(),
            final(self)@ == with_article(old(self)@, article@),
    {
        let ghost v = self@;
        proof {
            lemma_upsert(v.articles, article@);
            lemma_id_index(v.articles, article@.message_id);
        }
        remove_string(&mut self.missing_parents, article.message_id.as_str());
        match &article.parent_id {
            Some(p) => {
                if !contains_id(&self.articles, p) && !has_string(&self.unavailable, p) {
                    insert_string(&mut self.missing_parents, p);
                }
            },
            None => {},
        }
        let ghost s = arts_view(self.articles@);
        let ghost a = article@;
        match article_index(&self.articles, &article.message_id) {
            Some(i) => {
                self.articles.set(i, article);
                assert(arts_view(self.articles@) =~= s.update(i as int, a));
            },
            None => {
                self.articles.push(article);
                assert(arts_view(self.articles@) =~= s.push(a));
            },
        }
    }

    /// Add articles from an OVER (XOVER) response.
    ///
    /// The overview entries that have the required fields become articles.
    /// When the first and last entries carry article numbers, that range is
    /// recorded as fetched.
    ///
    /// Returns the number of articles added.
    pub fn add_from_overview(&mut self, entries: &[OverviewEntry]) -> (r: usize)
        requires
            old(self).wf(),
        ensures
            final(self).wf(),
            r == usable_entries(entries@.map_values(|e: OverviewEntry| e@)),
            final(self)@.articles == with_overview(old(self)@, entries@.map_values(|e: OverviewEntry| e@)).articles,
            final(self)@.missing == with_overview(old(self)@, entries@.map_values(|e: OverviewEntry| e@)).missing,
            final(self)@.unavailable == old(self)@.unavailable,
            final(self)@.group == old(self)@.group,
            final(self)@.ranges == match overview_range(entries@.map_values(|e: OverviewEntry| e@)) {
                Some(range) => old(self)@.ranges.push(range),
                None => old(self)@.ranges,
            },
            tracking_consistent(final(self)@),
    {
        let ghost es = entries@.map_values(|e: OverviewEntry| e@);
        let ghost v = self@;
        let mut added: usize = 0;
        let mut i: usize = 0;
        assert(es.take(0) =~= Seq::<Seq<Seq<char>>>::empty());
        while i < entries.len()
            invariant
                es == entries@.map_values(|e: OverviewEntry| e@),
                i <= entries.len(),
                self.wf(),
                added <= i,
                added == usable_entries(es.take(i as int)),
                self@ == with_overview(v, es.take(i as int)),
                tracking_consistent(v) ==> tracking_consistent(self@),
            decreases entries.len() - i,
        {
            assert(es.take(i + 1).drop_last() =~= es.take(i as int));
            assert(es[i as int] == entries@[i as int]@);
            match ThreadedArticleRef::from_overview(&entries[i]) {
                Some(article) => {
                    proof {
                        if tracking_consistent(v) {
                            lemma_with_article_consistent(self@, article@);
                        }
                    }
                    self.add_article_internal(article);
                    added = added + 1;
                },
                None => {},
            }
            i = i + 1;
        }
        assert(es.take(i as int) =~= es);
        proof {
            lemma_with_overview_fields(v, es);
        }
        if entries.len() > 0 {
            let first = entries[0].number();
            let last = entries[entries.len() - 1].number();
            assert(es[0] == entries@[0]@);
            assert(es.last() == entries@[entries.len() - 1]@);
            match (first, last) {
                (Some(f), Some(l)) => {
                    self.fetched_ranges.push((f, l));
                },
                _ => {},
            }
        }
        added
    }

    /// Add a single article from a full ARTICLE fetch.
    ///
    /// Use this to fill in placeholder nodes after fetching missing articles.
    /// The article is added without a number, byte count or line count.
    /// Returns whether its Message-ID was tracked as missing.
    pub fn add_fetched_article(&mut self, article: &FetchedArticle) -> (r: bool)
        requires
            old(self).wf(),
        ensures
            final(self).wf(),
            r == old(self)@.missing.contains(article.thread_ref_spec().message_id),
            final(self)@ == with_article(
                old(self)@,
                ArticleRefV {
                    number: None,
                    byte_count: None,
                    line_count: None,
                    ..article.thread_ref_spec()
                },
            ),
            tracking_consistent(final(self)@),
    {
        let parent_id = match article.parent_id() {
            Some(p) => Some(p.to_owned()),
            None => None,
        };
        let refs = article.references();
        let mut references: Vec<String> = Vec::new();
        let mut i: usize = 0;
        while i < refs.len()
            invariant
                i <= refs.len(),
                strings_of(references@) =~= strings_of(refs@).take(i as int),
            decreases refs.len() - i,
        {
            let ghost before = strings_of(references@);
            references.push(refs[i].clone());
            assert(strings_of(references@) =~= before.push(strings_of(refs@)[i as int]));
            i = i + 1;
            assert(strings_of(references@) =~= strings_of(refs@).take(i as int));
        }
        assert(strings_of(refs@).take(i as int) =~= strings_of(refs@));
        let article_ref = ThreadedArticleRef {
            message_id: article.message_id().to_owned(),
            number: None,
            subject: article.subject().to_owned(),
            from: article.from().to_owned(),
            date: article.date().to_owned(),
            parent_id,
            references,
            byte_count: None,
            line_count: None,
        };
        let was_missing = has_string(&self.missing_parents, &article_ref.message_id);
        proof {
            if tracking_consistent(self@) {
                lemma_with_article_consistent(self@, article_ref@);
            }
        }
        self.add_article_internal(article_ref);
        was_missing
    }

    /// Add a `ThreadedArticleRef` directly.
    pub fn add_article(&mut self, article: ThreadedArticleRef)
        requires
            old(self).wf(),
        ensures
            final(self).wf(),
            final(self)@ == with_article(old(self)@, article@),
            tracking_consistent(final(self)@),
    {
        proof {
            if tracking_consistent(self@) {
                lemma_with_article_consistent(self@, article@);
            }
        }
        self.add_article_internal(article);
    }

    /// Mark a Message-ID as unavailable (tried to fetch but failed).
    ///
    /// This prevents the builder from repeatedly suggesting this ID
    /// as a missing parent.
    pub fn mark_unavailable(&mut self, message_id: &str)
        requires
            old(self).wf(),
        ensures
            final(self).wf(),
            final(self)@ == (IncrementalV {
                missing: old(self)@.missing.remove(message_id@),
                unavailable: old(self)@.unavailable.insert(message_id@),
                ..old(self)@
            }),
            tracking_consistent(final(self)@),
    {
        remove_string(&mut self.missing_parents, message_id);
        insert_string(&mut self.unavailable, &message_id.to_owned());
    }

    /// Get all Message-IDs that are referenced but not present.
    ///
    /// These are the "placeholder" parents that could be fetched to
    /// complete the thread trees. They are sorted, for deterministic
    /// ordering.
    pub fn missing_parents(&self) -> (r: Vec<&str>)
        requires
            self.wf(),
        ensures
            tracking_consistent(self@),
            forall|i: int| 0 <= i < r.len() ==> !self@.unavailable.contains(#[trigger] strs_view(r@)[i]),
            strs_view(r@).no_duplicates(),
            strs_view(r@).to_set() == self@.missing,
            forall|i: int, j: int| 0 <= i < j < r.len() ==> str_le(#[trigger] strs_view(r@)[i], #[trigger] strs_view(r@)[j]),
    {
        let ghost s = strings_of(self.missing_parents@);
        let mut out: Vec<&str> = Vec::new();
        let mut i: usize = 0;
        assert(s.take(0).to_set() =~= Set::<Seq<char>>::empty());
        while i < self.missing_parents.len()
            invariant
                s == strings_of(self.missing_parents@),
                s.no_duplicates(),
                i <= self.missing_parents.len(),
                strs_view(out@).no_duplicates(),
                strs_view(out@).to_set() == s.take(i as int).to_set(),
                forall|a: int, b: int| 0 <= a < b < out.len() ==> str_le(#[trigger] strs_view(out@)[a], #[trigger] strs_view(out@)[b]),
            decreases self.missing_parents.len() - i,
        {
            let x = self.missing_parents[i].as_str();
            assert(x@ == s[i as int]);
            assert(!strs_view(out@).contains(x@)) by {
                if strs_view(out@).contains(x@) {
                    assert(s.take(i as int).to_set().contains(x@));
                    let j = choose|j: int| 0 <= j < s.take(i as int).len() && s.take(i as int)[j] == x@;
                    assert(s[j] == s[i as int]);
                }
            }
            insert_sorted(&mut out, x);
            assert(s.take(i + 1) =~= s.take(i as int).push(s[i as int]));
            assert(s.take(i + 1).to_set() =~= s.take(i as int).to_set().insert(s[i as int]));
            i = i + 1;
        }
        assert(s.take(i as int) =~= s);
        out
    }

    /// Get the count of missing parent articles.
    pub fn missing_count(&self) -> (r: usize)
        requires
            self.wf(),
        ensures
            r == self@.missing.len(),
    {
        proof {
            strings_of(self.missing_parents@).unique_seq_to_set();
        }
        self.missing_parents.len()
    }

    /// Check if there are any missing parents that could be fetched.
    pub fn has_missing_parents(&self) -> (r: bool)
        requires
            self.wf(),
        ensures
            r == (self@.missing.len() > 0),
    {
        proof {
            strings_of(self.missing_parents@).unique_seq_to_set();
        }
        self.missing_parents.len() > 0
    }

    /// Get Message-IDs that were marked as unavailable.
    pub fn unavailable(&self) -> (r: Vec<&str>)
        requires
            self.wf(),
        ensures
            strs_view(r@).no_duplicates(),
            strs_view(r@).to_set() == self@.unavailable,
    {
        let ghost s = strings_of(self.unavailable@);
        let mut out: Vec<&str> = Vec::new();
        let mut i: usize = 0;
        assert(strs_view(out@) =~= s.take(0));
        while i < self.unavailable.len()
            invariant
                s == strings_of(self.unavailable@),
                i <= self.unavailable.len(),
                strs_view(out@) =~= s.take(i as int),
            decreases self.unavailable.len() - i,
        {
            let x = self.unavailable[i].as_str();
            assert(x@ == s[i as int]);
            let ghost before = strs_view(out@);
            out.push(x);
            assert(strs_view(out@) =~= before.push(x@));
            i = i + 1;
            assert(strs_view(out@) =~= s.take(i as int));
        }
        assert(s.take(i as int) =~= s);
        out
    }

    /// Get the article number ranges that have been fetched.
    pub fn fetched_ranges(&self) -> (r: &[(u64, u64)])
        ensures
            r@ == self@.ranges,
    {
        self.fetched_ranges.as_slice()
    }

    /// Check if a specific article number has been fetched.
    pub fn is_number_fetched(&self, number: u64) -> (r: bool)
        ensures
            r == in_ranges(self@.ranges, number),
    {
        let mut i: usize = 0;
        while i < self.fetched_ranges.len()
            invariant
                i <= self.fetched_ranges.len(),
                forall|j: int| 0 <= j < i ==> !(self.fetched_ranges@[j].0 <= number && number <= self.fetched_ranges@[j].1),
            decreases self.fetched_ranges.len() - i,
        {
            let (start, end) = self.fetched_ranges[i];
            if number >= start && number <= end {
                assert(self@.ranges[i as int].0 <= number && number <= self@.ranges[i as int].1);
                return true;
            }
            i = i + 1;
        }
        assert(!in_ranges(self@.ranges, number)) by {
            if in_ranges(self@.ranges, number) {
                let j = choose|j: int| 0 <= j < self@.ranges.len() && #[trigger] self@.ranges[j].0 <= number && number <= self@.ranges[j].1;
                assert(self.fetched_ranges@[j] == self@.ranges[j]);
            }
        }
        false
    }

    /// Check if a specific Message-ID is present.
    pub fn contains(&self, message_id: &str) -> (r: bool)
        ensures
            r == has_id(self@.articles, message_id@),
    {
        contains_id(&self.articles, &message_id.to_owned())
    }

    /// Get an article by Message-ID.
    pub fn get(&self, message_id: &str) -> (r: Option<&ThreadedArticleRef>)
        requires
            self.wf(),
        ensures
            match r {
                Some(a) => has_id(self@.articles, message_id@) && a@ == self@.articles[id_index(self@.articles, message_id@)],
                None => !has_id(self@.articles, message_id@),
            },
    {
        let ghost s = self@.articles;
        let id = message_id.to_owned();
        let mut i: usize = 0;
        while i < self.articles.len()
            invariant
                s == self@.articles,
                s == arts_view(self.articles@),
                ids_unique(s),
                id@ == message_id@,
                i <= self.articles.len(),
                forall|j: int| 0 <= j < i ==> s[j].message_id != id@,
            decreases self.articles.len() - i,
        {
            assert(s[i as int] == self.articles@[i as int]@);
            if self.articles[i].message_id == id {
                proof {
                    lemma_id_index(s, id@);
                    assert(s[i as int].message_id == id@);
                    assert(has_id(s, id@));
                    assert(i as int == id_index(s, id@));
                }
                let r = &self.articles[i];
                assert(r@ == s[i as int]);
                assert(id@ == message_id@);
                return Some(r);
            }
            i = i + 1;
        }
        None
    }

    /// Build the thread collection from the current state.
    ///
    /// This constructs the full thread tree structure from all articles
    /// currently in the builder. The builder retains all articles after
    /// building, so you can continue adding articles and rebuild.
    pub fn build(&self) -> (r: ThreadCollection)
        ensures
            r.group_spec() == self@.group,
            r.threads_spec() == thread_forest(self@.articles),
    {
        build_threads(copy_articles(&self.articles), self.group.as_str())
    }

    /// Build threads and consume the builder.
    pub fn into_threads(self) -> (r: ThreadCollection)
        ensures
            r.group_spec() == self@.group,
            r.threads_spec() == thread_forest(self@.articles),
    {
        build_threads(self.articles, self.group.as_str())
    }

    /// Clear all articles and reset the builder.
    pub fn clear(&mut self)
        ensures
            final(self).wf(),
            final(self)@ == (IncrementalV {
                group: old(self)@.group,
                articles: Seq::empty(),
                missing: Set::empty(),
                unavailable: Set::empty(),
                ranges: Seq::empty(),
            }),
            tracking_consistent(final(self)@),
    {
        self.articles.clear();
        self.missing_parents.clear();
        self.unavailable.clear();
        self.fetched_ranges.clear();
        assert(self@.articles =~= Seq::<ArticleRefV>::empty());
        assert(self@.missing =~= Set::<Seq<char>>::empty());
        assert(self@.unavailable =~= Set::<Seq<char>>::empty());
    }

    /// Merge another builder into this one.
    ///
    /// The other builder's articles are added in turn; its unavailable
    /// Message-IDs become unavailable here (and no longer missing); its
    /// fetched ranges are appended.
    pub fn merge(&mut self, other: IncrementalThreadBuilder)
        requires
            old(self).wf(),
            other.wf(),
        ensures
            final(self).wf(),
            final(self)@ == (IncrementalV {
                missing: with_articles(old(self)@, other@.articles).missing.difference(other@.unavailable),
                unavailable: old(self)@.unavailable.union(other@.unavailable),
                ranges: old(self)@.ranges + other@.ranges,
                ..with_articles(old(self)@, other@.articles)
            }),
            tracking_consistent(final(self)@),
    {
        let ghost v = self@;
        let ghost s = other@.articles;
        let mut i: usize = 0;
        assert(s.take(0) =~= Seq::<ArticleRefV>::empty());
        while i < other.articles.len()
            invariant
                s == arts_view(other.articles@),
                i <= other.articles.len(),
                self.wf(),
                self@ == with_articles(v, s.take(i as int)),
            decreases other.articles.len() - i,
        {
            assert(s.take(i + 1).drop_last() =~= s.take(i as int));
            assert(s[i as int] == other.articles@[i as int]@);
            self.add_article_internal(other.articles[i].copy());
            i = i + 1;
        }
        assert(s.take(i as int) =~= s);
        proof {
            if tracking_consistent(v) {
                lemma_with_articles_consistent(v, s);
            }
        }
        let ghost w = self@;
        let ghost u = strings_of(other.unavailable@);
        let mut k: usize = 0;
        assert(u.take(0).to_set() =~= Set::<Seq<char>>::empty());
        assert(w.missing.difference(u.take(0).to_set()) =~= w.missing);
        assert(w.unavailable.union(u.take(0).to_set()) =~= w.unavailable);
        while k < other.unavailable.len()
            invariant
                u == strings_of(other.unavailable@),
                k <= other.unavailable.len(),
                self.shape_ok(),
                self@ == (IncrementalV {
                    missing: w.missing.difference(u.take(k as int).to_set()),
                    unavailable: w.unavailable.union(u.take(k as int).to_set()),
                    ..w
                }),
            decreases other.unavailable.len() - k,
        {
            let x = &other.unavailable[k];
            assert(x@ == u[k as int]);
            remove_string(&mut self.missing_parents, x.as_str());
            insert_string(&mut self.unavailable, x);
            assert(u.take(k + 1).to_set() =~= u.take(k as int).to_set().insert(u[k as int])) by {
                assert(u.take(k + 1) =~= u.take(k as int).push(u[k as int]));
            }
            k = k + 1;
            assert(self@.missing =~= w.missing.difference(u.take(k as int).to_set()));
            assert(self@.unavailable =~= w.unavailable.union(u.take(k as int).to_set()));
        }
        assert(u.take(k as int) =~= u);
        proof {
            lemma_with_articles_fields(v, s);
        }
        let ghost r0 = self.fetched_ranges@;
        let mut j: usize = 0;
        while j < other.fetched_ranges.len()
            invariant
                j <= other.fetched_ranges.len(),
                self.shape_ok(),
                self.fetched_ranges@ == r0 + other.fetched_ranges@.take(j as int),
                self@.missing == w.missing.difference(u.to_set()),
                self@.unavailable == w.unavailable.union(u.to_set()),
                self@.articles == w.articles,
                self@.group == w.group,
            decreases other.fetched_ranges.len() - j,
        {
            self.fetched_ranges.push(other.fetched_ranges[j]);
            j = j + 1;
            assert(self.fetched_ranges@ =~= r0 + other.fetched_ranges@.take(j as int));
        }
        assert(other.fetched_ranges@.take(j as int) =~= other.fetched_ranges@);
        proof {
            if tracking_consistent(v) {
                assert(tracking_consistent(self@)) by {
                    let f = self@;
                    assert forall|i: int| 0 <= i < f.articles.len() implies parent_tracked(f, #[trigger] f.articles[i]) by {
                        if let Some(p) = f.articles[i].parent_id {
                            assert(w.articles[i] == f.articles[i]);
                        }
                    }
                    assert forall|i: int| 0 <= i < f.articles.len() && f.missing.contains(#[trigger] f.articles[i].message_id)
                        implies f.articles[i].parent_id == Some(f.articles[i].message_id) by {
                        assert(w.articles[i] == f.articles[i]);
                    }
                }
            }
        }
    }

    /// Rebuild the missing parents cache from scratch.
    pub fn rebuild_missing_cache(&mut self)
        requires
            old(self).wf(),
        ensures
            final(self).wf(),
            final(self)@ == (IncrementalV { missing: recomputed_missing(old(self)@), ..old(self)@ }),
            tracking_consistent(final(self)@),
    {
        let ghost v = self@;
        self.missing_parents.clear();
        let ghost s = v.articles;
        let mut i: usize = 0;
        assert(strings_of(self.missing_parents@).to_set() =~= Set::<Seq<char>>::empty());
        while i < self.articles.len()
            invariant
                v.articles == arts_view(self.articles@),
                v.unavailable == self@.unavailable,
                v.group == self@.group,
                v.ranges == self@.ranges,
                s == v.articles,
                i <= self.articles.len(),
                self.shape_ok(),
                self@.missing == Set::new(
                    |p: Seq<char>|
                        exists|j: int|
                            0 <= j < i && #[trigger] s[j].parent_id == Some(p) && !has_id(s, p)
                                && !v.unavailable.contains(p),
                ),
            decreases self.articles.len() - i,
        {
            let ghost before = self@.missing;
            assert(s[i as int] == self.articles@[i as int]@);
            match &self.articles[i].parent_id {
                Some(p) => {
                    if !contains_id(&self.articles, p) && !has_string(&self.unavailable, p) {
                        insert_string(&mut self.missing_parents, p);
                    }
                },
                None => {},
            }
            i = i + 1;
            assert(self@.missing =~= Set::new(
                |p: Seq<char>|
                    exists|j: int|
                        0 <= j < i && #[trigger] s[j].parent_id == Some(p) && !has_id(s, p)
                            && !v.unavailable.contains(p),
            )) by {
                assert forall|p: Seq<char>| #[trigger] self@.missing.contains(p) <==> (exists|j: int|
                    0 <= j < i && #[trigger] s[j].parent_id == Some(p) && !has_id(s, p) && !v.unavailable.contains(p)) by {
                    if self@.missing.contains(p) && !before.contains(p) {
                        assert(s[i - 1].parent_id == Some(p));
                    }
                    if exists|j: int| 0 <= j < i && #[trigger] s[j].parent_id == Some(p) && !has_id(s, p) && !v.unavailable.contains(p) {
                        let j = choose|j: int| 0 <= j < i && #[trigger] s[j].parent_id == Some(p) && !has_id(s, p) && !v.unavailable.contains(p);
                        if j < i - 1 {
                            assert(before.contains(p));
                        }
                    }
                }
            }
        }
        assert(self@.missing =~= recomputed_missing(v));
    }
}

/// Options for controlling incremental fetching behavior.
#[derive(Debug, Clone)]
pub struct FetchOptions {
    /// Maximum number of missing parents to fetch per iteration
    pub batch_size: usize,
    /// Maximum depth of ancestors to fetch (None = unlimited)
    pub max_depth: Option<usize>,
    /// Whether to continue fetching if some articles fail
    pub continue_on_error: bool,
    /// Maximum total articles to fetch (None = unlimited)
    pub max_total_fetches: Option<usize>,
}

impl Default for FetchOptions {
    fn default() -> (r: Self)
        ensures
            r.batch_size == 50,
            r.max_depth == Some(10usize),
            r.continue_on_error,
            r.max_total_fetches == Some(500usize),
    {
        Self { batch_size: 50, max_depth: Some(10), continue_on_error: true, max_total_fetches: Some(500) }
    }
}

impl FetchOptions {
    /// Create options for fetching all missing parents without limits.
    pub fn unlimited() -> (r: Self)
        ensures
            r.batch_size == 100,
            r.max_depth is None,
            r.continue_on_error,
            r.max_total_fetches is None,
    {
        Self { batch_size: 100, max_depth: None, continue_on_error: true, max_total_fetches: None }
    }

    /// Create options that only fetch immediate parents (depth 1).
    pub fn shallow() -> (r: Self)
        ensures
            r.batch_size == 50,
            r.max_depth == Some(1usize),
            r.continue_on_error,
            r.max_total_fetches == Some(100usize),
    {
        Self { batch_size: 50, max_depth: Some(1), continue_on_error: true, max_total_fetches: Some(100) }
    }
}

} // verus!
