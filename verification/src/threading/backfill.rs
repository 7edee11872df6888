//! The decisions of thread fetching: which article numbers to ask for, which
//! missing parents to fetch next, and what to do with each fetch's outcome.
//! The caller performs the requests.

use vstd::prelude::*;
use crate::error::{Error, ErrorV, Result};
use crate::response::OverviewEntry;
use crate::text::{decimal, push_str, str_le, string_from_chars, strings_of, u64_to_decimal};
use super::algorithm::{build_threads, thread_forest};
use super::builder::{FetchedArticle, push_chars};
use super::incremental::{FetchOptions, IncrementalThreadBuilder, IncrementalV, with_article};
use super::types::{ArticleRefV, ThreadCollection, ThreadedArticleRef, article_from_overview, strs_view};

verus! {

/// The first article number of the `count` most recent articles of a group
/// whose last article is `last` (at least 1).
pub open spec fn recent_start(last: u64, count: u64) -> u64 {
    if last > count {
        (last - count + 1) as u64
    } else {
        1
    }
}

/// The first and last article numbers of the `count` most recent articles
/// of a group whose last article is `last`.
pub fn recent_range(last: u64, count: u64) -> (r: (u64, u64))
    requires
        count > 0 || last < u64::MAX,
    ensures
        r == (recent_start(last, count), last),
{
    let start = if last > count {
        last - count + 1
    } else {
        1
    };
    (start, last)
}

/// The range parameter `first-last` of an OVER command.
pub fn range_param(first: u64, last: u64) -> (r: String)
    ensures
        r@ == decimal(first as nat) + "-"@ + decimal(last as nat),
{
    let mut v = u64_to_decimal(first);
    push_str(&mut v, "-");
    push_chars(&mut v, &u64_to_decimal(last));
    string_from_chars(v)
}

/// The articles of overview entries that have the required fields, in order.
pub open spec fn overview_articles(es: Seq<Seq<Seq<char>>>) -> Seq<ArticleRefV>
    decreases es.len(),
{
    if es.len() == 0 {
        Seq::empty()
    } else {
        let rest = overview_articles(es.drop_last());
        match article_from_overview(es.last()) {
            Some(a) => rest.push(a),
            None => rest,
        }
    }
}

/// Build the threads of the articles of an OVER response.
pub fn threads_from_overview(entries: &[OverviewEntry], group: &str) -> (r: ThreadCollection)
    ensures
        r.group_spec() == group@,
        r.threads_spec() == thread_forest(overview_articles(entries@.map_values(|e: OverviewEntry| e@))),
{
    let ghost es = entries@.map_values(|e: OverviewEntry| e@);
    let mut articles: Vec<ThreadedArticleRef> = Vec::new();
    let mut i: usize = 0;
    assert(es.take(0) =~= Seq::<Seq<Seq<char>>>::empty());
    while i < entries.len()
        invariant
            es == entries@.map_values(|e: OverviewEntry| e@),
            i <= entries.len(),
            super::algorithm::arts_view(articles@) == overview_articles(es.take(i as int)),
        decreases entries.len() - i,
    {
        assert(es.take(i + 1).drop_last() =~= es.take(i as int));
        assert(es[i as int] == entries@[i as int]@);
        match ThreadedArticleRef::from_overview(&entries[i]) {
            Some(a) => {
                let ghost before = super::algorithm::arts_view(articles@);
                let ghost av = a@;
                articles.push(a);
                assert(super::algorithm::arts_view(articles@) =~= before.push(av));
            },
            None => {},
        }
        i = i + 1;
    }
    assert(es.take(i as int) =~= es);
    build_threads(articles, group)
}

/// How many missing parents the next round of backfilling may fetch: none
/// once the depth or total limit is reached; else the batch size, or what
/// the total limit leaves if that is less.
pub open spec fn batch_limit(options: FetchOptions, depth: usize, total_fetched: usize) -> nat {
    if (options.max_depth matches Some(d) && depth >= d) || (options.max_total_fetches matches Some(m)
        && total_fetched >= m) {
        0
    } else {
        let remaining: nat = match options.max_total_fetches {
            Some(m) => (m - total_fetched) as nat,
            None => usize::MAX as nat,
        };
        if remaining < options.batch_size {
            remaining
        } else {
            options.batch_size as nat
        }
    }
}

/// Whether `r` holds the `k` least (in `str` order) of the Message-IDs of
/// `set`, in increasing order (all of them if there are fewer).
pub open spec fn least_in_order(r: Seq<Seq<char>>, set: Set<Seq<char>>, k: nat) -> bool {
    &&& r.len() == if k < set.len() {
        k
    } else {
        set.len()
    }
    &&& r.no_duplicates()
    &&& forall|i: int| 0 <= i < r.len() ==> set.contains(#[trigger] r[i])
    &&& forall|i: int, j: int| 0 <= i < j < r.len() ==> str_le(#[trigger] r[i], #[trigger] r[j])
    &&& forall|x: Seq<char>, i: int|
        #![trigger set.contains(x), r[i]]
        set.contains(x) && !r.contains(x) && 0 <= i < r.len() ==> str_le(r[i], x)
}

/// The Message-IDs to fetch in the next round of backfilling: the first
/// `batch_limit` missing parents in sorted order. An empty batch means stop.
pub fn next_backfill_batch(
    builder: &IncrementalThreadBuilder,
    options: &FetchOptions,
    depth: usize,
    total_fetched: usize,
) -> (r: Vec<String>)
    requires
        builder.wf(),
    ensures
        least_in_order(strings_of(r@), builder@.missing, batch_limit(*options, depth, total_fetched)),
{
    let limit: usize = match options.max_depth {
        Some(d) if depth >= d => 0,
        _ => match options.max_total_fetches {
            Some(m) if total_fetched >= m => 0,
            Some(m) => {
                let remaining = m - total_fetched;
                if remaining < options.batch_size {
                    remaining
                } else {
                    options.batch_size
                }
            },
            None => if usize::MAX < options.batch_size {
                usize::MAX
            } else {
                options.batch_size
            },
        },
    };
    let all = builder.missing_parents();
    let ghost a = strs_view(all@);
    proof {
        a.unique_seq_to_set();
    }
    let mut out: Vec<String> = Vec::new();
    let mut i: usize = 0;
    while i < all.len() && i < limit
        invariant
            a == strs_view(all@),
            i <= all.len(),
            i <= limit,
            strings_of(out@) =~= a.take(i as int),
        decreases all.len() - i,
    {
        let ghost before = strings_of(out@);
        out.push(all[i].to_owned());
        assert(strings_of(out@) =~= before.push(a[i as int]));
        i = i + 1;
        assert(strings_of(out@) =~= a.take(i as int));
    }
    let ghost t = a.take(i as int);
    assert(t.no_duplicates()) by {
        assert forall|p: int, q: int| 0 <= p < t.len() && 0 <= q < t.len() && p != q implies t[p] != t[q] by {
            assert(t[p] == a[p] && t[q] == a[q]);
        }
    }
    assert forall|x: Seq<char>, k: int|
        #![trigger builder@.missing.contains(x), t[k]]
        builder@.missing.contains(x) && !t.contains(x) && 0 <= k < t.len() implies str_le(t[k], x) by {
        assert(a.to_set().contains(x));
        let m = choose|m: int| 0 <= m < a.len() && a[m] == x;
        if m < i {
            assert(t[m] == x);
        } else {
            assert(t[k] == a[k]);
        }
    }
    out
}

/// What to do after fetching a missing parent: go on, with the new total
/// of articles fetched, or stop with an error.
///
/// A fetched article is added to the builder; one the server does not have
/// (430), or any failure when `continue_on_error` is set, is marked
/// unavailable; another failure stops the backfill.
pub fn record_fetch(
    builder: &mut IncrementalThreadBuilder,
    message_id: &str,
    result: Result<FetchedArticle>,
    continue_on_error: bool,
    total_fetched: usize,
) -> (r: Result<usize>)
    requires
        old(builder).wf(),
        total_fetched < usize::MAX,
    ensures
        final(builder).wf(),
        match result {
            Ok(a) => r == Ok::<usize, Error>((total_fetched + 1) as usize) && final(builder)@ == with_article(
                old(builder)@,
                ArticleRefV { number: None, byte_count: None, line_count: None, ..a.thread_ref_spec() },
            ),
            Err(e) => if e@ matches ErrorV::Protocol { code: 430, .. } || continue_on_error {
                r == Ok::<usize, Error>(total_fetched) && final(builder)@ == (IncrementalV {
                    missing: old(builder)@.missing.remove(message_id@),
                    unavailable: old(builder)@.unavailable.insert(message_id@),
                    ..old(builder)@
                })
            } else {
                r == Err::<usize, Error>(e) && final(builder)@ == old(builder)@
            },
        },
{
    match result {
        Ok(article) => {
            builder.add_fetched_article(&article);
            Ok(total_fetched + 1)
        },
        Err(Error::Protocol { code: 430, .. }) => {
            builder.mark_unavailable(message_id);
            Ok(total_fetched)
        },
        Err(e) => {
            if continue_on_error {
                builder.mark_unavailable(message_id);
                Ok(total_fetched)
            } else {
                Err(e)
            }
        },
    }
}


/// A round of backfilling never passes the limits: a round may fetch only
/// while the depth is below `max_depth`, and what it may fetch keeps the
/// total within `max_total_fetches` and within the batch size. So a run
/// that counts one round per batch and one fetch per article fetched makes
/// at most `max_depth` rounds and at most `max_total_fetches` fetches.
pub proof fn lemma_batch_within_limits(options: FetchOptions, depth: usize, total_fetched: usize)
    ensures
        batch_limit(options, depth, total_fetched) <= options.batch_size,
        batch_limit(options, depth, total_fetched) > 0 ==> {
            &&& (options.max_depth matches Some(d) ==> depth < d)
            &&& (options.max_total_fetches matches Some(m) ==> total_fetched
                + batch_limit(options, depth, total_fetched) <= m)
        },
{
}

} // verus!
