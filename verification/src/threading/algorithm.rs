//! Thread building algorithm.
//!
//! This module builds thread trees from a flat list of articles with
//! References headers.

use vstd::prelude::*;
use super::types::{
    ArticleRefV, NodeV, Thread, ThreadCollection, ThreadIterator, ThreadNode, ThreadV,
    ThreadedArticleRef, articles_of, lemma_articles_of_concat, lemma_preorder_in_push, opt_article,
    nodes_view, preorder, preorder_in, threads_view,
};
use crate::text::{chars_le, chars_of_string, lemma_str_le_total, lemma_str_le_trans, str_le};
use crate::utils::normalized_subject;

pub use crate::utils::normalize_subject;

verus! {

/// Article values of a sequence of articles.
pub open spec fn arts_view(s: Seq<ThreadedArticleRef>) -> Seq<ArticleRefV> {
    s.map_values(|a: ThreadedArticleRef| a@)
}

/// The articles of `s` whose Message-ID is not `id`, in order.
pub open spec fn without_id(s: Seq<ArticleRefV>, id: Seq<char>) -> Seq<ArticleRefV>
    decreases s.len(),
{
    if s.len() == 0 {
        Seq::empty()
    } else {
        let rest = without_id(s.drop_last(), id);
        if s.last().message_id == id {
            rest
        } else {
            rest.push(s.last())
        }
    }
}

/// One article per Message-ID: a later article replaces an earlier one with
/// the same Message-ID, and comes where the later one came.
pub open spec fn dedup(s: Seq<ArticleRefV>) -> Seq<ArticleRefV>
    decreases s.len(),
{
    if s.len() == 0 {
        Seq::empty()
    } else {
        without_id(dedup(s.drop_last()), s.last().message_id).push(s.last())
    }
}

/// The articles of `pool` whose parent is `id`, in order.
pub open spec fn children_of(pool: Seq<ArticleRefV>, id: Seq<char>) -> Seq<ArticleRefV>
    decreases pool.len(),
{
    if pool.len() == 0 {
        Seq::empty()
    } else {
        let rest = children_of(pool.drop_last(), id);
        if pool.last().parent_id == Some(id) {
            rest.push(pool.last())
        } else {
            rest
        }
    }
}

/// The articles of `pool` whose parent is not `id`, in order.
pub open spec fn others_of(pool: Seq<ArticleRefV>, id: Seq<char>) -> Seq<ArticleRefV>
    decreases pool.len(),
{
    if pool.len() == 0 {
        Seq::empty()
    } else {
        let rest = others_of(pool.drop_last(), id);
        if pool.last().parent_id == Some(id) {
            rest
        } else {
            rest.push(pool.last())
        }
    }
}

/// Splitting a pool by parent keeps every article on one side.
pub proof fn lemma_split_len(pool: Seq<ArticleRefV>, id: Seq<char>)
    ensures
        children_of(pool, id).len() + others_of(pool, id).len() == pool.len(),
    decreases pool.len(),
{
    if pool.len() > 0 {
        lemma_split_len(pool.drop_last(), id);
    }
}

/// The date a reply is ordered by (placeholders: the empty string).
pub open spec fn node_date(n: NodeV) -> Seq<char> {
    match n.article {
        Some(a) => a.date,
        None => Seq::empty(),
    }
}

/// Insert a node into replies ordered by date, after those with a date not
/// later than its own.
pub open spec fn insert_by_date(s: Seq<NodeV>, x: NodeV) -> Seq<NodeV>
    decreases s.len(),
{
    if s.len() == 0 {
        seq![x]
    } else if str_le(node_date(s.last()), node_date(x)) {
        s.push(x)
    } else {
        insert_by_date(s.drop_last(), x).push(s.last())
    }
}

/// Replies sorted by date, oldest first; equal dates keep their order.
pub open spec fn sort_by_date(s: Seq<NodeV>) -> Seq<NodeV>
    decreases s.len(),
{
    if s.len() == 0 {
        s
    } else {
        insert_by_date(sort_by_date(s.drop_last()), s.last())
    }
}

/// The tree for Message-ID `id` (holding `article`, or a placeholder), drawn
/// from the articles of `pool`: its replies are the trees of the articles
/// whose parent it is, each drawn from the rest of the pool, sorted by date.
pub open spec fn build_tree(id: Seq<char>, article: Option<ArticleRefV>, pool: Seq<ArticleRefV>) -> NodeV
    decreases pool.len(), 0nat,
{
    let kids = children_of(pool, id);
    let rest = others_of(pool, id);
    NodeV {
        article,
        replies: if kids.len() == 0 {
            Seq::empty()
        } else {
            proof {
                lemma_split_len(pool, id);
            }
            sort_by_date(build_trees(kids, rest))
        },
        message_id: id,
    }
}

/// The trees of the articles `kids`, each drawn from `pool`.
pub open spec fn build_trees(kids: Seq<ArticleRefV>, pool: Seq<ArticleRefV>) -> Seq<NodeV>
    decreases pool.len(), kids.len() + 1,
{
    if kids.len() == 0 {
        Seq::empty()
    } else {
        build_trees(kids.drop_last(), pool).push(
            build_tree(kids.last().message_id, Some(kids.last()), pool),
        )
    }
}

/// A thread's subject: the normalized subject of its first present article
/// in depth-first order (empty if there is none).
pub open spec fn thread_subject(n: NodeV) -> Seq<char> {
    let a = articles_of(preorder(n));
    if a.len() > 0 {
        normalized_subject(a[0].subject)
    } else {
        Seq::empty()
    }
}

/// The thread rooted at a tree.
pub open spec fn thread_of(n: NodeV) -> ThreadV {
    ThreadV { root: n, subject: thread_subject(n) }
}

/// The latest of the dates of `s` (as strings), or the empty string.
pub open spec fn latest_date(s: Seq<ArticleRefV>) -> Seq<char>
    decreases s.len(),
{
    if s.len() == 0 {
        Seq::empty()
    } else {
        let m = latest_date(s.drop_last());
        if !str_le(s.last().date, m) {
            s.last().date
        } else {
            m
        }
    }
}

/// The date of a thread's most recent article.
pub open spec fn most_recent(t: ThreadV) -> Seq<char> {
    latest_date(articles_of(preorder(t.root)))
}

/// The latest date of a list of articles is the greatest of their dates: no
/// article's date comes after it, and it is the date of one of the
/// articles (the empty string when there are none).
pub proof fn lemma_latest_date_greatest(s: Seq<ArticleRefV>)
    ensures
        forall|i: int| 0 <= i < s.len() ==> str_le(#[trigger] s[i].date, latest_date(s)),
        s.len() == 0 ==> latest_date(s) == Seq::<char>::empty(),
        s.len() > 0 ==> exists|i: int| 0 <= i < s.len() && #[trigger] s[i].date == latest_date(s),
    decreases s.len(),
{
    if s.len() > 0 {
        let d = s.drop_last();
        let m = latest_date(d);
        let l = s.last().date;
        lemma_latest_date_greatest(d);
        lemma_str_le_total(l, m);
        lemma_str_le_total(l, l);
        assert(s[s.len() - 1] == s.last());
        assert forall|i: int| 0 <= i < s.len() implies str_le(#[trigger] s[i].date, latest_date(s)) by {
            if i < d.len() {
                assert(d[i] == s[i]);
                if !str_le(l, m) {
                    lemma_str_le_trans(s[i].date, m, l);
                }
            }
        }
        if str_le(l, m) {
            if d.len() > 0 {
                let i = choose|i: int| 0 <= i < d.len() && #[trigger] d[i].date == m;
                assert(d[i] == s[i]);
            } else {
                assert(l =~= m);
            }
        }
    }
}

/// The recency key of a thread is the greatest date among its articles:
/// no article of the thread is dated after it, and it is the date of one
/// of them (empty for a thread without articles).
pub proof fn lemma_most_recent_greatest(t: ThreadV)
    ensures
        forall|i: int| 0 <= i < articles_of(preorder(t.root)).len() ==> str_le(
            #[trigger] articles_of(preorder(t.root))[i].date,
            most_recent(t),
        ),
        articles_of(preorder(t.root)).len() == 0 ==> most_recent(t) == Seq::<char>::empty(),
        articles_of(preorder(t.root)).len() > 0 ==> exists|i: int|
            0 <= i < articles_of(preorder(t.root)).len() && #[trigger] articles_of(
                preorder(t.root),
            )[i].date == most_recent(t),
{
    lemma_latest_date_greatest(articles_of(preorder(t.root)));
}

/// Insert a thread into threads ordered by recency, after those whose most
/// recent article is not older than its own.
pub open spec fn insert_by_recency(s: Seq<ThreadV>, x: ThreadV) -> Seq<ThreadV>
    decreases s.len(),
{
    if s.len() == 0 {
        seq![x]
    } else if str_le(most_recent(x), most_recent(s.last())) {
        s.push(x)
    } else {
        insert_by_recency(s.drop_last(), x).push(s.last())
    }
}

/// Threads sorted by most recent activity, most recent first; ties keep
/// their order.
pub open spec fn sort_by_recency(s: Seq<ThreadV>) -> Seq<ThreadV>
    decreases s.len(),
{
    if s.len() == 0 {
        s
    } else {
        insert_by_recency(sort_by_recency(s.drop_last()), s.last())
    }
}

/// Whether some article of `s` has Message-ID `id`.
pub open spec fn has_id(s: Seq<ArticleRefV>, id: Seq<char>) -> bool {
    exists|i: int| 0 <= i < s.len() && #[trigger] s[i].message_id == id
}

/// The parents named by the articles of `s` that are not among the articles
/// of `all`, each once, in order of first mention.
pub open spec fn missing_parents(all: Seq<ArticleRefV>, s: Seq<ArticleRefV>) -> Seq<Seq<char>>
    decreases s.len(),
{
    if s.len() == 0 {
        Seq::empty()
    } else {
        let m = missing_parents(all, s.drop_last());
        match s.last().parent_id {
            Some(p) => if !has_id(all, p) && !m.contains(p) {
                m.push(p)
            } else {
                m
            },
            None => m,
        }
    }
}

/// The threads rooted at the articles of `arts.take(k)` that have no parent,
/// each drawn from the other articles.
pub open spec fn article_threads(arts: Seq<ArticleRefV>, k: int) -> Seq<ThreadV>
    decreases k,
{
    if k <= 0 || k > arts.len() {
        Seq::empty()
    } else {
        let prev = article_threads(arts, k - 1);
        let a = arts[k - 1];
        if a.parent_id is None {
            prev.push(thread_of(build_tree(a.message_id, Some(a), arts.remove(k - 1))))
        } else {
            prev
        }
    }
}

/// The threads rooted at placeholders for the missing parents `ms`.
pub open spec fn placeholder_threads(arts: Seq<ArticleRefV>, ms: Seq<Seq<char>>) -> Seq<ThreadV>
    decreases ms.len(),
{
    if ms.len() == 0 {
        Seq::empty()
    } else {
        placeholder_threads(arts, ms.drop_last()).push(thread_of(build_tree(ms.last(), None, arts)))
    }
}

/// The threads of a list of articles, most recently active first.
///
/// Articles are taken one per Message-ID (the last one given). Each article
/// without a parent roots a thread; so does a placeholder for each parent
/// that is referenced but missing. A tree holds the articles that reply to
/// its root, their replies, and so on; replies are sorted by date. Only
/// articles in a reply cycle (an article among its own ancestors) are in no
/// thread.
pub open spec fn thread_forest(articles: Seq<ArticleRefV>) -> Seq<ThreadV> {
    let arts = dedup(articles);
    sort_by_recency(
        article_threads(arts, arts.len() as int) + placeholder_threads(
            arts,
            missing_parents(arts, arts),
        ),
    )
}

/// The articles of `v` whose Message-ID is not `id` (copied).
fn copy_without_id(v: &Vec<ThreadedArticleRef>, id: &String) -> (r: Vec<ThreadedArticleRef>)
    ensures
        arts_view(r@) == without_id(arts_view(v@), id@),
{
    let mut r: Vec<ThreadedArticleRef> = Vec::new();
    let mut i: usize = 0;
    let ghost s = arts_view(v@);
    assert(s.take(0) =~= Seq::<ArticleRefV>::empty());
    while i < v.len()
        invariant
            s == arts_view(v@),
            i <= v.len(),
            arts_view(r@) == without_id(s.take(i as int), id@),
        decreases v.len() - i,
    {
        assert(s.take(i + 1).drop_last() =~= s.take(i as int));
        if v[i].message_id != *id {
            let ghost before = arts_view(r@);
            r.push(v[i].copy());
            assert(arts_view(r@) =~= before.push(s[i as int]));
        }
        i = i + 1;
    }
    assert(s.take(i as int) =~= s);
    r
}

/// A copy of a vector of articles.
pub(crate) fn copy_articles(v: &Vec<ThreadedArticleRef>) -> (r: Vec<ThreadedArticleRef>)
    ensures
        arts_view(r@) == arts_view(v@),
{
    let mut r: Vec<ThreadedArticleRef> = Vec::new();
    let mut i: usize = 0;
    while i < v.len()
        invariant
            i <= v.len(),
            arts_view(r@) =~= arts_view(v@).take(i as int),
        decreases v.len() - i,
    {
        let c = v[i].copy();
        let ghost before = arts_view(r@);
        r.push(c);
        assert(arts_view(r@) =~= before.push(arts_view(v@)[i as int]));
        i = i + 1;
        assert(arts_view(r@) =~= arts_view(v@).take(i as int));
    }
    assert(arts_view(v@).take(i as int) =~= arts_view(v@));
    r
}

/// One article per Message-ID (see `dedup`).
fn dedup_articles(articles: &Vec<ThreadedArticleRef>) -> (r: Vec<ThreadedArticleRef>)
    ensures
        arts_view(r@) == dedup(arts_view(articles@)),
{
    let mut r: Vec<ThreadedArticleRef> = Vec::new();
    let mut i: usize = 0;
    let ghost s = arts_view(articles@);
    assert(s.take(0) =~= Seq::<ArticleRefV>::empty());
    while i < articles.len()
        invariant
            s == arts_view(articles@),
            i <= articles.len(),
            arts_view(r@) == dedup(s.take(i as int)),
        decreases articles.len() - i,
    {
        assert(s.take(i + 1).drop_last() =~= s.take(i as int));
        let mut kept = copy_without_id(&r, &articles[i].message_id);
        let ghost before = arts_view(kept@);
        kept.push(articles[i].copy());
        assert(arts_view(kept@) =~= before.push(s[i as int]));
        r = kept;
        i = i + 1;
    }
    assert(s.take(i as int) =~= s);
    r
}

/// Whether an article's parent is `id`.
fn is_child_of(a: &ThreadedArticleRef, id: &String) -> (r: bool)
    ensures
        r == (a@.parent_id == Some(id@)),
{
    match &a.parent_id {
        Some(p) => *p == *id,
        None => false,
    }
}

/// The articles of `pool` whose parent is `id` (copied).
fn collect_children(pool: &Vec<ThreadedArticleRef>, id: &String) -> (r: Vec<ThreadedArticleRef>)
    ensures
        arts_view(r@) == children_of(arts_view(pool@), id@),
{
    let mut kids: Vec<ThreadedArticleRef> = Vec::new();
    let ghost s = arts_view(pool@);
    assert(s.take(0) =~= Seq::<ArticleRefV>::empty());
    let mut i: usize = 0;
    while i < pool.len()
        invariant
            s == arts_view(pool@),
            i <= pool.len(),
            arts_view(kids@) == children_of(s.take(i as int), id@),
        decreases pool.len() - i,
    {
        assert(s.take(i + 1).drop_last() =~= s.take(i as int));
        let ghost k0 = arts_view(kids@);
        if is_child_of(&pool[i], id) {
            kids.push(pool[i].copy());
            assert(arts_view(kids@) =~= k0.push(s[i as int]));
        }
        i = i + 1;
    }
    assert(s.take(i as int) =~= s);
    kids
}

/// The date a node is ordered by.
fn date_of(n: &ThreadNode) -> (r: Vec<char>)
    ensures
        r@ == node_date(n@),
{
    match &n.article {
        Some(a) => chars_of_string(&a.date),
        None => Vec::new(),
    }
}

/// Insert a reply into replies sorted by date (see `insert_by_date`).
fn insert_reply(replies: &mut Vec<ThreadNode>, x: ThreadNode)
    ensures
        nodes_view(final(replies)@) == insert_by_date(nodes_view(old(replies)@), x@),
{
    let ghost s = nodes_view(replies@);
    let xd = date_of(&x);
    let mut p: usize = replies.len();
    assert(s.take(p as int) =~= s);
    assert(s.skip(p as int) =~= Seq::<NodeV>::empty());
    while p > 0 && !chars_le(&date_of(&replies[p - 1]), &xd)
        invariant
            s == nodes_view(replies@),
            p <= replies.len(),
            xd@ == node_date(x@),
            insert_by_date(s, x@) == insert_by_date(s.take(p as int), x@) + s.skip(p as int),
        decreases p,
    {
        assert(replies@[p - 1]@ == s[p - 1]);
        assert(s.take(p as int).last() == s[p - 1]);
        assert(s.take(p as int).drop_last() =~= s.take(p - 1));
        assert(s.skip(p - 1) =~= seq![s[p - 1]] + s.skip(p as int));
        assert(insert_by_date(s.take(p - 1), x@).push(s[p - 1]) + s.skip(p as int) =~= insert_by_date(
            s.take(p - 1),
            x@,
        ) + s.skip(p - 1));
        p = p - 1;
    }
    let ghost xv = x@;
    if p == 0 {
        assert(s.take(0) =~= Seq::<NodeV>::empty());
    } else {
        assert(replies@[p - 1]@ == s[p - 1]);
        assert(s.take(p as int).last() == s[p - 1]);
        assert(insert_by_date(s.take(p as int), xv) == s.take(p as int).push(xv));
    }
    replies.insert(p, x);
    assert(nodes_view(replies@) =~= s.take(p as int) + seq![xv] + s.skip(p as int));
}

/// The articles of `pool` whose parent is none of `ids`, in order.
spec fn outside(pool: Seq<ArticleRefV>, ids: Seq<Seq<char>>) -> Seq<ArticleRefV>
    decreases pool.len(),
{
    if pool.len() == 0 {
        Seq::empty()
    } else {
        let rest = outside(pool.drop_last(), ids);
        match pool.last().parent_id {
            Some(p) => if ids.contains(p) {
                rest
            } else {
                rest.push(pool.last())
            },
            None => rest.push(pool.last()),
        }
    }
}

proof fn lemma_outside_none(pool: Seq<ArticleRefV>)
    ensures
        outside(pool, Seq::empty()) == pool,
    decreases pool.len(),
{
    if pool.len() > 0 {
        lemma_outside_none(pool.drop_last());
        assert(pool.drop_last().push(pool.last()) =~= pool);
    }
}

proof fn lemma_push_contains(ids: Seq<Seq<char>>, x: Seq<char>, p: Seq<char>)
    ensures
        ids.push(x).contains(p) <==> (ids.contains(p) || p == x),
{
    if ids.contains(p) {
        let i = choose|i: int| 0 <= i < ids.len() && ids[i] == p;
        assert(ids.push(x)[i] == p);
    }
    if p == x {
        assert(ids.push(x)[ids.len() as int] == p);
    }
    if ids.push(x).contains(p) {
        let i = choose|i: int| 0 <= i < ids.push(x).len() && ids.push(x)[i] == p;
        if i < ids.len() {
            assert(ids[i] == p);
        }
    }
}

/// Leaving out the replies to one more Message-ID.
proof fn lemma_others_of_outside(pool: Seq<ArticleRefV>, ids: Seq<Seq<char>>, x: Seq<char>)
    ensures
        others_of(outside(pool, ids), x) == outside(pool, ids.push(x)),
    decreases pool.len(),
{
    if pool.len() > 0 {
        let l = pool.last();
        let o = outside(pool.drop_last(), ids);
        lemma_others_of_outside(pool.drop_last(), ids, x);
        assert(o.push(l).drop_last() =~= o);
        match l.parent_id {
            Some(p) => {
                lemma_push_contains(ids, x, p);
            },
            None => {},
        }
    }
}

/// The replies to `x` left once the replies to `ids` are left out.
proof fn lemma_children_of_outside(pool: Seq<ArticleRefV>, ids: Seq<Seq<char>>, x: Seq<char>)
    ensures
        children_of(outside(pool, ids), x) == (if ids.contains(x) {
            Seq::empty()
        } else {
            children_of(pool, x)
        }),
    decreases pool.len(),
{
    if pool.len() > 0 {
        let l = pool.last();
        let o = outside(pool.drop_last(), ids);
        lemma_children_of_outside(pool.drop_last(), ids, x);
        assert(o.push(l).drop_last() =~= o);
    }
}

proof fn lemma_children_of_concat(a: Seq<ArticleRefV>, b: Seq<ArticleRefV>, x: Seq<char>)
    ensures
        children_of(a + b, x) == children_of(a, x) + children_of(b, x),
    decreases b.len(),
{
    if b.len() == 0 {
        assert(a + b =~= a);
        assert(children_of(a, x) + children_of(b, x) =~= children_of(a, x));
    } else {
        lemma_children_of_concat(a, b.drop_last(), x);
        assert((a + b).drop_last() =~= a + b.drop_last());
        assert((a + b).last() == b.last());
        let ca = children_of(a, x);
        let cb = children_of(b.drop_last(), x);
        assert((ca + cb).push(b.last()) =~= ca + cb.push(b.last()));
    }
}

/// An article with no parent is nobody's reply.
proof fn lemma_children_of_remove_root(s: Seq<ArticleRefV>, i: int, x: Seq<char>)
    requires
        0 <= i < s.len(),
        s[i].parent_id is None,
    ensures
        children_of(s.remove(i), x) == children_of(s, x),
{
    let a = s.take(i);
    let b = s.skip(i + 1);
    let m = seq![s[i]];
    assert(s.remove(i) =~= a + b);
    assert(s =~= (a + m) + b);
    assert(m.drop_last() =~= Seq::<ArticleRefV>::empty());
    assert(m.last() == s[i]);
    assert(children_of(Seq::<ArticleRefV>::empty(), x) =~= Seq::<ArticleRefV>::empty());
    assert(children_of(m, x) =~= Seq::<ArticleRefV>::empty());
    lemma_children_of_concat(a, m, x);
    lemma_children_of_concat(a + m, b, x);
    lemma_children_of_concat(a, b, x);
    assert(children_of(a, x) + children_of(m, x) =~= children_of(a, x));
}

/// Steps it takes to build the tree for `id` from `pool`: one to start the
/// node, one to finish it, and those of its replies.
spec fn work(id: Seq<char>, pool: Seq<ArticleRefV>) -> nat
    decreases pool.len(), 0nat,
{
    let kids = children_of(pool, id);
    if kids.len() == 0 {
        2
    } else {
        proof {
            lemma_split_len(pool, id);
        }
        2 + works(kids, others_of(pool, id))
    }
}

/// Steps it takes to build the trees of `kids` from `pool`.
spec fn works(kids: Seq<ArticleRefV>, pool: Seq<ArticleRefV>) -> nat
    decreases pool.len(), kids.len() + 1,
{
    if kids.len() == 0 {
        0
    } else {
        work(kids[0].message_id, pool) + works(kids.drop_first(), pool)
    }
}

/// A node under construction: its Message-ID and article, the articles that
/// reply to it, how many of them have been started, the replies built so
/// far, and the pool it is drawn from.
struct Frame {
    id: String,
    article: Option<ThreadedArticleRef>,
    kids: Vec<ThreadedArticleRef>,
    next: usize,
    replies: Vec<ThreadNode>,
    pool: Ghost<Seq<ArticleRefV>>,
}

/// The pool that the replies of a node are drawn from.
spec fn frame_rest(f: Frame) -> Seq<ArticleRefV> {
    others_of(f.pool@, f.id@)
}

/// The replies of `f` are the trees of its first `n` reply articles.
spec fn replies_built(f: Frame, n: int) -> bool {
    nodes_view(f.replies@) == sort_by_date(build_trees(arts_view(f.kids@).take(n), frame_rest(f)))
}

/// `child` is the node of the reply article that `parent` started last.
spec fn started(parent: Frame, child: Frame) -> bool {
    &&& 1 <= parent.next <= parent.kids.len()
    &&& child.id@ == arts_view(parent.kids@)[parent.next - 1].message_id
    &&& opt_article(child.article) == Some(arts_view(parent.kids@)[parent.next - 1])
    &&& child.pool@ == frame_rest(parent)
}

/// Steps left for a stack of nodes under construction.
spec fn stack_work(s: Seq<Frame>) -> nat
    decreases s.len(),
{
    if s.len() == 0 {
        0
    } else {
        let f = s.last();
        stack_work(s.drop_last()) + 1 + works(arts_view(f.kids@).skip(f.next as int), frame_rest(f))
    }
}

/// What holds of a stack of nodes under construction, built from `drawn`,
/// whose articles' replies are found in `p0`.
spec fn stack_ok(s: Seq<Frame>, ids: Seq<Seq<char>>, drawn: Seq<ArticleRefV>, p0: Seq<ArticleRefV>) -> bool {
    &&& s.len() >= 1
    &&& ids.len() == s.len()
    &&& forall|x: Seq<char>| #[trigger] children_of(drawn, x) == children_of(p0, x)
    &&& forall|j: int| 0 <= j < s.len() ==> (#[trigger] s[j]).id@ == ids[j]
    &&& forall|j: int| 0 <= j < s.len() ==> (#[trigger] s[j]).pool@ == outside(drawn, ids.take(j))
    &&& forall|j: int| 0 <= j < s.len() ==> arts_view((#[trigger] s[j]).kids@) == children_of(s[j].pool@, s[j].id@)
    &&& forall|j: int| 0 <= j < s.len() ==> (#[trigger] s[j]).next <= s[j].kids.len()
    &&& forall|j: int| 0 <= j < s.len() - 1 ==> started(#[trigger] s[j], s[j + 1])
    &&& forall|j: int| 0 <= j < s.len() - 1 ==> replies_built(#[trigger] s[j], s[j].next - 1)
    &&& replies_built(s.last(), s.last().next as int)
}

/// Whether a node under construction has Message-ID `x`.
fn frames_hold_id(st: &Vec<Frame>, x: &String) -> (r: bool)
    ensures
        r == exists|j: int| 0 <= j < st@.len() && (#[trigger] st@[j]).id@ == x@,
{
    let mut i: usize = 0;
    while i < st.len()
        invariant
            i <= st.len(),
            forall|j: int| 0 <= j < i ==> (#[trigger] st@[j]).id@ != x@,
        decreases st.len() - i,
    {
        if st[i].id == *x {
            assert(st@[i as int].id@ == x@);
            return true;
        }
        i = i + 1;
    }
    false
}

/// Whether the Message-ID of a reply about to start is one of the nodes
/// under construction.
proof fn lemma_push_seen(s: Seq<Frame>, d: Seq<Frame>, ids: Seq<Seq<char>>, kv: Seq<char>)
    requires
        s.len() >= 1,
        d == s.drop_last(),
        ids.len() == s.len(),
        forall|j: int| 0 <= j < s.len() ==> (#[trigger] s[j]).id@ == ids[j],
    ensures
        ids.contains(kv) <==> (s.last().id@ == kv || exists|j: int| 0 <= j < d.len() && (#[trigger] d[j]).id@ == kv),
{
    let t = s.len() - 1;
    if ids.contains(kv) {
        let i = choose|i: int| 0 <= i < ids.len() && ids[i] == kv;
        assert(s[i].id@ == ids[i]);
        if i < t {
            assert(d[i] == s[i]);
        }
    }
    if s.last().id@ == kv {
        assert(s[t].id@ == ids[t]);
    }
    if exists|j: int| 0 <= j < d.len() && (#[trigger] d[j]).id@ == kv {
        let j = choose|j: int| 0 <= j < d.len() && (#[trigger] d[j]).id@ == kv;
        assert(d[j] == s[j]);
        assert(s[j].id@ == ids[j]);
    }
}

/// Starting the next reply of the top node keeps the stack in order, and
/// leaves fewer steps to take.
#[verifier::spinoff_prover]
#[verifier::rlimit(40)]
proof fn lemma_push_step(
    s: Seq<Frame>,
    s2: Seq<Frame>,
    ids: Seq<Seq<char>>,
    kv: Seq<char>,
    drawn: Seq<ArticleRefV>,
    p0: Seq<ArticleRefV>,
)
    requires
        stack_ok(s, ids, drawn, p0),
        s.last().next < s.last().kids.len(),
        s2.len() == s.len() + 1,
        forall|j: int| 0 <= j < s.len() - 1 ==> s2[j] == s[j],
        s2[s.len() - 1].id == s.last().id,
        s2[s.len() - 1].article == s.last().article,
        s2[s.len() - 1].kids == s.last().kids,
        s2[s.len() - 1].replies == s.last().replies,
        s2[s.len() - 1].pool == s.last().pool,
        s2[s.len() - 1].next == s.last().next + 1,
        s2.last().id@ == kv,
        kv == arts_view(s.last().kids@)[s.last().next as int].message_id,
        opt_article(s2.last().article) == Some(arts_view(s.last().kids@)[s.last().next as int]),
        arts_view(s2.last().kids@) == (if ids.contains(kv) {
            Seq::empty()
        } else {
            children_of(p0, kv)
        }),
        s2.last().next == 0,
        s2.last().replies@.len() == 0,
        s2.last().pool@ == frame_rest(s.last()),
    ensures
        stack_ok(s2, ids.push(kv), drawn, p0),
        s2[0].id == s[0].id,
        s2[0].article == s[0].article,
        s2[0].pool == s[0].pool,
        stack_work(s2) < stack_work(s),
{
    let t = s.len() - 1;
    let top = s[t];
    let top2 = s2[t];
    let nw = s2[t + 1];
    let ids2 = ids.push(kv);
    let ks = arts_view(top.kids@);
    let n = top.next as int;
    let rest = frame_rest(top);
    assert(top == s.last());
    assert(nw == s2.last());
    assert forall|j: int| 0 <= j <= t implies #[trigger] ids2.take(j) == ids.take(j) by {
        assert(ids2.take(j) =~= ids.take(j));
    }
    assert(top.pool@ == outside(drawn, ids.take(t)));
    assert(top.id@ == ids[t]);
    lemma_others_of_outside(drawn, ids.take(t), ids[t]);
    assert(ids.take(t).push(ids[t]) =~= ids);
    assert(ids2.take(t + 1) =~= ids);
    assert(rest == outside(drawn, ids));
    lemma_children_of_outside(drawn, ids, kv);
    assert(children_of(drawn, kv) == children_of(p0, kv));
    assert(arts_view(nw.kids@) == children_of(rest, kv));
    assert forall|j: int| 0 <= j < s2.len() implies (#[trigger] s2[j]).id@ == ids2[j] by {
        if j < t {
            assert(s2[j] == s[j]);
        }
    }
    assert forall|j: int| 0 <= j < s2.len() implies (#[trigger] s2[j]).pool@ == outside(drawn, ids2.take(j)) by {
        if j < t {
            assert(s2[j] == s[j]);
            assert(ids2.take(j) == ids.take(j));
        } else if j == t {
            assert(ids2.take(j) == ids.take(j));
        }
    }
    assert forall|j: int| 0 <= j < s2.len() implies arts_view((#[trigger] s2[j]).kids@) == children_of(s2[j].pool@, s2[j].id@) by {
        if j < t {
            assert(s2[j] == s[j]);
        }
    }
    assert forall|j: int| 0 <= j < s2.len() implies (#[trigger] s2[j]).next <= s2[j].kids.len() by {
        if j < t {
            assert(s2[j] == s[j]);
        }
    }
    assert forall|j: int| 0 <= j < s2.len() - 1 implies started(#[trigger] s2[j], s2[j + 1]) by {
        if j < t {
            assert(s2[j] == s[j]);
            assert(started(s[j], s[j + 1]));
            if j + 1 < t {
                assert(s2[j + 1] == s[j + 1]);
            }
        }
    }
    assert forall|j: int| 0 <= j < s2.len() - 1 implies replies_built(#[trigger] s2[j], s2[j].next - 1) by {
        if j < t {
            assert(s2[j] == s[j]);
        } else {
            assert(replies_built(top, n));
        }
    }
    assert(arts_view(nw.kids@).take(0) =~= Seq::<ArticleRefV>::empty());
    assert(nodes_view(nw.replies@) =~= Seq::<NodeV>::empty());
    assert(build_trees(Seq::<ArticleRefV>::empty(), frame_rest(nw)) =~= Seq::<NodeV>::empty());
    assert(replies_built(nw, 0));
    assert(ks.skip(n).drop_first() =~= ks.skip(n + 1));
    assert(ks.skip(n)[0] == ks[n]);
    assert(works(ks.skip(n), rest) == work(kv, rest) + works(ks.skip(n + 1), rest));
    assert(s2.drop_last().drop_last() =~= s.drop_last());
    assert(s2.drop_last().last() == top2);
    let nk = arts_view(nw.kids@);
    assert(nk.skip(0) =~= nk);
    assert(frame_rest(nw) == others_of(rest, kv));
    assert(frame_rest(top2) == rest);
    assert(stack_work(s) == stack_work(s.drop_last()) + 1 + works(ks.skip(n), rest));
    assert(stack_work(s2.drop_last()) == stack_work(s.drop_last()) + 1 + works(ks.skip(n + 1), rest));
    assert(stack_work(s2) == stack_work(s2.drop_last()) + 1 + works(nk, others_of(rest, kv)));
    if nk.len() == 0 {
        assert(works(nk, others_of(rest, kv)) == 0);
    }
}

/// Finishing the top node and adding it to the replies of the node below
/// keeps the stack in order, and leaves fewer steps to take.
#[verifier::spinoff_prover]
#[verifier::rlimit(40)]
proof fn lemma_pop_step(
    s: Seq<Frame>,
    s2: Seq<Frame>,
    ids: Seq<Seq<char>>,
    drawn: Seq<ArticleRefV>,
    p0: Seq<ArticleRefV>,
    nv: NodeV,
)
    requires
        stack_ok(s, ids, drawn, p0),
        s.len() >= 2,
        s.last().next >= s.last().kids.len(),
        nv == build_tree(s.last().id@, opt_article(s.last().article), s.last().pool@),
        s2.len() == s.len() - 1,
        forall|j: int| 0 <= j < s.len() - 2 ==> s2[j] == s[j],
        s2.last().id == s[s.len() - 2].id,
        s2.last().article == s[s.len() - 2].article,
        s2.last().kids == s[s.len() - 2].kids,
        s2.last().next == s[s.len() - 2].next,
        s2.last().pool == s[s.len() - 2].pool,
        nodes_view(s2.last().replies@) == insert_by_date(nodes_view(s[s.len() - 2].replies@), nv),
    ensures
        stack_ok(s2, ids.drop_last(), drawn, p0),
        s2[0].id == s[0].id,
        s2[0].article == s[0].article,
        s2[0].pool == s[0].pool,
        stack_work(s2) < stack_work(s),
{
    let t = s.len() - 1;
    let top = s[t];
    let p = s[t - 1];
    let p2 = s2[t - 1];
    let ids2 = ids.drop_last();
    let ks = arts_view(p.kids@);
    let pn = p.next as int;
    let r = frame_rest(p);
    assert(top == s.last());
    assert(p2 == s2.last());
    assert(started(p, top));
    assert(replies_built(p, pn - 1));
    assert(ks.take(pn).drop_last() =~= ks.take(pn - 1));
    assert(ks.take(pn).last() == ks[pn - 1]);
    let bt = build_trees(ks.take(pn - 1), r);
    assert(build_trees(ks.take(pn), r) == bt.push(nv));
    assert(bt.push(nv).drop_last() =~= bt);
    assert(sort_by_date(bt.push(nv)) == insert_by_date(sort_by_date(bt), nv));
    assert(frame_rest(p2) == r);
    assert(replies_built(p2, pn));
    assert forall|j: int| 0 <= j < t implies #[trigger] ids2.take(j) == ids.take(j) by {
        assert(ids2.take(j) =~= ids.take(j));
    }
    assert forall|j: int| 0 <= j < s2.len() implies (#[trigger] s2[j]).id@ == ids2[j] by {
        if j < t - 1 {
            assert(s2[j] == s[j]);
        }
    }
    assert forall|j: int| 0 <= j < s2.len() implies (#[trigger] s2[j]).pool@ == outside(drawn, ids2.take(j)) by {
        assert(ids2.take(j) == ids.take(j));
        if j < t - 1 {
            assert(s2[j] == s[j]);
        }
    }
    assert forall|j: int| 0 <= j < s2.len() implies arts_view((#[trigger] s2[j]).kids@) == children_of(s2[j].pool@, s2[j].id@) by {
        if j < t - 1 {
            assert(s2[j] == s[j]);
        }
    }
    assert forall|j: int| 0 <= j < s2.len() implies (#[trigger] s2[j]).next <= s2[j].kids.len() by {
        if j < t - 1 {
            assert(s2[j] == s[j]);
        }
    }
    assert forall|j: int| 0 <= j < s2.len() - 1 implies started(#[trigger] s2[j], s2[j + 1]) by {
        assert(s2[j] == s[j]);
        assert(started(s[j], s[j + 1]));
        if j + 1 < t - 1 {
            assert(s2[j + 1] == s[j + 1]);
        }
    }
    assert forall|j: int| 0 <= j < s2.len() - 1 implies replies_built(#[trigger] s2[j], s2[j].next - 1) by {
        assert(s2[j] == s[j]);
    }
    assert(arts_view(top.kids@).skip(top.next as int) =~= Seq::<ArticleRefV>::empty());
    assert(s2.drop_last() =~= s.drop_last().drop_last());
    assert(s.drop_last().last() == p);
    assert(stack_work(s) == stack_work(s.drop_last()) + 1 + works(Seq::<ArticleRefV>::empty(), frame_rest(top)));
    assert(stack_work(s.drop_last()) == stack_work(s.drop_last().drop_last()) + 1 + works(ks.skip(pn), r));
    assert(stack_work(s2) == stack_work(s2.drop_last()) + 1 + works(ks.skip(pn), r));
}

/// A finished node is the tree its Message-ID, article and pool give.
proof fn lemma_finished(f: Frame, node: ThreadNode)
    requires
        arts_view(f.kids@) == children_of(f.pool@, f.id@),
        f.next == f.kids.len(),
        replies_built(f, f.next as int),
        node.article == f.article,
        node.replies == f.replies,
        node.message_id == f.id,
    ensures
        node@ == build_tree(f.id@, opt_article(f.article), f.pool@),
{
    let ks = arts_view(f.kids@);
    assert(ks.take(f.next as int) =~= ks);
    assert(node@.replies =~= nodes_view(node.replies@));
    if ks.len() == 0 {
        assert(build_trees(ks, frame_rest(f)) =~= Seq::<NodeV>::empty());
        assert(nodes_view(f.replies@) =~= Seq::<NodeV>::empty());
    }
}

/// Build the tree for Message-ID `id` from the articles `drawn` (see
/// `build_tree`), whose replies are found among the articles of `pool`.
///
/// The nodes under construction stand on a stack of their own, so a thread
/// of any depth is built without deep recursion.
fn build_node(
    id: String,
    article: Option<ThreadedArticleRef>,
    pool: &Vec<ThreadedArticleRef>,
    Ghost(drawn): Ghost<Seq<ArticleRefV>>,
) -> (r: ThreadNode)
    requires
        forall|x: Seq<char>| #[trigger] children_of(drawn, x) == children_of(arts_view(pool@), x),
    ensures
        r@ == build_tree(id@, opt_article(article), drawn),
{
    let ghost p0 = arts_view(pool@);
    let ghost root_id = id@;
    let ghost root_art = opt_article(article);
    proof {
        lemma_outside_none(drawn);
    }
    let kids = collect_children(pool, &id);
    let mut st: Vec<Frame> = Vec::new();
    st.push(Frame { id, article, kids, next: 0, replies: Vec::new(), pool: Ghost(drawn) });
    let ghost mut ids: Seq<Seq<char>> = seq![root_id];
    proof {
        let f = st@[0];
        assert(ids.take(0) =~= Seq::<Seq<char>>::empty());
        assert(arts_view(f.kids@).take(0) =~= Seq::<ArticleRefV>::empty());
        assert(nodes_view(f.replies@) =~= Seq::<NodeV>::empty());
        assert(build_trees(Seq::<ArticleRefV>::empty(), frame_rest(f)) =~= Seq::<NodeV>::empty());
    }
    loop
        invariant
            p0 == arts_view(pool@),
            root_id == id@,
            root_art == opt_article(article),
            stack_ok(st@, ids, drawn, p0),
            st@[0].id@ == root_id,
            opt_article(st@[0].article) == root_art,
            st@[0].pool@ == drawn,
        decreases stack_work(st@),
    {
        let ghost s = st@;
        let ghost t = s.len() - 1;
        let mut top = st.pop().unwrap();
        if top.next < top.kids.len() {
            let kid = top.kids[top.next].copy();
            let kid_id = kid.message_id.clone();
            let seen = top.id == kid_id || frames_hold_id(&st, &kid_id);
            let ghost kv = kid_id@;
            proof {
                lemma_push_seen(s, st@, ids, kv);
            }
            let kid_kids = if seen {
                let none: Vec<ThreadedArticleRef> = Vec::new();
                assert(arts_view(none@) =~= Seq::<ArticleRefV>::empty());
                none
            } else {
                collect_children(pool, &kid_id)
            };
            let ghost rest = frame_rest(top);
            top.next = top.next + 1;
            st.push(top);
            st.push(Frame { id: kid_id, article: Some(kid), kids: kid_kids, next: 0, replies: Vec::new(), pool: Ghost(rest) });
            proof {
                lemma_push_step(s, st@, ids, kv, drawn, p0);
                ids = ids.push(kv);
            }
        } else {
            let ghost f = top;
            let Frame { id: fid, article: fart, kids: _, next: _, replies: freplies, pool: _ } = top;
            let node = ThreadNode { article: fart, replies: freplies, message_id: fid };
            proof {
                lemma_finished(f, node);
            }
            if st.len() == 0 {
                proof {
                    assert(f == s[0]);
                }
                return node;
            }
            let mut parent = st.pop().unwrap();
            let ghost nv = node@;
            insert_reply(&mut parent.replies, node);
            st.push(parent);
            proof {
                lemma_pop_step(s, st@, ids, drawn, p0, nv);
                ids = ids.drop_last();
            }
        }
    }
}

/// The subject of the thread rooted at `node` (see `thread_subject`).
fn subject_of(node: &ThreadNode) -> (r: String)
    ensures
        r@ == thread_subject(node@),
{
    let mut it = ThreadIterator::new(node);
    match it.next() {
        Some(a) => normalize_subject(a.subject.as_str()),
        None => String::new(),
    }
}

/// The date of the most recent article of a thread.
fn most_recent_date(thread: &Thread) -> (r: Vec<char>)
    ensures
        r@ == most_recent(thread@),
{
    let arts = thread.articles();
    let ghost s = super::types::article_refs_view(arts@);
    let mut best: Vec<char> = Vec::new();
    let mut i: usize = 0;
    assert(s.take(0) =~= Seq::<ArticleRefV>::empty());
    while i < arts.len()
        invariant
            s == super::types::article_refs_view(arts@),
            s == articles_of(preorder(thread@.root)),
            i <= arts.len(),
            best@ == latest_date(s.take(i as int)),
        decreases arts.len() - i,
    {
        assert(s.take(i + 1).drop_last() =~= s.take(i as int));
        let d = chars_of_string(&arts[i].date);
        assert(d@ == s[i as int].date);
        if !chars_le(&d, &best) {
            best = d;
        }
        i = i + 1;
    }
    assert(s.take(i as int) =~= s);
    best
}

/// Insert a thread into threads sorted by recency (see
/// `insert_by_recency`), keeping each thread's most recent date beside it.
fn insert_thread(threads: &mut Vec<Thread>, dates: &mut Vec<Vec<char>>, x: Thread)
    requires
        old(threads).len() == old(dates).len(),
        forall|j: int| 0 <= j < old(dates).len() ==> old(dates)@[j]@ == most_recent(old(threads)@[j]@),
    ensures
        final(threads).len() == final(dates).len(),
        forall|j: int| 0 <= j < final(dates).len() ==> final(dates)@[j]@ == most_recent(final(threads)@[j]@),
        threads_view(final(threads)@) == insert_by_recency(threads_view(old(threads)@), x@),
{
    let ghost s = threads_view(threads@);
    let xd = most_recent_date(&x);
    let mut p: usize = threads.len();
    assert(s.take(p as int) =~= s);
    assert(s.skip(p as int) =~= Seq::<ThreadV>::empty());
    while p > 0 && !chars_le(&xd, &dates[p - 1])
        invariant
            s == threads_view(threads@),
            threads.len() == dates.len(),
            forall|j: int| 0 <= j < dates.len() ==> dates@[j]@ == most_recent(threads@[j]@),
            p <= threads.len(),
            xd@ == most_recent(x@),
            insert_by_recency(s, x@) == insert_by_recency(s.take(p as int), x@) + s.skip(p as int),
        decreases p,
    {
        assert(threads@[p - 1]@ == s[p - 1]);
        assert(s.take(p as int).last() == s[p - 1]);
        assert(s.take(p as int).drop_last() =~= s.take(p - 1));
        assert(s.skip(p - 1) =~= seq![s[p - 1]] + s.skip(p as int));
        assert(insert_by_recency(s.take(p - 1), x@).push(s[p - 1]) + s.skip(p as int)
            =~= insert_by_recency(s.take(p - 1), x@) + s.skip(p - 1));
        p = p - 1;
    }
    let ghost xv = x@;
    let ghost old_threads = threads@;
    let ghost old_dates = dates@;
    if p == 0 {
        assert(s.take(0) =~= Seq::<ThreadV>::empty());
    } else {
        assert(threads@[p - 1]@ == s[p - 1]);
        assert(s.take(p as int).last() == s[p - 1]);
        assert(insert_by_recency(s.take(p as int), xv) == s.take(p as int).push(xv));
    }
    threads.insert(p, x);
    dates.insert(p, xd);
    assert(threads_view(threads@) =~= s.take(p as int) + seq![xv] + s.skip(p as int));
    assert forall|j: int| 0 <= j < dates.len() implies dates@[j]@ == most_recent(threads@[j]@) by {
        if j < p {
            assert(dates@[j] == old_dates[j] && threads@[j] == old_threads[j]);
        } else if j > p {
            assert(dates@[j] == old_dates[j - 1] && threads@[j] == old_threads[j - 1]);
        }
    }
}

/// Whether the articles `arts` include Message-ID `id`.
pub(crate) fn contains_id(arts: &Vec<ThreadedArticleRef>, id: &String) -> (r: bool)
    ensures
        r == has_id(arts_view(arts@), id@),
{
    let ghost s = arts_view(arts@);
    let mut i: usize = 0;
    while i < arts.len()
        invariant
            s == arts_view(arts@),
            i <= arts.len(),
            forall|j: int| 0 <= j < i ==> s[j].message_id != id@,
        decreases arts.len() - i,
    {
        assert(s[i as int] == arts@[i as int]@);
        if arts[i].message_id == *id {
            assert(s[i as int].message_id == id@);
            return true;
        }
        i = i + 1;
    }
    false
}

/// The missing parents of the articles (see `missing_parents`).
fn find_missing_parents(arts: &Vec<ThreadedArticleRef>) -> (r: Vec<String>)
    ensures
        crate::text::strings_of(r@) == missing_parents(arts_view(arts@), arts_view(arts@)),
{
    let ghost s = arts_view(arts@);
    let mut out: Vec<String> = Vec::new();
    let mut i: usize = 0;
    assert(s.take(0) =~= Seq::<ArticleRefV>::empty());
    while i < arts.len()
        invariant
            s == arts_view(arts@),
            i <= arts.len(),
            crate::text::strings_of(out@) == missing_parents(s, s.take(i as int)),
        decreases arts.len() - i,
    {
        assert(s.take(i + 1).drop_last() =~= s.take(i as int));
        assert(s.take(i + 1).last() == arts@[i as int]@);
        match &arts[i].parent_id {
            Some(p) => {
                if !contains_id(arts, p) && !contains_string(&out, p) {
                    let ghost before = crate::text::strings_of(out@);
                    out.push(p.clone());
                    assert(crate::text::strings_of(out@) =~= before.push(p@));
                }
            },
            None => {},
        }
        i = i + 1;
    }
    assert(s.take(i as int) =~= s);
    out
}

/// Whether a vector of strings holds `p`.
fn contains_string(v: &Vec<String>, p: &String) -> (r: bool)
    ensures
        r == crate::text::strings_of(v@).contains(p@),
{
    let mut i: usize = 0;
    while i < v.len()
        invariant
            i <= v.len(),
            forall|j: int| 0 <= j < i ==> v@[j]@ != p@,
        decreases v.len() - i,
    {
        if v[i] == *p {
            assert(crate::text::strings_of(v@)[i as int] == p@);
            return true;
        }
        i = i + 1;
    }
    assert(!crate::text::strings_of(v@).contains(p@)) by {
        if crate::text::strings_of(v@).contains(p@) {
            let j = choose|j: int| 0 <= j < v@.len() && crate::text::strings_of(v@)[j] == p@;
            assert(v@[j]@ == p@);
        }
    }
    false
}

/// Build thread trees from a list of article references.
///
/// Missing articles get placeholder nodes: when articles reference a parent
/// that is not in the set, they are grouped under a placeholder for it. The
/// result is described by `thread_forest`: threads sorted by most recent
/// activity, replies sorted by date.
pub fn build_threads(articles: Vec<ThreadedArticleRef>, group: &str) -> (r: ThreadCollection)
    ensures
        r.group_spec() == group@,
        r.threads_spec() == thread_forest(arts_view(articles@)),
{
    let arts = dedup_articles(&articles);
    let ghost s = arts_view(arts@);
    let mut threads: Vec<Thread> = Vec::new();
    let mut dates: Vec<Vec<char>> = Vec::new();
    let ghost mut unsorted: Seq<ThreadV> = Seq::empty();
    let mut i: usize = 0;
    while i < arts.len()
        invariant
            s == arts_view(arts@),
            i <= arts.len(),
            unsorted == article_threads(s, i as int),
            threads.len() == dates.len(),
            forall|j: int| 0 <= j < dates.len() ==> dates@[j]@ == most_recent(threads@[j]@),
            threads_view(threads@) == sort_by_recency(unsorted),
        decreases arts.len() - i,
    {
        let a = &arts[i];
        assert(a@ == s[i as int]);
        if a.parent_id.is_none() {
            let root = a.copy();
            proof {
                assert forall|x: Seq<char>| #[trigger] children_of(s.remove(i as int), x) == children_of(s, x) by {
                    lemma_children_of_remove_root(s, i as int, x);
                }
            }
            let node = build_node(root.message_id.clone(), Some(root), &arts, Ghost(s.remove(i as int)));
            let subject = subject_of(&node);
            let t = Thread::new(node, subject);
            proof {
                unsorted = unsorted.push(t@);
                assert(unsorted.drop_last() == article_threads(s, i as int));
            }
            insert_thread(&mut threads, &mut dates, t);
        }
        i = i + 1;
    }
    let missing = find_missing_parents(&arts);
    let ghost ms = crate::text::strings_of(missing@);
    let ghost articles_part = unsorted;
    let ghost mut placeholders: Seq<ThreadV> = Seq::empty();
    let mut k: usize = 0;
    assert(ms.take(0) =~= Seq::<Seq<char>>::empty());
    while k < missing.len()
        invariant
            s == arts_view(arts@),
            ms == crate::text::strings_of(missing@),
            k <= missing.len(),
            placeholders == placeholder_threads(s, ms.take(k as int)),
            unsorted == articles_part + placeholders,
            threads.len() == dates.len(),
            forall|j: int| 0 <= j < dates.len() ==> dates@[j]@ == most_recent(threads@[j]@),
            threads_view(threads@) == sort_by_recency(unsorted),
        decreases missing.len() - k,
    {
        let p = &missing[k];
        assert(p@ == ms[k as int]);
        assert(ms.take(k + 1).drop_last() =~= ms.take(k as int));
        let node = build_node(p.clone(), None, &arts, Ghost(s));
        let subject = subject_of(&node);
        let t = Thread::new(node, subject);
        proof {
            placeholders = placeholders.push(t@);
            unsorted = unsorted.push(t@);
            assert(unsorted.drop_last() =~= articles_part + placeholder_threads(s, ms.take(k as int)));
            assert(unsorted =~= articles_part + placeholders);
        }
        insert_thread(&mut threads, &mut dates, t);
        k = k + 1;
    }
    assert(ms.take(k as int) =~= ms);
    ThreadCollection::new(group.to_owned(), threads)
}

/// Every reply in a tree is an article that names its parent node as its
/// parent, and so on down the tree.
pub open spec fn linked(t: NodeV) -> bool
    decreases t,
{
    linked_under(t, t.replies)
}

/// Every node of `s` is a reply to `p` and is linked.
pub open spec fn linked_under(p: NodeV, s: Seq<NodeV>) -> bool
    decreases s,
{
    s.len() == 0 || (linked_under(p, s.drop_last()) && reply_of(p, s.last()) && linked(s.last()))
}

/// Whether `child` is an article that names `parent` as its parent.
pub open spec fn reply_of(parent: NodeV, child: NodeV) -> bool {
    &&& child.article is Some
    &&& child.article->0.parent_id == Some(parent.message_id)
    &&& child.article->0.message_id == child.message_id
}

/// `linked_under` holds of each node.
proof fn lemma_linked_under(p: NodeV, s: Seq<NodeV>)
    ensures
        linked_under(p, s) <==> forall|i: int| 0 <= i < s.len() ==> reply_of(p, #[trigger] s[i]) && linked(s[i]),
    decreases s.len(),
{
    if s.len() > 0 {
        lemma_linked_under(p, s.drop_last());
        if forall|i: int| 0 <= i < s.len() ==> reply_of(p, #[trigger] s[i]) && linked(s[i]) {
            assert forall|i: int| 0 <= i < s.drop_last().len() implies reply_of(p, #[trigger] s.drop_last()[i]) && linked(s.drop_last()[i]) by {
                assert(s.drop_last()[i] == s[i]);
            }
            assert(reply_of(p, s[s.len() - 1]));
        }
        if linked_under(p, s) {
            assert forall|i: int| 0 <= i < s.len() implies reply_of(p, #[trigger] s[i]) && linked(s[i]) by {
                if i < s.len() - 1 {
                    assert(s.drop_last()[i] == s[i]);
                }
            }
        }
    }
}

/// Nodes sorted by date, oldest first.
pub open spec fn sorted_by_date(s: Seq<NodeV>) -> bool {
    forall|i: int, j: int| 0 <= i < j < s.len() ==> str_le(node_date(#[trigger] s[i]), node_date(#[trigger] s[j]))
}

/// Every node's replies in a tree are sorted by date.
pub open spec fn replies_sorted(t: NodeV) -> bool
    decreases t,
{
    sorted_by_date(t.replies) && all_replies_sorted(t.replies)
}

/// `replies_sorted` holds of every tree of `s`.
pub open spec fn all_replies_sorted(s: Seq<NodeV>) -> bool
    decreases s,
{
    s.len() == 0 || (all_replies_sorted(s.drop_last()) && replies_sorted(s.last()))
}

/// `all_replies_sorted` holds of each tree.
proof fn lemma_all_replies_sorted(s: Seq<NodeV>)
    ensures
        all_replies_sorted(s) <==> forall|i: int| 0 <= i < s.len() ==> replies_sorted(#[trigger] s[i]),
    decreases s.len(),
{
    if s.len() > 0 {
        lemma_all_replies_sorted(s.drop_last());
        if forall|i: int| 0 <= i < s.len() ==> replies_sorted(#[trigger] s[i]) {
            assert forall|i: int| 0 <= i < s.drop_last().len() implies replies_sorted(#[trigger] s.drop_last()[i]) by {
                assert(s.drop_last()[i] == s[i]);
            }
            assert(replies_sorted(s[s.len() - 1]));
        }
        if all_replies_sorted(s) {
            assert forall|i: int| 0 <= i < s.len() implies replies_sorted(#[trigger] s[i]) by {
                if i < s.len() - 1 {
                    assert(s.drop_last()[i] == s[i]);
                }
            }
        }
    }
}

/// Threads sorted by most recent activity, most recent first.
pub open spec fn sorted_by_recency(s: Seq<ThreadV>) -> bool {
    forall|i: int, j: int| 0 <= i < j < s.len() ==> str_le(most_recent(#[trigger] s[j]), most_recent(#[trigger] s[i]))
}

/// The articles picked as children all have that parent.
proof fn lemma_children_of(pool: Seq<ArticleRefV>, id: Seq<char>)
    ensures
        forall|i: int| 0 <= i < children_of(pool, id).len() ==> (#[trigger] children_of(pool, id)[i]).parent_id == Some(id),
    decreases pool.len(),
{
    if pool.len() > 0 {
        lemma_children_of(pool.drop_last(), id);
    }
}

/// The trees built for some articles, one per article, in order.
proof fn lemma_build_trees_index(kids: Seq<ArticleRefV>, pool: Seq<ArticleRefV>)
    ensures
        build_trees(kids, pool).len() == kids.len(),
        forall|m: int| 0 <= m < kids.len() ==> #[trigger] build_trees(kids, pool)[m] == build_tree(kids[m].message_id, Some(kids[m]), pool),
    decreases kids.len(),
{
    if kids.len() > 0 {
        lemma_build_trees_index(kids.drop_last(), pool);
        assert forall|m: int| 0 <= m < kids.len() implies #[trigger] build_trees(kids, pool)[m] == build_tree(kids[m].message_id, Some(kids[m]), pool) by {
            if m < kids.len() - 1 {
                assert(kids.drop_last()[m] == kids[m]);
            }
        }
    }
}

/// Inserting by date adds one node and keeps the others.
proof fn lemma_insert_by_date(s: Seq<NodeV>, x: NodeV)
    ensures
        insert_by_date(s, x).len() == s.len() + 1,
        forall|y: NodeV| #[trigger] insert_by_date(s, x).contains(y) ==> s.contains(y) || y == x,
        sorted_by_date(s) ==> sorted_by_date(insert_by_date(s, x)),
    decreases s.len(),
{
    let r = insert_by_date(s, x);
    if s.len() == 0 {
        assert(r =~= seq![x]);
    } else if str_le(node_date(s.last()), node_date(x)) {
        assert forall|y: NodeV| #[trigger] r.contains(y) implies s.contains(y) || y == x by {
            let k = choose|k: int| 0 <= k < r.len() && r[k] == y;
            if k < s.len() {
                assert(s[k] == y);
            }
        }
        if sorted_by_date(s) {
            assert forall|i: int, j: int| 0 <= i < j < r.len() implies str_le(node_date(#[trigger] r[i]), node_date(#[trigger] r[j])) by {
                if j == s.len() && i < s.len() - 1 {
                    assert(str_le(node_date(s[i]), node_date(s[s.len() - 1])));
                    lemma_str_le_trans(node_date(s[i]), node_date(s.last()), node_date(x));
                }
            }
        }
    } else {
        let p = s.drop_last();
        let q = insert_by_date(p, x);
        lemma_insert_by_date(p, x);
        assert forall|y: NodeV| #[trigger] r.contains(y) implies s.contains(y) || y == x by {
            let k = choose|k: int| 0 <= k < r.len() && r[k] == y;
            if k < q.len() {
                assert(q.contains(y));
                if p.contains(y) {
                    let m = choose|m: int| 0 <= m < p.len() && p[m] == y;
                    assert(s[m] == y);
                }
            } else {
                assert(y == s.last());
            }
        }
        if sorted_by_date(s) {
            assert(sorted_by_date(p)) by {
                assert forall|i: int, j: int| 0 <= i < j < p.len() implies str_le(node_date(#[trigger] p[i]), node_date(#[trigger] p[j])) by {
                    assert(p[i] == s[i] && p[j] == s[j]);
                }
            }
            lemma_str_le_total(node_date(s.last()), node_date(x));
            assert forall|i: int, j: int| 0 <= i < j < r.len() implies str_le(node_date(#[trigger] r[i]), node_date(#[trigger] r[j])) by {
                if j == r.len() - 1 {
                    let y = r[i];
                    assert(q.contains(y));
                    if y == x {
                    } else {
                        let m = choose|m: int| 0 <= m < p.len() && p[m] == y;
                        assert(s[m] == y);
                        assert(str_le(node_date(s[m]), node_date(s.last())));
                    }
                }
            }
        }
    }
}

/// Sorting by date keeps the nodes (no new ones, the same number) and
/// sorts them.
proof fn lemma_sort_by_date(s: Seq<NodeV>)
    ensures
        sort_by_date(s).len() == s.len(),
        forall|y: NodeV| #[trigger] sort_by_date(s).contains(y) ==> s.contains(y),
        sorted_by_date(sort_by_date(s)),
    decreases s.len(),
{
    if s.len() > 0 {
        let p = s.drop_last();
        lemma_sort_by_date(p);
        lemma_insert_by_date(sort_by_date(p), s.last());
        assert forall|y: NodeV| #[trigger] sort_by_date(s).contains(y) implies s.contains(y) by {
            if sort_by_date(p).contains(y) {
                assert(p.contains(y));
                let m = choose|m: int| 0 <= m < p.len() && p[m] == y;
                assert(s[m] == y);
            } else {
                assert(s[s.len() - 1] == y);
            }
        }
    }
}

/// A built tree is linked and has its replies sorted by date.
proof fn lemma_build_tree_props(id: Seq<char>, article: Option<ArticleRefV>, pool: Seq<ArticleRefV>)
    ensures
        linked(build_tree(id, article, pool)),
        replies_sorted(build_tree(id, article, pool)),
        build_tree(id, article, pool).message_id == id,
        build_tree(id, article, pool).article == article,
    decreases pool.len(),
{
    let t = build_tree(id, article, pool);
    let kids = children_of(pool, id);
    let rest = others_of(pool, id);
    lemma_split_len(pool, id);
    if kids.len() > 0 {
        let bs = build_trees(kids, rest);
        lemma_build_trees_index(kids, rest);
        lemma_children_of(pool, id);
        lemma_sort_by_date(bs);
        assert forall|i: int| 0 <= i < t.replies.len() implies reply_of(t, #[trigger] t.replies[i]) && linked(t.replies[i])
            && replies_sorted(t.replies[i]) by {
            let y = t.replies[i];
            assert(sort_by_date(bs).contains(y));
            assert(bs.contains(y));
            let m = choose|m: int| 0 <= m < bs.len() && bs[m] == y;
            lemma_build_tree_props(kids[m].message_id, Some(kids[m]), rest);
        }
        lemma_linked_under(t, t.replies);
        lemma_all_replies_sorted(t.replies);
    } else {
        assert(t.replies.len() == 0);
    }
}

/// Every thread among `article_threads` and `placeholder_threads` is rooted
/// at a linked tree with sorted replies.
proof fn lemma_root_threads(arts: Seq<ArticleRefV>, k: int, ms: Seq<Seq<char>>)
    ensures
        forall|i: int| 0 <= i < article_threads(arts, k).len() ==> linked(#[trigger] article_threads(arts, k)[i].root)
            && replies_sorted(article_threads(arts, k)[i].root),
        forall|i: int| 0 <= i < placeholder_threads(arts, ms).len() ==> linked(#[trigger] placeholder_threads(arts, ms)[i].root)
            && replies_sorted(placeholder_threads(arts, ms)[i].root),
    decreases k, ms.len(),
{
    if 0 < k <= arts.len() {
        lemma_root_threads(arts, k - 1, ms);
        let a = arts[k - 1];
        lemma_build_tree_props(a.message_id, Some(a), arts.remove(k - 1));
    } else if ms.len() > 0 {
        lemma_root_threads(arts, k, ms.drop_last());
        lemma_build_tree_props(ms.last(), None, arts);
    }
}

/// Inserting by recency adds one thread and keeps the others.
proof fn lemma_insert_by_recency(s: Seq<ThreadV>, x: ThreadV)
    ensures
        insert_by_recency(s, x).len() == s.len() + 1,
        forall|y: ThreadV| #[trigger] insert_by_recency(s, x).contains(y) ==> s.contains(y) || y == x,
        sorted_by_recency(s) ==> sorted_by_recency(insert_by_recency(s, x)),
    decreases s.len(),
{
    let r = insert_by_recency(s, x);
    if s.len() == 0 {
        assert(r =~= seq![x]);
    } else if str_le(most_recent(x), most_recent(s.last())) {
        assert forall|y: ThreadV| #[trigger] r.contains(y) implies s.contains(y) || y == x by {
            let k = choose|k: int| 0 <= k < r.len() && r[k] == y;
            if k < s.len() {
                assert(s[k] == y);
            }
        }
        if sorted_by_recency(s) {
            assert forall|i: int, j: int| 0 <= i < j < r.len() implies str_le(most_recent(#[trigger] r[j]), most_recent(#[trigger] r[i])) by {
                if j == s.len() && i < s.len() - 1 {
                    assert(str_le(most_recent(s[s.len() - 1]), most_recent(s[i])));
                    lemma_str_le_trans(most_recent(x), most_recent(s.last()), most_recent(s[i]));
                }
            }
        }
    } else {
        let p = s.drop_last();
        let q = insert_by_recency(p, x);
        lemma_insert_by_recency(p, x);
        assert forall|y: ThreadV| #[trigger] r.contains(y) implies s.contains(y) || y == x by {
            let k = choose|k: int| 0 <= k < r.len() && r[k] == y;
            if k < q.len() {
                assert(q.contains(y));
                if p.contains(y) {
                    let m = choose|m: int| 0 <= m < p.len() && p[m] == y;
                    assert(s[m] == y);
                }
            } else {
                assert(y == s.last());
            }
        }
        if sorted_by_recency(s) {
            assert(sorted_by_recency(p)) by {
                assert forall|i: int, j: int| 0 <= i < j < p.len() implies str_le(most_recent(#[trigger] p[j]), most_recent(#[trigger] p[i])) by {
                    assert(p[i] == s[i] && p[j] == s[j]);
                }
            }
            lemma_str_le_total(most_recent(x), most_recent(s.last()));
            assert forall|i: int, j: int| 0 <= i < j < r.len() implies str_le(most_recent(#[trigger] r[j]), most_recent(#[trigger] r[i])) by {
                if j == r.len() - 1 {
                    let y = r[i];
                    assert(q.contains(y));
                    if y == x {
                    } else {
                        let m = choose|m: int| 0 <= m < p.len() && p[m] == y;
                        assert(s[m] == y);
                        assert(str_le(most_recent(s.last()), most_recent(s[m])));
                    }
                }
            }
        }
    }
}

/// Sorting by recency keeps the threads and sorts them.
proof fn lemma_sort_by_recency(s: Seq<ThreadV>)
    ensures
        sort_by_recency(s).len() == s.len(),
        forall|y: ThreadV| #[trigger] sort_by_recency(s).contains(y) ==> s.contains(y),
        sorted_by_recency(sort_by_recency(s)),
    decreases s.len(),
{
    if s.len() > 0 {
        let p = s.drop_last();
        lemma_sort_by_recency(p);
        lemma_insert_by_recency(sort_by_recency(p), s.last());
        assert forall|y: ThreadV| #[trigger] sort_by_recency(s).contains(y) implies s.contains(y) by {
            if sort_by_recency(p).contains(y) {
                assert(p.contains(y));
                let m = choose|m: int| 0 <= m < p.len() && p[m] == y;
                assert(s[m] == y);
            } else {
                assert(s[s.len() - 1] == y);
            }
        }
    }
}

/// Threads come most recently active first: no thread's most recent
/// article is older than that of a thread after it.
pub proof fn lemma_threads_sorted_by_recency(articles: Seq<ArticleRefV>)
    ensures
        sorted_by_recency(thread_forest(articles)),
{
    let arts = dedup(articles);
    lemma_sort_by_recency(
        article_threads(arts, arts.len() as int) + placeholder_threads(arts, missing_parents(arts, arts)),
    );
}

/// In every thread, each reply is an article naming the node it hangs under
/// as its parent, and every node's replies are sorted by date, oldest
/// first.
pub proof fn lemma_thread_trees_well_formed(articles: Seq<ArticleRefV>)
    ensures
        forall|i: int| 0 <= i < thread_forest(articles).len() ==> linked(#[trigger] thread_forest(articles)[i].root)
            && replies_sorted(thread_forest(articles)[i].root),
{
    let arts = dedup(articles);
    let a = article_threads(arts, arts.len() as int);
    let b = placeholder_threads(arts, missing_parents(arts, arts));
    let u = a + b;
    lemma_sort_by_recency(u);
    if articles.len() == 0 {
        assert(u =~= Seq::<ThreadV>::empty());
    }
    lemma_root_threads(arts, arts.len() as int, missing_parents(arts, arts));
    assert forall|i: int| 0 <= i < thread_forest(articles).len() implies linked(#[trigger] thread_forest(articles)[i].root)
        && replies_sorted(thread_forest(articles)[i].root) by {
        let t = thread_forest(articles)[i];
        assert(sort_by_recency(u).contains(t));
        let m = choose|m: int| 0 <= m < u.len() && u[m] == t;
        if m < a.len() {
            assert(a[m] == t);
        } else {
            assert(b[m - a.len()] == t);
        }
    }
}


/// An article of a sequence of trees is an article of one of the trees,
/// and each article of one of the trees is one of the sequence's.
proof fn lemma_articles_in(s: Seq<NodeV>)
    ensures
        forall|x: ArticleRefV| #[trigger] articles_of(preorder_in(s)).contains(x) ==> exists|i: int|
            0 <= i < s.len() && articles_of(preorder(#[trigger] s[i])).contains(x),
        forall|x: ArticleRefV, i: int|
            0 <= i < s.len() && #[trigger] articles_of(preorder(s[i])).contains(x) ==> articles_of(
                preorder_in(s),
            ).contains(x),
    decreases s.len(),
{
    if s.len() > 0 {
        let p = s.drop_last();
        lemma_articles_in(p);
        assert(preorder_in(s) == preorder_in(p) + preorder(s.last()));
        lemma_articles_of_concat(preorder_in(p), preorder(s.last()));
        let a = articles_of(preorder_in(p));
        let b = articles_of(preorder(s.last()));
        assert forall|x: ArticleRefV| #[trigger] articles_of(preorder_in(s)).contains(x) implies exists|i: int|
            0 <= i < s.len() && articles_of(preorder(#[trigger] s[i])).contains(x) by {
            let k = choose|k: int| 0 <= k < (a + b).len() && (a + b)[k] == x;
            if k < a.len() {
                assert(a.contains(x));
                let i = choose|i: int| 0 <= i < p.len() && articles_of(preorder(#[trigger] p[i])).contains(x);
                assert(s[i] == p[i]);
            } else {
                assert(b[k - a.len()] == x);
                assert(s[s.len() - 1] == s.last());
            }
        }
        assert forall|x: ArticleRefV, i: int|
            0 <= i < s.len() && #[trigger] articles_of(preorder(s[i])).contains(x) implies articles_of(
                preorder_in(s),
            ).contains(x) by {
            if i < p.len() {
                assert(s[i] == p[i]);
                assert(a.contains(x));
                let k = choose|k: int| 0 <= k < a.len() && a[k] == x;
                assert((a + b)[k] == x);
            } else {
                let k = choose|k: int| 0 <= k < b.len() && b[k] == x;
                assert((a + b)[a.len() + k] == x);
            }
        }
    }
}

/// The articles whose parent is `id`, and the others, are articles of the
/// pool.
proof fn lemma_split_within(pool: Seq<ArticleRefV>, id: Seq<char>)
    ensures
        forall|x: ArticleRefV| #[trigger] children_of(pool, id).contains(x) ==> pool.contains(x),
        forall|x: ArticleRefV| #[trigger] others_of(pool, id).contains(x) ==> pool.contains(x),
    decreases pool.len(),
{
    if pool.len() > 0 {
        let p = pool.drop_last();
        lemma_split_within(p, id);
        assert forall|x: ArticleRefV| #[trigger] p.contains(x) implies pool.contains(x) by {
            let i = choose|i: int| 0 <= i < p.len() && p[i] == x;
            assert(pool[i] == x);
        }
        assert(pool[pool.len() - 1] == pool.last());
        assert forall|x: ArticleRefV| #[trigger] children_of(pool, id).contains(x) implies pool.contains(x) by {
            let c = children_of(p, id);
            if pool.last().parent_id == Some(id) && x != pool.last() {
                let i = choose|i: int| 0 <= i < c.push(pool.last()).len() && c.push(pool.last())[i] == x;
                assert(c[i] == x);
                assert(c.contains(x));
            } else if pool.last().parent_id != Some(id) {
                assert(c.contains(x));
            }
        }
        assert forall|x: ArticleRefV| #[trigger] others_of(pool, id).contains(x) implies pool.contains(x) by {
            let c = others_of(p, id);
            if pool.last().parent_id != Some(id) && x != pool.last() {
                let i = choose|i: int| 0 <= i < c.push(pool.last()).len() && c.push(pool.last())[i] == x;
                assert(c[i] == x);
                assert(c.contains(x));
            } else if pool.last().parent_id == Some(id) {
                assert(c.contains(x));
            }
        }
    }
}

/// Every article of a tree is its root's article or one of the pool's.
proof fn lemma_tree_articles(id: Seq<char>, article: Option<ArticleRefV>, pool: Seq<ArticleRefV>)
    ensures
        forall|x: ArticleRefV| #[trigger] articles_of(preorder(build_tree(id, article, pool))).contains(x)
            ==> article == Some(x) || pool.contains(x),
    decreases pool.len(), 0nat,
{
    let t = build_tree(id, article, pool);
    let kids = children_of(pool, id);
    let rest = others_of(pool, id);
    lemma_articles_of_concat(seq![t], preorder_in(t.replies));
    assert(preorder(t) == seq![t] + preorder_in(t.replies));
    assert(seq![t].drop_last() =~= Seq::<NodeV>::empty());
    if kids.len() > 0 {
        lemma_split_len(pool, id);
        lemma_trees_articles(kids, rest);
        lemma_split_within(pool, id);
        let u = build_trees(kids, rest);
        lemma_sort_by_date(u);
        lemma_articles_in(t.replies);
        lemma_articles_in(u);
        assert forall|x: ArticleRefV| #[trigger] articles_of(preorder_in(t.replies)).contains(x) implies pool.contains(x) by {
            let i = choose|i: int| 0 <= i < t.replies.len() && articles_of(preorder(#[trigger] t.replies[i])).contains(x);
            assert(t.replies.contains(t.replies[i]));
            assert(u.contains(t.replies[i]));
            let j = choose|j: int| 0 <= j < u.len() && u[j] == t.replies[i];
            assert(articles_of(preorder(u[j])).contains(x));
            assert(articles_of(preorder_in(u)).contains(x));
        }
    } else {
        assert(t.replies =~= Seq::<NodeV>::empty());
    }
    assert(articles_of(seq![t]) == match article {
        Some(y) => seq![y],
        None => Seq::<ArticleRefV>::empty(),
    }) by {
        assert(articles_of(Seq::<NodeV>::empty()) =~= Seq::<ArticleRefV>::empty());
        if let Some(y) = article {
            assert(Seq::<ArticleRefV>::empty().push(y) =~= seq![y]);
        }
    }
    assert forall|x: ArticleRefV| #[trigger] articles_of(preorder(t)).contains(x) implies article == Some(x)
        || pool.contains(x) by {
        let a = articles_of(seq![t]);
        let b = articles_of(preorder_in(t.replies));
        let k = choose|k: int| 0 <= k < (a + b).len() && (a + b)[k] == x;
        if k < a.len() {
            assert(a[k] == x);
        } else {
            assert(b[k - a.len()] == x);
            assert(b.contains(x));
        }
    }
}

/// Every article of the trees of `kids` drawn from `pool` is one of the
/// kids or one of the pool's.
proof fn lemma_trees_articles(kids: Seq<ArticleRefV>, pool: Seq<ArticleRefV>)
    ensures
        forall|x: ArticleRefV| #[trigger] articles_of(preorder_in(build_trees(kids, pool))).contains(x)
            ==> kids.contains(x) || pool.contains(x),
    decreases pool.len(), kids.len() + 1,
{
    if kids.len() > 0 {
        let p = kids.drop_last();
        let k = kids.last();
        lemma_trees_articles(p, pool);
        lemma_tree_articles(k.message_id, Some(k), pool);
        let u = build_trees(p, pool);
        let t = build_tree(k.message_id, Some(k), pool);
        lemma_preorder_in_push(u, t);
        lemma_articles_of_concat(preorder_in(u), preorder(t));
        assert(build_trees(kids, pool) == u.push(t));
        assert forall|x: ArticleRefV| #[trigger] articles_of(preorder_in(build_trees(kids, pool))).contains(x)
            implies kids.contains(x) || pool.contains(x) by {
            let a = articles_of(preorder_in(u));
            let b = articles_of(preorder(t));
            let j = choose|j: int| 0 <= j < (a + b).len() && (a + b)[j] == x;
            if j < a.len() {
                assert(a[j] == x);
                assert(a.contains(x));
                if p.contains(x) {
                    let m = choose|m: int| 0 <= m < p.len() && p[m] == x;
                    assert(kids[m] == x);
                }
            } else {
                assert(b[j - a.len()] == x);
                assert(b.contains(x));
                assert(kids[kids.len() - 1] == k);
            }
        }
    } else {
        assert(build_trees(kids, pool) =~= Seq::<NodeV>::empty());
    }
}

/// Articles kept one per Message-ID are articles given.
proof fn lemma_dedup_within(s: Seq<ArticleRefV>)
    ensures
        forall|x: ArticleRefV| #[trigger] dedup(s).contains(x) ==> s.contains(x),
    decreases s.len(),
{
    if s.len() > 0 {
        let p = s.drop_last();
        lemma_dedup_within(p);
        lemma_without_id_within(dedup(p), s.last().message_id);
        assert forall|x: ArticleRefV| #[trigger] dedup(s).contains(x) implies s.contains(x) by {
            if x != s.last() {
                let w = without_id(dedup(p), s.last().message_id);
                let i = choose|i: int| 0 <= i < dedup(s).len() && dedup(s)[i] == x;
                assert(w.push(s.last())[i] == x);
                assert(w.contains(x));
                let m = choose|m: int| 0 <= m < p.len() && p[m] == x;
                assert(s[m] == x);
            } else {
                assert(s[s.len() - 1] == x);
            }
        }
    }
}

proof fn lemma_without_id_within(s: Seq<ArticleRefV>, id: Seq<char>)
    ensures
        forall|x: ArticleRefV| #[trigger] without_id(s, id).contains(x) ==> s.contains(x),
    decreases s.len(),
{
    if s.len() > 0 {
        lemma_without_id_within(s.drop_last(), id);
        assert forall|x: ArticleRefV| #[trigger] without_id(s, id).contains(x) implies s.contains(x) by {
            let i = choose|i: int| 0 <= i < without_id(s, id).len() && without_id(s, id)[i] == x;
            let r = without_id(s.drop_last(), id);
            if i < r.len() {
                assert(r[i] == x);
                assert(r.contains(x));
                let m = choose|m: int| 0 <= m < s.drop_last().len() && s.drop_last()[m] == x;
                assert(s[m] == x);
            } else {
                assert(s[s.len() - 1] == x);
            }
        }
    }
}

/// The root threads hold only articles of `arts`.
proof fn lemma_root_threads_within(arts: Seq<ArticleRefV>, k: int, ms: Seq<Seq<char>>)
    ensures
        forall|i: int, x: ArticleRefV|
            0 <= i < article_threads(arts, k).len() && #[trigger] articles_of(
                preorder(article_threads(arts, k)[i].root),
            ).contains(x) ==> arts.contains(x),
        forall|i: int, x: ArticleRefV|
            0 <= i < placeholder_threads(arts, ms).len() && #[trigger] articles_of(
                preorder(placeholder_threads(arts, ms)[i].root),
            ).contains(x) ==> arts.contains(x),
    decreases k, ms.len(),
{
    if 0 < k <= arts.len() {
        lemma_root_threads_within(arts, k - 1, Seq::empty());
        let a = arts[k - 1];
        lemma_tree_articles(a.message_id, Some(a), arts.remove(k - 1));
        let rm = arts.remove(k - 1);
        assert forall|x: ArticleRefV| #[trigger] rm.contains(x) implies arts.contains(x) by {
            let m = choose|m: int| 0 <= m < rm.len() && rm[m] == x;
            if m < k - 1 {
                assert(arts[m] == x);
            } else {
                assert(arts[m + 1] == x);
            }
        }
        assert(arts.contains(a)) by {
            assert(arts[k - 1] == a);
        }
    }
    if ms.len() > 0 {
        lemma_root_threads_within(arts, k, ms.drop_last());
        lemma_tree_articles(ms.last(), None, arts);
    }
}

/// Threads hold only articles that were given: every article of every
/// thread in the forest is one of the input articles, unchanged; no articles
/// give no threads.
pub proof fn lemma_forest_articles_given(articles: Seq<ArticleRefV>)
    ensures
        articles.len() == 0 ==> thread_forest(articles).len() == 0,
        forall|i: int, x: ArticleRefV|
            0 <= i < thread_forest(articles).len() && #[trigger] articles_of(
                preorder(thread_forest(articles)[i].root),
            ).contains(x) ==> articles.contains(x),
{
    let arts = dedup(articles);
    let a = article_threads(arts, arts.len() as int);
    let b = placeholder_threads(arts, missing_parents(arts, arts));
    let u = a + b;
    lemma_sort_by_recency(u);
    if articles.len() == 0 {
        assert(u =~= Seq::<ThreadV>::empty());
    }
    lemma_root_threads_within(arts, arts.len() as int, missing_parents(arts, arts));
    lemma_dedup_within(articles);
    assert forall|i: int, x: ArticleRefV|
        0 <= i < thread_forest(articles).len() && #[trigger] articles_of(
            preorder(thread_forest(articles)[i].root),
        ).contains(x) implies articles.contains(x) by {
        let t = thread_forest(articles)[i];
        assert(sort_by_recency(u).contains(t));
        let m = choose|m: int| 0 <= m < u.len() && u[m] == t;
        if m < a.len() {
            assert(a[m] == t);
        } else {
            assert(b[m - a.len()] == t);
        }
        assert(arts.contains(x));
    }
}

} // verus!
