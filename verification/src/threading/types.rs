//! Core types for the high-level threading API.

use vstd::prelude::*;
use vstd::std_specs::iter::IteratorSpec;
use crate::response::OverviewEntry;
use crate::response::metadata::{field_at, number_at, opt_str};
use crate::text::{clone_strings, str_eq, strings_of};
use crate::utils::{parse_references as parse_reference_list, references_of};

verus! {

broadcast use vstd::std_specs::vec::axiom_spec_into_iter;

/// A lightweight reference to an article within a thread.
///
/// Contains threading metadata without full article content.
/// Use this for building thread trees efficiently without fetching
/// the full content of every article.
#[derive(Debug, Clone, PartialEq)]
pub struct ThreadedArticleRef {
    /// Message-ID (globally unique identifier)
    pub message_id: String,
    /// Article number in the group (if known)
    pub number: Option<u64>,
    /// Subject line
    pub subject: String,
    /// Author (From header)
    pub from: String,
    /// Date as string
    pub date: String,
    /// Parent Message-ID (from References/In-Reply-To)
    pub parent_id: Option<String>,
    /// All ancestors from References header (oldest first)
    pub references: Vec<String>,
    /// Byte count (from overview)
    pub byte_count: Option<u64>,
    /// Line count (from overview)
    pub line_count: Option<u64>,
}

/// Mathematical value of a [`ThreadedArticleRef`].
pub struct ArticleRefV {
    pub message_id: Seq<char>,
    pub number: Option<u64>,
    pub subject: Seq<char>,
    pub from: Seq<char>,
    pub date: Seq<char>,
    pub parent_id: Option<Seq<char>>,
    pub references: Seq<Seq<char>>,
    pub byte_count: Option<u64>,
    pub line_count: Option<u64>,
}

/// View of an optional string.
pub open spec fn opt_string(o: Option<String>) -> Option<Seq<char>> {
    match o {
        Some(s) => Some(s@),
        None => None,
    }
}

impl View for ThreadedArticleRef {
    type V = ArticleRefV;

    open spec fn view(&self) -> ArticleRefV {
        ArticleRefV {
            message_id: self.message_id@,
            number: self.number,
            subject: self.subject@,
            from: self.from@,
            date: self.date@,
            parent_id: opt_string(self.parent_id),
            references: strings_of(self.references@),
            byte_count: self.byte_count,
            line_count: self.line_count,
        }
    }
}

/// The article an overview entry describes, when it has the message-id,
/// subject, from and date fields: its parent is the last of its references.
pub open spec fn article_from_overview(f: Seq<Seq<char>>) -> Option<ArticleRefV> {
    if f.len() < 5 {
        None
    } else {
        let refs = references_of(field_at(f, 5));
        Some(
            ArticleRefV {
                message_id: f[4],
                number: number_at(f, 0),
                subject: f[1],
                from: f[2],
                date: f[3],
                parent_id: if refs.len() > 0 {
                    Some(refs.last())
                } else {
                    None
                },
                references: refs,
                byte_count: number_at(f, 6),
                line_count: number_at(f, 7),
            },
        )
    }
}

impl ThreadedArticleRef {
    /// Create a ThreadedArticleRef from an OverviewEntry.
    ///
    /// Returns None if the overview entry is missing required fields
    /// (message_id, subject, from, date).
    pub fn from_overview(overview: &OverviewEntry) -> (r: Option<Self>)
        ensures
            match r {
                Some(a) => article_from_overview(overview@) == Some(a@),
                None => article_from_overview(overview@) is None,
            },
    {
        let message_id = match overview.message_id() {
            Some(m) => m.to_owned(),
            None => {
                return None;
            },
        };
        let references = Self::parse_references(overview.references());
        let parent_id = if references.len() > 0 {
            Some(references[references.len() - 1].clone())
        } else {
            None
        };
        let number = overview.number();
        let subject = match overview.subject() {
            Some(s) => s.to_owned(),
            None => {
                return None;
            },
        };
        let from = match overview.from() {
            Some(s) => s.to_owned(),
            None => {
                return None;
            },
        };
        let date = match overview.date() {
            Some(s) => s.to_owned(),
            None => {
                return None;
            },
        };
        let r = Self {
            message_id,
            number,
            subject,
            from,
            date,
            parent_id,
            references,
            byte_count: overview.byte_count(),
            line_count: overview.line_count(),
        };
        assert(r@ == article_from_overview(overview@)->0);
        Some(r)
    }

    /// Parse References header into list of Message-IDs (oldest first).
    ///
    /// The References header contains space-separated Message-IDs representing
    /// the ancestry of an article, from oldest ancestor to immediate parent.
    pub fn parse_references(references: Option<&str>) -> (r: Vec<String>)
        ensures
            strings_of(r@) == references_of(opt_str(references)),
    {
        parse_reference_list(references)
    }

    /// Check if this article is a reply (has a parent).
    pub fn is_reply(&self) -> (r: bool)
        ensures
            r == self.parent_id.is_some(),
    {
        self.parent_id.is_some()
    }

    /// Get the depth of this article in the thread (0 for root articles).
    pub fn depth(&self) -> (r: usize)
        ensures
            r == self.references.len(),
    {
        self.references.len()
    }

    /// A copy of this article reference.
    pub(crate) fn copy(&self) -> (r: Self)
        ensures
            r@ == self@,
    {
        Self {
            message_id: self.message_id.clone(),
            number: self.number,
            subject: self.subject.clone(),
            from: self.from.clone(),
            date: self.date.clone(),
            parent_id: match &self.parent_id {
                Some(p) => Some(p.clone()),
                None => None,
            },
            references: clone_strings(&self.references),
            byte_count: self.byte_count,
            line_count: self.line_count,
        }
    }
}

/// A node in the thread tree, containing an article reference and its replies.
///
/// The article field is `Option<ThreadedArticleRef>` to handle cases where
/// a referenced parent article is not available (e.g., expired, not fetched,
/// or on a different server). This allows sibling replies to a missing parent
/// to remain grouped together under a placeholder node.
#[derive(Debug)]
pub struct ThreadNode {
    /// The article at this node, or None for placeholder nodes (missing articles)
    pub article: Option<ThreadedArticleRef>,
    /// Direct replies to this article (children in the tree)
    pub replies: Vec<ThreadNode>,
    /// Message-ID for this node (always present, even for placeholders)
    pub message_id: String,
}

/// Mathematical value of a [`ThreadNode`]: a tree.
pub struct NodeV {
    pub article: Option<ArticleRefV>,
    pub replies: Seq<NodeV>,
    pub message_id: Seq<char>,
}

/// View of an optional article reference.
pub open spec fn opt_article(a: Option<ThreadedArticleRef>) -> Option<ArticleRefV> {
    match a {
        Some(x) => Some(x@),
        None => None,
    }
}

/// The tree a node stands for.
pub open spec fn node_view(n: ThreadNode) -> NodeV
    decreases n,
{
    NodeV {
        article: opt_article(n.article),
        replies: Seq::new(
            n.replies.len() as nat,
            |i: int|
                if 0 <= i < n.replies.len() {
                    node_view(n.replies@[i])
                } else {
                    NodeV { article: None, replies: Seq::empty(), message_id: Seq::empty() }
                },
        ),
        message_id: n.message_id@,
    }
}

impl View for ThreadNode {
    type V = NodeV;

    open spec fn view(&self) -> NodeV {
        node_view(*self)
    }
}

impl ThreadNode {
    /// A deep copy of this node and its replies.
    fn copy(&self) -> (r: Self)
        ensures
            r@ == self@,
        decreases self,
    {
        let mut replies: Vec<ThreadNode> = Vec::new();
        let mut i: usize = 0;
        while i < self.replies.len()
            invariant
                i <= self.replies.len(),
                replies.len() == i,
                forall|j: int| 0 <= j < i ==> replies@[j]@ == self.replies@[j]@,
            decreases self.replies.len() - i,
        {
            assert(decreases_to!(self => self.replies@[i as int]));
            replies.push(self.replies[i].copy());
            i = i + 1;
        }
        let r = ThreadNode {
            article: match &self.article {
                Some(a) => Some(a.copy()),
                None => None,
            },
            replies,
            message_id: self.message_id.clone(),
        };
        assert(r@.replies =~= self@.replies);
        r
    }
}

impl ThreadNode {
    /// Create a new thread node with no replies.
    pub fn new(article: ThreadedArticleRef) -> (r: Self)
        ensures
            r@ == (NodeV {
                article: Some(article@),
                replies: Seq::empty(),
                message_id: article@.message_id,
            }),
    {
        let message_id = article.message_id.clone();
        let r = Self { article: Some(article), replies: Vec::new(), message_id };
        assert(r@.replies =~= Seq::<NodeV>::empty());
        r
    }

    /// Create a placeholder node for a missing article.
    ///
    /// Placeholder nodes represent articles that are referenced but not available.
    /// This allows sibling replies to remain grouped together.
    pub fn placeholder(message_id: String) -> (r: Self)
        ensures
            r@ == (NodeV { article: None, replies: Seq::empty(), message_id: message_id@ }),
    {
        let r = Self { article: None, replies: Vec::new(), message_id };
        assert(r@.replies =~= Seq::<NodeV>::empty());
        r
    }

    /// Check if this is a placeholder node (missing article).
    pub fn is_placeholder(&self) -> (r: bool)
        ensures
            r == (self@.article is None),
    {
        self.article.is_none()
    }

    /// Get the number of direct replies to this article.
    pub fn reply_count(&self) -> (r: usize)
        ensures
            r == self@.replies.len(),
    {
        self.replies.len()
    }

    /// Check if this article has any replies.
    pub fn has_replies(&self) -> (r: bool)
        ensures
            r == (self@.replies.len() > 0),
    {
        self.replies.len() > 0
    }

    /// Find a node by Message-ID in this subtree: the first in depth-first
    /// order.
    pub fn find_by_message_id(&self, message_id: &str) -> (r: Option<&ThreadNode>)
        ensures
            match r {
                Some(n) => first_with_id(preorder(self@), message_id@) == Some(n@),
                None => first_with_id(preorder(self@), message_id@) is None,
            },
        decreases self,
    {
        let ghost t = self@;
        assert(preorder(t).drop_first() =~= preorder_in(t.replies));
        if str_eq(self.message_id.as_str(), message_id) {
            return Some(self);
        }
        let mut i: usize = 0;
        while i < self.replies.len()
            invariant
                t == self@,
                t.message_id != message_id@,
                i <= self.replies.len(),
                first_with_id(preorder_in(t.replies.take(i as int)), message_id@) is None,
            decreases self.replies.len() - i,
        {
            assert(decreases_to!(self => self.replies@[i as int]));
            let ghost c = self.replies@[i as int]@;
            assert(t.replies.take(i + 1) =~= t.replies.take(i as int).push(c));
            proof {
                lemma_preorder_in_push(t.replies.take(i as int), c);
                lemma_first_with_id_append(preorder_in(t.replies.take(i as int)), preorder(c), message_id@);
            }
            match self.replies[i].find_by_message_id(message_id) {
                Some(found) => {
                    proof {
                        assert(self.replies@[i as int]@ == t.replies[i as int]);
                        self.lemma_first_in_replies(i as int, message_id@);
                    }
                    return Some(found);
                },
                None => {},
            }
            i = i + 1;
        }
        assert(t.replies.take(i as int) =~= t.replies);
        None
    }

    /// Count all present articles in this subtree (excluding placeholders).
    /// The count saturates at `usize::MAX`.
    pub fn count_articles(&self) -> (r: usize)
        ensures
            r == sat(count_articles(self@)),
        decreases self,
    {
        let ghost t = self@;
        let mut total: usize = if self.article.is_some() {
            1
        } else {
            0
        };
        let ghost own: nat = if t.article is Some {
            1
        } else {
            0
        };
        let mut i: usize = 0;
        assert(t.replies.take(0) =~= Seq::<NodeV>::empty());
        while i < self.replies.len()
            invariant
                t == self@,
                own == (if t.article is Some {
                    1nat
                } else {
                    0nat
                }),
                i <= self.replies.len(),
                total == sat(own + count_articles_in(t.replies.take(i as int))),
            decreases self.replies.len() - i,
        {
            assert(decreases_to!(self => self.replies@[i as int]));
            assert(t.replies.take(i + 1).drop_last() =~= t.replies.take(i as int));
            assert(self.replies@[i as int]@ == t.replies[i as int]);
            let c = self.replies[i].count_articles();
            total = total.saturating_add(c);
            i = i + 1;
        }
        assert(t.replies.take(i as int) =~= t.replies);
        total
    }

    /// Count all nodes in this subtree (including placeholders). The count
    /// saturates at `usize::MAX`.
    pub fn count_nodes(&self) -> (r: usize)
        ensures
            r == sat(count_nodes(self@)),
        decreases self,
    {
        let ghost t = self@;
        let mut total: usize = 1;
        let mut i: usize = 0;
        assert(t.replies.take(0) =~= Seq::<NodeV>::empty());
        while i < self.replies.len()
            invariant
                t == self@,
                i <= self.replies.len(),
                total == sat(1 + count_nodes_in(t.replies.take(i as int))),
            decreases self.replies.len() - i,
        {
            assert(decreases_to!(self => self.replies@[i as int]));
            assert(t.replies.take(i + 1).drop_last() =~= t.replies.take(i as int));
            assert(self.replies@[i as int]@ == t.replies[i as int]);
            let c = self.replies[i].count_nodes();
            total = total.saturating_add(c);
            i = i + 1;
        }
        assert(t.replies.take(i as int) =~= t.replies);
        total
    }

    /// Get the maximum depth of the subtree (0 if no replies). The depth
    /// saturates at `usize::MAX`.
    pub fn max_depth(&self) -> (r: usize)
        ensures
            r == sat(max_depth(self@)),
        decreases self,
    {
        let ghost t = self@;
        if self.replies.len() == 0 {
            return 0;
        }
        let mut best: usize = 0;
        let mut i: usize = 0;
        assert(t.replies.take(0) =~= Seq::<NodeV>::empty());
        while i < self.replies.len()
            invariant
                t == self@,
                i <= self.replies.len(),
                best == sat(max_depth_in(t.replies.take(i as int))),
            decreases self.replies.len() - i,
        {
            assert(decreases_to!(self => self.replies@[i as int]));
            assert(t.replies.take(i + 1).drop_last() =~= t.replies.take(i as int));
            assert(self.replies@[i as int]@ == t.replies[i as int]);
            let d = self.replies[i].max_depth();
            if d > best {
                best = d;
            }
            i = i + 1;
        }
        assert(t.replies.take(i as int) =~= t.replies);
        best.saturating_add(1)
    }

    /// A match within reply `i`, none in the replies before it, and a root
    /// that does not match, make that match the first in the whole subtree.
    proof fn lemma_first_in_replies(&self, i: int, id: Seq<char>)
        requires
            0 <= i < self@.replies.len(),
            self@.message_id != id,
            first_with_id(preorder_in(self@.replies.take(i)), id) is None,
            first_with_id(preorder(self@.replies[i]), id) is Some,
        ensures
            first_with_id(preorder(self@), id) == first_with_id(preorder(self@.replies[i]), id),
    {
        let t = self@;
        let pre = t.replies.take(i);
        let post = t.replies.skip(i + 1);
        assert(t.replies =~= pre.push(t.replies[i]) + post);
        lemma_preorder_in_concat(pre.push(t.replies[i]), post);
        lemma_preorder_in_push(pre, t.replies[i]);
        lemma_first_with_id_append(preorder_in(pre), preorder(t.replies[i]), id);
        lemma_first_with_id_append(preorder_in(pre) + preorder(t.replies[i]), preorder_in(post), id);
        assert(preorder(t).drop_first() =~= preorder_in(t.replies));
    }
}

impl Clone for ThreadNode {
    fn clone(&self) -> (r: Self)
        ensures
            r@ == self@,
    {
        self.copy()
    }
}

/// The nodes still to visit for a stack of subtrees (top last): each
/// subtree in depth-first order, from the top of the stack down.
pub open spec fn pending(s: Seq<NodeV>) -> Seq<NodeV>
    decreases s.len(),
{
    if s.len() == 0 {
        Seq::empty()
    } else {
        preorder(s.last()) + pending(s.drop_last())
    }
}

/// Trees of a sequence of node references.
pub open spec fn node_refs_view(s: Seq<&ThreadNode>) -> Seq<NodeV> {
    s.map_values(|n: &ThreadNode| n@)
}

/// Article values of a sequence of article references.
pub open spec fn article_refs_view(s: Seq<&ThreadedArticleRef>) -> Seq<ArticleRefV> {
    s.map_values(|a: &ThreadedArticleRef| a@)
}

/// The present articles of concatenated node sequences.
pub proof fn lemma_articles_of_concat(a: Seq<NodeV>, b: Seq<NodeV>)
    ensures
        articles_of(a + b) == articles_of(a) + articles_of(b),
    decreases b.len(),
{
    if b.len() == 0 {
        assert(a + b =~= a);
        assert(articles_of(a) + articles_of(b) =~= articles_of(a));
    } else {
        assert((a + b).drop_last() =~= a + b.drop_last());
        lemma_articles_of_concat(a, b.drop_last());
        assert(articles_of(a + b) =~= articles_of(a) + articles_of(b));
    }
}

/// Pushing the replies of a node, last first, puts them in front of what
/// was pending, in depth-first order.
proof fn lemma_pending_push(s: Seq<NodeV>, x: NodeV)
    ensures
        pending(s.push(x)) == preorder(x) + pending(s),
{
    assert(s.push(x).drop_last() =~= s);
}

/// Sequences of one node.
proof fn lemma_singleton(x: NodeV)
    ensures
        preorder_in(seq![x]) == preorder(x),
        pending(seq![x]) == preorder(x),
        articles_of(seq![x]) == match x.article {
            Some(a) => seq![a],
            None => Seq::<ArticleRefV>::empty(),
        },
{
    let s = seq![x];
    let e = Seq::<NodeV>::empty();
    assert(s.drop_last() =~= e);
    assert(s.last() == x);
    assert(preorder_in(e) == Seq::<NodeV>::empty());
    assert(pending(e) == Seq::<NodeV>::empty());
    assert(articles_of(e) == Seq::<ArticleRefV>::empty());
    assert(preorder_in(s) =~= preorder(x));
    assert(pending(s) =~= preorder(x));
    assert(articles_of(s) =~= match x.article {
        Some(a) => seq![a],
        None => Seq::<ArticleRefV>::empty(),
    });
}

/// A single-tree sequence's depth-first order is that tree's.
proof fn lemma_preorder_in_first(s: Seq<NodeV>)
    requires
        s.len() > 0,
    ensures
        preorder_in(s) == preorder(s[0]) + preorder_in(s.drop_first()),
{
    assert(s =~= seq![s[0]] + s.drop_first());
    lemma_preorder_in_concat(seq![s[0]], s.drop_first());
    lemma_singleton(s[0]);
}

/// Pop the top subtree of a stack and push its replies so that the first
/// reply is on top; returns the popped node.
fn visit_next<'a>(stack: &mut Vec<&'a ThreadNode>) -> (r: &'a ThreadNode)
    requires
        old(stack).len() > 0,
    ensures
        r@ == node_refs_view(old(stack)@).last(),
        pending(node_refs_view(old(stack)@)) == seq![r@] + pending(node_refs_view(final(stack)@)),
{
    let ghost base = node_refs_view(stack@.drop_last());
    let node = stack.pop().unwrap();
    assert(node_refs_view(stack@) =~= base);
    assert(node_refs_view(old(stack)@) =~= base.push(node@));
    proof {
        lemma_pending_push(base, node@);
    }
    let ghost rs = node@.replies;
    let mut j: usize = node.replies.len();
    assert(rs.skip(j as int) =~= Seq::<NodeV>::empty());
    assert(preorder_in(rs.skip(j as int)) + pending(base) =~= pending(base));
    while j > 0
        invariant
            j <= node.replies.len(),
            rs == node@.replies,
            pending(node_refs_view(stack@)) == preorder_in(rs.skip(j as int)) + pending(base),
        decreases j,
    {
        j = j - 1;
        let ghost before = node_refs_view(stack@);
        stack.push(&node.replies[j]);
        assert(node_refs_view(stack@) =~= before.push(rs[j as int]));
        proof {
            lemma_pending_push(before, rs[j as int]);
            lemma_preorder_in_first(rs.skip(j as int));
        }
        assert(rs.skip(j as int).drop_first() =~= rs.skip(j + 1));
        assert(rs.skip(j as int)[0] == rs[j as int]);
    }
    assert(rs.skip(0) =~= rs);
    assert(preorder(node@) =~= seq![node@] + preorder_in(rs));
    node
}

/// Iterator over all articles in a thread (depth-first traversal).
///
/// This iterator skips placeholder nodes and only yields present articles.
pub struct ThreadIterator<'a> {
    stack: Vec<&'a ThreadNode>,
}

impl<'a> ThreadIterator<'a> {
    /// The articles still to be returned, in order.
    pub closed spec fn remaining(&self) -> Seq<ArticleRefV> {
        articles_of(pending(node_refs_view(self.stack@)))
    }

    pub(crate) fn new(root: &'a ThreadNode) -> (r: Self)
        ensures
            r.remaining() == articles_of(preorder(root@)),
    {
        let mut stack: Vec<&'a ThreadNode> = Vec::new();
        stack.push(root);
        assert(node_refs_view(stack@) =~= seq![root@]);
        proof {
            lemma_singleton(root@);
        }
        Self { stack }
    }

    /// The next present article, if any.
    pub fn next(&mut self) -> (r: Option<&'a ThreadedArticleRef>)
        ensures
            match r {
                Some(a) => old(self).remaining() == seq![a@] + final(self).remaining(),
                None => old(self).remaining() == Seq::<ArticleRefV>::empty()
                    && final(self).remaining() == Seq::<ArticleRefV>::empty(),
            },
    {
        loop
            invariant
                articles_of(pending(node_refs_view(old(self).stack@))) == articles_of(
                    pending(node_refs_view(self.stack@)),
                ),
            decreases pending(node_refs_view(self.stack@)).len(),
        {
            if self.stack.len() == 0 {
                assert(node_refs_view(self.stack@) =~= Seq::<NodeV>::empty());
                return None;
            }
            let ghost before = pending(node_refs_view(self.stack@));
            let node = visit_next(&mut self.stack);
            proof {
                lemma_articles_of_concat(seq![node@], pending(node_refs_view(self.stack@)));
                lemma_singleton(node@);
            }
            match &node.article {
                Some(a) => {
                    return Some(a);
                },
                None => {
                    assert(Seq::<ArticleRefV>::empty() + articles_of(pending(node_refs_view(self.stack@)))
                        =~= articles_of(pending(node_refs_view(self.stack@))));
                    assert(articles_of(before) =~= articles_of(
                        pending(node_refs_view(self.stack@)),
                    ));
                },
            }
        }
    }
}

/// Iterator over all nodes in a thread (depth-first traversal), including placeholders.
pub struct ThreadNodeIterator<'a> {
    stack: Vec<&'a ThreadNode>,
}

impl<'a> ThreadNodeIterator<'a> {
    /// The nodes still to be returned, in order.
    pub closed spec fn remaining(&self) -> Seq<NodeV> {
        pending(node_refs_view(self.stack@))
    }

    /// Create a new iterator starting from the given root node.
    pub fn new(root: &'a ThreadNode) -> (r: Self)
        ensures
            r.remaining() == preorder(root@),
    {
        let mut stack: Vec<&'a ThreadNode> = Vec::new();
        stack.push(root);
        assert(node_refs_view(stack@) =~= seq![root@]);
        proof {
            lemma_singleton(root@);
        }
        Self { stack }
    }

    /// The next node, if any.
    pub fn next(&mut self) -> (r: Option<&'a ThreadNode>)
        ensures
            match r {
                Some(n) => old(self).remaining() == seq![n@] + final(self).remaining(),
                None => old(self).remaining() == Seq::<NodeV>::empty() && final(self).remaining()
                    == Seq::<NodeV>::empty(),
            },
    {
        if self.stack.len() == 0 {
            assert(node_refs_view(self.stack@) =~= Seq::<NodeV>::empty());
            return None;
        }
        Some(visit_next(&mut self.stack))
    }
}

/// A complete discussion thread as a tree structure.
///
/// A thread consists of a root article (the original post) and
/// all its replies organized hierarchically.
#[derive(Debug)]
pub struct Thread {
    /// The root article (original post) of the thread
    root: ThreadNode,
    /// Total number of articles in this thread
    article_count: usize,
    /// The normalized thread subject (without Re:, Fwd:, etc.)
    subject: String,
}

/// Mathematical value of a [`Thread`]: its tree and its subject.
pub struct ThreadV {
    pub root: NodeV,
    pub subject: Seq<char>,
}

impl View for Thread {
    type V = ThreadV;

    closed spec fn view(&self) -> ThreadV {
        ThreadV { root: self.root@, subject: self.subject@ }
    }
}

/// Whether a thread has a node with the given Message-ID.
pub open spec fn thread_has_id(t: ThreadV, id: Seq<char>) -> bool {
    first_with_id(preorder(t.root), id) is Some
}

/// Message-IDs of a sequence of string slices.
pub open spec fn strs_view(s: Seq<&str>) -> Seq<Seq<char>> {
    s.map_values(|x: &str| x@)
}

impl Thread {
    /// The stored article count is the tree's.
    #[verifier::type_invariant]
    spec fn count_matches(&self) -> bool {
        self.article_count == sat(count_articles(self.root@))
    }

    /// Create a new thread with the given root node.
    pub fn new(root: ThreadNode, subject: String) -> (r: Self)
        ensures
            r@ == (ThreadV { root: root@, subject: subject@ }),
    {
        let article_count = root.count_articles();
        Self { root, article_count, subject }
    }

    /// Get the root article of the thread.
    pub fn root(&self) -> (r: &ThreadNode)
        ensures
            r@ == self@.root,
    {
        &self.root
    }

    /// Get the thread subject (normalized, without Re: prefixes).
    pub fn subject(&self) -> (r: &str)
        ensures
            r@ == self@.subject,
    {
        self.subject.as_str()
    }

    /// Get the total number of articles in this thread.
    pub fn article_count(&self) -> (r: usize)
        ensures
            r == sat(count_articles(self@.root)),
    {
        proof {
            use_type_invariant(self);
        }
        self.article_count
    }

    /// Get the Message-ID of the root node.
    pub fn root_message_id(&self) -> (r: &str)
        ensures
            r@ == self@.root.message_id,
    {
        self.root.message_id.as_str()
    }

    /// Find an article by Message-ID within this thread.
    pub fn find_by_message_id(&self, message_id: &str) -> (r: Option<&ThreadNode>)
        ensures
            match r {
                Some(n) => first_with_id(preorder(self@.root), message_id@) == Some(n@),
                None => first_with_id(preorder(self@.root), message_id@) is None,
            },
    {
        self.root.find_by_message_id(message_id)
    }

    /// Get the depth of the thread (longest reply chain).
    pub fn max_depth(&self) -> (r: usize)
        ensures
            r == sat(max_depth(self@.root)),
    {
        self.root.max_depth()
    }

    /// The nodes of the thread in depth-first order.
    fn nodes(&self) -> (r: Vec<&ThreadNode>)
        ensures
            node_refs_view(r@) == preorder(self@.root),
    {
        let mut it = ThreadNodeIterator::new(&self.root);
        let mut out: Vec<&ThreadNode> = Vec::new();
        loop
            invariant
                node_refs_view(out@) + it.remaining() == preorder(self@.root),
            decreases it.remaining().len(),
        {
            let ghost before = it.remaining();
            match it.next() {
                Some(n) => {
                    let ghost prev = node_refs_view(out@);
                    out.push(n);
                    assert(node_refs_view(out@) =~= prev.push(n@));
                    assert(node_refs_view(out@) + it.remaining() =~= prev + before);
                },
                None => {
                    assert(node_refs_view(out@) + it.remaining() =~= node_refs_view(out@));
                    return out;
                },
            }
        }
    }

    /// Get all Message-IDs in this thread, in depth-first order.
    pub fn all_message_ids(&self) -> (r: Vec<&str>)
        ensures
            strs_view(r@) == ids_of(preorder(self@.root)),
    {
        let nodes = self.nodes();
        let mut ids: Vec<&str> = Vec::new();
        let mut i: usize = 0;
        while i < nodes.len()
            invariant
                i <= nodes.len(),
                node_refs_view(nodes@) == preorder(self@.root),
                strs_view(ids@) =~= ids_of(node_refs_view(nodes@).take(i as int)),
            decreases nodes.len() - i,
        {
            let id = nodes[i].message_id.as_str();
            assert(node_refs_view(nodes@)[i as int] == nodes@[i as int]@);
            assert(id@ == node_refs_view(nodes@)[i as int].message_id);
            let ghost pv = strs_view(ids@);
            let ghost ns = node_refs_view(nodes@);
            ids.push(id);
            assert(strs_view(ids@) =~= pv.push(id@));
            assert(ns.take(i + 1) =~= ns.take(i as int).push(ns[i as int]));
            assert(ids_of(ns.take(i + 1)) =~= ids_of(ns.take(i as int)).push(ns[i as int].message_id));
            i = i + 1;
        }
        assert(node_refs_view(nodes@).take(i as int) =~= node_refs_view(nodes@));
        ids
    }

    /// The present articles of the thread in depth-first order.
    pub(crate) fn articles(&self) -> (r: Vec<&ThreadedArticleRef>)
        ensures
            article_refs_view(r@) == articles_of(preorder(self@.root)),
    {
        let mut it = ThreadIterator::new(&self.root);
        let mut out: Vec<&ThreadedArticleRef> = Vec::new();
        loop
            invariant
                article_refs_view(out@) + it.remaining() == articles_of(preorder(self@.root)),
            decreases it.remaining().len(),
        {
            let ghost before = it.remaining();
            match it.next() {
                Some(a) => {
                    let ghost prev = article_refs_view(out@);
                    out.push(a);
                    assert(article_refs_view(out@) =~= prev.push(a@));
                    assert(article_refs_view(out@) + it.remaining() =~= prev + before);
                },
                None => {
                    assert(article_refs_view(out@) + it.remaining() =~= article_refs_view(out@));
                    return out;
                },
            }
        }
    }

    /// Iterate over all articles in the thread (depth-first traversal).
    ///
    /// This iterator skips placeholder nodes and only yields present articles.
    pub fn iter(&self) -> (r: std::vec::IntoIter<&ThreadedArticleRef>)
        ensures
            article_refs_view(r.remaining()) == articles_of(preorder(self@.root)),
    {
        self.articles().into_iter()
    }

    /// Iterate over all nodes in the thread (depth-first traversal), including placeholders.
    pub fn iter_nodes(&self) -> (r: std::vec::IntoIter<&ThreadNode>)
        ensures
            node_refs_view(r.remaining()) == preorder(self@.root),
    {
        self.nodes().into_iter()
    }

    /// Check if the root of this thread is a placeholder (missing article).
    pub fn has_placeholder_root(&self) -> (r: bool)
        ensures
            r == (self@.root.article is None),
    {
        self.root.is_placeholder()
    }
}

impl Clone for Thread {
    fn clone(&self) -> (r: Self)
        ensures
            r@ == self@,
    {
        proof {
            use_type_invariant(self);
        }
        Self {
            root: self.root.clone(),
            article_count: self.article_count,
            subject: self.subject.clone(),
        }
    }
}

/// A collection of threads from a newsgroup.
#[derive(Debug, Clone)]
pub struct ThreadCollection {
    /// The newsgroup these threads are from
    pub group: String,
    /// The threads, sorted by most recent activity
    threads: Vec<Thread>,
}

/// Thread values of a sequence of threads.
pub open spec fn threads_view(s: Seq<Thread>) -> Seq<ThreadV> {
    s.map_values(|t: Thread| t@)
}

/// Thread values of a sequence of thread references.
pub open spec fn thread_refs_view(s: Seq<&Thread>) -> Seq<ThreadV> {
    s.map_values(|t: &Thread| t@)
}

/// The number of articles in a sequence of threads.
pub open spec fn total_articles(s: Seq<ThreadV>) -> nat
    decreases s.len(),
{
    if s.len() == 0 {
        0
    } else {
        total_articles(s.drop_last()) + count_articles(s.last().root)
    }
}

impl ThreadCollection {
    /// The newsgroup of the collection.
    pub closed spec fn group_spec(&self) -> Seq<char> {
        self.group@
    }

    /// The threads of the collection, in order.
    pub closed spec fn threads_spec(&self) -> Seq<ThreadV> {
        threads_view(self.threads@)
    }

    /// Create a new thread collection.
    pub fn new(group: String, threads: Vec<Thread>) -> (r: Self)
        ensures
            r.group_spec() == group@,
            r.threads_spec() == threads_view(threads@),
    {
        Self { group, threads }
    }

    /// Get all threads.
    pub fn threads(&self) -> (r: &[Thread])
        ensures
            threads_view(r@) == self.threads_spec(),
    {
        self.threads.as_slice()
    }

    /// Get the number of threads.
    pub fn len(&self) -> (r: usize)
        ensures
            r == self.threads_spec().len(),
    {
        self.threads.len()
    }

    /// Check if the collection is empty.
    pub fn is_empty(&self) -> (r: bool)
        ensures
            r == (self.threads_spec().len() == 0),
    {
        self.threads.len() == 0
    }

    /// Get the total number of articles across all threads. The total
    /// saturates at `usize::MAX`.
    pub fn total_articles(&self) -> (r: usize)
        ensures
            r == sat(total_articles(self.threads_spec())),
    {
        let ghost ts = self.threads_spec();
        let mut total: usize = 0;
        let mut i: usize = 0;
        assert(ts.take(0) =~= Seq::<ThreadV>::empty());
        while i < self.threads.len()
            invariant
                ts == self.threads_spec(),
                i <= self.threads.len(),
                total == sat(total_articles(ts.take(i as int))),
            decreases self.threads.len() - i,
        {
            assert(ts.take(i + 1).drop_last() =~= ts.take(i as int));
            let c = self.threads[i].article_count();
            total = total.saturating_add(c);
            i = i + 1;
        }
        assert(ts.take(i as int) =~= ts);
        total
    }

    /// Find the first thread containing a specific Message-ID.
    pub fn find_thread_by_message_id(&self, message_id: &str) -> (r: Option<&Thread>)
        ensures
            match r {
                Some(t) => exists|i: int|
                    0 <= i < self.threads_spec().len() && #[trigger] self.threads_spec()[i] == t@
                        && thread_has_id(t@, message_id@) && forall|j: int|
                        0 <= j < i ==> !thread_has_id(self.threads_spec()[j], message_id@),
                None => forall|i: int|
                    0 <= i < self.threads_spec().len() ==> !thread_has_id(
                        #[trigger] self.threads_spec()[i],
                        message_id@,
                    ),
            },
    {
        let ghost ts = self.threads_spec();
        let mut i: usize = 0;
        while i < self.threads.len()
            invariant
                ts == self.threads_spec(),
                i <= self.threads.len(),
                forall|j: int| 0 <= j < i ==> !thread_has_id(#[trigger] ts[j], message_id@),
            decreases self.threads.len() - i,
        {
            let t = &self.threads[i];
            assert(ts[i as int] == t@);
            if t.find_by_message_id(message_id).is_some() {
                return Some(t);
            }
            i = i + 1;
        }
        None
    }

    /// Iterate over threads.
    pub fn iter(&self) -> (r: std::slice::Iter<'_, Thread>)
        ensures
            thread_refs_view(r.remaining()) == self.threads_spec(),
    {
        broadcast use vstd::std_specs::slice::axiom_spec_slice_iter;
        let r = self.threads.iter();
        assert(thread_refs_view(r.remaining()) =~= self.threads_spec());
        r
    }
}

impl IntoIterator for ThreadCollection {
    type Item = Thread;
    type IntoIter = std::vec::IntoIter<Thread>;

    fn into_iter(self) -> (r: std::vec::IntoIter<Thread>)
        ensures
            threads_view(r.remaining()) == self.threads_spec(),
    {
        self.threads.into_iter()
    }
}

impl<'a> IntoIterator for &'a ThreadCollection {
    type Item = &'a Thread;
    type IntoIter = std::slice::Iter<'a, Thread>;

    fn into_iter(self) -> (r: std::slice::Iter<'a, Thread>)
        ensures
            thread_refs_view(r.remaining()) == self.threads_spec(),
    {
        self.iter()
    }
}

/// Trees of a sequence of nodes.
pub open spec fn nodes_view(s: Seq<ThreadNode>) -> Seq<NodeV> {
    s.map_values(|n: ThreadNode| n@)
}

/// A count taken as `usize`, saturating.
pub open spec fn sat(n: nat) -> nat {
    if n <= usize::MAX {
        n
    } else {
        usize::MAX as nat
    }
}

/// The number of present articles (not placeholders) in a tree.
pub open spec fn count_articles(t: NodeV) -> nat
    decreases t,
{
    (if t.article is Some {
        1nat
    } else {
        0nat
    }) + count_articles_in(t.replies)
}

/// The number of present articles in a sequence of trees.
pub open spec fn count_articles_in(s: Seq<NodeV>) -> nat
    decreases s,
{
    if s.len() == 0 {
        0
    } else {
        count_articles_in(s.drop_last()) + count_articles(s.last())
    }
}

/// The number of nodes (placeholders included) in a tree.
pub open spec fn count_nodes(t: NodeV) -> nat
    decreases t,
{
    1 + count_nodes_in(t.replies)
}

/// The number of nodes in a sequence of trees.
pub open spec fn count_nodes_in(s: Seq<NodeV>) -> nat
    decreases s,
{
    if s.len() == 0 {
        0
    } else {
        count_nodes_in(s.drop_last()) + count_nodes(s.last())
    }
}

/// The length of the longest reply chain below a tree's root.
pub open spec fn max_depth(t: NodeV) -> nat
    decreases t,
{
    if t.replies.len() == 0 {
        0
    } else {
        1 + max_depth_in(t.replies)
    }
}

/// The greatest `max_depth` in a sequence of trees (0 for none).
pub open spec fn max_depth_in(s: Seq<NodeV>) -> nat
    decreases s,
{
    if s.len() == 0 {
        0
    } else {
        let a = max_depth_in(s.drop_last());
        let b = max_depth(s.last());
        if a >= b {
            a
        } else {
            b
        }
    }
}

/// The greatest depth among trees is at least each one's, and is the depth
/// of one of them when there are any.
proof fn lemma_max_depth_in(s: Seq<NodeV>)
    ensures
        forall|i: int| 0 <= i < s.len() ==> max_depth_in(s) >= max_depth(#[trigger] s[i]),
        s.len() > 0 ==> exists|i: int| 0 <= i < s.len() && max_depth_in(s) == max_depth(#[trigger] s[i]),
    decreases s.len(),
{
    if s.len() > 0 {
        let d = s.drop_last();
        lemma_max_depth_in(d);
        assert forall|i: int| 0 <= i < s.len() implies max_depth_in(s) >= max_depth(#[trigger] s[i]) by {
            if i < d.len() {
                assert(d[i] == s[i]);
            }
        }
        if max_depth_in(d) >= max_depth(s.last()) && d.len() > 0 {
            let i = choose|i: int| 0 <= i < d.len() && max_depth_in(d) == max_depth(#[trigger] d[i]);
            assert(d[i] == s[i]);
        } else {
            assert(s[s.len() - 1] == s.last());
        }
    }
}

/// The depth of a tree is the number of edges on its longest downward path:
/// 0 without replies, otherwise one more than the depth of its deepest
/// reply, so at least one more than the depth of every reply and exactly
/// one more than that of some reply.
pub proof fn lemma_max_depth_replies(t: NodeV)
    ensures
        t.replies.len() == 0 ==> max_depth(t) == 0,
        forall|i: int| 0 <= i < t.replies.len() ==> max_depth(t) >= 1 + max_depth(#[trigger] t.replies[i]),
        t.replies.len() > 0 ==> exists|i: int|
            0 <= i < t.replies.len() && max_depth(t) == 1 + max_depth(#[trigger] t.replies[i]),
{
    lemma_max_depth_in(t.replies);
}

/// An overview entry describes an article exactly when it has the subject,
/// from, date and message-id fields (the first five); the article takes its
/// Message-ID, subject, author and date from those fields unchanged.
pub proof fn lemma_overview_fields(f: Seq<Seq<char>>)
    ensures
        article_from_overview(f) is Some <==> f.len() >= 5,
        article_from_overview(f) matches Some(a) ==> a.message_id == f[4] && a.subject == f[1]
            && a.from == f[2] && a.date == f[3],
{
}

/// The parent of an article described by an overview entry is the last
/// Message-ID of its References (the immediate parent, the references
/// listing ancestors oldest first); with no references it has no parent.
pub proof fn lemma_overview_parent_is_last_reference(f: Seq<Seq<char>>)
    ensures
        article_from_overview(f) matches Some(a) ==> (if a.references.len() > 0 {
            a.parent_id == Some(a.references[a.references.len() - 1])
        } else {
            a.parent_id is None
        }),
{
}

/// The nodes of a tree in depth-first order, each before its replies.
pub open spec fn preorder(t: NodeV) -> Seq<NodeV>
    decreases t,
{
    seq![t] + preorder_in(t.replies)
}

/// The nodes of a sequence of trees in depth-first order.
pub open spec fn preorder_in(s: Seq<NodeV>) -> Seq<NodeV>
    decreases s,
{
    if s.len() == 0 {
        Seq::empty()
    } else {
        preorder_in(s.drop_last()) + preorder(s.last())
    }
}

/// The present articles among a sequence of nodes, in order.
pub open spec fn articles_of(s: Seq<NodeV>) -> Seq<ArticleRefV>
    decreases s.len(),
{
    if s.len() == 0 {
        Seq::empty()
    } else {
        let rest = articles_of(s.drop_last());
        match s.last().article {
            Some(a) => rest.push(a),
            None => rest,
        }
    }
}

/// The Message-IDs of a sequence of nodes, in order.
pub open spec fn ids_of(s: Seq<NodeV>) -> Seq<Seq<char>> {
    s.map_values(|n: NodeV| n.message_id)
}

/// The first node of `p` with the given Message-ID.
pub open spec fn first_with_id(p: Seq<NodeV>, id: Seq<char>) -> Option<NodeV>
    decreases p.len(),
{
    if p.len() == 0 {
        None
    } else if p[0].message_id == id {
        Some(p[0])
    } else {
        first_with_id(p.drop_first(), id)
    }
}

/// Searching a concatenation searches the first part, then the second.
pub proof fn lemma_first_with_id_append(a: Seq<NodeV>, b: Seq<NodeV>, id: Seq<char>)
    ensures
        first_with_id(a + b, id) == match first_with_id(a, id) {
            Some(x) => Some(x),
            None => first_with_id(b, id),
        },
    decreases a.len(),
{
    if a.len() == 0 {
        assert(a + b =~= b);
    } else {
        assert((a + b).drop_first() =~= a.drop_first() + b);
        lemma_first_with_id_append(a.drop_first(), b, id);
    }
}

/// The nodes of a tree's replies, in depth-first order, come after the tree's root.
pub proof fn lemma_preorder_in_push(s: Seq<NodeV>, t: NodeV)
    ensures
        preorder_in(s.push(t)) == preorder_in(s) + preorder(t),
{
    assert(s.push(t).drop_last() =~= s);
}

/// The depth-first order of concatenated sequences of trees is the
/// concatenation of their depth-first orders.
pub proof fn lemma_preorder_in_concat(a: Seq<NodeV>, b: Seq<NodeV>)
    ensures
        preorder_in(a + b) == preorder_in(a) + preorder_in(b),
    decreases b.len(),
{
    if b.len() == 0 {
        assert(a + b =~= a);
        assert(preorder_in(a) + preorder_in(b) =~= preorder_in(a));
    } else {
        assert((a + b).drop_last() =~= a + b.drop_last());
        lemma_preorder_in_concat(a, b.drop_last());
        assert(preorder_in(a + b) =~= preorder_in(a) + preorder_in(b));
    }
}

} // verus!
