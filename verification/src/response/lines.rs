//! Line-level parsing of response payloads.

use vstd::prelude::*;
use vstd::utf8::encode_utf8;
use crate::text::{
    chars_of,
    chars_of_string, copy_chars, find_char, index_of, lemma_index_of, parse_u64, parse_u64_all,
    parse_u64_spec, seqs_of, split_char, split_on_char, split_whitespace, split_ws,
    string_from_chars, string_of_range, strings_of,
};
use crate::threading::builder::join;
use super::metadata::{HeaderEntry, HeaderEntryV, NewsGroup, NewsGroupV, OverviewEntry};

verus! {

/// The line holding a single dot, which ends a multi-line payload.
pub open spec fn dot_line() -> Seq<char> {
    seq!['.']
}

/// Index of the first dot line at or after `i`, or `ls.len()`.
pub open spec fn body_end_from(ls: Seq<Seq<char>>, i: int) -> int
    decreases ls.len() - i,
{
    if i >= ls.len() {
        ls.len() as int
    } else if ls[i] == dot_line() {
        i
    } else {
        body_end_from(ls, i + 1)
    }
}

proof fn lemma_body_end_range(ls: Seq<Seq<char>>, i: int)
    requires
        0 <= i <= ls.len(),
    ensures
        i <= body_end_from(ls, i) <= ls.len(),
    decreases ls.len() - i,
{
    if i < ls.len() && ls[i] != dot_line() {
        lemma_body_end_range(ls, i + 1);
    }
}

/// The payload lines of a response: those after the status line, up to
/// (not including) the first dot line.
pub open spec fn body(ls: Seq<Seq<char>>) -> Seq<Seq<char>> {
    if ls.len() <= 1 {
        seq![]
    } else {
        ls.subrange(1, body_end_from(ls, 1))
    }
}

/// Whether a line is the terminating dot.
pub fn is_dot_line(l: &Vec<char>) -> (r: bool)
    ensures
        r == (l@ == dot_line()),
{
    if l.len() == 1 && l[0] == '.' {
        assert(l@ =~= dot_line());
        true
    } else {
        false
    }
}

/// End (exclusive) of the payload lines; they start at index 1.
pub fn body_end(ls: &Vec<Vec<char>>) -> (r: usize)
    requires
        ls.len() >= 1,
    ensures
        1 <= r <= ls.len(),
        seqs_of(ls@).subrange(1, r as int) == body(seqs_of(ls@)),
{
    let ghost l = seqs_of(ls@);
    let mut i: usize = 1;
    while i < ls.len() && !is_dot_line(&ls[i])
        invariant
            1 <= i <= ls.len(),
            l == seqs_of(ls@),
            body_end_from(l, 1) == body_end_from(l, i as int),
        decreases ls.len() - i,
    {
        i = i + 1;
    }
    proof {
        lemma_body_end_range(l, 1);
    }
    i
}

/// Payload lines read as article numbers; lines that are not numbers are skipped.
pub open spec fn numbers_of(s: Seq<Seq<char>>) -> Seq<u64>
    decreases s.len(),
{
    if s.len() == 0 {
        seq![]
    } else {
        let t = numbers_of(s.drop_last());
        match parse_u64_spec(s.last()) {
            Some(n) => t.push(n),
            None => t,
        }
    }
}

/// A newsgroup line `name last first status`, when it has four fields and
/// both numbers parse; the status is the first character of the fourth field.
pub open spec fn newsgroup_line(l: Seq<char>) -> Option<NewsGroupV> {
    let p = split_ws(l);
    if p.len() < 4 {
        None
    } else {
        match (parse_u64_spec(p[1]), parse_u64_spec(p[2])) {
            (Some(last), Some(first)) => if p[3].len() > 0 {
                Some(NewsGroupV { name: p[0], last, first, posting_status: p[3][0] })
            } else {
                None
            },
            _ => None,
        }
    }
}

/// Payload lines read as newsgroups; other lines are skipped.
pub open spec fn groups_of(s: Seq<Seq<char>>) -> Seq<NewsGroupV>
    decreases s.len(),
{
    if s.len() == 0 {
        seq![]
    } else {
        let t = groups_of(s.drop_last());
        match newsgroup_line(s.last()) {
            Some(g) => t.push(g),
            None => t,
        }
    }
}

/// A header line `article value`, split at the first space.
pub open spec fn header_line(l: Seq<char>) -> Option<HeaderEntryV> {
    let i = index_of(l, ' ');
    if i >= l.len() {
        None
    } else {
        Some(HeaderEntryV { article: l.take(i), value: l.skip(i + 1) })
    }
}

/// Payload lines read as header entries; lines without a space are skipped.
pub open spec fn headers_of(s: Seq<Seq<char>>) -> Seq<HeaderEntryV>
    decreases s.len(),
{
    if s.len() == 0 {
        seq![]
    } else {
        let t = headers_of(s.drop_last());
        match header_line(s.last()) {
            Some(h) => t.push(h),
            None => t,
        }
    }
}

/// Payload lines split into tab-separated overview fields.
pub open spec fn overview_of(s: Seq<Seq<char>>) -> Seq<Seq<Seq<char>>>
    decreases s.len(),
{
    if s.len() == 0 {
        seq![]
    } else {
        overview_of(s.drop_last()).push(split_char(s.last(), '\t'))
    }
}

/// Article content: each payload line in UTF-8 followed by CRLF.
pub open spec fn content_of(s: Seq<Seq<char>>) -> Seq<u8>
    decreases s.len(),
{
    if s.len() == 0 {
        seq![]
    } else {
        content_of(s.drop_last()) + encode_utf8(s.last()) + seq![13u8, 10u8]
    }
}

/// Parses one newsgroup line.
fn newsgroup_from_chars(l: &Vec<char>) -> (r: Option<NewsGroup>)
    ensures
        match r {
            Some(g) => newsgroup_line(l@) == Some(g@),
            None => newsgroup_line(l@) is None,
        },
{
    assert(l@.subrange(0, l.len() as int) =~= l@);
    let p = split_whitespace(l, 0, l.len());
    if p.len() < 4 {
        return None;
    }
    let last = match parse_u64_all(&p[1]) {
        Some(v) => v,
        None => return None,
    };
    let first = match parse_u64_all(&p[2]) {
        Some(v) => v,
        None => return None,
    };
    if p[3].len() == 0 {
        return None;
    }
    let name = string_from_chars(copy_chars(&p[0]));
    Some(NewsGroup { name, last, first, posting_status: p[3][0] })
}

/// Parses one header line.
fn header_entry_from_chars(l: &Vec<char>) -> (r: Option<HeaderEntry>)
    ensures
        match r {
            Some(h) => header_line(l@) == Some(h@),
            None => header_line(l@) is None,
        },
{
    let i = find_char(l, ' ');
    if i >= l.len() {
        return None;
    }
    assert(l@.subrange(0, i as int) =~= l@.take(i as int));
    assert(l@.subrange(i + 1, l.len() as int) =~= l@.skip(i + 1));
    Some(HeaderEntry { article: string_of_range(l, 0, i), value: string_of_range(l, i + 1, l.len()) })
}

/// Parses one overview line (never fails).
fn overview_entry_from_chars(l: &Vec<char>) -> (r: OverviewEntry)
    ensures
        r@ == split_char(l@, '\t'),
{
    OverviewEntry { fields: split_on_char(l, '\t') }
}

/// Payload lines `1..end` as strings.
pub fn collect_lines(ls: &Vec<Vec<char>>, end: usize) -> (r: Vec<String>)
    requires
        1 <= end <= ls.len(),
    ensures
        strings_of(r@) == seqs_of(ls@).subrange(1, end as int),
{
    let mut out: Vec<String> = Vec::new();
    let mut k: usize = 1;
    while k < end
        invariant
            1 <= k <= end <= ls.len(),
            strings_of(out@) =~= seqs_of(ls@).subrange(1, k as int),
        decreases end - k,
    {
        let ghost before = out@;
        let s = string_from_chars(copy_chars(&ls[k]));
        out.push(s);
        assert(strings_of(out@) =~= strings_of(before).push(s@));
        k = k + 1;
        assert(strings_of(out@) =~= seqs_of(ls@).subrange(1, k as int));
    }
    out
}

/// Payload lines `1..end` read as article numbers.
pub fn collect_numbers(ls: &Vec<Vec<char>>, end: usize) -> (r: Vec<u64>)
    requires
        1 <= end <= ls.len(),
    ensures
        r@ == numbers_of(seqs_of(ls@).subrange(1, end as int)),
{
    let mut out: Vec<u64> = Vec::new();
    let mut k: usize = 1;
    while k < end
        invariant
            1 <= k <= end <= ls.len(),
            out@ == numbers_of(seqs_of(ls@).subrange(1, k as int)),
        decreases end - k,
    {
        assert(seqs_of(ls@).subrange(1, k + 1).drop_last() =~= seqs_of(ls@).subrange(1, k as int));
        match parse_u64_all(&ls[k]) {
            Some(n) => out.push(n),
            None => {},
        }
        k = k + 1;
    }
    out
}

/// View of a sequence of newsgroups.
pub open spec fn groups_view(v: Seq<NewsGroup>) -> Seq<NewsGroupV> {
    v.map_values(|g: NewsGroup| g@)
}

/// View of a sequence of header entries.
pub open spec fn headers_view(v: Seq<HeaderEntry>) -> Seq<HeaderEntryV> {
    v.map_values(|h: HeaderEntry| h@)
}

/// View of a sequence of overview entries.
pub open spec fn overviews_view(v: Seq<OverviewEntry>) -> Seq<Seq<Seq<char>>> {
    v.map_values(|e: OverviewEntry| e@)
}

/// Payload lines `1..end` read as newsgroups.
pub fn collect_groups(ls: &Vec<Vec<char>>, end: usize) -> (r: Vec<NewsGroup>)
    requires
        1 <= end <= ls.len(),
    ensures
        groups_view(r@) == groups_of(seqs_of(ls@).subrange(1, end as int)),
{
    let mut out: Vec<NewsGroup> = Vec::new();
    let mut k: usize = 1;
    while k < end
        invariant
            1 <= k <= end <= ls.len(),
            groups_view(out@) == groups_of(seqs_of(ls@).subrange(1, k as int)),
        decreases end - k,
    {
        assert(seqs_of(ls@).subrange(1, k + 1).drop_last() =~= seqs_of(ls@).subrange(1, k as int));
        let ghost before = out@;
        match newsgroup_from_chars(&ls[k]) {
            Some(g) => {
                out.push(g);
                assert(groups_view(out@) =~= groups_view(before).push(g@));
            },
            None => {},
        }
        k = k + 1;
    }
    out
}

/// Payload lines `1..end` read as header entries.
pub fn collect_headers(ls: &Vec<Vec<char>>, end: usize) -> (r: Vec<HeaderEntry>)
    requires
        1 <= end <= ls.len(),
    ensures
        headers_view(r@) == headers_of(seqs_of(ls@).subrange(1, end as int)),
{
    let mut out: Vec<HeaderEntry> = Vec::new();
    let mut k: usize = 1;
    while k < end
        invariant
            1 <= k <= end <= ls.len(),
            headers_view(out@) == headers_of(seqs_of(ls@).subrange(1, k as int)),
        decreases end - k,
    {
        assert(seqs_of(ls@).subrange(1, k + 1).drop_last() =~= seqs_of(ls@).subrange(1, k as int));
        let ghost before = out@;
        match header_entry_from_chars(&ls[k]) {
            Some(h) => {
                out.push(h);
                assert(headers_view(out@) =~= headers_view(before).push(h@));
            },
            None => {},
        }
        k = k + 1;
    }
    out
}

/// Payload lines `1..end` as overview entries.
pub fn collect_overview(ls: &Vec<Vec<char>>, end: usize) -> (r: Vec<OverviewEntry>)
    requires
        1 <= end <= ls.len(),
    ensures
        overviews_view(r@) == overview_of(seqs_of(ls@).subrange(1, end as int)),
{
    let mut out: Vec<OverviewEntry> = Vec::new();
    let mut k: usize = 1;
    while k < end
        invariant
            1 <= k <= end <= ls.len(),
            overviews_view(out@) == overview_of(seqs_of(ls@).subrange(1, k as int)),
        decreases end - k,
    {
        assert(seqs_of(ls@).subrange(1, k + 1).drop_last() =~= seqs_of(ls@).subrange(1, k as int));
        let ghost before = out@;
        let e = overview_entry_from_chars(&ls[k]);
        out.push(e);
        assert(overviews_view(out@) =~= overviews_view(before).push(e@));
        k = k + 1;
    }
    out
}

/// Payload lines `1..end` as article content bytes.
pub fn collect_content(ls: &Vec<Vec<char>>, end: usize) -> (r: Vec<u8>)
    requires
        1 <= end <= ls.len(),
    ensures
        r@ == content_of(seqs_of(ls@).subrange(1, end as int)),
{
    let mut out: Vec<u8> = Vec::new();
    let mut k: usize = 1;
    while k < end
        invariant
            1 <= k <= end <= ls.len(),
            out@ == content_of(seqs_of(ls@).subrange(1, k as int)),
        decreases end - k,
    {
        assert(seqs_of(ls@).subrange(1, k + 1).drop_last() =~= seqs_of(ls@).subrange(1, k as int));
        let s = string_from_chars(copy_chars(&ls[k]));
        let b = s.as_str().as_bytes();
        let mut t = vstd::slice::slice_to_vec(b);
        let ghost before = out@;
        out.append(&mut t);
        out.push(13u8);
        out.push(10u8);
        assert(out@ =~= before + encode_utf8(ls@[k as int]@) + seq![13u8, 10u8]);
        k = k + 1;
    }
    out
}

/// Parse a LIST ACTIVE style line: name, last, first and posting status,
/// separated by whitespace.
pub fn parse_newsgroup_line(line: &str) -> (r: Option<NewsGroup>)
    ensures
        match r {
            Some(g) => newsgroup_line(line@) == Some(g@),
            None => newsgroup_line(line@) is None,
        },
{
    newsgroup_from_chars(&chars_of(line))
}

/// Parse an HDR line: article and value, split at the first space.
pub fn parse_header_entry(line: &str) -> (r: Option<HeaderEntry>)
    ensures
        match r {
            Some(h) => header_line(line@) == Some(h@),
            None => header_line(line@) is None,
        },
{
    header_entry_from_chars(&chars_of(line))
}

/// Parse an OVER line: its tab-separated fields (there is always one).
pub fn parse_overview_entry(line: &str) -> (r: Option<OverviewEntry>)
    ensures
        r matches Some(e) && e@ == split_char(line@, '\t'),
{
    Some(overview_entry_from_chars(&chars_of(line)))
}


/// Splitting at a character always gives at least one piece.
proof fn lemma_split_char_nonempty(s: Seq<char>, c: char)
    ensures
        split_char(s, c).len() >= 1,
    decreases s.len(),
{
    if s.len() > 0 {
        lemma_split_char_nonempty(s.drop_last(), c);
    }
}

/// An overview line's fields, split at tabs, join back with tabs to the
/// line.
pub proof fn lemma_overview_fields_join(line: Seq<char>)
    ensures
        join(split_char(line, '\t'), "\t"@) == line,
    decreases line.len(),
{
    reveal_strlit("\t");
    let t0 = split_char(line, '\t');
    if line.len() == 0 {
        assert(t0 == seq![Seq::<char>::empty()]);
        assert(join(t0, "\t"@) == t0[0]);
    } else {
        let p = line.drop_last();
        let c = line.last();
        lemma_overview_fields_join(p);
        lemma_split_char_nonempty(p, '\t');
        let t = split_char(p, '\t');
        if c == '\t' {
            let u = t.push(Seq::<char>::empty());
            assert(u.drop_last() =~= t);
            assert(join(u, "\t"@) == join(t, "\t"@) + "\t"@ + Seq::<char>::empty());
            assert(join(u, "\t"@) =~= line);
        } else {
            let u = t.update(t.len() - 1, t.last().push(c));
            if t.len() == 1 {
                assert(join(t, "\t"@) == t[0]);
                assert(join(u, "\t"@) == u[0]);
                assert(join(u, "\t"@) =~= line);
            } else {
                assert(u.drop_last() =~= t.drop_last());
                assert(join(t, "\t"@) == join(t.drop_last(), "\t"@) + "\t"@ + t.last());
                assert(join(u, "\t"@) == join(u.drop_last(), "\t"@) + "\t"@ + u.last());
                assert(u.last() == t.last().push(c));
                let x = join(t.drop_last(), "\t"@) + "\t"@;
                assert((x + t.last()).push(c) =~= x + t.last().push(c));
                assert(p.push(c) =~= line);
            }
        }
    }
}

} // verus!
