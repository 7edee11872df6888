//! Utility functions for NNTP article processing.

use vstd::prelude::*;
use crate::text::{
    ascii_lower, chars_of, copy_chars, count_lead_ws, count_to_trail_ws, find_char, index_of,
    is_ws, lead_ws, lemma_index_of, lemma_ws_counts, lower_seq, seqs_of, split_whitespace,
    split_ws, string_from_chars, strings_of, to_ascii_lower, trail_ws, trim, trim_start,
};

verus! {

/// Whether a token is a Message-ID in angle brackets: it starts with `<`
/// and ends with `>`.
pub open spec fn is_reference(t: Seq<char>) -> bool {
    t.len() > 0 && t[0] == '<' && t.last() == '>'
}

/// The tokens of `ts` that are Message-IDs in angle brackets, in order.
pub open spec fn reference_tokens(ts: Seq<Seq<char>>) -> Seq<Seq<char>>
    decreases ts.len(),
{
    if ts.len() == 0 {
        Seq::empty()
    } else {
        let rest = reference_tokens(ts.drop_last());
        if is_reference(ts.last()) {
            rest.push(ts.last())
        } else {
            rest
        }
    }
}

/// The Message-IDs of a References header: its whitespace-separated tokens
/// that are enclosed in angle brackets, oldest first; none for no header.
pub open spec fn references_of(references: Option<Seq<char>>) -> Seq<Seq<char>> {
    match references {
        None => Seq::empty(),
        Some(s) => reference_tokens(split_ws(s)),
    }
}

/// View of an optional string slice.
pub open spec fn opt_str_view(o: Option<&str>) -> Option<Seq<char>> {
    match o {
        Some(s) => Some(s@),
        None => None,
    }
}

/// Parse a References header into a list of Message-IDs (oldest first).
///
/// The References header contains space-separated Message-IDs representing
/// the ancestry of an article, from oldest ancestor to immediate parent.
/// Tokens not wrapped in `<>` are left out.
pub fn parse_references(references: Option<&str>) -> (r: Vec<String>)
    ensures
        strings_of(r@) == references_of(opt_str_view(references)),
{
    let mut out: Vec<String> = Vec::new();
    let refs = match references {
        None => {
            assert(strings_of(out@) =~= Seq::<Seq<char>>::empty());
            return out;
        },
        Some(s) => s,
    };
    let chars = chars_of(refs);
    let toks = split_whitespace(&chars, 0, chars.len());
    assert(chars@.subrange(0, chars.len() as int) =~= chars@);
    let ghost ts = seqs_of(toks@);
    let mut i: usize = 0;
    while i < toks.len()
        invariant
            i <= toks.len(),
            ts == seqs_of(toks@),
            strings_of(out@) == reference_tokens(ts.take(i as int)),
        decreases toks.len() - i,
    {
        assert(ts.take(i + 1).drop_last() =~= ts.take(i as int));
        let t = &toks[i];
        assert(t@ == ts[i as int]);
        if t.len() > 0 && t[0] == '<' && t[t.len() - 1] == '>' {
            let c = copy_chars(t);
            out.push(string_from_chars(c));
            assert(strings_of(out@) =~= reference_tokens(ts.take(i as int)).push(t@));
        }
        i = i + 1;
    }
    assert(ts.take(toks.len() as int) =~= ts);
    out
}

/// The reply and forward prefixes, lowercase, in the order they are tried:
/// "re:", "fwd:", "fw:", "aw:", "sv:", "antw:".
pub open spec fn subject_prefixes() -> Seq<Seq<char>> {
    seq![
        seq!['r', 'e', ':'],
        seq!['f', 'w', 'd', ':'],
        seq!['f', 'w', ':'],
        seq!['a', 'w', ':'],
        seq!['s', 'v', ':'],
        seq!['a', 'n', 't', 'w', ':'],
    ]
}

/// The same prefixes without their colon, as tags of a bracketed `[Fwd: ...]`.
pub open spec fn subject_tags() -> Seq<Seq<char>> {
    subject_prefixes().map_values(|p: Seq<char>| p.drop_last())
}

/// Whether `s` starts with the lowercase `p`, ignoring ASCII case.
pub open spec fn starts_with_ci(s: Seq<char>, p: Seq<char>) -> bool {
    p.len() <= s.len() && lower_seq(s.take(p.len() as int)) == p
}

/// The length of the first of `ps` that `s` starts with (ignoring case).
pub open spec fn first_prefix(s: Seq<char>, ps: Seq<Seq<char>>) -> Option<nat>
    decreases ps.len(),
{
    if ps.len() == 0 {
        None
    } else if starts_with_ci(s, ps[0]) {
        Some(ps[0].len())
    } else {
        first_prefix(s, ps.drop_first())
    }
}

/// Whether `s` starts with one of `ts` (ignoring case).
pub open spec fn has_tag(s: Seq<char>, ts: Seq<Seq<char>>) -> bool
    decreases ts.len(),
{
    ts.len() > 0 && (starts_with_ci(s, ts[0]) || has_tag(s, ts.drop_first()))
}

/// One round of subject normalization: strip a leading reply or forward
/// prefix and the whitespace after it; then, if what is left starts with a
/// `[` whose text up to the first `]` begins with a tag, strip through that
/// `]` and the whitespace after it. The flag says whether anything was
/// stripped.
pub open spec fn strip_once(s: Seq<char>) -> (Seq<char>, bool) {
    let (a, f) = match first_prefix(s, subject_prefixes()) {
        Some(n) => (trim_start(s.skip(n as int)), true),
        None => (s, false),
    };
    let e = index_of(a, ']');
    if a.len() > 0 && a[0] == '[' && e < a.len() && has_tag(a.subrange(1, e), subject_tags()) {
        (trim_start(a.skip(e + 1)), true)
    } else {
        (a, f)
    }
}

/// Strip rounds until one strips nothing.
pub open spec fn strip_prefixes(s: Seq<char>) -> Seq<char>
    decreases s.len(),
{
    let (t, f) = strip_once(s);
    if f && t.len() < s.len() {
        strip_prefixes(t)
    } else {
        t
    }
}

/// A subject with surrounding whitespace and all leading reply and forward
/// prefixes removed.
pub open spec fn normalized_subject(s: Seq<char>) -> Seq<char> {
    strip_prefixes(trim(s))
}

/// A prefix found is one of the candidates, so at least two characters long.
proof fn lemma_first_prefix(s: Seq<char>, ps: Seq<Seq<char>>)
    requires
        forall|j: int| 0 <= j < ps.len() ==> #[trigger] ps[j].len() >= 2,
    ensures
        first_prefix(s, ps) matches Some(n) ==> 2 <= n <= s.len(),
    decreases ps.len(),
{
    if ps.len() > 0 && !starts_with_ci(s, ps[0]) {
        assert forall|j: int| 0 <= j < ps.drop_first().len() implies #[trigger] ps.drop_first()[j].len()
            >= 2 by {
            assert(ps.drop_first()[j] == ps[j + 1]);
        }
        lemma_first_prefix(s, ps.drop_first());
    }
}

/// A round that strips something makes the subject shorter.
pub proof fn lemma_strip_once_shrinks(s: Seq<char>)
    ensures
        strip_once(s).1 ==> strip_once(s).0.len() < s.len(),
        strip_once(s).0.len() <= s.len(),
{
    let ps = subject_prefixes();
    assert forall|j: int| 0 <= j < ps.len() implies #[trigger] ps[j].len() >= 2 by {}
    lemma_first_prefix(s, ps);
    let a = match first_prefix(s, ps) {
        Some(n) => trim_start(s.skip(n as int)),
        None => s,
    };
    if let Some(n) = first_prefix(s, ps) {
        lemma_ws_counts(s.skip(n as int));
    }
    let e = index_of(a, ']');
    lemma_index_of(a, ']');
    if a.len() > 0 && a[0] == '[' && e < a.len() {
        lemma_ws_counts(a.skip(e + 1));
    }
}

/// What `strip_prefixes` gives is one more round would leave alone.
proof fn lemma_strip_prefixes_fixed(s: Seq<char>)
    ensures
        !strip_once(strip_prefixes(s)).1,
        strip_once(strip_prefixes(s)).0 == strip_prefixes(s),
    decreases s.len(),
{
    lemma_strip_once_shrinks(s);
    let (t, f) = strip_once(s);
    if f {
        lemma_strip_prefixes_fixed(t);
    }
}

/// A suffix of a sequence with no trailing whitespace has none either.
proof fn lemma_suffix_trail(s: Seq<char>, k: int)
    requires
        0 <= k <= s.len(),
        trail_ws(s) == 0,
    ensures
        trail_ws(s.skip(k)) == 0,
{
    if k < s.len() {
        assert(s.skip(k).last() == s.last());
    }
}

/// Rounds keep a subject free of trailing whitespace, and one that strips
/// something leaves no leading whitespace.
proof fn lemma_strip_once_trimmed(s: Seq<char>)
    requires
        trail_ws(s) == 0,
    ensures
        trail_ws(strip_once(s).0) == 0,
        strip_once(s).1 ==> lead_ws(strip_once(s).0) == 0,
{
    let ps = subject_prefixes();
    assert forall|j: int| 0 <= j < ps.len() implies #[trigger] ps[j].len() >= 2 by {}
    lemma_first_prefix(s, ps);
    let a = match first_prefix(s, ps) {
        Some(n) => trim_start(s.skip(n as int)),
        None => s,
    };
    if let Some(n) = first_prefix(s, ps) {
        let b = s.skip(n as int);
        lemma_suffix_trail(s, n as int);
        lemma_ws_counts(b);
        assert(a =~= s.skip((n + lead_ws(b)) as int));
        lemma_suffix_trail(s, (n + lead_ws(b)) as int);
        lemma_trim_start_lead(b);
    }
    let e = index_of(a, ']');
    lemma_index_of(a, ']');
    if a.len() > 0 && a[0] == '[' && e < a.len() {
        let b = a.skip(e + 1);
        lemma_suffix_trail(a, e + 1);
        lemma_ws_counts(b);
        lemma_suffix_trail(b, lead_ws(b) as int);
        lemma_trim_start_lead(b);
    }
}

/// `trim_start` leaves no leading whitespace.
proof fn lemma_trim_start_lead(s: Seq<char>)
    ensures
        lead_ws(trim_start(s)) == 0,
{
    lemma_ws_counts(s);
    let t = trim_start(s);
    if t.len() > 0 {
        assert(t[0] == s[lead_ws(s) as int]);
    }
}

/// A subject already trimmed at both ends is its own trim.
proof fn lemma_trim_trimmed(s: Seq<char>)
    requires
        lead_ws(s) == 0,
        trail_ws(s) == 0,
    ensures
        trim(s) == s,
{
    assert(s.take(s.len() as int) =~= s);
    assert(s.skip(0) =~= s);
}

/// What `strip_prefixes` gives from a trimmed subject is trimmed.
proof fn lemma_strip_prefixes_trimmed(s: Seq<char>)
    requires
        lead_ws(s) == 0,
        trail_ws(s) == 0,
    ensures
        lead_ws(strip_prefixes(s)) == 0,
        trail_ws(strip_prefixes(s)) == 0,
    decreases s.len(),
{
    lemma_strip_once_shrinks(s);
    lemma_strip_once_trimmed(s);
    let (t, f) = strip_once(s);
    if f {
        lemma_strip_prefixes_trimmed(t);
    }
}

/// `trim` leaves no whitespace at either end.
proof fn lemma_trim_ends(s: Seq<char>)
    ensures
        lead_ws(trim(s)) == 0,
        trail_ws(trim(s)) == 0,
{
    let e = s.take(s.len() - trail_ws(s));
    lemma_ws_counts(s);
    if e.len() > 0 {
        assert(e.last() == s[s.len() - trail_ws(s) - 1]);
    }
    lemma_trim_start_lead(e);
    lemma_ws_counts(e);
    lemma_suffix_trail(e, lead_ws(e) as int);
}

/// Normalizing a subject twice gives what normalizing it once gives.
pub proof fn lemma_normalize_idempotent(s: Seq<char>)
    ensures
        normalized_subject(normalized_subject(s)) == normalized_subject(s),
{
    let y = normalized_subject(s);
    lemma_trim_ends(s);
    lemma_strip_prefixes_trimmed(trim(s));
    lemma_trim_trimmed(y);
    lemma_strip_prefixes_fixed(trim(s));
    lemma_strip_once_shrinks(y);
}

/// The characters `v[start..end]`.
pub fn sub_chars(v: &Vec<char>, start: usize, end: usize) -> (r: Vec<char>)
    requires
        start <= end <= v.len(),
    ensures
        r@ == v@.subrange(start as int, end as int),
{
    let mut r: Vec<char> = Vec::new();
    let mut i: usize = start;
    while i < end
        invariant
            start <= i <= end <= v.len(),
            r@ =~= v@.subrange(start as int, i as int),
        decreases end - i,
    {
        r.push(v[i]);
        i = i + 1;
        assert(r@ =~= v@.subrange(start as int, i as int));
    }
    r
}

/// Whether `v` starts with the lowercase `p`, ignoring ASCII case.
pub(crate) fn starts_ci(v: &Vec<char>, p: &Vec<char>) -> (r: bool)
    ensures
        r == starts_with_ci(v@, p@),
{
    if p.len() > v.len() {
        return false;
    }
    let mut i: usize = 0;
    while i < p.len()
        invariant
            p.len() <= v.len(),
            i <= p.len(),
            forall|j: int| 0 <= j < i ==> ascii_lower(v@[j]) == p@[j],
        decreases p.len() - i,
    {
        if to_ascii_lower(v[i]) != p[i] {
            assert(lower_seq(v@.take(p.len() as int))[i as int] != p@[i as int]);
            return false;
        }
        i = i + 1;
    }
    assert(lower_seq(v@.take(p.len() as int)) =~= p@);
    true
}

/// The `k`-th reply or forward prefix.
fn prefix_chars(k: usize) -> (r: Vec<char>)
    requires
        k < 6,
    ensures
        r@ == subject_prefixes()[k as int],
{
    let mut r: Vec<char> = Vec::new();
    if k == 0 {
        r.push('r');
        r.push('e');
    } else if k == 1 {
        r.push('f');
        r.push('w');
        r.push('d');
    } else if k == 2 {
        r.push('f');
        r.push('w');
    } else if k == 3 {
        r.push('a');
        r.push('w');
    } else if k == 4 {
        r.push('s');
        r.push('v');
    } else {
        r.push('a');
        r.push('n');
        r.push('t');
        r.push('w');
    }
    r.push(':');
    assert(r@ =~= subject_prefixes()[k as int]);
    r
}

/// The length of the first reply or forward prefix that `v` starts with.
fn prefix_len(v: &Vec<char>) -> (r: Option<usize>)
    ensures
        r matches Some(n) ==> first_prefix(v@, subject_prefixes()) == Some(n as nat),
        r is None ==> first_prefix(v@, subject_prefixes()) is None,
{
    let ghost ps = subject_prefixes();
    assert(ps.skip(0) =~= ps);
    let mut k: usize = 0;
    while k < 6
        invariant
            k <= 6,
            ps == subject_prefixes(),
            first_prefix(v@, ps) == first_prefix(v@, ps.skip(k as int)),
        decreases 6 - k,
    {
        let p = prefix_chars(k);
        assert(ps.skip(k as int)[0] == ps[k as int]);
        if starts_ci(v, &p) {
            return Some(p.len());
        }
        assert(ps.skip(k as int).drop_first() =~= ps.skip(k + 1));
        k = k + 1;
    }
    assert(ps.skip(6) =~= Seq::<Seq<char>>::empty());
    None
}

/// Whether `v` starts with one of the bracket tags.
fn starts_with_tag(v: &Vec<char>) -> (r: bool)
    ensures
        r == has_tag(v@, subject_tags()),
{
    let ghost ts = subject_tags();
    assert(ts.skip(0) =~= ts);
    let mut k: usize = 0;
    while k < 6
        invariant
            k <= 6,
            ts == subject_tags(),
            has_tag(v@, ts) == has_tag(v@, ts.skip(k as int)),
        decreases 6 - k,
    {
        let mut p = prefix_chars(k);
        p.pop();
        assert(ts.skip(k as int)[0] == ts[k as int]);
        assert(p@ == ts[k as int]);
        if starts_ci(v, &p) {
            return true;
        }
        assert(ts.skip(k as int).drop_first() =~= ts.skip(k + 1));
        k = k + 1;
    }
    assert(ts.skip(6) =~= Seq::<Seq<char>>::empty());
    false
}

/// One round of normalization (see `strip_once`).
fn strip_round(v: &Vec<char>) -> (r: (Vec<char>, bool))
    ensures
        (r.0@, r.1) == strip_once(v@),
{
    let (a, f) = match prefix_len(v) {
        Some(n) => {
            proof {
                let ps = subject_prefixes();
                assert forall|j: int| 0 <= j < ps.len() implies #[trigger] ps[j].len() >= 2 by {}
                lemma_first_prefix(v@, ps);
            }
            let from = count_lead_ws(v, n);
            let a = sub_chars(v, from, v.len());
            assert(a@ =~= trim_start(v@.skip(n as int)));
            (a, true)
        },
        None => (copy_chars(v), false),
    };
    if a.len() > 0 && a[0] == '[' {
        let e = find_char(&a, ']');
        proof {
            lemma_index_of(a@, ']');
        }
        if e < a.len() {
            let content = sub_chars(&a, 1, e);
            if starts_with_tag(&content) {
                let from = count_lead_ws(&a, e + 1);
                let b = sub_chars(&a, from, a.len());
                assert(b@ =~= trim_start(a@.skip(e + 1)));
                return (b, true);
            }
        }
    }
    (a, f)
}

/// Normalize a subject line by removing Re:, Fwd:, etc. prefixes.
///
/// The subject is trimmed; then, as long as one is found, a leading reply or
/// forward prefix ("re:", "fwd:", "fw:", "aw:", "sv:", "antw:", in any
/// case) is removed with the whitespace after it, and so is a leading
/// bracketed tag such as `[Fwd: ...]`. This is useful for grouping articles
/// by their base subject.
pub fn normalize_subject(subject: &str) -> (r: String)
    ensures
        r@ == normalized_subject(subject@),
{
    let v = chars_of(subject);
    let end = count_to_trail_ws(&v, v.len());
    assert(v@.take(v.len() as int) =~= v@);
    let e = sub_chars(&v, 0, end);
    let start = count_lead_ws(&e, 0);
    let mut cur = sub_chars(&e, start, e.len());
    assert(e@.skip(0) =~= e@);
    assert(cur@ =~= trim(subject@));
    loop
        invariant
            strip_prefixes(cur@) == normalized_subject(subject@),
        decreases cur.len(),
    {
        let (next, found) = strip_round(&cur);
        proof {
            lemma_strip_once_shrinks(cur@);
        }
        if !found {
            return string_from_chars(next);
        }
        cur = next;
    }
}


/// When no prefix is found, `s` starts with none of them.
proof fn lemma_no_first_prefix(s: Seq<char>, ps: Seq<Seq<char>>)
    requires
        first_prefix(s, ps) is None,
    ensures
        forall|j: int| 0 <= j < ps.len() ==> !starts_with_ci(s, #[trigger] ps[j]),
    decreases ps.len(),
{
    if ps.len() > 0 {
        lemma_no_first_prefix(s, ps.drop_first());
        assert forall|j: int| 0 <= j < ps.len() implies !starts_with_ci(s, #[trigger] ps[j]) by {
            if j > 0 {
                assert(ps[j] == ps.drop_first()[j - 1]);
            }
        }
    }
}

/// A normalized subject is trimmed (its own trim, no whitespace at either
/// end) and starts with none of the reply and forward prefixes, in any
/// case.
pub proof fn lemma_normalized_shape(s: Seq<char>)
    ensures
        lead_ws(normalized_subject(s)) == 0,
        trail_ws(normalized_subject(s)) == 0,
        trim(normalized_subject(s)) == normalized_subject(s),
        forall|j: int| 0 <= j < subject_prefixes().len() ==> !starts_with_ci(
            normalized_subject(s),
            #[trigger] subject_prefixes()[j],
        ),
{
    let y = normalized_subject(s);
    lemma_trim_ends(s);
    lemma_strip_prefixes_trimmed(trim(s));
    lemma_trim_trimmed(y);
    lemma_strip_prefixes_fixed(trim(s));
    assert(first_prefix(y, subject_prefixes()) is None);
    lemma_no_first_prefix(y, subject_prefixes());
}

} // verus!
