//! Character-sequence utilities shared by the parsers.
//!
//! Each function here has an exact specification over `Seq<char>`, matching
//! the standard library operation it stands for (`str::lines`,
//! `str::split_whitespace`, `char::is_whitespace`, `u64::from_str`, ...).

use vstd::prelude::*;
use vstd::std_specs::iter::IteratorSpec;

verus! {

/// Unicode `White_Space`, as used by `char::is_whitespace`.
pub open spec fn is_ws(c: char) -> bool {
    let u = c as u32;
    ||| u == 0x20
    ||| (0x09 <= u && u <= 0x0d)
    ||| u == 0x85
    ||| u == 0xa0
    ||| u == 0x1680
    ||| (0x2000 <= u && u <= 0x200a)
    ||| u == 0x2028
    ||| u == 0x2029
    ||| u == 0x202f
    ||| u == 0x205f
    ||| u == 0x3000
}

/// Executable whitespace test.
pub fn is_whitespace(c: char) -> (r: bool)
    ensures
        r == is_ws(c),
{
    let u = c as u32;
    u == 0x20 || (0x09 <= u && u <= 0x0d) || u == 0x85 || u == 0xa0 || u == 0x1680 || (0x2000
        <= u && u <= 0x200a) || u == 0x2028 || u == 0x2029 || u == 0x202f || u == 0x205f || u
        == 0x3000
}

/// The whitespace-separated tokens of `s`, in order (`str::split_whitespace`).
pub open spec fn split_ws(s: Seq<char>) -> Seq<Seq<char>>
    decreases s.len(),
{
    if s.len() == 0 {
        seq![]
    } else {
        let p = s.drop_last();
        let c = s.last();
        let t = split_ws(p);
        if is_ws(c) {
            t
        } else if p.len() > 0 && !is_ws(p.last()) && t.len() > 0 {
            t.update(t.len() - 1, t.last().push(c))
        } else {
            t.push(seq![c])
        }
    }
}

/// View of a vector of character vectors.
pub open spec fn seqs_of(v: Seq<Vec<char>>) -> Seq<Seq<char>> {
    v.map_values(|t: Vec<char>| t@)
}

/// Executable `split_whitespace` over the characters `s[start..end]`.
pub fn split_whitespace(s: &Vec<char>, start: usize, end: usize) -> (r: Vec<Vec<char>>)
    requires
        start <= end <= s.len(),
    ensures
        seqs_of(r@) == split_ws(s@.subrange(start as int, end as int)),
{
    let mut toks: Vec<Vec<char>> = Vec::new();
    let mut i = start;
    let mut in_tok = false;
    while i < end
        invariant
            start <= i <= end <= s.len(),
            seqs_of(toks@) == split_ws(s@.subrange(start as int, i as int)),
            in_tok == (i > start && !is_ws(s@[i - 1])),
            in_tok ==> toks.len() > 0,
        decreases end - i,
    {
        let c = s[i];
        let ghost pre = s@.subrange(start as int, i as int);
        assert(s@.subrange(start as int, i + 1).drop_last() =~= pre);
        if is_whitespace(c) {
            in_tok = false;
        } else if in_tok {
            let last = toks.len() - 1;
            let mut t = toks.pop().unwrap();
            t.push(c);
            toks.push(t);
            assert(seqs_of(toks@) =~= split_ws(pre).update(last as int, split_ws(pre).last().push(c)));
            in_tok = true;
        } else {
            let mut t: Vec<char> = Vec::new();
            t.push(c);
            toks.push(t);
            assert(t@ =~= seq![c]);
            assert(seqs_of(toks@) =~= split_ws(pre).push(seq![c]));
            in_tok = true;
        }
        i = i + 1;
    }
    toks
}


/// Strip one trailing carriage return.
pub open spec fn strip_cr(l: Seq<char>) -> Seq<char> {
    if l.len() > 0 && l.last() == '\r' {
        l.drop_last()
    } else {
        l
    }
}

/// Lines ended by `'\n'` (with a trailing `'\r'` removed) and the unfinished rest.
pub open spec fn split_nl(s: Seq<char>) -> (Seq<Seq<char>>, Seq<char>)
    decreases s.len(),
{
    if s.len() == 0 {
        (seq![], seq![])
    } else {
        let (done, cur) = split_nl(s.drop_last());
        if s.last() == '\n' {
            (done.push(strip_cr(cur)), seq![])
        } else {
            (done, cur.push(s.last()))
        }
    }
}

/// The lines of `s`, as `str::lines` yields them.
pub open spec fn lines(s: Seq<char>) -> Seq<Seq<char>> {
    let (done, cur) = split_nl(s);
    if cur.len() > 0 {
        done.push(cur)
    } else {
        done
    }
}

/// Executable `str::lines`.
pub fn split_lines(s: &Vec<char>) -> (r: Vec<Vec<char>>)
    ensures
        seqs_of(r@) == lines(s@),
{
    let mut done: Vec<Vec<char>> = Vec::new();
    let mut cur: Vec<char> = Vec::new();
    let mut i: usize = 0;
    while i < s.len()
        invariant
            i <= s.len(),
            (seqs_of(done@), cur@) == split_nl(s@.take(i as int)),
        decreases s.len() - i,
    {
        let c = s[i];
        assert(s@.take(i + 1).drop_last() =~= s@.take(i as int));
        if c == '\n' {
            let ghost old_cur = cur@;
            let n = cur.len();
            if n > 0 && cur[n - 1] == '\r' {
                cur.pop();
            }
            assert(cur@ == strip_cr(old_cur));
            done.push(cur);
            cur = Vec::new();
            assert(seqs_of(done@) =~= split_nl(s@.take(i as int)).0.push(strip_cr(old_cur)));
        } else {
            cur.push(c);
        }
        i = i + 1;
    }
    assert(s@.take(s.len() as int) =~= s@);
    if cur.len() > 0 {
        done.push(cur);
        assert(seqs_of(done@) =~= split_nl(s@).0.push(split_nl(s@).1));
    }
    done
}

/// The characters of a string slice, in order.
pub fn chars_of(s: &str) -> (r: Vec<char>)
    ensures
        r@ == s@,
{
    broadcast use vstd::string::axiom_spec_iter, vstd::string::next_postcondition;

    let mut v: Vec<char> = Vec::new();
    let mut it = s.chars();
    loop
        invariant
            v@ + it.remaining() == s@,
            it.obeys_prophetic_iter_laws(),
            it.decrease() is Some,
        decreases it.decrease()->0,
    {
        match it.next() {
            Some(c) => {
                v.push(c);
                assert(v@ + it.remaining() =~= s@);
            },
            None => {
                assert(v@ =~= s@);
                return v;
            },
        }
    }
}


/// ASCII decimal digit.
pub open spec fn is_digit(c: char) -> bool {
    48 <= (c as u32) && (c as u32) <= 57
}

/// Value of an ASCII decimal digit.
pub open spec fn digit_val(c: char) -> int {
    (c as u32) - 48
}

/// Every character of `s` is a decimal digit.
pub open spec fn all_digits(s: Seq<char>) -> bool {
    forall|i: int| 0 <= i < s.len() ==> #[trigger] is_digit(s[i])
}

/// The number written by the decimal digits `s`.
pub open spec fn digits_value(s: Seq<char>) -> nat
    decreases s.len(),
{
    if s.len() == 0 {
        0
    } else {
        (digits_value(s.drop_last()) * 10 + digit_val(s.last())) as nat
    }
}

/// The digits `u64::from_str` reads: one leading `+` is dropped when more follows.
pub open spec fn uint_digits(s: Seq<char>) -> Seq<char> {
    if s.len() > 1 && s[0] == '+' {
        s.drop_first()
    } else {
        s
    }
}

/// What parsing `s` as an unsigned integer no greater than `max` gives
/// (`u64::from_str`, `u16::from_str`).
pub open spec fn parse_uint(s: Seq<char>, max: nat) -> Option<nat> {
    let d = uint_digits(s);
    if d.len() > 0 && all_digits(d) && digits_value(d) <= max {
        Some(digits_value(d))
    } else {
        None
    }
}

/// `parse_uint` at the `u64` range, as an `Option<u64>`.
pub open spec fn parse_u64_spec(s: Seq<char>) -> Option<u64> {
    match parse_uint(s, u64::MAX as nat) {
        Some(v) => Some(v as u64),
        None => None,
    }
}

/// `parse_uint` at the `u16` range, as an `Option<u16>`.
pub open spec fn parse_u16_spec(s: Seq<char>) -> Option<u16> {
    match parse_uint(s, u16::MAX as nat) {
        Some(v) => Some(v as u16),
        None => None,
    }
}

proof fn lemma_digits_value_prefix(s: Seq<char>, k: int)
    requires
        0 <= k <= s.len(),
        all_digits(s),
    ensures
        digits_value(s.take(k)) <= digits_value(s),
    decreases s.len() - k,
{
    if k < s.len() {
        lemma_digits_value_prefix(s, k + 1);
        assert(s.take(k + 1).drop_last() =~= s.take(k));
        assert(is_digit(s[k]));
    } else {
        assert(s.take(k) =~= s);
    }
}

/// Executable `u64::from_str` on `s[start..end]`.
pub fn parse_u64(s: &Vec<char>, start: usize, end: usize) -> (r: Option<u64>)
    requires
        start <= end <= s.len(),
    ensures
        r == parse_u64_spec(s@.subrange(start as int, end as int)),
{
    let ghost t = s@.subrange(start as int, end as int);
    let mut b = start;
    if end - start > 1 && s[start] == '+' {
        b = start + 1;
    }
    let ghost d = s@.subrange(b as int, end as int);
    assert(d =~= uint_digits(t));
    if b == end {
        return None;
    }
    let mut acc: u64 = 0;
    let mut i = b;
    while i < end
        invariant
            start <= b <= i <= end <= s.len(),
            d == s@.subrange(b as int, end as int),
            t == s@.subrange(start as int, end as int),
            d == uint_digits(t),
            d.len() > 0,
            all_digits(d.take(i - b)),
            acc as nat == digits_value(d.take(i - b)),
        decreases end - i,
    {
        let c = s[i];
        let u = c as u32;
        if u < 48 || u > 57 {
            assert(!is_digit(d[i - b]));
            return None;
        }
        assert(d.take(i - b + 1).drop_last() =~= d.take(i - b));
        assert(d.take(i - b + 1).last() == c);
        assert(all_digits(d.take(i - b + 1)));
        let dv = (u - 48) as u64;
        match acc.checked_mul(10) {
            Some(m) => match m.checked_add(dv) {
                Some(a) => {
                    acc = a;
                },
                None => {
                    proof {
                        if all_digits(d) {
                            lemma_digits_value_prefix(d, i - b + 1);
                        }
                    }
                    return None;
                },
            },
            None => {
                proof {
                    if all_digits(d) {
                        lemma_digits_value_prefix(d, i - b + 1);
                    }
                }
                return None;
            },
        }
        i = i + 1;
    }
    assert(d.take(i - b) =~= d);
    Some(acc)
}

/// Executable `u16::from_str` on `s[start..end]`.
pub fn parse_u16(s: &Vec<char>, start: usize, end: usize) -> (r: Option<u16>)
    requires
        start <= end <= s.len(),
    ensures
        r == parse_u16_spec(s@.subrange(start as int, end as int)),
{
    match parse_u64(s, start, end) {
        Some(v) => {
            if v <= 65535 {
                Some(v as u16)
            } else {
                None
            }
        },
        None => None,
    }
}

/// The character of a decimal digit value.
pub open spec fn digit_char(d: nat) -> char {
    ((d + 48) as u32) as char
}

/// The shortest decimal representation of `n` (as `u64::to_string` writes it).
pub open spec fn decimal(n: nat) -> Seq<char>
    decreases n,
{
    if n < 10 {
        seq![digit_char(n)]
    } else {
        decimal(n / 10).push(digit_char(n % 10))
    }
}

/// Executable decimal formatting of a `u64`.
pub fn u64_to_decimal(n: u64) -> (r: Vec<char>)
    ensures
        r@ == decimal(n as nat),
    decreases n,
{
    if n < 10 {
        let c = ((n as u8) + 48) as char;
        let mut v = Vec::new();
        v.push(c);
        assert(v@ =~= seq![digit_char(n as nat)]);
        v
    } else {
        let mut v = u64_to_decimal(n / 10);
        let c = (((n % 10) as u8) + 48) as char;
        v.push(c);
        v
    }
}


/// `String::from_iter` over characters: a `String` holding exactly the
/// given characters, in order.
#[verifier::external_body]
pub(crate) fn string_from_chars(v: Vec<char>) -> (r: String)
    ensures
        r@ == v@,
{
    String::from_iter(v)
}

/// The characters of a `String`.
pub fn chars_of_string(s: &String) -> (r: Vec<char>)
    ensures
        r@ == s@,
{
    chars_of(s.as_str())
}

/// Appends the characters of `s` to `v`.
pub fn push_str(v: &mut Vec<char>, s: &str)
    ensures
        final(v)@ == old(v)@ + s@,
{
    let mut t = chars_of(s);
    v.append(&mut t);
}

/// Whether `s` contains the character `c`.
pub fn contains_char(s: &Vec<char>, c: char) -> (r: bool)
    ensures
        r == s@.contains(c),
{
    let mut i: usize = 0;
    while i < s.len()
        invariant
            i <= s.len(),
            forall|j: int| 0 <= j < i ==> s@[j] != c,
        decreases s.len() - i,
    {
        if s[i] == c {
            return true;
        }
        i = i + 1;
    }
    false
}

/// `p` occurs in `s` starting at `i`.
pub open spec fn occurs_at(s: Seq<char>, p: Seq<char>, i: int) -> bool {
    0 <= i && i + p.len() <= s.len() && s.subrange(i, i + p.len()) == p
}

/// `p` occurs somewhere in `s` (`str::contains` with a string pattern).
pub open spec fn seq_contains(s: Seq<char>, p: Seq<char>) -> bool {
    exists|i: int| occurs_at(s, p, i)
}

/// Executable substring search.
pub fn contains_seq(s: &Vec<char>, p: &Vec<char>) -> (r: bool)
    ensures
        r == seq_contains(s@, p@),
{
    if p.len() > s.len() {
        assert forall|i: int| !occurs_at(s@, p@, i) by {}
        return false;
    }
    let mut i: usize = 0;
    while i <= s.len() - p.len()
        invariant
            p.len() <= s.len(),
            i <= s.len() - p.len() + 1,
            forall|k: int| 0 <= k < i ==> !occurs_at(s@, p@, k),
        decreases s.len() - p.len() + 1 - i,
    {
        let mut j: usize = 0;
        let mut ok = true;
        while j < p.len()
            invariant
                p.len() <= s.len(),
                i <= s.len() - p.len(),
                j <= p.len(),
                ok == (forall|m: int| 0 <= m < j ==> s@[i + m] == p@[m]),
            decreases p.len() - j,
        {
            if s[i + j] != p[j] {
                ok = false;
            }
            j = j + 1;
        }
        if ok {
            assert(s@.subrange(i as int, i + p.len()) =~= p@);
            assert(occurs_at(s@, p@, i as int));
            return true;
        }
        assert(!occurs_at(s@, p@, i as int)) by {
            if occurs_at(s@, p@, i as int) {
                assert forall|m: int| 0 <= m < p.len() implies s@[i + m] == p@[m] by {
                    assert(s@.subrange(i as int, i + p.len())[m] == s@[i + m]);
                }
            }
        }
        i = i + 1;
    }
    assert forall|k: int| !occurs_at(s@, p@, k) by {
        if occurs_at(s@, p@, k) {
            assert(k < i);
        }
    }
    false
}

/// ASCII lowercase of one character (`A`-`Z` to `a`-`z`; others unchanged).
pub open spec fn ascii_lower(c: char) -> char {
    if 65 <= (c as u32) && (c as u32) <= 90 {
        ((c as u32) + 32) as char
    } else {
        c
    }
}

/// ASCII lowercase of a character sequence.
pub open spec fn lower_seq(s: Seq<char>) -> Seq<char> {
    s.map_values(|c: char| ascii_lower(c))
}

/// Executable `ascii_lower`.
pub fn to_ascii_lower(c: char) -> (r: char)
    ensures
        r == ascii_lower(c),
{
    if 'A' <= c && c <= 'Z' {
        (((c as u32) + 32) as u8) as char
    } else {
        c
    }
}

/// Executable `lower_seq`.
pub fn lowercase(s: &Vec<char>) -> (r: Vec<char>)
    ensures
        r@ == lower_seq(s@),
{
    let mut r: Vec<char> = Vec::new();
    let mut i: usize = 0;
    while i < s.len()
        invariant
            i <= s.len(),
            r@ =~= lower_seq(s@.take(i as int)),
        decreases s.len() - i,
    {
        r.push(to_ascii_lower(s[i]));
        i = i + 1;
        assert(r@ =~= lower_seq(s@.take(i as int)));
    }
    assert(s@.take(s.len() as int) =~= s@);
    r
}


/// A copy of a character vector.
pub fn copy_chars(v: &Vec<char>) -> (r: Vec<char>)
    ensures
        r@ == v@,
{
    let mut r: Vec<char> = Vec::new();
    let mut i: usize = 0;
    while i < v.len()
        invariant
            i <= v.len(),
            r@ =~= v@.take(i as int),
        decreases v.len() - i,
    {
        r.push(v[i]);
        i = i + 1;
        assert(r@ =~= v@.take(i as int));
    }
    assert(v@.take(v.len() as int) =~= v@);
    r
}

/// A `String` of the characters `v[start..end]`.
pub fn string_of_range(v: &Vec<char>, start: usize, end: usize) -> (r: String)
    requires
        start <= end <= v.len(),
    ensures
        r@ == v@.subrange(start as int, end as int),
{
    let mut r: Vec<char> = Vec::new();
    let mut i: usize = start;
    while i < end
        invariant
            start <= i <= end <= v.len(),
            r@ =~= v@.subrange(start as int, i as int),
        decreases end - i,
    {
        r.push(v[i]);
        i = i + 1;
        assert(r@ =~= v@.subrange(start as int, i as int));
    }
    string_from_chars(r)
}

/// Index of the first `c` in `s`, or `s.len()` when there is none.
pub open spec fn index_of(s: Seq<char>, c: char) -> int
    decreases s.len(),
{
    if s.len() == 0 {
        0
    } else {
        let p = index_of(s.drop_last(), c);
        if p < s.len() - 1 {
            p
        } else if s.last() == c {
            s.len() - 1
        } else {
            s.len() as int
        }
    }
}

/// `index_of` is the first occurrence.
pub proof fn lemma_index_of(s: Seq<char>, c: char)
    ensures
        0 <= index_of(s, c) <= s.len(),
        index_of(s, c) < s.len() ==> s[index_of(s, c)] == c,
        forall|j: int| 0 <= j < index_of(s, c) ==> s[j] != c,
    decreases s.len(),
{
    if s.len() > 0 {
        let p = s.drop_last();
        lemma_index_of(p, c);
        assert forall|j: int| 0 <= j < index_of(s, c) implies s[j] != c by {
            if j < p.len() {
                assert(p[j] == s[j]);
            }
        }
    }
}

/// Executable `index_of`.
pub fn find_char(s: &Vec<char>, c: char) -> (r: usize)
    ensures
        r == index_of(s@, c),
{
    let mut i: usize = 0;
    while i < s.len()
        invariant
            i <= s.len(),
            forall|j: int| 0 <= j < i ==> s@[j] != c,
        decreases s.len() - i,
    {
        if s[i] == c {
            proof {
                lemma_index_of(s@, c);
                if index_of(s@, c) != i {
                    assert(index_of(s@, c) < i || s@[i as int] != c);
                }
            }
            return i;
        }
        i = i + 1;
    }
    proof {
        lemma_index_of(s@, c);
    }
    i
}

/// The pieces of `s` between occurrences of `c` (`str::split` with a char;
/// never empty).
pub open spec fn split_char(s: Seq<char>, c: char) -> Seq<Seq<char>>
    decreases s.len(),
{
    if s.len() == 0 {
        seq![seq![]]
    } else {
        let t = split_char(s.drop_last(), c);
        if s.last() == c || t.len() == 0 {
            t.push(seq![])
        } else {
            t.update(t.len() - 1, t.last().push(s.last()))
        }
    }
}

/// Executable `split_char`, giving `String` pieces.
pub fn split_on_char(s: &Vec<char>, c: char) -> (r: Vec<String>)
    ensures
        strings_of(r@) == split_char(s@, c),
{
    let mut done: Vec<String> = Vec::new();
    let mut start: usize = 0;
    let mut i: usize = 0;
    assert(s@.take(0) =~= Seq::<char>::empty());
    assert(strings_of(done@).push(s@.subrange(0, 0)) =~= seq![Seq::<char>::empty()]);
    while i < s.len()
        invariant
            start <= i <= s.len(),
            strings_of(done@).push(s@.subrange(start as int, i as int)) == split_char(s@.take(i as int), c),
        decreases s.len() - i,
    {
        assert(s@.take(i + 1).drop_last() =~= s@.take(i as int));
        if s[i] == c {
            let piece = string_of_range(s, start, i);
            done.push(piece);
            start = i + 1;
            assert(s@.subrange(start as int, i + 1) =~= Seq::<char>::empty());
            assert(strings_of(done@).push(s@.subrange(start as int, i + 1)) =~= split_char(s@.take(i + 1), c));
        } else {
            assert(s@.subrange(start as int, i + 1) =~= s@.subrange(start as int, i as int).push(s@[i as int]));
            assert(strings_of(done@).push(s@.subrange(start as int, i + 1)) =~= split_char(s@.take(i + 1), c));
        }
        i = i + 1;
    }
    let piece = string_of_range(s, start, i);
    done.push(piece);
    assert(s@.take(s.len() as int) =~= s@);
    assert(strings_of(done@) =~= split_char(s@, c));
    done
}

/// View of a sequence of `String`s.
pub open spec fn strings_of(v: Seq<String>) -> Seq<Seq<char>> {
    v.map_values(|t: String| t@)
}


/// Executable `u64::from_str` on a whole character vector.
pub fn parse_u64_all(v: &Vec<char>) -> (r: Option<u64>)
    ensures
        r == parse_u64_spec(v@),
{
    assert(v@.subrange(0, v.len() as int) =~= v@);
    parse_u64(v, 0, v.len())
}

/// The number of whitespace characters at the start of `s`.
pub open spec fn lead_ws(s: Seq<char>) -> nat
    decreases s.len(),
{
    if s.len() > 0 && is_ws(s[0]) {
        1 + lead_ws(s.drop_first())
    } else {
        0
    }
}

/// The number of whitespace characters at the end of `s`.
pub open spec fn trail_ws(s: Seq<char>) -> nat
    decreases s.len(),
{
    if s.len() > 0 && is_ws(s.last()) {
        1 + trail_ws(s.drop_last())
    } else {
        0
    }
}

/// `str::trim_start`: `s` without its leading whitespace.
pub open spec fn trim_start(s: Seq<char>) -> Seq<char> {
    s.skip(lead_ws(s) as int)
}

/// `str::trim_end`: `s` without its trailing whitespace.
pub open spec fn trim_end(s: Seq<char>) -> Seq<char> {
    s.take(s.len() - trail_ws(s))
}

/// `str::trim`: `s` without leading and trailing whitespace.
pub open spec fn trim(s: Seq<char>) -> Seq<char> {
    trim_start(trim_end(s))
}

/// Leading and trailing whitespace counts stay within the sequence, and
/// what they stop at is not whitespace.
pub proof fn lemma_ws_counts(s: Seq<char>)
    ensures
        lead_ws(s) <= s.len(),
        trail_ws(s) <= s.len(),
        forall|i: int| 0 <= i < lead_ws(s) ==> is_ws(#[trigger] s[i]),
        lead_ws(s) < s.len() ==> !is_ws(s[lead_ws(s) as int]),
        forall|i: int| s.len() - trail_ws(s) <= i < s.len() ==> is_ws(#[trigger] s[i]),
        trail_ws(s) < s.len() ==> !is_ws(s[s.len() - trail_ws(s) - 1]),
    decreases s.len(),
{
    if s.len() > 0 {
        lemma_ws_counts(s.drop_first());
        lemma_ws_counts(s.drop_last());
        if is_ws(s[0]) {
            assert forall|i: int| 0 <= i < lead_ws(s) implies is_ws(#[trigger] s[i]) by {
                if i > 0 {
                    assert(s[i] == s.drop_first()[i - 1]);
                }
            }
            if lead_ws(s) < s.len() {
                assert(s[lead_ws(s) as int] == s.drop_first()[lead_ws(s) - 1]);
            }
        }
        if is_ws(s.last()) {
            assert forall|i: int| s.len() - trail_ws(s) <= i < s.len() implies is_ws(#[trigger] s[i]) by {
                if i < s.len() - 1 {
                    assert(s[i] == s.drop_last()[i]);
                }
            }
            if trail_ws(s) < s.len() {
                assert(s[s.len() - trail_ws(s) - 1] == s.drop_last()[s.len() - trail_ws(s) - 1]);
            }
        }
    }
}

/// The number of whitespace characters in `v` from `from` on, before the first other one.
pub fn count_lead_ws(v: &Vec<char>, from: usize) -> (r: usize)
    requires
        from <= v.len(),
    ensures
        r == from + lead_ws(v@.skip(from as int)),
        r <= v.len(),
{
    let mut i = from;
    while i < v.len() && is_whitespace(v[i])
        invariant
            from <= i <= v.len(),
            lead_ws(v@.skip(from as int)) == (i - from) + lead_ws(v@.skip(i as int)),
        decreases v.len() - i,
    {
        assert(v@.skip(i as int).drop_first() =~= v@.skip(i + 1));
        i = i + 1;
    }
    proof {
        lemma_ws_counts(v@.skip(i as int));
    }
    i
}

/// The length of `v[..end]` without its trailing whitespace.
pub fn count_to_trail_ws(v: &Vec<char>, end: usize) -> (r: usize)
    requires
        end <= v.len(),
    ensures
        r == end - trail_ws(v@.take(end as int)),
{
    let mut i = end;
    while i > 0 && is_whitespace(v[i - 1])
        invariant
            i <= end <= v.len(),
            trail_ws(v@.take(end as int)) == (end - i) + trail_ws(v@.take(i as int)),
        decreases i,
    {
        assert(v@.take(i as int).drop_last() =~= v@.take(i - 1));
        i = i - 1;
    }
    proof {
        lemma_ws_counts(v@.take(i as int));
    }
    i
}

/// A copy of a vector of strings.
pub fn clone_strings(v: &Vec<String>) -> (r: Vec<String>)
    ensures
        strings_of(r@) == strings_of(v@),
{
    let mut r: Vec<String> = Vec::new();
    let mut i: usize = 0;
    while i < v.len()
        invariant
            i <= v.len(),
            strings_of(r@) =~= strings_of(v@.take(i as int)),
        decreases v.len() - i,
    {
        let c = v[i].clone();
        assert(c@ == v@[i as int]@);
        let ghost before = strings_of(r@);
        r.push(c);
        assert(strings_of(r@) =~= before.push(c@));
        assert(strings_of(v@.take(i + 1)) =~= strings_of(v@.take(i as int)).push(v@[i as int]@));
        i = i + 1;
    }
    assert(v@.take(v.len() as int) =~= v@);
    r
}

/// Equality of two character vectors.
pub fn chars_equal(v: &Vec<char>, w: &Vec<char>) -> (r: bool)
    ensures
        r == (v@ == w@),
{
    if v.len() != w.len() {
        return false;
    }
    let mut i: usize = 0;
    while i < v.len()
        invariant
            v.len() == w.len(),
            i <= v.len(),
            forall|j: int| 0 <= j < i ==> v@[j] == w@[j],
        decreases v.len() - i,
    {
        if v[i] != w[i] {
            return false;
        }
        i = i + 1;
    }
    assert(v@ =~= w@);
    true
}

/// Equality of two string slices.
pub fn str_eq(a: &str, b: &str) -> (r: bool)
    ensures
        r == (a@ == b@),
{
    chars_equal(&chars_of(a), &chars_of(b))
}

/// `a <= b` in the order of `str`: lexicographic by code point (the order
/// of their UTF-8 bytes), a proper prefix first.
pub open spec fn str_le(a: Seq<char>, b: Seq<char>) -> bool
    decreases a.len(),
{
    if a.len() == 0 {
        true
    } else if b.len() == 0 {
        false
    } else if a[0] != b[0] {
        a[0] < b[0]
    } else {
        str_le(a.drop_first(), b.drop_first())
    }
}

/// `str_le` is a total order.
pub proof fn lemma_str_le_total(a: Seq<char>, b: Seq<char>)
    ensures
        str_le(a, b) || str_le(b, a),
        str_le(a, b) && str_le(b, a) ==> a == b,
    decreases a.len(),
{
    if a.len() > 0 && b.len() > 0 && a[0] == b[0] {
        lemma_str_le_total(a.drop_first(), b.drop_first());
        if str_le(a, b) && str_le(b, a) {
            assert(a =~= seq![a[0]] + a.drop_first());
            assert(b =~= seq![b[0]] + b.drop_first());
        }
    }
    if a.len() == 0 && b.len() == 0 {
        assert(a =~= b);
    }
}

/// `str_le` is transitive.
pub proof fn lemma_str_le_trans(a: Seq<char>, b: Seq<char>, c: Seq<char>)
    requires
        str_le(a, b),
        str_le(b, c),
    ensures
        str_le(a, c),
    decreases a.len(),
{
    if a.len() > 0 && b.len() > 0 && c.len() > 0 && a[0] == b[0] && b[0] == c[0] {
        lemma_str_le_trans(a.drop_first(), b.drop_first(), c.drop_first());
    }
}

/// Executable `str_le`.
pub fn chars_le(a: &Vec<char>, b: &Vec<char>) -> (r: bool)
    ensures
        r == str_le(a@, b@),
{
    let mut i: usize = 0;
    assert(a@.skip(0) =~= a@);
    assert(b@.skip(0) =~= b@);
    while i < a.len() && i < b.len() && a[i] == b[i]
        invariant
            i <= a.len(),
            i <= b.len(),
            str_le(a@, b@) == str_le(a@.skip(i as int), b@.skip(i as int)),
        decreases a.len() - i,
    {
        assert(a@.skip(i as int).drop_first() =~= a@.skip(i + 1));
        assert(b@.skip(i as int).drop_first() =~= b@.skip(i + 1));
        i = i + 1;
    }
    if i == a.len() {
        true
    } else if i == b.len() {
        false
    } else {
        assert(a@.skip(i as int)[0] == a@[i as int]);
        assert(b@.skip(i as int)[0] == b@[i as int]);
        a[i] < b[i]
    }
}

} // verus!
