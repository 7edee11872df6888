//! Searching byte sequences for a pattern.

use vstd::prelude::*;

verus! {

/// Index of the first occurrence of `p` in `s` at or after `i`, or -1.
pub open spec fn find_bytes(s: Seq<u8>, p: Seq<u8>, i: int) -> int
    decreases s.len() + 1 - i,
{
    if i < 0 || i + p.len() > s.len() {
        -1
    } else if s.subrange(i, i + p.len()) == p {
        i
    } else {
        find_bytes(s, p, i + 1)
    }
}

pub proof fn lemma_find_bytes(s: Seq<u8>, p: Seq<u8>, i: int)
    requires
        0 <= i,
    ensures
        find_bytes(s, p, i) == -1 || (i <= find_bytes(s, p, i) && find_bytes(s, p, i) + p.len()
            <= s.len()),
    decreases s.len() + 1 - i,
{
    if i + p.len() <= s.len() && s.subrange(i, i + p.len()) != p {
        lemma_find_bytes(s, p, i + 1);
    }
}

/// A match found in `s` is found at the same place once more bytes follow `s`.
pub proof fn lemma_find_bytes_extend(s: Seq<u8>, x: Seq<u8>, p: Seq<u8>, i: int)
    requires
        0 <= i,
        find_bytes(s, p, i) >= 0,
    ensures
        find_bytes(s + x, p, i) == find_bytes(s, p, i),
    decreases s.len() + 1 - i,
{
    let t = s + x;
    if i + p.len() <= s.len() {
        assert(t.subrange(i, i + p.len()) =~= s.subrange(i, i + p.len()));
        if s.subrange(i, i + p.len()) != p {
            lemma_find_bytes_extend(s, x, p, i + 1);
        }
    }
}

/// The index of the first occurrence of `p` in `s`, if any.
pub fn find_pattern(s: &[u8], p: &[u8]) -> (r: Option<usize>)
    ensures
        match r {
            Some(i) => find_bytes(s@, p@, 0) == i as int,
            None => find_bytes(s@, p@, 0) == -1,
        },
{
    if p.len() > s.len() {
        return None;
    }
    let mut i: usize = 0;
    while i <= s.len() - p.len()
        invariant
            p.len() <= s.len(),
            i <= s.len() - p.len() + 1,
            find_bytes(s@, p@, 0) == find_bytes(s@, p@, i as int),
        decreases s.len() - p.len() + 1 - i,
    {
        let mut j: usize = 0;
        let mut ok = true;
        while j < p.len()
            invariant
                p.len() <= s.len(),
                i <= s.len() - p.len(),
                j <= p.len(),
                ok == (forall|m: int| 0 <= m < j ==> s@[i + m] == p@[m]),
            decreases p.len() - j,
        {
            if s[i + j] != p[j] {
                ok = false;
            }
            j = j + 1;
        }
        if ok {
            assert(s@.subrange(i as int, i + p.len()) =~= p@);
            return Some(i);
        }
        assert(s@.subrange(i as int, i + p.len()) != p@) by {
            let k = choose|m: int| 0 <= m < p.len() && s@[i + m] != p@[m];
            assert(s@.subrange(i as int, i + p.len())[k] != p@[k]);
        }
        i = i + 1;
    }
    None
}

} // verus!
