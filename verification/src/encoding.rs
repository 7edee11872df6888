//! Facts about the UTF-8 encoding of text.

use vstd::prelude::*;
use vstd::utf8::{
    encode_scalar, encode_utf8, last_continuation_byte, leading_byte_width_1, leading_byte_width_2,
    leading_byte_width_3, leading_byte_width_4, second_last_continuation_byte,
    third_last_continuation_byte,
};

verus! {

/// The UTF-8 bytes of a scalar: the scalar itself below 0x80, else bytes
/// with the high bit set.
pub proof fn lemma_scalar_bytes(v: u32)
    ensures
        v <= 0x7F ==> encode_scalar(v) == seq![v as u8],
        v > 0x7F ==> forall|i: int| 0 <= i < encode_scalar(v).len() ==> #[trigger] encode_scalar(v)[i] >= 0x80,
{
    if v <= 0x7F {
        assert(leading_byte_width_1(v) == v as u8) by (bit_vector)
            requires
                v <= 0x7F,
        ;
    } else {
        assert(leading_byte_width_2(v) >= 0x80) by (bit_vector);
        assert(leading_byte_width_3(v) >= 0x80) by (bit_vector);
        assert(leading_byte_width_4(v) >= 0x80) by (bit_vector);
        assert(last_continuation_byte(v) >= 0x80) by (bit_vector);
        assert(second_last_continuation_byte(v) >= 0x80) by (bit_vector);
        assert(third_last_continuation_byte(v) >= 0x80) by (bit_vector);
    }
}

/// Encoding a concatenation concatenates the encodings.
pub proof fn lemma_encode_concat(a: Seq<char>, b: Seq<char>)
    ensures
        encode_utf8(a + b) == encode_utf8(a) + encode_utf8(b),
    decreases a.len(),
{
    if a.len() > 0 {
        lemma_encode_concat(a.drop_first(), b);
        assert((a + b).drop_first() =~= a.drop_first() + b);
        assert((a + b)[0] == a[0]);
        assert(encode_scalar(a[0] as u32) + (encode_utf8(a.drop_first()) + encode_utf8(b)) =~= encode_utf8(a) + encode_utf8(b));
    } else {
        assert(a + b =~= b);
    }
}

/// A text without an ASCII character encodes to bytes without that
/// character's byte.
pub proof fn lemma_encode_without(x: Seq<char>, c: char)
    requires
        !x.contains(c),
        (c as u32) <= 0x7F,
    ensures
        !encode_utf8(x).contains(c as u32 as u8),
    decreases x.len(),
{
    if x.len() > 0 {
        let r = x.drop_first();
        assert(!r.contains(c)) by {
            if r.contains(c) {
                let i = choose|i: int| 0 <= i < r.len() && r[i] == c;
                assert(x[i + 1] == c);
            }
        }
        lemma_encode_without(r, c);
        let v = x[0] as u32;
        lemma_scalar_bytes(v);
        assert(x[0] != c) by {
            assert(x.contains(x[0]));
        }
        assert(v != c as u32) by {
            vstd::utf8::char_u32_cast(x[0], v);
            vstd::utf8::char_u32_cast(c, c as u32);
        }
        let e = encode_scalar(v);
        let all = e + encode_utf8(r);
        assert(all == encode_utf8(x));
        if all.contains(c as u32 as u8) {
            let i = choose|i: int| 0 <= i < all.len() && all[i] == c as u32 as u8;
            if i < e.len() {
                assert(all[i] == e[i]);
            } else {
                assert(all[i] == encode_utf8(r)[i - e.len()]);
                assert(encode_utf8(r).contains(c as u32 as u8));
            }
        }
    }
}

/// ASCII text encodes to one byte per character, the character's value.
pub proof fn lemma_encode_ascii(s: Seq<char>)
    requires
        forall|i: int| 0 <= i < s.len() ==> (#[trigger] s[i] as u32) <= 0x7F,
    ensures
        encode_utf8(s).len() == s.len(),
        forall|i: int| 0 <= i < s.len() ==> #[trigger] encode_utf8(s)[i] == s[i] as u32 as u8,
    decreases s.len(),
{
    if s.len() > 0 {
        let r = s.drop_first();
        assert forall|i: int| 0 <= i < r.len() implies (#[trigger] r[i] as u32) <= 0x7F by {
            assert(r[i] == s[i + 1]);
        }
        lemma_encode_ascii(r);
        assert(s[0] as u32 <= 0x7F);
        lemma_scalar_bytes(s[0] as u32);
        assert forall|i: int| 0 <= i < s.len() implies #[trigger] encode_utf8(s)[i] == s[i] as u32 as u8 by {
            if i > 0 {
                assert(encode_utf8(s)[i] == encode_utf8(r)[i - 1]);
                assert(r[i - 1] == s[i]);
            }
        }
    }
}

/// A non-empty text has non-empty bytes.
pub proof fn lemma_encode_len(x: Seq<char>)
    requires
        x.len() > 0,
    ensures
        encode_utf8(x).len() > 0,
{
    let v = x[0] as u32;
    lemma_scalar_bytes(v);
    vstd::utf8::char_is_scalar(x[0]);
    assert(encode_utf8(x) == encode_scalar(v) + encode_utf8(x.drop_first()));
}

} // verus!
