//! The order of texts by characters is the order of their UTF-8 bytes.

use vstd::prelude::*;
use vstd::utf8::{
    encode_scalar, encode_utf8, has_width_1_encoding, has_width_2_encoding, has_width_3_encoding,
    has_width_4_encoding, is_scalar,
};

use crate::util::strings::chars_lt;

verus! {

/// The lexicographic order of byte sequences, a proper prefix first.
pub open spec fn bytes_lt(a: Seq<u8>, b: Seq<u8>) -> bool
    decreases a.len(),
{
    if a.len() == 0 {
        b.len() > 0
    } else if b.len() == 0 {
        false
    } else if a[0] != b[0] {
        a[0] < b[0]
    } else {
        bytes_lt(a.drop_first(), b.drop_first())
    }
}

/// A common first part does not change the order.
proof fn lemma_bytes_lt_common(e: Seq<u8>, x: Seq<u8>, y: Seq<u8>)
    ensures
        bytes_lt(e + x, e + y) == bytes_lt(x, y),
    decreases e.len(),
{
    if e.len() > 0 {
        assert((e + x).drop_first() =~= e.drop_first() + x);
        assert((e + y).drop_first() =~= e.drop_first() + y);
        assert((e + x)[0] == (e + y)[0]);
        lemma_bytes_lt_common(e.drop_first(), x, y);
    } else {
        assert(e + x =~= x);
        assert(e + y =~= y);
    }
}

/// Two sequences that agree up to `i` and differ there are ordered by that byte.
proof fn lemma_bytes_lt_at(p: Seq<u8>, q: Seq<u8>, i: int)
    requires
        0 <= i < p.len(),
        i < q.len(),
        p[i] < q[i],
        forall|j: int| 0 <= j < i ==> p[j] == q[j],
    ensures
        bytes_lt(p, q),
        !bytes_lt(q, p),
    decreases i,
{
    if i > 0 {
        let p1 = p.drop_first();
        let q1 = q.drop_first();
        assert(p[0] == q[0]);
        assert forall|j: int| 0 <= j < i - 1 implies p1[j] == q1[j] by {
            assert(p1[j] == p[j + 1]);
            assert(q1[j] == q[j + 1]);
        }
        lemma_bytes_lt_at(p1, q1, i - 1);
    }
}

/// The encoding of a smaller scalar comes first, whatever follows either.
proof fn lemma_scalar_lt(c: u32, d: u32, x: Seq<u8>, y: Seq<u8>)
    requires
        is_scalar(c),
        is_scalar(d),
        c < d,
    ensures
        bytes_lt(encode_scalar(c) + x, encode_scalar(d) + y),
        !bytes_lt(encode_scalar(d) + y, encode_scalar(c) + x),
{
    let ec = encode_scalar(c);
    let ed = encode_scalar(d);
    let p = ec + x;
    let q = ed + y;
    assert(ec.len() >= 1 && ed.len() >= 1);
    assert(p[0] == ec[0] && q[0] == ed[0]);
    if has_width_1_encoding(c) {
        if has_width_1_encoding(d) {
            assert(((c & 0x7F) as u8) < ((d & 0x7F) as u8)) by (bit_vector)
                requires
                    c < d,
                    d <= 0x7F,
            ;
        } else {
            assert(((c & 0x7F) as u8) <= 0x7F) by (bit_vector);
            assert(0xC0 <= ed[0]) by {
                if has_width_2_encoding(d) {
                    assert(0xC0 <= (0xC0u8 | ((d >> 6) & 0x1F) as u8)) by (bit_vector);
                } else if has_width_3_encoding(d) {
                    assert(0xC0 <= (0xE0u8 | ((d >> 12) & 0x0F) as u8)) by (bit_vector);
                } else {
                    assert(0xC0 <= (0xF0u8 | ((d >> 18) & 0x7) as u8)) by (bit_vector);
                }
            }
        }
        lemma_bytes_lt_at(p, q, 0);
    } else if has_width_2_encoding(c) {
        let l = 0xC0u8 | ((c >> 6) & 0x1F) as u8;
        assert(l <= 0xDF) by (bit_vector)
            requires
                l == 0xC0u8 | ((c >> 6) & 0x1F) as u8,
        ;
        if has_width_2_encoding(d) {
            let l2 = 0xC0u8 | ((d >> 6) & 0x1F) as u8;
            let t = 0x80u8 | (c & 0x3F) as u8;
            let t2 = 0x80u8 | (d & 0x3F) as u8;
            assert(l < l2 || (l == l2 && t < t2)) by (bit_vector)
                requires
                    0x80 <= c < d <= 0x7FF,
                    l == 0xC0u8 | ((c >> 6) & 0x1F) as u8,
                    l2 == 0xC0u8 | ((d >> 6) & 0x1F) as u8,
                    t == 0x80u8 | (c & 0x3F) as u8,
                    t2 == 0x80u8 | (d & 0x3F) as u8,
            ;
            if l < l2 {
                lemma_bytes_lt_at(p, q, 0);
            } else {
                assert(p[1] == ec[1] && q[1] == ed[1]);
                lemma_bytes_lt_at(p, q, 1);
            }
        } else {
            assert(0xE0 <= ed[0]) by {
                if has_width_3_encoding(d) {
                    assert(0xE0 <= (0xE0u8 | ((d >> 12) & 0x0F) as u8)) by (bit_vector);
                } else {
                    assert(0xE0 <= (0xF0u8 | ((d >> 18) & 0x7) as u8)) by (bit_vector);
                }
            }
            lemma_bytes_lt_at(p, q, 0);
        }
    } else if has_width_3_encoding(c) {
        let l = 0xE0u8 | ((c >> 12) & 0x0F) as u8;
        assert(l <= 0xEF) by (bit_vector)
            requires
                l == 0xE0u8 | ((c >> 12) & 0x0F) as u8,
        ;
        if has_width_3_encoding(d) {
            let l2 = 0xE0u8 | ((d >> 12) & 0x0F) as u8;
            let m = 0x80u8 | ((c >> 6) & 0x3F) as u8;
            let m2 = 0x80u8 | ((d >> 6) & 0x3F) as u8;
            let t = 0x80u8 | (c & 0x3F) as u8;
            let t2 = 0x80u8 | (d & 0x3F) as u8;
            assert(l < l2 || (l == l2 && m < m2) || (l == l2 && m == m2 && t < t2)) by (bit_vector)
                requires
                    0x800 <= c < d <= 0xFFFF,
                    l == 0xE0u8 | ((c >> 12) & 0x0F) as u8,
                    l2 == 0xE0u8 | ((d >> 12) & 0x0F) as u8,
                    m == 0x80u8 | ((c >> 6) & 0x3F) as u8,
                    m2 == 0x80u8 | ((d >> 6) & 0x3F) as u8,
                    t == 0x80u8 | (c & 0x3F) as u8,
                    t2 == 0x80u8 | (d & 0x3F) as u8,
            ;
            assert(p[1] == ec[1] && q[1] == ed[1]);
            assert(p[2] == ec[2] && q[2] == ed[2]);
            if l < l2 {
                lemma_bytes_lt_at(p, q, 0);
            } else if m < m2 {
                lemma_bytes_lt_at(p, q, 1);
            } else {
                lemma_bytes_lt_at(p, q, 2);
            }
        } else {
            assert(0xF0 <= (0xF0u8 | ((d >> 18) & 0x7) as u8)) by (bit_vector);
            lemma_bytes_lt_at(p, q, 0);
        }
    } else {
        let l = 0xF0u8 | ((c >> 18) & 0x7) as u8;
        let l2 = 0xF0u8 | ((d >> 18) & 0x7) as u8;
        let h = 0x80u8 | ((c >> 12) & 0x3F) as u8;
        let h2 = 0x80u8 | ((d >> 12) & 0x3F) as u8;
        let m = 0x80u8 | ((c >> 6) & 0x3F) as u8;
        let m2 = 0x80u8 | ((d >> 6) & 0x3F) as u8;
        let t = 0x80u8 | (c & 0x3F) as u8;
        let t2 = 0x80u8 | (d & 0x3F) as u8;
        assert(l < l2 || (l == l2 && h < h2) || (l == l2 && h == h2 && m < m2) || (l == l2 && h == h2 && m
            == m2 && t < t2)) by (bit_vector)
            requires
                0x10000 <= c < d <= 0x10FFFF,
                l == 0xF0u8 | ((c >> 18) & 0x7) as u8,
                l2 == 0xF0u8 | ((d >> 18) & 0x7) as u8,
                h == 0x80u8 | ((c >> 12) & 0x3F) as u8,
                h2 == 0x80u8 | ((d >> 12) & 0x3F) as u8,
                m == 0x80u8 | ((c >> 6) & 0x3F) as u8,
                m2 == 0x80u8 | ((d >> 6) & 0x3F) as u8,
                t == 0x80u8 | (c & 0x3F) as u8,
                t2 == 0x80u8 | (d & 0x3F) as u8,
        ;
        assert(p[1] == ec[1] && q[1] == ed[1]);
        assert(p[2] == ec[2] && q[2] == ed[2]);
        assert(p[3] == ec[3] && q[3] == ed[3]);
        if l < l2 {
            lemma_bytes_lt_at(p, q, 0);
        } else if h < h2 {
            lemma_bytes_lt_at(p, q, 1);
        } else if m < m2 {
            lemma_bytes_lt_at(p, q, 2);
        } else {
            lemma_bytes_lt_at(p, q, 3);
        }
    }
}

/// Characters are ordered as their scalar values.
proof fn lemma_char_u32_order(x: char, y: char)
    ensures
        x < y <==> (x as u32) < (y as u32),
{
}

/// Comparing texts character by character, a proper prefix first, orders
/// them as comparing their UTF-8 bytes does.
pub proof fn law_text_order_is_byte_order(a: Seq<char>, b: Seq<char>)
    ensures
        chars_lt(a, b) == bytes_lt(encode_utf8(a), encode_utf8(b)),
    decreases a.len(),
{
    if a.len() > 0 {
        vstd::utf8::char_is_scalar(a[0]);
        assert(encode_utf8(a) == encode_scalar(a[0] as u32) + encode_utf8(a.drop_first()));
    }
    if b.len() > 0 {
        vstd::utf8::char_is_scalar(b[0]);
        assert(encode_utf8(b) == encode_scalar(b[0] as u32) + encode_utf8(b.drop_first()));
    }
    if a.len() == 0 {
        assert(encode_utf8(a) =~= Seq::<u8>::empty());
    } else if b.len() == 0 {
        assert(encode_utf8(b) =~= Seq::<u8>::empty());
    } else if a[0] != b[0] {
        let c = a[0] as u32;
        let d = b[0] as u32;
        lemma_char_u32_order(a[0], b[0]);
        lemma_char_u32_order(b[0], a[0]);
        if a[0] < b[0] {
            assert(c < d);
            lemma_scalar_lt(c, d, encode_utf8(a.drop_first()), encode_utf8(b.drop_first()));
        } else {
            assert(d < c);
            lemma_scalar_lt(d, c, encode_utf8(b.drop_first()), encode_utf8(a.drop_first()));
        }
    } else {
        lemma_bytes_lt_common(encode_scalar(a[0] as u32), encode_utf8(a.drop_first()), encode_utf8(b.drop_first()));
        law_text_order_is_byte_order(a.drop_first(), b.drop_first());
    }
}

} // verus!
