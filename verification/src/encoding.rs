//! Facts that tie the characters of a string to the bytes that store it.
//!
//! The functions of this library walk the bytes of a `&str` and cut it at byte
//! offsets, while their contracts speak of characters. The lemmas here carry
//! a statement from one side to the other.

use vstd::prelude::*;
use vstd::utf8::*;
use crate::text::{has_substring, occurs_at};


verus! {

/// The byte ranges of the pieces that an encoded scalar is made of.
proof fn lemma_scalar_byte_ranges(s: u32)
    by (bit_vector)
    ensures
        s <= 0x7F ==> (s & 0x7F) as u8 == s as u8 && (s & 0x7F) as u8 <= 0x7Fu8 && ((s
            & 0x7F) as u8) as u32 == s,
        0xC0u8 <= (0xC0 | ((s >> 6) & 0x1F) as u8) <= 0xDFu8,
        0xE0u8 <= (0xE0 | ((s >> 12) & 0x0F) as u8) <= 0xEFu8,
        0xF0u8 <= (0xF0 | ((s >> 18) & 0x7) as u8) <= 0xF7u8,
        0x80u8 <= (0x80 | (s & 0x3F) as u8) <= 0xBFu8,
        0x80u8 <= (0x80 | ((s >> 6) & 0x3F) as u8) <= 0xBFu8,
        0x80u8 <= (0x80 | ((s >> 12) & 0x3F) as u8) <= 0xBFu8,
{
}

/// A character below 128 is stored as the one byte of that value; any other
/// character is stored as two to four bytes, each of them 128 or more, the
/// first of which is no continuation byte.
pub proof fn lemma_encode_char(c: char)
    ensures
        1 <= encode_scalar(c as u32).len() <= 4,
        !is_continuation_byte(encode_scalar(c as u32)[0]),
        (c as u32) < 0x80 ==> encode_scalar(c as u32) == seq![c as u8] && (c as u8) as u32
            == c as u32,
        (c as u32) >= 0x80 ==> forall|i: int|
            0 <= i < encode_scalar(c as u32).len() ==> #[trigger] encode_scalar(c as u32)[i]
                >= 0x80,
{
    let s = c as u32;
    lemma_scalar_byte_ranges(s);
    char_is_scalar(c);
    if s < 0x80 {
        assert(encode_scalar(s) =~= seq![c as u8]);
    }
}

/// Encoding goes through concatenation.
pub proof fn lemma_encode_concat(a: Seq<char>, b: Seq<char>)
    ensures
        encode_utf8(a + b) == encode_utf8(a) + encode_utf8(b),
    decreases a.len(),
{
    if a.len() == 0 {
        assert(a + b =~= b);
        assert(encode_utf8(a) + encode_utf8(b) =~= encode_utf8(b));
    } else {
        lemma_encode_concat(a.drop_first(), b);
        assert((a + b).drop_first() =~= a.drop_first() + b);
        assert(encode_utf8(a + b) =~= encode_utf8(a) + encode_utf8(b));
    }
}

/// Two character sequences with the same bytes are the same sequence.
pub proof fn lemma_encode_injective(a: Seq<char>, b: Seq<char>)
    requires
        encode_utf8(a) == encode_utf8(b),
    ensures
        a == b,
{
    encode_utf8_decode_utf8(a);
    encode_utf8_decode_utf8(b);
}

/// Where the pieces `head` and `tail` hold the bytes of `whole` before and
/// after some offset, `whole` is `head` followed by `tail`.
pub proof fn lemma_split_views(whole: Seq<char>, head: Seq<char>, tail: Seq<char>, at: int)
    requires
        0 <= at <= encode_utf8(whole).len(),
        encode_utf8(head) == encode_utf8(whole).subrange(0, at),
        encode_utf8(tail) == encode_utf8(whole).subrange(at, encode_utf8(whole).len() as int),
    ensures
        whole == head + tail,
{
    lemma_encode_concat(head, tail);
    assert(encode_utf8(head) + encode_utf8(tail) =~= encode_utf8(whole));
    lemma_encode_injective(head + tail, whole);
}

/// Where the first byte of a string is below 128, it is the string's first
/// character, and the other bytes store the other characters.
pub proof fn lemma_first_byte(s: Seq<char>)
    requires
        encode_utf8(s).len() > 0,
        encode_utf8(s)[0] < 0x80,
    ensures
        s.len() > 0,
        (s[0] as u32) < 0x80,
        s[0] as u8 == encode_utf8(s)[0],
        s[0] as u32 == encode_utf8(s)[0] as u32,
        encode_utf8(s.drop_first()) == encode_utf8(s).subrange(1, encode_utf8(s).len() as int),
{
    lemma_encode_char(s[0]);
    let e = encode_scalar(s[0] as u32);
    assert(encode_utf8(s)[0] == e[0]);
    assert(encode_utf8(s.drop_first()) =~= encode_utf8(s).subrange(
        1,
        encode_utf8(s).len() as int,
    ));
}

/// Where the last byte of a string is below 128, it is the string's last
/// character, and the bytes before it store the characters before it.
pub proof fn lemma_last_byte(s: Seq<char>)
    requires
        encode_utf8(s).len() > 0,
        encode_utf8(s).last() < 0x80,
    ensures
        s.len() > 0,
        (s.last() as u32) < 0x80,
        s.last() as u8 == encode_utf8(s).last(),
        s.last() as u32 == encode_utf8(s).last() as u32,
        encode_utf8(s.drop_last()) == encode_utf8(s).drop_last(),
{
    assert(s.len() > 0);
    let init = s.drop_last();
    let c = s.last();
    assert(s =~= init + seq![c]);
    lemma_encode_concat(init, seq![c]);
    lemma_encode_char(c);
    let e = encode_scalar(c as u32);
    let one = seq![c];
    assert(one.drop_first() =~= Seq::<char>::empty());
    assert(encode_utf8(Seq::<char>::empty()) =~= Seq::<u8>::empty());
    assert(one[0] == c);
    assert(encode_utf8(one) =~= e);
    assert(encode_utf8(s).last() == e.last());
    assert(encode_utf8(init) =~= encode_utf8(s).drop_last());
}

/// Where the last character of a string is below 128, it is the string's
/// last byte.
pub proof fn lemma_last_char(s: Seq<char>)
    requires
        s.len() > 0,
        (s.last() as u32) < 0x80,
    ensures
        encode_utf8(s).len() > 0,
        encode_utf8(s).last() == s.last() as u8,
{
    let init = s.drop_last();
    let c = s.last();
    let one = seq![c];
    assert(s =~= init + one);
    lemma_encode_concat(init, one);
    lemma_encode_char(c);
    assert(one.drop_first() =~= Seq::<char>::empty());
    assert(encode_utf8(Seq::<char>::empty()) =~= Seq::<u8>::empty());
    assert(one[0] == c);
    assert(encode_utf8(one) =~= seq![c as u8]);
}

/// A character below 128 that stands in a string stands among its bytes.
pub proof fn lemma_char_among_bytes(s: Seq<char>, i: int)
    requires
        0 <= i < s.len(),
        (s[i] as u32) < 0x80,
    ensures
        exists|p: int| 0 <= p < encode_utf8(s).len() && encode_utf8(s)[p] == s[i] as u8,
{
    let pre = s.take(i);
    let post = s.skip(i);
    assert(s =~= pre + post);
    lemma_encode_concat(pre, post);
    lemma_encode_char(s[i]);
    assert(post[0] == s[i]);
    let p = encode_utf8(pre).len() as int;
    assert(encode_utf8(post)[0] == s[i] as u8);
    assert(encode_utf8(s)[p] == encode_utf8(post)[0]);
}

/// What follows a well-formed prefix of well-formed bytes is well formed.
proof fn lemma_valid_after_valid(a: Seq<u8>, y: Seq<u8>)
    requires
        valid_utf8(a),
        valid_utf8(a + y),
    ensures
        valid_utf8(y),
    decreases a.len(),
{
    if a.len() == 0 {
        assert(a + y =~= y);
    } else {
        let w = a + y;
        assert(w[0] == a[0]);
        assert(length_of_first_scalar(a) <= a.len());
        assert(length_of_first_scalar(w) == length_of_first_scalar(a));
        assert(pop_first_scalar(w) =~= pop_first_scalar(a) + y);
        lemma_valid_after_valid(pop_first_scalar(a), y);
    }
}

/// Where the bytes of `needle` stand among the bytes of `hay`, the characters
/// of `needle` stand among the characters of `hay`.
proof fn lemma_occurrence_from_bytes(hay: Seq<char>, needle: Seq<char>, p: int)
    requires
        occurs_at(encode_utf8(needle), encode_utf8(hay), p),
    ensures
        has_substring(hay, needle),
{
    if needle.len() == 0 {
        assert(hay.subrange(0, 0) =~= needle);
        assert(occurs_at(needle, hay, 0));
    } else {
        let bytes = encode_utf8(hay);
        let mid = encode_utf8(needle);
        lemma_encode_char(needle[0]);
        encode_utf8_valid_utf8(hay);
        encode_utf8_valid_utf8(needle);
        assert(mid[0] == encode_scalar(needle[0] as u32)[0]);
        assert(bytes.subrange(p, p + mid.len())[0] == bytes[p]);
        is_char_boundary_iff_not_is_continuation_byte(bytes, p);
        valid_utf8_split(bytes, p);
        let x = bytes.subrange(0, p);
        let rest = bytes.subrange(p, bytes.len() as int);
        let y = bytes.subrange(p + mid.len(), bytes.len() as int);
        assert(rest =~= mid + y);
        lemma_valid_after_valid(mid, y);
        decode_utf8_encode_utf8(x);
        decode_utf8_encode_utf8(y);
        let dx = decode_utf8(x);
        let dy = decode_utf8(y);
        lemma_encode_concat(dx, needle);
        lemma_encode_concat(dx + needle, dy);
        assert(encode_utf8(dx + needle + dy) =~= bytes);
        lemma_encode_injective(dx + needle + dy, hay);
        let at = dx.len() as int;
        assert(hay.subrange(at, at + needle.len()) =~= needle);
        assert(occurs_at(needle, hay, at));
    }
}

/// Where the characters of `needle` stand among the characters of `hay`, the
/// bytes of `needle` stand among the bytes of `hay`.
proof fn lemma_occurrence_to_bytes(hay: Seq<char>, needle: Seq<char>, at: int)
    requires
        occurs_at(needle, hay, at),
    ensures
        has_substring(encode_utf8(hay), encode_utf8(needle)),
{
    let pre = hay.take(at);
    let post = hay.skip(at + needle.len());
    assert(hay =~= pre + needle + post);
    lemma_encode_concat(pre, needle);
    lemma_encode_concat(pre + needle, post);
    let p = encode_utf8(pre).len() as int;
    assert(encode_utf8(hay).subrange(p, p + encode_utf8(needle).len()) =~= encode_utf8(needle));
    assert(occurs_at(encode_utf8(needle), encode_utf8(hay), p));
}

/// One string holds another character for character exactly where its bytes
/// hold the other's bytes.
pub proof fn lemma_substring_of_bytes(hay: Seq<char>, needle: Seq<char>)
    ensures
        has_substring(encode_utf8(hay), encode_utf8(needle)) <==> has_substring(hay, needle),
{
    if has_substring(hay, needle) {
        let at = choose|at: int| occurs_at(needle, hay, at);
        lemma_occurrence_to_bytes(hay, needle, at);
    }
    if has_substring(encode_utf8(hay), encode_utf8(needle)) {
        let p = choose|p: int| occurs_at(encode_utf8(needle), encode_utf8(hay), p);
        lemma_occurrence_from_bytes(hay, needle, p);
    }
}

} // verus!
