//! Cutting a text into lines.

use vstd::prelude::*;
use vstd::string::StringSliceAdditionalSpecFns;
use vstd::utf8::*;
use crate::encoding::{
    lemma_char_among_bytes,
    lemma_encode_injective,
    lemma_first_byte,
    lemma_last_byte,
    lemma_last_char,
    lemma_split_views,
};
use crate::text::{after_first_line, first_line, first_newline, lemma_first_newline_unique, strip_cr};

verus! {

/// The offset of the first byte equal to `wanted`, or the length of `bytes`
/// where there is none.
fn find_byte(bytes: &[u8], wanted: u8) -> (at: usize)
    ensures
        at <= bytes@.len(),
        forall|i: int| 0 <= i < at ==> bytes@[i] != wanted,
        at < bytes@.len() ==> bytes@[at as int] == wanted,
{
    let mut at: usize = 0;
    while at < bytes.len() && bytes[at] != wanted
        invariant
            at <= bytes@.len(),
            forall|i: int| 0 <= i < at ==> bytes@[i] != wanted,
        decreases bytes@.len() - at,
    {
        at += 1;
    }
    at
}

/// The offset after a first byte below 128 is a character boundary.
proof fn lemma_boundary_after_first_byte(bytes: Seq<u8>)
    requires
        valid_utf8(bytes),
        bytes.len() > 0,
        bytes[0] < 0x80,
    ensures
        is_char_boundary(bytes, 1),
{
    reveal_with_fuel(is_char_boundary, 2);
    assert(length_of_first_scalar(bytes) == 1);
    assert(valid_utf8(pop_first_scalar(bytes)));
}

/// Cuts `text` after its first line: the pair of that line, without its line
/// ending, and of what follows the line ending. A text without a line feed is
/// its own first line, and nothing follows it.
pub fn split_first_line<'a>(text: &'a str) -> (parts: (&'a str, &'a str))
    ensures
        parts.0@ == first_line(text@),
        parts.1@ == after_first_line(text@),
{
    let bytes = text.as_bytes();
    let at = find_byte(bytes, 0x0Au8);
    proof {
        encode_utf8_valid_utf8(text@);
        if at < bytes@.len() {
            is_char_boundary_iff_not_is_continuation_byte(bytes@, at as int);
        } else {
            is_char_boundary_start_end_of_seq(bytes@);
        }
    }
    let (head, tail) = text.split_at(at);
    proof {
        lemma_split_views(text@, head@, tail@, at as int);
        assert forall|i: int| 0 <= i < head@.len() implies head@[i] != '\n' by {
            if head@[i] == '\n' {
                lemma_char_among_bytes(head@, i);
            }
        }
        if at < bytes@.len() {
            assert(encode_utf8(tail@)[0] == bytes@[at as int]);
            lemma_first_byte(tail@);
            char_u32_cast(tail@[0], 0x0Au32);
            assert(tail@[0] == '\n');
        } else {
            assert(encode_utf8(tail@).len() == 0);
            assert(tail@.len() == 0);
        }
        lemma_first_newline_unique(text@, head@.len() as int);
        assert(text@.take(head@.len() as int) =~= head@);
    }
    if at == bytes.len() {
        proof {
            assert(text@ =~= head@);
        }
        return (head, tail);
    }
    proof {
        encode_utf8_valid_utf8(tail@);
        lemma_boundary_after_first_byte(tail.spec_bytes());
    }
    let (_, rest) = tail.split_at(1);
    proof {
        lemma_encode_injective(rest@, tail@.drop_first());
        assert(text@.skip(head@.len() as int + 1) =~= tail@.drop_first());
    }
    if at > 0 && bytes[at - 1] == 0x0Du8 {
        proof {
            encode_utf8_valid_utf8(head@);
            assert(encode_utf8(head@).last() == bytes@[at - 1]);
            is_char_boundary_iff_not_is_continuation_byte(head.spec_bytes(), at - 1);
            lemma_last_byte(head@);
            char_u32_cast(head@.last(), 0x0Du32);
            assert(head@.last() == '\r');
        }
        let (line, _) = head.split_at(at - 1);
        proof {
            assert(encode_utf8(head@).drop_last() =~= encode_utf8(head@).subrange(0, at - 1));
            lemma_encode_injective(line@, head@.drop_last());
        }
        (line, rest)
    } else {
        proof {
            if head@.len() > 0 && head@.last() == '\r' {
                lemma_last_char(head@);
            }
            assert(strip_cr(head@) == head@);
        }
        (head, rest)
    }
}

} // verus!
