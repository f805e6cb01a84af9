//! Replacing line feeds by spaces in UTF-8 text keeps it valid UTF-8 with the same
//! character boundaries, so offsets found in the copy hold for the text it was made from.

use vstd::prelude::*;
use vstd::utf8::*;

verus! {

/// `bytes` with every line feed (0x0A) replaced by a space (0x20).
pub open spec fn flatten_newlines(bytes: Seq<u8>) -> Seq<u8> {
    Seq::new(bytes.len(), |i: int| if bytes[i] == 10u8 { 32u8 } else { bytes[i] })
}

/// Flattening newlines keeps the first scalar's length and decodes, and the rest is
/// the flattening of the rest.
proof fn lemma_flatten_first_scalar(bytes: Seq<u8>)
    requires
        bytes.len() > 0,
        valid_first_scalar(bytes),
    ensures
        valid_first_scalar(flatten_newlines(bytes)),
        length_of_first_scalar(flatten_newlines(bytes)) == length_of_first_scalar(bytes),
        pop_first_scalar(flatten_newlines(bytes)) == flatten_newlines(pop_first_scalar(bytes)),
{
    let f = flatten_newlines(bytes);
    let n = length_of_first_scalar(bytes);
    if bytes[0] == 10u8 {
        assert(f[0] == 32u8);
        assert(leading_bits_width_1(32u8) == 32u32) by (bit_vector);
        assert(decode_first_codepoint(f) == 32u32);
    } else {
        assert(f[0] == bytes[0]);
        assert forall|j: int| 1 <= j < n implies f[j] == bytes[j] by {
            assert(is_continuation_byte(bytes[j]));
        }
        if n >= 2 {
            assert(f[1] == bytes[1]);
        }
        if n >= 3 {
            assert(f[2] == bytes[2]);
        }
        if n >= 4 {
            assert(f[3] == bytes[3]);
        }
        assert(decode_first_codepoint(f) == decode_first_codepoint(bytes));
    }
    assert(pop_first_scalar(f) =~= flatten_newlines(pop_first_scalar(bytes)));
}

/// Flattening newlines preserves validity.
pub proof fn lemma_flatten_valid(bytes: Seq<u8>)
    requires
        valid_utf8(bytes),
    ensures
        valid_utf8(flatten_newlines(bytes)),
    decreases bytes.len(),
{
    if bytes.len() > 0 {
        lemma_flatten_first_scalar(bytes);
        let rest = pop_first_scalar(bytes);
        assert(rest.len() < bytes.len());
        lemma_flatten_valid(rest);
    } else {
        assert(flatten_newlines(bytes) =~= Seq::<u8>::empty());
    }
}

/// Flattening newlines preserves validity and every character boundary.
pub proof fn lemma_flatten_boundaries(bytes: Seq<u8>, i: int)
    requires
        valid_utf8(bytes),
    ensures
        valid_utf8(flatten_newlines(bytes)),
        is_char_boundary(flatten_newlines(bytes), i) == is_char_boundary(bytes, i),
{
    broadcast use is_char_boundary_start_end_of_seq, is_char_boundary_iff_not_is_continuation_byte;

    lemma_flatten_valid(bytes);
    let f = flatten_newlines(bytes);
    if 0 <= i < bytes.len() {
        assert(is_char_boundary(f, i) <==> !is_continuation_byte(f[i]));
        assert(is_char_boundary(bytes, i) <==> !is_continuation_byte(bytes[i]));
    } else if i == bytes.len() {
        assert(is_char_boundary(f, f.len() as int));
        assert(is_char_boundary(bytes, bytes.len() as int));
    } else {
        reveal_with_fuel(is_char_boundary, 1);
    }
}

} // verus!
