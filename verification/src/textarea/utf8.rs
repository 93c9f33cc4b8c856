//! UTF-8 facts for a text buffer kept as bytes.

use vstd::prelude::*;
use vstd::utf8::*;

verus! {

broadcast use {vstd::utf8::encode_utf8_valid_utf8, vstd::utf8::encode_utf8_decode_utf8, vstd::utf8::valid_utf8_concat};

/// Whether `i` is a character boundary of `t`: the end, or a byte that is not a UTF-8
/// continuation byte.
pub open spec fn at_boundary(t: Seq<u8>, i: int) -> bool {
    0 <= i <= t.len() && (i == t.len() || !is_continuation_byte(t[i]))
}

/// In valid UTF-8, [`at_boundary`] is the standard notion of a character boundary.
pub proof fn lemma_at_boundary_is_char_boundary(t: Seq<u8>, i: int)
    requires
        valid_utf8(t),
        at_boundary(t, i),
    ensures
        is_char_boundary(t, i),
{
    is_char_boundary_start_end_of_seq(t);
    if i < t.len() {
        is_char_boundary_iff_not_is_continuation_byte(t, i);
    }
}

/// Both sides of a split at a character boundary are valid UTF-8.
pub proof fn lemma_split_valid(t: Seq<u8>, i: int)
    requires
        valid_utf8(t),
        at_boundary(t, i),
    ensures
        valid_utf8(t.subrange(0, i)),
        valid_utf8(t.subrange(i, t.len() as int)),
{
    lemma_at_boundary_is_char_boundary(t, i);
    valid_utf8_split(t, i);
}

/// A piece between two character boundaries is valid UTF-8.
pub proof fn lemma_piece_valid(t: Seq<u8>, i: int, j: int)
    requires
        valid_utf8(t),
        at_boundary(t, i),
        at_boundary(t, j),
        i <= j,
    ensures
        valid_utf8(t.subrange(i, j)),
{
    lemma_split_valid(t, j);
    let head = t.subrange(0, j);
    assert(at_boundary(head, i)) by {
        if i < j {
            assert(head[i] == t[i]);
        }
    }
    lemma_split_valid(head, i);
    assert(head.subrange(i, head.len() as int) =~= t.subrange(i, j));
}

/// Replacing the piece between two character boundaries by valid UTF-8 keeps the text valid.
pub proof fn lemma_splice_valid(t: Seq<u8>, s: int, e: int, ins: Seq<u8>)
    requires
        valid_utf8(t),
        valid_utf8(ins),
        at_boundary(t, s),
        at_boundary(t, e),
        s <= e,
    ensures
        valid_utf8(t.subrange(0, s) + ins + t.subrange(e, t.len() as int)),
{
    lemma_split_valid(t, s);
    lemma_split_valid(t, e);
    valid_utf8_concat(t.subrange(0, s), ins);
    valid_utf8_concat(t.subrange(0, s) + ins, t.subrange(e, t.len() as int));
}

/// Valid UTF-8 never starts with a continuation byte.
pub proof fn lemma_first_byte_leads(t: Seq<u8>)
    requires
        valid_utf8(t),
        t.len() > 0,
    ensures
        !is_continuation_byte(t[0]),
{
}

/// Building a `String` from valid UTF-8 bytes (std's `String::from_utf8`, which succeeds on
/// valid input).
#[verifier::external_body]
pub(crate) fn utf8_to_string(bytes: &[u8]) -> (s: String)
    requires
        valid_utf8(bytes@),
    ensures
        s@ == decode_utf8(bytes@),
{
    String::from_utf8(bytes.to_vec()).unwrap()
}

/// The UTF-8 bytes of `s`.
pub fn str_bytes(s: &str) -> (b: Vec<u8>)
    ensures
        b@ == encode_utf8(s@),
        valid_utf8(b@),
        decode_utf8(b@) == s@,
{
    vstd::slice::slice_to_vec(s.as_bytes())
}

} // verus!
