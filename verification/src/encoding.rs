//! UTF-16 lengths of UTF-8 text, counted on the bytes.
//!
//! In well-formed UTF-8 every scalar value starts with a leading byte, and
//! the leading byte alone tells how long the scalar is in either encoding:
//! a scalar of four bytes is a surrogate pair in UTF-16, any other is a
//! single code unit. Continuation bytes add nothing.

use vstd::prelude::*;
use vstd::utf8::*;

verus! {

/// The UTF-16 code units that one byte of UTF-8 text accounts for.
pub open spec fn utf16_units_of_byte(b: u8) -> nat {
    if is_continuation_byte(b) {
        0
    } else if is_leading_byte_width_4(b) {
        2
    } else {
        1
    }
}

/// The length in UTF-16 code units of the text that `bytes` encodes.
pub open spec fn utf16_len(bytes: Seq<u8>) -> nat
    decreases bytes.len(),
{
    if bytes.len() == 0 {
        0
    } else {
        utf16_len(bytes.drop_last()) + utf16_units_of_byte(bytes.last())
    }
}

/// The UTF-16 code units of one character: two outside the basic
/// multilingual plane, one within it.
pub open spec fn utf16_units_of_char(c: char) -> nat {
    if c as u32 >= 0x10000 {
        2
    } else {
        1
    }
}

/// The length of `chars` in UTF-16 code units.
pub open spec fn utf16_len_of_chars(chars: Seq<char>) -> nat
    decreases chars.len(),
{
    if chars.len() == 0 {
        0
    } else {
        utf16_units_of_char(chars[0]) + utf16_len_of_chars(chars.drop_first())
    }
}

/// The UTF-16 length of the first `k` bytes.
pub open spec fn utf16_prefix_len(bytes: Seq<u8>, k: int) -> nat
    recommends
        0 <= k <= bytes.len(),
{
    utf16_len(bytes.subrange(0, k))
}

/// The number of bytes of the scalar that begins with the leading byte `lead`.
pub open spec fn scalar_width(lead: u8) -> int {
    if is_leading_byte_width_1(lead) {
        1
    } else if is_leading_byte_width_2(lead) {
        2
    } else if is_leading_byte_width_3(lead) {
        3
    } else {
        4
    }
}

/// The number of bytes of the scalar that begins with `lead`.
pub fn width_of_lead(lead: u8) -> (w: usize)
    ensures
        w == scalar_width(lead),
        1 <= w <= 4,
{
    if lead <= 0x7f {
        1
    } else if 0xc0 <= lead && lead <= 0xdf {
        2
    } else if 0xe0 <= lead && lead <= 0xef {
        3
    } else {
        4
    }
}

/// One more byte adds its own units to the prefix length.
pub proof fn lemma_utf16_prefix_step(bytes: Seq<u8>, k: int)
    requires
        0 <= k < bytes.len(),
    ensures
        utf16_prefix_len(bytes, k + 1) == utf16_prefix_len(bytes, k) + utf16_units_of_byte(
            bytes[k],
        ),
{
    assert(bytes.subrange(0, k + 1).drop_last() =~= bytes.subrange(0, k));
}

/// A longer prefix is never shorter in UTF-16.
pub proof fn lemma_utf16_prefix_monotonic(bytes: Seq<u8>, a: int, b: int)
    requires
        0 <= a <= b <= bytes.len(),
    ensures
        utf16_prefix_len(bytes, a) <= utf16_prefix_len(bytes, b),
    decreases b - a,
{
    if a < b {
        lemma_utf16_prefix_step(bytes, b - 1);
        lemma_utf16_prefix_monotonic(bytes, a, b - 1);
    }
}

/// Going past a character boundary makes the prefix strictly longer in
/// UTF-16: the byte at the boundary is a leading byte.
pub proof fn lemma_utf16_prefix_strict(bytes: Seq<u8>, a: int, b: int)
    requires
        valid_utf8(bytes),
        is_char_boundary(bytes, a),
        0 <= a < b <= bytes.len(),
    ensures
        utf16_prefix_len(bytes, a) < utf16_prefix_len(bytes, b),
{
    is_char_boundary_iff_not_is_continuation_byte(bytes, a);
    lemma_utf16_prefix_step(bytes, a);
    lemma_utf16_prefix_monotonic(bytes, a + 1, b);
}

/// What one scalar contributes. At a character boundary before the end of
/// the text, the scalar that starts there lies within the text, ends on the
/// next boundary, and adds the units of its leading byte; nothing between
/// its first byte and its end is a boundary.
pub proof fn lemma_scalar_step(bytes: Seq<u8>, pos: int)
    requires
        valid_utf8(bytes),
        is_char_boundary(bytes, pos),
        0 <= pos < bytes.len(),
    ensures
        pos + scalar_width(bytes[pos]) <= bytes.len(),
        is_char_boundary(bytes, pos + scalar_width(bytes[pos])),
        forall|k: int|
            pos < k < pos + scalar_width(bytes[pos]) ==> is_continuation_byte(#[trigger] bytes[k]),
        utf16_units_of_byte(bytes[pos]) == (if scalar_width(bytes[pos]) == 4 {
            2nat
        } else {
            1nat
        }),
        utf16_prefix_len(bytes, pos + 1) == utf16_prefix_len(bytes, pos) + utf16_units_of_byte(
            bytes[pos],
        ),
        utf16_prefix_len(bytes, pos + scalar_width(bytes[pos])) == utf16_prefix_len(bytes, pos)
            + utf16_units_of_byte(bytes[pos]),
{
    let len = bytes.len() as int;
    let suffix = bytes.subrange(pos, len);
    valid_utf8_split(bytes, pos);
    assert(valid_first_scalar(suffix));
    assert(suffix[0] == bytes[pos]);
    let w = scalar_width(bytes[pos]);
    assert(w == length_of_first_scalar(suffix));
    assert(pos + w <= len);
    assert forall|k: int| pos < k < pos + w implies is_continuation_byte(#[trigger] bytes[k]) by {
        assert(bytes[k] == suffix[k - pos]);
    }
    let rest = pop_first_scalar(suffix);
    assert(rest =~= bytes.subrange(pos + w, len));
    if pos + w < len {
        assert(valid_utf8(rest));
        assert(rest.len() > 0);
        assert(valid_first_scalar(rest));
        assert(rest[0] == bytes[pos + w]);
        is_char_boundary_iff_not_is_continuation_byte(bytes, pos + w);
    } else {
        is_char_boundary_start_end_of_seq(bytes);
    }
    lemma_utf16_prefix_step(bytes, pos);
    if w >= 2 {
        lemma_utf16_prefix_step(bytes, pos + 1);
    }
    if w >= 3 {
        lemma_utf16_prefix_step(bytes, pos + 2);
    }
    if w >= 4 {
        lemma_utf16_prefix_step(bytes, pos + 3);
    }
}

/// The UTF-16 length of a text is that of a prefix plus that of the rest.
pub proof fn lemma_utf16_len_split(bytes: Seq<u8>, k: int)
    requires
        0 <= k <= bytes.len(),
    ensures
        utf16_len(bytes) == utf16_prefix_len(bytes, k) + utf16_len(
            bytes.subrange(k, bytes.len() as int),
        ),
    decreases bytes.len(),
{
    let len = bytes.len() as int;
    if k == len {
        assert(bytes.subrange(0, len) =~= bytes);
        assert(bytes.subrange(len, len) =~= Seq::<u8>::empty());
    } else {
        let front = bytes.drop_last();
        lemma_utf16_len_split(front, k);
        assert(front.subrange(0, k) =~= bytes.subrange(0, k));
        assert(bytes.subrange(k, len).drop_last() =~= front.subrange(k, len - 1));
        assert(bytes.subrange(k, len).last() == bytes.last());
    }
}

/// Counting on the bytes agrees with counting the characters: the UTF-16
/// length of encoded text is the sum of the units of its characters.
pub proof fn lemma_utf16_len_counts_chars(chars: Seq<char>)
    ensures
        utf16_len(encode_utf8(chars)) == utf16_len_of_chars(chars),
    decreases chars.len(),
{
    let bytes = encode_utf8(chars);
    if chars.len() > 0 {
        let rest = chars.drop_first();
        encode_utf8_first_scalar(chars);
        encode_utf8_valid_utf8(chars);
        is_char_boundary_start_end_of_seq(bytes);
        char_is_scalar(chars[0]);
        let w = encode_scalar(chars[0] as u32).len() as int;
        assert(w == scalar_width(bytes[0]));
        lemma_scalar_step(bytes, 0);
        assert(bytes.subrange(0, 0) =~= Seq::<u8>::empty());
        lemma_utf16_len_split(bytes, w);
        assert(bytes.subrange(w, bytes.len() as int) =~= encode_utf8(rest));
        lemma_utf16_len_counts_chars(rest);
    }
}

/// Up to a character boundary, counting on the bytes agrees with counting
/// the characters that the bytes before the boundary decode to.
pub proof fn lemma_utf16_prefix_counts_chars(bytes: Seq<u8>, k: int)
    requires
        valid_utf8(bytes),
        is_char_boundary(bytes, k),
    ensures
        utf16_prefix_len(bytes, k) == utf16_len_of_chars(decode_utf8(bytes.subrange(0, k))),
{
    let prefix = bytes.subrange(0, k);
    valid_utf8_split(bytes, k);
    decode_utf8_encode_utf8(prefix);
    lemma_utf16_len_counts_chars(decode_utf8(prefix));
}

} // verus!
