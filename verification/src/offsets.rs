//! From UTF-16 offsets to UTF-8 offsets.
//!
//! A shaper counts in UTF-16 code units; callers index the text by UTF-8
//! bytes. The mapping is made in one forward pass over the text, shared by
//! all the offsets asked for.

use vstd::prelude::*;
use vstd::utf8::*;
use vstd::string::*;
use crate::encoding::{
    lemma_scalar_step, lemma_utf16_prefix_monotonic, lemma_utf16_prefix_strict, scalar_width,
    utf16_prefix_len, width_of_lead,
};
use crate::error::Error;

verus! {

/// `off8` is the byte offset of the character boundary that lies `off16`
/// UTF-16 code units into the text.
pub open spec fn is_utf8_offset_of(bytes: Seq<u8>, off16: nat, off8: int) -> bool {
    &&& 0 <= off8 <= bytes.len()
    &&& is_char_boundary(bytes, off8)
    &&& utf16_prefix_len(bytes, off8) == off16
}

/// Some character boundary lies `off16` UTF-16 code units into the text.
pub open spec fn has_utf8_offset(bytes: Seq<u8>, off16: nat) -> bool {
    exists|k: int| is_utf8_offset_of(bytes, off16, k)
}

/// The offsets ascend strictly and each falls on a character boundary.
pub open spec fn mappable(bytes: Seq<u8>, targets: Seq<usize>) -> bool {
    &&& forall|i: int, j: int| 0 <= i < j < targets.len() ==> targets[i] < targets[j]
    &&& forall|i: int|
        0 <= i < targets.len() ==> has_utf8_offset(bytes, #[trigger] targets[i] as nat)
}

/// A UTF-16 offset has at most one UTF-8 offset, and a larger UTF-16 offset
/// has a larger one.
pub proof fn lemma_utf8_offset_ordered(bytes: Seq<u8>, a16: nat, a8: int, b16: nat, b8: int)
    requires
        valid_utf8(bytes),
        is_utf8_offset_of(bytes, a16, a8),
        is_utf8_offset_of(bytes, b16, b8),
    ensures
        a16 == b16 <==> a8 == b8,
        a16 < b16 <==> a8 < b8,
{
    if a8 < b8 {
        lemma_utf16_prefix_strict(bytes, a8, b8);
    }
    if b8 < a8 {
        lemma_utf16_prefix_strict(bytes, b8, a8);
    }
}

/// A character boundary, by its offset in either encoding.
#[derive(Clone, Copy, Debug, PartialEq, Eq, Structural)]
pub struct Boundary {
    /// Offset in UTF-8 bytes.
    pub utf8: usize,
    /// Offset in UTF-16 code units.
    pub utf16: usize,
}

/// The character boundaries from `start` to `end`, in order, both included.
pub open spec fn boundaries_between(bytes: Seq<u8>, start: int, end: int) -> Seq<int>
    recommends
        0 <= start <= end <= bytes.len(),
    decreases end - start,
{
    if 0 <= start < bytes.len() && start + scalar_width(bytes[start]) <= end {
        seq![start] + boundaries_between(bytes, start + scalar_width(bytes[start]), end)
    } else {
        seq![start]
    }
}

/// `listed` gives the character boundaries from `start` to `end`, each by
/// both its offsets.
pub open spec fn lists_boundaries(bytes: Seq<u8>, start: int, end: int, listed: Seq<Boundary>) -> bool {
    &&& listed.len() == boundaries_between(bytes, start, end).len()
    &&& forall|i: int|
        0 <= i < listed.len() ==> {
            &&& (#[trigger] listed[i]).utf8 == boundaries_between(bytes, start, end)[i]
            &&& listed[i].utf16 == utf16_prefix_len(bytes, listed[i].utf8 as int)
        }
}

/// What `boundaries_between` lists: it begins with `start`, ends with
/// `end`, ascends strictly, and holds character boundaries only.
pub proof fn lemma_boundaries_between(bytes: Seq<u8>, start: int, end: int)
    requires
        valid_utf8(bytes),
        is_char_boundary(bytes, start),
        is_char_boundary(bytes, end),
        0 <= start <= end <= bytes.len(),
    ensures
        boundaries_between(bytes, start, end).len() >= 1,
        boundaries_between(bytes, start, end).first() == start,
        boundaries_between(bytes, start, end).last() == end,
        forall|i: int|
            0 <= i < boundaries_between(bytes, start, end).len() ==> {
                &&& start <= #[trigger] boundaries_between(bytes, start, end)[i] <= end
                &&& is_char_boundary(bytes, boundaries_between(bytes, start, end)[i])
            },
        forall|i: int, j: int|
            0 <= i < j < boundaries_between(bytes, start, end).len() ==> boundaries_between(
                bytes,
                start,
                end,
            )[i] < boundaries_between(bytes, start, end)[j],
    decreases end - start,
{
    if start < end {
        let next = start + scalar_width(bytes[start]);
        lemma_next_boundary(bytes, start, end);
        lemma_boundaries_between(bytes, next, end);
        let rest = boundaries_between(bytes, next, end);
        let all = boundaries_between(bytes, start, end);
        assert(all =~= seq![start] + rest);
        assert forall|i: int| 0 <= i < all.len() implies start <= #[trigger] all[i] <= end
            && is_char_boundary(bytes, all[i]) by {
            if i > 0 {
                assert(all[i] == rest[i - 1]);
            }
        }
        assert forall|i: int, j: int| 0 <= i < j < all.len() implies all[i] < all[j] by {
            assert(all[j] == rest[j - 1]);
            if i > 0 {
                assert(all[i] == rest[i - 1]);
            }
        }
    }
}

/// The scalar that starts at a boundary ends at or before every later
/// boundary.
proof fn lemma_next_boundary(bytes: Seq<u8>, start: int, end: int)
    requires
        valid_utf8(bytes),
        is_char_boundary(bytes, start),
        is_char_boundary(bytes, end),
        0 <= start < end <= bytes.len(),
    ensures
        start + scalar_width(bytes[start]) <= end,
        is_char_boundary(bytes, start + scalar_width(bytes[start])),
        scalar_width(bytes[start]) >= 1,
{
    lemma_scalar_step(bytes, start);
    if end < bytes.len() {
        is_char_boundary_iff_not_is_continuation_byte(bytes, end);
    }
}

/// Lists the character boundaries of `text` from `start` to `end`, which
/// are character boundaries themselves. The UTF-16 offset of `start` is
/// `start16`.
pub(crate) fn list_boundaries(text: &str, start: usize, start16: usize, end: usize) -> (listed: Vec<
    Boundary,
>)
    requires
        is_char_boundary(text.spec_bytes(), start as int),
        is_char_boundary(text.spec_bytes(), end as int),
        start <= end <= text.spec_bytes().len(),
        start16 == utf16_prefix_len(text.spec_bytes(), start as int),
        start16 <= start,
    ensures
        lists_boundaries(text.spec_bytes(), start as int, end as int, listed@),
{
    let bytes = text.as_bytes();
    let ghost b = bytes@;
    proof {
        encode_utf8_valid_utf8(text@);
    }
    let mut listed: Vec<Boundary> = Vec::new();
    let mut pos: usize = start;
    let mut cur16: usize = start16;
    let ghost all = boundaries_between(b, start as int, end as int);
    let ghost done: Seq<int> = Seq::empty();
    while pos < end
        invariant
            bytes@ == b,
            valid_utf8(b),
            start <= pos <= end <= b.len(),
            cur16 <= pos,
            is_char_boundary(b, pos as int),
            is_char_boundary(b, end as int),
            cur16 == utf16_prefix_len(b, pos as int),
            all == boundaries_between(b, start as int, end as int),
            all =~= done + boundaries_between(b, pos as int, end as int),
            done.len() == listed@.len(),
            forall|i: int|
                0 <= i < listed@.len() ==> {
                    &&& (#[trigger] listed@[i]).utf8 == done[i]
                    &&& listed@[i].utf16 == utf16_prefix_len(b, listed@[i].utf8 as int)
                },
        decreases end - pos,
    {
        let w = width_of_lead(bytes[pos]);
        proof {
            lemma_scalar_step(b, pos as int);
            lemma_next_boundary(b, pos as int, end as int);
            assert(done + boundaries_between(b, pos as int, end as int) =~= done.push(pos as int)
                + boundaries_between(b, pos + w, end as int));
            done = done.push(pos as int);
        }
        listed.push(Boundary { utf8: pos, utf16: cur16 });
        pos = pos + w;
        cur16 = cur16 + (if w == 4 {
            2
        } else {
            1
        });
    }
    proof {
        assert(all =~= done.push(pos as int));
        done = done.push(pos as int);
    }
    listed.push(Boundary { utf8: pos, utf16: cur16 });
    listed
}

/// Maps ascending UTF-16 offsets into `text` to UTF-8 byte offsets.
///
/// Succeeds exactly when the offsets ascend strictly and each lies on a
/// character boundary of the text; an offset that splits a surrogate pair,
/// lies beyond the text or does not ascend is an
/// [`Error::InternalOffsetMismatch`]. Offset zero maps to zero without a
/// look at the text.
pub fn map_utf16_offsets(text: &str, targets: &Vec<usize>) -> (r: Result<Vec<usize>, Error>)
    ensures
        r is Ok <==> mappable(text.spec_bytes(), targets@),
        r matches Ok(v) ==> {
            &&& v@.len() == targets@.len()
            &&& forall|i: int|
                0 <= i < v@.len() ==> is_utf8_offset_of(
                    text.spec_bytes(),
                    targets@[i] as nat,
                    #[trigger] v@[i] as int,
                )
            &&& forall|i: int, j: int| 0 <= i < j < v@.len() ==> v@[i] < v@[j]
        },
        r matches Err(e) ==> e == Error::InternalOffsetMismatch,
{
    let bytes = text.as_bytes();
    let ghost b = bytes@;
    proof {
        encode_utf8_valid_utf8(text@);
        is_char_boundary_start_end_of_seq(b);
        assert(b.subrange(0, 0) =~= Seq::<u8>::empty());
    }
    let mut out: Vec<usize> = Vec::new();
    let mut pos: usize = 0;
    let mut cur16: usize = 0;
    let mut i: usize = 0;
    while i < targets.len()
        invariant
            b == text.spec_bytes(),
            bytes@ == b,
            valid_utf8(b),
            0 <= i <= targets.len(),
            out@.len() == i,
            pos <= b.len(),
            cur16 <= pos,
            is_char_boundary(b, pos as int),
            cur16 == utf16_prefix_len(b, pos as int),
            i > 0 ==> cur16 == targets@[i - 1],
            i == 0 ==> cur16 == 0,
            forall|j: int|
                0 <= j < i ==> is_utf8_offset_of(b, targets@[j] as nat, #[trigger] out@[j] as int),
            forall|j: int, k: int| 0 <= j < k < i ==> targets@[j] < targets@[k],
            forall|j: int, k: int| 0 <= j < k < i ==> out@[j] < out@[k],
            i > 0 ==> out@[i - 1] == pos,
        decreases targets.len() - i,
    {
        let t = targets[i];
        if i > 0 && t <= targets[i - 1] {
            return Err(Error::InternalOffsetMismatch);
        }
        let ghost start = pos;
        while cur16 < t && pos < bytes.len()
            invariant
                bytes@ == b,
                valid_utf8(b),
                pos <= b.len(),
                start <= pos,
                cur16 <= pos,
                is_char_boundary(b, pos as int),
                cur16 == utf16_prefix_len(b, pos as int),
                cur16 > t ==> !has_utf8_offset(b, t as nat),
            decreases b.len() - pos,
        {
            let lead = bytes[pos];
            let w = width_of_lead(lead);
            let ghost before = pos as int;
            proof {
                lemma_scalar_step(b, pos as int);
            }
            pos = pos + w;
            cur16 = cur16 + (if w == 4 {
                2
            } else {
                1
            });
            proof {
                if cur16 > t {
                    assert forall|k: int| !is_utf8_offset_of(b, t as nat, k) by {
                        if is_utf8_offset_of(b, t as nat, k) {
                            if k <= before {
                                lemma_utf16_prefix_monotonic(b, k, before);
                            } else {
                                lemma_utf16_prefix_monotonic(b, before + 1, k);
                            }
                        }
                    }
                }
            }
        }
        if cur16 != t {
            proof {
                if cur16 < t {
                    assert forall|k: int| !is_utf8_offset_of(b, t as nat, k) by {
                        if is_utf8_offset_of(b, t as nat, k) {
                            lemma_utf16_prefix_monotonic(b, k, b.len() as int);
                        }
                    }
                }
                assert(!has_utf8_offset(b, targets@[i as int] as nat));
            }
            return Err(Error::InternalOffsetMismatch);
        }
        out.push(pos);
        i += 1;
    }
    proof {
        assert forall|j: int| 0 <= j < targets@.len() implies has_utf8_offset(
            b,
            #[trigger] targets@[j] as nat,
        ) by {
            assert(is_utf8_offset_of(b, targets@[j] as nat, out@[j] as int));
        }
    }
    Ok(out)
}

/// Maps one UTF-16 offset into `text` to its UTF-8 byte offset, or `None`
/// if the offset splits a surrogate pair or lies beyond the text.
pub fn utf8_offset_of(text: &str, off16: usize) -> (r: Option<usize>)
    ensures
        r is Some <==> has_utf8_offset(text.spec_bytes(), off16 as nat),
        r matches Some(off8) ==> is_utf8_offset_of(text.spec_bytes(), off16 as nat, off8 as int),
{
    let mut targets: Vec<usize> = Vec::new();
    targets.push(off16);
    match map_utf16_offsets(text, &targets) {
        Ok(offsets) => {
            proof {
                assert(is_utf8_offset_of(
                    text.spec_bytes(),
                    targets@[0] as nat,
                    offsets@[0] as int,
                ));
            }
            Some(offsets[0])
        },
        Err(_) => {
            proof {
                if has_utf8_offset(text.spec_bytes(), off16 as nat) {
                    assert(has_utf8_offset(text.spec_bytes(), targets@[0] as nat));
                    assert(mappable(text.spec_bytes(), targets@));
                }
            }
            None
        },
    }
}

/// The UTF-16 offset of the byte offset `off8` into `text`: the UTF-16
/// length of the text before it. An offset beyond the text counts as its
/// end; one inside a character counts as the end of that character.
pub fn utf16_offset_of(text: &str, off8: usize) -> (off16: usize)
    ensures
        off16 == utf16_prefix_len(
            text.spec_bytes(),
            if off8 <= text.spec_bytes().len() {
                off8 as int
            } else {
                text.spec_bytes().len() as int
            },
        ),
        is_char_boundary(text.spec_bytes(), off8 as int) ==> off16 <= off8 && is_utf8_offset_of(
            text.spec_bytes(),
            off16 as nat,
            off8 as int,
        ),
{
    let bytes = text.as_bytes();
    let ghost b = bytes@;
    let limit = if off8 <= bytes.len() {
        off8
    } else {
        bytes.len()
    };
    proof {
        encode_utf8_valid_utf8(text@);
        is_char_boundary_start_end_of_seq(b);
        assert(b.subrange(0, 0) =~= Seq::<u8>::empty());
    }
    let mut pos: usize = 0;
    let mut cur16: usize = 0;
    while pos < limit
        invariant
            bytes@ == b,
            valid_utf8(b),
            limit <= b.len(),
            pos <= b.len(),
            cur16 <= pos,
            is_char_boundary(b, pos as int),
            cur16 == utf16_prefix_len(b, pos as int),
            pos > limit ==> cur16 == utf16_prefix_len(b, limit as int),
            is_char_boundary(b, limit as int) ==> pos <= limit,
        decreases b.len() - pos,
    {
        let w = width_of_lead(bytes[pos]);
        proof {
            lemma_scalar_step(b, pos as int);
            if is_char_boundary(b, limit as int) {
                lemma_next_boundary(b, pos as int, limit as int);
            }
            if pos + w > limit {
                lemma_utf16_prefix_monotonic(b, pos + 1, limit as int);
                lemma_utf16_prefix_monotonic(b, limit as int, pos + w);
            }
        }
        pos = pos + w;
        cur16 = cur16 + (if w == 4 {
            2
        } else {
            1
        });
    }
    cur16
}

/// A character boundary is found again from its UTF-16 offset: the two
/// directions of the mapping undo each other.
pub proof fn lemma_offset_round_trip(bytes: Seq<u8>, off8: int, back: int)
    requires
        valid_utf8(bytes),
        0 <= off8 <= bytes.len(),
        is_char_boundary(bytes, off8),
        is_utf8_offset_of(bytes, utf16_prefix_len(bytes, off8), back),
    ensures
        back == off8,
        has_utf8_offset(bytes, utf16_prefix_len(bytes, off8)),
{
    assert(is_utf8_offset_of(bytes, utf16_prefix_len(bytes, off8), off8));
    lemma_utf8_offset_ordered(
        bytes,
        utf16_prefix_len(bytes, off8),
        off8,
        utf16_prefix_len(bytes, off8),
        back,
    );
}

} // verus!
