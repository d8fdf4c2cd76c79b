//! Trailing whitespace of a line.
//!
//! Whitespace here is ASCII only: space, tab, carriage return and line feed.
//! Other Unicode whitespace is not counted.

use vstd::prelude::*;

verus! {

/// Space, tab, line feed or carriage return.
pub open spec fn is_line_whitespace(b: u8) -> bool {
    b == 0x20 || b == 0x09 || b == 0x0a || b == 0x0d
}

/// The number of whitespace bytes at the end of `bytes`.
pub open spec fn trailing_whitespace(bytes: Seq<u8>) -> nat
    decreases bytes.len(),
{
    if bytes.len() > 0 && is_line_whitespace(bytes.last()) {
        1 + trailing_whitespace(bytes.drop_last())
    } else {
        0
    }
}

/// Whether `b` is space, tab, line feed or carriage return.
pub fn is_whitespace_byte(b: u8) -> (r: bool)
    ensures
        r == is_line_whitespace(b),
{
    b == 0x20 || b == 0x09 || b == 0x0a || b == 0x0d
}

/// Counts the whitespace bytes at the end of `bytes`: the last `n` bytes are
/// whitespace, and the byte before them, if there is one, is not.
pub fn count_trailing_whitespace(bytes: &[u8]) -> (n: usize)
    ensures
        n == trailing_whitespace(bytes@),
        n <= bytes@.len(),
        forall|k: int| bytes@.len() - n <= k < bytes@.len() ==> is_line_whitespace(bytes@[k]),
        n < bytes@.len() ==> !is_line_whitespace(bytes@[bytes@.len() - n - 1]),
{
    let len = bytes.len();
    let mut n: usize = 0;
    proof {
        assert(bytes@.subrange(0, len as int) =~= bytes@);
    }
    while n < len && is_whitespace_byte(bytes[len - 1 - n])
        invariant
            len == bytes@.len(),
            n <= len,
            trailing_whitespace(bytes@) == n + trailing_whitespace(bytes@.subrange(0, len - n)),
            forall|k: int| len - n <= k < len ==> is_line_whitespace(bytes@[k]),
        decreases len - n,
    {
        proof {
            let rest = bytes@.subrange(0, len - n);
            assert(rest.last() == bytes@[len - 1 - n]);
            assert(rest.drop_last() =~= bytes@.subrange(0, len - n - 1));
        }
        n += 1;
    }
    proof {
        let rest = bytes@.subrange(0, len - n);
        if n < len {
            assert(rest.last() == bytes@[len - 1 - n]);
        }
    }
    n
}

} // verus!
