//! The index side of the radius profiler: which sample a kernel tap reads.

use vstd::prelude::*;

verus! {

/// Index of the sample that a kernel tap `offset` places away from sample
/// `i` reads, in a sequence of `len` samples: taps that fall off either end
/// read the nearest end.
pub open spec fn clamped(i: int, offset: int, len: int) -> int {
    if i + offset < 0 {
        0
    } else if i + offset > len - 1 {
        len - 1
    } else {
        i + offset
    }
}

/// Clamps the index of a kernel tap to the samples.
pub fn clamped_index(i: usize, offset: i64, len: usize) -> (idx: usize)
    requires
        len > 0,
        i < len,
    ensures
        idx == clamped(i as int, offset as int, len as int),
        idx < len,
{
    if offset >= 0 {
        let step = offset as u64;
        if step as u128 >= (len - i) as u128 {
            len - 1
        } else {
            i + step as usize
        }
    } else {
        let back: u64 = if offset == i64::MIN {
            0x8000_0000_0000_0000
        } else {
            (-offset) as u64
        };
        if back as u128 > i as u128 {
            0
        } else {
            i - back as usize
        }
    }
}

} // verus!
