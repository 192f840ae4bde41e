//! Size arithmetic for the encoded lengths of messages.
use vstd::prelude::*;

verus! {

/// `OverflowArithmetic::overflow_add` of `clippy_utilities` on `u64`: the
/// sum; it panics on overflow, which `requires` leaves out.
#[verifier::external_body]
pub(crate) fn overflow_add_u64(a: u64, b: u64) -> (sum: u64)
    requires
        a + b <= u64::MAX,
    ensures
        sum == a + b,
{
    clippy_utilities::OverflowArithmetic::overflow_add(a, b)
}

/// A length or count as a `u64`; every `usize` fits.
pub fn usize_to_u64(x: usize) -> (y: u64)
    ensures
        y == x,
{
    x as u64
}

/// The byte size of a `u64`.
pub fn u64_size() -> (n: usize)
    ensures
        n == 8,
{
    broadcast use vstd::layout::layout_of_primitives;
    core::mem::size_of::<u64>()
}

/// The byte size of a `u32`.
pub fn u32_size() -> (n: usize)
    ensures
        n == 4,
{
    broadcast use vstd::layout::layout_of_primitives;
    core::mem::size_of::<u32>()
}

} // verus!
