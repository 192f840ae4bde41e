//! Little-endian integers inside byte sequences, and the facts about
//! them that the message layouts are built from.
use vstd::prelude::*;
use vstd::bytes::{
    lemma_auto_spec_u32_to_from_le_bytes, lemma_auto_spec_u64_to_from_le_bytes,
    spec_u32_from_le_bytes, spec_u32_to_le_bytes, spec_u64_from_le_bytes, spec_u64_to_le_bytes,
};

verus! {

/// The little-endian `u64` stored at byte offset `at` of `b`.
pub open spec fn le_u64_at(b: Seq<u8>, at: int) -> u64 {
    spec_u64_from_le_bytes(b.subrange(at, at + 8))
}

/// The little-endian `u32` stored at byte offset `at` of `b`.
pub open spec fn le_u32_at(b: Seq<u8>, at: int) -> u32 {
    spec_u32_from_le_bytes(b.subrange(at, at + 4))
}

/// The eight bytes of `x`, little end first.
pub open spec fn u64_bytes(x: u64) -> Seq<u8> {
    spec_u64_to_le_bytes(x)
}

/// The four bytes of `x`, little end first.
pub open spec fn u32_bytes(x: u32) -> Seq<u8> {
    spec_u32_to_le_bytes(x)
}

/// Writing a `u64` and reading it back at the same place gives it back,
/// whatever bytes stand before and after it.
pub proof fn lemma_u64_read_back(pre: Seq<u8>, x: u64, post: Seq<u8>)
    ensures
        u64_bytes(x).len() == 8,
        le_u64_at(pre + u64_bytes(x) + post, pre.len() as int) == x,
{
    lemma_auto_spec_u64_to_from_le_bytes();
    let b = pre + u64_bytes(x) + post;
    assert(b.subrange(pre.len() as int, pre.len() + 8int) =~= u64_bytes(x));
}

/// Writing a `u32` and reading it back at the same place gives it back,
/// whatever bytes stand before and after it.
pub proof fn lemma_u32_read_back(pre: Seq<u8>, x: u32, post: Seq<u8>)
    ensures
        u32_bytes(x).len() == 4,
        le_u32_at(pre + u32_bytes(x) + post, pre.len() as int) == x,
{
    lemma_auto_spec_u32_to_from_le_bytes();
    let b = pre + u32_bytes(x) + post;
    assert(b.subrange(pre.len() as int, pre.len() + 4int) =~= u32_bytes(x));
}

/// A `u64` takes eight bytes.
pub proof fn lemma_u64_bytes_len(x: u64)
    ensures
        u64_bytes(x).len() == 8,
{
    lemma_auto_spec_u64_to_from_le_bytes();
}

/// A `u32` takes four bytes.
pub proof fn lemma_u32_bytes_len(x: u32)
    ensures
        u32_bytes(x).len() == 4,
{
    lemma_auto_spec_u32_to_from_le_bytes();
}

/// Taking bytes `x..y` of what follows offset `at` is taking bytes
/// `at + x .. at + y`.
pub proof fn lemma_skip_subrange(b: Seq<u8>, at: int, x: int, y: int)
    requires
        0 <= at,
        0 <= x <= y,
        at + y <= b.len(),
    ensures
        b.skip(at).subrange(x, y) == b.subrange(at + x, at + y),
{
    assert(b.skip(at).subrange(x, y) =~= b.subrange(at + x, at + y));
}

} // verus!
