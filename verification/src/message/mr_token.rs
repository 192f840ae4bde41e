//! The token that names a registered remote memory region.
use vstd::prelude::*;
use vstd::bytes::{spec_u32_from_le_bytes, spec_u32_to_le_bytes, spec_u64_from_le_bytes, spec_u64_to_le_bytes};
use bytes::BytesMut;

use crate::buffer::{
    bytes_mut_contents, bytes_mut_from_slice, buf_get_u32_le, buf_get_u64_le, buf_len,
    buf_put_u32_le, buf_put_u64_le, can_grow,
};
use crate::error::{insufficient_bytes, is_insufficient_bytes, RpcError};
use crate::size::{overflow_add_u64, u32_size, u64_size, usize_to_u64};
use crate::wire::{
    lemma_u64_bytes_len, lemma_u32_bytes_len, lemma_u32_read_back, lemma_u64_read_back, le_u32_at, le_u64_at,
    u32_bytes, u64_bytes,
};

verus! {

/// The number of bytes a token takes on the wire.
pub const MR_TOKEN_WIRE_LEN: usize = 24;

/// The part of an RDMA memory-region token that travels between nodes:
/// where the region starts, how long it is, the remote key that grants
/// access to it, and the access flags. Addresses and lengths are the
/// 64-bit values the wire carries.
#[derive(Debug, Clone, Copy, PartialEq, Eq)]
pub struct MrToken {
    /// The start address.
    pub addr: u64,
    /// The length in bytes.
    pub len: u64,
    /// The remote key.
    pub rkey: u32,
    /// The access flags.
    pub access: u32,
}

impl MrToken {
    /// The bytes of the token on the wire: address, length, key and
    /// access flags, each little end first.
    pub open spec fn wire(self) -> Seq<u8> {
        u64_bytes(self.addr) + u64_bytes(self.len) + u32_bytes(self.rkey) + u32_bytes(self.access)
    }

    /// The token that the first `MR_TOKEN_WIRE_LEN` bytes of `b` describe.
    pub open spec fn parse(b: Seq<u8>) -> MrToken {
        MrToken {
            addr: le_u64_at(b, 0),
            len: le_u64_at(b, 8),
            rkey: le_u32_at(b, 16),
            access: le_u32_at(b, 20),
        }
    }

    /// Appends the token's bytes to `buf`.
    pub fn encode(&self, buf: &mut BytesMut)
        requires
            can_grow(*old(buf), MR_TOKEN_WIRE_LEN as int),
        ensures
            bytes_mut_contents(*final(buf)) == bytes_mut_contents(*old(buf)) + self.wire(),
            bytes_mut_contents(*final(buf)) == bytes_mut_contents(*old(buf)) + spec_u64_to_le_bytes(
                self.addr,
            ) + spec_u64_to_le_bytes(self.len) + spec_u32_to_le_bytes(self.rkey)
                + spec_u32_to_le_bytes(self.access),
    {
        proof {
            lemma_u64_bytes_len(self.addr);
            lemma_u64_bytes_len(self.len);
            lemma_u32_bytes_len(self.rkey);
            lemma_u32_bytes_len(self.access);
        }
        let ghost start = bytes_mut_contents(*buf);
        buf_put_u64_le(buf, self.addr);
        buf_put_u64_le(buf, self.len);
        buf_put_u32_le(buf, self.rkey);
        buf_put_u32_le(buf, self.access);
        assert(bytes_mut_contents(*buf) =~= start + self.wire());
    }

    /// Takes a token off the front of `buf`. With fewer than
    /// `MR_TOKEN_WIRE_LEN` bytes it reports that and leaves `buf` alone.
    pub fn decode(buf: &mut BytesMut) -> (res: Result<MrToken, RpcError>)
        ensures
            ({
                let b = bytes_mut_contents(*old(buf));
                if b.len() < MR_TOKEN_WIRE_LEN {
                    &&& res matches Err(e) && is_insufficient_bytes(e)
                    &&& bytes_mut_contents(*final(buf)) == b
                } else {
                    &&& res == Ok::<MrToken, RpcError>(MrToken::parse(b))
                    &&& bytes_mut_contents(*final(buf)) == b.skip(MR_TOKEN_WIRE_LEN as int)
                }
            }),
            bytes_mut_contents(*old(buf)).len() >= MR_TOKEN_WIRE_LEN ==> (res matches Ok(t)
                && t.addr == spec_u64_from_le_bytes(bytes_mut_contents(*old(buf)).subrange(0, 8))
                && t.len == spec_u64_from_le_bytes(bytes_mut_contents(*old(buf)).subrange(8, 16))
                && t.rkey == spec_u32_from_le_bytes(bytes_mut_contents(*old(buf)).subrange(16, 20))
                && t.access == spec_u32_from_le_bytes(bytes_mut_contents(*old(buf)).subrange(20, 24))),
    {
        if buf_len(buf) < 24 {
            return Err(insufficient_bytes());
        }
        let ghost b = bytes_mut_contents(*buf);
        let addr = buf_get_u64_le(buf);
        let len = buf_get_u64_le(buf);
        let rkey = buf_get_u32_le(buf);
        let access = buf_get_u32_le(buf);
        assert(b.take(8) =~= b.subrange(0, 8));
        assert(b.skip(8).take(8) =~= b.subrange(8, 16));
        assert(b.skip(8).skip(8).take(4) =~= b.subrange(16, 20));
        assert(b.skip(8).skip(8).skip(4).take(4) =~= b.subrange(20, 24));
        assert(b.skip(8).skip(8).skip(4).skip(4) =~= b.skip(24));
        Ok(MrToken { addr, len, rkey, access })
    }

    /// Reads a token from the front of a byte slice, as [`MrToken::decode`]
    /// does on a buffer holding those bytes.
    pub fn decode_u8_buf(buf: &[u8]) -> (res: Result<MrToken, RpcError>)
        ensures
            buf@.len() < MR_TOKEN_WIRE_LEN ==> (res matches Err(e) && is_insufficient_bytes(e)),
            buf@.len() >= MR_TOKEN_WIRE_LEN ==> res == Ok::<MrToken, RpcError>(MrToken::parse(buf@)),
            buf@.len() >= MR_TOKEN_WIRE_LEN ==> (res matches Ok(t)
                && t.addr == spec_u64_from_le_bytes(buf@.subrange(0, 8))
                && t.len == spec_u64_from_le_bytes(buf@.subrange(8, 16))
                && t.rkey == spec_u32_from_le_bytes(buf@.subrange(16, 20))
                && t.access == spec_u32_from_le_bytes(buf@.subrange(20, 24))),
    {
        let mut bytes = bytes_mut_from_slice(buf);
        MrToken::decode(&mut bytes)
    }

    /// The number of bytes [`MrToken::encode`] writes.
    pub fn actual_size(&self) -> (n: u64)
        ensures
            n == self.wire().len(),
            n == MR_TOKEN_WIRE_LEN,
    {
        proof {
            lemma_u64_bytes_len(self.addr);
            lemma_u64_bytes_len(self.len);
            lemma_u32_bytes_len(self.rkey);
            lemma_u32_bytes_len(self.access);
        }
        let addr_len = usize_to_u64(u64_size());
        let len_len = usize_to_u64(u64_size());
        let rkey_len = usize_to_u64(u32_size());
        let access_len = usize_to_u64(u32_size());
        overflow_add_u64(overflow_add_u64(overflow_add_u64(addr_len, len_len), rkey_len), access_len)
    }
}

/// The layout of a token: its bytes are the address and the length as
/// little-endian `u64`s, then the remote key and the access flags as
/// little-endian `u32`s; and reading any bytes as a token takes its fields
/// from those places.
pub proof fn lemma_mr_token_layout(t: MrToken, b: Seq<u8>)
    ensures
        t.wire() == spec_u64_to_le_bytes(t.addr) + spec_u64_to_le_bytes(t.len) + spec_u32_to_le_bytes(
            t.rkey,
        ) + spec_u32_to_le_bytes(t.access),
        b.len() >= MR_TOKEN_WIRE_LEN ==> {
            let p = MrToken::parse(b);
            p.addr == spec_u64_from_le_bytes(b.subrange(0, 8))
                && p.len == spec_u64_from_le_bytes(b.subrange(8, 16))
                && p.rkey == spec_u32_from_le_bytes(b.subrange(16, 20))
                && p.access == spec_u32_from_le_bytes(b.subrange(20, 24))
        },
        t.addr == spec_u64_from_le_bytes(t.wire().subrange(0, 8))
                && t.len == spec_u64_from_le_bytes(t.wire().subrange(8, 16))
                && t.rkey == spec_u32_from_le_bytes(t.wire().subrange(16, 20))
                && t.access == spec_u32_from_le_bytes(t.wire().subrange(20, 24)),
{
    lemma_mr_token_round_trip(t, Seq::empty());
    assert(t.wire() + Seq::<u8>::empty() =~= t.wire());
}

/// Decoding what [`MrToken::encode`] wrote gives the token back and takes
/// exactly its bytes off the front, whatever follows them.
pub proof fn lemma_mr_token_round_trip(t: MrToken, rest: Seq<u8>)
    ensures
        t.wire().len() == MR_TOKEN_WIRE_LEN,
        MrToken::parse(t.wire() + rest) == t,
        (t.wire() + rest).skip(MR_TOKEN_WIRE_LEN as int) == rest,
{
    lemma_u64_bytes_len(t.addr);
    lemma_u64_bytes_len(t.len);
    lemma_u32_bytes_len(t.rkey);
    lemma_u32_bytes_len(t.access);
    let w = t.wire() + rest;
    let e = Seq::<u8>::empty();
    lemma_u64_read_back(e, t.addr, u64_bytes(t.len) + u32_bytes(t.rkey) + u32_bytes(t.access) + rest);
    assert(w =~= e + u64_bytes(t.addr) + (u64_bytes(t.len) + u32_bytes(t.rkey) + u32_bytes(t.access) + rest));
    lemma_u64_read_back(u64_bytes(t.addr), t.len, u32_bytes(t.rkey) + u32_bytes(t.access) + rest);
    assert(w =~= u64_bytes(t.addr) + u64_bytes(t.len) + (u32_bytes(t.rkey) + u32_bytes(t.access) + rest));
    lemma_u32_read_back(u64_bytes(t.addr) + u64_bytes(t.len), t.rkey, u32_bytes(t.access) + rest);
    assert(w =~= u64_bytes(t.addr) + u64_bytes(t.len) + u32_bytes(t.rkey) + (u32_bytes(t.access) + rest));
    lemma_u32_read_back(u64_bytes(t.addr) + u64_bytes(t.len) + u32_bytes(t.rkey), t.access, rest);
    assert(w.skip(24) =~= rest);
}

} // verus!
