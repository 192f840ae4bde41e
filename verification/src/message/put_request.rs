//! The request to store one block that the server reads by RDMA.
use vstd::prelude::*;
use vstd::bytes::{spec_u32_from_le_bytes, spec_u32_to_le_bytes, spec_u64_from_le_bytes, spec_u64_to_le_bytes};
use bytes::BytesMut;

use super::mr_token::{lemma_mr_token_round_trip, MrToken, MR_TOKEN_WIRE_LEN};
use crate::buffer::{buf_put_u64_le, bytes_mut_contents, can_grow, slice_get_u64_le};
use crate::error::{insufficient_bytes, is_insufficient_bytes, RpcError};
use crate::size::{overflow_add_u64, u64_size, usize_to_u64};
use crate::wire::{lemma_u64_bytes_len, lemma_u64_read_back, le_u64_at, u64_bytes};

verus! {

/// The number of bytes a put request takes on the wire.
pub const PUT_REQUEST_WIRE_LEN: usize = 40;

/// The request to put a single kv block, which the server reads by RDMA
/// from the memory region the token names.
#[derive(Debug, Clone, PartialEq, Eq)]
pub struct KVBlockPutRequestWithRdma {
    /// The kv block size.
    pub block_size: u64,
    /// The kv cache id.
    pub kv_cache_id: u64,
    /// The token of the memory region that holds the block.
    pub mr_token: MrToken,
}

impl KVBlockPutRequestWithRdma {
    /// The bytes of the request on the wire: block size and cache id,
    /// little end first, then the token.
    pub open spec fn wire(self) -> Seq<u8> {
        u64_bytes(self.block_size) + u64_bytes(self.kv_cache_id) + self.mr_token.wire()
    }

    /// The request that the first `PUT_REQUEST_WIRE_LEN` bytes of `b`
    /// describe.
    pub open spec fn parse(b: Seq<u8>) -> KVBlockPutRequestWithRdma {
        KVBlockPutRequestWithRdma {
            block_size: le_u64_at(b, 0),
            kv_cache_id: le_u64_at(b, 8),
            mr_token: MrToken::parse(b.skip(16)),
        }
    }

    /// Appends the request's bytes to `buf`.
    pub fn encode(&self, buf: &mut BytesMut)
        requires
            can_grow(*old(buf), PUT_REQUEST_WIRE_LEN as int),
        ensures
            bytes_mut_contents(*final(buf)) == bytes_mut_contents(*old(buf)) + self.wire(),
            bytes_mut_contents(*final(buf)) == bytes_mut_contents(*old(buf)) + spec_u64_to_le_bytes(self.block_size) + spec_u64_to_le_bytes(self.kv_cache_id)
                + spec_u64_to_le_bytes(self.mr_token.addr) + spec_u64_to_le_bytes(self.mr_token.len)
                + spec_u32_to_le_bytes(self.mr_token.rkey) + spec_u32_to_le_bytes(self.mr_token.access),
    {
        proof {
            lemma_u64_bytes_len(self.block_size);
            lemma_u64_bytes_len(self.kv_cache_id);
        }
        let ghost start = bytes_mut_contents(*buf);
        buf_put_u64_le(buf, self.block_size);
        buf_put_u64_le(buf, self.kv_cache_id);
        self.mr_token.encode(buf);
        assert(bytes_mut_contents(*buf) =~= start + self.wire());
    }

    /// Reads a put request from the front of a byte slice. With fewer than
    /// `PUT_REQUEST_WIRE_LEN` bytes it reports that.
    pub fn decode_u8_buf(buf: &[u8]) -> (res: Result<KVBlockPutRequestWithRdma, RpcError>)
        ensures
            buf@.len() < PUT_REQUEST_WIRE_LEN ==> (res matches Err(e) && is_insufficient_bytes(e)),
            buf@.len() >= PUT_REQUEST_WIRE_LEN ==> res == Ok::<KVBlockPutRequestWithRdma, RpcError>(
                KVBlockPutRequestWithRdma::parse(buf@),
            ),
            buf@.len() >= PUT_REQUEST_WIRE_LEN ==> (res matches Ok(r)
                && r.block_size == spec_u64_from_le_bytes(buf@.subrange(0, 8))
                && r.kv_cache_id == spec_u64_from_le_bytes(buf@.subrange(8, 16))
                && r.mr_token.addr == spec_u64_from_le_bytes(buf@.subrange(16, 24))
                && r.mr_token.len == spec_u64_from_le_bytes(buf@.subrange(24, 32))
                && r.mr_token.rkey == spec_u32_from_le_bytes(buf@.subrange(32, 36))
                && r.mr_token.access == spec_u32_from_le_bytes(buf@.subrange(36, 40))),
    {
        let ghost b = buf@;
        let mut buf = buf;
        if buf.len() < 40 {
            return Err(insufficient_bytes());
        }
        let block_size = slice_get_u64_le(&mut buf);
        let kv_cache_id = slice_get_u64_le(&mut buf);
        assert(b.take(8) =~= b.subrange(0, 8));
        assert(b.skip(8).take(8) =~= b.subrange(8, 16));
        assert(b.skip(8).skip(8) =~= b.skip(16));
        let mr_token = MrToken::decode_u8_buf(buf).unwrap();
        assert(b.skip(16).subrange(0, 8) =~= b.subrange(16, 24));
        assert(b.skip(16).subrange(8, 16) =~= b.subrange(24, 32));
        assert(b.skip(16).subrange(16, 20) =~= b.subrange(32, 36));
        assert(b.skip(16).subrange(20, 24) =~= b.subrange(36, 40));
        Ok(KVBlockPutRequestWithRdma { block_size, kv_cache_id, mr_token })
    }

    /// The number of bytes [`KVBlockPutRequestWithRdma::encode`] writes.
    pub fn actual_size(&self) -> (n: u64)
        ensures
            n == self.wire().len(),
            n == PUT_REQUEST_WIRE_LEN,
    {
        proof {
            lemma_u64_bytes_len(self.block_size);
            lemma_u64_bytes_len(self.kv_cache_id);
            lemma_mr_token_round_trip(self.mr_token, Seq::empty());
        }
        let block_size_len = usize_to_u64(u64_size());
        let kv_cache_id_len = usize_to_u64(u64_size());
        let mr_token_size = self.mr_token.actual_size();
        overflow_add_u64(overflow_add_u64(block_size_len, kv_cache_id_len), mr_token_size)
    }
}

/// The layout of a request: its bytes are the block size, the cache id,
/// the token's address and length as little-endian `u64`s, then the
/// token's remote key and access flags as little-endian `u32`s; and reading
/// any bytes as a request takes its fields from those places.
pub proof fn lemma_put_request_layout(r: KVBlockPutRequestWithRdma, b: Seq<u8>)
    ensures
        r.wire() == spec_u64_to_le_bytes(r.block_size) + spec_u64_to_le_bytes(r.kv_cache_id)
                + spec_u64_to_le_bytes(r.mr_token.addr) + spec_u64_to_le_bytes(r.mr_token.len)
                + spec_u32_to_le_bytes(r.mr_token.rkey) + spec_u32_to_le_bytes(r.mr_token.access),
        b.len() >= PUT_REQUEST_WIRE_LEN ==> {
            let p = KVBlockPutRequestWithRdma::parse(b);
            p.block_size == spec_u64_from_le_bytes(b.subrange(0, 8))
            && p.kv_cache_id == spec_u64_from_le_bytes(b.subrange(8, 16))
            && p.mr_token.addr == spec_u64_from_le_bytes(b.subrange(16, 24))
            && p.mr_token.len == spec_u64_from_le_bytes(b.subrange(24, 32))
            && p.mr_token.rkey == spec_u32_from_le_bytes(b.subrange(32, 36))
            && p.mr_token.access == spec_u32_from_le_bytes(b.subrange(36, 40))
        },
        r.block_size == spec_u64_from_le_bytes(r.wire().subrange(0, 8))
        && r.kv_cache_id == spec_u64_from_le_bytes(r.wire().subrange(8, 16))
        && r.mr_token.addr == spec_u64_from_le_bytes(r.wire().subrange(16, 24))
        && r.mr_token.len == spec_u64_from_le_bytes(r.wire().subrange(24, 32))
        && r.mr_token.rkey == spec_u32_from_le_bytes(r.wire().subrange(32, 36))
        && r.mr_token.access == spec_u32_from_le_bytes(r.wire().subrange(36, 40)),
{
    lemma_put_request_round_trip(r, Seq::empty());
    assert(r.wire() + Seq::<u8>::empty() =~= r.wire());
    assert(r.wire() =~= spec_u64_to_le_bytes(r.block_size) + spec_u64_to_le_bytes(r.kv_cache_id)
                + spec_u64_to_le_bytes(r.mr_token.addr) + spec_u64_to_le_bytes(r.mr_token.len)
                + spec_u32_to_le_bytes(r.mr_token.rkey) + spec_u32_to_le_bytes(r.mr_token.access));
    if b.len() >= PUT_REQUEST_WIRE_LEN {
        assert(b.skip(16).subrange(0, 8) =~= b.subrange(16, 24));
        assert(b.skip(16).subrange(8, 16) =~= b.subrange(24, 32));
        assert(b.skip(16).subrange(16, 20) =~= b.subrange(32, 36));
        assert(b.skip(16).subrange(20, 24) =~= b.subrange(36, 40));
    }
    let w = r.wire();
    assert(w.skip(16).subrange(0, 8) =~= w.subrange(16, 24));
    assert(w.skip(16).subrange(8, 16) =~= w.subrange(24, 32));
    assert(w.skip(16).subrange(16, 20) =~= w.subrange(32, 36));
    assert(w.skip(16).subrange(20, 24) =~= w.subrange(36, 40));
}

/// Decoding what [`KVBlockPutRequestWithRdma::encode`] wrote gives the
/// request back, whatever follows its bytes.
pub proof fn lemma_put_request_round_trip(r: KVBlockPutRequestWithRdma, rest: Seq<u8>)
    ensures
        r.wire().len() == PUT_REQUEST_WIRE_LEN,
        KVBlockPutRequestWithRdma::parse(r.wire() + rest) == r,
        (r.wire() + rest).skip(PUT_REQUEST_WIRE_LEN as int) == rest,
{
    lemma_mr_token_round_trip(r.mr_token, rest);
    lemma_u64_bytes_len(r.block_size);
    lemma_u64_bytes_len(r.kv_cache_id);
    let w = r.wire() + rest;
    let tail = r.mr_token.wire() + rest;
    let e = Seq::<u8>::empty();
    lemma_u64_read_back(e, r.block_size, u64_bytes(r.kv_cache_id) + tail);
    assert(w =~= e + u64_bytes(r.block_size) + (u64_bytes(r.kv_cache_id) + tail));
    lemma_u64_read_back(u64_bytes(r.block_size), r.kv_cache_id, tail);
    assert(w =~= u64_bytes(r.block_size) + u64_bytes(r.kv_cache_id) + tail);
    assert(w.skip(16) =~= tail);
    assert(w.skip(40) =~= tail.skip(MR_TOKEN_WIRE_LEN as int));
}

} // verus!
