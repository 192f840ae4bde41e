//! The request to read a block into a remote memory region, and its
//! response.
use vstd::prelude::*;
use vstd::bytes::{spec_u32_from_le_bytes, spec_u32_to_le_bytes, spec_u64_from_le_bytes, spec_u64_to_le_bytes};
use bytes::BytesMut;

use super::mr_token::{lemma_mr_token_round_trip, MrToken, MR_TOKEN_WIRE_LEN};
use super::status::StatusCode;
use crate::buffer::{
    bytes_mut_contents, bytes_mut_from_slice, buf_capacity, buf_get_u64_le, buf_get_u8, buf_len,
    buf_put_u64_le, buf_put_u8, buf_reserve, can_grow,
};
use crate::error::{insufficient_bytes, internal_error, is_insufficient_bytes, is_internal_error, RpcError};
use crate::size::{overflow_add_u64, u64_size, usize_to_u64};
use crate::wire::{lemma_u64_bytes_len, lemma_u64_read_back, le_u64_at, u64_bytes};

verus! {

/// The number of bytes a get request takes on the wire.
pub const GET_REQUEST_WIRE_LEN: usize = 40;

/// The number of bytes a get response takes on the wire.
pub const GET_RESPONSE_WIRE_LEN: usize = 17;

/// The request to get a kv block, which the server writes by RDMA into
/// the memory region the token names.
#[derive(Debug, PartialEq, Eq)]
pub struct KVBlockGetRequestWithRdma {
    /// The kv block size.
    pub block_size: u64,
    /// The kv cache id.
    pub kv_cache_id: u64,
    /// The token of the memory region to write the block into.
    pub mr_token: MrToken,
}

impl KVBlockGetRequestWithRdma {
    /// The bytes of the request on the wire: block size and cache id,
    /// little end first, then the token.
    pub open spec fn wire(self) -> Seq<u8> {
        u64_bytes(self.block_size) + u64_bytes(self.kv_cache_id) + self.mr_token.wire()
    }

    /// The request that the first `GET_REQUEST_WIRE_LEN` bytes of `b`
    /// describe.
    pub open spec fn parse(b: Seq<u8>) -> KVBlockGetRequestWithRdma {
        KVBlockGetRequestWithRdma {
            block_size: le_u64_at(b, 0),
            kv_cache_id: le_u64_at(b, 8),
            mr_token: MrToken::parse(b.skip(16)),
        }
    }

    /// Appends the request's bytes to `buf`.
    pub fn encode(&self, buf: &mut BytesMut)
        requires
            can_grow(*old(buf), GET_REQUEST_WIRE_LEN as int),
        ensures
            bytes_mut_contents(*final(buf)) == bytes_mut_contents(*old(buf)) + self.wire(),
            bytes_mut_contents(*final(buf)) == bytes_mut_contents(*old(buf)) + spec_u64_to_le_bytes(self.block_size) + spec_u64_to_le_bytes(self.kv_cache_id)
                + spec_u64_to_le_bytes(self.mr_token.addr) + spec_u64_to_le_bytes(self.mr_token.len)
                + spec_u32_to_le_bytes(self.mr_token.rkey) + spec_u32_to_le_bytes(self.mr_token.access),
    {
        proof {
            lemma_u64_bytes_len(self.block_size);
            lemma_u64_bytes_len(self.kv_cache_id);
        }
        let ghost start = bytes_mut_contents(*buf);
        buf_put_u64_le(buf, self.block_size);
        buf_put_u64_le(buf, self.kv_cache_id);
        self.mr_token.encode(buf);
        assert(bytes_mut_contents(*buf) =~= start + self.wire());
    }

    /// Takes a get request off the front of `buf`. With fewer than
    /// `GET_REQUEST_WIRE_LEN` bytes it reports that and leaves `buf` alone.
    pub fn decode(buf: &mut BytesMut) -> (res: Result<KVBlockGetRequestWithRdma, RpcError>)
        ensures
            ({
                let b = bytes_mut_contents(*old(buf));
                if b.len() < GET_REQUEST_WIRE_LEN {
                    &&& res matches Err(e) && is_insufficient_bytes(e)
                    &&& bytes_mut_contents(*final(buf)) == b
                } else {
                    &&& res == Ok::<KVBlockGetRequestWithRdma, RpcError>(KVBlockGetRequestWithRdma::parse(b))
                    &&& bytes_mut_contents(*final(buf)) == b.skip(GET_REQUEST_WIRE_LEN as int)
                }
            }),
            bytes_mut_contents(*old(buf)).len() >= GET_REQUEST_WIRE_LEN ==> (res matches Ok(r)
                && r.block_size == spec_u64_from_le_bytes(bytes_mut_contents(*old(buf)).subrange(0, 8))
                && r.kv_cache_id == spec_u64_from_le_bytes(bytes_mut_contents(*old(buf)).subrange(8, 16))
                && r.mr_token.addr == spec_u64_from_le_bytes(bytes_mut_contents(*old(buf)).subrange(16, 24))
                && r.mr_token.len == spec_u64_from_le_bytes(bytes_mut_contents(*old(buf)).subrange(24, 32))
                && r.mr_token.rkey == spec_u32_from_le_bytes(bytes_mut_contents(*old(buf)).subrange(32, 36))
                && r.mr_token.access == spec_u32_from_le_bytes(bytes_mut_contents(*old(buf)).subrange(36, 40))),
    {
        if buf_len(buf) < 40 {
            return Err(insufficient_bytes());
        }
        let ghost b = bytes_mut_contents(*buf);
        let block_size = buf_get_u64_le(buf);
        let kv_cache_id = buf_get_u64_le(buf);
        assert(b.take(8) =~= b.subrange(0, 8));
        assert(b.skip(8).take(8) =~= b.subrange(8, 16));
        assert(b.skip(8).skip(8) =~= b.skip(16));
        let mr_token = MrToken::decode(buf).unwrap();
        assert(b.skip(16).skip(MR_TOKEN_WIRE_LEN as int) =~= b.skip(40));
        assert(b.skip(16).subrange(0, 8) =~= b.subrange(16, 24));
        assert(b.skip(16).subrange(8, 16) =~= b.subrange(24, 32));
        assert(b.skip(16).subrange(16, 20) =~= b.subrange(32, 36));
        assert(b.skip(16).subrange(20, 24) =~= b.subrange(36, 40));
        Ok(KVBlockGetRequestWithRdma { block_size, kv_cache_id, mr_token })
    }

    /// Reads a get request from the front of a byte slice, as
    /// [`KVBlockGetRequestWithRdma::decode`] does on a buffer holding those
    /// bytes.
    pub fn decode_u8_buf(buf: &[u8]) -> (res: Result<KVBlockGetRequestWithRdma, RpcError>)
        ensures
            buf@.len() < GET_REQUEST_WIRE_LEN ==> (res matches Err(e) && is_insufficient_bytes(e)),
            buf@.len() >= GET_REQUEST_WIRE_LEN ==> res == Ok::<KVBlockGetRequestWithRdma, RpcError>(
                KVBlockGetRequestWithRdma::parse(buf@),
            ),
            buf@.len() >= GET_REQUEST_WIRE_LEN ==> (res matches Ok(r)
                && r.block_size == spec_u64_from_le_bytes(buf@.subrange(0, 8))
                && r.kv_cache_id == spec_u64_from_le_bytes(buf@.subrange(8, 16))
                && r.mr_token.addr == spec_u64_from_le_bytes(buf@.subrange(16, 24))
                && r.mr_token.len == spec_u64_from_le_bytes(buf@.subrange(24, 32))
                && r.mr_token.rkey == spec_u32_from_le_bytes(buf@.subrange(32, 36))
                && r.mr_token.access == spec_u32_from_le_bytes(buf@.subrange(36, 40))),
    {
        let mut bytes = bytes_mut_from_slice(buf);
        KVBlockGetRequestWithRdma::decode(&mut bytes)
    }

    /// The number of bytes [`KVBlockGetRequestWithRdma::encode`] writes.
    pub fn actual_size(&self) -> (n: u64)
        ensures
            n == self.wire().len(),
            n == GET_REQUEST_WIRE_LEN,
    {
        proof {
            lemma_u64_bytes_len(self.block_size);
            lemma_u64_bytes_len(self.kv_cache_id);
            lemma_mr_token_round_trip(self.mr_token, Seq::empty());
        }
        let block_size_len = usize_to_u64(u64_size());
        let kv_cache_id_len = usize_to_u64(u64_size());
        overflow_add_u64(overflow_add_u64(block_size_len, kv_cache_id_len), self.mr_token.actual_size())
    }
}

/// The layout of a request: its bytes are the block size, the cache id,
/// the token's address and length as little-endian `u64`s, then the
/// token's remote key and access flags as little-endian `u32`s; and reading
/// any bytes as a request takes its fields from those places.
pub proof fn lemma_get_request_layout(r: KVBlockGetRequestWithRdma, b: Seq<u8>)
    ensures
        r.wire() == spec_u64_to_le_bytes(r.block_size) + spec_u64_to_le_bytes(r.kv_cache_id)
                + spec_u64_to_le_bytes(r.mr_token.addr) + spec_u64_to_le_bytes(r.mr_token.len)
                + spec_u32_to_le_bytes(r.mr_token.rkey) + spec_u32_to_le_bytes(r.mr_token.access),
        b.len() >= GET_REQUEST_WIRE_LEN ==> {
            let p = KVBlockGetRequestWithRdma::parse(b);
            p.block_size == spec_u64_from_le_bytes(b.subrange(0, 8))
            && p.kv_cache_id == spec_u64_from_le_bytes(b.subrange(8, 16))
            && p.mr_token.addr == spec_u64_from_le_bytes(b.subrange(16, 24))
            && p.mr_token.len == spec_u64_from_le_bytes(b.subrange(24, 32))
            && p.mr_token.rkey == spec_u32_from_le_bytes(b.subrange(32, 36))
            && p.mr_token.access == spec_u32_from_le_bytes(b.subrange(36, 40))
        },
        r.block_size == spec_u64_from_le_bytes(r.wire().subrange(0, 8))
        && r.kv_cache_id == spec_u64_from_le_bytes(r.wire().subrange(8, 16))
        && r.mr_token.addr == spec_u64_from_le_bytes(r.wire().subrange(16, 24))
        && r.mr_token.len == spec_u64_from_le_bytes(r.wire().subrange(24, 32))
        && r.mr_token.rkey == spec_u32_from_le_bytes(r.wire().subrange(32, 36))
        && r.mr_token.access == spec_u32_from_le_bytes(r.wire().subrange(36, 40)),
{
    lemma_get_request_round_trip(r, Seq::empty());
    assert(r.wire() + Seq::<u8>::empty() =~= r.wire());
    assert(r.wire() =~= spec_u64_to_le_bytes(r.block_size) + spec_u64_to_le_bytes(r.kv_cache_id)
                + spec_u64_to_le_bytes(r.mr_token.addr) + spec_u64_to_le_bytes(r.mr_token.len)
                + spec_u32_to_le_bytes(r.mr_token.rkey) + spec_u32_to_le_bytes(r.mr_token.access));
    if b.len() >= GET_REQUEST_WIRE_LEN {
        assert(b.skip(16).subrange(0, 8) =~= b.subrange(16, 24));
        assert(b.skip(16).subrange(8, 16) =~= b.subrange(24, 32));
        assert(b.skip(16).subrange(16, 20) =~= b.subrange(32, 36));
        assert(b.skip(16).subrange(20, 24) =~= b.subrange(36, 40));
    }
    let w = r.wire();
    assert(w.skip(16).subrange(0, 8) =~= w.subrange(16, 24));
    assert(w.skip(16).subrange(8, 16) =~= w.subrange(24, 32));
    assert(w.skip(16).subrange(16, 20) =~= w.subrange(32, 36));
    assert(w.skip(16).subrange(20, 24) =~= w.subrange(36, 40));
}

/// Decoding what [`KVBlockGetRequestWithRdma::encode`] wrote gives the
/// request back and takes exactly its bytes off the front, whatever
/// follows them.
pub proof fn lemma_get_request_round_trip(r: KVBlockGetRequestWithRdma, rest: Seq<u8>)
    ensures
        r.wire().len() == GET_REQUEST_WIRE_LEN,
        KVBlockGetRequestWithRdma::parse(r.wire() + rest) == r,
        (r.wire() + rest).skip(GET_REQUEST_WIRE_LEN as int) == rest,
{
    lemma_mr_token_round_trip(r.mr_token, rest);
    lemma_u64_bytes_len(r.block_size);
    lemma_u64_bytes_len(r.kv_cache_id);
    let w = r.wire() + rest;
    let tail = r.mr_token.wire() + rest;
    let e = Seq::<u8>::empty();
    lemma_u64_read_back(e, r.block_size, u64_bytes(r.kv_cache_id) + tail);
    assert(w =~= e + u64_bytes(r.block_size) + (u64_bytes(r.kv_cache_id) + tail));
    lemma_u64_read_back(u64_bytes(r.block_size), r.kv_cache_id, tail);
    assert(w =~= u64_bytes(r.block_size) + u64_bytes(r.kv_cache_id) + tail);
    assert(w.skip(16) =~= tail);
    assert(w.skip(40) =~= tail.skip(MR_TOKEN_WIRE_LEN as int));
}

/// The response to a get request.
#[derive(Debug, PartialEq, Eq)]
pub struct KVBlockGetResponseWithRdma {
    /// The kv block size.
    pub block_size: u64,
    /// The kv cache id.
    pub kv_cache_id: u64,
    /// The status of the response.
    pub status: StatusCode,
}

impl KVBlockGetResponseWithRdma {
    /// The bytes of the response on the wire: block size and cache id,
    /// little end first, then the status byte.
    pub open spec fn wire(self) -> Seq<u8> {
        u64_bytes(self.block_size) + u64_bytes(self.kv_cache_id) + seq![self.status.code()]
    }

    /// What decoding the first `GET_RESPONSE_WIRE_LEN` bytes of `b` gives:
    /// the response, or nothing when the status byte stands for no status.
    pub open spec fn parse(b: Seq<u8>) -> Option<KVBlockGetResponseWithRdma> {
        match StatusCode::from_code(b[16]) {
            Some(status) => Some(
                KVBlockGetResponseWithRdma {
                    block_size: le_u64_at(b, 0),
                    kv_cache_id: le_u64_at(b, 8),
                    status,
                },
            ),
            None => None,
        }
    }

    /// Appends the response's bytes to `buf`, first making room for them
    /// when the buffer's capacity is below their count.
    pub fn encode(&self, buf: &mut BytesMut)
        requires
            can_grow(*old(buf), GET_RESPONSE_WIRE_LEN as int),
        ensures
            bytes_mut_contents(*final(buf)) == bytes_mut_contents(*old(buf)) + self.wire(),
            bytes_mut_contents(*final(buf)) == bytes_mut_contents(*old(buf)) + spec_u64_to_le_bytes(
                self.block_size,
            ) + spec_u64_to_le_bytes(self.kv_cache_id) + seq![
                match self.status {
                    StatusCode::Success => 0u8,
                    StatusCode::NotFound => 1u8,
                    StatusCode::InternalError => 2u8,
                    StatusCode::VersionMismatch => 3u8,
                },
            ],
    {
        proof {
            lemma_u64_bytes_len(self.block_size);
            lemma_u64_bytes_len(self.kv_cache_id);
        }
        let ghost start = bytes_mut_contents(*buf);
        if buf_capacity(buf) < 17 {
            buf_reserve(buf, 17);
        }
        buf_put_u64_le(buf, self.block_size);
        buf_put_u64_le(buf, self.kv_cache_id);
        let code: u8 = match self.status {
            StatusCode::Success => 0,
            StatusCode::NotFound => 1,
            StatusCode::InternalError => 2,
            StatusCode::VersionMismatch => 3,
        };
        buf_put_u8(buf, code);
        assert(bytes_mut_contents(*buf) =~= start + self.wire());
    }

    /// Takes a get response off the front of `buf`. With fewer than
    /// `GET_RESPONSE_WIRE_LEN` bytes it reports that and leaves `buf` alone;
    /// otherwise it takes those bytes and reports an invalid status code
    /// when the last of them stands for no status.
    pub fn decode(buf: &mut BytesMut) -> (res: Result<KVBlockGetResponseWithRdma, RpcError>)
        ensures
            ({
                let b = bytes_mut_contents(*old(buf));
                if b.len() < GET_RESPONSE_WIRE_LEN {
                    &&& res matches Err(e) && is_insufficient_bytes(e)
                    &&& bytes_mut_contents(*final(buf)) == b
                } else {
                    &&& bytes_mut_contents(*final(buf)) == b.skip(GET_RESPONSE_WIRE_LEN as int)
                    &&& match KVBlockGetResponseWithRdma::parse(b) {
                        Some(resp) => res == Ok::<KVBlockGetResponseWithRdma, RpcError>(resp),
                        None => res matches Err(e) && is_internal_error(e, "Invalid status code"@),
                    }
                }
            }),
            bytes_mut_contents(*old(buf)).len() >= GET_RESPONSE_WIRE_LEN && bytes_mut_contents(*old(buf))[16] <= 3 ==> (res matches Ok(r)
                && r.block_size == spec_u64_from_le_bytes(bytes_mut_contents(*old(buf)).subrange(0, 8))
                && r.kv_cache_id == spec_u64_from_le_bytes(bytes_mut_contents(*old(buf)).subrange(8, 16))
                && (bytes_mut_contents(*old(buf))[16] == 0 ==> r.status == StatusCode::Success)
                && (bytes_mut_contents(*old(buf))[16] == 1 ==> r.status == StatusCode::NotFound)
                && (bytes_mut_contents(*old(buf))[16] == 2 ==> r.status == StatusCode::InternalError)
                && (bytes_mut_contents(*old(buf))[16] == 3 ==> r.status == StatusCode::VersionMismatch)),
            bytes_mut_contents(*old(buf)).len() >= GET_RESPONSE_WIRE_LEN && bytes_mut_contents(*old(buf))[16] > 3 ==> (res matches Err(e)
                && is_internal_error(e, "Invalid status code"@)),
    {
        if buf_len(buf) < 17 {
            return Err(insufficient_bytes());
        }
        let ghost b = bytes_mut_contents(*buf);
        let block_size = buf_get_u64_le(buf);
        let kv_cache_id = buf_get_u64_le(buf);
        let code = buf_get_u8(buf);
        assert(b.take(8) =~= b.subrange(0, 8));
        assert(b.skip(8).take(8) =~= b.subrange(8, 16));
        assert(b.skip(8).skip(8)[0] == b[16]);
        assert(b.skip(8).skip(8).skip(1) =~= b.skip(17));
        let status = if code == 0 {
            StatusCode::Success
        } else if code == 1 {
            StatusCode::NotFound
        } else if code == 2 {
            StatusCode::InternalError
        } else if code == 3 {
            StatusCode::VersionMismatch
        } else {
            let msg = "Invalid status code";
            return Err(internal_error(msg));
        };
        Ok(KVBlockGetResponseWithRdma { block_size, kv_cache_id, status })
    }
}

/// The layout of a response: its bytes are the block size and the cache
/// id as little-endian `u64`s, then the status byte, 0 to 3 for success,
/// not found, internal error and version mismatch; and reading any bytes as
/// a response takes its fields from those places.
pub proof fn lemma_get_response_layout(r: KVBlockGetResponseWithRdma, b: Seq<u8>)
    ensures
        r.wire() == spec_u64_to_le_bytes(r.block_size) + spec_u64_to_le_bytes(r.kv_cache_id)
            + seq![
                match r.status {
                    StatusCode::Success => 0u8,
                    StatusCode::NotFound => 1u8,
                    StatusCode::InternalError => 2u8,
                    StatusCode::VersionMismatch => 3u8,
                },
            ],
        b.len() >= GET_RESPONSE_WIRE_LEN && b[16] <= 3 ==> {
            let p = KVBlockGetResponseWithRdma::parse(b);
            &&& p is Some
            &&& p.unwrap().block_size == spec_u64_from_le_bytes(b.subrange(0, 8))
            &&& p.unwrap().kv_cache_id == spec_u64_from_le_bytes(b.subrange(8, 16))
            &&& b[16] == 0 ==> p.unwrap().status == StatusCode::Success
            &&& b[16] == 1 ==> p.unwrap().status == StatusCode::NotFound
            &&& b[16] == 2 ==> p.unwrap().status == StatusCode::InternalError
            &&& b[16] == 3 ==> p.unwrap().status == StatusCode::VersionMismatch
        },
        b.len() >= GET_RESPONSE_WIRE_LEN && b[16] > 3 ==> KVBlockGetResponseWithRdma::parse(b) is None,
        r.block_size == spec_u64_from_le_bytes(r.wire().subrange(0, 8)),
        r.kv_cache_id == spec_u64_from_le_bytes(r.wire().subrange(8, 16)),
{
    lemma_get_response_round_trip(r, Seq::empty());
    assert(r.wire() + Seq::<u8>::empty() =~= r.wire());
}

/// Decoding what [`KVBlockGetResponseWithRdma::encode`] wrote gives the
/// response back and takes exactly its bytes off the front, whatever
/// follows them.
pub proof fn lemma_get_response_round_trip(r: KVBlockGetResponseWithRdma, rest: Seq<u8>)
    ensures
        r.wire().len() == GET_RESPONSE_WIRE_LEN,
        KVBlockGetResponseWithRdma::parse(r.wire() + rest) == Some(r),
        (r.wire() + rest).skip(GET_RESPONSE_WIRE_LEN as int) == rest,
{
    lemma_u64_bytes_len(r.block_size);
    lemma_u64_bytes_len(r.kv_cache_id);
    let w = r.wire() + rest;
    let tail = seq![r.status.code()] + rest;
    let e = Seq::<u8>::empty();
    lemma_u64_read_back(e, r.block_size, u64_bytes(r.kv_cache_id) + tail);
    assert(w =~= e + u64_bytes(r.block_size) + (u64_bytes(r.kv_cache_id) + tail));
    lemma_u64_read_back(u64_bytes(r.block_size), r.kv_cache_id, tail);
    assert(w =~= u64_bytes(r.block_size) + u64_bytes(r.kv_cache_id) + tail);
    assert(w[16] == r.status.code());
    assert(w.skip(17) =~= rest);
}

} // verus!
