//! The request to store several blocks by RDMA, and its response.
use vstd::prelude::*;
use vstd::bytes::{lemma_auto_spec_u64_to_from_le_bytes, spec_u32_from_le_bytes, spec_u32_to_le_bytes, spec_u64_from_le_bytes, spec_u64_to_le_bytes};
use bytes::BytesMut;

use super::put_request::{
    lemma_put_request_layout, lemma_put_request_round_trip, KVBlockPutRequestWithRdma, PUT_REQUEST_WIRE_LEN,
};
use crate::buffer::{
    buf_get_u64_le, buf_len, buf_put_u64_le, bytes_mut_contents, can_grow, slice_get_u64_le,
};
use vstd::slice::slice_subrange;

use crate::error::{insufficient_bytes, is_insufficient_bytes, RpcError};
use crate::size::{overflow_add_u64, u64_size, usize_to_u64};
use crate::wire::{lemma_skip_subrange, lemma_u64_bytes_len, lemma_u64_read_back, le_u64_at, u64_bytes};

verus! {

/// The bytes of a run of put requests, one after another.
pub open spec fn put_requests_wire(reqs: Seq<KVBlockPutRequestWithRdma>) -> Seq<u8>
    decreases reqs.len(),
{
    if reqs.len() == 0 {
        Seq::empty()
    } else {
        put_requests_wire(reqs.drop_last()) + reqs.last().wire()
    }
}

/// A run of put requests takes `PUT_REQUEST_WIRE_LEN` bytes for each.
pub proof fn lemma_put_requests_wire_len(reqs: Seq<KVBlockPutRequestWithRdma>)
    ensures
        put_requests_wire(reqs).len() == PUT_REQUEST_WIRE_LEN * reqs.len(),
    decreases reqs.len(),
{
    if reqs.len() > 0 {
        lemma_put_requests_wire_len(reqs.drop_last());
        lemma_put_request_round_trip(reqs.last(), Seq::empty());
    }
}

/// Each put request of a run is read back from its own place, whatever
/// bytes stand before and after the run.
pub proof fn lemma_put_requests_read_back(
    pre: Seq<u8>,
    reqs: Seq<KVBlockPutRequestWithRdma>,
    post: Seq<u8>,
)
    ensures
        put_requests_wire(reqs).len() == PUT_REQUEST_WIRE_LEN * reqs.len(),
        forall|k: int|
            0 <= k < reqs.len() ==> #[trigger] KVBlockPutRequestWithRdma::parse(
                (pre + put_requests_wire(reqs) + post).skip(pre.len() + PUT_REQUEST_WIRE_LEN * k),
            ) == reqs[k],
    decreases reqs.len(),
{
    lemma_put_requests_wire_len(reqs);
    if reqs.len() > 0 {
        let init = reqs.drop_last();
        let last = reqs.last();
        let post2 = last.wire() + post;
        lemma_put_requests_read_back(pre, init, post2);
        lemma_put_requests_wire_len(init);
        lemma_put_request_round_trip(last, post);
        let b = pre + put_requests_wire(reqs) + post;
        assert(b =~= pre + put_requests_wire(init) + post2);
        assert forall|k: int| 0 <= k < reqs.len() implies #[trigger] KVBlockPutRequestWithRdma::parse(
            b.skip(pre.len() + PUT_REQUEST_WIRE_LEN * k),
        ) == reqs[k] by {
            if k < init.len() {
                assert(init[k] == reqs[k]);
            } else {
                assert(b.skip(pre.len() + PUT_REQUEST_WIRE_LEN * k) =~= post2);
            }
        }
    }
}

/// The bytes of a run of put requests hold request `i` at offset `40 i`.
pub proof fn lemma_put_requests_wire_at(reqs: Seq<KVBlockPutRequestWithRdma>, i: int)
    requires
        0 <= i < reqs.len(),
    ensures
        put_requests_wire(reqs).subrange(
            PUT_REQUEST_WIRE_LEN * i,
            PUT_REQUEST_WIRE_LEN * i + PUT_REQUEST_WIRE_LEN,
        ) == reqs[i].wire(),
    decreases reqs.len(),
{
    let init = reqs.drop_last();
    lemma_put_requests_wire_len(init);
    lemma_put_request_round_trip(reqs.last(), Seq::empty());
    if i < init.len() {
        lemma_put_requests_wire_at(init, i);
        lemma_put_requests_wire_len(init);
        assert(put_requests_wire(reqs).subrange(
            PUT_REQUEST_WIRE_LEN * i,
            PUT_REQUEST_WIRE_LEN * i + PUT_REQUEST_WIRE_LEN,
        ) =~= put_requests_wire(init).subrange(
            PUT_REQUEST_WIRE_LEN * i,
            PUT_REQUEST_WIRE_LEN * i + PUT_REQUEST_WIRE_LEN,
        ));
        assert(init[i] == reqs[i]);
    } else {
        assert(put_requests_wire(reqs).subrange(
            PUT_REQUEST_WIRE_LEN * i,
            PUT_REQUEST_WIRE_LEN * i + PUT_REQUEST_WIRE_LEN,
        ) =~= reqs.last().wire());
    }
}

/// The bytes of a run of ids, each little end first.
pub open spec fn ids_wire(ids: Seq<u64>) -> Seq<u8>
    decreases ids.len(),
{
    if ids.len() == 0 {
        Seq::empty()
    } else {
        ids_wire(ids.drop_last()) + u64_bytes(ids.last())
    }
}

/// Each id of a run is read back from its own place, whatever bytes stand
/// before and after the run, which takes eight bytes for each id.
pub proof fn lemma_ids_read_back(pre: Seq<u8>, ids: Seq<u64>, post: Seq<u8>)
    ensures
        ids_wire(ids).len() == 8 * ids.len(),
        forall|k: int|
            0 <= k < ids.len() ==> #[trigger] le_u64_at(pre + ids_wire(ids) + post, pre.len() + 8 * k)
                == ids[k],
    decreases ids.len(),
{
    if ids.len() > 0 {
        let init = ids.drop_last();
        let last = ids.last();
        let post2 = u64_bytes(last) + post;
        lemma_ids_read_back(pre, init, post2);
        lemma_u64_read_back(pre + ids_wire(init), last, post);
        let b = pre + ids_wire(ids) + post;
        assert(b =~= pre + ids_wire(init) + post2);
        assert(b =~= pre + ids_wire(init) + u64_bytes(last) + post);
        assert forall|k: int| 0 <= k < ids.len() implies #[trigger] le_u64_at(b, pre.len() + 8 * k)
            == ids[k] by {
            if k < init.len() {
                assert(init[k] == ids[k]);
            }
        }
    }
}

/// The eight bytes of id `k` in a run stand at offset `8 k` of the run,
/// whatever bytes stand before and after it.
pub proof fn lemma_ids_bytes_at(pre: Seq<u8>, ids: Seq<u64>, post: Seq<u8>)
    ensures
        forall|k: int|
            0 <= k < ids.len() ==> (pre + ids_wire(ids) + post).subrange(
                pre.len() + 8 * k,
                pre.len() + 8 * k + 8,
            ) == spec_u64_to_le_bytes(#[trigger] ids[k]),
{
    lemma_ids_read_back(pre, ids, post);
    lemma_auto_spec_u64_to_from_le_bytes();
    let b = pre + ids_wire(ids) + post;
    assert forall|k: int| 0 <= k < ids.len() implies b.subrange(pre.len() + 8 * k, pre.len() + 8 * k + 8)
        == spec_u64_to_le_bytes(#[trigger] ids[k]) by {
        assert(le_u64_at(b, pre.len() + 8 * k) == ids[k]);
        assert(8 * k + 8 <= 8 * ids.len()) by (nonlinear_arith)
            requires
                k < ids.len(),
        ;
    }
}

/// The number of bytes the count of a batch takes on the wire.
pub const BATCH_COUNT_WIRE_LEN: usize = 8;

/// The request to put several kv blocks.
#[derive(Debug, Clone, PartialEq, Eq)]
pub struct KVBlockBatchPutRequestWithRdma {
    /// The put requests of the batch.
    pub put_requests: Vec<KVBlockPutRequestWithRdma>,
}

/// What decoding a batch put request from `b` gives: the put requests,
/// or nothing when the bytes end before the count or before the last of
/// the requests it counts. The count comes first, then the requests one
/// after another.
pub open spec fn parse_batch_put_request(b: Seq<u8>) -> Option<Seq<KVBlockPutRequestWithRdma>> {
    if b.len() < BATCH_COUNT_WIRE_LEN {
        None
    } else {
        let n = le_u64_at(b, 0);
        if b.len() < BATCH_COUNT_WIRE_LEN + PUT_REQUEST_WIRE_LEN * n {
            None
        } else {
            Some(
                Seq::new(
                    n as nat,
                    |i: int|
                        KVBlockPutRequestWithRdma::parse(
                            b.skip(BATCH_COUNT_WIRE_LEN + PUT_REQUEST_WIRE_LEN * i),
                        ),
                ),
            )
        }
    }
}

/// Reading a batch put request from `b` whose count `c` the bytes can
/// hold gives `c` requests, request `i` taken from the forty bytes at
/// offset `8 + 40 i`: block size, cache id, token address and length as
/// little-endian `u64`s, token key and access flags as little-endian `u32`s.
pub proof fn lemma_batch_put_request_fields(b: Seq<u8>)
    requires
        b.len() >= 8,
        b.len() >= 8 + 40 * spec_u64_from_le_bytes(b.subrange(0, 8)),
    ensures
        parse_batch_put_request(b) is Some,
        parse_batch_put_request(b).unwrap().len() == spec_u64_from_le_bytes(b.subrange(0, 8)),
        forall|i: int|
            #![trigger parse_batch_put_request(b).unwrap()[i]]
            0 <= i < parse_batch_put_request(b).unwrap().len() ==> {
                let reqs = parse_batch_put_request(b).unwrap();
                let at = 8 + 40 * i;
                reqs[i].block_size == spec_u64_from_le_bytes(b.subrange(at, at + 8))
                && reqs[i].kv_cache_id == spec_u64_from_le_bytes(b.subrange(at + 8, at + 16))
                && reqs[i].mr_token.addr == spec_u64_from_le_bytes(b.subrange(at + 16, at + 24))
                && reqs[i].mr_token.len == spec_u64_from_le_bytes(b.subrange(at + 24, at + 32))
                && reqs[i].mr_token.rkey == spec_u32_from_le_bytes(b.subrange(at + 32, at + 36))
                && reqs[i].mr_token.access == spec_u32_from_le_bytes(b.subrange(at + 36, at + 40))
            },
{
    let reqs = parse_batch_put_request(b).unwrap();
    assert forall|i: int| #![trigger reqs[i]] 0 <= i < reqs.len() implies {
        let at = 8 + 40 * i;
        reqs[i].block_size == spec_u64_from_le_bytes(b.subrange(at, at + 8))
            && reqs[i].kv_cache_id == spec_u64_from_le_bytes(b.subrange(at + 8, at + 16))
            && reqs[i].mr_token.addr == spec_u64_from_le_bytes(b.subrange(at + 16, at + 24))
            && reqs[i].mr_token.len == spec_u64_from_le_bytes(b.subrange(at + 24, at + 32))
            && reqs[i].mr_token.rkey == spec_u32_from_le_bytes(b.subrange(at + 32, at + 36))
            && reqs[i].mr_token.access == spec_u32_from_le_bytes(b.subrange(at + 36, at + 40))
    } by {
        let at = 8 + 40 * i;
        assert(40 * i + 40 <= 40 * reqs.len()) by (nonlinear_arith)
            requires
                i < reqs.len(),
        ;
        lemma_put_request_layout(reqs[i], b.skip(at));
        lemma_skip_subrange(b, at, 0, 8);
        lemma_skip_subrange(b, at, 8, 16);
        lemma_skip_subrange(b, at, 16, 24);
        lemma_skip_subrange(b, at, 24, 32);
        lemma_skip_subrange(b, at, 32, 36);
        lemma_skip_subrange(b, at, 36, 40);
    }
}

impl KVBlockBatchPutRequestWithRdma {
    /// The bytes of the batch on the wire: the count, little end first,
    /// then each put request in order.
    pub open spec fn wire(self) -> Seq<u8> {
        u64_bytes(self.put_requests.len() as u64) + put_requests_wire(self.put_requests@)
    }

    /// Appends the batch's bytes to `buf`.
    pub fn encode(&self, buf: &mut BytesMut)
        requires
            can_grow(
                *old(buf),
                BATCH_COUNT_WIRE_LEN + PUT_REQUEST_WIRE_LEN * self.put_requests@.len(),
            ),
        ensures
            bytes_mut_contents(*final(buf)) == bytes_mut_contents(*old(buf)) + self.wire(),
            ({
                let o = bytes_mut_contents(*old(buf));
                let f = bytes_mut_contents(*final(buf));
                &&& f.len() == o.len() + 8 + 40 * self.put_requests@.len()
                &&& f.subrange(0, o.len() as int) == o
                &&& f.subrange(o.len() as int, o.len() + 8int) == spec_u64_to_le_bytes(
                    self.put_requests.len() as u64,
                )
                &&& forall|i: int|
                    0 <= i < self.put_requests@.len() ==> {
                        let at = o.len() + 8 + 40 * i;
                        f.subrange(at, at + 40) == spec_u64_to_le_bytes((#[trigger] self.put_requests@[i]).block_size) + spec_u64_to_le_bytes(self.put_requests@[i].kv_cache_id)
                + spec_u64_to_le_bytes(self.put_requests@[i].mr_token.addr) + spec_u64_to_le_bytes(self.put_requests@[i].mr_token.len)
                + spec_u32_to_le_bytes(self.put_requests@[i].mr_token.rkey) + spec_u32_to_le_bytes(self.put_requests@[i].mr_token.access)
                    }
            }),
    {
        let ghost start = bytes_mut_contents(*buf);
        let ghost reqs = self.put_requests@;
        let batch_size = usize_to_u64(self.put_requests.len());
        proof {
            lemma_u64_bytes_len(batch_size);
        }
        buf_put_u64_le(buf, batch_size);
        let mut i: usize = 0;
        assert(reqs.take(0) =~= Seq::<KVBlockPutRequestWithRdma>::empty());
        while i < self.put_requests.len()
            invariant
                0 <= i <= reqs.len(),
                reqs == self.put_requests@,
                start.len() + BATCH_COUNT_WIRE_LEN + PUT_REQUEST_WIRE_LEN * reqs.len() <= isize::MAX,
                bytes_mut_contents(*buf) == start + u64_bytes(batch_size) + put_requests_wire(
                    reqs.take(i as int),
                ),
                batch_size == reqs.len(),
                u64_bytes(batch_size).len() == 8,
            decreases reqs.len() - i,
        {
            proof {
                lemma_put_requests_wire_len(reqs.take(i as int));
                assert(PUT_REQUEST_WIRE_LEN * i + PUT_REQUEST_WIRE_LEN <= PUT_REQUEST_WIRE_LEN
                    * reqs.len()) by (nonlinear_arith)
                    requires
                        i < reqs.len(),
                ;
            }
            self.put_requests[i].encode(buf);
            proof {
                assert(reqs.take(i + 1).drop_last() =~= reqs.take(i as int));
                assert(reqs.take(i + 1).last() == reqs[i as int]);
            }
            i = i + 1;
        }
        assert(reqs.take(i as int) =~= reqs);
        assert(bytes_mut_contents(*buf) =~= start + self.wire());
        proof {
            let f = bytes_mut_contents(*buf);
            let hdr = u64_bytes(batch_size);
            let body = put_requests_wire(reqs);
            lemma_put_requests_wire_len(reqs);
            assert(f =~= start + hdr + body);
            assert(f.subrange(0, start.len() as int) =~= start);
            assert(f.subrange(start.len() as int, start.len() + 8int) =~= hdr);
            assert forall|k: int| #![trigger reqs[k]] 0 <= k < reqs.len() implies {
                let at = start.len() + 8 + 40 * k;
                f.subrange(at, at + 40) == spec_u64_to_le_bytes(reqs[k].block_size) + spec_u64_to_le_bytes(reqs[k].kv_cache_id)
                + spec_u64_to_le_bytes(reqs[k].mr_token.addr) + spec_u64_to_le_bytes(reqs[k].mr_token.len)
                + spec_u32_to_le_bytes(reqs[k].mr_token.rkey) + spec_u32_to_le_bytes(reqs[k].mr_token.access)
            } by {
                let at = start.len() + 8 + 40 * k;
                assert(40 * k + 40 <= 40 * reqs.len()) by (nonlinear_arith)
                    requires
                        k < reqs.len(),
                ;
                lemma_put_requests_wire_at(reqs, k);
                lemma_put_request_layout(reqs[k], Seq::empty());
                assert(f.subrange(at, at + 40) =~= body.subrange(40 * k, 40 * k + 40));
            }
        }
    }

    /// Reads a batch put request from the front of a byte slice: the count,
    /// then that many put requests one after another. It reports
    /// insufficient bytes when the bytes end before the count or before the
    /// last request it counts.
    pub fn decode_u8_buf(buf: &[u8]) -> (res: Result<KVBlockBatchPutRequestWithRdma, RpcError>)
        ensures
            match parse_batch_put_request(buf@) {
                Some(reqs) => res matches Ok(batch) && batch.put_requests@ == reqs,
                None => res matches Err(e) && is_insufficient_bytes(e),
            },
            buf@.len() < 8 ==> (res matches Err(e) && is_insufficient_bytes(e)),
            buf@.len() >= 8 && buf@.len() < 8 + 40 * spec_u64_from_le_bytes(buf@.subrange(0, 8)) ==> (
            res matches Err(e) && is_insufficient_bytes(e)),
            buf@.len() >= 8 && buf@.len() >= 8 + 40 * spec_u64_from_le_bytes(buf@.subrange(0, 8)) ==> (
            res matches Ok(batch) && batch.put_requests@.len() == spec_u64_from_le_bytes(
                buf@.subrange(0, 8),
            ) && forall|i: int|
                0 <= i < batch.put_requests@.len() ==> (#[trigger] batch.put_requests@[i]).block_size == spec_u64_from_le_bytes(buf@.subrange(8 + 40 * i, 8 + 40 * i + 8))
                        && batch.put_requests@[i].kv_cache_id == spec_u64_from_le_bytes(buf@.subrange(8 + 40 * i + 8, 8 + 40 * i + 16))
                        && batch.put_requests@[i].mr_token.addr == spec_u64_from_le_bytes(buf@.subrange(8 + 40 * i + 16, 8 + 40 * i + 24))
                        && batch.put_requests@[i].mr_token.len == spec_u64_from_le_bytes(buf@.subrange(8 + 40 * i + 24, 8 + 40 * i + 32))
                        && batch.put_requests@[i].mr_token.rkey == spec_u32_from_le_bytes(buf@.subrange(8 + 40 * i + 32, 8 + 40 * i + 36))
                        && batch.put_requests@[i].mr_token.access == spec_u32_from_le_bytes(buf@.subrange(8 + 40 * i + 36, 8 + 40 * i + 40))),
    {
        let ghost b = buf@;
        let mut rest = buf;
        if rest.len() < 8 {
            return Err(insufficient_bytes());
        }
        let batch_size = slice_get_u64_le(&mut rest);
        assert(b.take(8) =~= b.subrange(0, 8));
        let mut put_requests: Vec<KVBlockPutRequestWithRdma> = Vec::new();
        let mut i: u64 = 0;
        while i < batch_size
            invariant
                0 <= i <= batch_size,
                batch_size == le_u64_at(b, 0),
                b == buf@,
                BATCH_COUNT_WIRE_LEN + PUT_REQUEST_WIRE_LEN * i <= b.len(),
                rest@ == b.skip(BATCH_COUNT_WIRE_LEN + PUT_REQUEST_WIRE_LEN * i),
                put_requests@ =~= Seq::new(
                    i as nat,
                    |k: int|
                        KVBlockPutRequestWithRdma::parse(
                            b.skip(BATCH_COUNT_WIRE_LEN + PUT_REQUEST_WIRE_LEN * k),
                        ),
                ),
            decreases batch_size - i,
        {
            let req = match KVBlockPutRequestWithRdma::decode_u8_buf(rest) {
                Ok(req) => req,
                Err(e) => {
                    assert(PUT_REQUEST_WIRE_LEN * i + PUT_REQUEST_WIRE_LEN <= PUT_REQUEST_WIRE_LEN
                        * batch_size) by (nonlinear_arith)
                        requires
                            i < batch_size,
                    ;
                    return Err(e);
                },
            };
            put_requests.push(req);
            let ghost at = BATCH_COUNT_WIRE_LEN + PUT_REQUEST_WIRE_LEN * i;
            rest = slice_subrange(rest, 40, rest.len());
            assert(rest@ =~= b.skip(at + PUT_REQUEST_WIRE_LEN));
            i = i + 1;
        }
        proof {
            lemma_batch_put_request_fields(b);
        }
        Ok(KVBlockBatchPutRequestWithRdma { put_requests })
    }

    /// The number of bytes [`KVBlockBatchPutRequestWithRdma::encode`]
    /// writes.
    pub fn actual_size(&self) -> (n: u64)
        requires
            BATCH_COUNT_WIRE_LEN + PUT_REQUEST_WIRE_LEN * self.put_requests@.len() <= u64::MAX,
        ensures
            n == self.wire().len(),
            n == BATCH_COUNT_WIRE_LEN + PUT_REQUEST_WIRE_LEN * self.put_requests@.len(),
    {
        let ghost reqs = self.put_requests@;
        let mut size = usize_to_u64(u64_size());
        let mut i: usize = 0;
        while i < self.put_requests.len()
            invariant
                0 <= i <= reqs.len(),
                reqs == self.put_requests@,
                BATCH_COUNT_WIRE_LEN + PUT_REQUEST_WIRE_LEN * reqs.len() <= u64::MAX,
                size == BATCH_COUNT_WIRE_LEN + PUT_REQUEST_WIRE_LEN * i,
            decreases reqs.len() - i,
        {
            let req_size = self.put_requests[i].actual_size();
            assert(PUT_REQUEST_WIRE_LEN * i + PUT_REQUEST_WIRE_LEN <= PUT_REQUEST_WIRE_LEN
                * reqs.len()) by (nonlinear_arith)
                requires
                    i < reqs.len(),
            ;
            size = overflow_add_u64(size, req_size);
            i = i + 1;
        }
        proof {
            lemma_put_requests_wire_len(reqs);
            lemma_u64_bytes_len(self.put_requests.len() as u64);
        }
        size
    }
}

/// The layout of a batch put request: the number of requests as a
/// little-endian `u64`, then each request's forty bytes in order (block
/// size, cache id, token address and length as little-endian `u64`s, token
/// key and access flags as little-endian `u32`s).
pub proof fn lemma_batch_put_request_layout(r: KVBlockBatchPutRequestWithRdma)
    ensures
        r.wire().len() == 8 + 40 * r.put_requests@.len(),
        r.wire().subrange(0, 8) == spec_u64_to_le_bytes(r.put_requests.len() as u64),
        forall|i: int|
            0 <= i < r.put_requests@.len() ==> r.wire().subrange(8 + 40 * i, 48 + 40 * i)
                == spec_u64_to_le_bytes((#[trigger] r.put_requests@[i]).block_size) + spec_u64_to_le_bytes(r.put_requests@[i].kv_cache_id)
                + spec_u64_to_le_bytes(r.put_requests@[i].mr_token.addr) + spec_u64_to_le_bytes(r.put_requests@[i].mr_token.len)
                + spec_u32_to_le_bytes(r.put_requests@[i].mr_token.rkey) + spec_u32_to_le_bytes(r.put_requests@[i].mr_token.access),
{
    let reqs = r.put_requests@;
    let c = r.put_requests.len() as u64;
    lemma_u64_bytes_len(c);
    lemma_put_requests_wire_len(reqs);
    let w = r.wire();
    assert(w.subrange(0, 8) =~= u64_bytes(c));
    assert forall|i: int| #![trigger reqs[i]] 0 <= i < reqs.len() implies w.subrange(8 + 40 * i, 48 + 40 * i)
        == spec_u64_to_le_bytes(reqs[i].block_size) + spec_u64_to_le_bytes(reqs[i].kv_cache_id)
                + spec_u64_to_le_bytes(reqs[i].mr_token.addr) + spec_u64_to_le_bytes(reqs[i].mr_token.len)
                + spec_u32_to_le_bytes(reqs[i].mr_token.rkey) + spec_u32_to_le_bytes(reqs[i].mr_token.access) by {
        assert(40 * i + 40 <= 40 * reqs.len()) by (nonlinear_arith)
            requires
                i < reqs.len(),
        ;
        lemma_put_requests_wire_at(reqs, i);
        lemma_put_request_layout(reqs[i], Seq::empty());
        assert(w.subrange(8 + 40 * i, 48 + 40 * i) =~= put_requests_wire(reqs).subrange(40 * i, 40 * i + 40));
    }
}

/// Decoding what [`KVBlockBatchPutRequestWithRdma::encode`] wrote gives
/// the batch back, request for request, whatever follows its bytes; the
/// batch takes eight bytes for its count and forty for each request.
pub proof fn lemma_batch_put_request_round_trip(r: KVBlockBatchPutRequestWithRdma, rest: Seq<u8>)
    ensures
        r.wire().len() == BATCH_COUNT_WIRE_LEN + PUT_REQUEST_WIRE_LEN * r.put_requests@.len(),
        parse_batch_put_request(r.wire() + rest) == Some(r.put_requests@),
{
    let reqs = r.put_requests@;
    assert(r.put_requests.len() == reqs.len());
    let n = r.put_requests.len() as u64;
    let b = r.wire() + rest;
    lemma_u64_bytes_len(n);
    lemma_u64_read_back(Seq::empty(), n, put_requests_wire(reqs) + rest);
    assert(b =~= Seq::<u8>::empty() + u64_bytes(n) + (put_requests_wire(reqs) + rest));
    lemma_put_requests_read_back(u64_bytes(n), reqs, rest);
    assert(b =~= u64_bytes(n) + put_requests_wire(reqs) + rest);
    let decoded = Seq::new(
        n as nat,
        |i: int|
            KVBlockPutRequestWithRdma::parse(
                b.skip(BATCH_COUNT_WIRE_LEN + PUT_REQUEST_WIRE_LEN * i),
            ),
    );
    assert forall|k: int| 0 <= k < reqs.len() implies decoded[k] == reqs[k] by {
        assert(KVBlockPutRequestWithRdma::parse(
            (u64_bytes(n) + put_requests_wire(reqs) + rest).skip(8 + PUT_REQUEST_WIRE_LEN * k),
        ) == reqs[k]);
    }
    assert(decoded =~= reqs);
}

/// The response to a batch put request: which ids were stored and which
/// were not.
#[derive(Debug, Clone, PartialEq, Eq)]
pub struct KVBlockBatchPutResponseWithRdma {
    /// The success kv cache ids.
    pub success_kv_cache_ids: Vec<u64>,
    /// The failed kv cache ids.
    pub failed_kv_cache_ids: Vec<u64>,
}

/// `b` is long enough for each count it holds: decoding a batch put
/// response never reads past its end. (A buffer shorter than the two
/// counts is answered with an error and counts as long enough.)
pub open spec fn batch_put_response_fits(b: Seq<u8>) -> bool {
    b.len() < 16 || {
        let n1 = le_u64_at(b, 0);
        &&& 16 + 8 * n1 <= b.len()
        &&& 16 + 8 * n1 + 8 * le_u64_at(b, 8 + 8 * n1) <= b.len()
    }
}

impl KVBlockBatchPutResponseWithRdma {
    /// The bytes of the response on the wire: the count of stored ids and
    /// the ids, then the count of failed ids and the ids, all little end
    /// first.
    pub open spec fn wire(self) -> Seq<u8> {
        u64_bytes(self.success_kv_cache_ids.len() as u64) + ids_wire(self.success_kv_cache_ids@)
            + u64_bytes(self.failed_kv_cache_ids.len() as u64) + ids_wire(
            self.failed_kv_cache_ids@,
        )
    }

    /// Appends the response's bytes to `buf`.
    pub fn encode(&self, buf: &mut BytesMut)
        requires
            can_grow(
                *old(buf),
                (16 + 8 * (self.success_kv_cache_ids@.len() + self.failed_kv_cache_ids@.len())) as int,
            ),
        ensures
            bytes_mut_contents(*final(buf)) == bytes_mut_contents(*old(buf)) + self.wire(),
            ({
                let o = bytes_mut_contents(*old(buf));
                let f = bytes_mut_contents(*final(buf));
                let n1 = self.success_kv_cache_ids@.len();
                let n2 = self.failed_kv_cache_ids@.len();
                &&& f.len() == o.len() + 16 + 8 * (n1 + n2)
                &&& f.subrange(0, o.len() as int) == o
                &&& f.subrange(o.len() as int, o.len() + 8int) == spec_u64_to_le_bytes(
                    self.success_kv_cache_ids.len() as u64,
                )
                &&& forall|k: int|
                    0 <= k < n1 ==> f.subrange(o.len() + 8 + 8 * k, o.len() + 16 + 8 * k)
                        == spec_u64_to_le_bytes(#[trigger] self.success_kv_cache_ids@[k])
                &&& f.subrange((o.len() + 8 + 8 * n1) as int, (o.len() + 16 + 8 * n1) as int) == spec_u64_to_le_bytes(
                    self.failed_kv_cache_ids.len() as u64,
                )
                &&& forall|k: int|
                    0 <= k < n2 ==> f.subrange(o.len() + 16 + 8 * n1 + 8 * k, o.len() + 24 + 8 * n1 + 8 * k)
                        == spec_u64_to_le_bytes(#[trigger] self.failed_kv_cache_ids@[k])
            }),
    {
        let ghost start = bytes_mut_contents(*buf);
        let ghost succ = self.success_kv_cache_ids@;
        let ghost fail = self.failed_kv_cache_ids@;
        proof {
            lemma_ids_read_back(Seq::empty(), succ, Seq::empty());
            lemma_ids_read_back(Seq::empty(), fail, Seq::empty());
            lemma_u64_bytes_len(self.success_kv_cache_ids.len() as u64);
        }
        put_ids(buf, &self.success_kv_cache_ids);
        assert(can_grow(*buf, (8 + 8 * fail.len()) as int));
        put_ids(buf, &self.failed_kv_cache_ids);
        assert(bytes_mut_contents(*buf) =~= start + self.wire());
        proof {
            let f = bytes_mut_contents(*buf);
            let c1 = self.success_kv_cache_ids.len() as u64;
            let c2 = self.failed_kv_cache_ids.len() as u64;
            lemma_u64_bytes_len(c2);
            let pre1 = start + u64_bytes(c1);
            let pre2 = pre1 + ids_wire(succ) + u64_bytes(c2);
            lemma_ids_bytes_at(pre1, succ, u64_bytes(c2) + ids_wire(fail));
            assert(f =~= pre1 + ids_wire(succ) + (u64_bytes(c2) + ids_wire(fail)));
            lemma_ids_bytes_at(pre2, fail, Seq::empty());
            assert(f =~= pre2 + ids_wire(fail) + Seq::<u8>::empty());
            assert(f.subrange(0, start.len() as int) =~= start);
            assert(f.subrange(start.len() as int, start.len() + 8int) =~= u64_bytes(c1));
            assert(f.subrange((start.len() + 8 + 8 * succ.len()) as int, (start.len() + 16 + 8 * succ.len()) as int)
                =~= u64_bytes(c2));
        }
    }

    /// The number of bytes [`KVBlockBatchPutResponseWithRdma::encode`]
    /// writes.
    pub fn actual_size(&self) -> (n: u64)
        requires
            16 + 8 * (self.success_kv_cache_ids@.len() + self.failed_kv_cache_ids@.len())
                <= usize::MAX,
        ensures
            n == self.wire().len(),
            n == 16 + 8 * (self.success_kv_cache_ids@.len() + self.failed_kv_cache_ids@.len()),
    {
        proof {
            lemma_ids_read_back(Seq::empty(), self.success_kv_cache_ids@, Seq::empty());
            lemma_ids_read_back(Seq::empty(), self.failed_kv_cache_ids@, Seq::empty());
            lemma_u64_bytes_len(self.success_kv_cache_ids.len() as u64);
            lemma_u64_bytes_len(self.failed_kv_cache_ids.len() as u64);
        }
        let num_of_elem = self.success_kv_cache_ids.len() + self.failed_kv_cache_ids.len();
        usize_to_u64(u64_size() + u64_size() + u64_size() * num_of_elem)
    }

    /// Takes a batch put response off the front of `buf`. With fewer than
    /// sixteen bytes it reports that and leaves `buf` alone; otherwise it
    /// takes the two counted runs of ids. A buffer shorter than its counts
    /// make the runs is left out by `requires`.
    pub fn decode(buf: &mut BytesMut) -> (res: Result<KVBlockBatchPutResponseWithRdma, RpcError>)
        requires
            batch_put_response_fits(bytes_mut_contents(*old(buf))),
        ensures
            ({
                let b = bytes_mut_contents(*old(buf));
                let n1 = le_u64_at(b, 0);
                let n2 = le_u64_at(b, 8 + 8 * n1);
                if b.len() < 16 {
                    &&& res matches Err(e) && is_insufficient_bytes(e)
                    &&& bytes_mut_contents(*final(buf)) == b
                } else {
                    &&& res matches Ok(resp) && {
                        &&& resp.success_kv_cache_ids@ == Seq::new(
                            n1 as nat,
                            |k: int| le_u64_at(b, 8 + 8 * k),
                        )
                        &&& resp.failed_kv_cache_ids@ == Seq::new(
                            n2 as nat,
                            |k: int| le_u64_at(b, 16 + 8 * n1 + 8 * k),
                        )
                    }
                    &&& bytes_mut_contents(*final(buf)) == b.skip(16 + 8 * n1 + 8 * n2)
                }
            }),
            bytes_mut_contents(*old(buf)).len() >= 16 ==> ({
                let b = bytes_mut_contents(*old(buf));
                let n1 = spec_u64_from_le_bytes(b.subrange(0, 8));
                let n2 = spec_u64_from_le_bytes(b.subrange(8 + 8 * n1, 16 + 8 * n1));
                res matches Ok(resp) && {
                    &&& resp.success_kv_cache_ids@.len() == n1
                    &&& forall|k: int|
                        0 <= k < n1 ==> #[trigger] resp.success_kv_cache_ids@[k]
                            == spec_u64_from_le_bytes(b.subrange(8 + 8 * k, 16 + 8 * k))
                    &&& resp.failed_kv_cache_ids@.len() == n2
                    &&& forall|k: int|
                        0 <= k < n2 ==> #[trigger] resp.failed_kv_cache_ids@[k]
                            == spec_u64_from_le_bytes(b.subrange(16 + 8 * n1 + 8 * k, 24 + 8 * n1 + 8 * k))
                }
            }),
    {
        if buf_len(buf) < 16 {
            return Err(insufficient_bytes());
        }
        let ghost b = bytes_mut_contents(*buf);
        assert(b.skip(0) =~= b);
        let success_kv_cache_ids = get_ids(buf, Ghost(b), Ghost(0));
        let ghost n1 = le_u64_at(b, 0);
        let failed_kv_cache_ids = get_ids(buf, Ghost(b), Ghost(8 + 8 * n1));
        Ok(KVBlockBatchPutResponseWithRdma { success_kv_cache_ids, failed_kv_cache_ids })
    }
}

/// Appends the count of `ids`, then each id, all little end first.
fn put_ids(buf: &mut BytesMut, ids: &Vec<u64>)
    requires
        can_grow(*old(buf), (8 + 8 * ids@.len()) as int),
    ensures
        bytes_mut_contents(*final(buf)) == bytes_mut_contents(*old(buf)) + u64_bytes(
            ids@.len() as u64,
        ) + ids_wire(ids@),
{
    let ghost start = bytes_mut_contents(*buf);
    let batch_size = usize_to_u64(ids.len());
    proof {
        lemma_u64_bytes_len(batch_size);
    }
    buf_put_u64_le(buf, batch_size);
    let mut i: usize = 0;
    assert(ids@.take(0) =~= Seq::<u64>::empty());
    while i < ids.len()
        invariant
            0 <= i <= ids@.len(),
            start.len() + 8 + 8 * ids@.len() <= isize::MAX,
            batch_size == ids@.len(),
            bytes_mut_contents(*buf) == start + u64_bytes(batch_size) + ids_wire(ids@.take(i as int)),
            u64_bytes(batch_size).len() == 8,
        decreases ids@.len() - i,
    {
        proof {
            lemma_ids_read_back(Seq::empty(), ids@.take(i as int), Seq::empty());
        }
        let id = ids[i];
        buf_put_u64_le(buf, id);
        proof {
            assert(ids@.take(i + 1).drop_last() =~= ids@.take(i as int));
        }
        i = i + 1;
    }
    assert(ids@.take(i as int) =~= ids@);
}

/// Takes a count and that many ids off the front of `buf`, which holds
/// the bytes of `b` from offset `at` on.
fn get_ids(buf: &mut BytesMut, Ghost(b): Ghost<Seq<u8>>, Ghost(at): Ghost<int>) -> (ids: Vec<u64>)
    requires
        0 <= at,
        bytes_mut_contents(*old(buf)) == b.skip(at),
        at + 8 <= b.len(),
        at + 8 + 8 * le_u64_at(b, at) <= b.len(),
    ensures
        ids@ == Seq::new(le_u64_at(b, at) as nat, |k: int| le_u64_at(b, at + 8 + 8 * k)),
        bytes_mut_contents(*final(buf)) == b.skip(at + 8 + 8 * le_u64_at(b, at)),
{
    let size = buf_get_u64_le(buf);
    assert(b.skip(at).take(8) =~= b.subrange(at, at + 8));
    assert(b.skip(at).skip(8) =~= b.skip(at + 8));
    let mut ids: Vec<u64> = Vec::new();
    let mut i: u64 = 0;
    while i < size
        invariant
            0 <= at,
            size == le_u64_at(b, at),
            at + 8 + 8 * size <= b.len(),
            0 <= i <= size,
            bytes_mut_contents(*buf) == b.skip(at + 8 + 8 * i),
            ids@ =~= Seq::new(i as nat, |k: int| le_u64_at(b, at + 8 + 8 * k)),
        decreases size - i,
    {
        let ghost p = at + 8 + 8 * i;
        let id = buf_get_u64_le(buf);
        assert(b.skip(p).take(8) =~= b.subrange(p, p + 8));
        assert(b.skip(p).skip(8) =~= b.skip(p + 8));
        ids.push(id);
        i = i + 1;
    }
    ids
}

/// Decoding what [`KVBlockBatchPutResponseWithRdma::encode`] wrote gives
/// both runs of ids back and takes exactly their bytes off the front,
/// whatever follows them; the response takes eight bytes for each count
/// and for each id.
pub proof fn lemma_batch_put_response_round_trip(r: KVBlockBatchPutResponseWithRdma, rest: Seq<u8>)
    ensures
        r.wire().len() == 16 + 8 * (r.success_kv_cache_ids@.len() + r.failed_kv_cache_ids@.len()),
        ({
            let b = r.wire() + rest;
            let n1 = le_u64_at(b, 0);
            let n2 = le_u64_at(b, 8 + 8 * n1);
            &&& b.len() >= 16
            &&& batch_put_response_fits(b)
            &&& Seq::new(n1 as nat, |k: int| le_u64_at(b, 8 + 8 * k)) == r.success_kv_cache_ids@
            &&& Seq::new(n2 as nat, |k: int| le_u64_at(b, 16 + 8 * n1 + 8 * k))
                == r.failed_kv_cache_ids@
            &&& b.skip(16 + 8 * n1 + 8 * n2) == rest
        }),
{
    let succ = r.success_kv_cache_ids@;
    let fail = r.failed_kv_cache_ids@;
    assert(r.success_kv_cache_ids.len() == succ.len());
    assert(r.failed_kv_cache_ids.len() == fail.len());
    let c1 = r.success_kv_cache_ids.len() as u64;
    let c2 = r.failed_kv_cache_ids.len() as u64;
    let b = r.wire() + rest;
    lemma_u64_bytes_len(c1);
    lemma_u64_bytes_len(c2);
    let after1 = ids_wire(succ) + u64_bytes(c2) + ids_wire(fail) + rest;
    assert(b =~= Seq::<u8>::empty() + u64_bytes(c1) + after1);
    lemma_u64_read_back(Seq::empty(), c1, after1);
    lemma_ids_read_back(u64_bytes(c1), succ, u64_bytes(c2) + ids_wire(fail) + rest);
    assert(b =~= u64_bytes(c1) + ids_wire(succ) + (u64_bytes(c2) + ids_wire(fail) + rest));
    let pre2 = u64_bytes(c1) + ids_wire(succ);
    assert(pre2.len() == 8 + 8 * c1);
    lemma_u64_read_back(pre2, c2, ids_wire(fail) + rest);
    assert(b =~= pre2 + u64_bytes(c2) + (ids_wire(fail) + rest));
    let pre3 = pre2 + u64_bytes(c2);
    lemma_ids_read_back(pre3, fail, rest);
    assert(b =~= pre3 + ids_wire(fail) + rest);
    assert(Seq::new(c1 as nat, |k: int| le_u64_at(b, 8 + 8 * k)) =~= succ);
    assert(Seq::new(c2 as nat, |k: int| le_u64_at(b, 16 + 8 * c1 + 8 * k)) =~= fail);
    assert(b.skip(16 + 8 * c1 + 8 * c2) =~= rest);
}

} // verus!
