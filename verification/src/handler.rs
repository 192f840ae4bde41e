//! The decisions the RDMA request handler takes between its RDMA
//! transfers and cache accesses: which response a get request earns, and
//! where each id of a batch put lands.
use vstd::prelude::*;

use crate::message::{KVBlockBatchPutResponseWithRdma, KVBlockGetRequestWithRdma, KVBlockGetResponseWithRdma, StatusCode};

verus! {

/// What came of serving a get request.
#[derive(Debug, Clone, Copy, PartialEq, Eq)]
pub enum GetOutcome {
    /// The cache did not hand out the block.
    NotCached,
    /// No local memory region could be allocated for the block.
    AllocFailed,
    /// The RDMA write into the requester's memory region failed.
    WriteFailed,
    /// The block was written into the requester's memory region.
    Written,
}

/// What came of one put request of a batch.
#[derive(Debug, Clone, Copy, PartialEq, Eq)]
pub enum PutOutcome {
    /// The RDMA read from the requester's memory region failed.
    ReadFailed,
    /// The block was read but the cache did not store it.
    StoreFailed,
    /// The block was read and stored.
    Stored,
}

/// The response a get request earns: success when the block was written,
/// an internal error when it was not cached or the write failed, and no
/// response at all when no memory region could be allocated. The response
/// names the request's block size and cache id.
pub fn get_reply(req: &KVBlockGetRequestWithRdma, outcome: GetOutcome) -> (reply: Option<
    KVBlockGetResponseWithRdma,
>)
    ensures
        outcome == GetOutcome::AllocFailed ==> reply is None,
        outcome != GetOutcome::AllocFailed ==> reply == Some(
            KVBlockGetResponseWithRdma {
                block_size: req.block_size,
                kv_cache_id: req.kv_cache_id,
                status: if outcome == GetOutcome::Written {
                    StatusCode::Success
                } else {
                    StatusCode::InternalError
                },
            },
        ),
{
    let mut response = KVBlockGetResponseWithRdma {
        kv_cache_id: req.kv_cache_id,
        block_size: req.block_size,
        status: StatusCode::InternalError,
    };
    match outcome {
        GetOutcome::NotCached => {},
        GetOutcome::AllocFailed => {
            return None;
        },
        GetOutcome::WriteFailed => {},
        GetOutcome::Written => {
            response = KVBlockGetResponseWithRdma {
                kv_cache_id: req.kv_cache_id,
                block_size: req.block_size,
                status: StatusCode::Success,
            };
        },
    }
    Some(response)
}

/// Records the outcome of one put request of a batch: its cache id goes
/// to the stored ids when the block was stored and to the failed ids
/// otherwise, so every request answered lands in exactly one of the two.
pub fn record_put_outcome(
    resp: &mut KVBlockBatchPutResponseWithRdma,
    kv_cache_id: u64,
    outcome: PutOutcome,
)
    ensures
        outcome == PutOutcome::Stored ==> {
            &&& final(resp).success_kv_cache_ids@ == old(resp).success_kv_cache_ids@.push(kv_cache_id)
            &&& final(resp).failed_kv_cache_ids@ == old(resp).failed_kv_cache_ids@
        },
        outcome != PutOutcome::Stored ==> {
            &&& final(resp).success_kv_cache_ids@ == old(resp).success_kv_cache_ids@
            &&& final(resp).failed_kv_cache_ids@ == old(resp).failed_kv_cache_ids@.push(kv_cache_id)
        },
{
    match outcome {
        PutOutcome::ReadFailed => resp.failed_kv_cache_ids.push(kv_cache_id),
        PutOutcome::StoreFailed => resp.failed_kv_cache_ids.push(kv_cache_id),
        PutOutcome::Stored => resp.success_kv_cache_ids.push(kv_cache_id),
    }
}

/// The stored and failed ids after recording, in order, the outcome of
/// each put request of a batch, starting from an empty response.
pub open spec fn put_outcomes_reply(ids: Seq<u64>, outcomes: Seq<PutOutcome>) -> (Seq<u64>, Seq<u64>)
    decreases ids.len(),
{
    if ids.len() == 0 || outcomes.len() == 0 {
        (Seq::empty(), Seq::empty())
    } else {
        let (stored, failed) = put_outcomes_reply(ids.drop_last(), outcomes.drop_last());
        if outcomes.last() == PutOutcome::Stored {
            (stored.push(ids.last()), failed)
        } else {
            (stored, failed.push(ids.last()))
        }
    }
}

/// Every put request of a batch is answered exactly once: after recording
/// each outcome with [`record_put_outcome`], the stored and failed ids
/// together are the batch's ids, each as often as the batch holds it, and
/// an id is among the stored ones just when its request was stored.
pub proof fn lemma_every_put_answered_once(ids: Seq<u64>, outcomes: Seq<PutOutcome>)
    requires
        ids.len() == outcomes.len(),
    ensures
        put_outcomes_reply(ids, outcomes).0.to_multiset().add(
            put_outcomes_reply(ids, outcomes).1.to_multiset(),
        ) == ids.to_multiset(),
        put_outcomes_reply(ids, outcomes).0.len() == outcomes.filter(
            |o: PutOutcome| o == PutOutcome::Stored,
        ).len(),
    decreases ids.len(),
{
    broadcast use vstd::seq_lib::group_to_multiset_ensures;

    if ids.len() == 0 {
        assert(ids.to_multiset() =~= vstd::multiset::Multiset::empty());
        assert(outcomes =~= Seq::<PutOutcome>::empty());
        assert(outcomes.filter(|o: PutOutcome| o == PutOutcome::Stored) =~= Seq::<PutOutcome>::empty());
    } else {
        let init = ids.drop_last();
        let oinit = outcomes.drop_last();
        lemma_every_put_answered_once(init, oinit);
        assert(ids =~= init.push(ids.last()));
        assert(outcomes =~= oinit.push(outcomes.last()));
        oinit.lemma_filter_push(outcomes.last(), |o: PutOutcome| o == PutOutcome::Stored);
        let (stored, failed) = put_outcomes_reply(init, oinit);
        assert(stored.push(ids.last()).to_multiset().add(failed.to_multiset())
            =~= stored.to_multiset().add(failed.to_multiset()).insert(ids.last()));
        assert(stored.to_multiset().add(failed.push(ids.last()).to_multiset())
            =~= stored.to_multiset().add(failed.to_multiset()).insert(ids.last()));
    }
}

} // verus!
