use kv_rdma_message::handler::{get_reply, record_put_outcome, GetOutcome, PutOutcome};
use kv_rdma_message::message::{
    KVBlockBatchPutResponseWithRdma, KVBlockGetRequestWithRdma, KVBlockGetResponseWithRdma,
    MrToken, StatusCode,
};

fn request() -> KVBlockGetRequestWithRdma {
    KVBlockGetRequestWithRdma {
        block_size: 4096,
        kv_cache_id: 12,
        mr_token: MrToken {
            addr: 1,
            len: 4096,
            rkey: 2,
            access: 3,
        },
    }
}

fn response(status: StatusCode) -> KVBlockGetResponseWithRdma {
    KVBlockGetResponseWithRdma {
        block_size: 4096,
        kv_cache_id: 12,
        status,
    }
}

#[test]
fn get_reply_success_when_written() {
    assert_eq!(
        get_reply(&request(), GetOutcome::Written),
        Some(response(StatusCode::Success))
    );
}

#[test]
fn get_reply_internal_error_when_not_served() {
    assert_eq!(
        get_reply(&request(), GetOutcome::NotCached),
        Some(response(StatusCode::InternalError))
    );
    assert_eq!(
        get_reply(&request(), GetOutcome::WriteFailed),
        Some(response(StatusCode::InternalError))
    );
}

#[test]
fn get_reply_none_when_allocation_fails() {
    assert_eq!(get_reply(&request(), GetOutcome::AllocFailed), None);
}

#[test]
fn batch_put_outcomes_split_ids() {
    let mut resp = KVBlockBatchPutResponseWithRdma {
        success_kv_cache_ids: vec![],
        failed_kv_cache_ids: vec![],
    };
    record_put_outcome(&mut resp, 1, PutOutcome::Stored);
    record_put_outcome(&mut resp, 2, PutOutcome::ReadFailed);
    record_put_outcome(&mut resp, 3, PutOutcome::StoreFailed);
    record_put_outcome(&mut resp, 4, PutOutcome::Stored);
    assert_eq!(resp.success_kv_cache_ids, vec![1, 4]);
    assert_eq!(resp.failed_kv_cache_ids, vec![2, 3]);
}
