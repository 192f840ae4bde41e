//! The messages of the RDMA path and their byte layouts.
mod batch_put;
mod get;
mod mr_token;
mod put_request;
mod status;

pub use batch_put::{
    batch_put_response_fits, ids_wire, lemma_batch_put_request_fields, lemma_batch_put_request_layout, lemma_ids_bytes_at,
    lemma_put_requests_read_back, lemma_put_requests_wire_at,
    lemma_batch_put_request_round_trip, lemma_batch_put_response_round_trip, parse_batch_put_request,
    put_requests_wire, KVBlockBatchPutRequestWithRdma, KVBlockBatchPutResponseWithRdma,
    BATCH_COUNT_WIRE_LEN,
};
pub use get::{
    lemma_get_request_layout, lemma_get_request_round_trip, lemma_get_response_layout,
    lemma_get_response_round_trip, KVBlockGetRequestWithRdma,
    KVBlockGetResponseWithRdma, GET_REQUEST_WIRE_LEN, GET_RESPONSE_WIRE_LEN,
};
pub use mr_token::{lemma_mr_token_layout, lemma_mr_token_round_trip, MrToken, MR_TOKEN_WIRE_LEN};
pub use put_request::{
    lemma_put_request_layout, lemma_put_request_round_trip, KVBlockPutRequestWithRdma, PUT_REQUEST_WIRE_LEN,
};
pub use status::{lemma_status_code_round_trip, StatusCode};
