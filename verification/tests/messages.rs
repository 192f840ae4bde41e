use bytes::{BufMut, BytesMut};
use kv_rdma_message::buffer::{buffer_from_bytes, buffer_with_capacity};
use kv_rdma_message::error::RpcError;
use kv_rdma_message::message::{
    KVBlockBatchPutRequestWithRdma, KVBlockBatchPutResponseWithRdma, KVBlockGetRequestWithRdma,
    KVBlockGetResponseWithRdma, KVBlockPutRequestWithRdma, MrToken, StatusCode,
};

fn token() -> MrToken {
    MrToken {
        addr: 0x0102_0304_0506_0708,
        len: 4096,
        rkey: 0xAABB_CCDD,
        access: 7,
    }
}

fn token_bytes() -> Vec<u8> {
    vec![
        0x08, 0x07, 0x06, 0x05, 0x04, 0x03, 0x02, 0x01, // addr
        0x00, 0x10, 0, 0, 0, 0, 0, 0, // len
        0xDD, 0xCC, 0xBB, 0xAA, // rkey
        7, 0, 0, 0, // access
    ]
}

fn assert_error(err: RpcError, text: &str) {
    match err {
        RpcError::InternalError(msg) => assert_eq!(msg, text),
    }
}

#[test]
fn library_buffers_hold_what_they_are_given() {
    let mut buf = buffer_with_capacity(64);
    assert!(buf.is_empty());
    token().encode(&mut buf);
    assert_eq!(&buf[..], &token_bytes()[..]);
    let mut copy = buffer_from_bytes(&token_bytes());
    assert_eq!(MrToken::decode(&mut copy).unwrap(), token());
    assert!(copy.is_empty());
}

#[test]
fn mr_token_encodes_fields_little_endian() {
    let mut buf = BytesMut::new();
    token().encode(&mut buf);
    assert_eq!(&buf[..], &token_bytes()[..]);
    assert_eq!(token().actual_size(), 24);
}

#[test]
fn mr_token_encode_appends_after_existing_bytes() {
    let mut buf = BytesMut::new();
    buf.put_u8(0xEE);
    token().encode(&mut buf);
    assert_eq!(buf.len(), 25);
    assert_eq!(buf[0], 0xEE);
    assert_eq!(&buf[1..], &token_bytes()[..]);
}

#[test]
fn mr_token_round_trip_leaves_following_bytes() {
    let mut buf = BytesMut::new();
    token().encode(&mut buf);
    buf.put_u8(0x42);
    let decoded = MrToken::decode(&mut buf).unwrap();
    assert_eq!(decoded, token());
    assert_eq!(&buf[..], &[0x42][..]);
}

#[test]
fn mr_token_decode_short_buffer_is_untouched() {
    let mut buf = BytesMut::from(&token_bytes()[..23]);
    let err = MrToken::decode(&mut buf).unwrap_err();
    assert_error(err, "Insufficient bytes");
    assert_eq!(buf.len(), 23);
}

#[test]
fn mr_token_decode_u8_buf_reads_slice() {
    let bytes = token_bytes();
    assert_eq!(MrToken::decode_u8_buf(&bytes).unwrap(), token());
    assert_error(MrToken::decode_u8_buf(&bytes[..10]).unwrap_err(), "Insufficient bytes");
}

fn get_request() -> KVBlockGetRequestWithRdma {
    KVBlockGetRequestWithRdma {
        block_size: 4096,
        kv_cache_id: 99,
        mr_token: token(),
    }
}

fn block_request_bytes() -> Vec<u8> {
    let mut v = vec![0x00, 0x10, 0, 0, 0, 0, 0, 0, 99, 0, 0, 0, 0, 0, 0, 0];
    v.extend_from_slice(&token_bytes());
    v
}

#[test]
fn get_request_encoding_and_size() {
    let mut buf = BytesMut::new();
    get_request().encode(&mut buf);
    assert_eq!(&buf[..], &block_request_bytes()[..]);
    assert_eq!(get_request().actual_size(), 40);
}

#[test]
fn get_request_round_trip() {
    let mut buf = BytesMut::new();
    get_request().encode(&mut buf);
    buf.put_u8(1);
    let decoded = KVBlockGetRequestWithRdma::decode(&mut buf).unwrap();
    assert_eq!(decoded, get_request());
    assert_eq!(&buf[..], &[1][..]);
}

#[test]
fn get_request_decode_u8_buf() {
    let bytes = block_request_bytes();
    assert_eq!(KVBlockGetRequestWithRdma::decode_u8_buf(&bytes).unwrap(), get_request());
    assert_error(
        KVBlockGetRequestWithRdma::decode_u8_buf(&bytes[..39]).unwrap_err(),
        "Insufficient bytes",
    );
}

#[test]
fn get_request_decode_short_buffer_is_untouched() {
    let mut buf = BytesMut::from(&block_request_bytes()[..39]);
    assert_error(
        KVBlockGetRequestWithRdma::decode(&mut buf).unwrap_err(),
        "Insufficient bytes",
    );
    assert_eq!(buf.len(), 39);
}

#[test]
fn get_response_status_bytes() {
    let statuses = [
        (StatusCode::Success, 0u8),
        (StatusCode::NotFound, 1),
        (StatusCode::InternalError, 2),
        (StatusCode::VersionMismatch, 3),
    ];
    for (status, code) in statuses {
        let resp = KVBlockGetResponseWithRdma {
            block_size: 8,
            kv_cache_id: 0x0100,
            status,
        };
        let mut buf = BytesMut::new();
        resp.encode(&mut buf);
        assert_eq!(
            &buf[..],
            &[8, 0, 0, 0, 0, 0, 0, 0, 0, 1, 0, 0, 0, 0, 0, 0, code][..]
        );
        let decoded = KVBlockGetResponseWithRdma::decode(&mut buf).unwrap();
        assert_eq!(decoded, resp);
        assert!(buf.is_empty());
    }
}

#[test]
fn get_response_invalid_status_consumes_bytes() {
    let mut buf = BytesMut::from(&[1u8, 0, 0, 0, 0, 0, 0, 0, 2, 0, 0, 0, 0, 0, 0, 0, 4, 9][..]);
    assert_error(
        KVBlockGetResponseWithRdma::decode(&mut buf).unwrap_err(),
        "Invalid status code",
    );
    assert_eq!(&buf[..], &[9][..]);
}

#[test]
fn get_response_decode_short_buffer_is_untouched() {
    let mut buf = BytesMut::from(&[0u8; 16][..]);
    assert_error(
        KVBlockGetResponseWithRdma::decode(&mut buf).unwrap_err(),
        "Insufficient bytes",
    );
    assert_eq!(buf.len(), 16);
}

fn put_request(id: u64) -> KVBlockPutRequestWithRdma {
    KVBlockPutRequestWithRdma {
        block_size: 4096,
        kv_cache_id: id,
        mr_token: token(),
    }
}

#[test]
fn put_request_encoding_size_and_round_trip() {
    let mut buf = BytesMut::new();
    put_request(99).encode(&mut buf);
    assert_eq!(&buf[..], &block_request_bytes()[..]);
    assert_eq!(put_request(99).actual_size(), 40);
    assert_eq!(
        KVBlockPutRequestWithRdma::decode_u8_buf(&buf[..]).unwrap(),
        put_request(99)
    );
}

#[test]
fn put_request_decode_short_slice() {
    let bytes = block_request_bytes();
    assert_error(
        KVBlockPutRequestWithRdma::decode_u8_buf(&bytes[..39]).unwrap_err(),
        "Insufficient bytes",
    );
}

#[test]
fn batch_put_request_encoding_and_size() {
    let batch = KVBlockBatchPutRequestWithRdma {
        put_requests: vec![put_request(1), put_request(2)],
    };
    let mut buf = BytesMut::new();
    batch.encode(&mut buf);
    assert_eq!(buf.len(), 88);
    assert_eq!(&buf[..8], &[2, 0, 0, 0, 0, 0, 0, 0][..]);
    assert_eq!(buf[16], 1);
    assert_eq!(buf[56], 2);
    assert_eq!(batch.actual_size(), 88);
}

#[test]
fn batch_put_request_round_trip_of_alike_requests() {
    let batch = KVBlockBatchPutRequestWithRdma {
        put_requests: vec![put_request(5), put_request(5), put_request(5)],
    };
    let mut buf = BytesMut::new();
    batch.encode(&mut buf);
    let decoded = KVBlockBatchPutRequestWithRdma::decode_u8_buf(&buf[..]).unwrap();
    assert_eq!(decoded, batch);
}

#[test]
fn batch_put_request_round_trip_in_order() {
    let batch = KVBlockBatchPutRequestWithRdma {
        put_requests: vec![put_request(1), put_request(2), put_request(3)],
    };
    let mut buf = BytesMut::new();
    batch.encode(&mut buf);
    buf.put_u8(0x77);
    let decoded = KVBlockBatchPutRequestWithRdma::decode_u8_buf(&buf[..]).unwrap();
    assert_eq!(decoded, batch);
}

#[test]
fn batch_put_request_decodes_given_bytes() {
    let mut bytes = Vec::new();
    bytes.extend_from_slice(&2u64.to_le_bytes());
    for id in [1u64, 2] {
        bytes.extend_from_slice(&64u64.to_le_bytes());
        bytes.extend_from_slice(&id.to_le_bytes());
        bytes.extend_from_slice(&[0u8; 24]);
    }
    assert_eq!(bytes.len(), 88);
    let decoded = KVBlockBatchPutRequestWithRdma::decode_u8_buf(&bytes).unwrap();
    assert_eq!(decoded.put_requests.len(), 2);
    assert_eq!(decoded.put_requests[0].kv_cache_id, 1);
    assert_eq!(decoded.put_requests[1].kv_cache_id, 2);
    assert_eq!(decoded.put_requests[0].block_size, 64);
    assert_eq!(decoded.put_requests[1].block_size, 64);
}

#[test]
fn batch_put_request_count_beyond_bytes_is_insufficient() {
    for count in [2u64, 3, u64::MAX] {
        let mut bytes = count.to_le_bytes().to_vec();
        bytes.extend_from_slice(&block_request_bytes());
        assert_eq!(bytes.len(), 48);
        assert_error(
            KVBlockBatchPutRequestWithRdma::decode_u8_buf(&bytes).unwrap_err(),
            "Insufficient bytes",
        );
    }
}

#[test]
fn batch_put_request_empty_batch() {
    let batch = KVBlockBatchPutRequestWithRdma {
        put_requests: vec![],
    };
    let mut buf = BytesMut::new();
    batch.encode(&mut buf);
    assert_eq!(&buf[..], &[0u8; 8][..]);
    assert_eq!(batch.actual_size(), 8);
    let decoded = KVBlockBatchPutRequestWithRdma::decode_u8_buf(&buf[..]).unwrap();
    assert!(decoded.put_requests.is_empty());
}

#[test]
fn batch_put_request_decode_errors() {
    assert_error(
        KVBlockBatchPutRequestWithRdma::decode_u8_buf(&[1, 0, 0]).unwrap_err(),
        "Insufficient bytes",
    );
    let mut bytes = vec![1u8, 0, 0, 0, 0, 0, 0, 0];
    bytes.extend_from_slice(&block_request_bytes()[..39]);
    assert_error(
        KVBlockBatchPutRequestWithRdma::decode_u8_buf(&bytes).unwrap_err(),
        "Insufficient bytes",
    );
}

#[test]
fn batch_put_response_encoding_size_and_round_trip() {
    let resp = KVBlockBatchPutResponseWithRdma {
        success_kv_cache_ids: vec![1, 0x0203],
        failed_kv_cache_ids: vec![7],
    };
    let mut buf = BytesMut::new();
    resp.encode(&mut buf);
    assert_eq!(
        &buf[..],
        &[
            2, 0, 0, 0, 0, 0, 0, 0, // count
            1, 0, 0, 0, 0, 0, 0, 0, //
            3, 2, 0, 0, 0, 0, 0, 0, //
            1, 0, 0, 0, 0, 0, 0, 0, // count
            7, 0, 0, 0, 0, 0, 0, 0,
        ][..]
    );
    assert_eq!(resp.actual_size(), 40);
    buf.put_u8(0x55);
    let decoded = KVBlockBatchPutResponseWithRdma::decode(&mut buf).unwrap();
    assert_eq!(decoded, resp);
    assert_eq!(&buf[..], &[0x55][..]);
}

#[test]
fn batch_put_response_empty_lists() {
    let resp = KVBlockBatchPutResponseWithRdma {
        success_kv_cache_ids: vec![],
        failed_kv_cache_ids: vec![],
    };
    let mut buf = BytesMut::new();
    resp.encode(&mut buf);
    assert_eq!(&buf[..], &[0u8; 16][..]);
    assert_eq!(resp.actual_size(), 16);
    assert_eq!(KVBlockBatchPutResponseWithRdma::decode(&mut buf).unwrap(), resp);
}

#[test]
fn batch_put_response_decode_short_buffer_is_untouched() {
    let mut buf = BytesMut::from(&[0u8; 15][..]);
    assert_error(
        KVBlockBatchPutResponseWithRdma::decode(&mut buf).unwrap_err(),
        "Insufficient bytes",
    );
    assert_eq!(buf.len(), 15);
}
