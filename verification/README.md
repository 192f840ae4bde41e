# kv_rdma_message

The wire messages of the RDMA path of a distributed KV block cache, verified
with Verus.

- `src/buffer.rs`: the `bytes::BytesMut` buffers messages are written to and
  read from, with contracts over their contents.
- `src/wire.rs`: little-endian integers inside byte sequences.
- `src/message/`: the memory-region token, the get request and response, the
  put request, and the batch put request and response; for each, its byte
  layout (`wire`), what decoding reads (`parse`), the encoder, the decoder and
  the encoded size, with round-trip lemmas.
- `src/handler.rs`: the decisions of the RDMA request handler: the response a
  get request earns, and where each id of a batch put lands.
- `app/`: the asynchronous handler task that performs the RDMA transfers and
  cache accesses and hands their outcomes to the library.
