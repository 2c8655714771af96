# rms_client

Client-side logic for the Rack Manager service, verified with Verus.

`src/` is the verified library:

- `config` — TLS settings, retry policy and the configuration a client is built from.
- `provider` — connection providers: when a connection is stale because the client
  credentials changed, and what to do after a failed connection attempt.
- `api` — construction of the lazily connecting API clients and the client pool.
- `error` — error types, their rendered text and the gRPC status a caller sees;
  the error returned for calls an implementation leaves out.
- `wire`, `message`, `protos` — the protobuf wire format (varints, keys, skipping of
  unknown fields) and the encoding and decoding of the API messages, with proofs that
  every message decodes from its own encoding.
- `timestamp` — RFC 3339 text of `google.protobuf.Timestamp` values, through chrono.

`app/` holds what runs around it: serde glue for timestamps, error types with
`std::error::Error`, conversions to and from `tonic::Status`, reading the credential
files' modification times, and the asynchronous retry loop.
