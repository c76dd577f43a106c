# protocol

Kafka wire-protocol message types with verified encoders and decoders.

Every encoder appends exactly the bytes that a spec function gives for the
value's contents, and every decoder reads exactly what a `parse_*` spec
function describes; errors are part of the same specifications. A failed
encode leaves the buffer as it was, and a failed decode puts the reader back
where it started. On top of these, the library proves that reading gives
back what writing wrote (a field that the version leaves out is read as its
default; in compact mode some optional values are written after a presence
marker that their decoder does not read, and only absent ones read back), that the flexible-aware layout with the compact
encodings off is the classic layout, and that tagged fields with an unknown
tag are skipped by their length.

Layout of `src/`:

- `serialization.rs`: the wire primitives (big-endian integers, unsigned
  varints, classic and compact strings, byte blobs, UUIDs, arrays), the
  `Reader` cursor, `SerializationError`, and the `KafkaCodec` trait that
  every structure implements.
- `roundtrip.rs`: read-back laws for the primitives and for arrays.
- `ordered_map.rs`: insertion-ordered maps (`indexmap::IndexMap`) as they
  appear in messages, their encoding and their read-back law.
- `messages/`: one module per message, with its nested structures, their
  encodings, decodings, read-back laws and the message-level
  `serialize` / `deserialize`.
- `dispatch.rs`: decoding a request body by its API key.
- `error.rs`: the protocol's error codes.

`app/` renders decoded bodies and errors as text.
