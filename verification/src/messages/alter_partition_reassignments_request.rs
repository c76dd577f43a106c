//! AlterPartitionReassignmentsRequest (API key 45).
use vstd::prelude::*;
use crate::roundtrip::{lemma_array_roundtrip, lemma_bool_roundtrip, lemma_i32_roundtrip,
    lemma_items_read_back, lemma_nullable_array_roundtrip, lemma_seq_assoc, lemma_seq_empty_left,
    lemma_string_roundtrip, lemma_uvarint_roundtrip};
use crate::serialization::{Ctx, KafkaCodec, Reader, SerializationError, array_bytes, bool_bytes,
    decode_array, decode_nullable_array, decode_unsigned_varint, encode_array,
    encode_nullable_array, encode_string, encode_unsigned_varint, i32_bytes, nullable_array_bytes,
    parse_array, parse_bool, parse_i32, parse_nullable_array, parse_string, parse_uvarint,
    put_bool, put_i32, read_view_exact, read_view_ok, string_bytes, then, uvarint_bytes,
    write_exact, write_ok};
use crate::{ApiKey, ApiVersion};

verus! {

// -------------------------------------------------------
// AlterPartitionReassignmentsRequest
// -------------------------------------------------------
#[derive(Clone, Debug, PartialEq)]
pub struct AlterPartitionReassignmentsRequest {
    /// The time in ms to wait for the request to complete.
    pub timeout_ms: i32,
    /// The option indicating whether changing the replication factor of any given partition as part of this request is a valid move.
    /// Available in version 1+.
    pub allow_replication_factor_change: bool,
    /// The topics to reassign.
    pub topics: Vec<ReassignableTopic>,
}

/// The contents of `AlterPartitionReassignmentsRequest`, with strings as characters and
/// nested values by their contents.
pub struct AlterPartitionReassignmentsRequestModel {
    pub timeout_ms: i32,
    pub allow_replication_factor_change: bool,
    pub topics: Seq<<ReassignableTopic as DeepView>::V>,
}

impl DeepView for AlterPartitionReassignmentsRequest {
    type V = AlterPartitionReassignmentsRequestModel;

    open spec fn deep_view(&self) -> AlterPartitionReassignmentsRequestModel {
        AlterPartitionReassignmentsRequestModel {
            timeout_ms: self.timeout_ms,
            allow_replication_factor_change: self.allow_replication_factor_change,
            topics: self.topics.deep_view(),
        }
    }
}

impl Default for AlterPartitionReassignmentsRequest {
    fn default() -> (r: AlterPartitionReassignmentsRequest)
        ensures
            r.timeout_ms == 60000i32,
            r.allow_replication_factor_change == true,
            r.topics@.len() == 0,
    {
        AlterPartitionReassignmentsRequest {
            timeout_ms: 60000i32,
            allow_replication_factor_change: true,
            topics: Vec::new(),
        }
    }
}

impl AlterPartitionReassignmentsRequest {
    /// The encoding of the structure in context `ctx`.
    pub open spec fn spec_encode_body(m: AlterPartitionReassignmentsRequestModel, ctx: Ctx) -> Result<Seq<u8>, SerializationError> {
        let r = Ok(Seq::<u8>::empty());
        let r = then(r, Ok(i32_bytes(m.timeout_ms)));
        let r = if 1 <= ctx.version { then(r, Ok(bool_bytes(m.allow_replication_factor_change))) } else { r };
        let r = then(r, array_bytes::<ReassignableTopic>(m.topics, Ctx { version: ctx.version, flexible: ctx.flexible, classic: false }));
        let r = if ctx.flexible { then(r, Ok(uvarint_bytes(0))) } else { r };
        r
    }

    /// The structure read from `s` at `pos` in context `ctx`.
    pub open spec fn spec_decode_body(s: Seq<u8>, pos: int, ctx: Ctx) -> Result<(AlterPartitionReassignmentsRequestModel, int), SerializationError> {
        match parse_i32(s, pos) {
            Err(e) => Err(e),
            Ok((timeout_ms, pos)) =>
            match (if 1 <= ctx.version { parse_bool(s, pos) } else { Ok((true, pos)) }) {
                Err(e) => Err(e),
                Ok((allow_replication_factor_change, pos)) =>
                match parse_array::<ReassignableTopic>(s, pos, Ctx { version: ctx.version, flexible: ctx.flexible, classic: false }) {
                    Err(e) => Err(e),
                    Ok((topics, pos)) =>
                    match (if ctx.flexible { parse_uvarint(s, pos) } else { Ok((0u64, pos)) }) {
                        Err(e) => Err(e),
                        Ok((_tag_count, pos)) =>
                        Ok((AlterPartitionReassignmentsRequestModel { timeout_ms, allow_replication_factor_change, topics }, pos))
                    }
                }
            }
        }
    }

    /// The structure as it reads back in context `ctx`: each field that the
    /// version leaves out is at its default.
    #[verifier::opaque]
    pub open spec fn spec_read_as(m: AlterPartitionReassignmentsRequestModel, ctx: Ctx) -> AlterPartitionReassignmentsRequestModel {
        AlterPartitionReassignmentsRequestModel { timeout_ms: m.timeout_ms, allow_replication_factor_change: if 1 <= ctx.version { m.allow_replication_factor_change } else { true }, topics: m.topics }
    }

    /// Values that read back in context `ctx`: nested values read back. A field
    /// that the version leaves out is read as its default.
    pub open spec fn reads_back_body(m: AlterPartitionReassignmentsRequestModel, ctx: Ctx) -> bool {
        &&& forall|i: int| 0 <= i < m.topics.len() ==> #[trigger] <ReassignableTopic as KafkaCodec>::reads_back(m.topics[i], Ctx { version: ctx.version, flexible: ctx.flexible, classic: false })
    }

    /// A value that can be written in context `ctx` and reads back: decoding its
    /// encoding, wherever it stands, gives the value as `spec_read_as` gives it and
    /// the position just after it.
    #[verifier::spinoff_prover]
    pub proof fn lemma_body_read_back(pre: Seq<u8>, m: AlterPartitionReassignmentsRequestModel, post: Seq<u8>, ctx: Ctx)
        requires
            Self::spec_encode_body(m, ctx) is Ok,
            Self::reads_back_body(m, ctx),
        ensures
            Self::spec_decode_body(pre + Self::spec_encode_body(m, ctx)->Ok_0 + post, pre.len() as int, ctx) == Ok::<(AlterPartitionReassignmentsRequestModel, int), SerializationError>((Self::spec_read_as(m, ctx), pre.len() as int + Self::spec_encode_body(m, ctx)->Ok_0.len())),
    {
        reveal(AlterPartitionReassignmentsRequest::spec_read_as);
        let b0 = i32_bytes(m.timeout_ms);
        let b1 = if 1 <= ctx.version { bool_bytes(m.allow_replication_factor_change) } else { Seq::<u8>::empty() };
        let b2 = (array_bytes::<ReassignableTopic>(m.topics, Ctx { version: ctx.version, flexible: ctx.flexible, classic: false }))->Ok_0;
        let b3 = if ctx.flexible { uvarint_bytes(0) } else { Seq::<u8>::empty() };
        let t4 = post;
        let t3 = b3 + t4;
        let t2 = b2 + t3;
        let t1 = b1 + t2;
        let t0 = b0 + t1;
        let e = Self::spec_encode_body(m, ctx)->Ok_0;
        assert(e =~= Seq::<u8>::empty() + b0 + b1 + b2 + b3);
        lemma_seq_assoc((((Seq::<u8>::empty() + b0) + b1) + b2), b3, post);
        lemma_seq_assoc(((Seq::<u8>::empty() + b0) + b1), b2, (b3 + post));
        lemma_seq_assoc((Seq::<u8>::empty() + b0), b1, (b2 + (b3 + post)));
        lemma_seq_assoc(Seq::<u8>::empty(), b0, (b1 + (b2 + (b3 + post))));
        lemma_seq_empty_left((b0 + (b1 + (b2 + (b3 + post)))));
        let s = pre + e + post;
        lemma_seq_assoc(pre, e, post);
        assert(s == pre + t0);
        let a0 = pre;
        assert(parse_i32(s, a0.len() as int) == Ok::<(i32, int), SerializationError>((m.timeout_ms, a0.len() as int + b0.len()))) by {
            lemma_seq_assoc(a0, b0, t1);
            lemma_i32_roundtrip(a0, m.timeout_ms, t1);
        }
        lemma_seq_assoc(a0, b0, t1);
        let a1 = a0 + b0;
        if 1 <= ctx.version {
            assert(parse_bool(s, a1.len() as int) == Ok::<(bool, int), SerializationError>((m.allow_replication_factor_change, a1.len() as int + b1.len()))) by {
                lemma_seq_assoc(a1, b1, t2);
                lemma_bool_roundtrip(a1, m.allow_replication_factor_change, t2);
            }
        }
        lemma_seq_assoc(a1, b1, t2);
        let a2 = a1 + b1;
        assert(parse_array::<ReassignableTopic>(s, a2.len() as int, Ctx { version: ctx.version, flexible: ctx.flexible, classic: false }) == Ok::<(Seq<<ReassignableTopic as DeepView>::V>, int), SerializationError>((m.topics, a2.len() as int + b2.len()))) by {
            assert(array_bytes::<ReassignableTopic>(m.topics, Ctx { version: ctx.version, flexible: ctx.flexible, classic: false }) is Ok);
            lemma_seq_assoc(a2, b2, t3);
            lemma_items_read_back::<ReassignableTopic>(m.topics, Ctx { version: ctx.version, flexible: ctx.flexible, classic: false });
            lemma_array_roundtrip::<ReassignableTopic>(a2, m.topics, t3, Ctx { version: ctx.version, flexible: ctx.flexible, classic: false });
        }
        lemma_seq_assoc(a2, b2, t3);
        let a3 = a2 + b2;
        if ctx.flexible {
            assert(parse_uvarint(s, a3.len() as int) == Ok::<(u64, int), SerializationError>((0u64, a3.len() as int + b3.len()))) by {
                lemma_seq_assoc(a3, b3, t4);
                lemma_uvarint_roundtrip(a3, 0, t4);
            }
        }
    }

    /// The bytes written: the encoding of each field, in the order of the
    /// protocol's layout. Reading them back, wherever they stand, gives the value,
    /// with each field that the version leaves out at its default.
    #[verifier::spinoff_prover]
    pub proof fn lemma_body_layout(pre: Seq<u8>, m: AlterPartitionReassignmentsRequestModel, post: Seq<u8>, ctx: Ctx)
        requires
            Self::spec_encode_body(m, ctx) is Ok,
        ensures
            Self::spec_encode_body(m, ctx) == Ok::<Seq<u8>, SerializationError>((i32_bytes(m.timeout_ms)) + (if 1 <= ctx.version { bool_bytes(m.allow_replication_factor_change) } else { Seq::<u8>::empty() }) + ((array_bytes::<ReassignableTopic>(m.topics, Ctx { version: ctx.version, flexible: ctx.flexible, classic: false }))->Ok_0) + (if ctx.flexible { uvarint_bytes(0) } else { Seq::<u8>::empty() })),
            Self::reads_back_body(m, ctx) ==> Self::spec_decode_body(pre + ((i32_bytes(m.timeout_ms)) + (if 1 <= ctx.version { bool_bytes(m.allow_replication_factor_change) } else { Seq::<u8>::empty() }) + ((array_bytes::<ReassignableTopic>(m.topics, Ctx { version: ctx.version, flexible: ctx.flexible, classic: false }))->Ok_0) + (if ctx.flexible { uvarint_bytes(0) } else { Seq::<u8>::empty() })) + post, pre.len() as int, ctx) == Ok::<(AlterPartitionReassignmentsRequestModel, int), SerializationError>((AlterPartitionReassignmentsRequestModel { timeout_ms: m.timeout_ms, allow_replication_factor_change: if 1 <= ctx.version { m.allow_replication_factor_change } else { true }, topics: m.topics }, pre.len() as int + ((i32_bytes(m.timeout_ms)) + (if 1 <= ctx.version { bool_bytes(m.allow_replication_factor_change) } else { Seq::<u8>::empty() }) + ((array_bytes::<ReassignableTopic>(m.topics, Ctx { version: ctx.version, flexible: ctx.flexible, classic: false }))->Ok_0) + (if ctx.flexible { uvarint_bytes(0) } else { Seq::<u8>::empty() })).len())),
    {
        let b0 = i32_bytes(m.timeout_ms);
        let b1 = if 1 <= ctx.version { bool_bytes(m.allow_replication_factor_change) } else { Seq::<u8>::empty() };
        let b2 = (array_bytes::<ReassignableTopic>(m.topics, Ctx { version: ctx.version, flexible: ctx.flexible, classic: false }))->Ok_0;
        let b3 = if ctx.flexible { uvarint_bytes(0) } else { Seq::<u8>::empty() };
        let e = Self::spec_encode_body(m, ctx)->Ok_0;
        assert(e =~= Seq::<u8>::empty() + b0 + b1 + b2 + b3);
        assert(e =~= b0 + b1 + b2 + b3);
        if Self::reads_back_body(m, ctx) {
            Self::lemma_body_read_back(pre, m, post, ctx);
            reveal(AlterPartitionReassignmentsRequest::spec_read_as);
        }
    }

    /// Writing succeeds exactly when every field that the version carries can be
    /// encoded and every field that it leaves out, where leaving it out is an
    /// error, holds its default.
    #[verifier::spinoff_prover]
    pub proof fn lemma_body_write_succeeds(m: AlterPartitionReassignmentsRequestModel, ctx: Ctx)
        ensures
            Self::spec_encode_body(m, ctx) is Ok <==> (array_bytes::<ReassignableTopic>(m.topics, Ctx { version: ctx.version, flexible: ctx.flexible, classic: false }) is Ok),
    {
    }

    /// Writes the structure for `version`, with the compact encodings when `is_flexible`.
    /// On failure the buffer is left as it was.
    pub fn encode(&self, buf: &mut Vec<u8>, version: ApiVersion, is_flexible: bool) -> (r: Result<(), SerializationError>)
        ensures
            write_exact(r, old(buf)@, final(buf)@, Self::spec_encode_body(self.deep_view(), Ctx { version: version.0, flexible: is_flexible, classic: false })),
    {
        let start = buf.len();
        let r = self.encode_ctx(buf, Ctx::new(version, is_flexible));
        if r.is_err() {
            buf.truncate(start);
        }
        r
    }

    /// Reads the structure as written for `version`.
    /// On failure the reader is put back where it started.
    pub fn decode(buf: &mut Reader, version: ApiVersion, is_flexible: bool) -> (r: Result<Self, SerializationError>)
        ensures
            final(buf).bytes() == old(buf).bytes(),
            read_view_exact(r, Self::spec_decode_body(old(buf).bytes(), old(buf).pos(), Ctx { version: version.0, flexible: is_flexible, classic: false }), old(buf).pos(), final(buf).pos()),
    {
        let start = buf.position();
        let r = Self::decode_ctx(buf, Ctx::new(version, is_flexible));
        if r.is_err() {
            buf.set_position(start);
        }
        r
    }
}

impl KafkaCodec for AlterPartitionReassignmentsRequest {
    open spec fn spec_encode(m: AlterPartitionReassignmentsRequestModel, ctx: Ctx) -> Result<Seq<u8>, SerializationError> {
        Self::spec_encode_body(m, ctx)
    }

    open spec fn spec_decode(s: Seq<u8>, pos: int, ctx: Ctx) -> Result<(AlterPartitionReassignmentsRequestModel, int), SerializationError> {
        Self::spec_decode_body(s, pos, ctx)
    }

    open spec fn reads_back(v: AlterPartitionReassignmentsRequestModel, ctx: Ctx) -> bool {
        Self::reads_back_body(v, ctx) && Self::spec_read_as(v, ctx) == v
    }

    proof fn lemma_read_back(pre: Seq<u8>, v: AlterPartitionReassignmentsRequestModel, post: Seq<u8>, ctx: Ctx) {
        Self::lemma_body_read_back(pre, v, post, ctx);
        assert(Self::spec_decode(pre + Self::spec_encode(v, ctx)->Ok_0 + post, pre.len() as int, ctx)
            == Self::spec_decode_body(pre + Self::spec_encode_body(v, ctx)->Ok_0 + post, pre.len() as int, ctx));
    }

    fn encode_ctx(&self, buf: &mut Vec<u8>, ctx: Ctx) -> (r: Result<(), SerializationError>) {
        let ghost mut w: Seq<u8> = Seq::empty();
        put_i32(buf, self.timeout_ms);
        proof {
            w = w + i32_bytes(self.timeout_ms);
        }
        assert(buf@ =~= old(buf)@ + w);
        if 1 <= ctx.version {
            put_bool(buf, self.allow_replication_factor_change);
            proof {
                w = w + bool_bytes(self.allow_replication_factor_change);
            }
            assert(buf@ =~= old(buf)@ + w);
        }
        encode_array(&self.topics, buf, Ctx { version: ctx.version, flexible: ctx.flexible, classic: false })?;
        proof {
            w = w + (array_bytes::<ReassignableTopic>(self.topics.deep_view(), Ctx { version: ctx.version, flexible: ctx.flexible, classic: false }))->Ok_0;
        }
        assert(buf@ =~= old(buf)@ + w);
        if ctx.flexible {
            encode_unsigned_varint(0, buf);
            proof {
                w = w + uvarint_bytes(0);
            }
            assert(buf@ =~= old(buf)@ + w);
        }
        Ok(())
    }

    fn decode_ctx(buf: &mut Reader, ctx: Ctx) -> (r: Result<Self, SerializationError>) {
        let timeout_ms = buf.get_i32()?;
        let allow_replication_factor_change = if 1 <= ctx.version {
            buf.get_bool()?
        } else {
            true
        };
        let topics = decode_array::<ReassignableTopic>(buf, Ctx { version: ctx.version, flexible: ctx.flexible, classic: false })?;
        if ctx.flexible {
            let (_tag_count, _) = decode_unsigned_varint(buf)?;
        }
        Ok(AlterPartitionReassignmentsRequest { timeout_ms, allow_replication_factor_change, topics })
    }
}

impl AlterPartitionReassignmentsRequest {
    /// The API key of this message.
    pub fn get_api_key() -> (r: ApiKey)
        ensures
            r.0 == 45,
    {
        ApiKey::new(45)
    }

    /// The oldest version of this message.
    pub fn get_min_supported_version() -> (r: ApiVersion)
        ensures
            r.0 == 0,
    {
        ApiVersion::new(0)
    }

    /// The newest version of this message.
    pub fn get_max_supported_version() -> (r: ApiVersion)
        ensures
            r.0 == 1,
    {
        ApiVersion::new(1)
    }

    /// The first version of this message with the compact encodings.
    pub fn get_min_flexible_version() -> (r: ApiVersion)
        ensures
            r.0 == 0,
    {
        ApiVersion::new(0)
    }

    /// The encoding of a whole message body at `version`.
    pub open spec fn spec_serialize(m: AlterPartitionReassignmentsRequestModel, version: i16) -> Result<Seq<u8>, SerializationError> {
        let is_flexible = version >= 0;
        let ctx = Ctx { version, flexible: is_flexible, classic: false };
        let r = Ok(Seq::<u8>::empty());
        let r = then(r, Ok(i32_bytes(m.timeout_ms)));
        let r = if 1 <= ctx.version { then(r, Ok(bool_bytes(m.allow_replication_factor_change))) } else if !m.allow_replication_factor_change { then(r, Err(SerializationError::FieldNotAvailable { field: "AllowReplicationFactorChange", version: ctx.version, api_name: "AlterPartitionReassignmentsRequest" })) } else { r };
        let r = then(r, array_bytes::<ReassignableTopic>(m.topics, Ctx { version: ctx.version, flexible: ctx.flexible, classic: false }));
        let r = if ctx.flexible { then(r, Ok(uvarint_bytes(0))) } else { r };
        r
    }

    /// The message body read at `version`.
    pub open spec fn spec_deserialize(s: Seq<u8>, pos: int, version: i16) -> Result<(AlterPartitionReassignmentsRequestModel, int), SerializationError> {
        let is_flexible = version >= 0;
        let ctx = Ctx { version, flexible: is_flexible, classic: false };
        match parse_i32(s, pos) {
            Err(e) => Err(e),
            Ok((timeout_ms, pos)) =>
            match (if 1 <= ctx.version { parse_bool(s, pos) } else { Ok((true, pos)) }) {
                Err(e) => Err(e),
                Ok((allow_replication_factor_change, pos)) =>
                match parse_array::<ReassignableTopic>(s, pos, Ctx { version: ctx.version, flexible: ctx.flexible, classic: false }) {
                    Err(e) => Err(e),
                    Ok((topics, pos)) =>
                    match (if ctx.flexible { parse_uvarint(s, pos) } else { Ok((0u64, pos)) }) {
                        Err(e) => Err(e),
                        Ok((_tag_count, pos)) =>
                        Ok((AlterPartitionReassignmentsRequestModel { timeout_ms, allow_replication_factor_change, topics }, pos))
                    }
                }
            }
        }
    }

    /// Message bodies that read back when written at `version`: nested values read
    /// back. A field that the version leaves out is read as its default.
    pub open spec fn reads_back_message(m: AlterPartitionReassignmentsRequestModel, version: i16) -> bool {
        let is_flexible = version >= 0;
        let ctx = Ctx { version, flexible: is_flexible, classic: false };
        &&& forall|i: int| 0 <= i < m.topics.len() ==> #[trigger] <ReassignableTopic as KafkaCodec>::reads_back(m.topics[i], Ctx { version: ctx.version, flexible: ctx.flexible, classic: false })
    }

    /// A message body that can be written at `version` and reads back: reading a
    /// body at `version` from its bytes, wherever they stand, gives the same message,
    /// with each field that the version leaves out at its default.
    #[verifier::spinoff_prover]
    pub proof fn lemma_message_read_back(pre: Seq<u8>, m: AlterPartitionReassignmentsRequestModel, post: Seq<u8>, version: i16)
        requires
            Self::spec_serialize(m, version) is Ok,
            Self::reads_back_message(m, version),
        ensures
            Self::spec_deserialize(pre + Self::spec_serialize(m, version)->Ok_0 + post, pre.len() as int, version) == Ok::<(AlterPartitionReassignmentsRequestModel, int), SerializationError>((AlterPartitionReassignmentsRequestModel { timeout_ms: m.timeout_ms, allow_replication_factor_change: if 1 <= version { m.allow_replication_factor_change } else { true }, topics: m.topics }, pre.len() as int + Self::spec_serialize(m, version)->Ok_0.len())),
    {
        let is_flexible = version >= 0;
        let ctx = Ctx { version, flexible: is_flexible, classic: false };
        let b0 = i32_bytes(m.timeout_ms);
        let b1 = if 1 <= ctx.version { bool_bytes(m.allow_replication_factor_change) } else { Seq::<u8>::empty() };
        let b2 = (array_bytes::<ReassignableTopic>(m.topics, Ctx { version: ctx.version, flexible: ctx.flexible, classic: false }))->Ok_0;
        let b3 = if ctx.flexible { uvarint_bytes(0) } else { Seq::<u8>::empty() };
        let t4 = post;
        let t3 = b3 + t4;
        let t2 = b2 + t3;
        let t1 = b1 + t2;
        let t0 = b0 + t1;
        let e = Self::spec_serialize(m, version)->Ok_0;
        assert(e =~= Seq::<u8>::empty() + b0 + b1 + b2 + b3);
        lemma_seq_assoc((((Seq::<u8>::empty() + b0) + b1) + b2), b3, post);
        lemma_seq_assoc(((Seq::<u8>::empty() + b0) + b1), b2, (b3 + post));
        lemma_seq_assoc((Seq::<u8>::empty() + b0), b1, (b2 + (b3 + post)));
        lemma_seq_assoc(Seq::<u8>::empty(), b0, (b1 + (b2 + (b3 + post))));
        lemma_seq_empty_left((b0 + (b1 + (b2 + (b3 + post)))));
        let s = pre + e + post;
        lemma_seq_assoc(pre, e, post);
        assert(s == pre + t0);
        let a0 = pre;
        assert(parse_i32(s, a0.len() as int) == Ok::<(i32, int), SerializationError>((m.timeout_ms, a0.len() as int + b0.len()))) by {
            lemma_seq_assoc(a0, b0, t1);
            lemma_i32_roundtrip(a0, m.timeout_ms, t1);
        }
        lemma_seq_assoc(a0, b0, t1);
        let a1 = a0 + b0;
        if 1 <= ctx.version {
            assert(parse_bool(s, a1.len() as int) == Ok::<(bool, int), SerializationError>((m.allow_replication_factor_change, a1.len() as int + b1.len()))) by {
                lemma_seq_assoc(a1, b1, t2);
                lemma_bool_roundtrip(a1, m.allow_replication_factor_change, t2);
            }
        }
        lemma_seq_assoc(a1, b1, t2);
        let a2 = a1 + b1;
        assert(parse_array::<ReassignableTopic>(s, a2.len() as int, Ctx { version: ctx.version, flexible: ctx.flexible, classic: false }) == Ok::<(Seq<<ReassignableTopic as DeepView>::V>, int), SerializationError>((m.topics, a2.len() as int + b2.len()))) by {
            assert(array_bytes::<ReassignableTopic>(m.topics, Ctx { version: ctx.version, flexible: ctx.flexible, classic: false }) is Ok);
            lemma_seq_assoc(a2, b2, t3);
            lemma_items_read_back::<ReassignableTopic>(m.topics, Ctx { version: ctx.version, flexible: ctx.flexible, classic: false });
            lemma_array_roundtrip::<ReassignableTopic>(a2, m.topics, t3, Ctx { version: ctx.version, flexible: ctx.flexible, classic: false });
        }
        lemma_seq_assoc(a2, b2, t3);
        let a3 = a2 + b2;
        if ctx.flexible {
            assert(parse_uvarint(s, a3.len() as int) == Ok::<(u64, int), SerializationError>((0u64, a3.len() as int + b3.len()))) by {
                lemma_seq_assoc(a3, b3, t4);
                lemma_uvarint_roundtrip(a3, 0, t4);
            }
        }
    }

    /// The bytes written: the encoding of each field, in the order of the
    /// protocol's layout. Reading them back, wherever they stand, gives the value,
    /// with each field that the version leaves out at its default.
    #[verifier::spinoff_prover]
    pub proof fn lemma_message_layout(pre: Seq<u8>, m: AlterPartitionReassignmentsRequestModel, post: Seq<u8>, version: i16)
        requires
            Self::spec_serialize(m, version) is Ok,
        ensures
            Self::spec_serialize(m, version) == Ok::<Seq<u8>, SerializationError>((i32_bytes(m.timeout_ms)) + (if 1 <= version { bool_bytes(m.allow_replication_factor_change) } else { Seq::<u8>::empty() }) + ((array_bytes::<ReassignableTopic>(m.topics, Ctx { version: version, flexible: (version >= 0), classic: false }))->Ok_0) + (if (version >= 0) { uvarint_bytes(0) } else { Seq::<u8>::empty() })),
            Self::reads_back_message(m, version) ==> Self::spec_deserialize(pre + ((i32_bytes(m.timeout_ms)) + (if 1 <= version { bool_bytes(m.allow_replication_factor_change) } else { Seq::<u8>::empty() }) + ((array_bytes::<ReassignableTopic>(m.topics, Ctx { version: version, flexible: (version >= 0), classic: false }))->Ok_0) + (if (version >= 0) { uvarint_bytes(0) } else { Seq::<u8>::empty() })) + post, pre.len() as int, version) == Ok::<(AlterPartitionReassignmentsRequestModel, int), SerializationError>((AlterPartitionReassignmentsRequestModel { timeout_ms: m.timeout_ms, allow_replication_factor_change: if 1 <= version { m.allow_replication_factor_change } else { true }, topics: m.topics }, pre.len() as int + ((i32_bytes(m.timeout_ms)) + (if 1 <= version { bool_bytes(m.allow_replication_factor_change) } else { Seq::<u8>::empty() }) + ((array_bytes::<ReassignableTopic>(m.topics, Ctx { version: version, flexible: (version >= 0), classic: false }))->Ok_0) + (if (version >= 0) { uvarint_bytes(0) } else { Seq::<u8>::empty() })).len())),
    {
        let is_flexible = version >= 0;
        let ctx = Ctx { version, flexible: is_flexible, classic: false };
        let b0 = i32_bytes(m.timeout_ms);
        let b1 = if 1 <= ctx.version { bool_bytes(m.allow_replication_factor_change) } else { Seq::<u8>::empty() };
        let b2 = (array_bytes::<ReassignableTopic>(m.topics, Ctx { version: ctx.version, flexible: ctx.flexible, classic: false }))->Ok_0;
        let b3 = if ctx.flexible { uvarint_bytes(0) } else { Seq::<u8>::empty() };
        let e = Self::spec_serialize(m, version)->Ok_0;
        assert(e =~= Seq::<u8>::empty() + b0 + b1 + b2 + b3);
        assert(e =~= b0 + b1 + b2 + b3);
        if Self::reads_back_message(m, version) {
            Self::lemma_message_read_back(pre, m, post, version);
        }
    }

    /// Writing succeeds exactly when every field that the version carries can be
    /// encoded and every field that it leaves out, where leaving it out is an
    /// error, holds its default.
    #[verifier::spinoff_prover]
    pub proof fn lemma_message_write_succeeds(m: AlterPartitionReassignmentsRequestModel, version: i16)
        ensures
            Self::spec_serialize(m, version) is Ok <==> (!(1 <= version) ==> !(!m.allow_replication_factor_change)) && (array_bytes::<ReassignableTopic>(m.topics, Ctx { version: version, flexible: (version >= 0), classic: false }) is Ok),
    {
        let is_flexible = version >= 0;
        let ctx = Ctx { version, flexible: is_flexible, classic: false };
    }

    /// Writes the message body for `version`, which must be a supported version.
    /// On failure the buffer is left as it was.
    pub fn serialize(&self, version: ApiVersion, buf: &mut Vec<u8>) -> (r: Result<(), SerializationError>)
        requires
            0 <= version.0 <= 1,
        ensures
            write_exact(r, old(buf)@, final(buf)@, Self::spec_serialize(self.deep_view(), version.0)),
    {
        let start = buf.len();
        let r = self.write_body(version, buf);
        if r.is_err() {
            buf.truncate(start);
        }
        r
    }

    fn write_body(&self, version: ApiVersion, buf: &mut Vec<u8>) -> (r: Result<(), SerializationError>)
        requires
            0 <= version.0 <= 1,
        ensures
            write_ok(r, old(buf)@, final(buf)@, Self::spec_serialize(self.deep_view(), version.0)),
    {
        let is_flexible = version.0 >= Self::get_min_flexible_version().0;
        let ctx = Ctx::new(version, is_flexible);
        let ghost mut w: Seq<u8> = Seq::empty();
        put_i32(buf, self.timeout_ms);
        proof {
            w = w + i32_bytes(self.timeout_ms);
        }
        assert(buf@ =~= old(buf)@ + w);
        if 1 <= ctx.version {
            put_bool(buf, self.allow_replication_factor_change);
            proof {
                w = w + bool_bytes(self.allow_replication_factor_change);
            }
            assert(buf@ =~= old(buf)@ + w);
        } else if !self.allow_replication_factor_change {
            return Err(SerializationError::FieldNotAvailable { field: "AllowReplicationFactorChange", version: ctx.version, api_name: "AlterPartitionReassignmentsRequest" });
        }
        encode_array(&self.topics, buf, Ctx { version: ctx.version, flexible: ctx.flexible, classic: false })?;
        proof {
            w = w + (array_bytes::<ReassignableTopic>(self.topics.deep_view(), Ctx { version: ctx.version, flexible: ctx.flexible, classic: false }))->Ok_0;
        }
        assert(buf@ =~= old(buf)@ + w);
        if ctx.flexible {
            encode_unsigned_varint(0, buf);
            proof {
                w = w + uvarint_bytes(0);
            }
            assert(buf@ =~= old(buf)@ + w);
        }
        Ok(())
    }

    /// Reads a message body written for `version`.
    /// On failure the reader is put back where it started.
    pub fn deserialize(version: ApiVersion, buf: &mut Reader) -> (r: Result<Self, SerializationError>)
        ensures
            final(buf).bytes() == old(buf).bytes(),
            read_view_exact(r, Self::spec_deserialize(old(buf).bytes(), old(buf).pos(), version.0), old(buf).pos(), final(buf).pos()),
    {
        let start = buf.position();
        let r = Self::read_body(version, buf);
        if r.is_err() {
            buf.set_position(start);
        }
        r
    }

    fn read_body(version: ApiVersion, buf: &mut Reader) -> (r: Result<Self, SerializationError>)
        ensures
            final(buf).bytes() == old(buf).bytes(),
            read_view_ok(r, Self::spec_deserialize(old(buf).bytes(), old(buf).pos(), version.0), final(buf).pos()),
    {
        let is_flexible = version.0 >= Self::get_min_flexible_version().0;
        let ctx = Ctx::new(version, is_flexible);
        let timeout_ms = buf.get_i32()?;
        let allow_replication_factor_change = if 1 <= ctx.version {
            buf.get_bool()?
        } else {
            true
        };
        let topics = decode_array::<ReassignableTopic>(buf, Ctx { version: ctx.version, flexible: ctx.flexible, classic: false })?;
        if ctx.flexible {
            let (_tag_count, _) = decode_unsigned_varint(buf)?;
        }
        Ok(AlterPartitionReassignmentsRequest { timeout_ms, allow_replication_factor_change, topics })
    }
}

// -------------------------------------------------------
// ReassignablePartition
// -------------------------------------------------------
#[derive(Clone, Debug, Default, PartialEq)]
pub struct ReassignablePartition {
    /// The partition index.
    pub partition_index: i32,
    /// The replicas to place the partitions on, or null to cancel a pending reassignment for this partition.
    pub replicas: Option<Vec<i32>>,
}

/// The contents of `ReassignablePartition`, with strings as characters and
/// nested values by their contents.
pub struct ReassignablePartitionModel {
    pub partition_index: i32,
    pub replicas: Option<Seq<<i32 as DeepView>::V>>,
}

impl DeepView for ReassignablePartition {
    type V = ReassignablePartitionModel;

    open spec fn deep_view(&self) -> ReassignablePartitionModel {
        ReassignablePartitionModel {
            partition_index: self.partition_index,
            replicas: self.replicas.deep_view(),
        }
    }
}

impl ReassignablePartition {
    /// The encoding of the structure in context `ctx`.
    pub open spec fn spec_encode_body(m: ReassignablePartitionModel, ctx: Ctx) -> Result<Seq<u8>, SerializationError> {
        let r = Ok(Seq::<u8>::empty());
        let r = then(r, Ok(i32_bytes(m.partition_index)));
        let r = then(r, nullable_array_bytes::<i32>(m.replicas, Ctx { version: ctx.version, flexible: ctx.flexible, classic: false }));
        let r = if ctx.flexible { then(r, Ok(uvarint_bytes(0))) } else { r };
        r
    }

    /// The structure read from `s` at `pos` in context `ctx`.
    pub open spec fn spec_decode_body(s: Seq<u8>, pos: int, ctx: Ctx) -> Result<(ReassignablePartitionModel, int), SerializationError> {
        match parse_i32(s, pos) {
            Err(e) => Err(e),
            Ok((partition_index, pos)) =>
            match parse_nullable_array::<i32>(s, pos, Ctx { version: ctx.version, flexible: ctx.flexible, classic: false }) {
                Err(e) => Err(e),
                Ok((replicas, pos)) =>
                match (if ctx.flexible { parse_uvarint(s, pos) } else { Ok((0u64, pos)) }) {
                    Err(e) => Err(e),
                    Ok((_tag_count, pos)) =>
                    Ok((ReassignablePartitionModel { partition_index, replicas }, pos))
                }
            }
        }
    }

    /// Values of the structure that read back from their encoding in `ctx`: every
    /// field that the version leaves out holds its default, and nested values
    /// read back.
    pub open spec fn reads_back_body(m: ReassignablePartitionModel, ctx: Ctx) -> bool {
        &&& (m.replicas matches Some(items) ==> forall|i: int| 0 <= i < items.len() ==> #[trigger] <i32 as KafkaCodec>::reads_back(items[i], Ctx { version: ctx.version, flexible: ctx.flexible, classic: false }))
    }

    /// A value that can be written in `ctx` and reads back: decoding its encoding,
    /// wherever it stands, gives the value and the position just after it.
    #[verifier::spinoff_prover]
    pub proof fn lemma_body_read_back(pre: Seq<u8>, m: ReassignablePartitionModel, post: Seq<u8>, ctx: Ctx)
        requires
            Self::spec_encode_body(m, ctx) is Ok,
            Self::reads_back_body(m, ctx),
        ensures
            Self::spec_decode_body(pre + Self::spec_encode_body(m, ctx)->Ok_0 + post, pre.len() as int, ctx) == Ok::<(ReassignablePartitionModel, int), SerializationError>((m, pre.len() as int + Self::spec_encode_body(m, ctx)->Ok_0.len())),
    {
        let b0 = i32_bytes(m.partition_index);
        let b1 = (nullable_array_bytes::<i32>(m.replicas, Ctx { version: ctx.version, flexible: ctx.flexible, classic: false }))->Ok_0;
        let b2 = if ctx.flexible { uvarint_bytes(0) } else { Seq::<u8>::empty() };
        let t3 = post;
        let t2 = b2 + t3;
        let t1 = b1 + t2;
        let t0 = b0 + t1;
        let e = Self::spec_encode_body(m, ctx)->Ok_0;
        assert(e =~= Seq::<u8>::empty() + b0 + b1 + b2);
        lemma_seq_assoc(((Seq::<u8>::empty() + b0) + b1), b2, post);
        lemma_seq_assoc((Seq::<u8>::empty() + b0), b1, (b2 + post));
        lemma_seq_assoc(Seq::<u8>::empty(), b0, (b1 + (b2 + post)));
        lemma_seq_empty_left((b0 + (b1 + (b2 + post))));
        let s = pre + e + post;
        lemma_seq_assoc(pre, e, post);
        assert(s == pre + t0);
        let a0 = pre;
        assert(parse_i32(s, a0.len() as int) == Ok::<(i32, int), SerializationError>((m.partition_index, a0.len() as int + b0.len()))) by {
            lemma_seq_assoc(a0, b0, t1);
            lemma_i32_roundtrip(a0, m.partition_index, t1);
        }
        lemma_seq_assoc(a0, b0, t1);
        let a1 = a0 + b0;
        assert(parse_nullable_array::<i32>(s, a1.len() as int, Ctx { version: ctx.version, flexible: ctx.flexible, classic: false }) == Ok::<(Option<Seq<<i32 as DeepView>::V>>, int), SerializationError>((m.replicas, a1.len() as int + b1.len()))) by {
            assert(nullable_array_bytes::<i32>(m.replicas, Ctx { version: ctx.version, flexible: ctx.flexible, classic: false }) is Ok);
            lemma_seq_assoc(a1, b1, t2);
            if let Some(items) = m.replicas {
                lemma_items_read_back::<i32>(items, Ctx { version: ctx.version, flexible: ctx.flexible, classic: false });
            }
            lemma_nullable_array_roundtrip::<i32>(a1, m.replicas, t2, Ctx { version: ctx.version, flexible: ctx.flexible, classic: false });
        }
        lemma_seq_assoc(a1, b1, t2);
        let a2 = a1 + b1;
        if ctx.flexible {
            assert(parse_uvarint(s, a2.len() as int) == Ok::<(u64, int), SerializationError>((0u64, a2.len() as int + b2.len()))) by {
                lemma_seq_assoc(a2, b2, t3);
                lemma_uvarint_roundtrip(a2, 0, t3);
            }
        }
    }

    /// The bytes written: the encoding of each field, in the order of the
    /// protocol's layout. Reading them back, wherever they stand, gives the value,
    /// with each field that the version leaves out at its default.
    #[verifier::spinoff_prover]
    pub proof fn lemma_body_layout(pre: Seq<u8>, m: ReassignablePartitionModel, post: Seq<u8>, ctx: Ctx)
        requires
            Self::spec_encode_body(m, ctx) is Ok,
        ensures
            Self::spec_encode_body(m, ctx) == Ok::<Seq<u8>, SerializationError>((i32_bytes(m.partition_index)) + ((nullable_array_bytes::<i32>(m.replicas, Ctx { version: ctx.version, flexible: ctx.flexible, classic: false }))->Ok_0) + (if ctx.flexible { uvarint_bytes(0) } else { Seq::<u8>::empty() })),
            Self::reads_back_body(m, ctx) ==> Self::spec_decode_body(pre + ((i32_bytes(m.partition_index)) + ((nullable_array_bytes::<i32>(m.replicas, Ctx { version: ctx.version, flexible: ctx.flexible, classic: false }))->Ok_0) + (if ctx.flexible { uvarint_bytes(0) } else { Seq::<u8>::empty() })) + post, pre.len() as int, ctx) == Ok::<(ReassignablePartitionModel, int), SerializationError>((m, pre.len() as int + ((i32_bytes(m.partition_index)) + ((nullable_array_bytes::<i32>(m.replicas, Ctx { version: ctx.version, flexible: ctx.flexible, classic: false }))->Ok_0) + (if ctx.flexible { uvarint_bytes(0) } else { Seq::<u8>::empty() })).len())),
    {
        let b0 = i32_bytes(m.partition_index);
        let b1 = (nullable_array_bytes::<i32>(m.replicas, Ctx { version: ctx.version, flexible: ctx.flexible, classic: false }))->Ok_0;
        let b2 = if ctx.flexible { uvarint_bytes(0) } else { Seq::<u8>::empty() };
        let e = Self::spec_encode_body(m, ctx)->Ok_0;
        assert(e =~= Seq::<u8>::empty() + b0 + b1 + b2);
        assert(e =~= b0 + b1 + b2);
        if Self::reads_back_body(m, ctx) {
            Self::lemma_body_read_back(pre, m, post, ctx);
        }
    }

    /// Writing succeeds exactly when every field that the version carries can be
    /// encoded and every field that it leaves out, where leaving it out is an
    /// error, holds its default.
    #[verifier::spinoff_prover]
    pub proof fn lemma_body_write_succeeds(m: ReassignablePartitionModel, ctx: Ctx)
        ensures
            Self::spec_encode_body(m, ctx) is Ok <==> (nullable_array_bytes::<i32>(m.replicas, Ctx { version: ctx.version, flexible: ctx.flexible, classic: false }) is Ok),
    {
    }

    /// Writes the structure for `version`, with the compact encodings when `is_flexible`.
    /// On failure the buffer is left as it was.
    pub fn encode(&self, buf: &mut Vec<u8>, version: ApiVersion, is_flexible: bool) -> (r: Result<(), SerializationError>)
        ensures
            write_exact(r, old(buf)@, final(buf)@, Self::spec_encode_body(self.deep_view(), Ctx { version: version.0, flexible: is_flexible, classic: false })),
    {
        let start = buf.len();
        let r = self.encode_ctx(buf, Ctx::new(version, is_flexible));
        if r.is_err() {
            buf.truncate(start);
        }
        r
    }

    /// Reads the structure as written for `version`.
    /// On failure the reader is put back where it started.
    pub fn decode(buf: &mut Reader, version: ApiVersion, is_flexible: bool) -> (r: Result<Self, SerializationError>)
        ensures
            final(buf).bytes() == old(buf).bytes(),
            read_view_exact(r, Self::spec_decode_body(old(buf).bytes(), old(buf).pos(), Ctx { version: version.0, flexible: is_flexible, classic: false }), old(buf).pos(), final(buf).pos()),
    {
        let start = buf.position();
        let r = Self::decode_ctx(buf, Ctx::new(version, is_flexible));
        if r.is_err() {
            buf.set_position(start);
        }
        r
    }
}

impl KafkaCodec for ReassignablePartition {
    open spec fn spec_encode(m: ReassignablePartitionModel, ctx: Ctx) -> Result<Seq<u8>, SerializationError> {
        Self::spec_encode_body(m, ctx)
    }

    open spec fn spec_decode(s: Seq<u8>, pos: int, ctx: Ctx) -> Result<(ReassignablePartitionModel, int), SerializationError> {
        Self::spec_decode_body(s, pos, ctx)
    }

    open spec fn reads_back(v: ReassignablePartitionModel, ctx: Ctx) -> bool {
        Self::reads_back_body(v, ctx)
    }

    proof fn lemma_read_back(pre: Seq<u8>, v: ReassignablePartitionModel, post: Seq<u8>, ctx: Ctx) {
        Self::lemma_body_read_back(pre, v, post, ctx);
        assert(Self::spec_decode(pre + Self::spec_encode(v, ctx)->Ok_0 + post, pre.len() as int, ctx)
            == Self::spec_decode_body(pre + Self::spec_encode_body(v, ctx)->Ok_0 + post, pre.len() as int, ctx));
    }

    fn encode_ctx(&self, buf: &mut Vec<u8>, ctx: Ctx) -> (r: Result<(), SerializationError>) {
        let ghost mut w: Seq<u8> = Seq::empty();
        put_i32(buf, self.partition_index);
        proof {
            w = w + i32_bytes(self.partition_index);
        }
        assert(buf@ =~= old(buf)@ + w);
        encode_nullable_array(&self.replicas, buf, Ctx { version: ctx.version, flexible: ctx.flexible, classic: false })?;
        proof {
            w = w + (nullable_array_bytes::<i32>(self.replicas.deep_view(), Ctx { version: ctx.version, flexible: ctx.flexible, classic: false }))->Ok_0;
        }
        assert(buf@ =~= old(buf)@ + w);
        if ctx.flexible {
            encode_unsigned_varint(0, buf);
            proof {
                w = w + uvarint_bytes(0);
            }
            assert(buf@ =~= old(buf)@ + w);
        }
        Ok(())
    }

    fn decode_ctx(buf: &mut Reader, ctx: Ctx) -> (r: Result<Self, SerializationError>) {
        let partition_index = buf.get_i32()?;
        let replicas = decode_nullable_array::<i32>(buf, Ctx { version: ctx.version, flexible: ctx.flexible, classic: false })?;
        if ctx.flexible {
            let (_tag_count, _) = decode_unsigned_varint(buf)?;
        }
        Ok(ReassignablePartition { partition_index, replicas })
    }
}

// -------------------------------------------------------
// ReassignableTopic
// -------------------------------------------------------
#[derive(Clone, Debug, Default, PartialEq)]
pub struct ReassignableTopic {
    /// The topic name.
    pub name: String,
    /// The partitions to reassign.
    pub partitions: Vec<ReassignablePartition>,
}

/// The contents of `ReassignableTopic`, with strings as characters and
/// nested values by their contents.
pub struct ReassignableTopicModel {
    pub name: Seq<char>,
    pub partitions: Seq<<ReassignablePartition as DeepView>::V>,
}

impl DeepView for ReassignableTopic {
    type V = ReassignableTopicModel;

    open spec fn deep_view(&self) -> ReassignableTopicModel {
        ReassignableTopicModel {
            name: self.name.deep_view(),
            partitions: self.partitions.deep_view(),
        }
    }
}

impl ReassignableTopic {
    /// The encoding of the structure in context `ctx`.
    pub open spec fn spec_encode_body(m: ReassignableTopicModel, ctx: Ctx) -> Result<Seq<u8>, SerializationError> {
        let r = Ok(Seq::<u8>::empty());
        let r = then(r, string_bytes(m.name, ctx.flexible));
        let r = then(r, array_bytes::<ReassignablePartition>(m.partitions, Ctx { version: ctx.version, flexible: ctx.flexible, classic: false }));
        let r = if ctx.flexible { then(r, Ok(uvarint_bytes(0))) } else { r };
        r
    }

    /// The structure read from `s` at `pos` in context `ctx`.
    pub open spec fn spec_decode_body(s: Seq<u8>, pos: int, ctx: Ctx) -> Result<(ReassignableTopicModel, int), SerializationError> {
        match parse_string(s, pos, ctx.flexible) {
            Err(e) => Err(e),
            Ok((name, pos)) =>
            match parse_array::<ReassignablePartition>(s, pos, Ctx { version: ctx.version, flexible: ctx.flexible, classic: false }) {
                Err(e) => Err(e),
                Ok((partitions, pos)) =>
                match (if ctx.flexible { parse_uvarint(s, pos) } else { Ok((0u64, pos)) }) {
                    Err(e) => Err(e),
                    Ok((_tag_count, pos)) =>
                    Ok((ReassignableTopicModel { name, partitions }, pos))
                }
            }
        }
    }

    /// Values of the structure that read back from their encoding in `ctx`: every
    /// field that the version leaves out holds its default, and nested values
    /// read back.
    pub open spec fn reads_back_body(m: ReassignableTopicModel, ctx: Ctx) -> bool {
        &&& forall|i: int| 0 <= i < m.partitions.len() ==> #[trigger] <ReassignablePartition as KafkaCodec>::reads_back(m.partitions[i], Ctx { version: ctx.version, flexible: ctx.flexible, classic: false })
    }

    /// A value that can be written in `ctx` and reads back: decoding its encoding,
    /// wherever it stands, gives the value and the position just after it.
    #[verifier::spinoff_prover]
    pub proof fn lemma_body_read_back(pre: Seq<u8>, m: ReassignableTopicModel, post: Seq<u8>, ctx: Ctx)
        requires
            Self::spec_encode_body(m, ctx) is Ok,
            Self::reads_back_body(m, ctx),
        ensures
            Self::spec_decode_body(pre + Self::spec_encode_body(m, ctx)->Ok_0 + post, pre.len() as int, ctx) == Ok::<(ReassignableTopicModel, int), SerializationError>((m, pre.len() as int + Self::spec_encode_body(m, ctx)->Ok_0.len())),
    {
        let b0 = (string_bytes(m.name, ctx.flexible))->Ok_0;
        let b1 = (array_bytes::<ReassignablePartition>(m.partitions, Ctx { version: ctx.version, flexible: ctx.flexible, classic: false }))->Ok_0;
        let b2 = if ctx.flexible { uvarint_bytes(0) } else { Seq::<u8>::empty() };
        let t3 = post;
        let t2 = b2 + t3;
        let t1 = b1 + t2;
        let t0 = b0 + t1;
        let e = Self::spec_encode_body(m, ctx)->Ok_0;
        assert(e =~= Seq::<u8>::empty() + b0 + b1 + b2);
        lemma_seq_assoc(((Seq::<u8>::empty() + b0) + b1), b2, post);
        lemma_seq_assoc((Seq::<u8>::empty() + b0), b1, (b2 + post));
        lemma_seq_assoc(Seq::<u8>::empty(), b0, (b1 + (b2 + post)));
        lemma_seq_empty_left((b0 + (b1 + (b2 + post))));
        let s = pre + e + post;
        lemma_seq_assoc(pre, e, post);
        assert(s == pre + t0);
        let a0 = pre;
        assert(parse_string(s, a0.len() as int, ctx.flexible) == Ok::<(Seq<char>, int), SerializationError>((m.name, a0.len() as int + b0.len()))) by {
            assert(string_bytes(m.name, ctx.flexible) is Ok);
            lemma_seq_assoc(a0, b0, t1);
            lemma_string_roundtrip(a0, m.name, t1, ctx.flexible);
        }
        lemma_seq_assoc(a0, b0, t1);
        let a1 = a0 + b0;
        assert(parse_array::<ReassignablePartition>(s, a1.len() as int, Ctx { version: ctx.version, flexible: ctx.flexible, classic: false }) == Ok::<(Seq<<ReassignablePartition as DeepView>::V>, int), SerializationError>((m.partitions, a1.len() as int + b1.len()))) by {
            assert(array_bytes::<ReassignablePartition>(m.partitions, Ctx { version: ctx.version, flexible: ctx.flexible, classic: false }) is Ok);
            lemma_seq_assoc(a1, b1, t2);
            lemma_items_read_back::<ReassignablePartition>(m.partitions, Ctx { version: ctx.version, flexible: ctx.flexible, classic: false });
            lemma_array_roundtrip::<ReassignablePartition>(a1, m.partitions, t2, Ctx { version: ctx.version, flexible: ctx.flexible, classic: false });
        }
        lemma_seq_assoc(a1, b1, t2);
        let a2 = a1 + b1;
        if ctx.flexible {
            assert(parse_uvarint(s, a2.len() as int) == Ok::<(u64, int), SerializationError>((0u64, a2.len() as int + b2.len()))) by {
                lemma_seq_assoc(a2, b2, t3);
                lemma_uvarint_roundtrip(a2, 0, t3);
            }
        }
    }

    /// The bytes written: the encoding of each field, in the order of the
    /// protocol's layout. Reading them back, wherever they stand, gives the value,
    /// with each field that the version leaves out at its default.
    #[verifier::spinoff_prover]
    pub proof fn lemma_body_layout(pre: Seq<u8>, m: ReassignableTopicModel, post: Seq<u8>, ctx: Ctx)
        requires
            Self::spec_encode_body(m, ctx) is Ok,
        ensures
            Self::spec_encode_body(m, ctx) == Ok::<Seq<u8>, SerializationError>(((string_bytes(m.name, ctx.flexible))->Ok_0) + ((array_bytes::<ReassignablePartition>(m.partitions, Ctx { version: ctx.version, flexible: ctx.flexible, classic: false }))->Ok_0) + (if ctx.flexible { uvarint_bytes(0) } else { Seq::<u8>::empty() })),
            Self::reads_back_body(m, ctx) ==> Self::spec_decode_body(pre + (((string_bytes(m.name, ctx.flexible))->Ok_0) + ((array_bytes::<ReassignablePartition>(m.partitions, Ctx { version: ctx.version, flexible: ctx.flexible, classic: false }))->Ok_0) + (if ctx.flexible { uvarint_bytes(0) } else { Seq::<u8>::empty() })) + post, pre.len() as int, ctx) == Ok::<(ReassignableTopicModel, int), SerializationError>((m, pre.len() as int + (((string_bytes(m.name, ctx.flexible))->Ok_0) + ((array_bytes::<ReassignablePartition>(m.partitions, Ctx { version: ctx.version, flexible: ctx.flexible, classic: false }))->Ok_0) + (if ctx.flexible { uvarint_bytes(0) } else { Seq::<u8>::empty() })).len())),
    {
        let b0 = (string_bytes(m.name, ctx.flexible))->Ok_0;
        let b1 = (array_bytes::<ReassignablePartition>(m.partitions, Ctx { version: ctx.version, flexible: ctx.flexible, classic: false }))->Ok_0;
        let b2 = if ctx.flexible { uvarint_bytes(0) } else { Seq::<u8>::empty() };
        let e = Self::spec_encode_body(m, ctx)->Ok_0;
        assert(e =~= Seq::<u8>::empty() + b0 + b1 + b2);
        assert(e =~= b0 + b1 + b2);
        if Self::reads_back_body(m, ctx) {
            Self::lemma_body_read_back(pre, m, post, ctx);
        }
    }

    /// Writing succeeds exactly when every field that the version carries can be
    /// encoded and every field that it leaves out, where leaving it out is an
    /// error, holds its default.
    #[verifier::spinoff_prover]
    pub proof fn lemma_body_write_succeeds(m: ReassignableTopicModel, ctx: Ctx)
        ensures
            Self::spec_encode_body(m, ctx) is Ok <==> (string_bytes(m.name, ctx.flexible) is Ok) && (array_bytes::<ReassignablePartition>(m.partitions, Ctx { version: ctx.version, flexible: ctx.flexible, classic: false }) is Ok),
    {
    }

    /// Writes the structure for `version`, with the compact encodings when `is_flexible`.
    /// On failure the buffer is left as it was.
    pub fn encode(&self, buf: &mut Vec<u8>, version: ApiVersion, is_flexible: bool) -> (r: Result<(), SerializationError>)
        ensures
            write_exact(r, old(buf)@, final(buf)@, Self::spec_encode_body(self.deep_view(), Ctx { version: version.0, flexible: is_flexible, classic: false })),
    {
        let start = buf.len();
        let r = self.encode_ctx(buf, Ctx::new(version, is_flexible));
        if r.is_err() {
            buf.truncate(start);
        }
        r
    }

    /// Reads the structure as written for `version`.
    /// On failure the reader is put back where it started.
    pub fn decode(buf: &mut Reader, version: ApiVersion, is_flexible: bool) -> (r: Result<Self, SerializationError>)
        ensures
            final(buf).bytes() == old(buf).bytes(),
            read_view_exact(r, Self::spec_decode_body(old(buf).bytes(), old(buf).pos(), Ctx { version: version.0, flexible: is_flexible, classic: false }), old(buf).pos(), final(buf).pos()),
    {
        let start = buf.position();
        let r = Self::decode_ctx(buf, Ctx::new(version, is_flexible));
        if r.is_err() {
            buf.set_position(start);
        }
        r
    }
}

impl KafkaCodec for ReassignableTopic {
    open spec fn spec_encode(m: ReassignableTopicModel, ctx: Ctx) -> Result<Seq<u8>, SerializationError> {
        Self::spec_encode_body(m, ctx)
    }

    open spec fn spec_decode(s: Seq<u8>, pos: int, ctx: Ctx) -> Result<(ReassignableTopicModel, int), SerializationError> {
        Self::spec_decode_body(s, pos, ctx)
    }

    open spec fn reads_back(v: ReassignableTopicModel, ctx: Ctx) -> bool {
        Self::reads_back_body(v, ctx)
    }

    proof fn lemma_read_back(pre: Seq<u8>, v: ReassignableTopicModel, post: Seq<u8>, ctx: Ctx) {
        Self::lemma_body_read_back(pre, v, post, ctx);
        assert(Self::spec_decode(pre + Self::spec_encode(v, ctx)->Ok_0 + post, pre.len() as int, ctx)
            == Self::spec_decode_body(pre + Self::spec_encode_body(v, ctx)->Ok_0 + post, pre.len() as int, ctx));
    }

    fn encode_ctx(&self, buf: &mut Vec<u8>, ctx: Ctx) -> (r: Result<(), SerializationError>) {
        let ghost mut w: Seq<u8> = Seq::empty();
        encode_string(&self.name, buf, ctx.flexible)?;
        proof {
            w = w + (string_bytes(self.name.deep_view(), ctx.flexible))->Ok_0;
        }
        assert(buf@ =~= old(buf)@ + w);
        encode_array(&self.partitions, buf, Ctx { version: ctx.version, flexible: ctx.flexible, classic: false })?;
        proof {
            w = w + (array_bytes::<ReassignablePartition>(self.partitions.deep_view(), Ctx { version: ctx.version, flexible: ctx.flexible, classic: false }))->Ok_0;
        }
        assert(buf@ =~= old(buf)@ + w);
        if ctx.flexible {
            encode_unsigned_varint(0, buf);
            proof {
                w = w + uvarint_bytes(0);
            }
            assert(buf@ =~= old(buf)@ + w);
        }
        Ok(())
    }

    fn decode_ctx(buf: &mut Reader, ctx: Ctx) -> (r: Result<Self, SerializationError>) {
        let name = buf.get_string(ctx.flexible)?;
        let partitions = decode_array::<ReassignablePartition>(buf, Ctx { version: ctx.version, flexible: ctx.flexible, classic: false })?;
        if ctx.flexible {
            let (_tag_count, _) = decode_unsigned_varint(buf)?;
        }
        Ok(ReassignableTopic { name, partitions })
    }
}

} // verus!
