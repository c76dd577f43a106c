//! DeleteTopicsResponse (API key 20).
use vstd::prelude::*;
use crate::roundtrip::{lemma_array_roundtrip, lemma_i16_roundtrip, lemma_i32_roundtrip,
    lemma_items_read_back, lemma_nullable_string_roundtrip, lemma_seq_assoc, lemma_seq_empty_left,
    lemma_uuid_roundtrip, lemma_uvarint_roundtrip};
use crate::serialization::{Ctx, KafkaCodec, Reader, SerializationError, array_bytes, decode_array,
    decode_unsigned_varint, encode_array, encode_nullable_string, encode_unsigned_varint,
    encode_uuid, i16_bytes, i32_bytes, nullable_string_bytes, parse_array, parse_i16, parse_i32,
    parse_nullable_string, parse_raw, parse_uvarint, put_i16, put_i32, read_view_exact,
    read_view_ok, then, uvarint_bytes, write_exact, write_ok, zero_uuid, zero_uuid_bytes};
use crate::{ApiKey, ApiVersion};

verus! {

// -------------------------------------------------------
// DeleteTopicsResponse
// -------------------------------------------------------
#[derive(Clone, Debug, Default, PartialEq)]
pub struct DeleteTopicsResponse {
    /// The duration in milliseconds for which the request was throttled due to a quota violation, or zero if the request did not violate any quota.
    /// Available in version 1+.
    pub throttle_time_ms: i32,
    /// The results for each topic we tried to delete.
    pub responses: Vec<DeletableTopicResult>,
}

/// The contents of `DeleteTopicsResponse`, with strings as characters and
/// nested values by their contents.
pub struct DeleteTopicsResponseModel {
    pub throttle_time_ms: i32,
    pub responses: Seq<<DeletableTopicResult as DeepView>::V>,
}

impl DeepView for DeleteTopicsResponse {
    type V = DeleteTopicsResponseModel;

    open spec fn deep_view(&self) -> DeleteTopicsResponseModel {
        DeleteTopicsResponseModel {
            throttle_time_ms: self.throttle_time_ms,
            responses: self.responses.deep_view(),
        }
    }
}

impl DeleteTopicsResponse {
    /// The encoding of the structure in context `ctx`.
    pub open spec fn spec_encode_body(m: DeleteTopicsResponseModel, ctx: Ctx) -> Result<Seq<u8>, SerializationError> {
        let r = Ok(Seq::<u8>::empty());
        let r = if 1 <= ctx.version { then(r, Ok(i32_bytes(m.throttle_time_ms))) } else { r };
        let r = then(r, array_bytes::<DeletableTopicResult>(m.responses, Ctx { version: ctx.version, flexible: ctx.flexible, classic: false }));
        let r = if ctx.flexible { then(r, Ok(uvarint_bytes(0))) } else { r };
        r
    }

    /// The structure read from `s` at `pos` in context `ctx`.
    pub open spec fn spec_decode_body(s: Seq<u8>, pos: int, ctx: Ctx) -> Result<(DeleteTopicsResponseModel, int), SerializationError> {
        match (if 1 <= ctx.version { parse_i32(s, pos) } else { Ok((0i32, pos)) }) {
            Err(e) => Err(e),
            Ok((throttle_time_ms, pos)) =>
            match parse_array::<DeletableTopicResult>(s, pos, Ctx { version: ctx.version, flexible: ctx.flexible, classic: false }) {
                Err(e) => Err(e),
                Ok((responses, pos)) =>
                match (if ctx.flexible { parse_uvarint(s, pos) } else { Ok((0u64, pos)) }) {
                    Err(e) => Err(e),
                    Ok((_tag_count, pos)) =>
                    Ok((DeleteTopicsResponseModel { throttle_time_ms, responses }, pos))
                }
            }
        }
    }

    /// The structure as it reads back in context `ctx`: each field that the
    /// version leaves out is at its default.
    #[verifier::opaque]
    pub open spec fn spec_read_as(m: DeleteTopicsResponseModel, ctx: Ctx) -> DeleteTopicsResponseModel {
        DeleteTopicsResponseModel { throttle_time_ms: if 1 <= ctx.version { m.throttle_time_ms } else { 0i32 }, responses: m.responses }
    }

    /// Values that read back in context `ctx`: nested values read back. A field
    /// that the version leaves out is read as its default.
    pub open spec fn reads_back_body(m: DeleteTopicsResponseModel, ctx: Ctx) -> bool {
        &&& forall|i: int| 0 <= i < m.responses.len() ==> #[trigger] <DeletableTopicResult as KafkaCodec>::reads_back(m.responses[i], Ctx { version: ctx.version, flexible: ctx.flexible, classic: false })
    }

    /// A value that can be written in context `ctx` and reads back: decoding its
    /// encoding, wherever it stands, gives the value as `spec_read_as` gives it and
    /// the position just after it.
    #[verifier::spinoff_prover]
    pub proof fn lemma_body_read_back(pre: Seq<u8>, m: DeleteTopicsResponseModel, post: Seq<u8>, ctx: Ctx)
        requires
            Self::spec_encode_body(m, ctx) is Ok,
            Self::reads_back_body(m, ctx),
        ensures
            Self::spec_decode_body(pre + Self::spec_encode_body(m, ctx)->Ok_0 + post, pre.len() as int, ctx) == Ok::<(DeleteTopicsResponseModel, int), SerializationError>((Self::spec_read_as(m, ctx), pre.len() as int + Self::spec_encode_body(m, ctx)->Ok_0.len())),
    {
        reveal(DeleteTopicsResponse::spec_read_as);
        let b0 = if 1 <= ctx.version { i32_bytes(m.throttle_time_ms) } else { Seq::<u8>::empty() };
        let b1 = (array_bytes::<DeletableTopicResult>(m.responses, Ctx { version: ctx.version, flexible: ctx.flexible, classic: false }))->Ok_0;
        let b2 = if ctx.flexible { uvarint_bytes(0) } else { Seq::<u8>::empty() };
        let t3 = post;
        let t2 = b2 + t3;
        let t1 = b1 + t2;
        let t0 = b0 + t1;
        let e = Self::spec_encode_body(m, ctx)->Ok_0;
        assert(e =~= Seq::<u8>::empty() + b0 + b1 + b2);
        lemma_seq_assoc(((Seq::<u8>::empty() + b0) + b1), b2, post);
        lemma_seq_assoc((Seq::<u8>::empty() + b0), b1, (b2 + post));
        lemma_seq_assoc(Seq::<u8>::empty(), b0, (b1 + (b2 + post)));
        lemma_seq_empty_left((b0 + (b1 + (b2 + post))));
        let s = pre + e + post;
        lemma_seq_assoc(pre, e, post);
        assert(s == pre + t0);
        let a0 = pre;
        if 1 <= ctx.version {
            assert(parse_i32(s, a0.len() as int) == Ok::<(i32, int), SerializationError>((m.throttle_time_ms, a0.len() as int + b0.len()))) by {
                lemma_seq_assoc(a0, b0, t1);
                lemma_i32_roundtrip(a0, m.throttle_time_ms, t1);
            }
        }
        lemma_seq_assoc(a0, b0, t1);
        let a1 = a0 + b0;
        assert(parse_array::<DeletableTopicResult>(s, a1.len() as int, Ctx { version: ctx.version, flexible: ctx.flexible, classic: false }) == Ok::<(Seq<<DeletableTopicResult as DeepView>::V>, int), SerializationError>((m.responses, a1.len() as int + b1.len()))) by {
            assert(array_bytes::<DeletableTopicResult>(m.responses, Ctx { version: ctx.version, flexible: ctx.flexible, classic: false }) is Ok);
            lemma_seq_assoc(a1, b1, t2);
            lemma_items_read_back::<DeletableTopicResult>(m.responses, Ctx { version: ctx.version, flexible: ctx.flexible, classic: false });
            lemma_array_roundtrip::<DeletableTopicResult>(a1, m.responses, t2, Ctx { version: ctx.version, flexible: ctx.flexible, classic: false });
        }
        lemma_seq_assoc(a1, b1, t2);
        let a2 = a1 + b1;
        if ctx.flexible {
            assert(parse_uvarint(s, a2.len() as int) == Ok::<(u64, int), SerializationError>((0u64, a2.len() as int + b2.len()))) by {
                lemma_seq_assoc(a2, b2, t3);
                lemma_uvarint_roundtrip(a2, 0, t3);
            }
        }
    }

    /// The bytes written: the encoding of each field, in the order of the
    /// protocol's layout. Reading them back, wherever they stand, gives the value,
    /// with each field that the version leaves out at its default.
    #[verifier::spinoff_prover]
    pub proof fn lemma_body_layout(pre: Seq<u8>, m: DeleteTopicsResponseModel, post: Seq<u8>, ctx: Ctx)
        requires
            Self::spec_encode_body(m, ctx) is Ok,
        ensures
            Self::spec_encode_body(m, ctx) == Ok::<Seq<u8>, SerializationError>((if 1 <= ctx.version { i32_bytes(m.throttle_time_ms) } else { Seq::<u8>::empty() }) + ((array_bytes::<DeletableTopicResult>(m.responses, Ctx { version: ctx.version, flexible: ctx.flexible, classic: false }))->Ok_0) + (if ctx.flexible { uvarint_bytes(0) } else { Seq::<u8>::empty() })),
            Self::reads_back_body(m, ctx) ==> Self::spec_decode_body(pre + ((if 1 <= ctx.version { i32_bytes(m.throttle_time_ms) } else { Seq::<u8>::empty() }) + ((array_bytes::<DeletableTopicResult>(m.responses, Ctx { version: ctx.version, flexible: ctx.flexible, classic: false }))->Ok_0) + (if ctx.flexible { uvarint_bytes(0) } else { Seq::<u8>::empty() })) + post, pre.len() as int, ctx) == Ok::<(DeleteTopicsResponseModel, int), SerializationError>((DeleteTopicsResponseModel { throttle_time_ms: if 1 <= ctx.version { m.throttle_time_ms } else { 0i32 }, responses: m.responses }, pre.len() as int + ((if 1 <= ctx.version { i32_bytes(m.throttle_time_ms) } else { Seq::<u8>::empty() }) + ((array_bytes::<DeletableTopicResult>(m.responses, Ctx { version: ctx.version, flexible: ctx.flexible, classic: false }))->Ok_0) + (if ctx.flexible { uvarint_bytes(0) } else { Seq::<u8>::empty() })).len())),
    {
        let b0 = if 1 <= ctx.version { i32_bytes(m.throttle_time_ms) } else { Seq::<u8>::empty() };
        let b1 = (array_bytes::<DeletableTopicResult>(m.responses, Ctx { version: ctx.version, flexible: ctx.flexible, classic: false }))->Ok_0;
        let b2 = if ctx.flexible { uvarint_bytes(0) } else { Seq::<u8>::empty() };
        let e = Self::spec_encode_body(m, ctx)->Ok_0;
        assert(e =~= Seq::<u8>::empty() + b0 + b1 + b2);
        assert(e =~= b0 + b1 + b2);
        if Self::reads_back_body(m, ctx) {
            Self::lemma_body_read_back(pre, m, post, ctx);
            reveal(DeleteTopicsResponse::spec_read_as);
        }
    }

    /// Writing succeeds exactly when every field that the version carries can be
    /// encoded and every field that it leaves out, where leaving it out is an
    /// error, holds its default.
    #[verifier::spinoff_prover]
    pub proof fn lemma_body_write_succeeds(m: DeleteTopicsResponseModel, ctx: Ctx)
        ensures
            Self::spec_encode_body(m, ctx) is Ok <==> (array_bytes::<DeletableTopicResult>(m.responses, Ctx { version: ctx.version, flexible: ctx.flexible, classic: false }) is Ok),
    {
    }

    /// Writes the structure for `version`, with the compact encodings when `is_flexible`.
    /// On failure the buffer is left as it was.
    pub fn encode(&self, buf: &mut Vec<u8>, version: ApiVersion, is_flexible: bool) -> (r: Result<(), SerializationError>)
        ensures
            write_exact(r, old(buf)@, final(buf)@, Self::spec_encode_body(self.deep_view(), Ctx { version: version.0, flexible: is_flexible, classic: false })),
    {
        let start = buf.len();
        let r = self.encode_ctx(buf, Ctx::new(version, is_flexible));
        if r.is_err() {
            buf.truncate(start);
        }
        r
    }

    /// Reads the structure as written for `version`.
    /// On failure the reader is put back where it started.
    pub fn decode(buf: &mut Reader, version: ApiVersion, is_flexible: bool) -> (r: Result<Self, SerializationError>)
        ensures
            final(buf).bytes() == old(buf).bytes(),
            read_view_exact(r, Self::spec_decode_body(old(buf).bytes(), old(buf).pos(), Ctx { version: version.0, flexible: is_flexible, classic: false }), old(buf).pos(), final(buf).pos()),
    {
        let start = buf.position();
        let r = Self::decode_ctx(buf, Ctx::new(version, is_flexible));
        if r.is_err() {
            buf.set_position(start);
        }
        r
    }
}

impl KafkaCodec for DeleteTopicsResponse {
    open spec fn spec_encode(m: DeleteTopicsResponseModel, ctx: Ctx) -> Result<Seq<u8>, SerializationError> {
        Self::spec_encode_body(m, ctx)
    }

    open spec fn spec_decode(s: Seq<u8>, pos: int, ctx: Ctx) -> Result<(DeleteTopicsResponseModel, int), SerializationError> {
        Self::spec_decode_body(s, pos, ctx)
    }

    open spec fn reads_back(v: DeleteTopicsResponseModel, ctx: Ctx) -> bool {
        Self::reads_back_body(v, ctx) && Self::spec_read_as(v, ctx) == v
    }

    proof fn lemma_read_back(pre: Seq<u8>, v: DeleteTopicsResponseModel, post: Seq<u8>, ctx: Ctx) {
        Self::lemma_body_read_back(pre, v, post, ctx);
        assert(Self::spec_decode(pre + Self::spec_encode(v, ctx)->Ok_0 + post, pre.len() as int, ctx)
            == Self::spec_decode_body(pre + Self::spec_encode_body(v, ctx)->Ok_0 + post, pre.len() as int, ctx));
    }

    fn encode_ctx(&self, buf: &mut Vec<u8>, ctx: Ctx) -> (r: Result<(), SerializationError>) {
        let ghost mut w: Seq<u8> = Seq::empty();
        if 1 <= ctx.version {
            put_i32(buf, self.throttle_time_ms);
            proof {
                w = w + i32_bytes(self.throttle_time_ms);
            }
            assert(buf@ =~= old(buf)@ + w);
        }
        encode_array(&self.responses, buf, Ctx { version: ctx.version, flexible: ctx.flexible, classic: false })?;
        proof {
            w = w + (array_bytes::<DeletableTopicResult>(self.responses.deep_view(), Ctx { version: ctx.version, flexible: ctx.flexible, classic: false }))->Ok_0;
        }
        assert(buf@ =~= old(buf)@ + w);
        if ctx.flexible {
            encode_unsigned_varint(0, buf);
            proof {
                w = w + uvarint_bytes(0);
            }
            assert(buf@ =~= old(buf)@ + w);
        }
        Ok(())
    }

    fn decode_ctx(buf: &mut Reader, ctx: Ctx) -> (r: Result<Self, SerializationError>) {
        let throttle_time_ms = if 1 <= ctx.version {
            buf.get_i32()?
        } else {
            0i32
        };
        let responses = decode_array::<DeletableTopicResult>(buf, Ctx { version: ctx.version, flexible: ctx.flexible, classic: false })?;
        if ctx.flexible {
            let (_tag_count, _) = decode_unsigned_varint(buf)?;
        }
        Ok(DeleteTopicsResponse { throttle_time_ms, responses })
    }
}

impl DeleteTopicsResponse {
    /// The API key of this message.
    pub fn get_api_key() -> (r: ApiKey)
        ensures
            r.0 == 20,
    {
        ApiKey::new(20)
    }

    /// The oldest version of this message.
    pub fn get_min_supported_version() -> (r: ApiVersion)
        ensures
            r.0 == 1,
    {
        ApiVersion::new(1)
    }

    /// The newest version of this message.
    pub fn get_max_supported_version() -> (r: ApiVersion)
        ensures
            r.0 == 6,
    {
        ApiVersion::new(6)
    }

    /// The first version of this message with the compact encodings.
    pub fn get_min_flexible_version() -> (r: ApiVersion)
        ensures
            r.0 == 4,
    {
        ApiVersion::new(4)
    }

    /// The encoding of a whole message body at `version`.
    pub open spec fn spec_serialize(m: DeleteTopicsResponseModel, version: i16) -> Result<Seq<u8>, SerializationError> {
        let is_flexible = version >= 4;
        let ctx = Ctx { version, flexible: is_flexible, classic: false };
        let r = Ok(Seq::<u8>::empty());
        let r = if 1 <= ctx.version { then(r, Ok(i32_bytes(m.throttle_time_ms))) } else if m.throttle_time_ms != 0 { then(r, Err(SerializationError::FieldNotAvailable { field: "ThrottleTimeMs", version: ctx.version, api_name: "DeleteTopicsResponse" })) } else { r };
        let r = then(r, array_bytes::<DeletableTopicResult>(m.responses, Ctx { version: ctx.version, flexible: ctx.flexible, classic: false }));
        let r = if ctx.flexible { then(r, Ok(uvarint_bytes(0))) } else { r };
        r
    }

    /// The message body read at `version`.
    pub open spec fn spec_deserialize(s: Seq<u8>, pos: int, version: i16) -> Result<(DeleteTopicsResponseModel, int), SerializationError> {
        let is_flexible = version >= 4;
        let ctx = Ctx { version, flexible: is_flexible, classic: false };
        match (if 1 <= ctx.version { parse_i32(s, pos) } else { Ok((0i32, pos)) }) {
            Err(e) => Err(e),
            Ok((throttle_time_ms, pos)) =>
            match parse_array::<DeletableTopicResult>(s, pos, Ctx { version: ctx.version, flexible: ctx.flexible, classic: false }) {
                Err(e) => Err(e),
                Ok((responses, pos)) =>
                match (if ctx.flexible { parse_uvarint(s, pos) } else { Ok((0u64, pos)) }) {
                    Err(e) => Err(e),
                    Ok((_tag_count, pos)) =>
                    Ok((DeleteTopicsResponseModel { throttle_time_ms, responses }, pos))
                }
            }
        }
    }

    /// Message bodies that read back when written at `version`: nested values read
    /// back. A field that the version leaves out is read as its default.
    pub open spec fn reads_back_message(m: DeleteTopicsResponseModel, version: i16) -> bool {
        let is_flexible = version >= 4;
        let ctx = Ctx { version, flexible: is_flexible, classic: false };
        &&& forall|i: int| 0 <= i < m.responses.len() ==> #[trigger] <DeletableTopicResult as KafkaCodec>::reads_back(m.responses[i], Ctx { version: ctx.version, flexible: ctx.flexible, classic: false })
    }

    /// A message body that can be written at `version` and reads back: reading a
    /// body at `version` from its bytes, wherever they stand, gives the same message,
    /// with each field that the version leaves out at its default.
    #[verifier::spinoff_prover]
    pub proof fn lemma_message_read_back(pre: Seq<u8>, m: DeleteTopicsResponseModel, post: Seq<u8>, version: i16)
        requires
            Self::spec_serialize(m, version) is Ok,
            Self::reads_back_message(m, version),
        ensures
            Self::spec_deserialize(pre + Self::spec_serialize(m, version)->Ok_0 + post, pre.len() as int, version) == Ok::<(DeleteTopicsResponseModel, int), SerializationError>((DeleteTopicsResponseModel { throttle_time_ms: if 1 <= version { m.throttle_time_ms } else { 0i32 }, responses: m.responses }, pre.len() as int + Self::spec_serialize(m, version)->Ok_0.len())),
    {
        let is_flexible = version >= 4;
        let ctx = Ctx { version, flexible: is_flexible, classic: false };
        let b0 = if 1 <= ctx.version { i32_bytes(m.throttle_time_ms) } else { Seq::<u8>::empty() };
        let b1 = (array_bytes::<DeletableTopicResult>(m.responses, Ctx { version: ctx.version, flexible: ctx.flexible, classic: false }))->Ok_0;
        let b2 = if ctx.flexible { uvarint_bytes(0) } else { Seq::<u8>::empty() };
        let t3 = post;
        let t2 = b2 + t3;
        let t1 = b1 + t2;
        let t0 = b0 + t1;
        let e = Self::spec_serialize(m, version)->Ok_0;
        assert(e =~= Seq::<u8>::empty() + b0 + b1 + b2);
        lemma_seq_assoc(((Seq::<u8>::empty() + b0) + b1), b2, post);
        lemma_seq_assoc((Seq::<u8>::empty() + b0), b1, (b2 + post));
        lemma_seq_assoc(Seq::<u8>::empty(), b0, (b1 + (b2 + post)));
        lemma_seq_empty_left((b0 + (b1 + (b2 + post))));
        let s = pre + e + post;
        lemma_seq_assoc(pre, e, post);
        assert(s == pre + t0);
        let a0 = pre;
        if 1 <= ctx.version {
            assert(parse_i32(s, a0.len() as int) == Ok::<(i32, int), SerializationError>((m.throttle_time_ms, a0.len() as int + b0.len()))) by {
                lemma_seq_assoc(a0, b0, t1);
                lemma_i32_roundtrip(a0, m.throttle_time_ms, t1);
            }
        }
        lemma_seq_assoc(a0, b0, t1);
        let a1 = a0 + b0;
        assert(parse_array::<DeletableTopicResult>(s, a1.len() as int, Ctx { version: ctx.version, flexible: ctx.flexible, classic: false }) == Ok::<(Seq<<DeletableTopicResult as DeepView>::V>, int), SerializationError>((m.responses, a1.len() as int + b1.len()))) by {
            assert(array_bytes::<DeletableTopicResult>(m.responses, Ctx { version: ctx.version, flexible: ctx.flexible, classic: false }) is Ok);
            lemma_seq_assoc(a1, b1, t2);
            lemma_items_read_back::<DeletableTopicResult>(m.responses, Ctx { version: ctx.version, flexible: ctx.flexible, classic: false });
            lemma_array_roundtrip::<DeletableTopicResult>(a1, m.responses, t2, Ctx { version: ctx.version, flexible: ctx.flexible, classic: false });
        }
        lemma_seq_assoc(a1, b1, t2);
        let a2 = a1 + b1;
        if ctx.flexible {
            assert(parse_uvarint(s, a2.len() as int) == Ok::<(u64, int), SerializationError>((0u64, a2.len() as int + b2.len()))) by {
                lemma_seq_assoc(a2, b2, t3);
                lemma_uvarint_roundtrip(a2, 0, t3);
            }
        }
    }

    /// The bytes written: the encoding of each field, in the order of the
    /// protocol's layout. Reading them back, wherever they stand, gives the value,
    /// with each field that the version leaves out at its default.
    #[verifier::spinoff_prover]
    pub proof fn lemma_message_layout(pre: Seq<u8>, m: DeleteTopicsResponseModel, post: Seq<u8>, version: i16)
        requires
            Self::spec_serialize(m, version) is Ok,
        ensures
            Self::spec_serialize(m, version) == Ok::<Seq<u8>, SerializationError>((if 1 <= version { i32_bytes(m.throttle_time_ms) } else { Seq::<u8>::empty() }) + ((array_bytes::<DeletableTopicResult>(m.responses, Ctx { version: version, flexible: (version >= 4), classic: false }))->Ok_0) + (if (version >= 4) { uvarint_bytes(0) } else { Seq::<u8>::empty() })),
            Self::reads_back_message(m, version) ==> Self::spec_deserialize(pre + ((if 1 <= version { i32_bytes(m.throttle_time_ms) } else { Seq::<u8>::empty() }) + ((array_bytes::<DeletableTopicResult>(m.responses, Ctx { version: version, flexible: (version >= 4), classic: false }))->Ok_0) + (if (version >= 4) { uvarint_bytes(0) } else { Seq::<u8>::empty() })) + post, pre.len() as int, version) == Ok::<(DeleteTopicsResponseModel, int), SerializationError>((DeleteTopicsResponseModel { throttle_time_ms: if 1 <= version { m.throttle_time_ms } else { 0i32 }, responses: m.responses }, pre.len() as int + ((if 1 <= version { i32_bytes(m.throttle_time_ms) } else { Seq::<u8>::empty() }) + ((array_bytes::<DeletableTopicResult>(m.responses, Ctx { version: version, flexible: (version >= 4), classic: false }))->Ok_0) + (if (version >= 4) { uvarint_bytes(0) } else { Seq::<u8>::empty() })).len())),
    {
        let is_flexible = version >= 4;
        let ctx = Ctx { version, flexible: is_flexible, classic: false };
        let b0 = if 1 <= ctx.version { i32_bytes(m.throttle_time_ms) } else { Seq::<u8>::empty() };
        let b1 = (array_bytes::<DeletableTopicResult>(m.responses, Ctx { version: ctx.version, flexible: ctx.flexible, classic: false }))->Ok_0;
        let b2 = if ctx.flexible { uvarint_bytes(0) } else { Seq::<u8>::empty() };
        let e = Self::spec_serialize(m, version)->Ok_0;
        assert(e =~= Seq::<u8>::empty() + b0 + b1 + b2);
        assert(e =~= b0 + b1 + b2);
        if Self::reads_back_message(m, version) {
            Self::lemma_message_read_back(pre, m, post, version);
        }
    }

    /// Writing succeeds exactly when every field that the version carries can be
    /// encoded and every field that it leaves out, where leaving it out is an
    /// error, holds its default.
    #[verifier::spinoff_prover]
    pub proof fn lemma_message_write_succeeds(m: DeleteTopicsResponseModel, version: i16)
        ensures
            Self::spec_serialize(m, version) is Ok <==> (!(1 <= version) ==> !(m.throttle_time_ms != 0)) && (array_bytes::<DeletableTopicResult>(m.responses, Ctx { version: version, flexible: (version >= 4), classic: false }) is Ok),
    {
        let is_flexible = version >= 4;
        let ctx = Ctx { version, flexible: is_flexible, classic: false };
    }

    /// Writes the message body for `version`, which must be a supported version.
    /// On failure the buffer is left as it was.
    pub fn serialize(&self, version: ApiVersion, buf: &mut Vec<u8>) -> (r: Result<(), SerializationError>)
        requires
            1 <= version.0 <= 6,
        ensures
            write_exact(r, old(buf)@, final(buf)@, Self::spec_serialize(self.deep_view(), version.0)),
    {
        let start = buf.len();
        let r = self.write_body(version, buf);
        if r.is_err() {
            buf.truncate(start);
        }
        r
    }

    fn write_body(&self, version: ApiVersion, buf: &mut Vec<u8>) -> (r: Result<(), SerializationError>)
        requires
            1 <= version.0 <= 6,
        ensures
            write_ok(r, old(buf)@, final(buf)@, Self::spec_serialize(self.deep_view(), version.0)),
    {
        let is_flexible = version.0 >= Self::get_min_flexible_version().0;
        let ctx = Ctx::new(version, is_flexible);
        let ghost mut w: Seq<u8> = Seq::empty();
        if 1 <= ctx.version {
            put_i32(buf, self.throttle_time_ms);
            proof {
                w = w + i32_bytes(self.throttle_time_ms);
            }
            assert(buf@ =~= old(buf)@ + w);
        } else if self.throttle_time_ms != 0 {
            return Err(SerializationError::FieldNotAvailable { field: "ThrottleTimeMs", version: ctx.version, api_name: "DeleteTopicsResponse" });
        }
        encode_array(&self.responses, buf, Ctx { version: ctx.version, flexible: ctx.flexible, classic: false })?;
        proof {
            w = w + (array_bytes::<DeletableTopicResult>(self.responses.deep_view(), Ctx { version: ctx.version, flexible: ctx.flexible, classic: false }))->Ok_0;
        }
        assert(buf@ =~= old(buf)@ + w);
        if ctx.flexible {
            encode_unsigned_varint(0, buf);
            proof {
                w = w + uvarint_bytes(0);
            }
            assert(buf@ =~= old(buf)@ + w);
        }
        Ok(())
    }

    /// Reads a message body written for `version`.
    /// On failure the reader is put back where it started.
    pub fn deserialize(version: ApiVersion, buf: &mut Reader) -> (r: Result<Self, SerializationError>)
        ensures
            final(buf).bytes() == old(buf).bytes(),
            read_view_exact(r, Self::spec_deserialize(old(buf).bytes(), old(buf).pos(), version.0), old(buf).pos(), final(buf).pos()),
    {
        let start = buf.position();
        let r = Self::read_body(version, buf);
        if r.is_err() {
            buf.set_position(start);
        }
        r
    }

    fn read_body(version: ApiVersion, buf: &mut Reader) -> (r: Result<Self, SerializationError>)
        ensures
            final(buf).bytes() == old(buf).bytes(),
            read_view_ok(r, Self::spec_deserialize(old(buf).bytes(), old(buf).pos(), version.0), final(buf).pos()),
    {
        let is_flexible = version.0 >= Self::get_min_flexible_version().0;
        let ctx = Ctx::new(version, is_flexible);
        let throttle_time_ms = if 1 <= ctx.version {
            buf.get_i32()?
        } else {
            0i32
        };
        let responses = decode_array::<DeletableTopicResult>(buf, Ctx { version: ctx.version, flexible: ctx.flexible, classic: false })?;
        if ctx.flexible {
            let (_tag_count, _) = decode_unsigned_varint(buf)?;
        }
        Ok(DeleteTopicsResponse { throttle_time_ms, responses })
    }
}

// -------------------------------------------------------
// DeletableTopicResult
// -------------------------------------------------------
#[derive(Clone, Debug, Default, PartialEq)]
pub struct DeletableTopicResult {
    /// The topic name.
    pub name: Option<String>,
    /// The unique topic ID.
    /// Available in version 6+.
    pub topic_id: [u8; 16],
    /// The deletion error, or 0 if the deletion succeeded.
    pub error_code: i16,
    /// The error message, or null if there was no error.
    /// Available in version 5+.
    pub error_message: Option<String>,
}

/// The contents of `DeletableTopicResult`, with strings as characters and
/// nested values by their contents.
pub struct DeletableTopicResultModel {
    pub name: Option<Seq<char>>,
    pub topic_id: Seq<u8>,
    pub error_code: i16,
    pub error_message: Option<Seq<char>>,
}

impl DeepView for DeletableTopicResult {
    type V = DeletableTopicResultModel;

    open spec fn deep_view(&self) -> DeletableTopicResultModel {
        DeletableTopicResultModel {
            name: self.name.deep_view(),
            topic_id: self.topic_id@,
            error_code: self.error_code,
            error_message: self.error_message.deep_view(),
        }
    }
}

impl DeletableTopicResult {
    /// The encoding of the structure in context `ctx`.
    pub open spec fn spec_encode_body(m: DeletableTopicResultModel, ctx: Ctx) -> Result<Seq<u8>, SerializationError> {
        let r = Ok(Seq::<u8>::empty());
        let r = then(r, nullable_string_bytes(m.name, ctx.flexible));
        let r = if 6 <= ctx.version { then(r, Ok(m.topic_id)) } else { r };
        let r = then(r, Ok(i16_bytes(m.error_code)));
        let r = if 5 <= ctx.version { then(r, nullable_string_bytes(m.error_message, ctx.flexible)) } else { r };
        let r = if ctx.flexible { then(r, Ok(uvarint_bytes(0))) } else { r };
        r
    }

    /// The structure read from `s` at `pos` in context `ctx`.
    pub open spec fn spec_decode_body(s: Seq<u8>, pos: int, ctx: Ctx) -> Result<(DeletableTopicResultModel, int), SerializationError> {
        match parse_nullable_string(s, pos, ctx.flexible) {
            Err(e) => Err(e),
            Ok((name, pos)) =>
            match (if 6 <= ctx.version { parse_raw(s, pos, 16) } else { Ok((zero_uuid_bytes(), pos)) }) {
                Err(e) => Err(e),
                Ok((topic_id, pos)) =>
                match parse_i16(s, pos) {
                    Err(e) => Err(e),
                    Ok((error_code, pos)) =>
                    match (if 5 <= ctx.version { parse_nullable_string(s, pos, ctx.flexible) } else { Ok((None, pos)) }) {
                        Err(e) => Err(e),
                        Ok((error_message, pos)) =>
                        match (if ctx.flexible { parse_uvarint(s, pos) } else { Ok((0u64, pos)) }) {
                            Err(e) => Err(e),
                            Ok((_tag_count, pos)) =>
                            Ok((DeletableTopicResultModel { name, topic_id, error_code, error_message }, pos))
                        }
                    }
                }
            }
        }
    }

    /// The structure as it reads back in context `ctx`: each field that the
    /// version leaves out is at its default.
    #[verifier::opaque]
    pub open spec fn spec_read_as(m: DeletableTopicResultModel, ctx: Ctx) -> DeletableTopicResultModel {
        DeletableTopicResultModel { name: m.name, topic_id: if 6 <= ctx.version { m.topic_id } else { zero_uuid_bytes() }, error_code: m.error_code, error_message: if 5 <= ctx.version { m.error_message } else { None } }
    }

    /// Values that read back in context `ctx`: nested values read back. A field
    /// that the version leaves out is read as its default.
    pub open spec fn reads_back_body(m: DeletableTopicResultModel, ctx: Ctx) -> bool {
        &&& (6 <= ctx.version) ==> m.topic_id.len() == 16
    }

    /// A value that can be written in context `ctx` and reads back: decoding its
    /// encoding, wherever it stands, gives the value as `spec_read_as` gives it and
    /// the position just after it.
    #[verifier::spinoff_prover]
    pub proof fn lemma_body_read_back(pre: Seq<u8>, m: DeletableTopicResultModel, post: Seq<u8>, ctx: Ctx)
        requires
            Self::spec_encode_body(m, ctx) is Ok,
            Self::reads_back_body(m, ctx),
        ensures
            Self::spec_decode_body(pre + Self::spec_encode_body(m, ctx)->Ok_0 + post, pre.len() as int, ctx) == Ok::<(DeletableTopicResultModel, int), SerializationError>((Self::spec_read_as(m, ctx), pre.len() as int + Self::spec_encode_body(m, ctx)->Ok_0.len())),
    {
        reveal(DeletableTopicResult::spec_read_as);
        let b0 = (nullable_string_bytes(m.name, ctx.flexible))->Ok_0;
        let b1 = if 6 <= ctx.version { m.topic_id } else { Seq::<u8>::empty() };
        let b2 = i16_bytes(m.error_code);
        let b3 = if 5 <= ctx.version { (nullable_string_bytes(m.error_message, ctx.flexible))->Ok_0 } else { Seq::<u8>::empty() };
        let b4 = if ctx.flexible { uvarint_bytes(0) } else { Seq::<u8>::empty() };
        let t5 = post;
        let t4 = b4 + t5;
        let t3 = b3 + t4;
        let t2 = b2 + t3;
        let t1 = b1 + t2;
        let t0 = b0 + t1;
        let e = Self::spec_encode_body(m, ctx)->Ok_0;
        assert(e =~= Seq::<u8>::empty() + b0 + b1 + b2 + b3 + b4);
        lemma_seq_assoc(((((Seq::<u8>::empty() + b0) + b1) + b2) + b3), b4, post);
        lemma_seq_assoc((((Seq::<u8>::empty() + b0) + b1) + b2), b3, (b4 + post));
        lemma_seq_assoc(((Seq::<u8>::empty() + b0) + b1), b2, (b3 + (b4 + post)));
        lemma_seq_assoc((Seq::<u8>::empty() + b0), b1, (b2 + (b3 + (b4 + post))));
        lemma_seq_assoc(Seq::<u8>::empty(), b0, (b1 + (b2 + (b3 + (b4 + post)))));
        lemma_seq_empty_left((b0 + (b1 + (b2 + (b3 + (b4 + post))))));
        let s = pre + e + post;
        lemma_seq_assoc(pre, e, post);
        assert(s == pre + t0);
        let a0 = pre;
        assert(parse_nullable_string(s, a0.len() as int, ctx.flexible) == Ok::<(Option<Seq<char>>, int), SerializationError>((m.name, a0.len() as int + b0.len()))) by {
            assert(nullable_string_bytes(m.name, ctx.flexible) is Ok);
            lemma_seq_assoc(a0, b0, t1);
            lemma_nullable_string_roundtrip(a0, m.name, t1, ctx.flexible);
        }
        lemma_seq_assoc(a0, b0, t1);
        let a1 = a0 + b0;
        if 6 <= ctx.version {
            assert(parse_raw(s, a1.len() as int, 16) == Ok::<(Seq<u8>, int), SerializationError>((m.topic_id, a1.len() as int + b1.len()))) by {
                lemma_seq_assoc(a1, b1, t2);
                lemma_uuid_roundtrip(a1, m.topic_id, t2);
            }
        }
        lemma_seq_assoc(a1, b1, t2);
        let a2 = a1 + b1;
        assert(parse_i16(s, a2.len() as int) == Ok::<(i16, int), SerializationError>((m.error_code, a2.len() as int + b2.len()))) by {
            lemma_seq_assoc(a2, b2, t3);
            lemma_i16_roundtrip(a2, m.error_code, t3);
        }
        lemma_seq_assoc(a2, b2, t3);
        let a3 = a2 + b2;
        if 5 <= ctx.version {
            assert(parse_nullable_string(s, a3.len() as int, ctx.flexible) == Ok::<(Option<Seq<char>>, int), SerializationError>((m.error_message, a3.len() as int + b3.len()))) by {
                assert(nullable_string_bytes(m.error_message, ctx.flexible) is Ok);
                lemma_seq_assoc(a3, b3, t4);
                lemma_nullable_string_roundtrip(a3, m.error_message, t4, ctx.flexible);
            }
        }
        lemma_seq_assoc(a3, b3, t4);
        let a4 = a3 + b3;
        if ctx.flexible {
            assert(parse_uvarint(s, a4.len() as int) == Ok::<(u64, int), SerializationError>((0u64, a4.len() as int + b4.len()))) by {
                lemma_seq_assoc(a4, b4, t5);
                lemma_uvarint_roundtrip(a4, 0, t5);
            }
        }
    }

    /// The bytes written: the encoding of each field, in the order of the
    /// protocol's layout. Reading them back, wherever they stand, gives the value,
    /// with each field that the version leaves out at its default.
    #[verifier::spinoff_prover]
    pub proof fn lemma_body_layout(pre: Seq<u8>, m: DeletableTopicResultModel, post: Seq<u8>, ctx: Ctx)
        requires
            Self::spec_encode_body(m, ctx) is Ok,
        ensures
            Self::spec_encode_body(m, ctx) == Ok::<Seq<u8>, SerializationError>(((nullable_string_bytes(m.name, ctx.flexible))->Ok_0) + (if 6 <= ctx.version { m.topic_id } else { Seq::<u8>::empty() }) + (i16_bytes(m.error_code)) + (if 5 <= ctx.version { (nullable_string_bytes(m.error_message, ctx.flexible))->Ok_0 } else { Seq::<u8>::empty() }) + (if ctx.flexible { uvarint_bytes(0) } else { Seq::<u8>::empty() })),
            Self::reads_back_body(m, ctx) ==> Self::spec_decode_body(pre + (((nullable_string_bytes(m.name, ctx.flexible))->Ok_0) + (if 6 <= ctx.version { m.topic_id } else { Seq::<u8>::empty() }) + (i16_bytes(m.error_code)) + (if 5 <= ctx.version { (nullable_string_bytes(m.error_message, ctx.flexible))->Ok_0 } else { Seq::<u8>::empty() }) + (if ctx.flexible { uvarint_bytes(0) } else { Seq::<u8>::empty() })) + post, pre.len() as int, ctx) == Ok::<(DeletableTopicResultModel, int), SerializationError>((DeletableTopicResultModel { name: m.name, topic_id: if 6 <= ctx.version { m.topic_id } else { zero_uuid_bytes() }, error_code: m.error_code, error_message: if 5 <= ctx.version { m.error_message } else { None } }, pre.len() as int + (((nullable_string_bytes(m.name, ctx.flexible))->Ok_0) + (if 6 <= ctx.version { m.topic_id } else { Seq::<u8>::empty() }) + (i16_bytes(m.error_code)) + (if 5 <= ctx.version { (nullable_string_bytes(m.error_message, ctx.flexible))->Ok_0 } else { Seq::<u8>::empty() }) + (if ctx.flexible { uvarint_bytes(0) } else { Seq::<u8>::empty() })).len())),
    {
        let b0 = (nullable_string_bytes(m.name, ctx.flexible))->Ok_0;
        let b1 = if 6 <= ctx.version { m.topic_id } else { Seq::<u8>::empty() };
        let b2 = i16_bytes(m.error_code);
        let b3 = if 5 <= ctx.version { (nullable_string_bytes(m.error_message, ctx.flexible))->Ok_0 } else { Seq::<u8>::empty() };
        let b4 = if ctx.flexible { uvarint_bytes(0) } else { Seq::<u8>::empty() };
        let e = Self::spec_encode_body(m, ctx)->Ok_0;
        assert(e =~= Seq::<u8>::empty() + b0 + b1 + b2 + b3 + b4);
        assert(e =~= b0 + b1 + b2 + b3 + b4);
        if Self::reads_back_body(m, ctx) {
            Self::lemma_body_read_back(pre, m, post, ctx);
            reveal(DeletableTopicResult::spec_read_as);
        }
    }

    /// Writing succeeds exactly when every field that the version carries can be
    /// encoded and every field that it leaves out, where leaving it out is an
    /// error, holds its default.
    #[verifier::spinoff_prover]
    pub proof fn lemma_body_write_succeeds(m: DeletableTopicResultModel, ctx: Ctx)
        ensures
            Self::spec_encode_body(m, ctx) is Ok <==> (nullable_string_bytes(m.name, ctx.flexible) is Ok) && ((5 <= ctx.version) ==> nullable_string_bytes(m.error_message, ctx.flexible) is Ok),
    {
    }

    /// Writes the structure for `version`, with the compact encodings when `is_flexible`.
    /// On failure the buffer is left as it was.
    pub fn encode(&self, buf: &mut Vec<u8>, version: ApiVersion, is_flexible: bool) -> (r: Result<(), SerializationError>)
        ensures
            write_exact(r, old(buf)@, final(buf)@, Self::spec_encode_body(self.deep_view(), Ctx { version: version.0, flexible: is_flexible, classic: false })),
    {
        let start = buf.len();
        let r = self.encode_ctx(buf, Ctx::new(version, is_flexible));
        if r.is_err() {
            buf.truncate(start);
        }
        r
    }

    /// Reads the structure as written for `version`.
    /// On failure the reader is put back where it started.
    pub fn decode(buf: &mut Reader, version: ApiVersion, is_flexible: bool) -> (r: Result<Self, SerializationError>)
        ensures
            final(buf).bytes() == old(buf).bytes(),
            read_view_exact(r, Self::spec_decode_body(old(buf).bytes(), old(buf).pos(), Ctx { version: version.0, flexible: is_flexible, classic: false }), old(buf).pos(), final(buf).pos()),
    {
        let start = buf.position();
        let r = Self::decode_ctx(buf, Ctx::new(version, is_flexible));
        if r.is_err() {
            buf.set_position(start);
        }
        r
    }
}

impl KafkaCodec for DeletableTopicResult {
    open spec fn spec_encode(m: DeletableTopicResultModel, ctx: Ctx) -> Result<Seq<u8>, SerializationError> {
        Self::spec_encode_body(m, ctx)
    }

    open spec fn spec_decode(s: Seq<u8>, pos: int, ctx: Ctx) -> Result<(DeletableTopicResultModel, int), SerializationError> {
        Self::spec_decode_body(s, pos, ctx)
    }

    open spec fn reads_back(v: DeletableTopicResultModel, ctx: Ctx) -> bool {
        Self::reads_back_body(v, ctx) && Self::spec_read_as(v, ctx) == v
    }

    proof fn lemma_read_back(pre: Seq<u8>, v: DeletableTopicResultModel, post: Seq<u8>, ctx: Ctx) {
        Self::lemma_body_read_back(pre, v, post, ctx);
        assert(Self::spec_decode(pre + Self::spec_encode(v, ctx)->Ok_0 + post, pre.len() as int, ctx)
            == Self::spec_decode_body(pre + Self::spec_encode_body(v, ctx)->Ok_0 + post, pre.len() as int, ctx));
    }

    fn encode_ctx(&self, buf: &mut Vec<u8>, ctx: Ctx) -> (r: Result<(), SerializationError>) {
        let ghost mut w: Seq<u8> = Seq::empty();
        encode_nullable_string(&self.name, buf, ctx.flexible)?;
        proof {
            w = w + (nullable_string_bytes(self.name.deep_view(), ctx.flexible))->Ok_0;
        }
        assert(buf@ =~= old(buf)@ + w);
        if 6 <= ctx.version {
            encode_uuid(&self.topic_id, buf);
            proof {
                w = w + self.topic_id@;
            }
            assert(buf@ =~= old(buf)@ + w);
        }
        put_i16(buf, self.error_code);
        proof {
            w = w + i16_bytes(self.error_code);
        }
        assert(buf@ =~= old(buf)@ + w);
        if 5 <= ctx.version {
            encode_nullable_string(&self.error_message, buf, ctx.flexible)?;
            proof {
                w = w + (nullable_string_bytes(self.error_message.deep_view(), ctx.flexible))->Ok_0;
            }
            assert(buf@ =~= old(buf)@ + w);
        }
        if ctx.flexible {
            encode_unsigned_varint(0, buf);
            proof {
                w = w + uvarint_bytes(0);
            }
            assert(buf@ =~= old(buf)@ + w);
        }
        Ok(())
    }

    fn decode_ctx(buf: &mut Reader, ctx: Ctx) -> (r: Result<Self, SerializationError>) {
        let name = buf.get_nullable_string(ctx.flexible)?;
        let topic_id = if 6 <= ctx.version {
            buf.get_uuid()?
        } else {
            zero_uuid()
        };
        let error_code = buf.get_i16()?;
        let error_message = if 5 <= ctx.version {
            buf.get_nullable_string(ctx.flexible)?
        } else {
            None
        };
        if ctx.flexible {
            let (_tag_count, _) = decode_unsigned_varint(buf)?;
        }
        Ok(DeletableTopicResult { name, topic_id, error_code, error_message })
    }
}

} // verus!
