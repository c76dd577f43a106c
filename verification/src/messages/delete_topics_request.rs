//! DeleteTopicsRequest (API key 20).
use vstd::prelude::*;
use crate::roundtrip::{lemma_array_roundtrip, lemma_i32_roundtrip, lemma_items_read_back,
    lemma_nullable_string_roundtrip, lemma_seq_assoc, lemma_seq_empty_left, lemma_uuid_roundtrip,
    lemma_uvarint_roundtrip};
use crate::serialization::{Ctx, KafkaCodec, Reader, SerializationError, array_bytes, decode_array,
    decode_unsigned_varint, encode_array, encode_nullable_string, encode_unsigned_varint,
    encode_uuid, i32_bytes, map_decode_err, map_encode_err, new_array, nullable_string_bytes,
    parse_array, parse_i32, parse_nullable_string, parse_raw, parse_uvarint, put_i32,
    read_view_exact, read_view_ok, then, uvarint_bytes, write_exact, write_ok, zero_uuid,
    zero_uuid_bytes};
use crate::{ApiKey, ApiVersion};

verus! {

// -------------------------------------------------------
// DeleteTopicsRequest
// -------------------------------------------------------
#[derive(Clone, Debug, Default, PartialEq)]
pub struct DeleteTopicsRequest {
    /// The name or topic ID of the topic.
    /// Available in version 6+.
    pub topics: Vec<DeleteTopicState>,
    /// The names of the topics to delete.
    /// Available in version 0-5.
    pub topic_names: Vec<String>,
    /// The length of time in milliseconds to wait for the deletions to complete.
    pub timeout_ms: i32,
}

/// The contents of `DeleteTopicsRequest`, with strings as characters and
/// nested values by their contents.
pub struct DeleteTopicsRequestModel {
    pub topics: Seq<<DeleteTopicState as DeepView>::V>,
    pub topic_names: Seq<<String as DeepView>::V>,
    pub timeout_ms: i32,
}

impl DeepView for DeleteTopicsRequest {
    type V = DeleteTopicsRequestModel;

    open spec fn deep_view(&self) -> DeleteTopicsRequestModel {
        DeleteTopicsRequestModel {
            topics: self.topics.deep_view(),
            topic_names: self.topic_names.deep_view(),
            timeout_ms: self.timeout_ms,
        }
    }
}

impl DeleteTopicsRequest {
    /// The encoding of the structure in context `ctx`.
    pub open spec fn spec_encode_body(m: DeleteTopicsRequestModel, ctx: Ctx) -> Result<Seq<u8>, SerializationError> {
        let r = Ok(Seq::<u8>::empty());
        let r = if 6 <= ctx.version { then(r, map_encode_err(array_bytes::<DeleteTopicState>(m.topics, Ctx { version: ctx.version, flexible: ctx.flexible, classic: false }), SerializationError::ValueTooLarge { message: "failed to encode Topics" })) } else { r };
        let r = if 0 <= ctx.version && ctx.version <= 5 { then(r, map_encode_err(array_bytes::<String>(m.topic_names, Ctx { version: ctx.version, flexible: ctx.flexible, classic: false }), SerializationError::ValueTooLarge { message: "failed to encode TopicNames" })) } else { r };
        let r = then(r, map_encode_err(Ok(i32_bytes(m.timeout_ms)), SerializationError::ValueTooLarge { message: "failed to encode TimeoutMs" }));
        let r = if ctx.flexible { then(r, Ok(uvarint_bytes(0))) } else { r };
        r
    }

    /// The structure read from `s` at `pos` in context `ctx`.
    pub open spec fn spec_decode_body(s: Seq<u8>, pos: int, ctx: Ctx) -> Result<(DeleteTopicsRequestModel, int), SerializationError> {
        match (if 6 <= ctx.version { map_decode_err(parse_array::<DeleteTopicState>(s, pos, Ctx { version: ctx.version, flexible: ctx.flexible, classic: false }), SerializationError::Protocol { message: "failed to decode Topics" }) } else { Ok((Seq::<<DeleteTopicState as DeepView>::V>::empty(), pos)) }) {
            Err(e) => Err(e),
            Ok((topics, pos)) =>
            match (if 0 <= ctx.version && ctx.version <= 5 { map_decode_err(parse_array::<String>(s, pos, Ctx { version: ctx.version, flexible: ctx.flexible, classic: false }), SerializationError::Protocol { message: "failed to decode TopicNames" }) } else { Ok((Seq::<<String as DeepView>::V>::empty(), pos)) }) {
                Err(e) => Err(e),
                Ok((topic_names, pos)) =>
                match map_decode_err(parse_i32(s, pos), SerializationError::Protocol { message: "failed to decode TimeoutMs" }) {
                    Err(e) => Err(e),
                    Ok((timeout_ms, pos)) =>
                    match (if ctx.flexible { parse_uvarint(s, pos) } else { Ok((0u64, pos)) }) {
                        Err(e) => Err(e),
                        Ok((_tag_count, pos)) =>
                        Ok((DeleteTopicsRequestModel { topics, topic_names, timeout_ms }, pos))
                    }
                }
            }
        }
    }

    /// The structure as it reads back in context `ctx`: each field that the
    /// version leaves out is at its default.
    #[verifier::opaque]
    pub open spec fn spec_read_as(m: DeleteTopicsRequestModel, ctx: Ctx) -> DeleteTopicsRequestModel {
        DeleteTopicsRequestModel { topics: if 6 <= ctx.version { m.topics } else { Seq::<<DeleteTopicState as DeepView>::V>::empty() }, topic_names: if 0 <= ctx.version && ctx.version <= 5 { m.topic_names } else { Seq::<<String as DeepView>::V>::empty() }, timeout_ms: m.timeout_ms }
    }

    /// Values that read back in context `ctx`: nested values read back. A field
    /// that the version leaves out is read as its default.
    pub open spec fn reads_back_body(m: DeleteTopicsRequestModel, ctx: Ctx) -> bool {
        &&& (6 <= ctx.version) ==> forall|i: int| 0 <= i < m.topics.len() ==> #[trigger] <DeleteTopicState as KafkaCodec>::reads_back(m.topics[i], Ctx { version: ctx.version, flexible: ctx.flexible, classic: false })
        &&& (0 <= ctx.version && ctx.version <= 5) ==> forall|i: int| 0 <= i < m.topic_names.len() ==> #[trigger] <String as KafkaCodec>::reads_back(m.topic_names[i], Ctx { version: ctx.version, flexible: ctx.flexible, classic: false })
    }

    /// A value that can be written in context `ctx` and reads back: decoding its
    /// encoding, wherever it stands, gives the value as `spec_read_as` gives it and
    /// the position just after it.
    #[verifier::spinoff_prover]
    pub proof fn lemma_body_read_back(pre: Seq<u8>, m: DeleteTopicsRequestModel, post: Seq<u8>, ctx: Ctx)
        requires
            Self::spec_encode_body(m, ctx) is Ok,
            Self::reads_back_body(m, ctx),
        ensures
            Self::spec_decode_body(pre + Self::spec_encode_body(m, ctx)->Ok_0 + post, pre.len() as int, ctx) == Ok::<(DeleteTopicsRequestModel, int), SerializationError>((Self::spec_read_as(m, ctx), pre.len() as int + Self::spec_encode_body(m, ctx)->Ok_0.len())),
    {
        reveal(DeleteTopicsRequest::spec_read_as);
        let b0 = if 6 <= ctx.version { (array_bytes::<DeleteTopicState>(m.topics, Ctx { version: ctx.version, flexible: ctx.flexible, classic: false }))->Ok_0 } else { Seq::<u8>::empty() };
        let b1 = if 0 <= ctx.version && ctx.version <= 5 { (array_bytes::<String>(m.topic_names, Ctx { version: ctx.version, flexible: ctx.flexible, classic: false }))->Ok_0 } else { Seq::<u8>::empty() };
        let b2 = i32_bytes(m.timeout_ms);
        let b3 = if ctx.flexible { uvarint_bytes(0) } else { Seq::<u8>::empty() };
        let t4 = post;
        let t3 = b3 + t4;
        let t2 = b2 + t3;
        let t1 = b1 + t2;
        let t0 = b0 + t1;
        let e = Self::spec_encode_body(m, ctx)->Ok_0;
        assert(e =~= Seq::<u8>::empty() + b0 + b1 + b2 + b3);
        lemma_seq_assoc((((Seq::<u8>::empty() + b0) + b1) + b2), b3, post);
        lemma_seq_assoc(((Seq::<u8>::empty() + b0) + b1), b2, (b3 + post));
        lemma_seq_assoc((Seq::<u8>::empty() + b0), b1, (b2 + (b3 + post)));
        lemma_seq_assoc(Seq::<u8>::empty(), b0, (b1 + (b2 + (b3 + post))));
        lemma_seq_empty_left((b0 + (b1 + (b2 + (b3 + post)))));
        let s = pre + e + post;
        lemma_seq_assoc(pre, e, post);
        assert(s == pre + t0);
        let a0 = pre;
        if 6 <= ctx.version {
            assert(parse_array::<DeleteTopicState>(s, a0.len() as int, Ctx { version: ctx.version, flexible: ctx.flexible, classic: false }) == Ok::<(Seq<<DeleteTopicState as DeepView>::V>, int), SerializationError>((m.topics, a0.len() as int + b0.len()))) by {
                assert(array_bytes::<DeleteTopicState>(m.topics, Ctx { version: ctx.version, flexible: ctx.flexible, classic: false }) is Ok);
                lemma_seq_assoc(a0, b0, t1);
                lemma_items_read_back::<DeleteTopicState>(m.topics, Ctx { version: ctx.version, flexible: ctx.flexible, classic: false });
                lemma_array_roundtrip::<DeleteTopicState>(a0, m.topics, t1, Ctx { version: ctx.version, flexible: ctx.flexible, classic: false });
            }
        }
        lemma_seq_assoc(a0, b0, t1);
        let a1 = a0 + b0;
        if 0 <= ctx.version && ctx.version <= 5 {
            assert(parse_array::<String>(s, a1.len() as int, Ctx { version: ctx.version, flexible: ctx.flexible, classic: false }) == Ok::<(Seq<<String as DeepView>::V>, int), SerializationError>((m.topic_names, a1.len() as int + b1.len()))) by {
                assert(array_bytes::<String>(m.topic_names, Ctx { version: ctx.version, flexible: ctx.flexible, classic: false }) is Ok);
                lemma_seq_assoc(a1, b1, t2);
                lemma_items_read_back::<String>(m.topic_names, Ctx { version: ctx.version, flexible: ctx.flexible, classic: false });
                lemma_array_roundtrip::<String>(a1, m.topic_names, t2, Ctx { version: ctx.version, flexible: ctx.flexible, classic: false });
            }
        }
        lemma_seq_assoc(a1, b1, t2);
        let a2 = a1 + b1;
        assert(parse_i32(s, a2.len() as int) == Ok::<(i32, int), SerializationError>((m.timeout_ms, a2.len() as int + b2.len()))) by {
            lemma_seq_assoc(a2, b2, t3);
            lemma_i32_roundtrip(a2, m.timeout_ms, t3);
        }
        lemma_seq_assoc(a2, b2, t3);
        let a3 = a2 + b2;
        if ctx.flexible {
            assert(parse_uvarint(s, a3.len() as int) == Ok::<(u64, int), SerializationError>((0u64, a3.len() as int + b3.len()))) by {
                lemma_seq_assoc(a3, b3, t4);
                lemma_uvarint_roundtrip(a3, 0, t4);
            }
        }
    }

    /// The bytes written: the encoding of each field, in the order of the
    /// protocol's layout. Reading them back, wherever they stand, gives the value,
    /// with each field that the version leaves out at its default.
    #[verifier::spinoff_prover]
    pub proof fn lemma_body_layout(pre: Seq<u8>, m: DeleteTopicsRequestModel, post: Seq<u8>, ctx: Ctx)
        requires
            Self::spec_encode_body(m, ctx) is Ok,
        ensures
            Self::spec_encode_body(m, ctx) == Ok::<Seq<u8>, SerializationError>((if 6 <= ctx.version { (array_bytes::<DeleteTopicState>(m.topics, Ctx { version: ctx.version, flexible: ctx.flexible, classic: false }))->Ok_0 } else { Seq::<u8>::empty() }) + (if 0 <= ctx.version && ctx.version <= 5 { (array_bytes::<String>(m.topic_names, Ctx { version: ctx.version, flexible: ctx.flexible, classic: false }))->Ok_0 } else { Seq::<u8>::empty() }) + (i32_bytes(m.timeout_ms)) + (if ctx.flexible { uvarint_bytes(0) } else { Seq::<u8>::empty() })),
            Self::reads_back_body(m, ctx) ==> Self::spec_decode_body(pre + ((if 6 <= ctx.version { (array_bytes::<DeleteTopicState>(m.topics, Ctx { version: ctx.version, flexible: ctx.flexible, classic: false }))->Ok_0 } else { Seq::<u8>::empty() }) + (if 0 <= ctx.version && ctx.version <= 5 { (array_bytes::<String>(m.topic_names, Ctx { version: ctx.version, flexible: ctx.flexible, classic: false }))->Ok_0 } else { Seq::<u8>::empty() }) + (i32_bytes(m.timeout_ms)) + (if ctx.flexible { uvarint_bytes(0) } else { Seq::<u8>::empty() })) + post, pre.len() as int, ctx) == Ok::<(DeleteTopicsRequestModel, int), SerializationError>((DeleteTopicsRequestModel { topics: if 6 <= ctx.version { m.topics } else { Seq::<<DeleteTopicState as DeepView>::V>::empty() }, topic_names: if 0 <= ctx.version && ctx.version <= 5 { m.topic_names } else { Seq::<<String as DeepView>::V>::empty() }, timeout_ms: m.timeout_ms }, pre.len() as int + ((if 6 <= ctx.version { (array_bytes::<DeleteTopicState>(m.topics, Ctx { version: ctx.version, flexible: ctx.flexible, classic: false }))->Ok_0 } else { Seq::<u8>::empty() }) + (if 0 <= ctx.version && ctx.version <= 5 { (array_bytes::<String>(m.topic_names, Ctx { version: ctx.version, flexible: ctx.flexible, classic: false }))->Ok_0 } else { Seq::<u8>::empty() }) + (i32_bytes(m.timeout_ms)) + (if ctx.flexible { uvarint_bytes(0) } else { Seq::<u8>::empty() })).len())),
    {
        let b0 = if 6 <= ctx.version { (array_bytes::<DeleteTopicState>(m.topics, Ctx { version: ctx.version, flexible: ctx.flexible, classic: false }))->Ok_0 } else { Seq::<u8>::empty() };
        let b1 = if 0 <= ctx.version && ctx.version <= 5 { (array_bytes::<String>(m.topic_names, Ctx { version: ctx.version, flexible: ctx.flexible, classic: false }))->Ok_0 } else { Seq::<u8>::empty() };
        let b2 = i32_bytes(m.timeout_ms);
        let b3 = if ctx.flexible { uvarint_bytes(0) } else { Seq::<u8>::empty() };
        let e = Self::spec_encode_body(m, ctx)->Ok_0;
        assert(e =~= Seq::<u8>::empty() + b0 + b1 + b2 + b3);
        assert(e =~= b0 + b1 + b2 + b3);
        if Self::reads_back_body(m, ctx) {
            Self::lemma_body_read_back(pre, m, post, ctx);
            reveal(DeleteTopicsRequest::spec_read_as);
        }
    }

    /// Writing succeeds exactly when every field that the version carries can be
    /// encoded and every field that it leaves out, where leaving it out is an
    /// error, holds its default.
    #[verifier::spinoff_prover]
    pub proof fn lemma_body_write_succeeds(m: DeleteTopicsRequestModel, ctx: Ctx)
        ensures
            Self::spec_encode_body(m, ctx) is Ok <==> ((6 <= ctx.version) ==> map_encode_err(array_bytes::<DeleteTopicState>(m.topics, Ctx { version: ctx.version, flexible: ctx.flexible, classic: false }), SerializationError::ValueTooLarge { message: "failed to encode Topics" }) is Ok) && ((0 <= ctx.version && ctx.version <= 5) ==> map_encode_err(array_bytes::<String>(m.topic_names, Ctx { version: ctx.version, flexible: ctx.flexible, classic: false }), SerializationError::ValueTooLarge { message: "failed to encode TopicNames" }) is Ok) && (map_encode_err(Ok(i32_bytes(m.timeout_ms)), SerializationError::ValueTooLarge { message: "failed to encode TimeoutMs" }) is Ok),
    {
    }

    /// Writes the structure for `version`, with the compact encodings when `is_flexible`.
    /// On failure the buffer is left as it was.
    pub fn encode(&self, buf: &mut Vec<u8>, version: ApiVersion, is_flexible: bool) -> (r: Result<(), SerializationError>)
        ensures
            write_exact(r, old(buf)@, final(buf)@, Self::spec_encode_body(self.deep_view(), Ctx { version: version.0, flexible: is_flexible, classic: false })),
    {
        let start = buf.len();
        let r = self.encode_ctx(buf, Ctx::new(version, is_flexible));
        if r.is_err() {
            buf.truncate(start);
        }
        r
    }

    /// Reads the structure as written for `version`.
    /// On failure the reader is put back where it started.
    pub fn decode(buf: &mut Reader, version: ApiVersion, is_flexible: bool) -> (r: Result<Self, SerializationError>)
        ensures
            final(buf).bytes() == old(buf).bytes(),
            read_view_exact(r, Self::spec_decode_body(old(buf).bytes(), old(buf).pos(), Ctx { version: version.0, flexible: is_flexible, classic: false }), old(buf).pos(), final(buf).pos()),
    {
        let start = buf.position();
        let r = Self::decode_ctx(buf, Ctx::new(version, is_flexible));
        if r.is_err() {
            buf.set_position(start);
        }
        r
    }
}

impl KafkaCodec for DeleteTopicsRequest {
    open spec fn spec_encode(m: DeleteTopicsRequestModel, ctx: Ctx) -> Result<Seq<u8>, SerializationError> {
        Self::spec_encode_body(m, ctx)
    }

    open spec fn spec_decode(s: Seq<u8>, pos: int, ctx: Ctx) -> Result<(DeleteTopicsRequestModel, int), SerializationError> {
        Self::spec_decode_body(s, pos, ctx)
    }

    open spec fn reads_back(v: DeleteTopicsRequestModel, ctx: Ctx) -> bool {
        Self::reads_back_body(v, ctx) && Self::spec_read_as(v, ctx) == v
    }

    proof fn lemma_read_back(pre: Seq<u8>, v: DeleteTopicsRequestModel, post: Seq<u8>, ctx: Ctx) {
        Self::lemma_body_read_back(pre, v, post, ctx);
        assert(Self::spec_decode(pre + Self::spec_encode(v, ctx)->Ok_0 + post, pre.len() as int, ctx)
            == Self::spec_decode_body(pre + Self::spec_encode_body(v, ctx)->Ok_0 + post, pre.len() as int, ctx));
    }

    fn encode_ctx(&self, buf: &mut Vec<u8>, ctx: Ctx) -> (r: Result<(), SerializationError>) {
        let ghost mut w: Seq<u8> = Seq::empty();
        if 6 <= ctx.version {
            match encode_array(&self.topics, buf, Ctx { version: ctx.version, flexible: ctx.flexible, classic: false }) {
                Ok(()) => {},
                Err(_) => {
                    return Err(SerializationError::ValueTooLarge { message: "failed to encode Topics" });
                },
            }
            proof {
                w = w + (map_encode_err(array_bytes::<DeleteTopicState>(self.topics.deep_view(), Ctx { version: ctx.version, flexible: ctx.flexible, classic: false }), SerializationError::ValueTooLarge { message: "failed to encode Topics" }))->Ok_0;
            }
            assert(buf@ =~= old(buf)@ + w);
        }
        if 0 <= ctx.version && ctx.version <= 5 {
            match encode_array(&self.topic_names, buf, Ctx { version: ctx.version, flexible: ctx.flexible, classic: false }) {
                Ok(()) => {},
                Err(_) => {
                    return Err(SerializationError::ValueTooLarge { message: "failed to encode TopicNames" });
                },
            }
            proof {
                w = w + (map_encode_err(array_bytes::<String>(self.topic_names.deep_view(), Ctx { version: ctx.version, flexible: ctx.flexible, classic: false }), SerializationError::ValueTooLarge { message: "failed to encode TopicNames" }))->Ok_0;
            }
            assert(buf@ =~= old(buf)@ + w);
        }
        put_i32(buf, self.timeout_ms);
        proof {
            w = w + (map_encode_err(Ok(i32_bytes(self.timeout_ms)), SerializationError::ValueTooLarge { message: "failed to encode TimeoutMs" }))->Ok_0;
        }
        assert(buf@ =~= old(buf)@ + w);
        if ctx.flexible {
            encode_unsigned_varint(0, buf);
            proof {
                w = w + uvarint_bytes(0);
            }
            assert(buf@ =~= old(buf)@ + w);
        }
        Ok(())
    }

    fn decode_ctx(buf: &mut Reader, ctx: Ctx) -> (r: Result<Self, SerializationError>) {
        let topics = if 6 <= ctx.version {
            match decode_array::<DeleteTopicState>(buf, Ctx { version: ctx.version, flexible: ctx.flexible, classic: false }) { Ok(v) => v, Err(_) => { return Err(SerializationError::Protocol { message: "failed to decode Topics" }); } }
        } else {
            new_array::<DeleteTopicState>()
        };
        let topic_names = if 0 <= ctx.version && ctx.version <= 5 {
            match decode_array::<String>(buf, Ctx { version: ctx.version, flexible: ctx.flexible, classic: false }) { Ok(v) => v, Err(_) => { return Err(SerializationError::Protocol { message: "failed to decode TopicNames" }); } }
        } else {
            new_array::<String>()
        };
        let timeout_ms = match buf.get_i32() { Ok(v) => v, Err(_) => { return Err(SerializationError::Protocol { message: "failed to decode TimeoutMs" }); } };
        if ctx.flexible {
            let (_tag_count, _) = decode_unsigned_varint(buf)?;
        }
        Ok(DeleteTopicsRequest { topics, topic_names, timeout_ms })
    }
}

impl DeleteTopicsRequest {
    /// The API key of this message.
    pub fn get_api_key() -> (r: ApiKey)
        ensures
            r.0 == 20,
    {
        ApiKey::new(20)
    }

    /// The oldest version of this message.
    pub fn get_min_supported_version() -> (r: ApiVersion)
        ensures
            r.0 == 1,
    {
        ApiVersion::new(1)
    }

    /// The newest version of this message.
    pub fn get_max_supported_version() -> (r: ApiVersion)
        ensures
            r.0 == 6,
    {
        ApiVersion::new(6)
    }

    /// The first version of this message with the compact encodings.
    pub fn get_min_flexible_version() -> (r: ApiVersion)
        ensures
            r.0 == 4,
    {
        ApiVersion::new(4)
    }

    /// The encoding of a whole message body at `version`.
    pub open spec fn spec_serialize(m: DeleteTopicsRequestModel, version: i16) -> Result<Seq<u8>, SerializationError> {
        let is_flexible = version >= 4;
        let ctx = Ctx { version, flexible: is_flexible, classic: false };
        let r = Ok(Seq::<u8>::empty());
        let r = if 6 <= ctx.version { then(r, map_encode_err(array_bytes::<DeleteTopicState>(m.topics, Ctx { version: ctx.version, flexible: ctx.flexible, classic: false }), SerializationError::Encode("failed to encode Topics"))) } else if m.topics.len() != 0 { then(r, Err(SerializationError::Encode("field 'Topics' is not available in this version"))) } else { r };
        let r = if 0 <= ctx.version && ctx.version <= 5 { then(r, map_encode_err(array_bytes::<String>(m.topic_names, Ctx { version: ctx.version, flexible: ctx.flexible, classic: false }), SerializationError::Encode("failed to encode TopicNames"))) } else if m.topic_names.len() != 0 { then(r, Err(SerializationError::Encode("field 'TopicNames' is not available in this version"))) } else { r };
        let r = then(r, map_encode_err(Ok(i32_bytes(m.timeout_ms)), SerializationError::Encode("failed to encode TimeoutMs")));
        let r = if ctx.flexible { then(r, Ok(uvarint_bytes(0))) } else { r };
        r
    }

    /// The message body read at `version`.
    pub open spec fn spec_deserialize(s: Seq<u8>, pos: int, version: i16) -> Result<(DeleteTopicsRequestModel, int), SerializationError> {
        let is_flexible = version >= 4;
        let ctx = Ctx { version, flexible: is_flexible, classic: false };
        match (if 6 <= ctx.version { map_decode_err(parse_array::<DeleteTopicState>(s, pos, Ctx { version: ctx.version, flexible: ctx.flexible, classic: false }), SerializationError::Decode("failed to decode Topics")) } else { Ok((Seq::<<DeleteTopicState as DeepView>::V>::empty(), pos)) }) {
            Err(e) => Err(e),
            Ok((topics, pos)) =>
            match (if 0 <= ctx.version && ctx.version <= 5 { map_decode_err(parse_array::<String>(s, pos, Ctx { version: ctx.version, flexible: ctx.flexible, classic: false }), SerializationError::Decode("failed to decode TopicNames")) } else { Ok((Seq::<<String as DeepView>::V>::empty(), pos)) }) {
                Err(e) => Err(e),
                Ok((topic_names, pos)) =>
                match map_decode_err(parse_i32(s, pos), SerializationError::Decode("failed to decode TimeoutMs")) {
                    Err(e) => Err(e),
                    Ok((timeout_ms, pos)) =>
                    Ok((DeleteTopicsRequestModel { topics, topic_names, timeout_ms }, pos))
                }
            }
        }
    }

    /// Message bodies that read back when written at `version`: nested values read
    /// back. A field that the version leaves out is read as its default.
    pub open spec fn reads_back_message(m: DeleteTopicsRequestModel, version: i16) -> bool {
        let is_flexible = version >= 4;
        let ctx = Ctx { version, flexible: is_flexible, classic: false };
        &&& (6 <= ctx.version) ==> forall|i: int| 0 <= i < m.topics.len() ==> #[trigger] <DeleteTopicState as KafkaCodec>::reads_back(m.topics[i], Ctx { version: ctx.version, flexible: ctx.flexible, classic: false })
        &&& (0 <= ctx.version && ctx.version <= 5) ==> forall|i: int| 0 <= i < m.topic_names.len() ==> #[trigger] <String as KafkaCodec>::reads_back(m.topic_names[i], Ctx { version: ctx.version, flexible: ctx.flexible, classic: false })
    }

    /// A message body that can be written at `version` and reads back: reading a
    /// body at `version` from its bytes, wherever they stand, gives the same message,
    /// with each field that the version leaves out at its default.
    #[verifier::spinoff_prover]
    pub proof fn lemma_message_read_back(pre: Seq<u8>, m: DeleteTopicsRequestModel, post: Seq<u8>, version: i16)
        requires
            Self::spec_serialize(m, version) is Ok,
            Self::reads_back_message(m, version),
        ensures
            Self::spec_deserialize(pre + Self::spec_serialize(m, version)->Ok_0 + post, pre.len() as int, version) == Ok::<(DeleteTopicsRequestModel, int), SerializationError>((DeleteTopicsRequestModel { topics: if 6 <= version { m.topics } else { Seq::<<DeleteTopicState as DeepView>::V>::empty() }, topic_names: if 0 <= version && version <= 5 { m.topic_names } else { Seq::<<String as DeepView>::V>::empty() }, timeout_ms: m.timeout_ms }, pre.len() as int + Self::spec_serialize(m, version)->Ok_0.len() - (if version >= 4 { 1int } else { 0int }))),
    {
        let is_flexible = version >= 4;
        let ctx = Ctx { version, flexible: is_flexible, classic: false };
        let b0 = if 6 <= ctx.version { (array_bytes::<DeleteTopicState>(m.topics, Ctx { version: ctx.version, flexible: ctx.flexible, classic: false }))->Ok_0 } else { Seq::<u8>::empty() };
        let b1 = if 0 <= ctx.version && ctx.version <= 5 { (array_bytes::<String>(m.topic_names, Ctx { version: ctx.version, flexible: ctx.flexible, classic: false }))->Ok_0 } else { Seq::<u8>::empty() };
        let b2 = i32_bytes(m.timeout_ms);
        let b3 = if ctx.flexible { uvarint_bytes(0) } else { Seq::<u8>::empty() };
        let t4 = post;
        let t3 = b3 + t4;
        let t2 = b2 + t3;
        let t1 = b1 + t2;
        let t0 = b0 + t1;
        let e = Self::spec_serialize(m, version)->Ok_0;
        assert(e =~= Seq::<u8>::empty() + b0 + b1 + b2 + b3);
        lemma_seq_assoc((((Seq::<u8>::empty() + b0) + b1) + b2), b3, post);
        lemma_seq_assoc(((Seq::<u8>::empty() + b0) + b1), b2, (b3 + post));
        lemma_seq_assoc((Seq::<u8>::empty() + b0), b1, (b2 + (b3 + post)));
        lemma_seq_assoc(Seq::<u8>::empty(), b0, (b1 + (b2 + (b3 + post))));
        lemma_seq_empty_left((b0 + (b1 + (b2 + (b3 + post)))));
        let s = pre + e + post;
        lemma_seq_assoc(pre, e, post);
        assert(s == pre + t0);
        let a0 = pre;
        if 6 <= ctx.version {
            assert(parse_array::<DeleteTopicState>(s, a0.len() as int, Ctx { version: ctx.version, flexible: ctx.flexible, classic: false }) == Ok::<(Seq<<DeleteTopicState as DeepView>::V>, int), SerializationError>((m.topics, a0.len() as int + b0.len()))) by {
                assert(array_bytes::<DeleteTopicState>(m.topics, Ctx { version: ctx.version, flexible: ctx.flexible, classic: false }) is Ok);
                lemma_seq_assoc(a0, b0, t1);
                lemma_items_read_back::<DeleteTopicState>(m.topics, Ctx { version: ctx.version, flexible: ctx.flexible, classic: false });
                lemma_array_roundtrip::<DeleteTopicState>(a0, m.topics, t1, Ctx { version: ctx.version, flexible: ctx.flexible, classic: false });
            }
        }
        lemma_seq_assoc(a0, b0, t1);
        let a1 = a0 + b0;
        if 0 <= ctx.version && ctx.version <= 5 {
            assert(parse_array::<String>(s, a1.len() as int, Ctx { version: ctx.version, flexible: ctx.flexible, classic: false }) == Ok::<(Seq<<String as DeepView>::V>, int), SerializationError>((m.topic_names, a1.len() as int + b1.len()))) by {
                assert(array_bytes::<String>(m.topic_names, Ctx { version: ctx.version, flexible: ctx.flexible, classic: false }) is Ok);
                lemma_seq_assoc(a1, b1, t2);
                lemma_items_read_back::<String>(m.topic_names, Ctx { version: ctx.version, flexible: ctx.flexible, classic: false });
                lemma_array_roundtrip::<String>(a1, m.topic_names, t2, Ctx { version: ctx.version, flexible: ctx.flexible, classic: false });
            }
        }
        lemma_seq_assoc(a1, b1, t2);
        let a2 = a1 + b1;
        assert(parse_i32(s, a2.len() as int) == Ok::<(i32, int), SerializationError>((m.timeout_ms, a2.len() as int + b2.len()))) by {
            lemma_seq_assoc(a2, b2, t3);
            lemma_i32_roundtrip(a2, m.timeout_ms, t3);
        }
        lemma_seq_assoc(a2, b2, t3);
        let a3 = a2 + b2;
    }

    /// The bytes written: the encoding of each field, in the order of the
    /// protocol's layout. Reading them back, wherever they stand, gives the value,
    /// with each field that the version leaves out at its default.
    #[verifier::spinoff_prover]
    pub proof fn lemma_message_layout(pre: Seq<u8>, m: DeleteTopicsRequestModel, post: Seq<u8>, version: i16)
        requires
            Self::spec_serialize(m, version) is Ok,
        ensures
            Self::spec_serialize(m, version) == Ok::<Seq<u8>, SerializationError>((if 6 <= version { (array_bytes::<DeleteTopicState>(m.topics, Ctx { version: version, flexible: (version >= 4), classic: false }))->Ok_0 } else { Seq::<u8>::empty() }) + (if 0 <= version && version <= 5 { (array_bytes::<String>(m.topic_names, Ctx { version: version, flexible: (version >= 4), classic: false }))->Ok_0 } else { Seq::<u8>::empty() }) + (i32_bytes(m.timeout_ms)) + (if (version >= 4) { uvarint_bytes(0) } else { Seq::<u8>::empty() })),
            Self::reads_back_message(m, version) ==> Self::spec_deserialize(pre + ((if 6 <= version { (array_bytes::<DeleteTopicState>(m.topics, Ctx { version: version, flexible: (version >= 4), classic: false }))->Ok_0 } else { Seq::<u8>::empty() }) + (if 0 <= version && version <= 5 { (array_bytes::<String>(m.topic_names, Ctx { version: version, flexible: (version >= 4), classic: false }))->Ok_0 } else { Seq::<u8>::empty() }) + (i32_bytes(m.timeout_ms)) + (if (version >= 4) { uvarint_bytes(0) } else { Seq::<u8>::empty() })) + post, pre.len() as int, version) == Ok::<(DeleteTopicsRequestModel, int), SerializationError>((DeleteTopicsRequestModel { topics: if 6 <= version { m.topics } else { Seq::<<DeleteTopicState as DeepView>::V>::empty() }, topic_names: if 0 <= version && version <= 5 { m.topic_names } else { Seq::<<String as DeepView>::V>::empty() }, timeout_ms: m.timeout_ms }, pre.len() as int + ((if 6 <= version { (array_bytes::<DeleteTopicState>(m.topics, Ctx { version: version, flexible: (version >= 4), classic: false }))->Ok_0 } else { Seq::<u8>::empty() }) + (if 0 <= version && version <= 5 { (array_bytes::<String>(m.topic_names, Ctx { version: version, flexible: (version >= 4), classic: false }))->Ok_0 } else { Seq::<u8>::empty() }) + (i32_bytes(m.timeout_ms)) + (if (version >= 4) { uvarint_bytes(0) } else { Seq::<u8>::empty() })).len() - (if version >= 4 { 1int } else { 0int }))),
    {
        let is_flexible = version >= 4;
        let ctx = Ctx { version, flexible: is_flexible, classic: false };
        let b0 = if 6 <= ctx.version { (array_bytes::<DeleteTopicState>(m.topics, Ctx { version: ctx.version, flexible: ctx.flexible, classic: false }))->Ok_0 } else { Seq::<u8>::empty() };
        let b1 = if 0 <= ctx.version && ctx.version <= 5 { (array_bytes::<String>(m.topic_names, Ctx { version: ctx.version, flexible: ctx.flexible, classic: false }))->Ok_0 } else { Seq::<u8>::empty() };
        let b2 = i32_bytes(m.timeout_ms);
        let b3 = if ctx.flexible { uvarint_bytes(0) } else { Seq::<u8>::empty() };
        let e = Self::spec_serialize(m, version)->Ok_0;
        assert(e =~= Seq::<u8>::empty() + b0 + b1 + b2 + b3);
        assert(e =~= b0 + b1 + b2 + b3);
        if Self::reads_back_message(m, version) {
            Self::lemma_message_read_back(pre, m, post, version);
        }
    }

    /// Writing succeeds exactly when every field that the version carries can be
    /// encoded and every field that it leaves out, where leaving it out is an
    /// error, holds its default.
    #[verifier::spinoff_prover]
    pub proof fn lemma_message_write_succeeds(m: DeleteTopicsRequestModel, version: i16)
        ensures
            Self::spec_serialize(m, version) is Ok <==> ((6 <= version) ==> map_encode_err(array_bytes::<DeleteTopicState>(m.topics, Ctx { version: version, flexible: (version >= 4), classic: false }), SerializationError::Encode("failed to encode Topics")) is Ok) && (!(6 <= version) ==> !(m.topics.len() != 0)) && ((0 <= version && version <= 5) ==> map_encode_err(array_bytes::<String>(m.topic_names, Ctx { version: version, flexible: (version >= 4), classic: false }), SerializationError::Encode("failed to encode TopicNames")) is Ok) && (!(0 <= version && version <= 5) ==> !(m.topic_names.len() != 0)) && (map_encode_err(Ok(i32_bytes(m.timeout_ms)), SerializationError::Encode("failed to encode TimeoutMs")) is Ok),
    {
        let is_flexible = version >= 4;
        let ctx = Ctx { version, flexible: is_flexible, classic: false };
    }

    /// Writes the message body for `version`, which must be a supported version.
    /// On failure the buffer is left as it was.
    pub fn serialize(&self, version: ApiVersion, buf: &mut Vec<u8>) -> (r: Result<(), SerializationError>)
        requires
            1 <= version.0 <= 6,
        ensures
            write_exact(r, old(buf)@, final(buf)@, Self::spec_serialize(self.deep_view(), version.0)),
    {
        let start = buf.len();
        let r = self.write_body(version, buf);
        if r.is_err() {
            buf.truncate(start);
        }
        r
    }

    fn write_body(&self, version: ApiVersion, buf: &mut Vec<u8>) -> (r: Result<(), SerializationError>)
        requires
            1 <= version.0 <= 6,
        ensures
            write_ok(r, old(buf)@, final(buf)@, Self::spec_serialize(self.deep_view(), version.0)),
    {
        let is_flexible = version.0 >= Self::get_min_flexible_version().0;
        let ctx = Ctx::new(version, is_flexible);
        let ghost mut w: Seq<u8> = Seq::empty();
        if 6 <= ctx.version {
            match encode_array(&self.topics, buf, Ctx { version: ctx.version, flexible: ctx.flexible, classic: false }) {
                Ok(()) => {},
                Err(_) => {
                    return Err(SerializationError::Encode("failed to encode Topics"));
                },
            }
            proof {
                w = w + (map_encode_err(array_bytes::<DeleteTopicState>(self.topics.deep_view(), Ctx { version: ctx.version, flexible: ctx.flexible, classic: false }), SerializationError::Encode("failed to encode Topics")))->Ok_0;
            }
            assert(buf@ =~= old(buf)@ + w);
        } else if self.topics.len() != 0 {
            return Err(SerializationError::Encode("field 'Topics' is not available in this version"));
        }
        if 0 <= ctx.version && ctx.version <= 5 {
            match encode_array(&self.topic_names, buf, Ctx { version: ctx.version, flexible: ctx.flexible, classic: false }) {
                Ok(()) => {},
                Err(_) => {
                    return Err(SerializationError::Encode("failed to encode TopicNames"));
                },
            }
            proof {
                w = w + (map_encode_err(array_bytes::<String>(self.topic_names.deep_view(), Ctx { version: ctx.version, flexible: ctx.flexible, classic: false }), SerializationError::Encode("failed to encode TopicNames")))->Ok_0;
            }
            assert(buf@ =~= old(buf)@ + w);
        } else if self.topic_names.len() != 0 {
            return Err(SerializationError::Encode("field 'TopicNames' is not available in this version"));
        }
        put_i32(buf, self.timeout_ms);
        proof {
            w = w + (map_encode_err(Ok(i32_bytes(self.timeout_ms)), SerializationError::Encode("failed to encode TimeoutMs")))->Ok_0;
        }
        assert(buf@ =~= old(buf)@ + w);
        if ctx.flexible {
            encode_unsigned_varint(0, buf);
            proof {
                w = w + uvarint_bytes(0);
            }
            assert(buf@ =~= old(buf)@ + w);
        }
        Ok(())
    }

    /// Reads a message body written for `version`.
    /// On failure the reader is put back where it started.
    pub fn deserialize(version: ApiVersion, buf: &mut Reader) -> (r: Result<Self, SerializationError>)
        ensures
            final(buf).bytes() == old(buf).bytes(),
            read_view_exact(r, Self::spec_deserialize(old(buf).bytes(), old(buf).pos(), version.0), old(buf).pos(), final(buf).pos()),
    {
        let start = buf.position();
        let r = Self::read_body(version, buf);
        if r.is_err() {
            buf.set_position(start);
        }
        r
    }

    fn read_body(version: ApiVersion, buf: &mut Reader) -> (r: Result<Self, SerializationError>)
        ensures
            final(buf).bytes() == old(buf).bytes(),
            read_view_ok(r, Self::spec_deserialize(old(buf).bytes(), old(buf).pos(), version.0), final(buf).pos()),
    {
        let is_flexible = version.0 >= Self::get_min_flexible_version().0;
        let ctx = Ctx::new(version, is_flexible);
        let topics = if 6 <= ctx.version {
            match decode_array::<DeleteTopicState>(buf, Ctx { version: ctx.version, flexible: ctx.flexible, classic: false }) { Ok(v) => v, Err(_) => { return Err(SerializationError::Decode("failed to decode Topics")); } }
        } else {
            new_array::<DeleteTopicState>()
        };
        let topic_names = if 0 <= ctx.version && ctx.version <= 5 {
            match decode_array::<String>(buf, Ctx { version: ctx.version, flexible: ctx.flexible, classic: false }) { Ok(v) => v, Err(_) => { return Err(SerializationError::Decode("failed to decode TopicNames")); } }
        } else {
            new_array::<String>()
        };
        let timeout_ms = match buf.get_i32() { Ok(v) => v, Err(_) => { return Err(SerializationError::Decode("failed to decode TimeoutMs")); } };
        Ok(DeleteTopicsRequest { topics, topic_names, timeout_ms })
    }
}

// -------------------------------------------------------
// DeleteTopicState
// -------------------------------------------------------
#[derive(Clone, Debug, Default, PartialEq)]
pub struct DeleteTopicState {
    /// The topic name.
    /// Available in version 6+.
    pub name: Option<String>,
    /// The unique topic ID.
    /// Available in version 6+.
    pub topic_id: [u8; 16],
}

/// The contents of `DeleteTopicState`, with strings as characters and
/// nested values by their contents.
pub struct DeleteTopicStateModel {
    pub name: Option<Seq<char>>,
    pub topic_id: Seq<u8>,
}

impl DeepView for DeleteTopicState {
    type V = DeleteTopicStateModel;

    open spec fn deep_view(&self) -> DeleteTopicStateModel {
        DeleteTopicStateModel {
            name: self.name.deep_view(),
            topic_id: self.topic_id@,
        }
    }
}

impl DeleteTopicState {
    /// The encoding of the structure in context `ctx`.
    pub open spec fn spec_encode_body(m: DeleteTopicStateModel, ctx: Ctx) -> Result<Seq<u8>, SerializationError> {
        let r = Ok(Seq::<u8>::empty());
        let r = if 6 <= ctx.version { then(r, map_encode_err(nullable_string_bytes(m.name, ctx.flexible), SerializationError::ValueTooLarge { message: "failed to encode Name" })) } else { r };
        let r = if 6 <= ctx.version { then(r, map_encode_err(Ok(m.topic_id), SerializationError::ValueTooLarge { message: "failed to encode TopicId" })) } else { r };
        let r = if ctx.flexible { then(r, Ok(uvarint_bytes(0))) } else { r };
        r
    }

    /// The structure read from `s` at `pos` in context `ctx`.
    pub open spec fn spec_decode_body(s: Seq<u8>, pos: int, ctx: Ctx) -> Result<(DeleteTopicStateModel, int), SerializationError> {
        match (if 6 <= ctx.version { map_decode_err(parse_nullable_string(s, pos, ctx.flexible), SerializationError::Protocol { message: "failed to decode Name" }) } else { Ok((None, pos)) }) {
            Err(e) => Err(e),
            Ok((name, pos)) =>
            match (if 6 <= ctx.version { map_decode_err(parse_raw(s, pos, 16), SerializationError::Protocol { message: "failed to decode TopicId" }) } else { Ok((zero_uuid_bytes(), pos)) }) {
                Err(e) => Err(e),
                Ok((topic_id, pos)) =>
                match (if ctx.flexible { parse_uvarint(s, pos) } else { Ok((0u64, pos)) }) {
                    Err(e) => Err(e),
                    Ok((_tag_count, pos)) =>
                    Ok((DeleteTopicStateModel { name, topic_id }, pos))
                }
            }
        }
    }

    /// The structure as it reads back in context `ctx`: each field that the
    /// version leaves out is at its default.
    #[verifier::opaque]
    pub open spec fn spec_read_as(m: DeleteTopicStateModel, ctx: Ctx) -> DeleteTopicStateModel {
        DeleteTopicStateModel { name: if 6 <= ctx.version { m.name } else { None }, topic_id: if 6 <= ctx.version { m.topic_id } else { zero_uuid_bytes() } }
    }

    /// Values that read back in context `ctx`: nested values read back. A field
    /// that the version leaves out is read as its default.
    pub open spec fn reads_back_body(m: DeleteTopicStateModel, ctx: Ctx) -> bool {
        &&& (6 <= ctx.version) ==> m.topic_id.len() == 16
    }

    /// A value that can be written in context `ctx` and reads back: decoding its
    /// encoding, wherever it stands, gives the value as `spec_read_as` gives it and
    /// the position just after it.
    #[verifier::spinoff_prover]
    pub proof fn lemma_body_read_back(pre: Seq<u8>, m: DeleteTopicStateModel, post: Seq<u8>, ctx: Ctx)
        requires
            Self::spec_encode_body(m, ctx) is Ok,
            Self::reads_back_body(m, ctx),
        ensures
            Self::spec_decode_body(pre + Self::spec_encode_body(m, ctx)->Ok_0 + post, pre.len() as int, ctx) == Ok::<(DeleteTopicStateModel, int), SerializationError>((Self::spec_read_as(m, ctx), pre.len() as int + Self::spec_encode_body(m, ctx)->Ok_0.len())),
    {
        reveal(DeleteTopicState::spec_read_as);
        let b0 = if 6 <= ctx.version { (nullable_string_bytes(m.name, ctx.flexible))->Ok_0 } else { Seq::<u8>::empty() };
        let b1 = if 6 <= ctx.version { m.topic_id } else { Seq::<u8>::empty() };
        let b2 = if ctx.flexible { uvarint_bytes(0) } else { Seq::<u8>::empty() };
        let t3 = post;
        let t2 = b2 + t3;
        let t1 = b1 + t2;
        let t0 = b0 + t1;
        let e = Self::spec_encode_body(m, ctx)->Ok_0;
        assert(e =~= Seq::<u8>::empty() + b0 + b1 + b2);
        lemma_seq_assoc(((Seq::<u8>::empty() + b0) + b1), b2, post);
        lemma_seq_assoc((Seq::<u8>::empty() + b0), b1, (b2 + post));
        lemma_seq_assoc(Seq::<u8>::empty(), b0, (b1 + (b2 + post)));
        lemma_seq_empty_left((b0 + (b1 + (b2 + post))));
        let s = pre + e + post;
        lemma_seq_assoc(pre, e, post);
        assert(s == pre + t0);
        let a0 = pre;
        if 6 <= ctx.version {
            assert(parse_nullable_string(s, a0.len() as int, ctx.flexible) == Ok::<(Option<Seq<char>>, int), SerializationError>((m.name, a0.len() as int + b0.len()))) by {
                assert(nullable_string_bytes(m.name, ctx.flexible) is Ok);
                lemma_seq_assoc(a0, b0, t1);
                lemma_nullable_string_roundtrip(a0, m.name, t1, ctx.flexible);
            }
        }
        lemma_seq_assoc(a0, b0, t1);
        let a1 = a0 + b0;
        if 6 <= ctx.version {
            assert(parse_raw(s, a1.len() as int, 16) == Ok::<(Seq<u8>, int), SerializationError>((m.topic_id, a1.len() as int + b1.len()))) by {
                lemma_seq_assoc(a1, b1, t2);
                lemma_uuid_roundtrip(a1, m.topic_id, t2);
            }
        }
        lemma_seq_assoc(a1, b1, t2);
        let a2 = a1 + b1;
        if ctx.flexible {
            assert(parse_uvarint(s, a2.len() as int) == Ok::<(u64, int), SerializationError>((0u64, a2.len() as int + b2.len()))) by {
                lemma_seq_assoc(a2, b2, t3);
                lemma_uvarint_roundtrip(a2, 0, t3);
            }
        }
    }

    /// The bytes written: the encoding of each field, in the order of the
    /// protocol's layout. Reading them back, wherever they stand, gives the value,
    /// with each field that the version leaves out at its default.
    #[verifier::spinoff_prover]
    pub proof fn lemma_body_layout(pre: Seq<u8>, m: DeleteTopicStateModel, post: Seq<u8>, ctx: Ctx)
        requires
            Self::spec_encode_body(m, ctx) is Ok,
        ensures
            Self::spec_encode_body(m, ctx) == Ok::<Seq<u8>, SerializationError>((if 6 <= ctx.version { (nullable_string_bytes(m.name, ctx.flexible))->Ok_0 } else { Seq::<u8>::empty() }) + (if 6 <= ctx.version { m.topic_id } else { Seq::<u8>::empty() }) + (if ctx.flexible { uvarint_bytes(0) } else { Seq::<u8>::empty() })),
            Self::reads_back_body(m, ctx) ==> Self::spec_decode_body(pre + ((if 6 <= ctx.version { (nullable_string_bytes(m.name, ctx.flexible))->Ok_0 } else { Seq::<u8>::empty() }) + (if 6 <= ctx.version { m.topic_id } else { Seq::<u8>::empty() }) + (if ctx.flexible { uvarint_bytes(0) } else { Seq::<u8>::empty() })) + post, pre.len() as int, ctx) == Ok::<(DeleteTopicStateModel, int), SerializationError>((DeleteTopicStateModel { name: if 6 <= ctx.version { m.name } else { None }, topic_id: if 6 <= ctx.version { m.topic_id } else { zero_uuid_bytes() } }, pre.len() as int + ((if 6 <= ctx.version { (nullable_string_bytes(m.name, ctx.flexible))->Ok_0 } else { Seq::<u8>::empty() }) + (if 6 <= ctx.version { m.topic_id } else { Seq::<u8>::empty() }) + (if ctx.flexible { uvarint_bytes(0) } else { Seq::<u8>::empty() })).len())),
    {
        let b0 = if 6 <= ctx.version { (nullable_string_bytes(m.name, ctx.flexible))->Ok_0 } else { Seq::<u8>::empty() };
        let b1 = if 6 <= ctx.version { m.topic_id } else { Seq::<u8>::empty() };
        let b2 = if ctx.flexible { uvarint_bytes(0) } else { Seq::<u8>::empty() };
        let e = Self::spec_encode_body(m, ctx)->Ok_0;
        assert(e =~= Seq::<u8>::empty() + b0 + b1 + b2);
        assert(e =~= b0 + b1 + b2);
        if Self::reads_back_body(m, ctx) {
            Self::lemma_body_read_back(pre, m, post, ctx);
            reveal(DeleteTopicState::spec_read_as);
        }
    }

    /// Writing succeeds exactly when every field that the version carries can be
    /// encoded and every field that it leaves out, where leaving it out is an
    /// error, holds its default.
    #[verifier::spinoff_prover]
    pub proof fn lemma_body_write_succeeds(m: DeleteTopicStateModel, ctx: Ctx)
        ensures
            Self::spec_encode_body(m, ctx) is Ok <==> ((6 <= ctx.version) ==> map_encode_err(nullable_string_bytes(m.name, ctx.flexible), SerializationError::ValueTooLarge { message: "failed to encode Name" }) is Ok) && ((6 <= ctx.version) ==> map_encode_err(Ok(m.topic_id), SerializationError::ValueTooLarge { message: "failed to encode TopicId" }) is Ok),
    {
    }

    /// Writes the structure for `version`, with the compact encodings when `is_flexible`.
    /// On failure the buffer is left as it was.
    pub fn encode(&self, buf: &mut Vec<u8>, version: ApiVersion, is_flexible: bool) -> (r: Result<(), SerializationError>)
        ensures
            write_exact(r, old(buf)@, final(buf)@, Self::spec_encode_body(self.deep_view(), Ctx { version: version.0, flexible: is_flexible, classic: false })),
    {
        let start = buf.len();
        let r = self.encode_ctx(buf, Ctx::new(version, is_flexible));
        if r.is_err() {
            buf.truncate(start);
        }
        r
    }

    /// Reads the structure as written for `version`.
    /// On failure the reader is put back where it started.
    pub fn decode(buf: &mut Reader, version: ApiVersion, is_flexible: bool) -> (r: Result<Self, SerializationError>)
        ensures
            final(buf).bytes() == old(buf).bytes(),
            read_view_exact(r, Self::spec_decode_body(old(buf).bytes(), old(buf).pos(), Ctx { version: version.0, flexible: is_flexible, classic: false }), old(buf).pos(), final(buf).pos()),
    {
        let start = buf.position();
        let r = Self::decode_ctx(buf, Ctx::new(version, is_flexible));
        if r.is_err() {
            buf.set_position(start);
        }
        r
    }
}

impl KafkaCodec for DeleteTopicState {
    open spec fn spec_encode(m: DeleteTopicStateModel, ctx: Ctx) -> Result<Seq<u8>, SerializationError> {
        Self::spec_encode_body(m, ctx)
    }

    open spec fn spec_decode(s: Seq<u8>, pos: int, ctx: Ctx) -> Result<(DeleteTopicStateModel, int), SerializationError> {
        Self::spec_decode_body(s, pos, ctx)
    }

    open spec fn reads_back(v: DeleteTopicStateModel, ctx: Ctx) -> bool {
        Self::reads_back_body(v, ctx) && Self::spec_read_as(v, ctx) == v
    }

    proof fn lemma_read_back(pre: Seq<u8>, v: DeleteTopicStateModel, post: Seq<u8>, ctx: Ctx) {
        Self::lemma_body_read_back(pre, v, post, ctx);
        assert(Self::spec_decode(pre + Self::spec_encode(v, ctx)->Ok_0 + post, pre.len() as int, ctx)
            == Self::spec_decode_body(pre + Self::spec_encode_body(v, ctx)->Ok_0 + post, pre.len() as int, ctx));
    }

    fn encode_ctx(&self, buf: &mut Vec<u8>, ctx: Ctx) -> (r: Result<(), SerializationError>) {
        let ghost mut w: Seq<u8> = Seq::empty();
        if 6 <= ctx.version {
            match encode_nullable_string(&self.name, buf, ctx.flexible) {
                Ok(()) => {},
                Err(_) => {
                    return Err(SerializationError::ValueTooLarge { message: "failed to encode Name" });
                },
            }
            proof {
                w = w + (map_encode_err(nullable_string_bytes(self.name.deep_view(), ctx.flexible), SerializationError::ValueTooLarge { message: "failed to encode Name" }))->Ok_0;
            }
            assert(buf@ =~= old(buf)@ + w);
        }
        if 6 <= ctx.version {
            encode_uuid(&self.topic_id, buf);
            proof {
                w = w + (map_encode_err(Ok(self.topic_id@), SerializationError::ValueTooLarge { message: "failed to encode TopicId" }))->Ok_0;
            }
            assert(buf@ =~= old(buf)@ + w);
        }
        if ctx.flexible {
            encode_unsigned_varint(0, buf);
            proof {
                w = w + uvarint_bytes(0);
            }
            assert(buf@ =~= old(buf)@ + w);
        }
        Ok(())
    }

    fn decode_ctx(buf: &mut Reader, ctx: Ctx) -> (r: Result<Self, SerializationError>) {
        let name = if 6 <= ctx.version {
            match buf.get_nullable_string(ctx.flexible) { Ok(v) => v, Err(_) => { return Err(SerializationError::Protocol { message: "failed to decode Name" }); } }
        } else {
            None
        };
        let topic_id = if 6 <= ctx.version {
            match buf.get_uuid() { Ok(v) => v, Err(_) => { return Err(SerializationError::Protocol { message: "failed to decode TopicId" }); } }
        } else {
            zero_uuid()
        };
        if ctx.flexible {
            let (_tag_count, _) = decode_unsigned_varint(buf)?;
        }
        Ok(DeleteTopicState { name, topic_id })
    }
}

} // verus!
