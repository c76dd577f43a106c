//! DescribeQuorumResponse (API key 55).
use vstd::prelude::*;
use crate::roundtrip::{lemma_array_roundtrip, lemma_i16_roundtrip, lemma_i32_roundtrip,
    lemma_i64_roundtrip, lemma_items_read_back, lemma_nullable_string_roundtrip, lemma_seq_assoc,
    lemma_seq_empty_left, lemma_string_roundtrip, lemma_u16_roundtrip, lemma_uuid_roundtrip,
    lemma_uvarint_roundtrip};
use crate::serialization::{Ctx, KafkaCodec, Reader, SerializationError, array_bytes, decode_array,
    decode_unsigned_varint, encode_array, encode_nullable_string, encode_string,
    encode_unsigned_varint, encode_uuid, i16_bytes, i32_bytes, i64_bytes, new_array,
    nullable_string_bytes, parse_array, parse_i16, parse_i32, parse_i64, parse_nullable_string,
    parse_raw, parse_string, parse_u16, parse_uvarint, put_i16, put_i32, put_i64, put_u16,
    read_view_exact, read_view_ok, string_bytes, then, u16_bytes, uvarint_bytes, write_exact,
    write_ok, zero_uuid, zero_uuid_bytes};
use crate::{ApiKey, ApiVersion};

verus! {

// -------------------------------------------------------
// DescribeQuorumResponse
// -------------------------------------------------------
#[derive(Clone, Debug, Default, PartialEq)]
pub struct DescribeQuorumResponse {
    /// The top level error code.
    pub error_code: i16,
    /// The error message, or null if there was no error.
    /// Available in version 2+.
    pub error_message: Option<String>,
    /// The response from the describe quorum API.
    pub topics: Vec<TopicData>,
    /// The nodes in the quorum.
    /// Available in version 2+.
    pub nodes: Vec<Node>,
}

/// The contents of `DescribeQuorumResponse`, with strings as characters and
/// nested values by their contents.
pub struct DescribeQuorumResponseModel {
    pub error_code: i16,
    pub error_message: Option<Seq<char>>,
    pub topics: Seq<<TopicData as DeepView>::V>,
    pub nodes: Seq<<Node as DeepView>::V>,
}

impl DeepView for DescribeQuorumResponse {
    type V = DescribeQuorumResponseModel;

    open spec fn deep_view(&self) -> DescribeQuorumResponseModel {
        DescribeQuorumResponseModel {
            error_code: self.error_code,
            error_message: self.error_message.deep_view(),
            topics: self.topics.deep_view(),
            nodes: self.nodes.deep_view(),
        }
    }
}

impl DescribeQuorumResponse {
    /// The encoding of the structure in context `ctx`.
    pub open spec fn spec_encode_body(m: DescribeQuorumResponseModel, ctx: Ctx) -> Result<Seq<u8>, SerializationError> {
        let r = Ok(Seq::<u8>::empty());
        let r = then(r, Ok(i16_bytes(m.error_code)));
        let r = if 2 <= ctx.version { then(r, nullable_string_bytes(m.error_message, ctx.flexible)) } else { r };
        let r = then(r, array_bytes::<TopicData>(m.topics, Ctx { version: ctx.version, flexible: ctx.flexible, classic: false }));
        let r = if 2 <= ctx.version { then(r, array_bytes::<Node>(m.nodes, Ctx { version: ctx.version, flexible: ctx.flexible, classic: false })) } else { r };
        let r = if ctx.flexible { then(r, Ok(uvarint_bytes(0))) } else { r };
        r
    }

    /// The structure read from `s` at `pos` in context `ctx`.
    pub open spec fn spec_decode_body(s: Seq<u8>, pos: int, ctx: Ctx) -> Result<(DescribeQuorumResponseModel, int), SerializationError> {
        match parse_i16(s, pos) {
            Err(e) => Err(e),
            Ok((error_code, pos)) =>
            match (if 2 <= ctx.version { parse_nullable_string(s, pos, ctx.flexible) } else { Ok((None, pos)) }) {
                Err(e) => Err(e),
                Ok((error_message, pos)) =>
                match parse_array::<TopicData>(s, pos, Ctx { version: ctx.version, flexible: ctx.flexible, classic: false }) {
                    Err(e) => Err(e),
                    Ok((topics, pos)) =>
                    match (if 2 <= ctx.version { parse_array::<Node>(s, pos, Ctx { version: ctx.version, flexible: ctx.flexible, classic: false }) } else { Ok((Seq::<<Node as DeepView>::V>::empty(), pos)) }) {
                        Err(e) => Err(e),
                        Ok((nodes, pos)) =>
                        match (if ctx.flexible { parse_uvarint(s, pos) } else { Ok((0u64, pos)) }) {
                            Err(e) => Err(e),
                            Ok((_tag_count, pos)) =>
                            Ok((DescribeQuorumResponseModel { error_code, error_message, topics, nodes }, pos))
                        }
                    }
                }
            }
        }
    }

    /// The structure as it reads back in context `ctx`: each field that the
    /// version leaves out is at its default.
    #[verifier::opaque]
    pub open spec fn spec_read_as(m: DescribeQuorumResponseModel, ctx: Ctx) -> DescribeQuorumResponseModel {
        DescribeQuorumResponseModel { error_code: m.error_code, error_message: if 2 <= ctx.version { m.error_message } else { None }, topics: m.topics, nodes: if 2 <= ctx.version { m.nodes } else { Seq::<<Node as DeepView>::V>::empty() } }
    }

    /// Values that read back in context `ctx`: nested values read back. A field
    /// that the version leaves out is read as its default.
    pub open spec fn reads_back_body(m: DescribeQuorumResponseModel, ctx: Ctx) -> bool {
        &&& forall|i: int| 0 <= i < m.topics.len() ==> #[trigger] <TopicData as KafkaCodec>::reads_back(m.topics[i], Ctx { version: ctx.version, flexible: ctx.flexible, classic: false })
        &&& (2 <= ctx.version) ==> forall|i: int| 0 <= i < m.nodes.len() ==> #[trigger] <Node as KafkaCodec>::reads_back(m.nodes[i], Ctx { version: ctx.version, flexible: ctx.flexible, classic: false })
    }

    /// A value that can be written in context `ctx` and reads back: decoding its
    /// encoding, wherever it stands, gives the value as `spec_read_as` gives it and
    /// the position just after it.
    #[verifier::spinoff_prover]
    pub proof fn lemma_body_read_back(pre: Seq<u8>, m: DescribeQuorumResponseModel, post: Seq<u8>, ctx: Ctx)
        requires
            Self::spec_encode_body(m, ctx) is Ok,
            Self::reads_back_body(m, ctx),
        ensures
            Self::spec_decode_body(pre + Self::spec_encode_body(m, ctx)->Ok_0 + post, pre.len() as int, ctx) == Ok::<(DescribeQuorumResponseModel, int), SerializationError>((Self::spec_read_as(m, ctx), pre.len() as int + Self::spec_encode_body(m, ctx)->Ok_0.len())),
    {
        reveal(DescribeQuorumResponse::spec_read_as);
        let b0 = i16_bytes(m.error_code);
        let b1 = if 2 <= ctx.version { (nullable_string_bytes(m.error_message, ctx.flexible))->Ok_0 } else { Seq::<u8>::empty() };
        let b2 = (array_bytes::<TopicData>(m.topics, Ctx { version: ctx.version, flexible: ctx.flexible, classic: false }))->Ok_0;
        let b3 = if 2 <= ctx.version { (array_bytes::<Node>(m.nodes, Ctx { version: ctx.version, flexible: ctx.flexible, classic: false }))->Ok_0 } else { Seq::<u8>::empty() };
        let b4 = if ctx.flexible { uvarint_bytes(0) } else { Seq::<u8>::empty() };
        let t5 = post;
        let t4 = b4 + t5;
        let t3 = b3 + t4;
        let t2 = b2 + t3;
        let t1 = b1 + t2;
        let t0 = b0 + t1;
        let e = Self::spec_encode_body(m, ctx)->Ok_0;
        assert(e =~= Seq::<u8>::empty() + b0 + b1 + b2 + b3 + b4);
        lemma_seq_assoc(((((Seq::<u8>::empty() + b0) + b1) + b2) + b3), b4, post);
        lemma_seq_assoc((((Seq::<u8>::empty() + b0) + b1) + b2), b3, (b4 + post));
        lemma_seq_assoc(((Seq::<u8>::empty() + b0) + b1), b2, (b3 + (b4 + post)));
        lemma_seq_assoc((Seq::<u8>::empty() + b0), b1, (b2 + (b3 + (b4 + post))));
        lemma_seq_assoc(Seq::<u8>::empty(), b0, (b1 + (b2 + (b3 + (b4 + post)))));
        lemma_seq_empty_left((b0 + (b1 + (b2 + (b3 + (b4 + post))))));
        let s = pre + e + post;
        lemma_seq_assoc(pre, e, post);
        assert(s == pre + t0);
        let a0 = pre;
        assert(parse_i16(s, a0.len() as int) == Ok::<(i16, int), SerializationError>((m.error_code, a0.len() as int + b0.len()))) by {
            lemma_seq_assoc(a0, b0, t1);
            lemma_i16_roundtrip(a0, m.error_code, t1);
        }
        lemma_seq_assoc(a0, b0, t1);
        let a1 = a0 + b0;
        if 2 <= ctx.version {
            assert(parse_nullable_string(s, a1.len() as int, ctx.flexible) == Ok::<(Option<Seq<char>>, int), SerializationError>((m.error_message, a1.len() as int + b1.len()))) by {
                assert(nullable_string_bytes(m.error_message, ctx.flexible) is Ok);
                lemma_seq_assoc(a1, b1, t2);
                lemma_nullable_string_roundtrip(a1, m.error_message, t2, ctx.flexible);
            }
        }
        lemma_seq_assoc(a1, b1, t2);
        let a2 = a1 + b1;
        assert(parse_array::<TopicData>(s, a2.len() as int, Ctx { version: ctx.version, flexible: ctx.flexible, classic: false }) == Ok::<(Seq<<TopicData as DeepView>::V>, int), SerializationError>((m.topics, a2.len() as int + b2.len()))) by {
            assert(array_bytes::<TopicData>(m.topics, Ctx { version: ctx.version, flexible: ctx.flexible, classic: false }) is Ok);
            lemma_seq_assoc(a2, b2, t3);
            lemma_items_read_back::<TopicData>(m.topics, Ctx { version: ctx.version, flexible: ctx.flexible, classic: false });
            lemma_array_roundtrip::<TopicData>(a2, m.topics, t3, Ctx { version: ctx.version, flexible: ctx.flexible, classic: false });
        }
        lemma_seq_assoc(a2, b2, t3);
        let a3 = a2 + b2;
        if 2 <= ctx.version {
            assert(parse_array::<Node>(s, a3.len() as int, Ctx { version: ctx.version, flexible: ctx.flexible, classic: false }) == Ok::<(Seq<<Node as DeepView>::V>, int), SerializationError>((m.nodes, a3.len() as int + b3.len()))) by {
                assert(array_bytes::<Node>(m.nodes, Ctx { version: ctx.version, flexible: ctx.flexible, classic: false }) is Ok);
                lemma_seq_assoc(a3, b3, t4);
                lemma_items_read_back::<Node>(m.nodes, Ctx { version: ctx.version, flexible: ctx.flexible, classic: false });
                lemma_array_roundtrip::<Node>(a3, m.nodes, t4, Ctx { version: ctx.version, flexible: ctx.flexible, classic: false });
            }
        }
        lemma_seq_assoc(a3, b3, t4);
        let a4 = a3 + b3;
        if ctx.flexible {
            assert(parse_uvarint(s, a4.len() as int) == Ok::<(u64, int), SerializationError>((0u64, a4.len() as int + b4.len()))) by {
                lemma_seq_assoc(a4, b4, t5);
                lemma_uvarint_roundtrip(a4, 0, t5);
            }
        }
    }

    /// The bytes written: the encoding of each field, in the order of the
    /// protocol's layout. Reading them back, wherever they stand, gives the value,
    /// with each field that the version leaves out at its default.
    #[verifier::spinoff_prover]
    pub proof fn lemma_body_layout(pre: Seq<u8>, m: DescribeQuorumResponseModel, post: Seq<u8>, ctx: Ctx)
        requires
            Self::spec_encode_body(m, ctx) is Ok,
        ensures
            Self::spec_encode_body(m, ctx) == Ok::<Seq<u8>, SerializationError>((i16_bytes(m.error_code)) + (if 2 <= ctx.version { (nullable_string_bytes(m.error_message, ctx.flexible))->Ok_0 } else { Seq::<u8>::empty() }) + ((array_bytes::<TopicData>(m.topics, Ctx { version: ctx.version, flexible: ctx.flexible, classic: false }))->Ok_0) + (if 2 <= ctx.version { (array_bytes::<Node>(m.nodes, Ctx { version: ctx.version, flexible: ctx.flexible, classic: false }))->Ok_0 } else { Seq::<u8>::empty() }) + (if ctx.flexible { uvarint_bytes(0) } else { Seq::<u8>::empty() })),
            Self::reads_back_body(m, ctx) ==> Self::spec_decode_body(pre + ((i16_bytes(m.error_code)) + (if 2 <= ctx.version { (nullable_string_bytes(m.error_message, ctx.flexible))->Ok_0 } else { Seq::<u8>::empty() }) + ((array_bytes::<TopicData>(m.topics, Ctx { version: ctx.version, flexible: ctx.flexible, classic: false }))->Ok_0) + (if 2 <= ctx.version { (array_bytes::<Node>(m.nodes, Ctx { version: ctx.version, flexible: ctx.flexible, classic: false }))->Ok_0 } else { Seq::<u8>::empty() }) + (if ctx.flexible { uvarint_bytes(0) } else { Seq::<u8>::empty() })) + post, pre.len() as int, ctx) == Ok::<(DescribeQuorumResponseModel, int), SerializationError>((DescribeQuorumResponseModel { error_code: m.error_code, error_message: if 2 <= ctx.version { m.error_message } else { None }, topics: m.topics, nodes: if 2 <= ctx.version { m.nodes } else { Seq::<<Node as DeepView>::V>::empty() } }, pre.len() as int + ((i16_bytes(m.error_code)) + (if 2 <= ctx.version { (nullable_string_bytes(m.error_message, ctx.flexible))->Ok_0 } else { Seq::<u8>::empty() }) + ((array_bytes::<TopicData>(m.topics, Ctx { version: ctx.version, flexible: ctx.flexible, classic: false }))->Ok_0) + (if 2 <= ctx.version { (array_bytes::<Node>(m.nodes, Ctx { version: ctx.version, flexible: ctx.flexible, classic: false }))->Ok_0 } else { Seq::<u8>::empty() }) + (if ctx.flexible { uvarint_bytes(0) } else { Seq::<u8>::empty() })).len())),
    {
        let b0 = i16_bytes(m.error_code);
        let b1 = if 2 <= ctx.version { (nullable_string_bytes(m.error_message, ctx.flexible))->Ok_0 } else { Seq::<u8>::empty() };
        let b2 = (array_bytes::<TopicData>(m.topics, Ctx { version: ctx.version, flexible: ctx.flexible, classic: false }))->Ok_0;
        let b3 = if 2 <= ctx.version { (array_bytes::<Node>(m.nodes, Ctx { version: ctx.version, flexible: ctx.flexible, classic: false }))->Ok_0 } else { Seq::<u8>::empty() };
        let b4 = if ctx.flexible { uvarint_bytes(0) } else { Seq::<u8>::empty() };
        let e = Self::spec_encode_body(m, ctx)->Ok_0;
        assert(e =~= Seq::<u8>::empty() + b0 + b1 + b2 + b3 + b4);
        assert(e =~= b0 + b1 + b2 + b3 + b4);
        if Self::reads_back_body(m, ctx) {
            Self::lemma_body_read_back(pre, m, post, ctx);
            reveal(DescribeQuorumResponse::spec_read_as);
        }
    }

    /// Writing succeeds exactly when every field that the version carries can be
    /// encoded and every field that it leaves out, where leaving it out is an
    /// error, holds its default.
    #[verifier::spinoff_prover]
    pub proof fn lemma_body_write_succeeds(m: DescribeQuorumResponseModel, ctx: Ctx)
        ensures
            Self::spec_encode_body(m, ctx) is Ok <==> ((2 <= ctx.version) ==> nullable_string_bytes(m.error_message, ctx.flexible) is Ok) && (array_bytes::<TopicData>(m.topics, Ctx { version: ctx.version, flexible: ctx.flexible, classic: false }) is Ok) && ((2 <= ctx.version) ==> array_bytes::<Node>(m.nodes, Ctx { version: ctx.version, flexible: ctx.flexible, classic: false }) is Ok),
    {
    }

    /// Writes the structure for `version`, with the compact encodings when `is_flexible`.
    /// On failure the buffer is left as it was.
    pub fn encode(&self, buf: &mut Vec<u8>, version: ApiVersion, is_flexible: bool) -> (r: Result<(), SerializationError>)
        ensures
            write_exact(r, old(buf)@, final(buf)@, Self::spec_encode_body(self.deep_view(), Ctx { version: version.0, flexible: is_flexible, classic: false })),
    {
        let start = buf.len();
        let r = self.encode_ctx(buf, Ctx::new(version, is_flexible));
        if r.is_err() {
            buf.truncate(start);
        }
        r
    }

    /// Reads the structure as written for `version`.
    /// On failure the reader is put back where it started.
    pub fn decode(buf: &mut Reader, version: ApiVersion, is_flexible: bool) -> (r: Result<Self, SerializationError>)
        ensures
            final(buf).bytes() == old(buf).bytes(),
            read_view_exact(r, Self::spec_decode_body(old(buf).bytes(), old(buf).pos(), Ctx { version: version.0, flexible: is_flexible, classic: false }), old(buf).pos(), final(buf).pos()),
    {
        let start = buf.position();
        let r = Self::decode_ctx(buf, Ctx::new(version, is_flexible));
        if r.is_err() {
            buf.set_position(start);
        }
        r
    }
}

impl KafkaCodec for DescribeQuorumResponse {
    open spec fn spec_encode(m: DescribeQuorumResponseModel, ctx: Ctx) -> Result<Seq<u8>, SerializationError> {
        Self::spec_encode_body(m, ctx)
    }

    open spec fn spec_decode(s: Seq<u8>, pos: int, ctx: Ctx) -> Result<(DescribeQuorumResponseModel, int), SerializationError> {
        Self::spec_decode_body(s, pos, ctx)
    }

    open spec fn reads_back(v: DescribeQuorumResponseModel, ctx: Ctx) -> bool {
        Self::reads_back_body(v, ctx) && Self::spec_read_as(v, ctx) == v
    }

    proof fn lemma_read_back(pre: Seq<u8>, v: DescribeQuorumResponseModel, post: Seq<u8>, ctx: Ctx) {
        Self::lemma_body_read_back(pre, v, post, ctx);
        assert(Self::spec_decode(pre + Self::spec_encode(v, ctx)->Ok_0 + post, pre.len() as int, ctx)
            == Self::spec_decode_body(pre + Self::spec_encode_body(v, ctx)->Ok_0 + post, pre.len() as int, ctx));
    }

    fn encode_ctx(&self, buf: &mut Vec<u8>, ctx: Ctx) -> (r: Result<(), SerializationError>) {
        let ghost mut w: Seq<u8> = Seq::empty();
        put_i16(buf, self.error_code);
        proof {
            w = w + i16_bytes(self.error_code);
        }
        assert(buf@ =~= old(buf)@ + w);
        if 2 <= ctx.version {
            encode_nullable_string(&self.error_message, buf, ctx.flexible)?;
            proof {
                w = w + (nullable_string_bytes(self.error_message.deep_view(), ctx.flexible))->Ok_0;
            }
            assert(buf@ =~= old(buf)@ + w);
        }
        encode_array(&self.topics, buf, Ctx { version: ctx.version, flexible: ctx.flexible, classic: false })?;
        proof {
            w = w + (array_bytes::<TopicData>(self.topics.deep_view(), Ctx { version: ctx.version, flexible: ctx.flexible, classic: false }))->Ok_0;
        }
        assert(buf@ =~= old(buf)@ + w);
        if 2 <= ctx.version {
            encode_array(&self.nodes, buf, Ctx { version: ctx.version, flexible: ctx.flexible, classic: false })?;
            proof {
                w = w + (array_bytes::<Node>(self.nodes.deep_view(), Ctx { version: ctx.version, flexible: ctx.flexible, classic: false }))->Ok_0;
            }
            assert(buf@ =~= old(buf)@ + w);
        }
        if ctx.flexible {
            encode_unsigned_varint(0, buf);
            proof {
                w = w + uvarint_bytes(0);
            }
            assert(buf@ =~= old(buf)@ + w);
        }
        Ok(())
    }

    fn decode_ctx(buf: &mut Reader, ctx: Ctx) -> (r: Result<Self, SerializationError>) {
        let error_code = buf.get_i16()?;
        let error_message = if 2 <= ctx.version {
            buf.get_nullable_string(ctx.flexible)?
        } else {
            None
        };
        let topics = decode_array::<TopicData>(buf, Ctx { version: ctx.version, flexible: ctx.flexible, classic: false })?;
        let nodes = if 2 <= ctx.version {
            decode_array::<Node>(buf, Ctx { version: ctx.version, flexible: ctx.flexible, classic: false })?
        } else {
            new_array::<Node>()
        };
        if ctx.flexible {
            let (_tag_count, _) = decode_unsigned_varint(buf)?;
        }
        Ok(DescribeQuorumResponse { error_code, error_message, topics, nodes })
    }
}

impl DescribeQuorumResponse {
    /// The API key of this message.
    pub fn get_api_key() -> (r: ApiKey)
        ensures
            r.0 == 55,
    {
        ApiKey::new(55)
    }

    /// The oldest version of this message.
    pub fn get_min_supported_version() -> (r: ApiVersion)
        ensures
            r.0 == 0,
    {
        ApiVersion::new(0)
    }

    /// The newest version of this message.
    pub fn get_max_supported_version() -> (r: ApiVersion)
        ensures
            r.0 == 2,
    {
        ApiVersion::new(2)
    }

    /// The first version of this message with the compact encodings.
    pub fn get_min_flexible_version() -> (r: ApiVersion)
        ensures
            r.0 == 0,
    {
        ApiVersion::new(0)
    }

    /// The encoding of a whole message body at `version`.
    pub open spec fn spec_serialize(m: DescribeQuorumResponseModel, version: i16) -> Result<Seq<u8>, SerializationError> {
        let is_flexible = version >= 0;
        let ctx = Ctx { version, flexible: is_flexible, classic: false };
        let r = Ok(Seq::<u8>::empty());
        let r = then(r, Ok(i16_bytes(m.error_code)));
        let r = if 2 <= ctx.version { then(r, nullable_string_bytes(m.error_message, ctx.flexible)) } else if m.error_message is Some { then(r, Err(SerializationError::Encode("field 'ErrorMessage' is not available in this version"))) } else { r };
        let r = then(r, array_bytes::<TopicData>(m.topics, Ctx { version: ctx.version, flexible: ctx.flexible, classic: false }));
        let r = if 2 <= ctx.version { then(r, array_bytes::<Node>(m.nodes, Ctx { version: ctx.version, flexible: ctx.flexible, classic: false })) } else if m.nodes.len() != 0 { then(r, Err(SerializationError::Encode("field 'Nodes' is not available in this version"))) } else { r };
        let r = if ctx.flexible { then(r, Ok(uvarint_bytes(0))) } else { r };
        r
    }

    /// The message body read at `version`.
    pub open spec fn spec_deserialize(s: Seq<u8>, pos: int, version: i16) -> Result<(DescribeQuorumResponseModel, int), SerializationError> {
        let is_flexible = version >= 0;
        let ctx = Ctx { version, flexible: is_flexible, classic: false };
        match parse_i16(s, pos) {
            Err(e) => Err(e),
            Ok((error_code, pos)) =>
            match (if 2 <= ctx.version { parse_nullable_string(s, pos, ctx.flexible) } else { Ok((None, pos)) }) {
                Err(e) => Err(e),
                Ok((error_message, pos)) =>
                match parse_array::<TopicData>(s, pos, Ctx { version: ctx.version, flexible: ctx.flexible, classic: false }) {
                    Err(e) => Err(e),
                    Ok((topics, pos)) =>
                    match (if 2 <= ctx.version { parse_array::<Node>(s, pos, Ctx { version: ctx.version, flexible: ctx.flexible, classic: false }) } else { Ok((Seq::<<Node as DeepView>::V>::empty(), pos)) }) {
                        Err(e) => Err(e),
                        Ok((nodes, pos)) =>
                        match (if ctx.flexible { parse_uvarint(s, pos) } else { Ok((0u64, pos)) }) {
                            Err(e) => Err(e),
                            Ok((_tag_count, pos)) =>
                            Ok((DescribeQuorumResponseModel { error_code, error_message, topics, nodes }, pos))
                        }
                    }
                }
            }
        }
    }

    /// Message bodies that read back when written at `version`: nested values read
    /// back. A field that the version leaves out is read as its default.
    pub open spec fn reads_back_message(m: DescribeQuorumResponseModel, version: i16) -> bool {
        let is_flexible = version >= 0;
        let ctx = Ctx { version, flexible: is_flexible, classic: false };
        &&& forall|i: int| 0 <= i < m.topics.len() ==> #[trigger] <TopicData as KafkaCodec>::reads_back(m.topics[i], Ctx { version: ctx.version, flexible: ctx.flexible, classic: false })
        &&& (2 <= ctx.version) ==> forall|i: int| 0 <= i < m.nodes.len() ==> #[trigger] <Node as KafkaCodec>::reads_back(m.nodes[i], Ctx { version: ctx.version, flexible: ctx.flexible, classic: false })
    }

    /// A message body that can be written at `version` and reads back: reading a
    /// body at `version` from its bytes, wherever they stand, gives the same message,
    /// with each field that the version leaves out at its default.
    #[verifier::spinoff_prover]
    pub proof fn lemma_message_read_back(pre: Seq<u8>, m: DescribeQuorumResponseModel, post: Seq<u8>, version: i16)
        requires
            Self::spec_serialize(m, version) is Ok,
            Self::reads_back_message(m, version),
        ensures
            Self::spec_deserialize(pre + Self::spec_serialize(m, version)->Ok_0 + post, pre.len() as int, version) == Ok::<(DescribeQuorumResponseModel, int), SerializationError>((DescribeQuorumResponseModel { error_code: m.error_code, error_message: if 2 <= version { m.error_message } else { None }, topics: m.topics, nodes: if 2 <= version { m.nodes } else { Seq::<<Node as DeepView>::V>::empty() } }, pre.len() as int + Self::spec_serialize(m, version)->Ok_0.len())),
    {
        let is_flexible = version >= 0;
        let ctx = Ctx { version, flexible: is_flexible, classic: false };
        let b0 = i16_bytes(m.error_code);
        let b1 = if 2 <= ctx.version { (nullable_string_bytes(m.error_message, ctx.flexible))->Ok_0 } else { Seq::<u8>::empty() };
        let b2 = (array_bytes::<TopicData>(m.topics, Ctx { version: ctx.version, flexible: ctx.flexible, classic: false }))->Ok_0;
        let b3 = if 2 <= ctx.version { (array_bytes::<Node>(m.nodes, Ctx { version: ctx.version, flexible: ctx.flexible, classic: false }))->Ok_0 } else { Seq::<u8>::empty() };
        let b4 = if ctx.flexible { uvarint_bytes(0) } else { Seq::<u8>::empty() };
        let t5 = post;
        let t4 = b4 + t5;
        let t3 = b3 + t4;
        let t2 = b2 + t3;
        let t1 = b1 + t2;
        let t0 = b0 + t1;
        let e = Self::spec_serialize(m, version)->Ok_0;
        assert(e =~= Seq::<u8>::empty() + b0 + b1 + b2 + b3 + b4);
        lemma_seq_assoc(((((Seq::<u8>::empty() + b0) + b1) + b2) + b3), b4, post);
        lemma_seq_assoc((((Seq::<u8>::empty() + b0) + b1) + b2), b3, (b4 + post));
        lemma_seq_assoc(((Seq::<u8>::empty() + b0) + b1), b2, (b3 + (b4 + post)));
        lemma_seq_assoc((Seq::<u8>::empty() + b0), b1, (b2 + (b3 + (b4 + post))));
        lemma_seq_assoc(Seq::<u8>::empty(), b0, (b1 + (b2 + (b3 + (b4 + post)))));
        lemma_seq_empty_left((b0 + (b1 + (b2 + (b3 + (b4 + post))))));
        let s = pre + e + post;
        lemma_seq_assoc(pre, e, post);
        assert(s == pre + t0);
        let a0 = pre;
        assert(parse_i16(s, a0.len() as int) == Ok::<(i16, int), SerializationError>((m.error_code, a0.len() as int + b0.len()))) by {
            lemma_seq_assoc(a0, b0, t1);
            lemma_i16_roundtrip(a0, m.error_code, t1);
        }
        lemma_seq_assoc(a0, b0, t1);
        let a1 = a0 + b0;
        if 2 <= ctx.version {
            assert(parse_nullable_string(s, a1.len() as int, ctx.flexible) == Ok::<(Option<Seq<char>>, int), SerializationError>((m.error_message, a1.len() as int + b1.len()))) by {
                assert(nullable_string_bytes(m.error_message, ctx.flexible) is Ok);
                lemma_seq_assoc(a1, b1, t2);
                lemma_nullable_string_roundtrip(a1, m.error_message, t2, ctx.flexible);
            }
        }
        lemma_seq_assoc(a1, b1, t2);
        let a2 = a1 + b1;
        assert(parse_array::<TopicData>(s, a2.len() as int, Ctx { version: ctx.version, flexible: ctx.flexible, classic: false }) == Ok::<(Seq<<TopicData as DeepView>::V>, int), SerializationError>((m.topics, a2.len() as int + b2.len()))) by {
            assert(array_bytes::<TopicData>(m.topics, Ctx { version: ctx.version, flexible: ctx.flexible, classic: false }) is Ok);
            lemma_seq_assoc(a2, b2, t3);
            lemma_items_read_back::<TopicData>(m.topics, Ctx { version: ctx.version, flexible: ctx.flexible, classic: false });
            lemma_array_roundtrip::<TopicData>(a2, m.topics, t3, Ctx { version: ctx.version, flexible: ctx.flexible, classic: false });
        }
        lemma_seq_assoc(a2, b2, t3);
        let a3 = a2 + b2;
        if 2 <= ctx.version {
            assert(parse_array::<Node>(s, a3.len() as int, Ctx { version: ctx.version, flexible: ctx.flexible, classic: false }) == Ok::<(Seq<<Node as DeepView>::V>, int), SerializationError>((m.nodes, a3.len() as int + b3.len()))) by {
                assert(array_bytes::<Node>(m.nodes, Ctx { version: ctx.version, flexible: ctx.flexible, classic: false }) is Ok);
                lemma_seq_assoc(a3, b3, t4);
                lemma_items_read_back::<Node>(m.nodes, Ctx { version: ctx.version, flexible: ctx.flexible, classic: false });
                lemma_array_roundtrip::<Node>(a3, m.nodes, t4, Ctx { version: ctx.version, flexible: ctx.flexible, classic: false });
            }
        }
        lemma_seq_assoc(a3, b3, t4);
        let a4 = a3 + b3;
        if ctx.flexible {
            assert(parse_uvarint(s, a4.len() as int) == Ok::<(u64, int), SerializationError>((0u64, a4.len() as int + b4.len()))) by {
                lemma_seq_assoc(a4, b4, t5);
                lemma_uvarint_roundtrip(a4, 0, t5);
            }
        }
    }

    /// The bytes written: the encoding of each field, in the order of the
    /// protocol's layout. Reading them back, wherever they stand, gives the value,
    /// with each field that the version leaves out at its default.
    #[verifier::spinoff_prover]
    pub proof fn lemma_message_layout(pre: Seq<u8>, m: DescribeQuorumResponseModel, post: Seq<u8>, version: i16)
        requires
            Self::spec_serialize(m, version) is Ok,
        ensures
            Self::spec_serialize(m, version) == Ok::<Seq<u8>, SerializationError>((i16_bytes(m.error_code)) + (if 2 <= version { (nullable_string_bytes(m.error_message, (version >= 0)))->Ok_0 } else { Seq::<u8>::empty() }) + ((array_bytes::<TopicData>(m.topics, Ctx { version: version, flexible: (version >= 0), classic: false }))->Ok_0) + (if 2 <= version { (array_bytes::<Node>(m.nodes, Ctx { version: version, flexible: (version >= 0), classic: false }))->Ok_0 } else { Seq::<u8>::empty() }) + (if (version >= 0) { uvarint_bytes(0) } else { Seq::<u8>::empty() })),
            Self::reads_back_message(m, version) ==> Self::spec_deserialize(pre + ((i16_bytes(m.error_code)) + (if 2 <= version { (nullable_string_bytes(m.error_message, (version >= 0)))->Ok_0 } else { Seq::<u8>::empty() }) + ((array_bytes::<TopicData>(m.topics, Ctx { version: version, flexible: (version >= 0), classic: false }))->Ok_0) + (if 2 <= version { (array_bytes::<Node>(m.nodes, Ctx { version: version, flexible: (version >= 0), classic: false }))->Ok_0 } else { Seq::<u8>::empty() }) + (if (version >= 0) { uvarint_bytes(0) } else { Seq::<u8>::empty() })) + post, pre.len() as int, version) == Ok::<(DescribeQuorumResponseModel, int), SerializationError>((DescribeQuorumResponseModel { error_code: m.error_code, error_message: if 2 <= version { m.error_message } else { None }, topics: m.topics, nodes: if 2 <= version { m.nodes } else { Seq::<<Node as DeepView>::V>::empty() } }, pre.len() as int + ((i16_bytes(m.error_code)) + (if 2 <= version { (nullable_string_bytes(m.error_message, (version >= 0)))->Ok_0 } else { Seq::<u8>::empty() }) + ((array_bytes::<TopicData>(m.topics, Ctx { version: version, flexible: (version >= 0), classic: false }))->Ok_0) + (if 2 <= version { (array_bytes::<Node>(m.nodes, Ctx { version: version, flexible: (version >= 0), classic: false }))->Ok_0 } else { Seq::<u8>::empty() }) + (if (version >= 0) { uvarint_bytes(0) } else { Seq::<u8>::empty() })).len())),
    {
        let is_flexible = version >= 0;
        let ctx = Ctx { version, flexible: is_flexible, classic: false };
        let b0 = i16_bytes(m.error_code);
        let b1 = if 2 <= ctx.version { (nullable_string_bytes(m.error_message, ctx.flexible))->Ok_0 } else { Seq::<u8>::empty() };
        let b2 = (array_bytes::<TopicData>(m.topics, Ctx { version: ctx.version, flexible: ctx.flexible, classic: false }))->Ok_0;
        let b3 = if 2 <= ctx.version { (array_bytes::<Node>(m.nodes, Ctx { version: ctx.version, flexible: ctx.flexible, classic: false }))->Ok_0 } else { Seq::<u8>::empty() };
        let b4 = if ctx.flexible { uvarint_bytes(0) } else { Seq::<u8>::empty() };
        let e = Self::spec_serialize(m, version)->Ok_0;
        assert(e =~= Seq::<u8>::empty() + b0 + b1 + b2 + b3 + b4);
        assert(e =~= b0 + b1 + b2 + b3 + b4);
        if Self::reads_back_message(m, version) {
            Self::lemma_message_read_back(pre, m, post, version);
        }
    }

    /// Writing succeeds exactly when every field that the version carries can be
    /// encoded and every field that it leaves out, where leaving it out is an
    /// error, holds its default.
    #[verifier::spinoff_prover]
    pub proof fn lemma_message_write_succeeds(m: DescribeQuorumResponseModel, version: i16)
        ensures
            Self::spec_serialize(m, version) is Ok <==> ((2 <= version) ==> nullable_string_bytes(m.error_message, (version >= 0)) is Ok) && (!(2 <= version) ==> !(m.error_message is Some)) && (array_bytes::<TopicData>(m.topics, Ctx { version: version, flexible: (version >= 0), classic: false }) is Ok) && ((2 <= version) ==> array_bytes::<Node>(m.nodes, Ctx { version: version, flexible: (version >= 0), classic: false }) is Ok) && (!(2 <= version) ==> !(m.nodes.len() != 0)),
    {
        let is_flexible = version >= 0;
        let ctx = Ctx { version, flexible: is_flexible, classic: false };
    }

    /// Writes the message body for `version`, which must be a supported version.
    /// On failure the buffer is left as it was.
    pub fn serialize(&self, version: ApiVersion, buf: &mut Vec<u8>) -> (r: Result<(), SerializationError>)
        requires
            0 <= version.0 <= 2,
        ensures
            write_exact(r, old(buf)@, final(buf)@, Self::spec_serialize(self.deep_view(), version.0)),
    {
        let start = buf.len();
        let r = self.write_body(version, buf);
        if r.is_err() {
            buf.truncate(start);
        }
        r
    }

    fn write_body(&self, version: ApiVersion, buf: &mut Vec<u8>) -> (r: Result<(), SerializationError>)
        requires
            0 <= version.0 <= 2,
        ensures
            write_ok(r, old(buf)@, final(buf)@, Self::spec_serialize(self.deep_view(), version.0)),
    {
        let is_flexible = version.0 >= Self::get_min_flexible_version().0;
        let ctx = Ctx::new(version, is_flexible);
        let ghost mut w: Seq<u8> = Seq::empty();
        put_i16(buf, self.error_code);
        proof {
            w = w + i16_bytes(self.error_code);
        }
        assert(buf@ =~= old(buf)@ + w);
        if 2 <= ctx.version {
            encode_nullable_string(&self.error_message, buf, ctx.flexible)?;
            proof {
                w = w + (nullable_string_bytes(self.error_message.deep_view(), ctx.flexible))->Ok_0;
            }
            assert(buf@ =~= old(buf)@ + w);
        } else if self.error_message.is_some() {
            return Err(SerializationError::Encode("field 'ErrorMessage' is not available in this version"));
        }
        encode_array(&self.topics, buf, Ctx { version: ctx.version, flexible: ctx.flexible, classic: false })?;
        proof {
            w = w + (array_bytes::<TopicData>(self.topics.deep_view(), Ctx { version: ctx.version, flexible: ctx.flexible, classic: false }))->Ok_0;
        }
        assert(buf@ =~= old(buf)@ + w);
        if 2 <= ctx.version {
            encode_array(&self.nodes, buf, Ctx { version: ctx.version, flexible: ctx.flexible, classic: false })?;
            proof {
                w = w + (array_bytes::<Node>(self.nodes.deep_view(), Ctx { version: ctx.version, flexible: ctx.flexible, classic: false }))->Ok_0;
            }
            assert(buf@ =~= old(buf)@ + w);
        } else if self.nodes.len() != 0 {
            return Err(SerializationError::Encode("field 'Nodes' is not available in this version"));
        }
        if ctx.flexible {
            encode_unsigned_varint(0, buf);
            proof {
                w = w + uvarint_bytes(0);
            }
            assert(buf@ =~= old(buf)@ + w);
        }
        Ok(())
    }

    /// Reads a message body written for `version`.
    /// On failure the reader is put back where it started.
    pub fn deserialize(version: ApiVersion, buf: &mut Reader) -> (r: Result<Self, SerializationError>)
        ensures
            final(buf).bytes() == old(buf).bytes(),
            read_view_exact(r, Self::spec_deserialize(old(buf).bytes(), old(buf).pos(), version.0), old(buf).pos(), final(buf).pos()),
    {
        let start = buf.position();
        let r = Self::read_body(version, buf);
        if r.is_err() {
            buf.set_position(start);
        }
        r
    }

    fn read_body(version: ApiVersion, buf: &mut Reader) -> (r: Result<Self, SerializationError>)
        ensures
            final(buf).bytes() == old(buf).bytes(),
            read_view_ok(r, Self::spec_deserialize(old(buf).bytes(), old(buf).pos(), version.0), final(buf).pos()),
    {
        let is_flexible = version.0 >= Self::get_min_flexible_version().0;
        let ctx = Ctx::new(version, is_flexible);
        let error_code = buf.get_i16()?;
        let error_message = if 2 <= ctx.version {
            buf.get_nullable_string(ctx.flexible)?
        } else {
            None
        };
        let topics = decode_array::<TopicData>(buf, Ctx { version: ctx.version, flexible: ctx.flexible, classic: false })?;
        let nodes = if 2 <= ctx.version {
            decode_array::<Node>(buf, Ctx { version: ctx.version, flexible: ctx.flexible, classic: false })?
        } else {
            new_array::<Node>()
        };
        if ctx.flexible {
            let (_tag_count, _) = decode_unsigned_varint(buf)?;
        }
        Ok(DescribeQuorumResponse { error_code, error_message, topics, nodes })
    }
}

// -------------------------------------------------------
// Listener
// -------------------------------------------------------
#[derive(Clone, Debug, Default, PartialEq)]
pub struct Listener {
    /// The name of the endpoint.
    /// Available in version 2+.
    pub name: String,
    /// The hostname.
    /// Available in version 2+.
    pub host: String,
    /// The port.
    /// Available in version 2+.
    pub port: u16,
}

/// The contents of `Listener`, with strings as characters and
/// nested values by their contents.
pub struct ListenerModel {
    pub name: Seq<char>,
    pub host: Seq<char>,
    pub port: u16,
}

impl DeepView for Listener {
    type V = ListenerModel;

    open spec fn deep_view(&self) -> ListenerModel {
        ListenerModel {
            name: self.name.deep_view(),
            host: self.host.deep_view(),
            port: self.port,
        }
    }
}

impl Listener {
    /// The encoding of the structure in context `ctx`.
    pub open spec fn spec_encode_body(m: ListenerModel, ctx: Ctx) -> Result<Seq<u8>, SerializationError> {
        let r = Ok(Seq::<u8>::empty());
        let r = if 2 <= ctx.version { then(r, string_bytes(m.name, ctx.flexible)) } else { r };
        let r = if 2 <= ctx.version { then(r, string_bytes(m.host, ctx.flexible)) } else { r };
        let r = if 2 <= ctx.version { then(r, Ok(u16_bytes(m.port))) } else { r };
        let r = if ctx.flexible { then(r, Ok(uvarint_bytes(0))) } else { r };
        r
    }

    /// The structure read from `s` at `pos` in context `ctx`.
    pub open spec fn spec_decode_body(s: Seq<u8>, pos: int, ctx: Ctx) -> Result<(ListenerModel, int), SerializationError> {
        match (if 2 <= ctx.version { parse_string(s, pos, ctx.flexible) } else { Ok((Seq::<char>::empty(), pos)) }) {
            Err(e) => Err(e),
            Ok((name, pos)) =>
            match (if 2 <= ctx.version { parse_string(s, pos, ctx.flexible) } else { Ok((Seq::<char>::empty(), pos)) }) {
                Err(e) => Err(e),
                Ok((host, pos)) =>
                match (if 2 <= ctx.version { parse_u16(s, pos) } else { Ok((0u16, pos)) }) {
                    Err(e) => Err(e),
                    Ok((port, pos)) =>
                    match (if ctx.flexible { parse_uvarint(s, pos) } else { Ok((0u64, pos)) }) {
                        Err(e) => Err(e),
                        Ok((_tag_count, pos)) =>
                        Ok((ListenerModel { name, host, port }, pos))
                    }
                }
            }
        }
    }

    /// The structure as it reads back in context `ctx`: each field that the
    /// version leaves out is at its default.
    #[verifier::opaque]
    pub open spec fn spec_read_as(m: ListenerModel, ctx: Ctx) -> ListenerModel {
        ListenerModel { name: if 2 <= ctx.version { m.name } else { Seq::<char>::empty() }, host: if 2 <= ctx.version { m.host } else { Seq::<char>::empty() }, port: if 2 <= ctx.version { m.port } else { 0u16 } }
    }

    /// Values that read back in context `ctx`: nested values read back. A field
    /// that the version leaves out is read as its default.
    pub open spec fn reads_back_body(m: ListenerModel, ctx: Ctx) -> bool {
        true
    }

    /// A value that can be written in context `ctx` and reads back: decoding its
    /// encoding, wherever it stands, gives the value as `spec_read_as` gives it and
    /// the position just after it.
    #[verifier::spinoff_prover]
    pub proof fn lemma_body_read_back(pre: Seq<u8>, m: ListenerModel, post: Seq<u8>, ctx: Ctx)
        requires
            Self::spec_encode_body(m, ctx) is Ok,
            Self::reads_back_body(m, ctx),
        ensures
            Self::spec_decode_body(pre + Self::spec_encode_body(m, ctx)->Ok_0 + post, pre.len() as int, ctx) == Ok::<(ListenerModel, int), SerializationError>((Self::spec_read_as(m, ctx), pre.len() as int + Self::spec_encode_body(m, ctx)->Ok_0.len())),
    {
        reveal(Listener::spec_read_as);
        let b0 = if 2 <= ctx.version { (string_bytes(m.name, ctx.flexible))->Ok_0 } else { Seq::<u8>::empty() };
        let b1 = if 2 <= ctx.version { (string_bytes(m.host, ctx.flexible))->Ok_0 } else { Seq::<u8>::empty() };
        let b2 = if 2 <= ctx.version { u16_bytes(m.port) } else { Seq::<u8>::empty() };
        let b3 = if ctx.flexible { uvarint_bytes(0) } else { Seq::<u8>::empty() };
        let t4 = post;
        let t3 = b3 + t4;
        let t2 = b2 + t3;
        let t1 = b1 + t2;
        let t0 = b0 + t1;
        let e = Self::spec_encode_body(m, ctx)->Ok_0;
        assert(e =~= Seq::<u8>::empty() + b0 + b1 + b2 + b3);
        lemma_seq_assoc((((Seq::<u8>::empty() + b0) + b1) + b2), b3, post);
        lemma_seq_assoc(((Seq::<u8>::empty() + b0) + b1), b2, (b3 + post));
        lemma_seq_assoc((Seq::<u8>::empty() + b0), b1, (b2 + (b3 + post)));
        lemma_seq_assoc(Seq::<u8>::empty(), b0, (b1 + (b2 + (b3 + post))));
        lemma_seq_empty_left((b0 + (b1 + (b2 + (b3 + post)))));
        let s = pre + e + post;
        lemma_seq_assoc(pre, e, post);
        assert(s == pre + t0);
        let a0 = pre;
        if 2 <= ctx.version {
            assert(parse_string(s, a0.len() as int, ctx.flexible) == Ok::<(Seq<char>, int), SerializationError>((m.name, a0.len() as int + b0.len()))) by {
                assert(string_bytes(m.name, ctx.flexible) is Ok);
                lemma_seq_assoc(a0, b0, t1);
                lemma_string_roundtrip(a0, m.name, t1, ctx.flexible);
            }
        }
        lemma_seq_assoc(a0, b0, t1);
        let a1 = a0 + b0;
        if 2 <= ctx.version {
            assert(parse_string(s, a1.len() as int, ctx.flexible) == Ok::<(Seq<char>, int), SerializationError>((m.host, a1.len() as int + b1.len()))) by {
                assert(string_bytes(m.host, ctx.flexible) is Ok);
                lemma_seq_assoc(a1, b1, t2);
                lemma_string_roundtrip(a1, m.host, t2, ctx.flexible);
            }
        }
        lemma_seq_assoc(a1, b1, t2);
        let a2 = a1 + b1;
        if 2 <= ctx.version {
            assert(parse_u16(s, a2.len() as int) == Ok::<(u16, int), SerializationError>((m.port, a2.len() as int + b2.len()))) by {
                lemma_seq_assoc(a2, b2, t3);
                lemma_u16_roundtrip(a2, m.port, t3);
            }
        }
        lemma_seq_assoc(a2, b2, t3);
        let a3 = a2 + b2;
        if ctx.flexible {
            assert(parse_uvarint(s, a3.len() as int) == Ok::<(u64, int), SerializationError>((0u64, a3.len() as int + b3.len()))) by {
                lemma_seq_assoc(a3, b3, t4);
                lemma_uvarint_roundtrip(a3, 0, t4);
            }
        }
    }

    /// The bytes written: the encoding of each field, in the order of the
    /// protocol's layout. Reading them back, wherever they stand, gives the value,
    /// with each field that the version leaves out at its default.
    #[verifier::spinoff_prover]
    pub proof fn lemma_body_layout(pre: Seq<u8>, m: ListenerModel, post: Seq<u8>, ctx: Ctx)
        requires
            Self::spec_encode_body(m, ctx) is Ok,
        ensures
            Self::spec_encode_body(m, ctx) == Ok::<Seq<u8>, SerializationError>((if 2 <= ctx.version { (string_bytes(m.name, ctx.flexible))->Ok_0 } else { Seq::<u8>::empty() }) + (if 2 <= ctx.version { (string_bytes(m.host, ctx.flexible))->Ok_0 } else { Seq::<u8>::empty() }) + (if 2 <= ctx.version { u16_bytes(m.port) } else { Seq::<u8>::empty() }) + (if ctx.flexible { uvarint_bytes(0) } else { Seq::<u8>::empty() })),
            Self::reads_back_body(m, ctx) ==> Self::spec_decode_body(pre + ((if 2 <= ctx.version { (string_bytes(m.name, ctx.flexible))->Ok_0 } else { Seq::<u8>::empty() }) + (if 2 <= ctx.version { (string_bytes(m.host, ctx.flexible))->Ok_0 } else { Seq::<u8>::empty() }) + (if 2 <= ctx.version { u16_bytes(m.port) } else { Seq::<u8>::empty() }) + (if ctx.flexible { uvarint_bytes(0) } else { Seq::<u8>::empty() })) + post, pre.len() as int, ctx) == Ok::<(ListenerModel, int), SerializationError>((ListenerModel { name: if 2 <= ctx.version { m.name } else { Seq::<char>::empty() }, host: if 2 <= ctx.version { m.host } else { Seq::<char>::empty() }, port: if 2 <= ctx.version { m.port } else { 0u16 } }, pre.len() as int + ((if 2 <= ctx.version { (string_bytes(m.name, ctx.flexible))->Ok_0 } else { Seq::<u8>::empty() }) + (if 2 <= ctx.version { (string_bytes(m.host, ctx.flexible))->Ok_0 } else { Seq::<u8>::empty() }) + (if 2 <= ctx.version { u16_bytes(m.port) } else { Seq::<u8>::empty() }) + (if ctx.flexible { uvarint_bytes(0) } else { Seq::<u8>::empty() })).len())),
    {
        let b0 = if 2 <= ctx.version { (string_bytes(m.name, ctx.flexible))->Ok_0 } else { Seq::<u8>::empty() };
        let b1 = if 2 <= ctx.version { (string_bytes(m.host, ctx.flexible))->Ok_0 } else { Seq::<u8>::empty() };
        let b2 = if 2 <= ctx.version { u16_bytes(m.port) } else { Seq::<u8>::empty() };
        let b3 = if ctx.flexible { uvarint_bytes(0) } else { Seq::<u8>::empty() };
        let e = Self::spec_encode_body(m, ctx)->Ok_0;
        assert(e =~= Seq::<u8>::empty() + b0 + b1 + b2 + b3);
        assert(e =~= b0 + b1 + b2 + b3);
        if Self::reads_back_body(m, ctx) {
            Self::lemma_body_read_back(pre, m, post, ctx);
            reveal(Listener::spec_read_as);
        }
    }

    /// Writing succeeds exactly when every field that the version carries can be
    /// encoded and every field that it leaves out, where leaving it out is an
    /// error, holds its default.
    #[verifier::spinoff_prover]
    pub proof fn lemma_body_write_succeeds(m: ListenerModel, ctx: Ctx)
        ensures
            Self::spec_encode_body(m, ctx) is Ok <==> ((2 <= ctx.version) ==> string_bytes(m.name, ctx.flexible) is Ok) && ((2 <= ctx.version) ==> string_bytes(m.host, ctx.flexible) is Ok),
    {
    }

    /// Writes the structure for `version`, with the compact encodings when `is_flexible`.
    /// On failure the buffer is left as it was.
    pub fn encode(&self, buf: &mut Vec<u8>, version: ApiVersion, is_flexible: bool) -> (r: Result<(), SerializationError>)
        ensures
            write_exact(r, old(buf)@, final(buf)@, Self::spec_encode_body(self.deep_view(), Ctx { version: version.0, flexible: is_flexible, classic: false })),
    {
        let start = buf.len();
        let r = self.encode_ctx(buf, Ctx::new(version, is_flexible));
        if r.is_err() {
            buf.truncate(start);
        }
        r
    }

    /// Reads the structure as written for `version`.
    /// On failure the reader is put back where it started.
    pub fn decode(buf: &mut Reader, version: ApiVersion, is_flexible: bool) -> (r: Result<Self, SerializationError>)
        ensures
            final(buf).bytes() == old(buf).bytes(),
            read_view_exact(r, Self::spec_decode_body(old(buf).bytes(), old(buf).pos(), Ctx { version: version.0, flexible: is_flexible, classic: false }), old(buf).pos(), final(buf).pos()),
    {
        let start = buf.position();
        let r = Self::decode_ctx(buf, Ctx::new(version, is_flexible));
        if r.is_err() {
            buf.set_position(start);
        }
        r
    }
}

impl KafkaCodec for Listener {
    open spec fn spec_encode(m: ListenerModel, ctx: Ctx) -> Result<Seq<u8>, SerializationError> {
        Self::spec_encode_body(m, ctx)
    }

    open spec fn spec_decode(s: Seq<u8>, pos: int, ctx: Ctx) -> Result<(ListenerModel, int), SerializationError> {
        Self::spec_decode_body(s, pos, ctx)
    }

    open spec fn reads_back(v: ListenerModel, ctx: Ctx) -> bool {
        Self::reads_back_body(v, ctx) && Self::spec_read_as(v, ctx) == v
    }

    proof fn lemma_read_back(pre: Seq<u8>, v: ListenerModel, post: Seq<u8>, ctx: Ctx) {
        Self::lemma_body_read_back(pre, v, post, ctx);
        assert(Self::spec_decode(pre + Self::spec_encode(v, ctx)->Ok_0 + post, pre.len() as int, ctx)
            == Self::spec_decode_body(pre + Self::spec_encode_body(v, ctx)->Ok_0 + post, pre.len() as int, ctx));
    }

    fn encode_ctx(&self, buf: &mut Vec<u8>, ctx: Ctx) -> (r: Result<(), SerializationError>) {
        let ghost mut w: Seq<u8> = Seq::empty();
        if 2 <= ctx.version {
            encode_string(&self.name, buf, ctx.flexible)?;
            proof {
                w = w + (string_bytes(self.name.deep_view(), ctx.flexible))->Ok_0;
            }
            assert(buf@ =~= old(buf)@ + w);
        }
        if 2 <= ctx.version {
            encode_string(&self.host, buf, ctx.flexible)?;
            proof {
                w = w + (string_bytes(self.host.deep_view(), ctx.flexible))->Ok_0;
            }
            assert(buf@ =~= old(buf)@ + w);
        }
        if 2 <= ctx.version {
            put_u16(buf, self.port);
            proof {
                w = w + u16_bytes(self.port);
            }
            assert(buf@ =~= old(buf)@ + w);
        }
        if ctx.flexible {
            encode_unsigned_varint(0, buf);
            proof {
                w = w + uvarint_bytes(0);
            }
            assert(buf@ =~= old(buf)@ + w);
        }
        Ok(())
    }

    fn decode_ctx(buf: &mut Reader, ctx: Ctx) -> (r: Result<Self, SerializationError>) {
        let name = if 2 <= ctx.version {
            buf.get_string(ctx.flexible)?
        } else {
            String::new()
        };
        let host = if 2 <= ctx.version {
            buf.get_string(ctx.flexible)?
        } else {
            String::new()
        };
        let port = if 2 <= ctx.version {
            buf.get_u16()?
        } else {
            0u16
        };
        if ctx.flexible {
            let (_tag_count, _) = decode_unsigned_varint(buf)?;
        }
        Ok(Listener { name, host, port })
    }
}

// -------------------------------------------------------
// Node
// -------------------------------------------------------
#[derive(Clone, Debug, Default, PartialEq)]
pub struct Node {
    /// The ID of the associated node.
    /// Available in version 2+.
    pub node_id: i32,
    /// The listeners of this controller.
    /// Available in version 2+.
    pub listeners: Vec<Listener>,
}

/// The contents of `Node`, with strings as characters and
/// nested values by their contents.
pub struct NodeModel {
    pub node_id: i32,
    pub listeners: Seq<<Listener as DeepView>::V>,
}

impl DeepView for Node {
    type V = NodeModel;

    open spec fn deep_view(&self) -> NodeModel {
        NodeModel {
            node_id: self.node_id,
            listeners: self.listeners.deep_view(),
        }
    }
}

impl Node {
    /// The encoding of the structure in context `ctx`.
    pub open spec fn spec_encode_body(m: NodeModel, ctx: Ctx) -> Result<Seq<u8>, SerializationError> {
        let r = Ok(Seq::<u8>::empty());
        let r = if 2 <= ctx.version { then(r, Ok(i32_bytes(m.node_id))) } else { r };
        let r = if 2 <= ctx.version { then(r, array_bytes::<Listener>(m.listeners, Ctx { version: ctx.version, flexible: ctx.flexible, classic: false })) } else { r };
        let r = if ctx.flexible { then(r, Ok(uvarint_bytes(0))) } else { r };
        r
    }

    /// The structure read from `s` at `pos` in context `ctx`.
    pub open spec fn spec_decode_body(s: Seq<u8>, pos: int, ctx: Ctx) -> Result<(NodeModel, int), SerializationError> {
        match (if 2 <= ctx.version { parse_i32(s, pos) } else { Ok((0i32, pos)) }) {
            Err(e) => Err(e),
            Ok((node_id, pos)) =>
            match (if 2 <= ctx.version { parse_array::<Listener>(s, pos, Ctx { version: ctx.version, flexible: ctx.flexible, classic: false }) } else { Ok((Seq::<<Listener as DeepView>::V>::empty(), pos)) }) {
                Err(e) => Err(e),
                Ok((listeners, pos)) =>
                match (if ctx.flexible { parse_uvarint(s, pos) } else { Ok((0u64, pos)) }) {
                    Err(e) => Err(e),
                    Ok((_tag_count, pos)) =>
                    Ok((NodeModel { node_id, listeners }, pos))
                }
            }
        }
    }

    /// The structure as it reads back in context `ctx`: each field that the
    /// version leaves out is at its default.
    #[verifier::opaque]
    pub open spec fn spec_read_as(m: NodeModel, ctx: Ctx) -> NodeModel {
        NodeModel { node_id: if 2 <= ctx.version { m.node_id } else { 0i32 }, listeners: if 2 <= ctx.version { m.listeners } else { Seq::<<Listener as DeepView>::V>::empty() } }
    }

    /// Values that read back in context `ctx`: nested values read back. A field
    /// that the version leaves out is read as its default.
    pub open spec fn reads_back_body(m: NodeModel, ctx: Ctx) -> bool {
        &&& (2 <= ctx.version) ==> forall|i: int| 0 <= i < m.listeners.len() ==> #[trigger] <Listener as KafkaCodec>::reads_back(m.listeners[i], Ctx { version: ctx.version, flexible: ctx.flexible, classic: false })
    }

    /// A value that can be written in context `ctx` and reads back: decoding its
    /// encoding, wherever it stands, gives the value as `spec_read_as` gives it and
    /// the position just after it.
    #[verifier::spinoff_prover]
    pub proof fn lemma_body_read_back(pre: Seq<u8>, m: NodeModel, post: Seq<u8>, ctx: Ctx)
        requires
            Self::spec_encode_body(m, ctx) is Ok,
            Self::reads_back_body(m, ctx),
        ensures
            Self::spec_decode_body(pre + Self::spec_encode_body(m, ctx)->Ok_0 + post, pre.len() as int, ctx) == Ok::<(NodeModel, int), SerializationError>((Self::spec_read_as(m, ctx), pre.len() as int + Self::spec_encode_body(m, ctx)->Ok_0.len())),
    {
        reveal(Node::spec_read_as);
        let b0 = if 2 <= ctx.version { i32_bytes(m.node_id) } else { Seq::<u8>::empty() };
        let b1 = if 2 <= ctx.version { (array_bytes::<Listener>(m.listeners, Ctx { version: ctx.version, flexible: ctx.flexible, classic: false }))->Ok_0 } else { Seq::<u8>::empty() };
        let b2 = if ctx.flexible { uvarint_bytes(0) } else { Seq::<u8>::empty() };
        let t3 = post;
        let t2 = b2 + t3;
        let t1 = b1 + t2;
        let t0 = b0 + t1;
        let e = Self::spec_encode_body(m, ctx)->Ok_0;
        assert(e =~= Seq::<u8>::empty() + b0 + b1 + b2);
        lemma_seq_assoc(((Seq::<u8>::empty() + b0) + b1), b2, post);
        lemma_seq_assoc((Seq::<u8>::empty() + b0), b1, (b2 + post));
        lemma_seq_assoc(Seq::<u8>::empty(), b0, (b1 + (b2 + post)));
        lemma_seq_empty_left((b0 + (b1 + (b2 + post))));
        let s = pre + e + post;
        lemma_seq_assoc(pre, e, post);
        assert(s == pre + t0);
        let a0 = pre;
        if 2 <= ctx.version {
            assert(parse_i32(s, a0.len() as int) == Ok::<(i32, int), SerializationError>((m.node_id, a0.len() as int + b0.len()))) by {
                lemma_seq_assoc(a0, b0, t1);
                lemma_i32_roundtrip(a0, m.node_id, t1);
            }
        }
        lemma_seq_assoc(a0, b0, t1);
        let a1 = a0 + b0;
        if 2 <= ctx.version {
            assert(parse_array::<Listener>(s, a1.len() as int, Ctx { version: ctx.version, flexible: ctx.flexible, classic: false }) == Ok::<(Seq<<Listener as DeepView>::V>, int), SerializationError>((m.listeners, a1.len() as int + b1.len()))) by {
                assert(array_bytes::<Listener>(m.listeners, Ctx { version: ctx.version, flexible: ctx.flexible, classic: false }) is Ok);
                lemma_seq_assoc(a1, b1, t2);
                lemma_items_read_back::<Listener>(m.listeners, Ctx { version: ctx.version, flexible: ctx.flexible, classic: false });
                lemma_array_roundtrip::<Listener>(a1, m.listeners, t2, Ctx { version: ctx.version, flexible: ctx.flexible, classic: false });
            }
        }
        lemma_seq_assoc(a1, b1, t2);
        let a2 = a1 + b1;
        if ctx.flexible {
            assert(parse_uvarint(s, a2.len() as int) == Ok::<(u64, int), SerializationError>((0u64, a2.len() as int + b2.len()))) by {
                lemma_seq_assoc(a2, b2, t3);
                lemma_uvarint_roundtrip(a2, 0, t3);
            }
        }
    }

    /// The bytes written: the encoding of each field, in the order of the
    /// protocol's layout. Reading them back, wherever they stand, gives the value,
    /// with each field that the version leaves out at its default.
    #[verifier::spinoff_prover]
    pub proof fn lemma_body_layout(pre: Seq<u8>, m: NodeModel, post: Seq<u8>, ctx: Ctx)
        requires
            Self::spec_encode_body(m, ctx) is Ok,
        ensures
            Self::spec_encode_body(m, ctx) == Ok::<Seq<u8>, SerializationError>((if 2 <= ctx.version { i32_bytes(m.node_id) } else { Seq::<u8>::empty() }) + (if 2 <= ctx.version { (array_bytes::<Listener>(m.listeners, Ctx { version: ctx.version, flexible: ctx.flexible, classic: false }))->Ok_0 } else { Seq::<u8>::empty() }) + (if ctx.flexible { uvarint_bytes(0) } else { Seq::<u8>::empty() })),
            Self::reads_back_body(m, ctx) ==> Self::spec_decode_body(pre + ((if 2 <= ctx.version { i32_bytes(m.node_id) } else { Seq::<u8>::empty() }) + (if 2 <= ctx.version { (array_bytes::<Listener>(m.listeners, Ctx { version: ctx.version, flexible: ctx.flexible, classic: false }))->Ok_0 } else { Seq::<u8>::empty() }) + (if ctx.flexible { uvarint_bytes(0) } else { Seq::<u8>::empty() })) + post, pre.len() as int, ctx) == Ok::<(NodeModel, int), SerializationError>((NodeModel { node_id: if 2 <= ctx.version { m.node_id } else { 0i32 }, listeners: if 2 <= ctx.version { m.listeners } else { Seq::<<Listener as DeepView>::V>::empty() } }, pre.len() as int + ((if 2 <= ctx.version { i32_bytes(m.node_id) } else { Seq::<u8>::empty() }) + (if 2 <= ctx.version { (array_bytes::<Listener>(m.listeners, Ctx { version: ctx.version, flexible: ctx.flexible, classic: false }))->Ok_0 } else { Seq::<u8>::empty() }) + (if ctx.flexible { uvarint_bytes(0) } else { Seq::<u8>::empty() })).len())),
    {
        let b0 = if 2 <= ctx.version { i32_bytes(m.node_id) } else { Seq::<u8>::empty() };
        let b1 = if 2 <= ctx.version { (array_bytes::<Listener>(m.listeners, Ctx { version: ctx.version, flexible: ctx.flexible, classic: false }))->Ok_0 } else { Seq::<u8>::empty() };
        let b2 = if ctx.flexible { uvarint_bytes(0) } else { Seq::<u8>::empty() };
        let e = Self::spec_encode_body(m, ctx)->Ok_0;
        assert(e =~= Seq::<u8>::empty() + b0 + b1 + b2);
        assert(e =~= b0 + b1 + b2);
        if Self::reads_back_body(m, ctx) {
            Self::lemma_body_read_back(pre, m, post, ctx);
            reveal(Node::spec_read_as);
        }
    }

    /// Writing succeeds exactly when every field that the version carries can be
    /// encoded and every field that it leaves out, where leaving it out is an
    /// error, holds its default.
    #[verifier::spinoff_prover]
    pub proof fn lemma_body_write_succeeds(m: NodeModel, ctx: Ctx)
        ensures
            Self::spec_encode_body(m, ctx) is Ok <==> ((2 <= ctx.version) ==> array_bytes::<Listener>(m.listeners, Ctx { version: ctx.version, flexible: ctx.flexible, classic: false }) is Ok),
    {
    }

    /// Writes the structure for `version`, with the compact encodings when `is_flexible`.
    /// On failure the buffer is left as it was.
    pub fn encode(&self, buf: &mut Vec<u8>, version: ApiVersion, is_flexible: bool) -> (r: Result<(), SerializationError>)
        ensures
            write_exact(r, old(buf)@, final(buf)@, Self::spec_encode_body(self.deep_view(), Ctx { version: version.0, flexible: is_flexible, classic: false })),
    {
        let start = buf.len();
        let r = self.encode_ctx(buf, Ctx::new(version, is_flexible));
        if r.is_err() {
            buf.truncate(start);
        }
        r
    }

    /// Reads the structure as written for `version`.
    /// On failure the reader is put back where it started.
    pub fn decode(buf: &mut Reader, version: ApiVersion, is_flexible: bool) -> (r: Result<Self, SerializationError>)
        ensures
            final(buf).bytes() == old(buf).bytes(),
            read_view_exact(r, Self::spec_decode_body(old(buf).bytes(), old(buf).pos(), Ctx { version: version.0, flexible: is_flexible, classic: false }), old(buf).pos(), final(buf).pos()),
    {
        let start = buf.position();
        let r = Self::decode_ctx(buf, Ctx::new(version, is_flexible));
        if r.is_err() {
            buf.set_position(start);
        }
        r
    }
}

impl KafkaCodec for Node {
    open spec fn spec_encode(m: NodeModel, ctx: Ctx) -> Result<Seq<u8>, SerializationError> {
        Self::spec_encode_body(m, ctx)
    }

    open spec fn spec_decode(s: Seq<u8>, pos: int, ctx: Ctx) -> Result<(NodeModel, int), SerializationError> {
        Self::spec_decode_body(s, pos, ctx)
    }

    open spec fn reads_back(v: NodeModel, ctx: Ctx) -> bool {
        Self::reads_back_body(v, ctx) && Self::spec_read_as(v, ctx) == v
    }

    proof fn lemma_read_back(pre: Seq<u8>, v: NodeModel, post: Seq<u8>, ctx: Ctx) {
        Self::lemma_body_read_back(pre, v, post, ctx);
        assert(Self::spec_decode(pre + Self::spec_encode(v, ctx)->Ok_0 + post, pre.len() as int, ctx)
            == Self::spec_decode_body(pre + Self::spec_encode_body(v, ctx)->Ok_0 + post, pre.len() as int, ctx));
    }

    fn encode_ctx(&self, buf: &mut Vec<u8>, ctx: Ctx) -> (r: Result<(), SerializationError>) {
        let ghost mut w: Seq<u8> = Seq::empty();
        if 2 <= ctx.version {
            put_i32(buf, self.node_id);
            proof {
                w = w + i32_bytes(self.node_id);
            }
            assert(buf@ =~= old(buf)@ + w);
        }
        if 2 <= ctx.version {
            encode_array(&self.listeners, buf, Ctx { version: ctx.version, flexible: ctx.flexible, classic: false })?;
            proof {
                w = w + (array_bytes::<Listener>(self.listeners.deep_view(), Ctx { version: ctx.version, flexible: ctx.flexible, classic: false }))->Ok_0;
            }
            assert(buf@ =~= old(buf)@ + w);
        }
        if ctx.flexible {
            encode_unsigned_varint(0, buf);
            proof {
                w = w + uvarint_bytes(0);
            }
            assert(buf@ =~= old(buf)@ + w);
        }
        Ok(())
    }

    fn decode_ctx(buf: &mut Reader, ctx: Ctx) -> (r: Result<Self, SerializationError>) {
        let node_id = if 2 <= ctx.version {
            buf.get_i32()?
        } else {
            0i32
        };
        let listeners = if 2 <= ctx.version {
            decode_array::<Listener>(buf, Ctx { version: ctx.version, flexible: ctx.flexible, classic: false })?
        } else {
            new_array::<Listener>()
        };
        if ctx.flexible {
            let (_tag_count, _) = decode_unsigned_varint(buf)?;
        }
        Ok(Node { node_id, listeners })
    }
}

// -------------------------------------------------------
// PartitionData
// -------------------------------------------------------
#[derive(Clone, Debug, Default, PartialEq)]
pub struct PartitionData {
    /// The partition index.
    pub partition_index: i32,
    /// The partition error code.
    pub error_code: i16,
    /// The error message, or null if there was no error.
    /// Available in version 2+.
    pub error_message: Option<String>,
    /// The ID of the current leader or -1 if the leader is unknown.
    pub leader_id: i32,
    /// The latest known leader epoch.
    pub leader_epoch: i32,
    /// The high water mark.
    pub high_watermark: i64,
    /// The current voters of the partition.
    pub current_voters: Vec<ReplicaState>,
    /// The observers of the partition.
    pub observers: Vec<ReplicaState>,
}

/// The contents of `PartitionData`, with strings as characters and
/// nested values by their contents.
pub struct PartitionDataModel {
    pub partition_index: i32,
    pub error_code: i16,
    pub error_message: Option<Seq<char>>,
    pub leader_id: i32,
    pub leader_epoch: i32,
    pub high_watermark: i64,
    pub current_voters: Seq<<ReplicaState as DeepView>::V>,
    pub observers: Seq<<ReplicaState as DeepView>::V>,
}

impl DeepView for PartitionData {
    type V = PartitionDataModel;

    open spec fn deep_view(&self) -> PartitionDataModel {
        PartitionDataModel {
            partition_index: self.partition_index,
            error_code: self.error_code,
            error_message: self.error_message.deep_view(),
            leader_id: self.leader_id,
            leader_epoch: self.leader_epoch,
            high_watermark: self.high_watermark,
            current_voters: self.current_voters.deep_view(),
            observers: self.observers.deep_view(),
        }
    }
}

impl PartitionData {
    /// Fields 1 to 5 of the encoding.
    pub open spec fn spec_encode_body_part1(m: PartitionDataModel, ctx: Ctx) -> Result<Seq<u8>, SerializationError> {
        let r = Ok(Seq::<u8>::empty());
        let r = then(r, Ok(i32_bytes(m.partition_index)));
        let r = then(r, Ok(i16_bytes(m.error_code)));
        let r = if 2 <= ctx.version { then(r, nullable_string_bytes(m.error_message, ctx.flexible)) } else { r };
        let r = then(r, Ok(i32_bytes(m.leader_id)));
        let r = then(r, Ok(i32_bytes(m.leader_epoch)));
        r
    }

    #[verifier::spinoff_prover]
    fn encode_body_part1(&self, buf: &mut Vec<u8>, ctx: Ctx) -> (r: Result<(), SerializationError>)
        ensures
            write_ok(r, old(buf)@, final(buf)@, Self::spec_encode_body_part1(self.deep_view(), ctx)),
    {
        let ghost mut w: Seq<u8> = Seq::empty();
        put_i32(buf, self.partition_index);
        proof {
            w = w + i32_bytes(self.partition_index);
        }
        assert(buf@ =~= old(buf)@ + w);
        put_i16(buf, self.error_code);
        proof {
            w = w + i16_bytes(self.error_code);
        }
        assert(buf@ =~= old(buf)@ + w);
        if 2 <= ctx.version {
            encode_nullable_string(&self.error_message, buf, ctx.flexible)?;
            proof {
                w = w + (nullable_string_bytes(self.error_message.deep_view(), ctx.flexible))->Ok_0;
            }
            assert(buf@ =~= old(buf)@ + w);
        }
        put_i32(buf, self.leader_id);
        proof {
            w = w + i32_bytes(self.leader_id);
        }
        assert(buf@ =~= old(buf)@ + w);
        put_i32(buf, self.leader_epoch);
        proof {
            w = w + i32_bytes(self.leader_epoch);
        }
        assert(buf@ =~= old(buf)@ + w);
        Ok(())
    }

    /// Fields 6 to 9 of the encoding.
    pub open spec fn spec_encode_body_part2(m: PartitionDataModel, ctx: Ctx) -> Result<Seq<u8>, SerializationError> {
        let r = Ok(Seq::<u8>::empty());
        let r = then(r, Ok(i64_bytes(m.high_watermark)));
        let r = then(r, array_bytes::<ReplicaState>(m.current_voters, Ctx { version: ctx.version, flexible: ctx.flexible, classic: false }));
        let r = then(r, array_bytes::<ReplicaState>(m.observers, Ctx { version: ctx.version, flexible: ctx.flexible, classic: false }));
        let r = if ctx.flexible { then(r, Ok(uvarint_bytes(0))) } else { r };
        r
    }

    #[verifier::spinoff_prover]
    fn encode_body_part2(&self, buf: &mut Vec<u8>, ctx: Ctx) -> (r: Result<(), SerializationError>)
        ensures
            write_ok(r, old(buf)@, final(buf)@, Self::spec_encode_body_part2(self.deep_view(), ctx)),
    {
        let ghost mut w: Seq<u8> = Seq::empty();
        put_i64(buf, self.high_watermark);
        proof {
            w = w + i64_bytes(self.high_watermark);
        }
        assert(buf@ =~= old(buf)@ + w);
        encode_array(&self.current_voters, buf, Ctx { version: ctx.version, flexible: ctx.flexible, classic: false })?;
        proof {
            w = w + (array_bytes::<ReplicaState>(self.current_voters.deep_view(), Ctx { version: ctx.version, flexible: ctx.flexible, classic: false }))->Ok_0;
        }
        assert(buf@ =~= old(buf)@ + w);
        encode_array(&self.observers, buf, Ctx { version: ctx.version, flexible: ctx.flexible, classic: false })?;
        proof {
            w = w + (array_bytes::<ReplicaState>(self.observers.deep_view(), Ctx { version: ctx.version, flexible: ctx.flexible, classic: false }))->Ok_0;
        }
        assert(buf@ =~= old(buf)@ + w);
        if ctx.flexible {
            encode_unsigned_varint(0, buf);
            proof {
                w = w + uvarint_bytes(0);
            }
            assert(buf@ =~= old(buf)@ + w);
        }
        Ok(())
    }

    /// The encoding of the structure in context `ctx`.
    pub open spec fn spec_encode_body(m: PartitionDataModel, ctx: Ctx) -> Result<Seq<u8>, SerializationError> {
        let r = Ok(Seq::<u8>::empty());
        let r = then(r, Self::spec_encode_body_part1(m, ctx));
        let r = then(r, Self::spec_encode_body_part2(m, ctx));
        r
    }

    /// The structure read from `s` at `pos` in context `ctx`.
    pub open spec fn spec_decode_body(s: Seq<u8>, pos: int, ctx: Ctx) -> Result<(PartitionDataModel, int), SerializationError> {
        match parse_i32(s, pos) {
            Err(e) => Err(e),
            Ok((partition_index, pos)) =>
            match parse_i16(s, pos) {
                Err(e) => Err(e),
                Ok((error_code, pos)) =>
                match (if 2 <= ctx.version { parse_nullable_string(s, pos, ctx.flexible) } else { Ok((None, pos)) }) {
                    Err(e) => Err(e),
                    Ok((error_message, pos)) =>
                    match parse_i32(s, pos) {
                        Err(e) => Err(e),
                        Ok((leader_id, pos)) =>
                        match parse_i32(s, pos) {
                            Err(e) => Err(e),
                            Ok((leader_epoch, pos)) =>
                            match parse_i64(s, pos) {
                                Err(e) => Err(e),
                                Ok((high_watermark, pos)) =>
                                match parse_array::<ReplicaState>(s, pos, Ctx { version: ctx.version, flexible: ctx.flexible, classic: false }) {
                                    Err(e) => Err(e),
                                    Ok((current_voters, pos)) =>
                                    match parse_array::<ReplicaState>(s, pos, Ctx { version: ctx.version, flexible: ctx.flexible, classic: false }) {
                                        Err(e) => Err(e),
                                        Ok((observers, pos)) =>
                                        match (if ctx.flexible { parse_uvarint(s, pos) } else { Ok((0u64, pos)) }) {
                                            Err(e) => Err(e),
                                            Ok((_tag_count, pos)) =>
                                            Ok((PartitionDataModel { partition_index, error_code, error_message, leader_id, leader_epoch, high_watermark, current_voters, observers }, pos))
                                        }
                                    }
                                }
                            }
                        }
                    }
                }
            }
        }
    }

    /// The structure as it reads back in context `ctx`: each field that the
    /// version leaves out is at its default.
    #[verifier::opaque]
    pub open spec fn spec_read_as(m: PartitionDataModel, ctx: Ctx) -> PartitionDataModel {
        PartitionDataModel { partition_index: m.partition_index, error_code: m.error_code, error_message: if 2 <= ctx.version { m.error_message } else { None }, leader_id: m.leader_id, leader_epoch: m.leader_epoch, high_watermark: m.high_watermark, current_voters: m.current_voters, observers: m.observers }
    }

    /// Values that read back in context `ctx`: nested values read back. A field
    /// that the version leaves out is read as its default.
    pub open spec fn reads_back_body(m: PartitionDataModel, ctx: Ctx) -> bool {
        &&& forall|i: int| 0 <= i < m.current_voters.len() ==> #[trigger] <ReplicaState as KafkaCodec>::reads_back(m.current_voters[i], Ctx { version: ctx.version, flexible: ctx.flexible, classic: false })
        &&& forall|i: int| 0 <= i < m.observers.len() ==> #[trigger] <ReplicaState as KafkaCodec>::reads_back(m.observers[i], Ctx { version: ctx.version, flexible: ctx.flexible, classic: false })
    }

    /// A value that can be written in context `ctx` and reads back: decoding its
    /// encoding, wherever it stands, gives the value as `spec_read_as` gives it and
    /// the position just after it.
    #[verifier::spinoff_prover]
    pub proof fn lemma_body_read_back(pre: Seq<u8>, m: PartitionDataModel, post: Seq<u8>, ctx: Ctx)
        requires
            Self::spec_encode_body(m, ctx) is Ok,
            Self::reads_back_body(m, ctx),
        ensures
            Self::spec_decode_body(pre + Self::spec_encode_body(m, ctx)->Ok_0 + post, pre.len() as int, ctx) == Ok::<(PartitionDataModel, int), SerializationError>((Self::spec_read_as(m, ctx), pre.len() as int + Self::spec_encode_body(m, ctx)->Ok_0.len())),
    {
        reveal(PartitionData::spec_read_as);
        let b0 = i32_bytes(m.partition_index);
        let b1 = i16_bytes(m.error_code);
        let b2 = if 2 <= ctx.version { (nullable_string_bytes(m.error_message, ctx.flexible))->Ok_0 } else { Seq::<u8>::empty() };
        let b3 = i32_bytes(m.leader_id);
        let b4 = i32_bytes(m.leader_epoch);
        let b5 = i64_bytes(m.high_watermark);
        let b6 = (array_bytes::<ReplicaState>(m.current_voters, Ctx { version: ctx.version, flexible: ctx.flexible, classic: false }))->Ok_0;
        let b7 = (array_bytes::<ReplicaState>(m.observers, Ctx { version: ctx.version, flexible: ctx.flexible, classic: false }))->Ok_0;
        let b8 = if ctx.flexible { uvarint_bytes(0) } else { Seq::<u8>::empty() };
        let t9 = post;
        let t8 = b8 + t9;
        let t7 = b7 + t8;
        let t6 = b6 + t7;
        let t5 = b5 + t6;
        let t4 = b4 + t5;
        let t3 = b3 + t4;
        let t2 = b2 + t3;
        let t1 = b1 + t2;
        let t0 = b0 + t1;
        let e = Self::spec_encode_body(m, ctx)->Ok_0;
        let p1 = Self::spec_encode_body_part1(m, ctx)->Ok_0;
        assert(p1 =~= Seq::<u8>::empty() + b0 + b1 + b2 + b3 + b4);
        lemma_seq_assoc(((((Seq::<u8>::empty() + b0) + b1) + b2) + b3), b4, t5);
        lemma_seq_assoc((((Seq::<u8>::empty() + b0) + b1) + b2), b3, (b4 + t5));
        lemma_seq_assoc(((Seq::<u8>::empty() + b0) + b1), b2, (b3 + (b4 + t5)));
        lemma_seq_assoc((Seq::<u8>::empty() + b0), b1, (b2 + (b3 + (b4 + t5))));
        lemma_seq_assoc(Seq::<u8>::empty(), b0, (b1 + (b2 + (b3 + (b4 + t5)))));
        lemma_seq_empty_left((b0 + (b1 + (b2 + (b3 + (b4 + t5))))));
        let p2 = Self::spec_encode_body_part2(m, ctx)->Ok_0;
        assert(p2 =~= Seq::<u8>::empty() + b5 + b6 + b7 + b8);
        lemma_seq_assoc((((Seq::<u8>::empty() + b5) + b6) + b7), b8, t9);
        lemma_seq_assoc(((Seq::<u8>::empty() + b5) + b6), b7, (b8 + t9));
        lemma_seq_assoc((Seq::<u8>::empty() + b5), b6, (b7 + (b8 + t9)));
        lemma_seq_assoc(Seq::<u8>::empty(), b5, (b6 + (b7 + (b8 + t9))));
        lemma_seq_empty_left((b5 + (b6 + (b7 + (b8 + t9)))));
        assert(e == Seq::<u8>::empty() + p1 + p2);
        lemma_seq_assoc((Seq::<u8>::empty() + p1), p2, t9);
        lemma_seq_assoc(Seq::<u8>::empty(), p1, (p2 + t9));
        lemma_seq_empty_left((p1 + (p2 + t9)));
        let s = pre + e + post;
        lemma_seq_assoc(pre, e, post);
        assert(s == pre + t0);
        let a0 = pre;
        assert(parse_i32(s, a0.len() as int) == Ok::<(i32, int), SerializationError>((m.partition_index, a0.len() as int + b0.len()))) by {
            lemma_seq_assoc(a0, b0, t1);
            lemma_i32_roundtrip(a0, m.partition_index, t1);
        }
        lemma_seq_assoc(a0, b0, t1);
        let a1 = a0 + b0;
        assert(parse_i16(s, a1.len() as int) == Ok::<(i16, int), SerializationError>((m.error_code, a1.len() as int + b1.len()))) by {
            lemma_seq_assoc(a1, b1, t2);
            lemma_i16_roundtrip(a1, m.error_code, t2);
        }
        lemma_seq_assoc(a1, b1, t2);
        let a2 = a1 + b1;
        if 2 <= ctx.version {
            assert(parse_nullable_string(s, a2.len() as int, ctx.flexible) == Ok::<(Option<Seq<char>>, int), SerializationError>((m.error_message, a2.len() as int + b2.len()))) by {
                assert(nullable_string_bytes(m.error_message, ctx.flexible) is Ok);
                lemma_seq_assoc(a2, b2, t3);
                lemma_nullable_string_roundtrip(a2, m.error_message, t3, ctx.flexible);
            }
        }
        lemma_seq_assoc(a2, b2, t3);
        let a3 = a2 + b2;
        assert(parse_i32(s, a3.len() as int) == Ok::<(i32, int), SerializationError>((m.leader_id, a3.len() as int + b3.len()))) by {
            lemma_seq_assoc(a3, b3, t4);
            lemma_i32_roundtrip(a3, m.leader_id, t4);
        }
        lemma_seq_assoc(a3, b3, t4);
        let a4 = a3 + b3;
        assert(parse_i32(s, a4.len() as int) == Ok::<(i32, int), SerializationError>((m.leader_epoch, a4.len() as int + b4.len()))) by {
            lemma_seq_assoc(a4, b4, t5);
            lemma_i32_roundtrip(a4, m.leader_epoch, t5);
        }
        lemma_seq_assoc(a4, b4, t5);
        let a5 = a4 + b4;
        assert(parse_i64(s, a5.len() as int) == Ok::<(i64, int), SerializationError>((m.high_watermark, a5.len() as int + b5.len()))) by {
            lemma_seq_assoc(a5, b5, t6);
            lemma_i64_roundtrip(a5, m.high_watermark, t6);
        }
        lemma_seq_assoc(a5, b5, t6);
        let a6 = a5 + b5;
        assert(parse_array::<ReplicaState>(s, a6.len() as int, Ctx { version: ctx.version, flexible: ctx.flexible, classic: false }) == Ok::<(Seq<<ReplicaState as DeepView>::V>, int), SerializationError>((m.current_voters, a6.len() as int + b6.len()))) by {
            assert(array_bytes::<ReplicaState>(m.current_voters, Ctx { version: ctx.version, flexible: ctx.flexible, classic: false }) is Ok);
            lemma_seq_assoc(a6, b6, t7);
            lemma_items_read_back::<ReplicaState>(m.current_voters, Ctx { version: ctx.version, flexible: ctx.flexible, classic: false });
            lemma_array_roundtrip::<ReplicaState>(a6, m.current_voters, t7, Ctx { version: ctx.version, flexible: ctx.flexible, classic: false });
        }
        lemma_seq_assoc(a6, b6, t7);
        let a7 = a6 + b6;
        assert(parse_array::<ReplicaState>(s, a7.len() as int, Ctx { version: ctx.version, flexible: ctx.flexible, classic: false }) == Ok::<(Seq<<ReplicaState as DeepView>::V>, int), SerializationError>((m.observers, a7.len() as int + b7.len()))) by {
            assert(array_bytes::<ReplicaState>(m.observers, Ctx { version: ctx.version, flexible: ctx.flexible, classic: false }) is Ok);
            lemma_seq_assoc(a7, b7, t8);
            lemma_items_read_back::<ReplicaState>(m.observers, Ctx { version: ctx.version, flexible: ctx.flexible, classic: false });
            lemma_array_roundtrip::<ReplicaState>(a7, m.observers, t8, Ctx { version: ctx.version, flexible: ctx.flexible, classic: false });
        }
        lemma_seq_assoc(a7, b7, t8);
        let a8 = a7 + b7;
        if ctx.flexible {
            assert(parse_uvarint(s, a8.len() as int) == Ok::<(u64, int), SerializationError>((0u64, a8.len() as int + b8.len()))) by {
                lemma_seq_assoc(a8, b8, t9);
                lemma_uvarint_roundtrip(a8, 0, t9);
            }
        }
    }

    /// The bytes written: the encoding of each field, in the order of the
    /// protocol's layout. Reading them back, wherever they stand, gives the value,
    /// with each field that the version leaves out at its default.
    #[verifier::spinoff_prover]
    pub proof fn lemma_body_layout(pre: Seq<u8>, m: PartitionDataModel, post: Seq<u8>, ctx: Ctx)
        requires
            Self::spec_encode_body(m, ctx) is Ok,
        ensures
            Self::spec_encode_body(m, ctx) == Ok::<Seq<u8>, SerializationError>((i32_bytes(m.partition_index)) + (i16_bytes(m.error_code)) + (if 2 <= ctx.version { (nullable_string_bytes(m.error_message, ctx.flexible))->Ok_0 } else { Seq::<u8>::empty() }) + (i32_bytes(m.leader_id)) + (i32_bytes(m.leader_epoch)) + (i64_bytes(m.high_watermark)) + ((array_bytes::<ReplicaState>(m.current_voters, Ctx { version: ctx.version, flexible: ctx.flexible, classic: false }))->Ok_0) + ((array_bytes::<ReplicaState>(m.observers, Ctx { version: ctx.version, flexible: ctx.flexible, classic: false }))->Ok_0) + (if ctx.flexible { uvarint_bytes(0) } else { Seq::<u8>::empty() })),
            Self::reads_back_body(m, ctx) ==> Self::spec_decode_body(pre + ((i32_bytes(m.partition_index)) + (i16_bytes(m.error_code)) + (if 2 <= ctx.version { (nullable_string_bytes(m.error_message, ctx.flexible))->Ok_0 } else { Seq::<u8>::empty() }) + (i32_bytes(m.leader_id)) + (i32_bytes(m.leader_epoch)) + (i64_bytes(m.high_watermark)) + ((array_bytes::<ReplicaState>(m.current_voters, Ctx { version: ctx.version, flexible: ctx.flexible, classic: false }))->Ok_0) + ((array_bytes::<ReplicaState>(m.observers, Ctx { version: ctx.version, flexible: ctx.flexible, classic: false }))->Ok_0) + (if ctx.flexible { uvarint_bytes(0) } else { Seq::<u8>::empty() })) + post, pre.len() as int, ctx) == Ok::<(PartitionDataModel, int), SerializationError>((PartitionDataModel { partition_index: m.partition_index, error_code: m.error_code, error_message: if 2 <= ctx.version { m.error_message } else { None }, leader_id: m.leader_id, leader_epoch: m.leader_epoch, high_watermark: m.high_watermark, current_voters: m.current_voters, observers: m.observers }, pre.len() as int + ((i32_bytes(m.partition_index)) + (i16_bytes(m.error_code)) + (if 2 <= ctx.version { (nullable_string_bytes(m.error_message, ctx.flexible))->Ok_0 } else { Seq::<u8>::empty() }) + (i32_bytes(m.leader_id)) + (i32_bytes(m.leader_epoch)) + (i64_bytes(m.high_watermark)) + ((array_bytes::<ReplicaState>(m.current_voters, Ctx { version: ctx.version, flexible: ctx.flexible, classic: false }))->Ok_0) + ((array_bytes::<ReplicaState>(m.observers, Ctx { version: ctx.version, flexible: ctx.flexible, classic: false }))->Ok_0) + (if ctx.flexible { uvarint_bytes(0) } else { Seq::<u8>::empty() })).len())),
    {
        let b0 = i32_bytes(m.partition_index);
        let b1 = i16_bytes(m.error_code);
        let b2 = if 2 <= ctx.version { (nullable_string_bytes(m.error_message, ctx.flexible))->Ok_0 } else { Seq::<u8>::empty() };
        let b3 = i32_bytes(m.leader_id);
        let b4 = i32_bytes(m.leader_epoch);
        let b5 = i64_bytes(m.high_watermark);
        let b6 = (array_bytes::<ReplicaState>(m.current_voters, Ctx { version: ctx.version, flexible: ctx.flexible, classic: false }))->Ok_0;
        let b7 = (array_bytes::<ReplicaState>(m.observers, Ctx { version: ctx.version, flexible: ctx.flexible, classic: false }))->Ok_0;
        let b8 = if ctx.flexible { uvarint_bytes(0) } else { Seq::<u8>::empty() };
        let e = Self::spec_encode_body(m, ctx)->Ok_0;
        let p1 = Self::spec_encode_body_part1(m, ctx)->Ok_0;
        assert(p1 =~= Seq::<u8>::empty() + b0 + b1 + b2 + b3 + b4);
        let p2 = Self::spec_encode_body_part2(m, ctx)->Ok_0;
        assert(p2 =~= Seq::<u8>::empty() + b5 + b6 + b7 + b8);
        assert(e == Seq::<u8>::empty() + p1 + p2);
        assert(e =~= b0 + b1 + b2 + b3 + b4 + b5 + b6 + b7 + b8);
        if Self::reads_back_body(m, ctx) {
            Self::lemma_body_read_back(pre, m, post, ctx);
            reveal(PartitionData::spec_read_as);
        }
    }

    /// Writing succeeds exactly when every field that the version carries can be
    /// encoded and every field that it leaves out, where leaving it out is an
    /// error, holds its default.
    #[verifier::spinoff_prover]
    pub proof fn lemma_body_write_succeeds(m: PartitionDataModel, ctx: Ctx)
        ensures
            Self::spec_encode_body(m, ctx) is Ok <==> ((2 <= ctx.version) ==> nullable_string_bytes(m.error_message, ctx.flexible) is Ok) && (array_bytes::<ReplicaState>(m.current_voters, Ctx { version: ctx.version, flexible: ctx.flexible, classic: false }) is Ok) && (array_bytes::<ReplicaState>(m.observers, Ctx { version: ctx.version, flexible: ctx.flexible, classic: false }) is Ok),
    {
    }

    /// Writes the structure for `version`, with the compact encodings when `is_flexible`.
    /// On failure the buffer is left as it was.
    pub fn encode(&self, buf: &mut Vec<u8>, version: ApiVersion, is_flexible: bool) -> (r: Result<(), SerializationError>)
        ensures
            write_exact(r, old(buf)@, final(buf)@, Self::spec_encode_body(self.deep_view(), Ctx { version: version.0, flexible: is_flexible, classic: false })),
    {
        let start = buf.len();
        let r = self.encode_ctx(buf, Ctx::new(version, is_flexible));
        if r.is_err() {
            buf.truncate(start);
        }
        r
    }

    /// Reads the structure as written for `version`.
    /// On failure the reader is put back where it started.
    #[verifier::spinoff_prover]
    pub fn decode(buf: &mut Reader, version: ApiVersion, is_flexible: bool) -> (r: Result<Self, SerializationError>)
        ensures
            final(buf).bytes() == old(buf).bytes(),
            read_view_exact(r, Self::spec_decode_body(old(buf).bytes(), old(buf).pos(), Ctx { version: version.0, flexible: is_flexible, classic: false }), old(buf).pos(), final(buf).pos()),
    {
        let start = buf.position();
        let r = Self::decode_ctx(buf, Ctx::new(version, is_flexible));
        if r.is_err() {
            buf.set_position(start);
        }
        r
    }
}

impl KafkaCodec for PartitionData {
    open spec fn spec_encode(m: PartitionDataModel, ctx: Ctx) -> Result<Seq<u8>, SerializationError> {
        Self::spec_encode_body(m, ctx)
    }

    open spec fn spec_decode(s: Seq<u8>, pos: int, ctx: Ctx) -> Result<(PartitionDataModel, int), SerializationError> {
        Self::spec_decode_body(s, pos, ctx)
    }

    open spec fn reads_back(v: PartitionDataModel, ctx: Ctx) -> bool {
        Self::reads_back_body(v, ctx) && Self::spec_read_as(v, ctx) == v
    }

    proof fn lemma_read_back(pre: Seq<u8>, v: PartitionDataModel, post: Seq<u8>, ctx: Ctx) {
        Self::lemma_body_read_back(pre, v, post, ctx);
        assert(Self::spec_decode(pre + Self::spec_encode(v, ctx)->Ok_0 + post, pre.len() as int, ctx)
            == Self::spec_decode_body(pre + Self::spec_encode_body(v, ctx)->Ok_0 + post, pre.len() as int, ctx));
    }

    #[verifier::spinoff_prover]
    fn encode_ctx(&self, buf: &mut Vec<u8>, ctx: Ctx) -> (r: Result<(), SerializationError>) {
        let ghost mut w: Seq<u8> = Seq::empty();
        self.encode_body_part1(buf, ctx)?;
        proof {
            w = w + (Self::spec_encode_body_part1(self.deep_view(), ctx))->Ok_0;
        }
        assert(buf@ =~= old(buf)@ + w);
        self.encode_body_part2(buf, ctx)?;
        proof {
            w = w + (Self::spec_encode_body_part2(self.deep_view(), ctx))->Ok_0;
        }
        assert(buf@ =~= old(buf)@ + w);
        Ok(())
    }

    #[verifier::spinoff_prover]
    fn decode_ctx(buf: &mut Reader, ctx: Ctx) -> (r: Result<Self, SerializationError>) {
        let partition_index = buf.get_i32()?;
        let error_code = buf.get_i16()?;
        let error_message = if 2 <= ctx.version {
            buf.get_nullable_string(ctx.flexible)?
        } else {
            None
        };
        let leader_id = buf.get_i32()?;
        let leader_epoch = buf.get_i32()?;
        let high_watermark = buf.get_i64()?;
        let current_voters = decode_array::<ReplicaState>(buf, Ctx { version: ctx.version, flexible: ctx.flexible, classic: false })?;
        let observers = decode_array::<ReplicaState>(buf, Ctx { version: ctx.version, flexible: ctx.flexible, classic: false })?;
        if ctx.flexible {
            let (_tag_count, _) = decode_unsigned_varint(buf)?;
        }
        Ok(PartitionData { partition_index, error_code, error_message, leader_id, leader_epoch, high_watermark, current_voters, observers })
    }
}

// -------------------------------------------------------
// ReplicaState
// -------------------------------------------------------
#[derive(Clone, Debug, Default, PartialEq)]
pub struct ReplicaState {
    /// The ID of the replica.
    pub replica_id: i32,
    /// The replica directory ID of the replica.
    /// Available in version 2+.
    pub replica_directory_id: [u8; 16],
    /// The last known log end offset of the follower or -1 if it is unknown.
    pub log_end_offset: i64,
    /// The last known leader wall clock time time when a follower fetched from the leader. This is reported as -1 both for the current leader or if it is unknown for a voter.
    /// Available in version 1+.
    pub last_fetch_timestamp: i64,
    /// The leader wall clock append time of the offset for which the follower made the most recent fetch request. This is reported as the current time for the leader and -1 if unknown for a voter.
    /// Available in version 1+.
    pub last_caught_up_timestamp: i64,
}

/// The contents of `ReplicaState`, with strings as characters and
/// nested values by their contents.
pub struct ReplicaStateModel {
    pub replica_id: i32,
    pub replica_directory_id: Seq<u8>,
    pub log_end_offset: i64,
    pub last_fetch_timestamp: i64,
    pub last_caught_up_timestamp: i64,
}

impl DeepView for ReplicaState {
    type V = ReplicaStateModel;

    open spec fn deep_view(&self) -> ReplicaStateModel {
        ReplicaStateModel {
            replica_id: self.replica_id,
            replica_directory_id: self.replica_directory_id@,
            log_end_offset: self.log_end_offset,
            last_fetch_timestamp: self.last_fetch_timestamp,
            last_caught_up_timestamp: self.last_caught_up_timestamp,
        }
    }
}

impl ReplicaState {
    /// The encoding of the structure in context `ctx`.
    pub open spec fn spec_encode_body(m: ReplicaStateModel, ctx: Ctx) -> Result<Seq<u8>, SerializationError> {
        let r = Ok(Seq::<u8>::empty());
        let r = then(r, Ok(i32_bytes(m.replica_id)));
        let r = if 2 <= ctx.version { then(r, Ok(m.replica_directory_id)) } else { r };
        let r = then(r, Ok(i64_bytes(m.log_end_offset)));
        let r = if 1 <= ctx.version { then(r, Ok(i64_bytes(m.last_fetch_timestamp))) } else { r };
        let r = if 1 <= ctx.version { then(r, Ok(i64_bytes(m.last_caught_up_timestamp))) } else { r };
        let r = if ctx.flexible { then(r, Ok(uvarint_bytes(0))) } else { r };
        r
    }

    /// The structure read from `s` at `pos` in context `ctx`.
    pub open spec fn spec_decode_body(s: Seq<u8>, pos: int, ctx: Ctx) -> Result<(ReplicaStateModel, int), SerializationError> {
        match parse_i32(s, pos) {
            Err(e) => Err(e),
            Ok((replica_id, pos)) =>
            match (if 2 <= ctx.version { parse_raw(s, pos, 16) } else { Ok((zero_uuid_bytes(), pos)) }) {
                Err(e) => Err(e),
                Ok((replica_directory_id, pos)) =>
                match parse_i64(s, pos) {
                    Err(e) => Err(e),
                    Ok((log_end_offset, pos)) =>
                    match (if 1 <= ctx.version { parse_i64(s, pos) } else { Ok((0i64, pos)) }) {
                        Err(e) => Err(e),
                        Ok((last_fetch_timestamp, pos)) =>
                        match (if 1 <= ctx.version { parse_i64(s, pos) } else { Ok((0i64, pos)) }) {
                            Err(e) => Err(e),
                            Ok((last_caught_up_timestamp, pos)) =>
                            match (if ctx.flexible { parse_uvarint(s, pos) } else { Ok((0u64, pos)) }) {
                                Err(e) => Err(e),
                                Ok((_tag_count, pos)) =>
                                Ok((ReplicaStateModel { replica_id, replica_directory_id, log_end_offset, last_fetch_timestamp, last_caught_up_timestamp }, pos))
                            }
                        }
                    }
                }
            }
        }
    }

    /// The structure as it reads back in context `ctx`: each field that the
    /// version leaves out is at its default.
    #[verifier::opaque]
    pub open spec fn spec_read_as(m: ReplicaStateModel, ctx: Ctx) -> ReplicaStateModel {
        ReplicaStateModel { replica_id: m.replica_id, replica_directory_id: if 2 <= ctx.version { m.replica_directory_id } else { zero_uuid_bytes() }, log_end_offset: m.log_end_offset, last_fetch_timestamp: if 1 <= ctx.version { m.last_fetch_timestamp } else { 0i64 }, last_caught_up_timestamp: if 1 <= ctx.version { m.last_caught_up_timestamp } else { 0i64 } }
    }

    /// Values that read back in context `ctx`: nested values read back. A field
    /// that the version leaves out is read as its default.
    pub open spec fn reads_back_body(m: ReplicaStateModel, ctx: Ctx) -> bool {
        &&& (2 <= ctx.version) ==> m.replica_directory_id.len() == 16
    }

    /// A value that can be written in context `ctx` and reads back: decoding its
    /// encoding, wherever it stands, gives the value as `spec_read_as` gives it and
    /// the position just after it.
    #[verifier::spinoff_prover]
    pub proof fn lemma_body_read_back(pre: Seq<u8>, m: ReplicaStateModel, post: Seq<u8>, ctx: Ctx)
        requires
            Self::spec_encode_body(m, ctx) is Ok,
            Self::reads_back_body(m, ctx),
        ensures
            Self::spec_decode_body(pre + Self::spec_encode_body(m, ctx)->Ok_0 + post, pre.len() as int, ctx) == Ok::<(ReplicaStateModel, int), SerializationError>((Self::spec_read_as(m, ctx), pre.len() as int + Self::spec_encode_body(m, ctx)->Ok_0.len())),
    {
        reveal(ReplicaState::spec_read_as);
        let b0 = i32_bytes(m.replica_id);
        let b1 = if 2 <= ctx.version { m.replica_directory_id } else { Seq::<u8>::empty() };
        let b2 = i64_bytes(m.log_end_offset);
        let b3 = if 1 <= ctx.version { i64_bytes(m.last_fetch_timestamp) } else { Seq::<u8>::empty() };
        let b4 = if 1 <= ctx.version { i64_bytes(m.last_caught_up_timestamp) } else { Seq::<u8>::empty() };
        let b5 = if ctx.flexible { uvarint_bytes(0) } else { Seq::<u8>::empty() };
        let t6 = post;
        let t5 = b5 + t6;
        let t4 = b4 + t5;
        let t3 = b3 + t4;
        let t2 = b2 + t3;
        let t1 = b1 + t2;
        let t0 = b0 + t1;
        let e = Self::spec_encode_body(m, ctx)->Ok_0;
        assert(e =~= Seq::<u8>::empty() + b0 + b1 + b2 + b3 + b4 + b5);
        lemma_seq_assoc((((((Seq::<u8>::empty() + b0) + b1) + b2) + b3) + b4), b5, post);
        lemma_seq_assoc(((((Seq::<u8>::empty() + b0) + b1) + b2) + b3), b4, (b5 + post));
        lemma_seq_assoc((((Seq::<u8>::empty() + b0) + b1) + b2), b3, (b4 + (b5 + post)));
        lemma_seq_assoc(((Seq::<u8>::empty() + b0) + b1), b2, (b3 + (b4 + (b5 + post))));
        lemma_seq_assoc((Seq::<u8>::empty() + b0), b1, (b2 + (b3 + (b4 + (b5 + post)))));
        lemma_seq_assoc(Seq::<u8>::empty(), b0, (b1 + (b2 + (b3 + (b4 + (b5 + post))))));
        lemma_seq_empty_left((b0 + (b1 + (b2 + (b3 + (b4 + (b5 + post)))))));
        let s = pre + e + post;
        lemma_seq_assoc(pre, e, post);
        assert(s == pre + t0);
        let a0 = pre;
        assert(parse_i32(s, a0.len() as int) == Ok::<(i32, int), SerializationError>((m.replica_id, a0.len() as int + b0.len()))) by {
            lemma_seq_assoc(a0, b0, t1);
            lemma_i32_roundtrip(a0, m.replica_id, t1);
        }
        lemma_seq_assoc(a0, b0, t1);
        let a1 = a0 + b0;
        if 2 <= ctx.version {
            assert(parse_raw(s, a1.len() as int, 16) == Ok::<(Seq<u8>, int), SerializationError>((m.replica_directory_id, a1.len() as int + b1.len()))) by {
                lemma_seq_assoc(a1, b1, t2);
                lemma_uuid_roundtrip(a1, m.replica_directory_id, t2);
            }
        }
        lemma_seq_assoc(a1, b1, t2);
        let a2 = a1 + b1;
        assert(parse_i64(s, a2.len() as int) == Ok::<(i64, int), SerializationError>((m.log_end_offset, a2.len() as int + b2.len()))) by {
            lemma_seq_assoc(a2, b2, t3);
            lemma_i64_roundtrip(a2, m.log_end_offset, t3);
        }
        lemma_seq_assoc(a2, b2, t3);
        let a3 = a2 + b2;
        if 1 <= ctx.version {
            assert(parse_i64(s, a3.len() as int) == Ok::<(i64, int), SerializationError>((m.last_fetch_timestamp, a3.len() as int + b3.len()))) by {
                lemma_seq_assoc(a3, b3, t4);
                lemma_i64_roundtrip(a3, m.last_fetch_timestamp, t4);
            }
        }
        lemma_seq_assoc(a3, b3, t4);
        let a4 = a3 + b3;
        if 1 <= ctx.version {
            assert(parse_i64(s, a4.len() as int) == Ok::<(i64, int), SerializationError>((m.last_caught_up_timestamp, a4.len() as int + b4.len()))) by {
                lemma_seq_assoc(a4, b4, t5);
                lemma_i64_roundtrip(a4, m.last_caught_up_timestamp, t5);
            }
        }
        lemma_seq_assoc(a4, b4, t5);
        let a5 = a4 + b4;
        if ctx.flexible {
            assert(parse_uvarint(s, a5.len() as int) == Ok::<(u64, int), SerializationError>((0u64, a5.len() as int + b5.len()))) by {
                lemma_seq_assoc(a5, b5, t6);
                lemma_uvarint_roundtrip(a5, 0, t6);
            }
        }
    }

    /// The bytes written: the encoding of each field, in the order of the
    /// protocol's layout. Reading them back, wherever they stand, gives the value,
    /// with each field that the version leaves out at its default.
    #[verifier::spinoff_prover]
    pub proof fn lemma_body_layout(pre: Seq<u8>, m: ReplicaStateModel, post: Seq<u8>, ctx: Ctx)
        requires
            Self::spec_encode_body(m, ctx) is Ok,
        ensures
            Self::spec_encode_body(m, ctx) == Ok::<Seq<u8>, SerializationError>((i32_bytes(m.replica_id)) + (if 2 <= ctx.version { m.replica_directory_id } else { Seq::<u8>::empty() }) + (i64_bytes(m.log_end_offset)) + (if 1 <= ctx.version { i64_bytes(m.last_fetch_timestamp) } else { Seq::<u8>::empty() }) + (if 1 <= ctx.version { i64_bytes(m.last_caught_up_timestamp) } else { Seq::<u8>::empty() }) + (if ctx.flexible { uvarint_bytes(0) } else { Seq::<u8>::empty() })),
            Self::reads_back_body(m, ctx) ==> Self::spec_decode_body(pre + ((i32_bytes(m.replica_id)) + (if 2 <= ctx.version { m.replica_directory_id } else { Seq::<u8>::empty() }) + (i64_bytes(m.log_end_offset)) + (if 1 <= ctx.version { i64_bytes(m.last_fetch_timestamp) } else { Seq::<u8>::empty() }) + (if 1 <= ctx.version { i64_bytes(m.last_caught_up_timestamp) } else { Seq::<u8>::empty() }) + (if ctx.flexible { uvarint_bytes(0) } else { Seq::<u8>::empty() })) + post, pre.len() as int, ctx) == Ok::<(ReplicaStateModel, int), SerializationError>((ReplicaStateModel { replica_id: m.replica_id, replica_directory_id: if 2 <= ctx.version { m.replica_directory_id } else { zero_uuid_bytes() }, log_end_offset: m.log_end_offset, last_fetch_timestamp: if 1 <= ctx.version { m.last_fetch_timestamp } else { 0i64 }, last_caught_up_timestamp: if 1 <= ctx.version { m.last_caught_up_timestamp } else { 0i64 } }, pre.len() as int + ((i32_bytes(m.replica_id)) + (if 2 <= ctx.version { m.replica_directory_id } else { Seq::<u8>::empty() }) + (i64_bytes(m.log_end_offset)) + (if 1 <= ctx.version { i64_bytes(m.last_fetch_timestamp) } else { Seq::<u8>::empty() }) + (if 1 <= ctx.version { i64_bytes(m.last_caught_up_timestamp) } else { Seq::<u8>::empty() }) + (if ctx.flexible { uvarint_bytes(0) } else { Seq::<u8>::empty() })).len())),
    {
        let b0 = i32_bytes(m.replica_id);
        let b1 = if 2 <= ctx.version { m.replica_directory_id } else { Seq::<u8>::empty() };
        let b2 = i64_bytes(m.log_end_offset);
        let b3 = if 1 <= ctx.version { i64_bytes(m.last_fetch_timestamp) } else { Seq::<u8>::empty() };
        let b4 = if 1 <= ctx.version { i64_bytes(m.last_caught_up_timestamp) } else { Seq::<u8>::empty() };
        let b5 = if ctx.flexible { uvarint_bytes(0) } else { Seq::<u8>::empty() };
        let e = Self::spec_encode_body(m, ctx)->Ok_0;
        assert(e =~= Seq::<u8>::empty() + b0 + b1 + b2 + b3 + b4 + b5);
        assert(e =~= b0 + b1 + b2 + b3 + b4 + b5);
        if Self::reads_back_body(m, ctx) {
            Self::lemma_body_read_back(pre, m, post, ctx);
            reveal(ReplicaState::spec_read_as);
        }
    }

    /// Writing succeeds exactly when every field that the version carries can be
    /// encoded and every field that it leaves out, where leaving it out is an
    /// error, holds its default.
    #[verifier::spinoff_prover]
    pub proof fn lemma_body_write_succeeds(m: ReplicaStateModel, ctx: Ctx)
        ensures
            Self::spec_encode_body(m, ctx) is Ok <==> true,
    {
    }

    /// Writes the structure for `version`, with the compact encodings when `is_flexible`.
    /// On failure the buffer is left as it was.
    pub fn encode(&self, buf: &mut Vec<u8>, version: ApiVersion, is_flexible: bool) -> (r: Result<(), SerializationError>)
        ensures
            write_exact(r, old(buf)@, final(buf)@, Self::spec_encode_body(self.deep_view(), Ctx { version: version.0, flexible: is_flexible, classic: false })),
    {
        let start = buf.len();
        let r = self.encode_ctx(buf, Ctx::new(version, is_flexible));
        if r.is_err() {
            buf.truncate(start);
        }
        r
    }

    /// Reads the structure as written for `version`.
    /// On failure the reader is put back where it started.
    pub fn decode(buf: &mut Reader, version: ApiVersion, is_flexible: bool) -> (r: Result<Self, SerializationError>)
        ensures
            final(buf).bytes() == old(buf).bytes(),
            read_view_exact(r, Self::spec_decode_body(old(buf).bytes(), old(buf).pos(), Ctx { version: version.0, flexible: is_flexible, classic: false }), old(buf).pos(), final(buf).pos()),
    {
        let start = buf.position();
        let r = Self::decode_ctx(buf, Ctx::new(version, is_flexible));
        if r.is_err() {
            buf.set_position(start);
        }
        r
    }
}

impl KafkaCodec for ReplicaState {
    open spec fn spec_encode(m: ReplicaStateModel, ctx: Ctx) -> Result<Seq<u8>, SerializationError> {
        Self::spec_encode_body(m, ctx)
    }

    open spec fn spec_decode(s: Seq<u8>, pos: int, ctx: Ctx) -> Result<(ReplicaStateModel, int), SerializationError> {
        Self::spec_decode_body(s, pos, ctx)
    }

    open spec fn reads_back(v: ReplicaStateModel, ctx: Ctx) -> bool {
        Self::reads_back_body(v, ctx) && Self::spec_read_as(v, ctx) == v
    }

    proof fn lemma_read_back(pre: Seq<u8>, v: ReplicaStateModel, post: Seq<u8>, ctx: Ctx) {
        Self::lemma_body_read_back(pre, v, post, ctx);
        assert(Self::spec_decode(pre + Self::spec_encode(v, ctx)->Ok_0 + post, pre.len() as int, ctx)
            == Self::spec_decode_body(pre + Self::spec_encode_body(v, ctx)->Ok_0 + post, pre.len() as int, ctx));
    }

    fn encode_ctx(&self, buf: &mut Vec<u8>, ctx: Ctx) -> (r: Result<(), SerializationError>) {
        let ghost mut w: Seq<u8> = Seq::empty();
        put_i32(buf, self.replica_id);
        proof {
            w = w + i32_bytes(self.replica_id);
        }
        assert(buf@ =~= old(buf)@ + w);
        if 2 <= ctx.version {
            encode_uuid(&self.replica_directory_id, buf);
            proof {
                w = w + self.replica_directory_id@;
            }
            assert(buf@ =~= old(buf)@ + w);
        }
        put_i64(buf, self.log_end_offset);
        proof {
            w = w + i64_bytes(self.log_end_offset);
        }
        assert(buf@ =~= old(buf)@ + w);
        if 1 <= ctx.version {
            put_i64(buf, self.last_fetch_timestamp);
            proof {
                w = w + i64_bytes(self.last_fetch_timestamp);
            }
            assert(buf@ =~= old(buf)@ + w);
        }
        if 1 <= ctx.version {
            put_i64(buf, self.last_caught_up_timestamp);
            proof {
                w = w + i64_bytes(self.last_caught_up_timestamp);
            }
            assert(buf@ =~= old(buf)@ + w);
        }
        if ctx.flexible {
            encode_unsigned_varint(0, buf);
            proof {
                w = w + uvarint_bytes(0);
            }
            assert(buf@ =~= old(buf)@ + w);
        }
        Ok(())
    }

    fn decode_ctx(buf: &mut Reader, ctx: Ctx) -> (r: Result<Self, SerializationError>) {
        let replica_id = buf.get_i32()?;
        let replica_directory_id = if 2 <= ctx.version {
            buf.get_uuid()?
        } else {
            zero_uuid()
        };
        let log_end_offset = buf.get_i64()?;
        let last_fetch_timestamp = if 1 <= ctx.version {
            buf.get_i64()?
        } else {
            0i64
        };
        let last_caught_up_timestamp = if 1 <= ctx.version {
            buf.get_i64()?
        } else {
            0i64
        };
        if ctx.flexible {
            let (_tag_count, _) = decode_unsigned_varint(buf)?;
        }
        Ok(ReplicaState { replica_id, replica_directory_id, log_end_offset, last_fetch_timestamp, last_caught_up_timestamp })
    }
}

// -------------------------------------------------------
// TopicData
// -------------------------------------------------------
#[derive(Clone, Debug, Default, PartialEq)]
pub struct TopicData {
    /// The topic name.
    pub topic_name: String,
    /// The partition data.
    pub partitions: Vec<PartitionData>,
}

/// The contents of `TopicData`, with strings as characters and
/// nested values by their contents.
pub struct TopicDataModel {
    pub topic_name: Seq<char>,
    pub partitions: Seq<<PartitionData as DeepView>::V>,
}

impl DeepView for TopicData {
    type V = TopicDataModel;

    open spec fn deep_view(&self) -> TopicDataModel {
        TopicDataModel {
            topic_name: self.topic_name.deep_view(),
            partitions: self.partitions.deep_view(),
        }
    }
}

impl TopicData {
    /// The encoding of the structure in context `ctx`.
    pub open spec fn spec_encode_body(m: TopicDataModel, ctx: Ctx) -> Result<Seq<u8>, SerializationError> {
        let r = Ok(Seq::<u8>::empty());
        let r = then(r, string_bytes(m.topic_name, ctx.flexible));
        let r = then(r, array_bytes::<PartitionData>(m.partitions, Ctx { version: ctx.version, flexible: ctx.flexible, classic: false }));
        let r = if ctx.flexible { then(r, Ok(uvarint_bytes(0))) } else { r };
        r
    }

    /// The structure read from `s` at `pos` in context `ctx`.
    pub open spec fn spec_decode_body(s: Seq<u8>, pos: int, ctx: Ctx) -> Result<(TopicDataModel, int), SerializationError> {
        match parse_string(s, pos, ctx.flexible) {
            Err(e) => Err(e),
            Ok((topic_name, pos)) =>
            match parse_array::<PartitionData>(s, pos, Ctx { version: ctx.version, flexible: ctx.flexible, classic: false }) {
                Err(e) => Err(e),
                Ok((partitions, pos)) =>
                match (if ctx.flexible { parse_uvarint(s, pos) } else { Ok((0u64, pos)) }) {
                    Err(e) => Err(e),
                    Ok((_tag_count, pos)) =>
                    Ok((TopicDataModel { topic_name, partitions }, pos))
                }
            }
        }
    }

    /// Values of the structure that read back from their encoding in `ctx`: every
    /// field that the version leaves out holds its default, and nested values
    /// read back.
    pub open spec fn reads_back_body(m: TopicDataModel, ctx: Ctx) -> bool {
        &&& forall|i: int| 0 <= i < m.partitions.len() ==> #[trigger] <PartitionData as KafkaCodec>::reads_back(m.partitions[i], Ctx { version: ctx.version, flexible: ctx.flexible, classic: false })
    }

    /// A value that can be written in `ctx` and reads back: decoding its encoding,
    /// wherever it stands, gives the value and the position just after it.
    #[verifier::spinoff_prover]
    pub proof fn lemma_body_read_back(pre: Seq<u8>, m: TopicDataModel, post: Seq<u8>, ctx: Ctx)
        requires
            Self::spec_encode_body(m, ctx) is Ok,
            Self::reads_back_body(m, ctx),
        ensures
            Self::spec_decode_body(pre + Self::spec_encode_body(m, ctx)->Ok_0 + post, pre.len() as int, ctx) == Ok::<(TopicDataModel, int), SerializationError>((m, pre.len() as int + Self::spec_encode_body(m, ctx)->Ok_0.len())),
    {
        let b0 = (string_bytes(m.topic_name, ctx.flexible))->Ok_0;
        let b1 = (array_bytes::<PartitionData>(m.partitions, Ctx { version: ctx.version, flexible: ctx.flexible, classic: false }))->Ok_0;
        let b2 = if ctx.flexible { uvarint_bytes(0) } else { Seq::<u8>::empty() };
        let t3 = post;
        let t2 = b2 + t3;
        let t1 = b1 + t2;
        let t0 = b0 + t1;
        let e = Self::spec_encode_body(m, ctx)->Ok_0;
        assert(e =~= Seq::<u8>::empty() + b0 + b1 + b2);
        lemma_seq_assoc(((Seq::<u8>::empty() + b0) + b1), b2, post);
        lemma_seq_assoc((Seq::<u8>::empty() + b0), b1, (b2 + post));
        lemma_seq_assoc(Seq::<u8>::empty(), b0, (b1 + (b2 + post)));
        lemma_seq_empty_left((b0 + (b1 + (b2 + post))));
        let s = pre + e + post;
        lemma_seq_assoc(pre, e, post);
        assert(s == pre + t0);
        let a0 = pre;
        assert(parse_string(s, a0.len() as int, ctx.flexible) == Ok::<(Seq<char>, int), SerializationError>((m.topic_name, a0.len() as int + b0.len()))) by {
            assert(string_bytes(m.topic_name, ctx.flexible) is Ok);
            lemma_seq_assoc(a0, b0, t1);
            lemma_string_roundtrip(a0, m.topic_name, t1, ctx.flexible);
        }
        lemma_seq_assoc(a0, b0, t1);
        let a1 = a0 + b0;
        assert(parse_array::<PartitionData>(s, a1.len() as int, Ctx { version: ctx.version, flexible: ctx.flexible, classic: false }) == Ok::<(Seq<<PartitionData as DeepView>::V>, int), SerializationError>((m.partitions, a1.len() as int + b1.len()))) by {
            assert(array_bytes::<PartitionData>(m.partitions, Ctx { version: ctx.version, flexible: ctx.flexible, classic: false }) is Ok);
            lemma_seq_assoc(a1, b1, t2);
            lemma_items_read_back::<PartitionData>(m.partitions, Ctx { version: ctx.version, flexible: ctx.flexible, classic: false });
            lemma_array_roundtrip::<PartitionData>(a1, m.partitions, t2, Ctx { version: ctx.version, flexible: ctx.flexible, classic: false });
        }
        lemma_seq_assoc(a1, b1, t2);
        let a2 = a1 + b1;
        if ctx.flexible {
            assert(parse_uvarint(s, a2.len() as int) == Ok::<(u64, int), SerializationError>((0u64, a2.len() as int + b2.len()))) by {
                lemma_seq_assoc(a2, b2, t3);
                lemma_uvarint_roundtrip(a2, 0, t3);
            }
        }
    }

    /// The bytes written: the encoding of each field, in the order of the
    /// protocol's layout. Reading them back, wherever they stand, gives the value,
    /// with each field that the version leaves out at its default.
    #[verifier::spinoff_prover]
    pub proof fn lemma_body_layout(pre: Seq<u8>, m: TopicDataModel, post: Seq<u8>, ctx: Ctx)
        requires
            Self::spec_encode_body(m, ctx) is Ok,
        ensures
            Self::spec_encode_body(m, ctx) == Ok::<Seq<u8>, SerializationError>(((string_bytes(m.topic_name, ctx.flexible))->Ok_0) + ((array_bytes::<PartitionData>(m.partitions, Ctx { version: ctx.version, flexible: ctx.flexible, classic: false }))->Ok_0) + (if ctx.flexible { uvarint_bytes(0) } else { Seq::<u8>::empty() })),
            Self::reads_back_body(m, ctx) ==> Self::spec_decode_body(pre + (((string_bytes(m.topic_name, ctx.flexible))->Ok_0) + ((array_bytes::<PartitionData>(m.partitions, Ctx { version: ctx.version, flexible: ctx.flexible, classic: false }))->Ok_0) + (if ctx.flexible { uvarint_bytes(0) } else { Seq::<u8>::empty() })) + post, pre.len() as int, ctx) == Ok::<(TopicDataModel, int), SerializationError>((m, pre.len() as int + (((string_bytes(m.topic_name, ctx.flexible))->Ok_0) + ((array_bytes::<PartitionData>(m.partitions, Ctx { version: ctx.version, flexible: ctx.flexible, classic: false }))->Ok_0) + (if ctx.flexible { uvarint_bytes(0) } else { Seq::<u8>::empty() })).len())),
    {
        let b0 = (string_bytes(m.topic_name, ctx.flexible))->Ok_0;
        let b1 = (array_bytes::<PartitionData>(m.partitions, Ctx { version: ctx.version, flexible: ctx.flexible, classic: false }))->Ok_0;
        let b2 = if ctx.flexible { uvarint_bytes(0) } else { Seq::<u8>::empty() };
        let e = Self::spec_encode_body(m, ctx)->Ok_0;
        assert(e =~= Seq::<u8>::empty() + b0 + b1 + b2);
        assert(e =~= b0 + b1 + b2);
        if Self::reads_back_body(m, ctx) {
            Self::lemma_body_read_back(pre, m, post, ctx);
        }
    }

    /// Writing succeeds exactly when every field that the version carries can be
    /// encoded and every field that it leaves out, where leaving it out is an
    /// error, holds its default.
    #[verifier::spinoff_prover]
    pub proof fn lemma_body_write_succeeds(m: TopicDataModel, ctx: Ctx)
        ensures
            Self::spec_encode_body(m, ctx) is Ok <==> (string_bytes(m.topic_name, ctx.flexible) is Ok) && (array_bytes::<PartitionData>(m.partitions, Ctx { version: ctx.version, flexible: ctx.flexible, classic: false }) is Ok),
    {
    }

    /// Writes the structure for `version`, with the compact encodings when `is_flexible`.
    /// On failure the buffer is left as it was.
    pub fn encode(&self, buf: &mut Vec<u8>, version: ApiVersion, is_flexible: bool) -> (r: Result<(), SerializationError>)
        ensures
            write_exact(r, old(buf)@, final(buf)@, Self::spec_encode_body(self.deep_view(), Ctx { version: version.0, flexible: is_flexible, classic: false })),
    {
        let start = buf.len();
        let r = self.encode_ctx(buf, Ctx::new(version, is_flexible));
        if r.is_err() {
            buf.truncate(start);
        }
        r
    }

    /// Reads the structure as written for `version`.
    /// On failure the reader is put back where it started.
    pub fn decode(buf: &mut Reader, version: ApiVersion, is_flexible: bool) -> (r: Result<Self, SerializationError>)
        ensures
            final(buf).bytes() == old(buf).bytes(),
            read_view_exact(r, Self::spec_decode_body(old(buf).bytes(), old(buf).pos(), Ctx { version: version.0, flexible: is_flexible, classic: false }), old(buf).pos(), final(buf).pos()),
    {
        let start = buf.position();
        let r = Self::decode_ctx(buf, Ctx::new(version, is_flexible));
        if r.is_err() {
            buf.set_position(start);
        }
        r
    }
}

impl KafkaCodec for TopicData {
    open spec fn spec_encode(m: TopicDataModel, ctx: Ctx) -> Result<Seq<u8>, SerializationError> {
        Self::spec_encode_body(m, ctx)
    }

    open spec fn spec_decode(s: Seq<u8>, pos: int, ctx: Ctx) -> Result<(TopicDataModel, int), SerializationError> {
        Self::spec_decode_body(s, pos, ctx)
    }

    open spec fn reads_back(v: TopicDataModel, ctx: Ctx) -> bool {
        Self::reads_back_body(v, ctx)
    }

    proof fn lemma_read_back(pre: Seq<u8>, v: TopicDataModel, post: Seq<u8>, ctx: Ctx) {
        Self::lemma_body_read_back(pre, v, post, ctx);
        assert(Self::spec_decode(pre + Self::spec_encode(v, ctx)->Ok_0 + post, pre.len() as int, ctx)
            == Self::spec_decode_body(pre + Self::spec_encode_body(v, ctx)->Ok_0 + post, pre.len() as int, ctx));
    }

    fn encode_ctx(&self, buf: &mut Vec<u8>, ctx: Ctx) -> (r: Result<(), SerializationError>) {
        let ghost mut w: Seq<u8> = Seq::empty();
        encode_string(&self.topic_name, buf, ctx.flexible)?;
        proof {
            w = w + (string_bytes(self.topic_name.deep_view(), ctx.flexible))->Ok_0;
        }
        assert(buf@ =~= old(buf)@ + w);
        encode_array(&self.partitions, buf, Ctx { version: ctx.version, flexible: ctx.flexible, classic: false })?;
        proof {
            w = w + (array_bytes::<PartitionData>(self.partitions.deep_view(), Ctx { version: ctx.version, flexible: ctx.flexible, classic: false }))->Ok_0;
        }
        assert(buf@ =~= old(buf)@ + w);
        if ctx.flexible {
            encode_unsigned_varint(0, buf);
            proof {
                w = w + uvarint_bytes(0);
            }
            assert(buf@ =~= old(buf)@ + w);
        }
        Ok(())
    }

    fn decode_ctx(buf: &mut Reader, ctx: Ctx) -> (r: Result<Self, SerializationError>) {
        let topic_name = buf.get_string(ctx.flexible)?;
        let partitions = decode_array::<PartitionData>(buf, Ctx { version: ctx.version, flexible: ctx.flexible, classic: false })?;
        if ctx.flexible {
            let (_tag_count, _) = decode_unsigned_varint(buf)?;
        }
        Ok(TopicData { topic_name, partitions })
    }
}

} // verus!
