//! BeginQuorumEpochRequest (API key 53).
use vstd::prelude::*;
use crate::roundtrip::{lemma_array_roundtrip, lemma_i32_roundtrip, lemma_items_read_back,
    lemma_nullable_string_roundtrip, lemma_seq_assoc, lemma_seq_empty_left,
    lemma_string_roundtrip, lemma_u16_roundtrip, lemma_uuid_roundtrip, lemma_uvarint_roundtrip};
use crate::serialization::{Ctx, KafkaCodec, Reader, SerializationError, array_bytes, decode_array,
    decode_unsigned_varint, encode_array, encode_nullable_string, encode_string,
    encode_unsigned_varint, encode_uuid, i32_bytes, new_array, nullable_string_bytes, parse_array,
    parse_i32, parse_nullable_string, parse_raw, parse_string, parse_u16, parse_uvarint, put_i32,
    put_u16, read_view_exact, read_view_ok, string_bytes, then, u16_bytes, uvarint_bytes,
    write_exact, write_ok, zero_uuid, zero_uuid_bytes};
use crate::{ApiKey, ApiVersion};

verus! {

// -------------------------------------------------------
// BeginQuorumEpochRequest
// -------------------------------------------------------
#[derive(Clone, Debug, Default, PartialEq)]
pub struct BeginQuorumEpochRequest {
    /// The cluster id.
    pub cluster_id: Option<String>,
    /// The replica id of the voter receiving the request.
    /// Available in version 1+.
    pub voter_id: i32,
    /// The topics.
    pub topics: Vec<TopicData>,
    /// Endpoints for the leader.
    /// Available in version 1+.
    pub leader_endpoints: Vec<LeaderEndpoint>,
}

/// The contents of `BeginQuorumEpochRequest`, with strings as characters and
/// nested values by their contents.
pub struct BeginQuorumEpochRequestModel {
    pub cluster_id: Option<Seq<char>>,
    pub voter_id: i32,
    pub topics: Seq<<TopicData as DeepView>::V>,
    pub leader_endpoints: Seq<<LeaderEndpoint as DeepView>::V>,
}

impl DeepView for BeginQuorumEpochRequest {
    type V = BeginQuorumEpochRequestModel;

    open spec fn deep_view(&self) -> BeginQuorumEpochRequestModel {
        BeginQuorumEpochRequestModel {
            cluster_id: self.cluster_id.deep_view(),
            voter_id: self.voter_id,
            topics: self.topics.deep_view(),
            leader_endpoints: self.leader_endpoints.deep_view(),
        }
    }
}

impl BeginQuorumEpochRequest {
    /// The encoding of the structure in context `ctx`.
    pub open spec fn spec_encode_body(m: BeginQuorumEpochRequestModel, ctx: Ctx) -> Result<Seq<u8>, SerializationError> {
        let r = Ok(Seq::<u8>::empty());
        let r = then(r, nullable_string_bytes(m.cluster_id, ctx.flexible));
        let r = if 1 <= ctx.version { then(r, Ok(i32_bytes(m.voter_id))) } else { r };
        let r = then(r, array_bytes::<TopicData>(m.topics, Ctx { version: ctx.version, flexible: ctx.flexible, classic: false }));
        let r = if 1 <= ctx.version { then(r, array_bytes::<LeaderEndpoint>(m.leader_endpoints, Ctx { version: ctx.version, flexible: ctx.flexible, classic: false })) } else { r };
        let r = if ctx.flexible { then(r, Ok(uvarint_bytes(0))) } else { r };
        r
    }

    /// The structure read from `s` at `pos` in context `ctx`.
    pub open spec fn spec_decode_body(s: Seq<u8>, pos: int, ctx: Ctx) -> Result<(BeginQuorumEpochRequestModel, int), SerializationError> {
        match parse_nullable_string(s, pos, ctx.flexible) {
            Err(e) => Err(e),
            Ok((cluster_id, pos)) =>
            match (if 1 <= ctx.version { parse_i32(s, pos) } else { Ok((0i32, pos)) }) {
                Err(e) => Err(e),
                Ok((voter_id, pos)) =>
                match parse_array::<TopicData>(s, pos, Ctx { version: ctx.version, flexible: ctx.flexible, classic: false }) {
                    Err(e) => Err(e),
                    Ok((topics, pos)) =>
                    match (if 1 <= ctx.version { parse_array::<LeaderEndpoint>(s, pos, Ctx { version: ctx.version, flexible: ctx.flexible, classic: false }) } else { Ok((Seq::<<LeaderEndpoint as DeepView>::V>::empty(), pos)) }) {
                        Err(e) => Err(e),
                        Ok((leader_endpoints, pos)) =>
                        match (if ctx.flexible { parse_uvarint(s, pos) } else { Ok((0u64, pos)) }) {
                            Err(e) => Err(e),
                            Ok((_tag_count, pos)) =>
                            Ok((BeginQuorumEpochRequestModel { cluster_id, voter_id, topics, leader_endpoints }, pos))
                        }
                    }
                }
            }
        }
    }

    /// The structure as it reads back in context `ctx`: each field that the
    /// version leaves out is at its default.
    #[verifier::opaque]
    pub open spec fn spec_read_as(m: BeginQuorumEpochRequestModel, ctx: Ctx) -> BeginQuorumEpochRequestModel {
        BeginQuorumEpochRequestModel { cluster_id: m.cluster_id, voter_id: if 1 <= ctx.version { m.voter_id } else { 0i32 }, topics: m.topics, leader_endpoints: if 1 <= ctx.version { m.leader_endpoints } else { Seq::<<LeaderEndpoint as DeepView>::V>::empty() } }
    }

    /// Values that read back in context `ctx`: nested values read back. A field
    /// that the version leaves out is read as its default.
    pub open spec fn reads_back_body(m: BeginQuorumEpochRequestModel, ctx: Ctx) -> bool {
        &&& forall|i: int| 0 <= i < m.topics.len() ==> #[trigger] <TopicData as KafkaCodec>::reads_back(m.topics[i], Ctx { version: ctx.version, flexible: ctx.flexible, classic: false })
        &&& (1 <= ctx.version) ==> forall|i: int| 0 <= i < m.leader_endpoints.len() ==> #[trigger] <LeaderEndpoint as KafkaCodec>::reads_back(m.leader_endpoints[i], Ctx { version: ctx.version, flexible: ctx.flexible, classic: false })
    }

    /// A value that can be written in context `ctx` and reads back: decoding its
    /// encoding, wherever it stands, gives the value as `spec_read_as` gives it and
    /// the position just after it.
    #[verifier::spinoff_prover]
    pub proof fn lemma_body_read_back(pre: Seq<u8>, m: BeginQuorumEpochRequestModel, post: Seq<u8>, ctx: Ctx)
        requires
            Self::spec_encode_body(m, ctx) is Ok,
            Self::reads_back_body(m, ctx),
        ensures
            Self::spec_decode_body(pre + Self::spec_encode_body(m, ctx)->Ok_0 + post, pre.len() as int, ctx) == Ok::<(BeginQuorumEpochRequestModel, int), SerializationError>((Self::spec_read_as(m, ctx), pre.len() as int + Self::spec_encode_body(m, ctx)->Ok_0.len())),
    {
        reveal(BeginQuorumEpochRequest::spec_read_as);
        let b0 = (nullable_string_bytes(m.cluster_id, ctx.flexible))->Ok_0;
        let b1 = if 1 <= ctx.version { i32_bytes(m.voter_id) } else { Seq::<u8>::empty() };
        let b2 = (array_bytes::<TopicData>(m.topics, Ctx { version: ctx.version, flexible: ctx.flexible, classic: false }))->Ok_0;
        let b3 = if 1 <= ctx.version { (array_bytes::<LeaderEndpoint>(m.leader_endpoints, Ctx { version: ctx.version, flexible: ctx.flexible, classic: false }))->Ok_0 } else { Seq::<u8>::empty() };
        let b4 = if ctx.flexible { uvarint_bytes(0) } else { Seq::<u8>::empty() };
        let t5 = post;
        let t4 = b4 + t5;
        let t3 = b3 + t4;
        let t2 = b2 + t3;
        let t1 = b1 + t2;
        let t0 = b0 + t1;
        let e = Self::spec_encode_body(m, ctx)->Ok_0;
        assert(e =~= Seq::<u8>::empty() + b0 + b1 + b2 + b3 + b4);
        lemma_seq_assoc(((((Seq::<u8>::empty() + b0) + b1) + b2) + b3), b4, post);
        lemma_seq_assoc((((Seq::<u8>::empty() + b0) + b1) + b2), b3, (b4 + post));
        lemma_seq_assoc(((Seq::<u8>::empty() + b0) + b1), b2, (b3 + (b4 + post)));
        lemma_seq_assoc((Seq::<u8>::empty() + b0), b1, (b2 + (b3 + (b4 + post))));
        lemma_seq_assoc(Seq::<u8>::empty(), b0, (b1 + (b2 + (b3 + (b4 + post)))));
        lemma_seq_empty_left((b0 + (b1 + (b2 + (b3 + (b4 + post))))));
        let s = pre + e + post;
        lemma_seq_assoc(pre, e, post);
        assert(s == pre + t0);
        let a0 = pre;
        assert(parse_nullable_string(s, a0.len() as int, ctx.flexible) == Ok::<(Option<Seq<char>>, int), SerializationError>((m.cluster_id, a0.len() as int + b0.len()))) by {
            assert(nullable_string_bytes(m.cluster_id, ctx.flexible) is Ok);
            lemma_seq_assoc(a0, b0, t1);
            lemma_nullable_string_roundtrip(a0, m.cluster_id, t1, ctx.flexible);
        }
        lemma_seq_assoc(a0, b0, t1);
        let a1 = a0 + b0;
        if 1 <= ctx.version {
            assert(parse_i32(s, a1.len() as int) == Ok::<(i32, int), SerializationError>((m.voter_id, a1.len() as int + b1.len()))) by {
                lemma_seq_assoc(a1, b1, t2);
                lemma_i32_roundtrip(a1, m.voter_id, t2);
            }
        }
        lemma_seq_assoc(a1, b1, t2);
        let a2 = a1 + b1;
        assert(parse_array::<TopicData>(s, a2.len() as int, Ctx { version: ctx.version, flexible: ctx.flexible, classic: false }) == Ok::<(Seq<<TopicData as DeepView>::V>, int), SerializationError>((m.topics, a2.len() as int + b2.len()))) by {
            assert(array_bytes::<TopicData>(m.topics, Ctx { version: ctx.version, flexible: ctx.flexible, classic: false }) is Ok);
            lemma_seq_assoc(a2, b2, t3);
            lemma_items_read_back::<TopicData>(m.topics, Ctx { version: ctx.version, flexible: ctx.flexible, classic: false });
            lemma_array_roundtrip::<TopicData>(a2, m.topics, t3, Ctx { version: ctx.version, flexible: ctx.flexible, classic: false });
        }
        lemma_seq_assoc(a2, b2, t3);
        let a3 = a2 + b2;
        if 1 <= ctx.version {
            assert(parse_array::<LeaderEndpoint>(s, a3.len() as int, Ctx { version: ctx.version, flexible: ctx.flexible, classic: false }) == Ok::<(Seq<<LeaderEndpoint as DeepView>::V>, int), SerializationError>((m.leader_endpoints, a3.len() as int + b3.len()))) by {
                assert(array_bytes::<LeaderEndpoint>(m.leader_endpoints, Ctx { version: ctx.version, flexible: ctx.flexible, classic: false }) is Ok);
                lemma_seq_assoc(a3, b3, t4);
                lemma_items_read_back::<LeaderEndpoint>(m.leader_endpoints, Ctx { version: ctx.version, flexible: ctx.flexible, classic: false });
                lemma_array_roundtrip::<LeaderEndpoint>(a3, m.leader_endpoints, t4, Ctx { version: ctx.version, flexible: ctx.flexible, classic: false });
            }
        }
        lemma_seq_assoc(a3, b3, t4);
        let a4 = a3 + b3;
        if ctx.flexible {
            assert(parse_uvarint(s, a4.len() as int) == Ok::<(u64, int), SerializationError>((0u64, a4.len() as int + b4.len()))) by {
                lemma_seq_assoc(a4, b4, t5);
                lemma_uvarint_roundtrip(a4, 0, t5);
            }
        }
    }

    /// The bytes written: the encoding of each field, in the order of the
    /// protocol's layout. Reading them back, wherever they stand, gives the value,
    /// with each field that the version leaves out at its default.
    #[verifier::spinoff_prover]
    pub proof fn lemma_body_layout(pre: Seq<u8>, m: BeginQuorumEpochRequestModel, post: Seq<u8>, ctx: Ctx)
        requires
            Self::spec_encode_body(m, ctx) is Ok,
        ensures
            Self::spec_encode_body(m, ctx) == Ok::<Seq<u8>, SerializationError>(((nullable_string_bytes(m.cluster_id, ctx.flexible))->Ok_0) + (if 1 <= ctx.version { i32_bytes(m.voter_id) } else { Seq::<u8>::empty() }) + ((array_bytes::<TopicData>(m.topics, Ctx { version: ctx.version, flexible: ctx.flexible, classic: false }))->Ok_0) + (if 1 <= ctx.version { (array_bytes::<LeaderEndpoint>(m.leader_endpoints, Ctx { version: ctx.version, flexible: ctx.flexible, classic: false }))->Ok_0 } else { Seq::<u8>::empty() }) + (if ctx.flexible { uvarint_bytes(0) } else { Seq::<u8>::empty() })),
            Self::reads_back_body(m, ctx) ==> Self::spec_decode_body(pre + (((nullable_string_bytes(m.cluster_id, ctx.flexible))->Ok_0) + (if 1 <= ctx.version { i32_bytes(m.voter_id) } else { Seq::<u8>::empty() }) + ((array_bytes::<TopicData>(m.topics, Ctx { version: ctx.version, flexible: ctx.flexible, classic: false }))->Ok_0) + (if 1 <= ctx.version { (array_bytes::<LeaderEndpoint>(m.leader_endpoints, Ctx { version: ctx.version, flexible: ctx.flexible, classic: false }))->Ok_0 } else { Seq::<u8>::empty() }) + (if ctx.flexible { uvarint_bytes(0) } else { Seq::<u8>::empty() })) + post, pre.len() as int, ctx) == Ok::<(BeginQuorumEpochRequestModel, int), SerializationError>((BeginQuorumEpochRequestModel { cluster_id: m.cluster_id, voter_id: if 1 <= ctx.version { m.voter_id } else { 0i32 }, topics: m.topics, leader_endpoints: if 1 <= ctx.version { m.leader_endpoints } else { Seq::<<LeaderEndpoint as DeepView>::V>::empty() } }, pre.len() as int + (((nullable_string_bytes(m.cluster_id, ctx.flexible))->Ok_0) + (if 1 <= ctx.version { i32_bytes(m.voter_id) } else { Seq::<u8>::empty() }) + ((array_bytes::<TopicData>(m.topics, Ctx { version: ctx.version, flexible: ctx.flexible, classic: false }))->Ok_0) + (if 1 <= ctx.version { (array_bytes::<LeaderEndpoint>(m.leader_endpoints, Ctx { version: ctx.version, flexible: ctx.flexible, classic: false }))->Ok_0 } else { Seq::<u8>::empty() }) + (if ctx.flexible { uvarint_bytes(0) } else { Seq::<u8>::empty() })).len())),
    {
        let b0 = (nullable_string_bytes(m.cluster_id, ctx.flexible))->Ok_0;
        let b1 = if 1 <= ctx.version { i32_bytes(m.voter_id) } else { Seq::<u8>::empty() };
        let b2 = (array_bytes::<TopicData>(m.topics, Ctx { version: ctx.version, flexible: ctx.flexible, classic: false }))->Ok_0;
        let b3 = if 1 <= ctx.version { (array_bytes::<LeaderEndpoint>(m.leader_endpoints, Ctx { version: ctx.version, flexible: ctx.flexible, classic: false }))->Ok_0 } else { Seq::<u8>::empty() };
        let b4 = if ctx.flexible { uvarint_bytes(0) } else { Seq::<u8>::empty() };
        let e = Self::spec_encode_body(m, ctx)->Ok_0;
        assert(e =~= Seq::<u8>::empty() + b0 + b1 + b2 + b3 + b4);
        assert(e =~= b0 + b1 + b2 + b3 + b4);
        if Self::reads_back_body(m, ctx) {
            Self::lemma_body_read_back(pre, m, post, ctx);
            reveal(BeginQuorumEpochRequest::spec_read_as);
        }
    }

    /// Writing succeeds exactly when every field that the version carries can be
    /// encoded and every field that it leaves out, where leaving it out is an
    /// error, holds its default.
    #[verifier::spinoff_prover]
    pub proof fn lemma_body_write_succeeds(m: BeginQuorumEpochRequestModel, ctx: Ctx)
        ensures
            Self::spec_encode_body(m, ctx) is Ok <==> (nullable_string_bytes(m.cluster_id, ctx.flexible) is Ok) && (array_bytes::<TopicData>(m.topics, Ctx { version: ctx.version, flexible: ctx.flexible, classic: false }) is Ok) && ((1 <= ctx.version) ==> array_bytes::<LeaderEndpoint>(m.leader_endpoints, Ctx { version: ctx.version, flexible: ctx.flexible, classic: false }) is Ok),
    {
    }

    /// Writes the structure for `version`, with the compact encodings when `is_flexible`.
    /// On failure the buffer is left as it was.
    pub fn encode(&self, buf: &mut Vec<u8>, version: ApiVersion, is_flexible: bool) -> (r: Result<(), SerializationError>)
        ensures
            write_exact(r, old(buf)@, final(buf)@, Self::spec_encode_body(self.deep_view(), Ctx { version: version.0, flexible: is_flexible, classic: false })),
    {
        let start = buf.len();
        let r = self.encode_ctx(buf, Ctx::new(version, is_flexible));
        if r.is_err() {
            buf.truncate(start);
        }
        r
    }

    /// Reads the structure as written for `version`.
    /// On failure the reader is put back where it started.
    pub fn decode(buf: &mut Reader, version: ApiVersion, is_flexible: bool) -> (r: Result<Self, SerializationError>)
        ensures
            final(buf).bytes() == old(buf).bytes(),
            read_view_exact(r, Self::spec_decode_body(old(buf).bytes(), old(buf).pos(), Ctx { version: version.0, flexible: is_flexible, classic: false }), old(buf).pos(), final(buf).pos()),
    {
        let start = buf.position();
        let r = Self::decode_ctx(buf, Ctx::new(version, is_flexible));
        if r.is_err() {
            buf.set_position(start);
        }
        r
    }
}

impl KafkaCodec for BeginQuorumEpochRequest {
    open spec fn spec_encode(m: BeginQuorumEpochRequestModel, ctx: Ctx) -> Result<Seq<u8>, SerializationError> {
        Self::spec_encode_body(m, ctx)
    }

    open spec fn spec_decode(s: Seq<u8>, pos: int, ctx: Ctx) -> Result<(BeginQuorumEpochRequestModel, int), SerializationError> {
        Self::spec_decode_body(s, pos, ctx)
    }

    open spec fn reads_back(v: BeginQuorumEpochRequestModel, ctx: Ctx) -> bool {
        Self::reads_back_body(v, ctx) && Self::spec_read_as(v, ctx) == v
    }

    proof fn lemma_read_back(pre: Seq<u8>, v: BeginQuorumEpochRequestModel, post: Seq<u8>, ctx: Ctx) {
        Self::lemma_body_read_back(pre, v, post, ctx);
        assert(Self::spec_decode(pre + Self::spec_encode(v, ctx)->Ok_0 + post, pre.len() as int, ctx)
            == Self::spec_decode_body(pre + Self::spec_encode_body(v, ctx)->Ok_0 + post, pre.len() as int, ctx));
    }

    fn encode_ctx(&self, buf: &mut Vec<u8>, ctx: Ctx) -> (r: Result<(), SerializationError>) {
        let ghost mut w: Seq<u8> = Seq::empty();
        encode_nullable_string(&self.cluster_id, buf, ctx.flexible)?;
        proof {
            w = w + (nullable_string_bytes(self.cluster_id.deep_view(), ctx.flexible))->Ok_0;
        }
        assert(buf@ =~= old(buf)@ + w);
        if 1 <= ctx.version {
            put_i32(buf, self.voter_id);
            proof {
                w = w + i32_bytes(self.voter_id);
            }
            assert(buf@ =~= old(buf)@ + w);
        }
        encode_array(&self.topics, buf, Ctx { version: ctx.version, flexible: ctx.flexible, classic: false })?;
        proof {
            w = w + (array_bytes::<TopicData>(self.topics.deep_view(), Ctx { version: ctx.version, flexible: ctx.flexible, classic: false }))->Ok_0;
        }
        assert(buf@ =~= old(buf)@ + w);
        if 1 <= ctx.version {
            encode_array(&self.leader_endpoints, buf, Ctx { version: ctx.version, flexible: ctx.flexible, classic: false })?;
            proof {
                w = w + (array_bytes::<LeaderEndpoint>(self.leader_endpoints.deep_view(), Ctx { version: ctx.version, flexible: ctx.flexible, classic: false }))->Ok_0;
            }
            assert(buf@ =~= old(buf)@ + w);
        }
        if ctx.flexible {
            encode_unsigned_varint(0, buf);
            proof {
                w = w + uvarint_bytes(0);
            }
            assert(buf@ =~= old(buf)@ + w);
        }
        Ok(())
    }

    fn decode_ctx(buf: &mut Reader, ctx: Ctx) -> (r: Result<Self, SerializationError>) {
        let cluster_id = buf.get_nullable_string(ctx.flexible)?;
        let voter_id = if 1 <= ctx.version {
            buf.get_i32()?
        } else {
            0i32
        };
        let topics = decode_array::<TopicData>(buf, Ctx { version: ctx.version, flexible: ctx.flexible, classic: false })?;
        let leader_endpoints = if 1 <= ctx.version {
            decode_array::<LeaderEndpoint>(buf, Ctx { version: ctx.version, flexible: ctx.flexible, classic: false })?
        } else {
            new_array::<LeaderEndpoint>()
        };
        if ctx.flexible {
            let (_tag_count, _) = decode_unsigned_varint(buf)?;
        }
        Ok(BeginQuorumEpochRequest { cluster_id, voter_id, topics, leader_endpoints })
    }
}

impl BeginQuorumEpochRequest {
    /// The API key of this message.
    pub fn get_api_key() -> (r: ApiKey)
        ensures
            r.0 == 53,
    {
        ApiKey::new(53)
    }

    /// The oldest version of this message.
    pub fn get_min_supported_version() -> (r: ApiVersion)
        ensures
            r.0 == 0,
    {
        ApiVersion::new(0)
    }

    /// The newest version of this message.
    pub fn get_max_supported_version() -> (r: ApiVersion)
        ensures
            r.0 == 1,
    {
        ApiVersion::new(1)
    }

    /// The first version of this message with the compact encodings.
    pub fn get_min_flexible_version() -> (r: ApiVersion)
        ensures
            r.0 == 1,
    {
        ApiVersion::new(1)
    }

    /// The encoding of a whole message body at `version`.
    pub open spec fn spec_serialize(m: BeginQuorumEpochRequestModel, version: i16) -> Result<Seq<u8>, SerializationError> {
        let is_flexible = version >= 1;
        let ctx = Ctx { version, flexible: is_flexible, classic: false };
        let r = Ok(Seq::<u8>::empty());
        let r = then(r, nullable_string_bytes(m.cluster_id, ctx.flexible));
        let r = if 1 <= ctx.version { then(r, Ok(i32_bytes(m.voter_id))) } else if m.voter_id != 0 { then(r, Err(SerializationError::Encode("field 'VoterId' is not available in this version"))) } else { r };
        let r = then(r, array_bytes::<TopicData>(m.topics, Ctx { version: ctx.version, flexible: ctx.flexible, classic: false }));
        let r = if 1 <= ctx.version { then(r, array_bytes::<LeaderEndpoint>(m.leader_endpoints, Ctx { version: ctx.version, flexible: ctx.flexible, classic: false })) } else if m.leader_endpoints.len() != 0 { then(r, Err(SerializationError::Encode("field 'LeaderEndpoints' is not available in this version"))) } else { r };
        let r = if ctx.flexible { then(r, Ok(uvarint_bytes(0))) } else { r };
        r
    }

    /// The message body read at `version`.
    pub open spec fn spec_deserialize(s: Seq<u8>, pos: int, version: i16) -> Result<(BeginQuorumEpochRequestModel, int), SerializationError> {
        let is_flexible = version >= 1;
        let ctx = Ctx { version, flexible: is_flexible, classic: false };
        match parse_nullable_string(s, pos, ctx.flexible) {
            Err(e) => Err(e),
            Ok((cluster_id, pos)) =>
            match (if 1 <= ctx.version { parse_i32(s, pos) } else { Ok((0i32, pos)) }) {
                Err(e) => Err(e),
                Ok((voter_id, pos)) =>
                match parse_array::<TopicData>(s, pos, Ctx { version: ctx.version, flexible: ctx.flexible, classic: false }) {
                    Err(e) => Err(e),
                    Ok((topics, pos)) =>
                    match (if 1 <= ctx.version { parse_array::<LeaderEndpoint>(s, pos, Ctx { version: ctx.version, flexible: ctx.flexible, classic: false }) } else { Ok((Seq::<<LeaderEndpoint as DeepView>::V>::empty(), pos)) }) {
                        Err(e) => Err(e),
                        Ok((leader_endpoints, pos)) =>
                        match (if ctx.flexible { parse_uvarint(s, pos) } else { Ok((0u64, pos)) }) {
                            Err(e) => Err(e),
                            Ok((_tag_count, pos)) =>
                            Ok((BeginQuorumEpochRequestModel { cluster_id, voter_id, topics, leader_endpoints }, pos))
                        }
                    }
                }
            }
        }
    }

    /// Message bodies that read back when written at `version`: nested values read
    /// back. A field that the version leaves out is read as its default.
    pub open spec fn reads_back_message(m: BeginQuorumEpochRequestModel, version: i16) -> bool {
        let is_flexible = version >= 1;
        let ctx = Ctx { version, flexible: is_flexible, classic: false };
        &&& forall|i: int| 0 <= i < m.topics.len() ==> #[trigger] <TopicData as KafkaCodec>::reads_back(m.topics[i], Ctx { version: ctx.version, flexible: ctx.flexible, classic: false })
        &&& (1 <= ctx.version) ==> forall|i: int| 0 <= i < m.leader_endpoints.len() ==> #[trigger] <LeaderEndpoint as KafkaCodec>::reads_back(m.leader_endpoints[i], Ctx { version: ctx.version, flexible: ctx.flexible, classic: false })
    }

    /// A message body that can be written at `version` and reads back: reading a
    /// body at `version` from its bytes, wherever they stand, gives the same message,
    /// with each field that the version leaves out at its default.
    #[verifier::spinoff_prover]
    pub proof fn lemma_message_read_back(pre: Seq<u8>, m: BeginQuorumEpochRequestModel, post: Seq<u8>, version: i16)
        requires
            Self::spec_serialize(m, version) is Ok,
            Self::reads_back_message(m, version),
        ensures
            Self::spec_deserialize(pre + Self::spec_serialize(m, version)->Ok_0 + post, pre.len() as int, version) == Ok::<(BeginQuorumEpochRequestModel, int), SerializationError>((BeginQuorumEpochRequestModel { cluster_id: m.cluster_id, voter_id: if 1 <= version { m.voter_id } else { 0i32 }, topics: m.topics, leader_endpoints: if 1 <= version { m.leader_endpoints } else { Seq::<<LeaderEndpoint as DeepView>::V>::empty() } }, pre.len() as int + Self::spec_serialize(m, version)->Ok_0.len())),
    {
        let is_flexible = version >= 1;
        let ctx = Ctx { version, flexible: is_flexible, classic: false };
        let b0 = (nullable_string_bytes(m.cluster_id, ctx.flexible))->Ok_0;
        let b1 = if 1 <= ctx.version { i32_bytes(m.voter_id) } else { Seq::<u8>::empty() };
        let b2 = (array_bytes::<TopicData>(m.topics, Ctx { version: ctx.version, flexible: ctx.flexible, classic: false }))->Ok_0;
        let b3 = if 1 <= ctx.version { (array_bytes::<LeaderEndpoint>(m.leader_endpoints, Ctx { version: ctx.version, flexible: ctx.flexible, classic: false }))->Ok_0 } else { Seq::<u8>::empty() };
        let b4 = if ctx.flexible { uvarint_bytes(0) } else { Seq::<u8>::empty() };
        let t5 = post;
        let t4 = b4 + t5;
        let t3 = b3 + t4;
        let t2 = b2 + t3;
        let t1 = b1 + t2;
        let t0 = b0 + t1;
        let e = Self::spec_serialize(m, version)->Ok_0;
        assert(e =~= Seq::<u8>::empty() + b0 + b1 + b2 + b3 + b4);
        lemma_seq_assoc(((((Seq::<u8>::empty() + b0) + b1) + b2) + b3), b4, post);
        lemma_seq_assoc((((Seq::<u8>::empty() + b0) + b1) + b2), b3, (b4 + post));
        lemma_seq_assoc(((Seq::<u8>::empty() + b0) + b1), b2, (b3 + (b4 + post)));
        lemma_seq_assoc((Seq::<u8>::empty() + b0), b1, (b2 + (b3 + (b4 + post))));
        lemma_seq_assoc(Seq::<u8>::empty(), b0, (b1 + (b2 + (b3 + (b4 + post)))));
        lemma_seq_empty_left((b0 + (b1 + (b2 + (b3 + (b4 + post))))));
        let s = pre + e + post;
        lemma_seq_assoc(pre, e, post);
        assert(s == pre + t0);
        let a0 = pre;
        assert(parse_nullable_string(s, a0.len() as int, ctx.flexible) == Ok::<(Option<Seq<char>>, int), SerializationError>((m.cluster_id, a0.len() as int + b0.len()))) by {
            assert(nullable_string_bytes(m.cluster_id, ctx.flexible) is Ok);
            lemma_seq_assoc(a0, b0, t1);
            lemma_nullable_string_roundtrip(a0, m.cluster_id, t1, ctx.flexible);
        }
        lemma_seq_assoc(a0, b0, t1);
        let a1 = a0 + b0;
        if 1 <= ctx.version {
            assert(parse_i32(s, a1.len() as int) == Ok::<(i32, int), SerializationError>((m.voter_id, a1.len() as int + b1.len()))) by {
                lemma_seq_assoc(a1, b1, t2);
                lemma_i32_roundtrip(a1, m.voter_id, t2);
            }
        }
        lemma_seq_assoc(a1, b1, t2);
        let a2 = a1 + b1;
        assert(parse_array::<TopicData>(s, a2.len() as int, Ctx { version: ctx.version, flexible: ctx.flexible, classic: false }) == Ok::<(Seq<<TopicData as DeepView>::V>, int), SerializationError>((m.topics, a2.len() as int + b2.len()))) by {
            assert(array_bytes::<TopicData>(m.topics, Ctx { version: ctx.version, flexible: ctx.flexible, classic: false }) is Ok);
            lemma_seq_assoc(a2, b2, t3);
            lemma_items_read_back::<TopicData>(m.topics, Ctx { version: ctx.version, flexible: ctx.flexible, classic: false });
            lemma_array_roundtrip::<TopicData>(a2, m.topics, t3, Ctx { version: ctx.version, flexible: ctx.flexible, classic: false });
        }
        lemma_seq_assoc(a2, b2, t3);
        let a3 = a2 + b2;
        if 1 <= ctx.version {
            assert(parse_array::<LeaderEndpoint>(s, a3.len() as int, Ctx { version: ctx.version, flexible: ctx.flexible, classic: false }) == Ok::<(Seq<<LeaderEndpoint as DeepView>::V>, int), SerializationError>((m.leader_endpoints, a3.len() as int + b3.len()))) by {
                assert(array_bytes::<LeaderEndpoint>(m.leader_endpoints, Ctx { version: ctx.version, flexible: ctx.flexible, classic: false }) is Ok);
                lemma_seq_assoc(a3, b3, t4);
                lemma_items_read_back::<LeaderEndpoint>(m.leader_endpoints, Ctx { version: ctx.version, flexible: ctx.flexible, classic: false });
                lemma_array_roundtrip::<LeaderEndpoint>(a3, m.leader_endpoints, t4, Ctx { version: ctx.version, flexible: ctx.flexible, classic: false });
            }
        }
        lemma_seq_assoc(a3, b3, t4);
        let a4 = a3 + b3;
        if ctx.flexible {
            assert(parse_uvarint(s, a4.len() as int) == Ok::<(u64, int), SerializationError>((0u64, a4.len() as int + b4.len()))) by {
                lemma_seq_assoc(a4, b4, t5);
                lemma_uvarint_roundtrip(a4, 0, t5);
            }
        }
    }

    /// The bytes written: the encoding of each field, in the order of the
    /// protocol's layout. Reading them back, wherever they stand, gives the value,
    /// with each field that the version leaves out at its default.
    #[verifier::spinoff_prover]
    pub proof fn lemma_message_layout(pre: Seq<u8>, m: BeginQuorumEpochRequestModel, post: Seq<u8>, version: i16)
        requires
            Self::spec_serialize(m, version) is Ok,
        ensures
            Self::spec_serialize(m, version) == Ok::<Seq<u8>, SerializationError>(((nullable_string_bytes(m.cluster_id, (version >= 1)))->Ok_0) + (if 1 <= version { i32_bytes(m.voter_id) } else { Seq::<u8>::empty() }) + ((array_bytes::<TopicData>(m.topics, Ctx { version: version, flexible: (version >= 1), classic: false }))->Ok_0) + (if 1 <= version { (array_bytes::<LeaderEndpoint>(m.leader_endpoints, Ctx { version: version, flexible: (version >= 1), classic: false }))->Ok_0 } else { Seq::<u8>::empty() }) + (if (version >= 1) { uvarint_bytes(0) } else { Seq::<u8>::empty() })),
            Self::reads_back_message(m, version) ==> Self::spec_deserialize(pre + (((nullable_string_bytes(m.cluster_id, (version >= 1)))->Ok_0) + (if 1 <= version { i32_bytes(m.voter_id) } else { Seq::<u8>::empty() }) + ((array_bytes::<TopicData>(m.topics, Ctx { version: version, flexible: (version >= 1), classic: false }))->Ok_0) + (if 1 <= version { (array_bytes::<LeaderEndpoint>(m.leader_endpoints, Ctx { version: version, flexible: (version >= 1), classic: false }))->Ok_0 } else { Seq::<u8>::empty() }) + (if (version >= 1) { uvarint_bytes(0) } else { Seq::<u8>::empty() })) + post, pre.len() as int, version) == Ok::<(BeginQuorumEpochRequestModel, int), SerializationError>((BeginQuorumEpochRequestModel { cluster_id: m.cluster_id, voter_id: if 1 <= version { m.voter_id } else { 0i32 }, topics: m.topics, leader_endpoints: if 1 <= version { m.leader_endpoints } else { Seq::<<LeaderEndpoint as DeepView>::V>::empty() } }, pre.len() as int + (((nullable_string_bytes(m.cluster_id, (version >= 1)))->Ok_0) + (if 1 <= version { i32_bytes(m.voter_id) } else { Seq::<u8>::empty() }) + ((array_bytes::<TopicData>(m.topics, Ctx { version: version, flexible: (version >= 1), classic: false }))->Ok_0) + (if 1 <= version { (array_bytes::<LeaderEndpoint>(m.leader_endpoints, Ctx { version: version, flexible: (version >= 1), classic: false }))->Ok_0 } else { Seq::<u8>::empty() }) + (if (version >= 1) { uvarint_bytes(0) } else { Seq::<u8>::empty() })).len())),
    {
        let is_flexible = version >= 1;
        let ctx = Ctx { version, flexible: is_flexible, classic: false };
        let b0 = (nullable_string_bytes(m.cluster_id, ctx.flexible))->Ok_0;
        let b1 = if 1 <= ctx.version { i32_bytes(m.voter_id) } else { Seq::<u8>::empty() };
        let b2 = (array_bytes::<TopicData>(m.topics, Ctx { version: ctx.version, flexible: ctx.flexible, classic: false }))->Ok_0;
        let b3 = if 1 <= ctx.version { (array_bytes::<LeaderEndpoint>(m.leader_endpoints, Ctx { version: ctx.version, flexible: ctx.flexible, classic: false }))->Ok_0 } else { Seq::<u8>::empty() };
        let b4 = if ctx.flexible { uvarint_bytes(0) } else { Seq::<u8>::empty() };
        let e = Self::spec_serialize(m, version)->Ok_0;
        assert(e =~= Seq::<u8>::empty() + b0 + b1 + b2 + b3 + b4);
        assert(e =~= b0 + b1 + b2 + b3 + b4);
        if Self::reads_back_message(m, version) {
            Self::lemma_message_read_back(pre, m, post, version);
        }
    }

    /// Writing succeeds exactly when every field that the version carries can be
    /// encoded and every field that it leaves out, where leaving it out is an
    /// error, holds its default.
    #[verifier::spinoff_prover]
    pub proof fn lemma_message_write_succeeds(m: BeginQuorumEpochRequestModel, version: i16)
        ensures
            Self::spec_serialize(m, version) is Ok <==> (nullable_string_bytes(m.cluster_id, (version >= 1)) is Ok) && (!(1 <= version) ==> !(m.voter_id != 0)) && (array_bytes::<TopicData>(m.topics, Ctx { version: version, flexible: (version >= 1), classic: false }) is Ok) && ((1 <= version) ==> array_bytes::<LeaderEndpoint>(m.leader_endpoints, Ctx { version: version, flexible: (version >= 1), classic: false }) is Ok) && (!(1 <= version) ==> !(m.leader_endpoints.len() != 0)),
    {
        let is_flexible = version >= 1;
        let ctx = Ctx { version, flexible: is_flexible, classic: false };
    }

    /// Writes the message body for `version`, which must be a supported version.
    /// On failure the buffer is left as it was.
    pub fn serialize(&self, version: ApiVersion, buf: &mut Vec<u8>) -> (r: Result<(), SerializationError>)
        requires
            0 <= version.0 <= 1,
        ensures
            write_exact(r, old(buf)@, final(buf)@, Self::spec_serialize(self.deep_view(), version.0)),
    {
        let start = buf.len();
        let r = self.write_body(version, buf);
        if r.is_err() {
            buf.truncate(start);
        }
        r
    }

    fn write_body(&self, version: ApiVersion, buf: &mut Vec<u8>) -> (r: Result<(), SerializationError>)
        requires
            0 <= version.0 <= 1,
        ensures
            write_ok(r, old(buf)@, final(buf)@, Self::spec_serialize(self.deep_view(), version.0)),
    {
        let is_flexible = version.0 >= Self::get_min_flexible_version().0;
        let ctx = Ctx::new(version, is_flexible);
        let ghost mut w: Seq<u8> = Seq::empty();
        encode_nullable_string(&self.cluster_id, buf, ctx.flexible)?;
        proof {
            w = w + (nullable_string_bytes(self.cluster_id.deep_view(), ctx.flexible))->Ok_0;
        }
        assert(buf@ =~= old(buf)@ + w);
        if 1 <= ctx.version {
            put_i32(buf, self.voter_id);
            proof {
                w = w + i32_bytes(self.voter_id);
            }
            assert(buf@ =~= old(buf)@ + w);
        } else if self.voter_id != 0 {
            return Err(SerializationError::Encode("field 'VoterId' is not available in this version"));
        }
        encode_array(&self.topics, buf, Ctx { version: ctx.version, flexible: ctx.flexible, classic: false })?;
        proof {
            w = w + (array_bytes::<TopicData>(self.topics.deep_view(), Ctx { version: ctx.version, flexible: ctx.flexible, classic: false }))->Ok_0;
        }
        assert(buf@ =~= old(buf)@ + w);
        if 1 <= ctx.version {
            encode_array(&self.leader_endpoints, buf, Ctx { version: ctx.version, flexible: ctx.flexible, classic: false })?;
            proof {
                w = w + (array_bytes::<LeaderEndpoint>(self.leader_endpoints.deep_view(), Ctx { version: ctx.version, flexible: ctx.flexible, classic: false }))->Ok_0;
            }
            assert(buf@ =~= old(buf)@ + w);
        } else if self.leader_endpoints.len() != 0 {
            return Err(SerializationError::Encode("field 'LeaderEndpoints' is not available in this version"));
        }
        if ctx.flexible {
            encode_unsigned_varint(0, buf);
            proof {
                w = w + uvarint_bytes(0);
            }
            assert(buf@ =~= old(buf)@ + w);
        }
        Ok(())
    }

    /// Reads a message body written for `version`.
    /// On failure the reader is put back where it started.
    pub fn deserialize(version: ApiVersion, buf: &mut Reader) -> (r: Result<Self, SerializationError>)
        ensures
            final(buf).bytes() == old(buf).bytes(),
            read_view_exact(r, Self::spec_deserialize(old(buf).bytes(), old(buf).pos(), version.0), old(buf).pos(), final(buf).pos()),
    {
        let start = buf.position();
        let r = Self::read_body(version, buf);
        if r.is_err() {
            buf.set_position(start);
        }
        r
    }

    fn read_body(version: ApiVersion, buf: &mut Reader) -> (r: Result<Self, SerializationError>)
        ensures
            final(buf).bytes() == old(buf).bytes(),
            read_view_ok(r, Self::spec_deserialize(old(buf).bytes(), old(buf).pos(), version.0), final(buf).pos()),
    {
        let is_flexible = version.0 >= Self::get_min_flexible_version().0;
        let ctx = Ctx::new(version, is_flexible);
        let cluster_id = buf.get_nullable_string(ctx.flexible)?;
        let voter_id = if 1 <= ctx.version {
            buf.get_i32()?
        } else {
            0i32
        };
        let topics = decode_array::<TopicData>(buf, Ctx { version: ctx.version, flexible: ctx.flexible, classic: false })?;
        let leader_endpoints = if 1 <= ctx.version {
            decode_array::<LeaderEndpoint>(buf, Ctx { version: ctx.version, flexible: ctx.flexible, classic: false })?
        } else {
            new_array::<LeaderEndpoint>()
        };
        if ctx.flexible {
            let (_tag_count, _) = decode_unsigned_varint(buf)?;
        }
        Ok(BeginQuorumEpochRequest { cluster_id, voter_id, topics, leader_endpoints })
    }
}

// -------------------------------------------------------
// LeaderEndpoint
// -------------------------------------------------------
#[derive(Clone, Debug, Default, PartialEq)]
pub struct LeaderEndpoint {
    /// The name of the endpoint.
    /// Available in version 1+.
    pub name: String,
    /// The node's hostname.
    /// Available in version 1+.
    pub host: String,
    /// The node's port.
    /// Available in version 1+.
    pub port: u16,
}

/// The contents of `LeaderEndpoint`, with strings as characters and
/// nested values by their contents.
pub struct LeaderEndpointModel {
    pub name: Seq<char>,
    pub host: Seq<char>,
    pub port: u16,
}

impl DeepView for LeaderEndpoint {
    type V = LeaderEndpointModel;

    open spec fn deep_view(&self) -> LeaderEndpointModel {
        LeaderEndpointModel {
            name: self.name.deep_view(),
            host: self.host.deep_view(),
            port: self.port,
        }
    }
}

impl LeaderEndpoint {
    /// The encoding of the structure in context `ctx`.
    pub open spec fn spec_encode_body(m: LeaderEndpointModel, ctx: Ctx) -> Result<Seq<u8>, SerializationError> {
        let r = Ok(Seq::<u8>::empty());
        let r = if 1 <= ctx.version { then(r, string_bytes(m.name, ctx.flexible)) } else { r };
        let r = if 1 <= ctx.version { then(r, string_bytes(m.host, ctx.flexible)) } else { r };
        let r = if 1 <= ctx.version { then(r, Ok(u16_bytes(m.port))) } else { r };
        let r = if ctx.flexible { then(r, Ok(uvarint_bytes(0))) } else { r };
        r
    }

    /// The structure read from `s` at `pos` in context `ctx`.
    pub open spec fn spec_decode_body(s: Seq<u8>, pos: int, ctx: Ctx) -> Result<(LeaderEndpointModel, int), SerializationError> {
        match (if 1 <= ctx.version { parse_string(s, pos, ctx.flexible) } else { Ok((Seq::<char>::empty(), pos)) }) {
            Err(e) => Err(e),
            Ok((name, pos)) =>
            match (if 1 <= ctx.version { parse_string(s, pos, ctx.flexible) } else { Ok((Seq::<char>::empty(), pos)) }) {
                Err(e) => Err(e),
                Ok((host, pos)) =>
                match (if 1 <= ctx.version { parse_u16(s, pos) } else { Ok((0u16, pos)) }) {
                    Err(e) => Err(e),
                    Ok((port, pos)) =>
                    match (if ctx.flexible { parse_uvarint(s, pos) } else { Ok((0u64, pos)) }) {
                        Err(e) => Err(e),
                        Ok((_tag_count, pos)) =>
                        Ok((LeaderEndpointModel { name, host, port }, pos))
                    }
                }
            }
        }
    }

    /// The structure as it reads back in context `ctx`: each field that the
    /// version leaves out is at its default.
    #[verifier::opaque]
    pub open spec fn spec_read_as(m: LeaderEndpointModel, ctx: Ctx) -> LeaderEndpointModel {
        LeaderEndpointModel { name: if 1 <= ctx.version { m.name } else { Seq::<char>::empty() }, host: if 1 <= ctx.version { m.host } else { Seq::<char>::empty() }, port: if 1 <= ctx.version { m.port } else { 0u16 } }
    }

    /// Values that read back in context `ctx`: nested values read back. A field
    /// that the version leaves out is read as its default.
    pub open spec fn reads_back_body(m: LeaderEndpointModel, ctx: Ctx) -> bool {
        true
    }

    /// A value that can be written in context `ctx` and reads back: decoding its
    /// encoding, wherever it stands, gives the value as `spec_read_as` gives it and
    /// the position just after it.
    #[verifier::spinoff_prover]
    pub proof fn lemma_body_read_back(pre: Seq<u8>, m: LeaderEndpointModel, post: Seq<u8>, ctx: Ctx)
        requires
            Self::spec_encode_body(m, ctx) is Ok,
            Self::reads_back_body(m, ctx),
        ensures
            Self::spec_decode_body(pre + Self::spec_encode_body(m, ctx)->Ok_0 + post, pre.len() as int, ctx) == Ok::<(LeaderEndpointModel, int), SerializationError>((Self::spec_read_as(m, ctx), pre.len() as int + Self::spec_encode_body(m, ctx)->Ok_0.len())),
    {
        reveal(LeaderEndpoint::spec_read_as);
        let b0 = if 1 <= ctx.version { (string_bytes(m.name, ctx.flexible))->Ok_0 } else { Seq::<u8>::empty() };
        let b1 = if 1 <= ctx.version { (string_bytes(m.host, ctx.flexible))->Ok_0 } else { Seq::<u8>::empty() };
        let b2 = if 1 <= ctx.version { u16_bytes(m.port) } else { Seq::<u8>::empty() };
        let b3 = if ctx.flexible { uvarint_bytes(0) } else { Seq::<u8>::empty() };
        let t4 = post;
        let t3 = b3 + t4;
        let t2 = b2 + t3;
        let t1 = b1 + t2;
        let t0 = b0 + t1;
        let e = Self::spec_encode_body(m, ctx)->Ok_0;
        assert(e =~= Seq::<u8>::empty() + b0 + b1 + b2 + b3);
        lemma_seq_assoc((((Seq::<u8>::empty() + b0) + b1) + b2), b3, post);
        lemma_seq_assoc(((Seq::<u8>::empty() + b0) + b1), b2, (b3 + post));
        lemma_seq_assoc((Seq::<u8>::empty() + b0), b1, (b2 + (b3 + post)));
        lemma_seq_assoc(Seq::<u8>::empty(), b0, (b1 + (b2 + (b3 + post))));
        lemma_seq_empty_left((b0 + (b1 + (b2 + (b3 + post)))));
        let s = pre + e + post;
        lemma_seq_assoc(pre, e, post);
        assert(s == pre + t0);
        let a0 = pre;
        if 1 <= ctx.version {
            assert(parse_string(s, a0.len() as int, ctx.flexible) == Ok::<(Seq<char>, int), SerializationError>((m.name, a0.len() as int + b0.len()))) by {
                assert(string_bytes(m.name, ctx.flexible) is Ok);
                lemma_seq_assoc(a0, b0, t1);
                lemma_string_roundtrip(a0, m.name, t1, ctx.flexible);
            }
        }
        lemma_seq_assoc(a0, b0, t1);
        let a1 = a0 + b0;
        if 1 <= ctx.version {
            assert(parse_string(s, a1.len() as int, ctx.flexible) == Ok::<(Seq<char>, int), SerializationError>((m.host, a1.len() as int + b1.len()))) by {
                assert(string_bytes(m.host, ctx.flexible) is Ok);
                lemma_seq_assoc(a1, b1, t2);
                lemma_string_roundtrip(a1, m.host, t2, ctx.flexible);
            }
        }
        lemma_seq_assoc(a1, b1, t2);
        let a2 = a1 + b1;
        if 1 <= ctx.version {
            assert(parse_u16(s, a2.len() as int) == Ok::<(u16, int), SerializationError>((m.port, a2.len() as int + b2.len()))) by {
                lemma_seq_assoc(a2, b2, t3);
                lemma_u16_roundtrip(a2, m.port, t3);
            }
        }
        lemma_seq_assoc(a2, b2, t3);
        let a3 = a2 + b2;
        if ctx.flexible {
            assert(parse_uvarint(s, a3.len() as int) == Ok::<(u64, int), SerializationError>((0u64, a3.len() as int + b3.len()))) by {
                lemma_seq_assoc(a3, b3, t4);
                lemma_uvarint_roundtrip(a3, 0, t4);
            }
        }
    }

    /// The bytes written: the encoding of each field, in the order of the
    /// protocol's layout. Reading them back, wherever they stand, gives the value,
    /// with each field that the version leaves out at its default.
    #[verifier::spinoff_prover]
    pub proof fn lemma_body_layout(pre: Seq<u8>, m: LeaderEndpointModel, post: Seq<u8>, ctx: Ctx)
        requires
            Self::spec_encode_body(m, ctx) is Ok,
        ensures
            Self::spec_encode_body(m, ctx) == Ok::<Seq<u8>, SerializationError>((if 1 <= ctx.version { (string_bytes(m.name, ctx.flexible))->Ok_0 } else { Seq::<u8>::empty() }) + (if 1 <= ctx.version { (string_bytes(m.host, ctx.flexible))->Ok_0 } else { Seq::<u8>::empty() }) + (if 1 <= ctx.version { u16_bytes(m.port) } else { Seq::<u8>::empty() }) + (if ctx.flexible { uvarint_bytes(0) } else { Seq::<u8>::empty() })),
            Self::reads_back_body(m, ctx) ==> Self::spec_decode_body(pre + ((if 1 <= ctx.version { (string_bytes(m.name, ctx.flexible))->Ok_0 } else { Seq::<u8>::empty() }) + (if 1 <= ctx.version { (string_bytes(m.host, ctx.flexible))->Ok_0 } else { Seq::<u8>::empty() }) + (if 1 <= ctx.version { u16_bytes(m.port) } else { Seq::<u8>::empty() }) + (if ctx.flexible { uvarint_bytes(0) } else { Seq::<u8>::empty() })) + post, pre.len() as int, ctx) == Ok::<(LeaderEndpointModel, int), SerializationError>((LeaderEndpointModel { name: if 1 <= ctx.version { m.name } else { Seq::<char>::empty() }, host: if 1 <= ctx.version { m.host } else { Seq::<char>::empty() }, port: if 1 <= ctx.version { m.port } else { 0u16 } }, pre.len() as int + ((if 1 <= ctx.version { (string_bytes(m.name, ctx.flexible))->Ok_0 } else { Seq::<u8>::empty() }) + (if 1 <= ctx.version { (string_bytes(m.host, ctx.flexible))->Ok_0 } else { Seq::<u8>::empty() }) + (if 1 <= ctx.version { u16_bytes(m.port) } else { Seq::<u8>::empty() }) + (if ctx.flexible { uvarint_bytes(0) } else { Seq::<u8>::empty() })).len())),
    {
        let b0 = if 1 <= ctx.version { (string_bytes(m.name, ctx.flexible))->Ok_0 } else { Seq::<u8>::empty() };
        let b1 = if 1 <= ctx.version { (string_bytes(m.host, ctx.flexible))->Ok_0 } else { Seq::<u8>::empty() };
        let b2 = if 1 <= ctx.version { u16_bytes(m.port) } else { Seq::<u8>::empty() };
        let b3 = if ctx.flexible { uvarint_bytes(0) } else { Seq::<u8>::empty() };
        let e = Self::spec_encode_body(m, ctx)->Ok_0;
        assert(e =~= Seq::<u8>::empty() + b0 + b1 + b2 + b3);
        assert(e =~= b0 + b1 + b2 + b3);
        if Self::reads_back_body(m, ctx) {
            Self::lemma_body_read_back(pre, m, post, ctx);
            reveal(LeaderEndpoint::spec_read_as);
        }
    }

    /// Writing succeeds exactly when every field that the version carries can be
    /// encoded and every field that it leaves out, where leaving it out is an
    /// error, holds its default.
    #[verifier::spinoff_prover]
    pub proof fn lemma_body_write_succeeds(m: LeaderEndpointModel, ctx: Ctx)
        ensures
            Self::spec_encode_body(m, ctx) is Ok <==> ((1 <= ctx.version) ==> string_bytes(m.name, ctx.flexible) is Ok) && ((1 <= ctx.version) ==> string_bytes(m.host, ctx.flexible) is Ok),
    {
    }

    /// Writes the structure for `version`, with the compact encodings when `is_flexible`.
    /// On failure the buffer is left as it was.
    pub fn encode(&self, buf: &mut Vec<u8>, version: ApiVersion, is_flexible: bool) -> (r: Result<(), SerializationError>)
        ensures
            write_exact(r, old(buf)@, final(buf)@, Self::spec_encode_body(self.deep_view(), Ctx { version: version.0, flexible: is_flexible, classic: false })),
    {
        let start = buf.len();
        let r = self.encode_ctx(buf, Ctx::new(version, is_flexible));
        if r.is_err() {
            buf.truncate(start);
        }
        r
    }

    /// Reads the structure as written for `version`.
    /// On failure the reader is put back where it started.
    pub fn decode(buf: &mut Reader, version: ApiVersion, is_flexible: bool) -> (r: Result<Self, SerializationError>)
        ensures
            final(buf).bytes() == old(buf).bytes(),
            read_view_exact(r, Self::spec_decode_body(old(buf).bytes(), old(buf).pos(), Ctx { version: version.0, flexible: is_flexible, classic: false }), old(buf).pos(), final(buf).pos()),
    {
        let start = buf.position();
        let r = Self::decode_ctx(buf, Ctx::new(version, is_flexible));
        if r.is_err() {
            buf.set_position(start);
        }
        r
    }
}

impl KafkaCodec for LeaderEndpoint {
    open spec fn spec_encode(m: LeaderEndpointModel, ctx: Ctx) -> Result<Seq<u8>, SerializationError> {
        Self::spec_encode_body(m, ctx)
    }

    open spec fn spec_decode(s: Seq<u8>, pos: int, ctx: Ctx) -> Result<(LeaderEndpointModel, int), SerializationError> {
        Self::spec_decode_body(s, pos, ctx)
    }

    open spec fn reads_back(v: LeaderEndpointModel, ctx: Ctx) -> bool {
        Self::reads_back_body(v, ctx) && Self::spec_read_as(v, ctx) == v
    }

    proof fn lemma_read_back(pre: Seq<u8>, v: LeaderEndpointModel, post: Seq<u8>, ctx: Ctx) {
        Self::lemma_body_read_back(pre, v, post, ctx);
        assert(Self::spec_decode(pre + Self::spec_encode(v, ctx)->Ok_0 + post, pre.len() as int, ctx)
            == Self::spec_decode_body(pre + Self::spec_encode_body(v, ctx)->Ok_0 + post, pre.len() as int, ctx));
    }

    fn encode_ctx(&self, buf: &mut Vec<u8>, ctx: Ctx) -> (r: Result<(), SerializationError>) {
        let ghost mut w: Seq<u8> = Seq::empty();
        if 1 <= ctx.version {
            encode_string(&self.name, buf, ctx.flexible)?;
            proof {
                w = w + (string_bytes(self.name.deep_view(), ctx.flexible))->Ok_0;
            }
            assert(buf@ =~= old(buf)@ + w);
        }
        if 1 <= ctx.version {
            encode_string(&self.host, buf, ctx.flexible)?;
            proof {
                w = w + (string_bytes(self.host.deep_view(), ctx.flexible))->Ok_0;
            }
            assert(buf@ =~= old(buf)@ + w);
        }
        if 1 <= ctx.version {
            put_u16(buf, self.port);
            proof {
                w = w + u16_bytes(self.port);
            }
            assert(buf@ =~= old(buf)@ + w);
        }
        if ctx.flexible {
            encode_unsigned_varint(0, buf);
            proof {
                w = w + uvarint_bytes(0);
            }
            assert(buf@ =~= old(buf)@ + w);
        }
        Ok(())
    }

    fn decode_ctx(buf: &mut Reader, ctx: Ctx) -> (r: Result<Self, SerializationError>) {
        let name = if 1 <= ctx.version {
            buf.get_string(ctx.flexible)?
        } else {
            String::new()
        };
        let host = if 1 <= ctx.version {
            buf.get_string(ctx.flexible)?
        } else {
            String::new()
        };
        let port = if 1 <= ctx.version {
            buf.get_u16()?
        } else {
            0u16
        };
        if ctx.flexible {
            let (_tag_count, _) = decode_unsigned_varint(buf)?;
        }
        Ok(LeaderEndpoint { name, host, port })
    }
}

// -------------------------------------------------------
// PartitionData
// -------------------------------------------------------
#[derive(Clone, Debug, Default, PartialEq)]
pub struct PartitionData {
    /// The partition index.
    pub partition_index: i32,
    /// The directory id of the receiving replica.
    /// Available in version 1+.
    pub voter_directory_id: [u8; 16],
    /// The ID of the newly elected leader.
    pub leader_id: i32,
    /// The epoch of the newly elected leader.
    pub leader_epoch: i32,
}

/// The contents of `PartitionData`, with strings as characters and
/// nested values by their contents.
pub struct PartitionDataModel {
    pub partition_index: i32,
    pub voter_directory_id: Seq<u8>,
    pub leader_id: i32,
    pub leader_epoch: i32,
}

impl DeepView for PartitionData {
    type V = PartitionDataModel;

    open spec fn deep_view(&self) -> PartitionDataModel {
        PartitionDataModel {
            partition_index: self.partition_index,
            voter_directory_id: self.voter_directory_id@,
            leader_id: self.leader_id,
            leader_epoch: self.leader_epoch,
        }
    }
}

impl PartitionData {
    /// The encoding of the structure in context `ctx`.
    pub open spec fn spec_encode_body(m: PartitionDataModel, ctx: Ctx) -> Result<Seq<u8>, SerializationError> {
        let r = Ok(Seq::<u8>::empty());
        let r = then(r, Ok(i32_bytes(m.partition_index)));
        let r = if 1 <= ctx.version { then(r, Ok(m.voter_directory_id)) } else { r };
        let r = then(r, Ok(i32_bytes(m.leader_id)));
        let r = then(r, Ok(i32_bytes(m.leader_epoch)));
        let r = if ctx.flexible { then(r, Ok(uvarint_bytes(0))) } else { r };
        r
    }

    /// The structure read from `s` at `pos` in context `ctx`.
    pub open spec fn spec_decode_body(s: Seq<u8>, pos: int, ctx: Ctx) -> Result<(PartitionDataModel, int), SerializationError> {
        match parse_i32(s, pos) {
            Err(e) => Err(e),
            Ok((partition_index, pos)) =>
            match (if 1 <= ctx.version { parse_raw(s, pos, 16) } else { Ok((zero_uuid_bytes(), pos)) }) {
                Err(e) => Err(e),
                Ok((voter_directory_id, pos)) =>
                match parse_i32(s, pos) {
                    Err(e) => Err(e),
                    Ok((leader_id, pos)) =>
                    match parse_i32(s, pos) {
                        Err(e) => Err(e),
                        Ok((leader_epoch, pos)) =>
                        match (if ctx.flexible { parse_uvarint(s, pos) } else { Ok((0u64, pos)) }) {
                            Err(e) => Err(e),
                            Ok((_tag_count, pos)) =>
                            Ok((PartitionDataModel { partition_index, voter_directory_id, leader_id, leader_epoch }, pos))
                        }
                    }
                }
            }
        }
    }

    /// The structure as it reads back in context `ctx`: each field that the
    /// version leaves out is at its default.
    #[verifier::opaque]
    pub open spec fn spec_read_as(m: PartitionDataModel, ctx: Ctx) -> PartitionDataModel {
        PartitionDataModel { partition_index: m.partition_index, voter_directory_id: if 1 <= ctx.version { m.voter_directory_id } else { zero_uuid_bytes() }, leader_id: m.leader_id, leader_epoch: m.leader_epoch }
    }

    /// Values that read back in context `ctx`: nested values read back. A field
    /// that the version leaves out is read as its default.
    pub open spec fn reads_back_body(m: PartitionDataModel, ctx: Ctx) -> bool {
        &&& (1 <= ctx.version) ==> m.voter_directory_id.len() == 16
    }

    /// A value that can be written in context `ctx` and reads back: decoding its
    /// encoding, wherever it stands, gives the value as `spec_read_as` gives it and
    /// the position just after it.
    #[verifier::spinoff_prover]
    pub proof fn lemma_body_read_back(pre: Seq<u8>, m: PartitionDataModel, post: Seq<u8>, ctx: Ctx)
        requires
            Self::spec_encode_body(m, ctx) is Ok,
            Self::reads_back_body(m, ctx),
        ensures
            Self::spec_decode_body(pre + Self::spec_encode_body(m, ctx)->Ok_0 + post, pre.len() as int, ctx) == Ok::<(PartitionDataModel, int), SerializationError>((Self::spec_read_as(m, ctx), pre.len() as int + Self::spec_encode_body(m, ctx)->Ok_0.len())),
    {
        reveal(PartitionData::spec_read_as);
        let b0 = i32_bytes(m.partition_index);
        let b1 = if 1 <= ctx.version { m.voter_directory_id } else { Seq::<u8>::empty() };
        let b2 = i32_bytes(m.leader_id);
        let b3 = i32_bytes(m.leader_epoch);
        let b4 = if ctx.flexible { uvarint_bytes(0) } else { Seq::<u8>::empty() };
        let t5 = post;
        let t4 = b4 + t5;
        let t3 = b3 + t4;
        let t2 = b2 + t3;
        let t1 = b1 + t2;
        let t0 = b0 + t1;
        let e = Self::spec_encode_body(m, ctx)->Ok_0;
        assert(e =~= Seq::<u8>::empty() + b0 + b1 + b2 + b3 + b4);
        lemma_seq_assoc(((((Seq::<u8>::empty() + b0) + b1) + b2) + b3), b4, post);
        lemma_seq_assoc((((Seq::<u8>::empty() + b0) + b1) + b2), b3, (b4 + post));
        lemma_seq_assoc(((Seq::<u8>::empty() + b0) + b1), b2, (b3 + (b4 + post)));
        lemma_seq_assoc((Seq::<u8>::empty() + b0), b1, (b2 + (b3 + (b4 + post))));
        lemma_seq_assoc(Seq::<u8>::empty(), b0, (b1 + (b2 + (b3 + (b4 + post)))));
        lemma_seq_empty_left((b0 + (b1 + (b2 + (b3 + (b4 + post))))));
        let s = pre + e + post;
        lemma_seq_assoc(pre, e, post);
        assert(s == pre + t0);
        let a0 = pre;
        assert(parse_i32(s, a0.len() as int) == Ok::<(i32, int), SerializationError>((m.partition_index, a0.len() as int + b0.len()))) by {
            lemma_seq_assoc(a0, b0, t1);
            lemma_i32_roundtrip(a0, m.partition_index, t1);
        }
        lemma_seq_assoc(a0, b0, t1);
        let a1 = a0 + b0;
        if 1 <= ctx.version {
            assert(parse_raw(s, a1.len() as int, 16) == Ok::<(Seq<u8>, int), SerializationError>((m.voter_directory_id, a1.len() as int + b1.len()))) by {
                lemma_seq_assoc(a1, b1, t2);
                lemma_uuid_roundtrip(a1, m.voter_directory_id, t2);
            }
        }
        lemma_seq_assoc(a1, b1, t2);
        let a2 = a1 + b1;
        assert(parse_i32(s, a2.len() as int) == Ok::<(i32, int), SerializationError>((m.leader_id, a2.len() as int + b2.len()))) by {
            lemma_seq_assoc(a2, b2, t3);
            lemma_i32_roundtrip(a2, m.leader_id, t3);
        }
        lemma_seq_assoc(a2, b2, t3);
        let a3 = a2 + b2;
        assert(parse_i32(s, a3.len() as int) == Ok::<(i32, int), SerializationError>((m.leader_epoch, a3.len() as int + b3.len()))) by {
            lemma_seq_assoc(a3, b3, t4);
            lemma_i32_roundtrip(a3, m.leader_epoch, t4);
        }
        lemma_seq_assoc(a3, b3, t4);
        let a4 = a3 + b3;
        if ctx.flexible {
            assert(parse_uvarint(s, a4.len() as int) == Ok::<(u64, int), SerializationError>((0u64, a4.len() as int + b4.len()))) by {
                lemma_seq_assoc(a4, b4, t5);
                lemma_uvarint_roundtrip(a4, 0, t5);
            }
        }
    }

    /// The bytes written: the encoding of each field, in the order of the
    /// protocol's layout. Reading them back, wherever they stand, gives the value,
    /// with each field that the version leaves out at its default.
    #[verifier::spinoff_prover]
    pub proof fn lemma_body_layout(pre: Seq<u8>, m: PartitionDataModel, post: Seq<u8>, ctx: Ctx)
        requires
            Self::spec_encode_body(m, ctx) is Ok,
        ensures
            Self::spec_encode_body(m, ctx) == Ok::<Seq<u8>, SerializationError>((i32_bytes(m.partition_index)) + (if 1 <= ctx.version { m.voter_directory_id } else { Seq::<u8>::empty() }) + (i32_bytes(m.leader_id)) + (i32_bytes(m.leader_epoch)) + (if ctx.flexible { uvarint_bytes(0) } else { Seq::<u8>::empty() })),
            Self::reads_back_body(m, ctx) ==> Self::spec_decode_body(pre + ((i32_bytes(m.partition_index)) + (if 1 <= ctx.version { m.voter_directory_id } else { Seq::<u8>::empty() }) + (i32_bytes(m.leader_id)) + (i32_bytes(m.leader_epoch)) + (if ctx.flexible { uvarint_bytes(0) } else { Seq::<u8>::empty() })) + post, pre.len() as int, ctx) == Ok::<(PartitionDataModel, int), SerializationError>((PartitionDataModel { partition_index: m.partition_index, voter_directory_id: if 1 <= ctx.version { m.voter_directory_id } else { zero_uuid_bytes() }, leader_id: m.leader_id, leader_epoch: m.leader_epoch }, pre.len() as int + ((i32_bytes(m.partition_index)) + (if 1 <= ctx.version { m.voter_directory_id } else { Seq::<u8>::empty() }) + (i32_bytes(m.leader_id)) + (i32_bytes(m.leader_epoch)) + (if ctx.flexible { uvarint_bytes(0) } else { Seq::<u8>::empty() })).len())),
    {
        let b0 = i32_bytes(m.partition_index);
        let b1 = if 1 <= ctx.version { m.voter_directory_id } else { Seq::<u8>::empty() };
        let b2 = i32_bytes(m.leader_id);
        let b3 = i32_bytes(m.leader_epoch);
        let b4 = if ctx.flexible { uvarint_bytes(0) } else { Seq::<u8>::empty() };
        let e = Self::spec_encode_body(m, ctx)->Ok_0;
        assert(e =~= Seq::<u8>::empty() + b0 + b1 + b2 + b3 + b4);
        assert(e =~= b0 + b1 + b2 + b3 + b4);
        if Self::reads_back_body(m, ctx) {
            Self::lemma_body_read_back(pre, m, post, ctx);
            reveal(PartitionData::spec_read_as);
        }
    }

    /// Writing succeeds exactly when every field that the version carries can be
    /// encoded and every field that it leaves out, where leaving it out is an
    /// error, holds its default.
    #[verifier::spinoff_prover]
    pub proof fn lemma_body_write_succeeds(m: PartitionDataModel, ctx: Ctx)
        ensures
            Self::spec_encode_body(m, ctx) is Ok <==> true,
    {
    }

    /// Writes the structure for `version`, with the compact encodings when `is_flexible`.
    /// On failure the buffer is left as it was.
    pub fn encode(&self, buf: &mut Vec<u8>, version: ApiVersion, is_flexible: bool) -> (r: Result<(), SerializationError>)
        ensures
            write_exact(r, old(buf)@, final(buf)@, Self::spec_encode_body(self.deep_view(), Ctx { version: version.0, flexible: is_flexible, classic: false })),
    {
        let start = buf.len();
        let r = self.encode_ctx(buf, Ctx::new(version, is_flexible));
        if r.is_err() {
            buf.truncate(start);
        }
        r
    }

    /// Reads the structure as written for `version`.
    /// On failure the reader is put back where it started.
    pub fn decode(buf: &mut Reader, version: ApiVersion, is_flexible: bool) -> (r: Result<Self, SerializationError>)
        ensures
            final(buf).bytes() == old(buf).bytes(),
            read_view_exact(r, Self::spec_decode_body(old(buf).bytes(), old(buf).pos(), Ctx { version: version.0, flexible: is_flexible, classic: false }), old(buf).pos(), final(buf).pos()),
    {
        let start = buf.position();
        let r = Self::decode_ctx(buf, Ctx::new(version, is_flexible));
        if r.is_err() {
            buf.set_position(start);
        }
        r
    }
}

impl KafkaCodec for PartitionData {
    open spec fn spec_encode(m: PartitionDataModel, ctx: Ctx) -> Result<Seq<u8>, SerializationError> {
        Self::spec_encode_body(m, ctx)
    }

    open spec fn spec_decode(s: Seq<u8>, pos: int, ctx: Ctx) -> Result<(PartitionDataModel, int), SerializationError> {
        Self::spec_decode_body(s, pos, ctx)
    }

    open spec fn reads_back(v: PartitionDataModel, ctx: Ctx) -> bool {
        Self::reads_back_body(v, ctx) && Self::spec_read_as(v, ctx) == v
    }

    proof fn lemma_read_back(pre: Seq<u8>, v: PartitionDataModel, post: Seq<u8>, ctx: Ctx) {
        Self::lemma_body_read_back(pre, v, post, ctx);
        assert(Self::spec_decode(pre + Self::spec_encode(v, ctx)->Ok_0 + post, pre.len() as int, ctx)
            == Self::spec_decode_body(pre + Self::spec_encode_body(v, ctx)->Ok_0 + post, pre.len() as int, ctx));
    }

    fn encode_ctx(&self, buf: &mut Vec<u8>, ctx: Ctx) -> (r: Result<(), SerializationError>) {
        let ghost mut w: Seq<u8> = Seq::empty();
        put_i32(buf, self.partition_index);
        proof {
            w = w + i32_bytes(self.partition_index);
        }
        assert(buf@ =~= old(buf)@ + w);
        if 1 <= ctx.version {
            encode_uuid(&self.voter_directory_id, buf);
            proof {
                w = w + self.voter_directory_id@;
            }
            assert(buf@ =~= old(buf)@ + w);
        }
        put_i32(buf, self.leader_id);
        proof {
            w = w + i32_bytes(self.leader_id);
        }
        assert(buf@ =~= old(buf)@ + w);
        put_i32(buf, self.leader_epoch);
        proof {
            w = w + i32_bytes(self.leader_epoch);
        }
        assert(buf@ =~= old(buf)@ + w);
        if ctx.flexible {
            encode_unsigned_varint(0, buf);
            proof {
                w = w + uvarint_bytes(0);
            }
            assert(buf@ =~= old(buf)@ + w);
        }
        Ok(())
    }

    fn decode_ctx(buf: &mut Reader, ctx: Ctx) -> (r: Result<Self, SerializationError>) {
        let partition_index = buf.get_i32()?;
        let voter_directory_id = if 1 <= ctx.version {
            buf.get_uuid()?
        } else {
            zero_uuid()
        };
        let leader_id = buf.get_i32()?;
        let leader_epoch = buf.get_i32()?;
        if ctx.flexible {
            let (_tag_count, _) = decode_unsigned_varint(buf)?;
        }
        Ok(PartitionData { partition_index, voter_directory_id, leader_id, leader_epoch })
    }
}

// -------------------------------------------------------
// TopicData
// -------------------------------------------------------
#[derive(Clone, Debug, Default, PartialEq)]
pub struct TopicData {
    /// The topic name.
    pub topic_name: String,
    /// The partitions.
    pub partitions: Vec<PartitionData>,
}

/// The contents of `TopicData`, with strings as characters and
/// nested values by their contents.
pub struct TopicDataModel {
    pub topic_name: Seq<char>,
    pub partitions: Seq<<PartitionData as DeepView>::V>,
}

impl DeepView for TopicData {
    type V = TopicDataModel;

    open spec fn deep_view(&self) -> TopicDataModel {
        TopicDataModel {
            topic_name: self.topic_name.deep_view(),
            partitions: self.partitions.deep_view(),
        }
    }
}

impl TopicData {
    /// The encoding of the structure in context `ctx`.
    pub open spec fn spec_encode_body(m: TopicDataModel, ctx: Ctx) -> Result<Seq<u8>, SerializationError> {
        let r = Ok(Seq::<u8>::empty());
        let r = then(r, string_bytes(m.topic_name, ctx.flexible));
        let r = then(r, array_bytes::<PartitionData>(m.partitions, Ctx { version: ctx.version, flexible: ctx.flexible, classic: false }));
        let r = if ctx.flexible { then(r, Ok(uvarint_bytes(0))) } else { r };
        r
    }

    /// The structure read from `s` at `pos` in context `ctx`.
    pub open spec fn spec_decode_body(s: Seq<u8>, pos: int, ctx: Ctx) -> Result<(TopicDataModel, int), SerializationError> {
        match parse_string(s, pos, ctx.flexible) {
            Err(e) => Err(e),
            Ok((topic_name, pos)) =>
            match parse_array::<PartitionData>(s, pos, Ctx { version: ctx.version, flexible: ctx.flexible, classic: false }) {
                Err(e) => Err(e),
                Ok((partitions, pos)) =>
                match (if ctx.flexible { parse_uvarint(s, pos) } else { Ok((0u64, pos)) }) {
                    Err(e) => Err(e),
                    Ok((_tag_count, pos)) =>
                    Ok((TopicDataModel { topic_name, partitions }, pos))
                }
            }
        }
    }

    /// Values of the structure that read back from their encoding in `ctx`: every
    /// field that the version leaves out holds its default, and nested values
    /// read back.
    pub open spec fn reads_back_body(m: TopicDataModel, ctx: Ctx) -> bool {
        &&& forall|i: int| 0 <= i < m.partitions.len() ==> #[trigger] <PartitionData as KafkaCodec>::reads_back(m.partitions[i], Ctx { version: ctx.version, flexible: ctx.flexible, classic: false })
    }

    /// A value that can be written in `ctx` and reads back: decoding its encoding,
    /// wherever it stands, gives the value and the position just after it.
    #[verifier::spinoff_prover]
    pub proof fn lemma_body_read_back(pre: Seq<u8>, m: TopicDataModel, post: Seq<u8>, ctx: Ctx)
        requires
            Self::spec_encode_body(m, ctx) is Ok,
            Self::reads_back_body(m, ctx),
        ensures
            Self::spec_decode_body(pre + Self::spec_encode_body(m, ctx)->Ok_0 + post, pre.len() as int, ctx) == Ok::<(TopicDataModel, int), SerializationError>((m, pre.len() as int + Self::spec_encode_body(m, ctx)->Ok_0.len())),
    {
        let b0 = (string_bytes(m.topic_name, ctx.flexible))->Ok_0;
        let b1 = (array_bytes::<PartitionData>(m.partitions, Ctx { version: ctx.version, flexible: ctx.flexible, classic: false }))->Ok_0;
        let b2 = if ctx.flexible { uvarint_bytes(0) } else { Seq::<u8>::empty() };
        let t3 = post;
        let t2 = b2 + t3;
        let t1 = b1 + t2;
        let t0 = b0 + t1;
        let e = Self::spec_encode_body(m, ctx)->Ok_0;
        assert(e =~= Seq::<u8>::empty() + b0 + b1 + b2);
        lemma_seq_assoc(((Seq::<u8>::empty() + b0) + b1), b2, post);
        lemma_seq_assoc((Seq::<u8>::empty() + b0), b1, (b2 + post));
        lemma_seq_assoc(Seq::<u8>::empty(), b0, (b1 + (b2 + post)));
        lemma_seq_empty_left((b0 + (b1 + (b2 + post))));
        let s = pre + e + post;
        lemma_seq_assoc(pre, e, post);
        assert(s == pre + t0);
        let a0 = pre;
        assert(parse_string(s, a0.len() as int, ctx.flexible) == Ok::<(Seq<char>, int), SerializationError>((m.topic_name, a0.len() as int + b0.len()))) by {
            assert(string_bytes(m.topic_name, ctx.flexible) is Ok);
            lemma_seq_assoc(a0, b0, t1);
            lemma_string_roundtrip(a0, m.topic_name, t1, ctx.flexible);
        }
        lemma_seq_assoc(a0, b0, t1);
        let a1 = a0 + b0;
        assert(parse_array::<PartitionData>(s, a1.len() as int, Ctx { version: ctx.version, flexible: ctx.flexible, classic: false }) == Ok::<(Seq<<PartitionData as DeepView>::V>, int), SerializationError>((m.partitions, a1.len() as int + b1.len()))) by {
            assert(array_bytes::<PartitionData>(m.partitions, Ctx { version: ctx.version, flexible: ctx.flexible, classic: false }) is Ok);
            lemma_seq_assoc(a1, b1, t2);
            lemma_items_read_back::<PartitionData>(m.partitions, Ctx { version: ctx.version, flexible: ctx.flexible, classic: false });
            lemma_array_roundtrip::<PartitionData>(a1, m.partitions, t2, Ctx { version: ctx.version, flexible: ctx.flexible, classic: false });
        }
        lemma_seq_assoc(a1, b1, t2);
        let a2 = a1 + b1;
        if ctx.flexible {
            assert(parse_uvarint(s, a2.len() as int) == Ok::<(u64, int), SerializationError>((0u64, a2.len() as int + b2.len()))) by {
                lemma_seq_assoc(a2, b2, t3);
                lemma_uvarint_roundtrip(a2, 0, t3);
            }
        }
    }

    /// The bytes written: the encoding of each field, in the order of the
    /// protocol's layout. Reading them back, wherever they stand, gives the value,
    /// with each field that the version leaves out at its default.
    #[verifier::spinoff_prover]
    pub proof fn lemma_body_layout(pre: Seq<u8>, m: TopicDataModel, post: Seq<u8>, ctx: Ctx)
        requires
            Self::spec_encode_body(m, ctx) is Ok,
        ensures
            Self::spec_encode_body(m, ctx) == Ok::<Seq<u8>, SerializationError>(((string_bytes(m.topic_name, ctx.flexible))->Ok_0) + ((array_bytes::<PartitionData>(m.partitions, Ctx { version: ctx.version, flexible: ctx.flexible, classic: false }))->Ok_0) + (if ctx.flexible { uvarint_bytes(0) } else { Seq::<u8>::empty() })),
            Self::reads_back_body(m, ctx) ==> Self::spec_decode_body(pre + (((string_bytes(m.topic_name, ctx.flexible))->Ok_0) + ((array_bytes::<PartitionData>(m.partitions, Ctx { version: ctx.version, flexible: ctx.flexible, classic: false }))->Ok_0) + (if ctx.flexible { uvarint_bytes(0) } else { Seq::<u8>::empty() })) + post, pre.len() as int, ctx) == Ok::<(TopicDataModel, int), SerializationError>((m, pre.len() as int + (((string_bytes(m.topic_name, ctx.flexible))->Ok_0) + ((array_bytes::<PartitionData>(m.partitions, Ctx { version: ctx.version, flexible: ctx.flexible, classic: false }))->Ok_0) + (if ctx.flexible { uvarint_bytes(0) } else { Seq::<u8>::empty() })).len())),
    {
        let b0 = (string_bytes(m.topic_name, ctx.flexible))->Ok_0;
        let b1 = (array_bytes::<PartitionData>(m.partitions, Ctx { version: ctx.version, flexible: ctx.flexible, classic: false }))->Ok_0;
        let b2 = if ctx.flexible { uvarint_bytes(0) } else { Seq::<u8>::empty() };
        let e = Self::spec_encode_body(m, ctx)->Ok_0;
        assert(e =~= Seq::<u8>::empty() + b0 + b1 + b2);
        assert(e =~= b0 + b1 + b2);
        if Self::reads_back_body(m, ctx) {
            Self::lemma_body_read_back(pre, m, post, ctx);
        }
    }

    /// Writing succeeds exactly when every field that the version carries can be
    /// encoded and every field that it leaves out, where leaving it out is an
    /// error, holds its default.
    #[verifier::spinoff_prover]
    pub proof fn lemma_body_write_succeeds(m: TopicDataModel, ctx: Ctx)
        ensures
            Self::spec_encode_body(m, ctx) is Ok <==> (string_bytes(m.topic_name, ctx.flexible) is Ok) && (array_bytes::<PartitionData>(m.partitions, Ctx { version: ctx.version, flexible: ctx.flexible, classic: false }) is Ok),
    {
    }

    /// Writes the structure for `version`, with the compact encodings when `is_flexible`.
    /// On failure the buffer is left as it was.
    pub fn encode(&self, buf: &mut Vec<u8>, version: ApiVersion, is_flexible: bool) -> (r: Result<(), SerializationError>)
        ensures
            write_exact(r, old(buf)@, final(buf)@, Self::spec_encode_body(self.deep_view(), Ctx { version: version.0, flexible: is_flexible, classic: false })),
    {
        let start = buf.len();
        let r = self.encode_ctx(buf, Ctx::new(version, is_flexible));
        if r.is_err() {
            buf.truncate(start);
        }
        r
    }

    /// Reads the structure as written for `version`.
    /// On failure the reader is put back where it started.
    pub fn decode(buf: &mut Reader, version: ApiVersion, is_flexible: bool) -> (r: Result<Self, SerializationError>)
        ensures
            final(buf).bytes() == old(buf).bytes(),
            read_view_exact(r, Self::spec_decode_body(old(buf).bytes(), old(buf).pos(), Ctx { version: version.0, flexible: is_flexible, classic: false }), old(buf).pos(), final(buf).pos()),
    {
        let start = buf.position();
        let r = Self::decode_ctx(buf, Ctx::new(version, is_flexible));
        if r.is_err() {
            buf.set_position(start);
        }
        r
    }
}

impl KafkaCodec for TopicData {
    open spec fn spec_encode(m: TopicDataModel, ctx: Ctx) -> Result<Seq<u8>, SerializationError> {
        Self::spec_encode_body(m, ctx)
    }

    open spec fn spec_decode(s: Seq<u8>, pos: int, ctx: Ctx) -> Result<(TopicDataModel, int), SerializationError> {
        Self::spec_decode_body(s, pos, ctx)
    }

    open spec fn reads_back(v: TopicDataModel, ctx: Ctx) -> bool {
        Self::reads_back_body(v, ctx)
    }

    proof fn lemma_read_back(pre: Seq<u8>, v: TopicDataModel, post: Seq<u8>, ctx: Ctx) {
        Self::lemma_body_read_back(pre, v, post, ctx);
        assert(Self::spec_decode(pre + Self::spec_encode(v, ctx)->Ok_0 + post, pre.len() as int, ctx)
            == Self::spec_decode_body(pre + Self::spec_encode_body(v, ctx)->Ok_0 + post, pre.len() as int, ctx));
    }

    fn encode_ctx(&self, buf: &mut Vec<u8>, ctx: Ctx) -> (r: Result<(), SerializationError>) {
        let ghost mut w: Seq<u8> = Seq::empty();
        encode_string(&self.topic_name, buf, ctx.flexible)?;
        proof {
            w = w + (string_bytes(self.topic_name.deep_view(), ctx.flexible))->Ok_0;
        }
        assert(buf@ =~= old(buf)@ + w);
        encode_array(&self.partitions, buf, Ctx { version: ctx.version, flexible: ctx.flexible, classic: false })?;
        proof {
            w = w + (array_bytes::<PartitionData>(self.partitions.deep_view(), Ctx { version: ctx.version, flexible: ctx.flexible, classic: false }))->Ok_0;
        }
        assert(buf@ =~= old(buf)@ + w);
        if ctx.flexible {
            encode_unsigned_varint(0, buf);
            proof {
                w = w + uvarint_bytes(0);
            }
            assert(buf@ =~= old(buf)@ + w);
        }
        Ok(())
    }

    fn decode_ctx(buf: &mut Reader, ctx: Ctx) -> (r: Result<Self, SerializationError>) {
        let topic_name = buf.get_string(ctx.flexible)?;
        let partitions = decode_array::<PartitionData>(buf, Ctx { version: ctx.version, flexible: ctx.flexible, classic: false })?;
        if ctx.flexible {
            let (_tag_count, _) = decode_unsigned_varint(buf)?;
        }
        Ok(TopicData { topic_name, partitions })
    }
}

} // verus!
