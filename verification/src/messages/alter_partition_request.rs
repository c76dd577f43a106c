//! AlterPartitionRequest (API key 56).
use vstd::prelude::*;
use crate::roundtrip::{lemma_array_roundtrip, lemma_i32_roundtrip, lemma_i64_roundtrip,
    lemma_i8_roundtrip, lemma_items_read_back, lemma_seq_assoc, lemma_seq_empty_left,
    lemma_uuid_roundtrip, lemma_uvarint_roundtrip};
use crate::serialization::{Ctx, KafkaCodec, Reader, SerializationError, array_bytes, decode_array,
    decode_unsigned_varint, encode_array, encode_unsigned_varint, encode_uuid, i32_bytes,
    i64_bytes, i8_bytes, new_array, parse_array, parse_i32, parse_i64, parse_i8, parse_raw,
    parse_uvarint, put_i32, put_i64, put_i8, read_view_exact, read_view_ok, then, uvarint_bytes,
    write_exact, write_ok, zero_uuid, zero_uuid_bytes};
use crate::{ApiKey, ApiVersion};

verus! {

// -------------------------------------------------------
// AlterPartitionRequest
// -------------------------------------------------------
#[derive(Clone, Debug, PartialEq)]
pub struct AlterPartitionRequest {
    /// The ID of the requesting broker.
    pub broker_id: i32,
    /// The epoch of the requesting broker.
    pub broker_epoch: i64,
    /// The topics to alter ISRs for.
    pub topics: Vec<TopicData>,
}

/// The contents of `AlterPartitionRequest`, with strings as characters and
/// nested values by their contents.
pub struct AlterPartitionRequestModel {
    pub broker_id: i32,
    pub broker_epoch: i64,
    pub topics: Seq<<TopicData as DeepView>::V>,
}

impl DeepView for AlterPartitionRequest {
    type V = AlterPartitionRequestModel;

    open spec fn deep_view(&self) -> AlterPartitionRequestModel {
        AlterPartitionRequestModel {
            broker_id: self.broker_id,
            broker_epoch: self.broker_epoch,
            topics: self.topics.deep_view(),
        }
    }
}

impl Default for AlterPartitionRequest {
    fn default() -> (r: AlterPartitionRequest)
        ensures
            r.broker_id == 0i32,
            r.broker_epoch == -1i64,
            r.topics@.len() == 0,
    {
        AlterPartitionRequest {
            broker_id: 0i32,
            broker_epoch: -1i64,
            topics: Vec::new(),
        }
    }
}

impl AlterPartitionRequest {
    /// The encoding of the structure in context `ctx`.
    pub open spec fn spec_encode_body(m: AlterPartitionRequestModel, ctx: Ctx) -> Result<Seq<u8>, SerializationError> {
        let r = Ok(Seq::<u8>::empty());
        let r = then(r, Ok(i32_bytes(m.broker_id)));
        let r = then(r, Ok(i64_bytes(m.broker_epoch)));
        let r = then(r, array_bytes::<TopicData>(m.topics, Ctx { version: ctx.version, flexible: ctx.flexible, classic: false }));
        let r = if ctx.flexible { then(r, Ok(uvarint_bytes(0))) } else { r };
        r
    }

    /// The structure read from `s` at `pos` in context `ctx`.
    pub open spec fn spec_decode_body(s: Seq<u8>, pos: int, ctx: Ctx) -> Result<(AlterPartitionRequestModel, int), SerializationError> {
        match parse_i32(s, pos) {
            Err(e) => Err(e),
            Ok((broker_id, pos)) =>
            match parse_i64(s, pos) {
                Err(e) => Err(e),
                Ok((broker_epoch, pos)) =>
                match parse_array::<TopicData>(s, pos, Ctx { version: ctx.version, flexible: ctx.flexible, classic: false }) {
                    Err(e) => Err(e),
                    Ok((topics, pos)) =>
                    match (if ctx.flexible { parse_uvarint(s, pos) } else { Ok((0u64, pos)) }) {
                        Err(e) => Err(e),
                        Ok((_tag_count, pos)) =>
                        Ok((AlterPartitionRequestModel { broker_id, broker_epoch, topics }, pos))
                    }
                }
            }
        }
    }

    /// Values of the structure that read back from their encoding in `ctx`: every
    /// field that the version leaves out holds its default, and nested values
    /// read back.
    pub open spec fn reads_back_body(m: AlterPartitionRequestModel, ctx: Ctx) -> bool {
        &&& forall|i: int| 0 <= i < m.topics.len() ==> #[trigger] <TopicData as KafkaCodec>::reads_back(m.topics[i], Ctx { version: ctx.version, flexible: ctx.flexible, classic: false })
    }

    /// A value that can be written in `ctx` and reads back: decoding its encoding,
    /// wherever it stands, gives the value and the position just after it.
    #[verifier::spinoff_prover]
    pub proof fn lemma_body_read_back(pre: Seq<u8>, m: AlterPartitionRequestModel, post: Seq<u8>, ctx: Ctx)
        requires
            Self::spec_encode_body(m, ctx) is Ok,
            Self::reads_back_body(m, ctx),
        ensures
            Self::spec_decode_body(pre + Self::spec_encode_body(m, ctx)->Ok_0 + post, pre.len() as int, ctx) == Ok::<(AlterPartitionRequestModel, int), SerializationError>((m, pre.len() as int + Self::spec_encode_body(m, ctx)->Ok_0.len())),
    {
        let b0 = i32_bytes(m.broker_id);
        let b1 = i64_bytes(m.broker_epoch);
        let b2 = (array_bytes::<TopicData>(m.topics, Ctx { version: ctx.version, flexible: ctx.flexible, classic: false }))->Ok_0;
        let b3 = if ctx.flexible { uvarint_bytes(0) } else { Seq::<u8>::empty() };
        let t4 = post;
        let t3 = b3 + t4;
        let t2 = b2 + t3;
        let t1 = b1 + t2;
        let t0 = b0 + t1;
        let e = Self::spec_encode_body(m, ctx)->Ok_0;
        assert(e =~= Seq::<u8>::empty() + b0 + b1 + b2 + b3);
        lemma_seq_assoc((((Seq::<u8>::empty() + b0) + b1) + b2), b3, post);
        lemma_seq_assoc(((Seq::<u8>::empty() + b0) + b1), b2, (b3 + post));
        lemma_seq_assoc((Seq::<u8>::empty() + b0), b1, (b2 + (b3 + post)));
        lemma_seq_assoc(Seq::<u8>::empty(), b0, (b1 + (b2 + (b3 + post))));
        lemma_seq_empty_left((b0 + (b1 + (b2 + (b3 + post)))));
        let s = pre + e + post;
        lemma_seq_assoc(pre, e, post);
        assert(s == pre + t0);
        let a0 = pre;
        assert(parse_i32(s, a0.len() as int) == Ok::<(i32, int), SerializationError>((m.broker_id, a0.len() as int + b0.len()))) by {
            lemma_seq_assoc(a0, b0, t1);
            lemma_i32_roundtrip(a0, m.broker_id, t1);
        }
        lemma_seq_assoc(a0, b0, t1);
        let a1 = a0 + b0;
        assert(parse_i64(s, a1.len() as int) == Ok::<(i64, int), SerializationError>((m.broker_epoch, a1.len() as int + b1.len()))) by {
            lemma_seq_assoc(a1, b1, t2);
            lemma_i64_roundtrip(a1, m.broker_epoch, t2);
        }
        lemma_seq_assoc(a1, b1, t2);
        let a2 = a1 + b1;
        assert(parse_array::<TopicData>(s, a2.len() as int, Ctx { version: ctx.version, flexible: ctx.flexible, classic: false }) == Ok::<(Seq<<TopicData as DeepView>::V>, int), SerializationError>((m.topics, a2.len() as int + b2.len()))) by {
            assert(array_bytes::<TopicData>(m.topics, Ctx { version: ctx.version, flexible: ctx.flexible, classic: false }) is Ok);
            lemma_seq_assoc(a2, b2, t3);
            lemma_items_read_back::<TopicData>(m.topics, Ctx { version: ctx.version, flexible: ctx.flexible, classic: false });
            lemma_array_roundtrip::<TopicData>(a2, m.topics, t3, Ctx { version: ctx.version, flexible: ctx.flexible, classic: false });
        }
        lemma_seq_assoc(a2, b2, t3);
        let a3 = a2 + b2;
        if ctx.flexible {
            assert(parse_uvarint(s, a3.len() as int) == Ok::<(u64, int), SerializationError>((0u64, a3.len() as int + b3.len()))) by {
                lemma_seq_assoc(a3, b3, t4);
                lemma_uvarint_roundtrip(a3, 0, t4);
            }
        }
    }

    /// The bytes written: the encoding of each field, in the order of the
    /// protocol's layout. Reading them back, wherever they stand, gives the value,
    /// with each field that the version leaves out at its default.
    #[verifier::spinoff_prover]
    pub proof fn lemma_body_layout(pre: Seq<u8>, m: AlterPartitionRequestModel, post: Seq<u8>, ctx: Ctx)
        requires
            Self::spec_encode_body(m, ctx) is Ok,
        ensures
            Self::spec_encode_body(m, ctx) == Ok::<Seq<u8>, SerializationError>((i32_bytes(m.broker_id)) + (i64_bytes(m.broker_epoch)) + ((array_bytes::<TopicData>(m.topics, Ctx { version: ctx.version, flexible: ctx.flexible, classic: false }))->Ok_0) + (if ctx.flexible { uvarint_bytes(0) } else { Seq::<u8>::empty() })),
            Self::reads_back_body(m, ctx) ==> Self::spec_decode_body(pre + ((i32_bytes(m.broker_id)) + (i64_bytes(m.broker_epoch)) + ((array_bytes::<TopicData>(m.topics, Ctx { version: ctx.version, flexible: ctx.flexible, classic: false }))->Ok_0) + (if ctx.flexible { uvarint_bytes(0) } else { Seq::<u8>::empty() })) + post, pre.len() as int, ctx) == Ok::<(AlterPartitionRequestModel, int), SerializationError>((m, pre.len() as int + ((i32_bytes(m.broker_id)) + (i64_bytes(m.broker_epoch)) + ((array_bytes::<TopicData>(m.topics, Ctx { version: ctx.version, flexible: ctx.flexible, classic: false }))->Ok_0) + (if ctx.flexible { uvarint_bytes(0) } else { Seq::<u8>::empty() })).len())),
    {
        let b0 = i32_bytes(m.broker_id);
        let b1 = i64_bytes(m.broker_epoch);
        let b2 = (array_bytes::<TopicData>(m.topics, Ctx { version: ctx.version, flexible: ctx.flexible, classic: false }))->Ok_0;
        let b3 = if ctx.flexible { uvarint_bytes(0) } else { Seq::<u8>::empty() };
        let e = Self::spec_encode_body(m, ctx)->Ok_0;
        assert(e =~= Seq::<u8>::empty() + b0 + b1 + b2 + b3);
        assert(e =~= b0 + b1 + b2 + b3);
        if Self::reads_back_body(m, ctx) {
            Self::lemma_body_read_back(pre, m, post, ctx);
        }
    }

    /// Writing succeeds exactly when every field that the version carries can be
    /// encoded and every field that it leaves out, where leaving it out is an
    /// error, holds its default.
    #[verifier::spinoff_prover]
    pub proof fn lemma_body_write_succeeds(m: AlterPartitionRequestModel, ctx: Ctx)
        ensures
            Self::spec_encode_body(m, ctx) is Ok <==> (array_bytes::<TopicData>(m.topics, Ctx { version: ctx.version, flexible: ctx.flexible, classic: false }) is Ok),
    {
    }

    /// Writes the structure for `version`, with the compact encodings when `is_flexible`.
    /// On failure the buffer is left as it was.
    pub fn encode(&self, buf: &mut Vec<u8>, version: ApiVersion, is_flexible: bool) -> (r: Result<(), SerializationError>)
        ensures
            write_exact(r, old(buf)@, final(buf)@, Self::spec_encode_body(self.deep_view(), Ctx { version: version.0, flexible: is_flexible, classic: false })),
    {
        let start = buf.len();
        let r = self.encode_ctx(buf, Ctx::new(version, is_flexible));
        if r.is_err() {
            buf.truncate(start);
        }
        r
    }

    /// Reads the structure as written for `version`.
    /// On failure the reader is put back where it started.
    pub fn decode(buf: &mut Reader, version: ApiVersion, is_flexible: bool) -> (r: Result<Self, SerializationError>)
        ensures
            final(buf).bytes() == old(buf).bytes(),
            read_view_exact(r, Self::spec_decode_body(old(buf).bytes(), old(buf).pos(), Ctx { version: version.0, flexible: is_flexible, classic: false }), old(buf).pos(), final(buf).pos()),
    {
        let start = buf.position();
        let r = Self::decode_ctx(buf, Ctx::new(version, is_flexible));
        if r.is_err() {
            buf.set_position(start);
        }
        r
    }
}

impl KafkaCodec for AlterPartitionRequest {
    open spec fn spec_encode(m: AlterPartitionRequestModel, ctx: Ctx) -> Result<Seq<u8>, SerializationError> {
        Self::spec_encode_body(m, ctx)
    }

    open spec fn spec_decode(s: Seq<u8>, pos: int, ctx: Ctx) -> Result<(AlterPartitionRequestModel, int), SerializationError> {
        Self::spec_decode_body(s, pos, ctx)
    }

    open spec fn reads_back(v: AlterPartitionRequestModel, ctx: Ctx) -> bool {
        Self::reads_back_body(v, ctx)
    }

    proof fn lemma_read_back(pre: Seq<u8>, v: AlterPartitionRequestModel, post: Seq<u8>, ctx: Ctx) {
        Self::lemma_body_read_back(pre, v, post, ctx);
        assert(Self::spec_decode(pre + Self::spec_encode(v, ctx)->Ok_0 + post, pre.len() as int, ctx)
            == Self::spec_decode_body(pre + Self::spec_encode_body(v, ctx)->Ok_0 + post, pre.len() as int, ctx));
    }

    fn encode_ctx(&self, buf: &mut Vec<u8>, ctx: Ctx) -> (r: Result<(), SerializationError>) {
        let ghost mut w: Seq<u8> = Seq::empty();
        put_i32(buf, self.broker_id);
        proof {
            w = w + i32_bytes(self.broker_id);
        }
        assert(buf@ =~= old(buf)@ + w);
        put_i64(buf, self.broker_epoch);
        proof {
            w = w + i64_bytes(self.broker_epoch);
        }
        assert(buf@ =~= old(buf)@ + w);
        encode_array(&self.topics, buf, Ctx { version: ctx.version, flexible: ctx.flexible, classic: false })?;
        proof {
            w = w + (array_bytes::<TopicData>(self.topics.deep_view(), Ctx { version: ctx.version, flexible: ctx.flexible, classic: false }))->Ok_0;
        }
        assert(buf@ =~= old(buf)@ + w);
        if ctx.flexible {
            encode_unsigned_varint(0, buf);
            proof {
                w = w + uvarint_bytes(0);
            }
            assert(buf@ =~= old(buf)@ + w);
        }
        Ok(())
    }

    fn decode_ctx(buf: &mut Reader, ctx: Ctx) -> (r: Result<Self, SerializationError>) {
        let broker_id = buf.get_i32()?;
        let broker_epoch = buf.get_i64()?;
        let topics = decode_array::<TopicData>(buf, Ctx { version: ctx.version, flexible: ctx.flexible, classic: false })?;
        if ctx.flexible {
            let (_tag_count, _) = decode_unsigned_varint(buf)?;
        }
        Ok(AlterPartitionRequest { broker_id, broker_epoch, topics })
    }
}

impl AlterPartitionRequest {
    /// The API key of this message.
    pub fn get_api_key() -> (r: ApiKey)
        ensures
            r.0 == 56,
    {
        ApiKey::new(56)
    }

    /// The oldest version of this message.
    pub fn get_min_supported_version() -> (r: ApiVersion)
        ensures
            r.0 == 2,
    {
        ApiVersion::new(2)
    }

    /// The newest version of this message.
    pub fn get_max_supported_version() -> (r: ApiVersion)
        ensures
            r.0 == 3,
    {
        ApiVersion::new(3)
    }

    /// The first version of this message with the compact encodings.
    pub fn get_min_flexible_version() -> (r: ApiVersion)
        ensures
            r.0 == 0,
    {
        ApiVersion::new(0)
    }

    /// The encoding of a whole message body at `version`.
    pub open spec fn spec_serialize(m: AlterPartitionRequestModel, version: i16) -> Result<Seq<u8>, SerializationError> {
        let is_flexible = version >= 0;
        let ctx = Ctx { version, flexible: is_flexible, classic: false };
        let r = Ok(Seq::<u8>::empty());
        let r = then(r, Ok(i32_bytes(m.broker_id)));
        let r = then(r, Ok(i64_bytes(m.broker_epoch)));
        let r = then(r, array_bytes::<TopicData>(m.topics, Ctx { version: ctx.version, flexible: ctx.flexible, classic: false }));
        let r = if ctx.flexible { then(r, Ok(uvarint_bytes(0))) } else { r };
        r
    }

    /// The message body read at `version`.
    pub open spec fn spec_deserialize(s: Seq<u8>, pos: int, version: i16) -> Result<(AlterPartitionRequestModel, int), SerializationError> {
        let is_flexible = version >= 0;
        let ctx = Ctx { version, flexible: is_flexible, classic: false };
        match parse_i32(s, pos) {
            Err(e) => Err(e),
            Ok((broker_id, pos)) =>
            match parse_i64(s, pos) {
                Err(e) => Err(e),
                Ok((broker_epoch, pos)) =>
                match parse_array::<TopicData>(s, pos, Ctx { version: ctx.version, flexible: ctx.flexible, classic: false }) {
                    Err(e) => Err(e),
                    Ok((topics, pos)) =>
                    match (if ctx.flexible { parse_uvarint(s, pos) } else { Ok((0u64, pos)) }) {
                        Err(e) => Err(e),
                        Ok((_tag_count, pos)) =>
                        Ok((AlterPartitionRequestModel { broker_id, broker_epoch, topics }, pos))
                    }
                }
            }
        }
    }

    /// Message bodies that read back when written at `version`: every field that
    /// the version leaves out holds its default, and nested values read back.
    pub open spec fn reads_back_message(m: AlterPartitionRequestModel, version: i16) -> bool {
        let is_flexible = version >= 0;
        let ctx = Ctx { version, flexible: is_flexible, classic: false };
        &&& forall|i: int| 0 <= i < m.topics.len() ==> #[trigger] <TopicData as KafkaCodec>::reads_back(m.topics[i], Ctx { version: ctx.version, flexible: ctx.flexible, classic: false })
    }

    /// A message body that can be written at `version` and reads back: reading a
    /// body at `version` from its bytes, wherever they stand, gives the same message.
    #[verifier::spinoff_prover]
    pub proof fn lemma_message_read_back(pre: Seq<u8>, m: AlterPartitionRequestModel, post: Seq<u8>, version: i16)
        requires
            Self::spec_serialize(m, version) is Ok,
            Self::reads_back_message(m, version),
        ensures
            Self::spec_deserialize(pre + Self::spec_serialize(m, version)->Ok_0 + post, pre.len() as int, version) == Ok::<(AlterPartitionRequestModel, int), SerializationError>((m, pre.len() as int + Self::spec_serialize(m, version)->Ok_0.len())),
    {
        let is_flexible = version >= 0;
        let ctx = Ctx { version, flexible: is_flexible, classic: false };
        let b0 = i32_bytes(m.broker_id);
        let b1 = i64_bytes(m.broker_epoch);
        let b2 = (array_bytes::<TopicData>(m.topics, Ctx { version: ctx.version, flexible: ctx.flexible, classic: false }))->Ok_0;
        let b3 = if ctx.flexible { uvarint_bytes(0) } else { Seq::<u8>::empty() };
        let t4 = post;
        let t3 = b3 + t4;
        let t2 = b2 + t3;
        let t1 = b1 + t2;
        let t0 = b0 + t1;
        let e = Self::spec_serialize(m, version)->Ok_0;
        assert(e =~= Seq::<u8>::empty() + b0 + b1 + b2 + b3);
        lemma_seq_assoc((((Seq::<u8>::empty() + b0) + b1) + b2), b3, post);
        lemma_seq_assoc(((Seq::<u8>::empty() + b0) + b1), b2, (b3 + post));
        lemma_seq_assoc((Seq::<u8>::empty() + b0), b1, (b2 + (b3 + post)));
        lemma_seq_assoc(Seq::<u8>::empty(), b0, (b1 + (b2 + (b3 + post))));
        lemma_seq_empty_left((b0 + (b1 + (b2 + (b3 + post)))));
        let s = pre + e + post;
        lemma_seq_assoc(pre, e, post);
        assert(s == pre + t0);
        let a0 = pre;
        assert(parse_i32(s, a0.len() as int) == Ok::<(i32, int), SerializationError>((m.broker_id, a0.len() as int + b0.len()))) by {
            lemma_seq_assoc(a0, b0, t1);
            lemma_i32_roundtrip(a0, m.broker_id, t1);
        }
        lemma_seq_assoc(a0, b0, t1);
        let a1 = a0 + b0;
        assert(parse_i64(s, a1.len() as int) == Ok::<(i64, int), SerializationError>((m.broker_epoch, a1.len() as int + b1.len()))) by {
            lemma_seq_assoc(a1, b1, t2);
            lemma_i64_roundtrip(a1, m.broker_epoch, t2);
        }
        lemma_seq_assoc(a1, b1, t2);
        let a2 = a1 + b1;
        assert(parse_array::<TopicData>(s, a2.len() as int, Ctx { version: ctx.version, flexible: ctx.flexible, classic: false }) == Ok::<(Seq<<TopicData as DeepView>::V>, int), SerializationError>((m.topics, a2.len() as int + b2.len()))) by {
            assert(array_bytes::<TopicData>(m.topics, Ctx { version: ctx.version, flexible: ctx.flexible, classic: false }) is Ok);
            lemma_seq_assoc(a2, b2, t3);
            lemma_items_read_back::<TopicData>(m.topics, Ctx { version: ctx.version, flexible: ctx.flexible, classic: false });
            lemma_array_roundtrip::<TopicData>(a2, m.topics, t3, Ctx { version: ctx.version, flexible: ctx.flexible, classic: false });
        }
        lemma_seq_assoc(a2, b2, t3);
        let a3 = a2 + b2;
        if ctx.flexible {
            assert(parse_uvarint(s, a3.len() as int) == Ok::<(u64, int), SerializationError>((0u64, a3.len() as int + b3.len()))) by {
                lemma_seq_assoc(a3, b3, t4);
                lemma_uvarint_roundtrip(a3, 0, t4);
            }
        }
    }

    /// The bytes written: the encoding of each field, in the order of the
    /// protocol's layout. Reading them back, wherever they stand, gives the value,
    /// with each field that the version leaves out at its default.
    #[verifier::spinoff_prover]
    pub proof fn lemma_message_layout(pre: Seq<u8>, m: AlterPartitionRequestModel, post: Seq<u8>, version: i16)
        requires
            Self::spec_serialize(m, version) is Ok,
        ensures
            Self::spec_serialize(m, version) == Ok::<Seq<u8>, SerializationError>((i32_bytes(m.broker_id)) + (i64_bytes(m.broker_epoch)) + ((array_bytes::<TopicData>(m.topics, Ctx { version: version, flexible: (version >= 0), classic: false }))->Ok_0) + (if (version >= 0) { uvarint_bytes(0) } else { Seq::<u8>::empty() })),
            Self::reads_back_message(m, version) ==> Self::spec_deserialize(pre + ((i32_bytes(m.broker_id)) + (i64_bytes(m.broker_epoch)) + ((array_bytes::<TopicData>(m.topics, Ctx { version: version, flexible: (version >= 0), classic: false }))->Ok_0) + (if (version >= 0) { uvarint_bytes(0) } else { Seq::<u8>::empty() })) + post, pre.len() as int, version) == Ok::<(AlterPartitionRequestModel, int), SerializationError>((m, pre.len() as int + ((i32_bytes(m.broker_id)) + (i64_bytes(m.broker_epoch)) + ((array_bytes::<TopicData>(m.topics, Ctx { version: version, flexible: (version >= 0), classic: false }))->Ok_0) + (if (version >= 0) { uvarint_bytes(0) } else { Seq::<u8>::empty() })).len())),
    {
        let is_flexible = version >= 0;
        let ctx = Ctx { version, flexible: is_flexible, classic: false };
        let b0 = i32_bytes(m.broker_id);
        let b1 = i64_bytes(m.broker_epoch);
        let b2 = (array_bytes::<TopicData>(m.topics, Ctx { version: ctx.version, flexible: ctx.flexible, classic: false }))->Ok_0;
        let b3 = if ctx.flexible { uvarint_bytes(0) } else { Seq::<u8>::empty() };
        let e = Self::spec_serialize(m, version)->Ok_0;
        assert(e =~= Seq::<u8>::empty() + b0 + b1 + b2 + b3);
        assert(e =~= b0 + b1 + b2 + b3);
        if Self::reads_back_message(m, version) {
            Self::lemma_message_read_back(pre, m, post, version);
        }
    }

    /// Writing succeeds exactly when every field that the version carries can be
    /// encoded and every field that it leaves out, where leaving it out is an
    /// error, holds its default.
    #[verifier::spinoff_prover]
    pub proof fn lemma_message_write_succeeds(m: AlterPartitionRequestModel, version: i16)
        ensures
            Self::spec_serialize(m, version) is Ok <==> (array_bytes::<TopicData>(m.topics, Ctx { version: version, flexible: (version >= 0), classic: false }) is Ok),
    {
        let is_flexible = version >= 0;
        let ctx = Ctx { version, flexible: is_flexible, classic: false };
    }

    /// Writes the message body for `version`, which must be a supported version.
    /// On failure the buffer is left as it was.
    pub fn serialize(&self, version: ApiVersion, buf: &mut Vec<u8>) -> (r: Result<(), SerializationError>)
        requires
            2 <= version.0 <= 3,
        ensures
            write_exact(r, old(buf)@, final(buf)@, Self::spec_serialize(self.deep_view(), version.0)),
    {
        let start = buf.len();
        let r = self.write_body(version, buf);
        if r.is_err() {
            buf.truncate(start);
        }
        r
    }

    fn write_body(&self, version: ApiVersion, buf: &mut Vec<u8>) -> (r: Result<(), SerializationError>)
        requires
            2 <= version.0 <= 3,
        ensures
            write_ok(r, old(buf)@, final(buf)@, Self::spec_serialize(self.deep_view(), version.0)),
    {
        let is_flexible = version.0 >= Self::get_min_flexible_version().0;
        let ctx = Ctx::new(version, is_flexible);
        let ghost mut w: Seq<u8> = Seq::empty();
        put_i32(buf, self.broker_id);
        proof {
            w = w + i32_bytes(self.broker_id);
        }
        assert(buf@ =~= old(buf)@ + w);
        put_i64(buf, self.broker_epoch);
        proof {
            w = w + i64_bytes(self.broker_epoch);
        }
        assert(buf@ =~= old(buf)@ + w);
        encode_array(&self.topics, buf, Ctx { version: ctx.version, flexible: ctx.flexible, classic: false })?;
        proof {
            w = w + (array_bytes::<TopicData>(self.topics.deep_view(), Ctx { version: ctx.version, flexible: ctx.flexible, classic: false }))->Ok_0;
        }
        assert(buf@ =~= old(buf)@ + w);
        if ctx.flexible {
            encode_unsigned_varint(0, buf);
            proof {
                w = w + uvarint_bytes(0);
            }
            assert(buf@ =~= old(buf)@ + w);
        }
        Ok(())
    }

    /// Reads a message body written for `version`.
    /// On failure the reader is put back where it started.
    pub fn deserialize(version: ApiVersion, buf: &mut Reader) -> (r: Result<Self, SerializationError>)
        ensures
            final(buf).bytes() == old(buf).bytes(),
            read_view_exact(r, Self::spec_deserialize(old(buf).bytes(), old(buf).pos(), version.0), old(buf).pos(), final(buf).pos()),
    {
        let start = buf.position();
        let r = Self::read_body(version, buf);
        if r.is_err() {
            buf.set_position(start);
        }
        r
    }

    fn read_body(version: ApiVersion, buf: &mut Reader) -> (r: Result<Self, SerializationError>)
        ensures
            final(buf).bytes() == old(buf).bytes(),
            read_view_ok(r, Self::spec_deserialize(old(buf).bytes(), old(buf).pos(), version.0), final(buf).pos()),
    {
        let is_flexible = version.0 >= Self::get_min_flexible_version().0;
        let ctx = Ctx::new(version, is_flexible);
        let broker_id = buf.get_i32()?;
        let broker_epoch = buf.get_i64()?;
        let topics = decode_array::<TopicData>(buf, Ctx { version: ctx.version, flexible: ctx.flexible, classic: false })?;
        if ctx.flexible {
            let (_tag_count, _) = decode_unsigned_varint(buf)?;
        }
        Ok(AlterPartitionRequest { broker_id, broker_epoch, topics })
    }
}

// -------------------------------------------------------
// BrokerState
// -------------------------------------------------------
#[derive(Clone, Debug, PartialEq)]
pub struct BrokerState {
    /// The ID of the broker.
    /// Available in version 3+.
    pub broker_id: i32,
    /// The epoch of the broker. It will be -1 if the epoch check is not supported.
    /// Available in version 3+.
    pub broker_epoch: i64,
}

/// The contents of `BrokerState`, with strings as characters and
/// nested values by their contents.
pub struct BrokerStateModel {
    pub broker_id: i32,
    pub broker_epoch: i64,
}

impl DeepView for BrokerState {
    type V = BrokerStateModel;

    open spec fn deep_view(&self) -> BrokerStateModel {
        BrokerStateModel {
            broker_id: self.broker_id,
            broker_epoch: self.broker_epoch,
        }
    }
}

impl Default for BrokerState {
    fn default() -> (r: BrokerState)
        ensures
            r.broker_id == 0i32,
            r.broker_epoch == -1i64,
    {
        BrokerState {
            broker_id: 0i32,
            broker_epoch: -1i64,
        }
    }
}

impl BrokerState {
    /// The encoding of the structure in context `ctx`.
    pub open spec fn spec_encode_body(m: BrokerStateModel, ctx: Ctx) -> Result<Seq<u8>, SerializationError> {
        let r = Ok(Seq::<u8>::empty());
        let r = if 3 <= ctx.version { then(r, Ok(i32_bytes(m.broker_id))) } else { r };
        let r = if 3 <= ctx.version { then(r, Ok(i64_bytes(m.broker_epoch))) } else { r };
        let r = if ctx.flexible { then(r, Ok(uvarint_bytes(0))) } else { r };
        r
    }

    /// The structure read from `s` at `pos` in context `ctx`.
    pub open spec fn spec_decode_body(s: Seq<u8>, pos: int, ctx: Ctx) -> Result<(BrokerStateModel, int), SerializationError> {
        match (if 3 <= ctx.version { parse_i32(s, pos) } else { Ok((0i32, pos)) }) {
            Err(e) => Err(e),
            Ok((broker_id, pos)) =>
            match (if 3 <= ctx.version { parse_i64(s, pos) } else { Ok((-1i64, pos)) }) {
                Err(e) => Err(e),
                Ok((broker_epoch, pos)) =>
                match (if ctx.flexible { parse_uvarint(s, pos) } else { Ok((0u64, pos)) }) {
                    Err(e) => Err(e),
                    Ok((_tag_count, pos)) =>
                    Ok((BrokerStateModel { broker_id, broker_epoch }, pos))
                }
            }
        }
    }

    /// The structure as it reads back in context `ctx`: each field that the
    /// version leaves out is at its default.
    #[verifier::opaque]
    pub open spec fn spec_read_as(m: BrokerStateModel, ctx: Ctx) -> BrokerStateModel {
        BrokerStateModel { broker_id: if 3 <= ctx.version { m.broker_id } else { 0i32 }, broker_epoch: if 3 <= ctx.version { m.broker_epoch } else { -1i64 } }
    }

    /// Values that read back in context `ctx`: nested values read back. A field
    /// that the version leaves out is read as its default.
    pub open spec fn reads_back_body(m: BrokerStateModel, ctx: Ctx) -> bool {
        true
    }

    /// A value that can be written in context `ctx` and reads back: decoding its
    /// encoding, wherever it stands, gives the value as `spec_read_as` gives it and
    /// the position just after it.
    #[verifier::spinoff_prover]
    pub proof fn lemma_body_read_back(pre: Seq<u8>, m: BrokerStateModel, post: Seq<u8>, ctx: Ctx)
        requires
            Self::spec_encode_body(m, ctx) is Ok,
            Self::reads_back_body(m, ctx),
        ensures
            Self::spec_decode_body(pre + Self::spec_encode_body(m, ctx)->Ok_0 + post, pre.len() as int, ctx) == Ok::<(BrokerStateModel, int), SerializationError>((Self::spec_read_as(m, ctx), pre.len() as int + Self::spec_encode_body(m, ctx)->Ok_0.len())),
    {
        reveal(BrokerState::spec_read_as);
        let b0 = if 3 <= ctx.version { i32_bytes(m.broker_id) } else { Seq::<u8>::empty() };
        let b1 = if 3 <= ctx.version { i64_bytes(m.broker_epoch) } else { Seq::<u8>::empty() };
        let b2 = if ctx.flexible { uvarint_bytes(0) } else { Seq::<u8>::empty() };
        let t3 = post;
        let t2 = b2 + t3;
        let t1 = b1 + t2;
        let t0 = b0 + t1;
        let e = Self::spec_encode_body(m, ctx)->Ok_0;
        assert(e =~= Seq::<u8>::empty() + b0 + b1 + b2);
        lemma_seq_assoc(((Seq::<u8>::empty() + b0) + b1), b2, post);
        lemma_seq_assoc((Seq::<u8>::empty() + b0), b1, (b2 + post));
        lemma_seq_assoc(Seq::<u8>::empty(), b0, (b1 + (b2 + post)));
        lemma_seq_empty_left((b0 + (b1 + (b2 + post))));
        let s = pre + e + post;
        lemma_seq_assoc(pre, e, post);
        assert(s == pre + t0);
        let a0 = pre;
        if 3 <= ctx.version {
            assert(parse_i32(s, a0.len() as int) == Ok::<(i32, int), SerializationError>((m.broker_id, a0.len() as int + b0.len()))) by {
                lemma_seq_assoc(a0, b0, t1);
                lemma_i32_roundtrip(a0, m.broker_id, t1);
            }
        }
        lemma_seq_assoc(a0, b0, t1);
        let a1 = a0 + b0;
        if 3 <= ctx.version {
            assert(parse_i64(s, a1.len() as int) == Ok::<(i64, int), SerializationError>((m.broker_epoch, a1.len() as int + b1.len()))) by {
                lemma_seq_assoc(a1, b1, t2);
                lemma_i64_roundtrip(a1, m.broker_epoch, t2);
            }
        }
        lemma_seq_assoc(a1, b1, t2);
        let a2 = a1 + b1;
        if ctx.flexible {
            assert(parse_uvarint(s, a2.len() as int) == Ok::<(u64, int), SerializationError>((0u64, a2.len() as int + b2.len()))) by {
                lemma_seq_assoc(a2, b2, t3);
                lemma_uvarint_roundtrip(a2, 0, t3);
            }
        }
    }

    /// The bytes written: the encoding of each field, in the order of the
    /// protocol's layout. Reading them back, wherever they stand, gives the value,
    /// with each field that the version leaves out at its default.
    #[verifier::spinoff_prover]
    pub proof fn lemma_body_layout(pre: Seq<u8>, m: BrokerStateModel, post: Seq<u8>, ctx: Ctx)
        requires
            Self::spec_encode_body(m, ctx) is Ok,
        ensures
            Self::spec_encode_body(m, ctx) == Ok::<Seq<u8>, SerializationError>((if 3 <= ctx.version { i32_bytes(m.broker_id) } else { Seq::<u8>::empty() }) + (if 3 <= ctx.version { i64_bytes(m.broker_epoch) } else { Seq::<u8>::empty() }) + (if ctx.flexible { uvarint_bytes(0) } else { Seq::<u8>::empty() })),
            Self::reads_back_body(m, ctx) ==> Self::spec_decode_body(pre + ((if 3 <= ctx.version { i32_bytes(m.broker_id) } else { Seq::<u8>::empty() }) + (if 3 <= ctx.version { i64_bytes(m.broker_epoch) } else { Seq::<u8>::empty() }) + (if ctx.flexible { uvarint_bytes(0) } else { Seq::<u8>::empty() })) + post, pre.len() as int, ctx) == Ok::<(BrokerStateModel, int), SerializationError>((BrokerStateModel { broker_id: if 3 <= ctx.version { m.broker_id } else { 0i32 }, broker_epoch: if 3 <= ctx.version { m.broker_epoch } else { -1i64 } }, pre.len() as int + ((if 3 <= ctx.version { i32_bytes(m.broker_id) } else { Seq::<u8>::empty() }) + (if 3 <= ctx.version { i64_bytes(m.broker_epoch) } else { Seq::<u8>::empty() }) + (if ctx.flexible { uvarint_bytes(0) } else { Seq::<u8>::empty() })).len())),
    {
        let b0 = if 3 <= ctx.version { i32_bytes(m.broker_id) } else { Seq::<u8>::empty() };
        let b1 = if 3 <= ctx.version { i64_bytes(m.broker_epoch) } else { Seq::<u8>::empty() };
        let b2 = if ctx.flexible { uvarint_bytes(0) } else { Seq::<u8>::empty() };
        let e = Self::spec_encode_body(m, ctx)->Ok_0;
        assert(e =~= Seq::<u8>::empty() + b0 + b1 + b2);
        assert(e =~= b0 + b1 + b2);
        if Self::reads_back_body(m, ctx) {
            Self::lemma_body_read_back(pre, m, post, ctx);
            reveal(BrokerState::spec_read_as);
        }
    }

    /// Writing succeeds exactly when every field that the version carries can be
    /// encoded and every field that it leaves out, where leaving it out is an
    /// error, holds its default.
    #[verifier::spinoff_prover]
    pub proof fn lemma_body_write_succeeds(m: BrokerStateModel, ctx: Ctx)
        ensures
            Self::spec_encode_body(m, ctx) is Ok <==> true,
    {
    }

    /// Writes the structure for `version`, with the compact encodings when `is_flexible`.
    /// On failure the buffer is left as it was.
    pub fn encode(&self, buf: &mut Vec<u8>, version: ApiVersion, is_flexible: bool) -> (r: Result<(), SerializationError>)
        ensures
            write_exact(r, old(buf)@, final(buf)@, Self::spec_encode_body(self.deep_view(), Ctx { version: version.0, flexible: is_flexible, classic: false })),
    {
        let start = buf.len();
        let r = self.encode_ctx(buf, Ctx::new(version, is_flexible));
        if r.is_err() {
            buf.truncate(start);
        }
        r
    }

    /// Reads the structure as written for `version`.
    /// On failure the reader is put back where it started.
    pub fn decode(buf: &mut Reader, version: ApiVersion, is_flexible: bool) -> (r: Result<Self, SerializationError>)
        ensures
            final(buf).bytes() == old(buf).bytes(),
            read_view_exact(r, Self::spec_decode_body(old(buf).bytes(), old(buf).pos(), Ctx { version: version.0, flexible: is_flexible, classic: false }), old(buf).pos(), final(buf).pos()),
    {
        let start = buf.position();
        let r = Self::decode_ctx(buf, Ctx::new(version, is_flexible));
        if r.is_err() {
            buf.set_position(start);
        }
        r
    }
}

impl KafkaCodec for BrokerState {
    open spec fn spec_encode(m: BrokerStateModel, ctx: Ctx) -> Result<Seq<u8>, SerializationError> {
        Self::spec_encode_body(m, ctx)
    }

    open spec fn spec_decode(s: Seq<u8>, pos: int, ctx: Ctx) -> Result<(BrokerStateModel, int), SerializationError> {
        Self::spec_decode_body(s, pos, ctx)
    }

    open spec fn reads_back(v: BrokerStateModel, ctx: Ctx) -> bool {
        Self::reads_back_body(v, ctx) && Self::spec_read_as(v, ctx) == v
    }

    proof fn lemma_read_back(pre: Seq<u8>, v: BrokerStateModel, post: Seq<u8>, ctx: Ctx) {
        Self::lemma_body_read_back(pre, v, post, ctx);
        assert(Self::spec_decode(pre + Self::spec_encode(v, ctx)->Ok_0 + post, pre.len() as int, ctx)
            == Self::spec_decode_body(pre + Self::spec_encode_body(v, ctx)->Ok_0 + post, pre.len() as int, ctx));
    }

    fn encode_ctx(&self, buf: &mut Vec<u8>, ctx: Ctx) -> (r: Result<(), SerializationError>) {
        let ghost mut w: Seq<u8> = Seq::empty();
        if 3 <= ctx.version {
            put_i32(buf, self.broker_id);
            proof {
                w = w + i32_bytes(self.broker_id);
            }
            assert(buf@ =~= old(buf)@ + w);
        }
        if 3 <= ctx.version {
            put_i64(buf, self.broker_epoch);
            proof {
                w = w + i64_bytes(self.broker_epoch);
            }
            assert(buf@ =~= old(buf)@ + w);
        }
        if ctx.flexible {
            encode_unsigned_varint(0, buf);
            proof {
                w = w + uvarint_bytes(0);
            }
            assert(buf@ =~= old(buf)@ + w);
        }
        Ok(())
    }

    fn decode_ctx(buf: &mut Reader, ctx: Ctx) -> (r: Result<Self, SerializationError>) {
        let broker_id = if 3 <= ctx.version {
            buf.get_i32()?
        } else {
            0i32
        };
        let broker_epoch = if 3 <= ctx.version {
            buf.get_i64()?
        } else {
            -1i64
        };
        if ctx.flexible {
            let (_tag_count, _) = decode_unsigned_varint(buf)?;
        }
        Ok(BrokerState { broker_id, broker_epoch })
    }
}

// -------------------------------------------------------
// PartitionData
// -------------------------------------------------------
#[derive(Clone, Debug, Default, PartialEq)]
pub struct PartitionData {
    /// The partition index.
    pub partition_index: i32,
    /// The leader epoch of this partition.
    pub leader_epoch: i32,
    /// The ISR for this partition. Deprecated since version 3.
    /// Available in version 0-2.
    pub new_isr: Vec<i32>,
    /// The ISR for this partition.
    /// Available in version 3+.
    pub new_isr_with_epochs: Vec<BrokerState>,
    /// 1 if the partition is recovering from an unclean leader election; 0 otherwise.
    /// Available in version 1+.
    pub leader_recovery_state: i8,
    /// The expected epoch of the partition which is being updated.
    pub partition_epoch: i32,
}

/// The contents of `PartitionData`, with strings as characters and
/// nested values by their contents.
pub struct PartitionDataModel {
    pub partition_index: i32,
    pub leader_epoch: i32,
    pub new_isr: Seq<<i32 as DeepView>::V>,
    pub new_isr_with_epochs: Seq<<BrokerState as DeepView>::V>,
    pub leader_recovery_state: i8,
    pub partition_epoch: i32,
}

impl DeepView for PartitionData {
    type V = PartitionDataModel;

    open spec fn deep_view(&self) -> PartitionDataModel {
        PartitionDataModel {
            partition_index: self.partition_index,
            leader_epoch: self.leader_epoch,
            new_isr: self.new_isr.deep_view(),
            new_isr_with_epochs: self.new_isr_with_epochs.deep_view(),
            leader_recovery_state: self.leader_recovery_state,
            partition_epoch: self.partition_epoch,
        }
    }
}

impl PartitionData {
    /// Fields 1 to 7 of the encoding.
    pub open spec fn spec_encode_body_part1(m: PartitionDataModel, ctx: Ctx) -> Result<Seq<u8>, SerializationError> {
        let r = Ok(Seq::<u8>::empty());
        let r = then(r, Ok(i32_bytes(m.partition_index)));
        let r = then(r, Ok(i32_bytes(m.leader_epoch)));
        let r = if 0 <= ctx.version && ctx.version <= 2 { then(r, array_bytes::<i32>(m.new_isr, Ctx { version: ctx.version, flexible: ctx.flexible, classic: false })) } else { r };
        let r = if 3 <= ctx.version { then(r, array_bytes::<BrokerState>(m.new_isr_with_epochs, Ctx { version: ctx.version, flexible: ctx.flexible, classic: false })) } else { r };
        let r = if 1 <= ctx.version { then(r, Ok(i8_bytes(m.leader_recovery_state))) } else { r };
        let r = then(r, Ok(i32_bytes(m.partition_epoch)));
        let r = if ctx.flexible { then(r, Ok(uvarint_bytes(0))) } else { r };
        r
    }

    #[verifier::spinoff_prover]
    fn encode_body_part1(&self, buf: &mut Vec<u8>, ctx: Ctx) -> (r: Result<(), SerializationError>)
        ensures
            write_ok(r, old(buf)@, final(buf)@, Self::spec_encode_body_part1(self.deep_view(), ctx)),
    {
        let ghost mut w: Seq<u8> = Seq::empty();
        put_i32(buf, self.partition_index);
        proof {
            w = w + i32_bytes(self.partition_index);
        }
        assert(buf@ =~= old(buf)@ + w);
        put_i32(buf, self.leader_epoch);
        proof {
            w = w + i32_bytes(self.leader_epoch);
        }
        assert(buf@ =~= old(buf)@ + w);
        if 0 <= ctx.version && ctx.version <= 2 {
            encode_array(&self.new_isr, buf, Ctx { version: ctx.version, flexible: ctx.flexible, classic: false })?;
            proof {
                w = w + (array_bytes::<i32>(self.new_isr.deep_view(), Ctx { version: ctx.version, flexible: ctx.flexible, classic: false }))->Ok_0;
            }
            assert(buf@ =~= old(buf)@ + w);
        }
        if 3 <= ctx.version {
            encode_array(&self.new_isr_with_epochs, buf, Ctx { version: ctx.version, flexible: ctx.flexible, classic: false })?;
            proof {
                w = w + (array_bytes::<BrokerState>(self.new_isr_with_epochs.deep_view(), Ctx { version: ctx.version, flexible: ctx.flexible, classic: false }))->Ok_0;
            }
            assert(buf@ =~= old(buf)@ + w);
        }
        if 1 <= ctx.version {
            put_i8(buf, self.leader_recovery_state);
            proof {
                w = w + i8_bytes(self.leader_recovery_state);
            }
            assert(buf@ =~= old(buf)@ + w);
        }
        put_i32(buf, self.partition_epoch);
        proof {
            w = w + i32_bytes(self.partition_epoch);
        }
        assert(buf@ =~= old(buf)@ + w);
        if ctx.flexible {
            encode_unsigned_varint(0, buf);
            proof {
                w = w + uvarint_bytes(0);
            }
            assert(buf@ =~= old(buf)@ + w);
        }
        Ok(())
    }

    /// The encoding of the structure in context `ctx`.
    pub open spec fn spec_encode_body(m: PartitionDataModel, ctx: Ctx) -> Result<Seq<u8>, SerializationError> {
        let r = Ok(Seq::<u8>::empty());
        let r = then(r, Self::spec_encode_body_part1(m, ctx));
        r
    }

    /// The structure read from `s` at `pos` in context `ctx`.
    pub open spec fn spec_decode_body(s: Seq<u8>, pos: int, ctx: Ctx) -> Result<(PartitionDataModel, int), SerializationError> {
        match parse_i32(s, pos) {
            Err(e) => Err(e),
            Ok((partition_index, pos)) =>
            match parse_i32(s, pos) {
                Err(e) => Err(e),
                Ok((leader_epoch, pos)) =>
                match (if 0 <= ctx.version && ctx.version <= 2 { parse_array::<i32>(s, pos, Ctx { version: ctx.version, flexible: ctx.flexible, classic: false }) } else { Ok((Seq::<<i32 as DeepView>::V>::empty(), pos)) }) {
                    Err(e) => Err(e),
                    Ok((new_isr, pos)) =>
                    match (if 3 <= ctx.version { parse_array::<BrokerState>(s, pos, Ctx { version: ctx.version, flexible: ctx.flexible, classic: false }) } else { Ok((Seq::<<BrokerState as DeepView>::V>::empty(), pos)) }) {
                        Err(e) => Err(e),
                        Ok((new_isr_with_epochs, pos)) =>
                        match (if 1 <= ctx.version { parse_i8(s, pos) } else { Ok((0i8, pos)) }) {
                            Err(e) => Err(e),
                            Ok((leader_recovery_state, pos)) =>
                            match parse_i32(s, pos) {
                                Err(e) => Err(e),
                                Ok((partition_epoch, pos)) =>
                                match (if ctx.flexible { parse_uvarint(s, pos) } else { Ok((0u64, pos)) }) {
                                    Err(e) => Err(e),
                                    Ok((_tag_count, pos)) =>
                                    Ok((PartitionDataModel { partition_index, leader_epoch, new_isr, new_isr_with_epochs, leader_recovery_state, partition_epoch }, pos))
                                }
                            }
                        }
                    }
                }
            }
        }
    }

    /// The structure as it reads back in context `ctx`: each field that the
    /// version leaves out is at its default.
    #[verifier::opaque]
    pub open spec fn spec_read_as(m: PartitionDataModel, ctx: Ctx) -> PartitionDataModel {
        PartitionDataModel { partition_index: m.partition_index, leader_epoch: m.leader_epoch, new_isr: if 0 <= ctx.version && ctx.version <= 2 { m.new_isr } else { Seq::<<i32 as DeepView>::V>::empty() }, new_isr_with_epochs: if 3 <= ctx.version { m.new_isr_with_epochs } else { Seq::<<BrokerState as DeepView>::V>::empty() }, leader_recovery_state: if 1 <= ctx.version { m.leader_recovery_state } else { 0i8 }, partition_epoch: m.partition_epoch }
    }

    /// Values that read back in context `ctx`: nested values read back. A field
    /// that the version leaves out is read as its default.
    pub open spec fn reads_back_body(m: PartitionDataModel, ctx: Ctx) -> bool {
        &&& (0 <= ctx.version && ctx.version <= 2) ==> forall|i: int| 0 <= i < m.new_isr.len() ==> #[trigger] <i32 as KafkaCodec>::reads_back(m.new_isr[i], Ctx { version: ctx.version, flexible: ctx.flexible, classic: false })
        &&& (3 <= ctx.version) ==> forall|i: int| 0 <= i < m.new_isr_with_epochs.len() ==> #[trigger] <BrokerState as KafkaCodec>::reads_back(m.new_isr_with_epochs[i], Ctx { version: ctx.version, flexible: ctx.flexible, classic: false })
    }

    /// A value that can be written in context `ctx` and reads back: decoding its
    /// encoding, wherever it stands, gives the value as `spec_read_as` gives it and
    /// the position just after it.
    #[verifier::spinoff_prover]
    pub proof fn lemma_body_read_back(pre: Seq<u8>, m: PartitionDataModel, post: Seq<u8>, ctx: Ctx)
        requires
            Self::spec_encode_body(m, ctx) is Ok,
            Self::reads_back_body(m, ctx),
        ensures
            Self::spec_decode_body(pre + Self::spec_encode_body(m, ctx)->Ok_0 + post, pre.len() as int, ctx) == Ok::<(PartitionDataModel, int), SerializationError>((Self::spec_read_as(m, ctx), pre.len() as int + Self::spec_encode_body(m, ctx)->Ok_0.len())),
    {
        reveal(PartitionData::spec_read_as);
        let b0 = i32_bytes(m.partition_index);
        let b1 = i32_bytes(m.leader_epoch);
        let b2 = if 0 <= ctx.version && ctx.version <= 2 { (array_bytes::<i32>(m.new_isr, Ctx { version: ctx.version, flexible: ctx.flexible, classic: false }))->Ok_0 } else { Seq::<u8>::empty() };
        let b3 = if 3 <= ctx.version { (array_bytes::<BrokerState>(m.new_isr_with_epochs, Ctx { version: ctx.version, flexible: ctx.flexible, classic: false }))->Ok_0 } else { Seq::<u8>::empty() };
        let b4 = if 1 <= ctx.version { i8_bytes(m.leader_recovery_state) } else { Seq::<u8>::empty() };
        let b5 = i32_bytes(m.partition_epoch);
        let b6 = if ctx.flexible { uvarint_bytes(0) } else { Seq::<u8>::empty() };
        let t7 = post;
        let t6 = b6 + t7;
        let t5 = b5 + t6;
        let t4 = b4 + t5;
        let t3 = b3 + t4;
        let t2 = b2 + t3;
        let t1 = b1 + t2;
        let t0 = b0 + t1;
        let e = Self::spec_encode_body(m, ctx)->Ok_0;
        let p1 = Self::spec_encode_body_part1(m, ctx)->Ok_0;
        assert(p1 =~= Seq::<u8>::empty() + b0 + b1 + b2 + b3 + b4 + b5 + b6);
        lemma_seq_assoc(((((((Seq::<u8>::empty() + b0) + b1) + b2) + b3) + b4) + b5), b6, t7);
        lemma_seq_assoc((((((Seq::<u8>::empty() + b0) + b1) + b2) + b3) + b4), b5, (b6 + t7));
        lemma_seq_assoc(((((Seq::<u8>::empty() + b0) + b1) + b2) + b3), b4, (b5 + (b6 + t7)));
        lemma_seq_assoc((((Seq::<u8>::empty() + b0) + b1) + b2), b3, (b4 + (b5 + (b6 + t7))));
        lemma_seq_assoc(((Seq::<u8>::empty() + b0) + b1), b2, (b3 + (b4 + (b5 + (b6 + t7)))));
        lemma_seq_assoc((Seq::<u8>::empty() + b0), b1, (b2 + (b3 + (b4 + (b5 + (b6 + t7))))));
        lemma_seq_assoc(Seq::<u8>::empty(), b0, (b1 + (b2 + (b3 + (b4 + (b5 + (b6 + t7)))))));
        lemma_seq_empty_left((b0 + (b1 + (b2 + (b3 + (b4 + (b5 + (b6 + t7))))))));
        assert(e == Seq::<u8>::empty() + p1);
        lemma_seq_assoc(Seq::<u8>::empty(), p1, t7);
        lemma_seq_empty_left((p1 + t7));
        let s = pre + e + post;
        lemma_seq_assoc(pre, e, post);
        assert(s == pre + t0);
        let a0 = pre;
        assert(parse_i32(s, a0.len() as int) == Ok::<(i32, int), SerializationError>((m.partition_index, a0.len() as int + b0.len()))) by {
            lemma_seq_assoc(a0, b0, t1);
            lemma_i32_roundtrip(a0, m.partition_index, t1);
        }
        lemma_seq_assoc(a0, b0, t1);
        let a1 = a0 + b0;
        assert(parse_i32(s, a1.len() as int) == Ok::<(i32, int), SerializationError>((m.leader_epoch, a1.len() as int + b1.len()))) by {
            lemma_seq_assoc(a1, b1, t2);
            lemma_i32_roundtrip(a1, m.leader_epoch, t2);
        }
        lemma_seq_assoc(a1, b1, t2);
        let a2 = a1 + b1;
        if 0 <= ctx.version && ctx.version <= 2 {
            assert(parse_array::<i32>(s, a2.len() as int, Ctx { version: ctx.version, flexible: ctx.flexible, classic: false }) == Ok::<(Seq<<i32 as DeepView>::V>, int), SerializationError>((m.new_isr, a2.len() as int + b2.len()))) by {
                assert(array_bytes::<i32>(m.new_isr, Ctx { version: ctx.version, flexible: ctx.flexible, classic: false }) is Ok);
                lemma_seq_assoc(a2, b2, t3);
                lemma_items_read_back::<i32>(m.new_isr, Ctx { version: ctx.version, flexible: ctx.flexible, classic: false });
                lemma_array_roundtrip::<i32>(a2, m.new_isr, t3, Ctx { version: ctx.version, flexible: ctx.flexible, classic: false });
            }
        }
        lemma_seq_assoc(a2, b2, t3);
        let a3 = a2 + b2;
        if 3 <= ctx.version {
            assert(parse_array::<BrokerState>(s, a3.len() as int, Ctx { version: ctx.version, flexible: ctx.flexible, classic: false }) == Ok::<(Seq<<BrokerState as DeepView>::V>, int), SerializationError>((m.new_isr_with_epochs, a3.len() as int + b3.len()))) by {
                assert(array_bytes::<BrokerState>(m.new_isr_with_epochs, Ctx { version: ctx.version, flexible: ctx.flexible, classic: false }) is Ok);
                lemma_seq_assoc(a3, b3, t4);
                lemma_items_read_back::<BrokerState>(m.new_isr_with_epochs, Ctx { version: ctx.version, flexible: ctx.flexible, classic: false });
                lemma_array_roundtrip::<BrokerState>(a3, m.new_isr_with_epochs, t4, Ctx { version: ctx.version, flexible: ctx.flexible, classic: false });
            }
        }
        lemma_seq_assoc(a3, b3, t4);
        let a4 = a3 + b3;
        if 1 <= ctx.version {
            assert(parse_i8(s, a4.len() as int) == Ok::<(i8, int), SerializationError>((m.leader_recovery_state, a4.len() as int + b4.len()))) by {
                lemma_seq_assoc(a4, b4, t5);
                lemma_i8_roundtrip(a4, m.leader_recovery_state, t5);
            }
        }
        lemma_seq_assoc(a4, b4, t5);
        let a5 = a4 + b4;
        assert(parse_i32(s, a5.len() as int) == Ok::<(i32, int), SerializationError>((m.partition_epoch, a5.len() as int + b5.len()))) by {
            lemma_seq_assoc(a5, b5, t6);
            lemma_i32_roundtrip(a5, m.partition_epoch, t6);
        }
        lemma_seq_assoc(a5, b5, t6);
        let a6 = a5 + b5;
        if ctx.flexible {
            assert(parse_uvarint(s, a6.len() as int) == Ok::<(u64, int), SerializationError>((0u64, a6.len() as int + b6.len()))) by {
                lemma_seq_assoc(a6, b6, t7);
                lemma_uvarint_roundtrip(a6, 0, t7);
            }
        }
    }

    /// The bytes written: the encoding of each field, in the order of the
    /// protocol's layout. Reading them back, wherever they stand, gives the value,
    /// with each field that the version leaves out at its default.
    #[verifier::spinoff_prover]
    pub proof fn lemma_body_layout(pre: Seq<u8>, m: PartitionDataModel, post: Seq<u8>, ctx: Ctx)
        requires
            Self::spec_encode_body(m, ctx) is Ok,
        ensures
            Self::spec_encode_body(m, ctx) == Ok::<Seq<u8>, SerializationError>((i32_bytes(m.partition_index)) + (i32_bytes(m.leader_epoch)) + (if 0 <= ctx.version && ctx.version <= 2 { (array_bytes::<i32>(m.new_isr, Ctx { version: ctx.version, flexible: ctx.flexible, classic: false }))->Ok_0 } else { Seq::<u8>::empty() }) + (if 3 <= ctx.version { (array_bytes::<BrokerState>(m.new_isr_with_epochs, Ctx { version: ctx.version, flexible: ctx.flexible, classic: false }))->Ok_0 } else { Seq::<u8>::empty() }) + (if 1 <= ctx.version { i8_bytes(m.leader_recovery_state) } else { Seq::<u8>::empty() }) + (i32_bytes(m.partition_epoch)) + (if ctx.flexible { uvarint_bytes(0) } else { Seq::<u8>::empty() })),
            Self::reads_back_body(m, ctx) ==> Self::spec_decode_body(pre + ((i32_bytes(m.partition_index)) + (i32_bytes(m.leader_epoch)) + (if 0 <= ctx.version && ctx.version <= 2 { (array_bytes::<i32>(m.new_isr, Ctx { version: ctx.version, flexible: ctx.flexible, classic: false }))->Ok_0 } else { Seq::<u8>::empty() }) + (if 3 <= ctx.version { (array_bytes::<BrokerState>(m.new_isr_with_epochs, Ctx { version: ctx.version, flexible: ctx.flexible, classic: false }))->Ok_0 } else { Seq::<u8>::empty() }) + (if 1 <= ctx.version { i8_bytes(m.leader_recovery_state) } else { Seq::<u8>::empty() }) + (i32_bytes(m.partition_epoch)) + (if ctx.flexible { uvarint_bytes(0) } else { Seq::<u8>::empty() })) + post, pre.len() as int, ctx) == Ok::<(PartitionDataModel, int), SerializationError>((PartitionDataModel { partition_index: m.partition_index, leader_epoch: m.leader_epoch, new_isr: if 0 <= ctx.version && ctx.version <= 2 { m.new_isr } else { Seq::<<i32 as DeepView>::V>::empty() }, new_isr_with_epochs: if 3 <= ctx.version { m.new_isr_with_epochs } else { Seq::<<BrokerState as DeepView>::V>::empty() }, leader_recovery_state: if 1 <= ctx.version { m.leader_recovery_state } else { 0i8 }, partition_epoch: m.partition_epoch }, pre.len() as int + ((i32_bytes(m.partition_index)) + (i32_bytes(m.leader_epoch)) + (if 0 <= ctx.version && ctx.version <= 2 { (array_bytes::<i32>(m.new_isr, Ctx { version: ctx.version, flexible: ctx.flexible, classic: false }))->Ok_0 } else { Seq::<u8>::empty() }) + (if 3 <= ctx.version { (array_bytes::<BrokerState>(m.new_isr_with_epochs, Ctx { version: ctx.version, flexible: ctx.flexible, classic: false }))->Ok_0 } else { Seq::<u8>::empty() }) + (if 1 <= ctx.version { i8_bytes(m.leader_recovery_state) } else { Seq::<u8>::empty() }) + (i32_bytes(m.partition_epoch)) + (if ctx.flexible { uvarint_bytes(0) } else { Seq::<u8>::empty() })).len())),
    {
        let b0 = i32_bytes(m.partition_index);
        let b1 = i32_bytes(m.leader_epoch);
        let b2 = if 0 <= ctx.version && ctx.version <= 2 { (array_bytes::<i32>(m.new_isr, Ctx { version: ctx.version, flexible: ctx.flexible, classic: false }))->Ok_0 } else { Seq::<u8>::empty() };
        let b3 = if 3 <= ctx.version { (array_bytes::<BrokerState>(m.new_isr_with_epochs, Ctx { version: ctx.version, flexible: ctx.flexible, classic: false }))->Ok_0 } else { Seq::<u8>::empty() };
        let b4 = if 1 <= ctx.version { i8_bytes(m.leader_recovery_state) } else { Seq::<u8>::empty() };
        let b5 = i32_bytes(m.partition_epoch);
        let b6 = if ctx.flexible { uvarint_bytes(0) } else { Seq::<u8>::empty() };
        let e = Self::spec_encode_body(m, ctx)->Ok_0;
        let p1 = Self::spec_encode_body_part1(m, ctx)->Ok_0;
        assert(p1 =~= Seq::<u8>::empty() + b0 + b1 + b2 + b3 + b4 + b5 + b6);
        assert(e == Seq::<u8>::empty() + p1);
        assert(e =~= b0 + b1 + b2 + b3 + b4 + b5 + b6);
        if Self::reads_back_body(m, ctx) {
            Self::lemma_body_read_back(pre, m, post, ctx);
            reveal(PartitionData::spec_read_as);
        }
    }

    /// Writing succeeds exactly when every field that the version carries can be
    /// encoded and every field that it leaves out, where leaving it out is an
    /// error, holds its default.
    #[verifier::spinoff_prover]
    pub proof fn lemma_body_write_succeeds(m: PartitionDataModel, ctx: Ctx)
        ensures
            Self::spec_encode_body(m, ctx) is Ok <==> ((0 <= ctx.version && ctx.version <= 2) ==> array_bytes::<i32>(m.new_isr, Ctx { version: ctx.version, flexible: ctx.flexible, classic: false }) is Ok) && ((3 <= ctx.version) ==> array_bytes::<BrokerState>(m.new_isr_with_epochs, Ctx { version: ctx.version, flexible: ctx.flexible, classic: false }) is Ok),
    {
    }

    /// Writes the structure for `version`, with the compact encodings when `is_flexible`.
    /// On failure the buffer is left as it was.
    pub fn encode(&self, buf: &mut Vec<u8>, version: ApiVersion, is_flexible: bool) -> (r: Result<(), SerializationError>)
        ensures
            write_exact(r, old(buf)@, final(buf)@, Self::spec_encode_body(self.deep_view(), Ctx { version: version.0, flexible: is_flexible, classic: false })),
    {
        let start = buf.len();
        let r = self.encode_ctx(buf, Ctx::new(version, is_flexible));
        if r.is_err() {
            buf.truncate(start);
        }
        r
    }

    /// Reads the structure as written for `version`.
    /// On failure the reader is put back where it started.
    #[verifier::spinoff_prover]
    pub fn decode(buf: &mut Reader, version: ApiVersion, is_flexible: bool) -> (r: Result<Self, SerializationError>)
        ensures
            final(buf).bytes() == old(buf).bytes(),
            read_view_exact(r, Self::spec_decode_body(old(buf).bytes(), old(buf).pos(), Ctx { version: version.0, flexible: is_flexible, classic: false }), old(buf).pos(), final(buf).pos()),
    {
        let start = buf.position();
        let r = Self::decode_ctx(buf, Ctx::new(version, is_flexible));
        if r.is_err() {
            buf.set_position(start);
        }
        r
    }
}

impl KafkaCodec for PartitionData {
    open spec fn spec_encode(m: PartitionDataModel, ctx: Ctx) -> Result<Seq<u8>, SerializationError> {
        Self::spec_encode_body(m, ctx)
    }

    open spec fn spec_decode(s: Seq<u8>, pos: int, ctx: Ctx) -> Result<(PartitionDataModel, int), SerializationError> {
        Self::spec_decode_body(s, pos, ctx)
    }

    open spec fn reads_back(v: PartitionDataModel, ctx: Ctx) -> bool {
        Self::reads_back_body(v, ctx) && Self::spec_read_as(v, ctx) == v
    }

    proof fn lemma_read_back(pre: Seq<u8>, v: PartitionDataModel, post: Seq<u8>, ctx: Ctx) {
        Self::lemma_body_read_back(pre, v, post, ctx);
        assert(Self::spec_decode(pre + Self::spec_encode(v, ctx)->Ok_0 + post, pre.len() as int, ctx)
            == Self::spec_decode_body(pre + Self::spec_encode_body(v, ctx)->Ok_0 + post, pre.len() as int, ctx));
    }

    #[verifier::spinoff_prover]
    fn encode_ctx(&self, buf: &mut Vec<u8>, ctx: Ctx) -> (r: Result<(), SerializationError>) {
        let ghost mut w: Seq<u8> = Seq::empty();
        self.encode_body_part1(buf, ctx)?;
        proof {
            w = w + (Self::spec_encode_body_part1(self.deep_view(), ctx))->Ok_0;
        }
        assert(buf@ =~= old(buf)@ + w);
        Ok(())
    }

    #[verifier::spinoff_prover]
    fn decode_ctx(buf: &mut Reader, ctx: Ctx) -> (r: Result<Self, SerializationError>) {
        let partition_index = buf.get_i32()?;
        let leader_epoch = buf.get_i32()?;
        let new_isr = if 0 <= ctx.version && ctx.version <= 2 {
            decode_array::<i32>(buf, Ctx { version: ctx.version, flexible: ctx.flexible, classic: false })?
        } else {
            new_array::<i32>()
        };
        let new_isr_with_epochs = if 3 <= ctx.version {
            decode_array::<BrokerState>(buf, Ctx { version: ctx.version, flexible: ctx.flexible, classic: false })?
        } else {
            new_array::<BrokerState>()
        };
        let leader_recovery_state = if 1 <= ctx.version {
            buf.get_i8()?
        } else {
            0i8
        };
        let partition_epoch = buf.get_i32()?;
        if ctx.flexible {
            let (_tag_count, _) = decode_unsigned_varint(buf)?;
        }
        Ok(PartitionData { partition_index, leader_epoch, new_isr, new_isr_with_epochs, leader_recovery_state, partition_epoch })
    }
}

// -------------------------------------------------------
// TopicData
// -------------------------------------------------------
#[derive(Clone, Debug, Default, PartialEq)]
pub struct TopicData {
    /// The ID of the topic to alter ISRs for.
    /// Available in version 2+.
    pub topic_id: [u8; 16],
    /// The partitions to alter ISRs for.
    pub partitions: Vec<PartitionData>,
}

/// The contents of `TopicData`, with strings as characters and
/// nested values by their contents.
pub struct TopicDataModel {
    pub topic_id: Seq<u8>,
    pub partitions: Seq<<PartitionData as DeepView>::V>,
}

impl DeepView for TopicData {
    type V = TopicDataModel;

    open spec fn deep_view(&self) -> TopicDataModel {
        TopicDataModel {
            topic_id: self.topic_id@,
            partitions: self.partitions.deep_view(),
        }
    }
}

impl TopicData {
    /// The encoding of the structure in context `ctx`.
    pub open spec fn spec_encode_body(m: TopicDataModel, ctx: Ctx) -> Result<Seq<u8>, SerializationError> {
        let r = Ok(Seq::<u8>::empty());
        let r = if 2 <= ctx.version { then(r, Ok(m.topic_id)) } else { r };
        let r = then(r, array_bytes::<PartitionData>(m.partitions, Ctx { version: ctx.version, flexible: ctx.flexible, classic: false }));
        let r = if ctx.flexible { then(r, Ok(uvarint_bytes(0))) } else { r };
        r
    }

    /// The structure read from `s` at `pos` in context `ctx`.
    pub open spec fn spec_decode_body(s: Seq<u8>, pos: int, ctx: Ctx) -> Result<(TopicDataModel, int), SerializationError> {
        match (if 2 <= ctx.version { parse_raw(s, pos, 16) } else { Ok((zero_uuid_bytes(), pos)) }) {
            Err(e) => Err(e),
            Ok((topic_id, pos)) =>
            match parse_array::<PartitionData>(s, pos, Ctx { version: ctx.version, flexible: ctx.flexible, classic: false }) {
                Err(e) => Err(e),
                Ok((partitions, pos)) =>
                match (if ctx.flexible { parse_uvarint(s, pos) } else { Ok((0u64, pos)) }) {
                    Err(e) => Err(e),
                    Ok((_tag_count, pos)) =>
                    Ok((TopicDataModel { topic_id, partitions }, pos))
                }
            }
        }
    }

    /// The structure as it reads back in context `ctx`: each field that the
    /// version leaves out is at its default.
    #[verifier::opaque]
    pub open spec fn spec_read_as(m: TopicDataModel, ctx: Ctx) -> TopicDataModel {
        TopicDataModel { topic_id: if 2 <= ctx.version { m.topic_id } else { zero_uuid_bytes() }, partitions: m.partitions }
    }

    /// Values that read back in context `ctx`: nested values read back. A field
    /// that the version leaves out is read as its default.
    pub open spec fn reads_back_body(m: TopicDataModel, ctx: Ctx) -> bool {
        &&& (2 <= ctx.version) ==> m.topic_id.len() == 16
        &&& forall|i: int| 0 <= i < m.partitions.len() ==> #[trigger] <PartitionData as KafkaCodec>::reads_back(m.partitions[i], Ctx { version: ctx.version, flexible: ctx.flexible, classic: false })
    }

    /// A value that can be written in context `ctx` and reads back: decoding its
    /// encoding, wherever it stands, gives the value as `spec_read_as` gives it and
    /// the position just after it.
    #[verifier::spinoff_prover]
    pub proof fn lemma_body_read_back(pre: Seq<u8>, m: TopicDataModel, post: Seq<u8>, ctx: Ctx)
        requires
            Self::spec_encode_body(m, ctx) is Ok,
            Self::reads_back_body(m, ctx),
        ensures
            Self::spec_decode_body(pre + Self::spec_encode_body(m, ctx)->Ok_0 + post, pre.len() as int, ctx) == Ok::<(TopicDataModel, int), SerializationError>((Self::spec_read_as(m, ctx), pre.len() as int + Self::spec_encode_body(m, ctx)->Ok_0.len())),
    {
        reveal(TopicData::spec_read_as);
        let b0 = if 2 <= ctx.version { m.topic_id } else { Seq::<u8>::empty() };
        let b1 = (array_bytes::<PartitionData>(m.partitions, Ctx { version: ctx.version, flexible: ctx.flexible, classic: false }))->Ok_0;
        let b2 = if ctx.flexible { uvarint_bytes(0) } else { Seq::<u8>::empty() };
        let t3 = post;
        let t2 = b2 + t3;
        let t1 = b1 + t2;
        let t0 = b0 + t1;
        let e = Self::spec_encode_body(m, ctx)->Ok_0;
        assert(e =~= Seq::<u8>::empty() + b0 + b1 + b2);
        lemma_seq_assoc(((Seq::<u8>::empty() + b0) + b1), b2, post);
        lemma_seq_assoc((Seq::<u8>::empty() + b0), b1, (b2 + post));
        lemma_seq_assoc(Seq::<u8>::empty(), b0, (b1 + (b2 + post)));
        lemma_seq_empty_left((b0 + (b1 + (b2 + post))));
        let s = pre + e + post;
        lemma_seq_assoc(pre, e, post);
        assert(s == pre + t0);
        let a0 = pre;
        if 2 <= ctx.version {
            assert(parse_raw(s, a0.len() as int, 16) == Ok::<(Seq<u8>, int), SerializationError>((m.topic_id, a0.len() as int + b0.len()))) by {
                lemma_seq_assoc(a0, b0, t1);
                lemma_uuid_roundtrip(a0, m.topic_id, t1);
            }
        }
        lemma_seq_assoc(a0, b0, t1);
        let a1 = a0 + b0;
        assert(parse_array::<PartitionData>(s, a1.len() as int, Ctx { version: ctx.version, flexible: ctx.flexible, classic: false }) == Ok::<(Seq<<PartitionData as DeepView>::V>, int), SerializationError>((m.partitions, a1.len() as int + b1.len()))) by {
            assert(array_bytes::<PartitionData>(m.partitions, Ctx { version: ctx.version, flexible: ctx.flexible, classic: false }) is Ok);
            lemma_seq_assoc(a1, b1, t2);
            lemma_items_read_back::<PartitionData>(m.partitions, Ctx { version: ctx.version, flexible: ctx.flexible, classic: false });
            lemma_array_roundtrip::<PartitionData>(a1, m.partitions, t2, Ctx { version: ctx.version, flexible: ctx.flexible, classic: false });
        }
        lemma_seq_assoc(a1, b1, t2);
        let a2 = a1 + b1;
        if ctx.flexible {
            assert(parse_uvarint(s, a2.len() as int) == Ok::<(u64, int), SerializationError>((0u64, a2.len() as int + b2.len()))) by {
                lemma_seq_assoc(a2, b2, t3);
                lemma_uvarint_roundtrip(a2, 0, t3);
            }
        }
    }

    /// The bytes written: the encoding of each field, in the order of the
    /// protocol's layout. Reading them back, wherever they stand, gives the value,
    /// with each field that the version leaves out at its default.
    #[verifier::spinoff_prover]
    pub proof fn lemma_body_layout(pre: Seq<u8>, m: TopicDataModel, post: Seq<u8>, ctx: Ctx)
        requires
            Self::spec_encode_body(m, ctx) is Ok,
        ensures
            Self::spec_encode_body(m, ctx) == Ok::<Seq<u8>, SerializationError>((if 2 <= ctx.version { m.topic_id } else { Seq::<u8>::empty() }) + ((array_bytes::<PartitionData>(m.partitions, Ctx { version: ctx.version, flexible: ctx.flexible, classic: false }))->Ok_0) + (if ctx.flexible { uvarint_bytes(0) } else { Seq::<u8>::empty() })),
            Self::reads_back_body(m, ctx) ==> Self::spec_decode_body(pre + ((if 2 <= ctx.version { m.topic_id } else { Seq::<u8>::empty() }) + ((array_bytes::<PartitionData>(m.partitions, Ctx { version: ctx.version, flexible: ctx.flexible, classic: false }))->Ok_0) + (if ctx.flexible { uvarint_bytes(0) } else { Seq::<u8>::empty() })) + post, pre.len() as int, ctx) == Ok::<(TopicDataModel, int), SerializationError>((TopicDataModel { topic_id: if 2 <= ctx.version { m.topic_id } else { zero_uuid_bytes() }, partitions: m.partitions }, pre.len() as int + ((if 2 <= ctx.version { m.topic_id } else { Seq::<u8>::empty() }) + ((array_bytes::<PartitionData>(m.partitions, Ctx { version: ctx.version, flexible: ctx.flexible, classic: false }))->Ok_0) + (if ctx.flexible { uvarint_bytes(0) } else { Seq::<u8>::empty() })).len())),
    {
        let b0 = if 2 <= ctx.version { m.topic_id } else { Seq::<u8>::empty() };
        let b1 = (array_bytes::<PartitionData>(m.partitions, Ctx { version: ctx.version, flexible: ctx.flexible, classic: false }))->Ok_0;
        let b2 = if ctx.flexible { uvarint_bytes(0) } else { Seq::<u8>::empty() };
        let e = Self::spec_encode_body(m, ctx)->Ok_0;
        assert(e =~= Seq::<u8>::empty() + b0 + b1 + b2);
        assert(e =~= b0 + b1 + b2);
        if Self::reads_back_body(m, ctx) {
            Self::lemma_body_read_back(pre, m, post, ctx);
            reveal(TopicData::spec_read_as);
        }
    }

    /// Writing succeeds exactly when every field that the version carries can be
    /// encoded and every field that it leaves out, where leaving it out is an
    /// error, holds its default.
    #[verifier::spinoff_prover]
    pub proof fn lemma_body_write_succeeds(m: TopicDataModel, ctx: Ctx)
        ensures
            Self::spec_encode_body(m, ctx) is Ok <==> (array_bytes::<PartitionData>(m.partitions, Ctx { version: ctx.version, flexible: ctx.flexible, classic: false }) is Ok),
    {
    }

    /// Writes the structure for `version`, with the compact encodings when `is_flexible`.
    /// On failure the buffer is left as it was.
    pub fn encode(&self, buf: &mut Vec<u8>, version: ApiVersion, is_flexible: bool) -> (r: Result<(), SerializationError>)
        ensures
            write_exact(r, old(buf)@, final(buf)@, Self::spec_encode_body(self.deep_view(), Ctx { version: version.0, flexible: is_flexible, classic: false })),
    {
        let start = buf.len();
        let r = self.encode_ctx(buf, Ctx::new(version, is_flexible));
        if r.is_err() {
            buf.truncate(start);
        }
        r
    }

    /// Reads the structure as written for `version`.
    /// On failure the reader is put back where it started.
    pub fn decode(buf: &mut Reader, version: ApiVersion, is_flexible: bool) -> (r: Result<Self, SerializationError>)
        ensures
            final(buf).bytes() == old(buf).bytes(),
            read_view_exact(r, Self::spec_decode_body(old(buf).bytes(), old(buf).pos(), Ctx { version: version.0, flexible: is_flexible, classic: false }), old(buf).pos(), final(buf).pos()),
    {
        let start = buf.position();
        let r = Self::decode_ctx(buf, Ctx::new(version, is_flexible));
        if r.is_err() {
            buf.set_position(start);
        }
        r
    }
}

impl KafkaCodec for TopicData {
    open spec fn spec_encode(m: TopicDataModel, ctx: Ctx) -> Result<Seq<u8>, SerializationError> {
        Self::spec_encode_body(m, ctx)
    }

    open spec fn spec_decode(s: Seq<u8>, pos: int, ctx: Ctx) -> Result<(TopicDataModel, int), SerializationError> {
        Self::spec_decode_body(s, pos, ctx)
    }

    open spec fn reads_back(v: TopicDataModel, ctx: Ctx) -> bool {
        Self::reads_back_body(v, ctx) && Self::spec_read_as(v, ctx) == v
    }

    proof fn lemma_read_back(pre: Seq<u8>, v: TopicDataModel, post: Seq<u8>, ctx: Ctx) {
        Self::lemma_body_read_back(pre, v, post, ctx);
        assert(Self::spec_decode(pre + Self::spec_encode(v, ctx)->Ok_0 + post, pre.len() as int, ctx)
            == Self::spec_decode_body(pre + Self::spec_encode_body(v, ctx)->Ok_0 + post, pre.len() as int, ctx));
    }

    fn encode_ctx(&self, buf: &mut Vec<u8>, ctx: Ctx) -> (r: Result<(), SerializationError>) {
        let ghost mut w: Seq<u8> = Seq::empty();
        if 2 <= ctx.version {
            encode_uuid(&self.topic_id, buf);
            proof {
                w = w + self.topic_id@;
            }
            assert(buf@ =~= old(buf)@ + w);
        }
        encode_array(&self.partitions, buf, Ctx { version: ctx.version, flexible: ctx.flexible, classic: false })?;
        proof {
            w = w + (array_bytes::<PartitionData>(self.partitions.deep_view(), Ctx { version: ctx.version, flexible: ctx.flexible, classic: false }))->Ok_0;
        }
        assert(buf@ =~= old(buf)@ + w);
        if ctx.flexible {
            encode_unsigned_varint(0, buf);
            proof {
                w = w + uvarint_bytes(0);
            }
            assert(buf@ =~= old(buf)@ + w);
        }
        Ok(())
    }

    fn decode_ctx(buf: &mut Reader, ctx: Ctx) -> (r: Result<Self, SerializationError>) {
        let topic_id = if 2 <= ctx.version {
            buf.get_uuid()?
        } else {
            zero_uuid()
        };
        let partitions = decode_array::<PartitionData>(buf, Ctx { version: ctx.version, flexible: ctx.flexible, classic: false })?;
        if ctx.flexible {
            let (_tag_count, _) = decode_unsigned_varint(buf)?;
        }
        Ok(TopicData { topic_id, partitions })
    }
}

} // verus!
