//! ConsumerGroupDescribeResponse (API key 69).
use vstd::prelude::*;
use crate::roundtrip::{lemma_array_roundtrip, lemma_i16_roundtrip, lemma_i32_roundtrip,
    lemma_i8_roundtrip, lemma_items_read_back, lemma_nullable_string_roundtrip, lemma_seq_assoc,
    lemma_seq_empty_left, lemma_string_roundtrip, lemma_uuid_roundtrip, lemma_uvarint_roundtrip};
use crate::serialization::{Ctx, KafkaCodec, Reader, SerializationError, array_bytes, decode_array,
    decode_unsigned_varint, encode_array, encode_nullable_string, encode_string,
    encode_unsigned_varint, encode_uuid, i16_bytes, i32_bytes, i8_bytes, nullable_string_bytes,
    parse_array, parse_i16, parse_i32, parse_i8, parse_nullable_string, parse_raw, parse_string,
    parse_uvarint, put_i16, put_i32, put_i8, read_view_exact, read_view_ok, string_bytes, then,
    uvarint_bytes, write_exact, write_ok};
use crate::{ApiKey, ApiVersion};

verus! {

// -------------------------------------------------------
// ConsumerGroupDescribeResponse
// -------------------------------------------------------
#[derive(Clone, Debug, Default, PartialEq)]
pub struct ConsumerGroupDescribeResponse {
    /// The duration in milliseconds for which the request was throttled due to a quota violation, or zero if the request did not violate any quota.
    pub throttle_time_ms: i32,
    /// Each described group.
    pub groups: Vec<DescribedGroup>,
}

/// The contents of `ConsumerGroupDescribeResponse`, with strings as characters and
/// nested values by their contents.
pub struct ConsumerGroupDescribeResponseModel {
    pub throttle_time_ms: i32,
    pub groups: Seq<<DescribedGroup as DeepView>::V>,
}

impl DeepView for ConsumerGroupDescribeResponse {
    type V = ConsumerGroupDescribeResponseModel;

    open spec fn deep_view(&self) -> ConsumerGroupDescribeResponseModel {
        ConsumerGroupDescribeResponseModel {
            throttle_time_ms: self.throttle_time_ms,
            groups: self.groups.deep_view(),
        }
    }
}

impl ConsumerGroupDescribeResponse {
    /// The encoding of the structure in context `ctx`.
    pub open spec fn spec_encode_body(m: ConsumerGroupDescribeResponseModel, ctx: Ctx) -> Result<Seq<u8>, SerializationError> {
        let r = Ok(Seq::<u8>::empty());
        let r = then(r, Ok(i32_bytes(m.throttle_time_ms)));
        let r = then(r, array_bytes::<DescribedGroup>(m.groups, Ctx { version: ctx.version, flexible: ctx.flexible, classic: false }));
        let r = if ctx.flexible { then(r, Ok(uvarint_bytes(0))) } else { r };
        r
    }

    /// The structure read from `s` at `pos` in context `ctx`.
    pub open spec fn spec_decode_body(s: Seq<u8>, pos: int, ctx: Ctx) -> Result<(ConsumerGroupDescribeResponseModel, int), SerializationError> {
        match parse_i32(s, pos) {
            Err(e) => Err(e),
            Ok((throttle_time_ms, pos)) =>
            match parse_array::<DescribedGroup>(s, pos, Ctx { version: ctx.version, flexible: ctx.flexible, classic: false }) {
                Err(e) => Err(e),
                Ok((groups, pos)) =>
                match (if ctx.flexible { parse_uvarint(s, pos) } else { Ok((0u64, pos)) }) {
                    Err(e) => Err(e),
                    Ok((_tag_count, pos)) =>
                    Ok((ConsumerGroupDescribeResponseModel { throttle_time_ms, groups }, pos))
                }
            }
        }
    }

    /// Values of the structure that read back from their encoding in `ctx`: every
    /// field that the version leaves out holds its default, and nested values
    /// read back.
    pub open spec fn reads_back_body(m: ConsumerGroupDescribeResponseModel, ctx: Ctx) -> bool {
        &&& forall|i: int| 0 <= i < m.groups.len() ==> #[trigger] <DescribedGroup as KafkaCodec>::reads_back(m.groups[i], Ctx { version: ctx.version, flexible: ctx.flexible, classic: false })
    }

    /// A value that can be written in `ctx` and reads back: decoding its encoding,
    /// wherever it stands, gives the value and the position just after it.
    #[verifier::spinoff_prover]
    pub proof fn lemma_body_read_back(pre: Seq<u8>, m: ConsumerGroupDescribeResponseModel, post: Seq<u8>, ctx: Ctx)
        requires
            Self::spec_encode_body(m, ctx) is Ok,
            Self::reads_back_body(m, ctx),
        ensures
            Self::spec_decode_body(pre + Self::spec_encode_body(m, ctx)->Ok_0 + post, pre.len() as int, ctx) == Ok::<(ConsumerGroupDescribeResponseModel, int), SerializationError>((m, pre.len() as int + Self::spec_encode_body(m, ctx)->Ok_0.len())),
    {
        let b0 = i32_bytes(m.throttle_time_ms);
        let b1 = (array_bytes::<DescribedGroup>(m.groups, Ctx { version: ctx.version, flexible: ctx.flexible, classic: false }))->Ok_0;
        let b2 = if ctx.flexible { uvarint_bytes(0) } else { Seq::<u8>::empty() };
        let t3 = post;
        let t2 = b2 + t3;
        let t1 = b1 + t2;
        let t0 = b0 + t1;
        let e = Self::spec_encode_body(m, ctx)->Ok_0;
        assert(e =~= Seq::<u8>::empty() + b0 + b1 + b2);
        lemma_seq_assoc(((Seq::<u8>::empty() + b0) + b1), b2, post);
        lemma_seq_assoc((Seq::<u8>::empty() + b0), b1, (b2 + post));
        lemma_seq_assoc(Seq::<u8>::empty(), b0, (b1 + (b2 + post)));
        lemma_seq_empty_left((b0 + (b1 + (b2 + post))));
        let s = pre + e + post;
        lemma_seq_assoc(pre, e, post);
        assert(s == pre + t0);
        let a0 = pre;
        assert(parse_i32(s, a0.len() as int) == Ok::<(i32, int), SerializationError>((m.throttle_time_ms, a0.len() as int + b0.len()))) by {
            lemma_seq_assoc(a0, b0, t1);
            lemma_i32_roundtrip(a0, m.throttle_time_ms, t1);
        }
        lemma_seq_assoc(a0, b0, t1);
        let a1 = a0 + b0;
        assert(parse_array::<DescribedGroup>(s, a1.len() as int, Ctx { version: ctx.version, flexible: ctx.flexible, classic: false }) == Ok::<(Seq<<DescribedGroup as DeepView>::V>, int), SerializationError>((m.groups, a1.len() as int + b1.len()))) by {
            assert(array_bytes::<DescribedGroup>(m.groups, Ctx { version: ctx.version, flexible: ctx.flexible, classic: false }) is Ok);
            lemma_seq_assoc(a1, b1, t2);
            lemma_items_read_back::<DescribedGroup>(m.groups, Ctx { version: ctx.version, flexible: ctx.flexible, classic: false });
            lemma_array_roundtrip::<DescribedGroup>(a1, m.groups, t2, Ctx { version: ctx.version, flexible: ctx.flexible, classic: false });
        }
        lemma_seq_assoc(a1, b1, t2);
        let a2 = a1 + b1;
        if ctx.flexible {
            assert(parse_uvarint(s, a2.len() as int) == Ok::<(u64, int), SerializationError>((0u64, a2.len() as int + b2.len()))) by {
                lemma_seq_assoc(a2, b2, t3);
                lemma_uvarint_roundtrip(a2, 0, t3);
            }
        }
    }

    /// The bytes written: the encoding of each field, in the order of the
    /// protocol's layout. Reading them back, wherever they stand, gives the value,
    /// with each field that the version leaves out at its default.
    #[verifier::spinoff_prover]
    pub proof fn lemma_body_layout(pre: Seq<u8>, m: ConsumerGroupDescribeResponseModel, post: Seq<u8>, ctx: Ctx)
        requires
            Self::spec_encode_body(m, ctx) is Ok,
        ensures
            Self::spec_encode_body(m, ctx) == Ok::<Seq<u8>, SerializationError>((i32_bytes(m.throttle_time_ms)) + ((array_bytes::<DescribedGroup>(m.groups, Ctx { version: ctx.version, flexible: ctx.flexible, classic: false }))->Ok_0) + (if ctx.flexible { uvarint_bytes(0) } else { Seq::<u8>::empty() })),
            Self::reads_back_body(m, ctx) ==> Self::spec_decode_body(pre + ((i32_bytes(m.throttle_time_ms)) + ((array_bytes::<DescribedGroup>(m.groups, Ctx { version: ctx.version, flexible: ctx.flexible, classic: false }))->Ok_0) + (if ctx.flexible { uvarint_bytes(0) } else { Seq::<u8>::empty() })) + post, pre.len() as int, ctx) == Ok::<(ConsumerGroupDescribeResponseModel, int), SerializationError>((m, pre.len() as int + ((i32_bytes(m.throttle_time_ms)) + ((array_bytes::<DescribedGroup>(m.groups, Ctx { version: ctx.version, flexible: ctx.flexible, classic: false }))->Ok_0) + (if ctx.flexible { uvarint_bytes(0) } else { Seq::<u8>::empty() })).len())),
    {
        let b0 = i32_bytes(m.throttle_time_ms);
        let b1 = (array_bytes::<DescribedGroup>(m.groups, Ctx { version: ctx.version, flexible: ctx.flexible, classic: false }))->Ok_0;
        let b2 = if ctx.flexible { uvarint_bytes(0) } else { Seq::<u8>::empty() };
        let e = Self::spec_encode_body(m, ctx)->Ok_0;
        assert(e =~= Seq::<u8>::empty() + b0 + b1 + b2);
        assert(e =~= b0 + b1 + b2);
        if Self::reads_back_body(m, ctx) {
            Self::lemma_body_read_back(pre, m, post, ctx);
        }
    }

    /// Writing succeeds exactly when every field that the version carries can be
    /// encoded and every field that it leaves out, where leaving it out is an
    /// error, holds its default.
    #[verifier::spinoff_prover]
    pub proof fn lemma_body_write_succeeds(m: ConsumerGroupDescribeResponseModel, ctx: Ctx)
        ensures
            Self::spec_encode_body(m, ctx) is Ok <==> (array_bytes::<DescribedGroup>(m.groups, Ctx { version: ctx.version, flexible: ctx.flexible, classic: false }) is Ok),
    {
    }

    /// Writes the structure for `version`, with the compact encodings when `is_flexible`.
    /// On failure the buffer is left as it was.
    pub fn encode(&self, buf: &mut Vec<u8>, version: ApiVersion, is_flexible: bool) -> (r: Result<(), SerializationError>)
        ensures
            write_exact(r, old(buf)@, final(buf)@, Self::spec_encode_body(self.deep_view(), Ctx { version: version.0, flexible: is_flexible, classic: false })),
    {
        let start = buf.len();
        let r = self.encode_ctx(buf, Ctx::new(version, is_flexible));
        if r.is_err() {
            buf.truncate(start);
        }
        r
    }

    /// Reads the structure as written for `version`.
    /// On failure the reader is put back where it started.
    pub fn decode(buf: &mut Reader, version: ApiVersion, is_flexible: bool) -> (r: Result<Self, SerializationError>)
        ensures
            final(buf).bytes() == old(buf).bytes(),
            read_view_exact(r, Self::spec_decode_body(old(buf).bytes(), old(buf).pos(), Ctx { version: version.0, flexible: is_flexible, classic: false }), old(buf).pos(), final(buf).pos()),
    {
        let start = buf.position();
        let r = Self::decode_ctx(buf, Ctx::new(version, is_flexible));
        if r.is_err() {
            buf.set_position(start);
        }
        r
    }
}

impl KafkaCodec for ConsumerGroupDescribeResponse {
    open spec fn spec_encode(m: ConsumerGroupDescribeResponseModel, ctx: Ctx) -> Result<Seq<u8>, SerializationError> {
        Self::spec_encode_body(m, ctx)
    }

    open spec fn spec_decode(s: Seq<u8>, pos: int, ctx: Ctx) -> Result<(ConsumerGroupDescribeResponseModel, int), SerializationError> {
        Self::spec_decode_body(s, pos, ctx)
    }

    open spec fn reads_back(v: ConsumerGroupDescribeResponseModel, ctx: Ctx) -> bool {
        Self::reads_back_body(v, ctx)
    }

    proof fn lemma_read_back(pre: Seq<u8>, v: ConsumerGroupDescribeResponseModel, post: Seq<u8>, ctx: Ctx) {
        Self::lemma_body_read_back(pre, v, post, ctx);
        assert(Self::spec_decode(pre + Self::spec_encode(v, ctx)->Ok_0 + post, pre.len() as int, ctx)
            == Self::spec_decode_body(pre + Self::spec_encode_body(v, ctx)->Ok_0 + post, pre.len() as int, ctx));
    }

    fn encode_ctx(&self, buf: &mut Vec<u8>, ctx: Ctx) -> (r: Result<(), SerializationError>) {
        let ghost mut w: Seq<u8> = Seq::empty();
        put_i32(buf, self.throttle_time_ms);
        proof {
            w = w + i32_bytes(self.throttle_time_ms);
        }
        assert(buf@ =~= old(buf)@ + w);
        encode_array(&self.groups, buf, Ctx { version: ctx.version, flexible: ctx.flexible, classic: false })?;
        proof {
            w = w + (array_bytes::<DescribedGroup>(self.groups.deep_view(), Ctx { version: ctx.version, flexible: ctx.flexible, classic: false }))->Ok_0;
        }
        assert(buf@ =~= old(buf)@ + w);
        if ctx.flexible {
            encode_unsigned_varint(0, buf);
            proof {
                w = w + uvarint_bytes(0);
            }
            assert(buf@ =~= old(buf)@ + w);
        }
        Ok(())
    }

    fn decode_ctx(buf: &mut Reader, ctx: Ctx) -> (r: Result<Self, SerializationError>) {
        let throttle_time_ms = buf.get_i32()?;
        let groups = decode_array::<DescribedGroup>(buf, Ctx { version: ctx.version, flexible: ctx.flexible, classic: false })?;
        if ctx.flexible {
            let (_tag_count, _) = decode_unsigned_varint(buf)?;
        }
        Ok(ConsumerGroupDescribeResponse { throttle_time_ms, groups })
    }
}

impl ConsumerGroupDescribeResponse {
    /// The API key of this message.
    pub fn get_api_key() -> (r: ApiKey)
        ensures
            r.0 == 69,
    {
        ApiKey::new(69)
    }

    /// The oldest version of this message.
    pub fn get_min_supported_version() -> (r: ApiVersion)
        ensures
            r.0 == 0,
    {
        ApiVersion::new(0)
    }

    /// The newest version of this message.
    pub fn get_max_supported_version() -> (r: ApiVersion)
        ensures
            r.0 == 1,
    {
        ApiVersion::new(1)
    }

    /// The first version of this message with the compact encodings.
    pub fn get_min_flexible_version() -> (r: ApiVersion)
        ensures
            r.0 == 0,
    {
        ApiVersion::new(0)
    }

    /// The encoding of a whole message body at `version`.
    pub open spec fn spec_serialize(m: ConsumerGroupDescribeResponseModel, version: i16) -> Result<Seq<u8>, SerializationError> {
        let is_flexible = version >= 0;
        let ctx = Ctx { version, flexible: is_flexible, classic: false };
        let r = Ok(Seq::<u8>::empty());
        let r = then(r, Ok(i32_bytes(m.throttle_time_ms)));
        let r = then(r, array_bytes::<DescribedGroup>(m.groups, Ctx { version: ctx.version, flexible: ctx.flexible, classic: false }));
        let r = if ctx.flexible { then(r, Ok(uvarint_bytes(0))) } else { r };
        r
    }

    /// The message body read at `version`.
    pub open spec fn spec_deserialize(s: Seq<u8>, pos: int, version: i16) -> Result<(ConsumerGroupDescribeResponseModel, int), SerializationError> {
        let is_flexible = version >= 0;
        let ctx = Ctx { version, flexible: is_flexible, classic: false };
        match parse_i32(s, pos) {
            Err(e) => Err(e),
            Ok((throttle_time_ms, pos)) =>
            match parse_array::<DescribedGroup>(s, pos, Ctx { version: ctx.version, flexible: ctx.flexible, classic: false }) {
                Err(e) => Err(e),
                Ok((groups, pos)) =>
                match (if ctx.flexible { parse_uvarint(s, pos) } else { Ok((0u64, pos)) }) {
                    Err(e) => Err(e),
                    Ok((_tag_count, pos)) =>
                    Ok((ConsumerGroupDescribeResponseModel { throttle_time_ms, groups }, pos))
                }
            }
        }
    }

    /// Message bodies that read back when written at `version`: every field that
    /// the version leaves out holds its default, and nested values read back.
    pub open spec fn reads_back_message(m: ConsumerGroupDescribeResponseModel, version: i16) -> bool {
        let is_flexible = version >= 0;
        let ctx = Ctx { version, flexible: is_flexible, classic: false };
        &&& forall|i: int| 0 <= i < m.groups.len() ==> #[trigger] <DescribedGroup as KafkaCodec>::reads_back(m.groups[i], Ctx { version: ctx.version, flexible: ctx.flexible, classic: false })
    }

    /// A message body that can be written at `version` and reads back: reading a
    /// body at `version` from its bytes, wherever they stand, gives the same message.
    #[verifier::spinoff_prover]
    pub proof fn lemma_message_read_back(pre: Seq<u8>, m: ConsumerGroupDescribeResponseModel, post: Seq<u8>, version: i16)
        requires
            Self::spec_serialize(m, version) is Ok,
            Self::reads_back_message(m, version),
        ensures
            Self::spec_deserialize(pre + Self::spec_serialize(m, version)->Ok_0 + post, pre.len() as int, version) == Ok::<(ConsumerGroupDescribeResponseModel, int), SerializationError>((m, pre.len() as int + Self::spec_serialize(m, version)->Ok_0.len())),
    {
        let is_flexible = version >= 0;
        let ctx = Ctx { version, flexible: is_flexible, classic: false };
        let b0 = i32_bytes(m.throttle_time_ms);
        let b1 = (array_bytes::<DescribedGroup>(m.groups, Ctx { version: ctx.version, flexible: ctx.flexible, classic: false }))->Ok_0;
        let b2 = if ctx.flexible { uvarint_bytes(0) } else { Seq::<u8>::empty() };
        let t3 = post;
        let t2 = b2 + t3;
        let t1 = b1 + t2;
        let t0 = b0 + t1;
        let e = Self::spec_serialize(m, version)->Ok_0;
        assert(e =~= Seq::<u8>::empty() + b0 + b1 + b2);
        lemma_seq_assoc(((Seq::<u8>::empty() + b0) + b1), b2, post);
        lemma_seq_assoc((Seq::<u8>::empty() + b0), b1, (b2 + post));
        lemma_seq_assoc(Seq::<u8>::empty(), b0, (b1 + (b2 + post)));
        lemma_seq_empty_left((b0 + (b1 + (b2 + post))));
        let s = pre + e + post;
        lemma_seq_assoc(pre, e, post);
        assert(s == pre + t0);
        let a0 = pre;
        assert(parse_i32(s, a0.len() as int) == Ok::<(i32, int), SerializationError>((m.throttle_time_ms, a0.len() as int + b0.len()))) by {
            lemma_seq_assoc(a0, b0, t1);
            lemma_i32_roundtrip(a0, m.throttle_time_ms, t1);
        }
        lemma_seq_assoc(a0, b0, t1);
        let a1 = a0 + b0;
        assert(parse_array::<DescribedGroup>(s, a1.len() as int, Ctx { version: ctx.version, flexible: ctx.flexible, classic: false }) == Ok::<(Seq<<DescribedGroup as DeepView>::V>, int), SerializationError>((m.groups, a1.len() as int + b1.len()))) by {
            assert(array_bytes::<DescribedGroup>(m.groups, Ctx { version: ctx.version, flexible: ctx.flexible, classic: false }) is Ok);
            lemma_seq_assoc(a1, b1, t2);
            lemma_items_read_back::<DescribedGroup>(m.groups, Ctx { version: ctx.version, flexible: ctx.flexible, classic: false });
            lemma_array_roundtrip::<DescribedGroup>(a1, m.groups, t2, Ctx { version: ctx.version, flexible: ctx.flexible, classic: false });
        }
        lemma_seq_assoc(a1, b1, t2);
        let a2 = a1 + b1;
        if ctx.flexible {
            assert(parse_uvarint(s, a2.len() as int) == Ok::<(u64, int), SerializationError>((0u64, a2.len() as int + b2.len()))) by {
                lemma_seq_assoc(a2, b2, t3);
                lemma_uvarint_roundtrip(a2, 0, t3);
            }
        }
    }

    /// The bytes written: the encoding of each field, in the order of the
    /// protocol's layout. Reading them back, wherever they stand, gives the value,
    /// with each field that the version leaves out at its default.
    #[verifier::spinoff_prover]
    pub proof fn lemma_message_layout(pre: Seq<u8>, m: ConsumerGroupDescribeResponseModel, post: Seq<u8>, version: i16)
        requires
            Self::spec_serialize(m, version) is Ok,
        ensures
            Self::spec_serialize(m, version) == Ok::<Seq<u8>, SerializationError>((i32_bytes(m.throttle_time_ms)) + ((array_bytes::<DescribedGroup>(m.groups, Ctx { version: version, flexible: (version >= 0), classic: false }))->Ok_0) + (if (version >= 0) { uvarint_bytes(0) } else { Seq::<u8>::empty() })),
            Self::reads_back_message(m, version) ==> Self::spec_deserialize(pre + ((i32_bytes(m.throttle_time_ms)) + ((array_bytes::<DescribedGroup>(m.groups, Ctx { version: version, flexible: (version >= 0), classic: false }))->Ok_0) + (if (version >= 0) { uvarint_bytes(0) } else { Seq::<u8>::empty() })) + post, pre.len() as int, version) == Ok::<(ConsumerGroupDescribeResponseModel, int), SerializationError>((m, pre.len() as int + ((i32_bytes(m.throttle_time_ms)) + ((array_bytes::<DescribedGroup>(m.groups, Ctx { version: version, flexible: (version >= 0), classic: false }))->Ok_0) + (if (version >= 0) { uvarint_bytes(0) } else { Seq::<u8>::empty() })).len())),
    {
        let is_flexible = version >= 0;
        let ctx = Ctx { version, flexible: is_flexible, classic: false };
        let b0 = i32_bytes(m.throttle_time_ms);
        let b1 = (array_bytes::<DescribedGroup>(m.groups, Ctx { version: ctx.version, flexible: ctx.flexible, classic: false }))->Ok_0;
        let b2 = if ctx.flexible { uvarint_bytes(0) } else { Seq::<u8>::empty() };
        let e = Self::spec_serialize(m, version)->Ok_0;
        assert(e =~= Seq::<u8>::empty() + b0 + b1 + b2);
        assert(e =~= b0 + b1 + b2);
        if Self::reads_back_message(m, version) {
            Self::lemma_message_read_back(pre, m, post, version);
        }
    }

    /// Writing succeeds exactly when every field that the version carries can be
    /// encoded and every field that it leaves out, where leaving it out is an
    /// error, holds its default.
    #[verifier::spinoff_prover]
    pub proof fn lemma_message_write_succeeds(m: ConsumerGroupDescribeResponseModel, version: i16)
        ensures
            Self::spec_serialize(m, version) is Ok <==> (array_bytes::<DescribedGroup>(m.groups, Ctx { version: version, flexible: (version >= 0), classic: false }) is Ok),
    {
        let is_flexible = version >= 0;
        let ctx = Ctx { version, flexible: is_flexible, classic: false };
    }

    /// Writes the message body for `version`, which must be a supported version.
    /// On failure the buffer is left as it was.
    pub fn serialize(&self, version: ApiVersion, buf: &mut Vec<u8>) -> (r: Result<(), SerializationError>)
        requires
            0 <= version.0 <= 1,
        ensures
            write_exact(r, old(buf)@, final(buf)@, Self::spec_serialize(self.deep_view(), version.0)),
    {
        let start = buf.len();
        let r = self.write_body(version, buf);
        if r.is_err() {
            buf.truncate(start);
        }
        r
    }

    fn write_body(&self, version: ApiVersion, buf: &mut Vec<u8>) -> (r: Result<(), SerializationError>)
        requires
            0 <= version.0 <= 1,
        ensures
            write_ok(r, old(buf)@, final(buf)@, Self::spec_serialize(self.deep_view(), version.0)),
    {
        let is_flexible = version.0 >= Self::get_min_flexible_version().0;
        let ctx = Ctx::new(version, is_flexible);
        let ghost mut w: Seq<u8> = Seq::empty();
        put_i32(buf, self.throttle_time_ms);
        proof {
            w = w + i32_bytes(self.throttle_time_ms);
        }
        assert(buf@ =~= old(buf)@ + w);
        encode_array(&self.groups, buf, Ctx { version: ctx.version, flexible: ctx.flexible, classic: false })?;
        proof {
            w = w + (array_bytes::<DescribedGroup>(self.groups.deep_view(), Ctx { version: ctx.version, flexible: ctx.flexible, classic: false }))->Ok_0;
        }
        assert(buf@ =~= old(buf)@ + w);
        if ctx.flexible {
            encode_unsigned_varint(0, buf);
            proof {
                w = w + uvarint_bytes(0);
            }
            assert(buf@ =~= old(buf)@ + w);
        }
        Ok(())
    }

    /// Reads a message body written for `version`.
    /// On failure the reader is put back where it started.
    pub fn deserialize(version: ApiVersion, buf: &mut Reader) -> (r: Result<Self, SerializationError>)
        ensures
            final(buf).bytes() == old(buf).bytes(),
            read_view_exact(r, Self::spec_deserialize(old(buf).bytes(), old(buf).pos(), version.0), old(buf).pos(), final(buf).pos()),
    {
        let start = buf.position();
        let r = Self::read_body(version, buf);
        if r.is_err() {
            buf.set_position(start);
        }
        r
    }

    fn read_body(version: ApiVersion, buf: &mut Reader) -> (r: Result<Self, SerializationError>)
        ensures
            final(buf).bytes() == old(buf).bytes(),
            read_view_ok(r, Self::spec_deserialize(old(buf).bytes(), old(buf).pos(), version.0), final(buf).pos()),
    {
        let is_flexible = version.0 >= Self::get_min_flexible_version().0;
        let ctx = Ctx::new(version, is_flexible);
        let throttle_time_ms = buf.get_i32()?;
        let groups = decode_array::<DescribedGroup>(buf, Ctx { version: ctx.version, flexible: ctx.flexible, classic: false })?;
        if ctx.flexible {
            let (_tag_count, _) = decode_unsigned_varint(buf)?;
        }
        Ok(ConsumerGroupDescribeResponse { throttle_time_ms, groups })
    }
}

// -------------------------------------------------------
// Assignment
// -------------------------------------------------------
#[derive(Clone, Debug, Default, PartialEq)]
pub struct Assignment {
    /// The assigned topic-partitions to the member.
    pub topic_partitions: Vec<TopicPartitions>,
}

/// The contents of `Assignment`, with strings as characters and
/// nested values by their contents.
pub struct AssignmentModel {
    pub topic_partitions: Seq<<TopicPartitions as DeepView>::V>,
}

impl DeepView for Assignment {
    type V = AssignmentModel;

    open spec fn deep_view(&self) -> AssignmentModel {
        AssignmentModel {
            topic_partitions: self.topic_partitions.deep_view(),
        }
    }
}

impl Assignment {
    /// The encoding of the structure in context `ctx`.
    pub open spec fn spec_encode_body(m: AssignmentModel, ctx: Ctx) -> Result<Seq<u8>, SerializationError> {
        let r = Ok(Seq::<u8>::empty());
        let r = then(r, array_bytes::<TopicPartitions>(m.topic_partitions, Ctx { version: ctx.version, flexible: ctx.flexible, classic: false }));
        let r = if ctx.flexible { then(r, Ok(uvarint_bytes(0))) } else { r };
        r
    }

    /// The structure read from `s` at `pos` in context `ctx`.
    pub open spec fn spec_decode_body(s: Seq<u8>, pos: int, ctx: Ctx) -> Result<(AssignmentModel, int), SerializationError> {
        match parse_array::<TopicPartitions>(s, pos, Ctx { version: ctx.version, flexible: ctx.flexible, classic: false }) {
            Err(e) => Err(e),
            Ok((topic_partitions, pos)) =>
            match (if ctx.flexible { parse_uvarint(s, pos) } else { Ok((0u64, pos)) }) {
                Err(e) => Err(e),
                Ok((_tag_count, pos)) =>
                Ok((AssignmentModel { topic_partitions }, pos))
            }
        }
    }

    /// Values of the structure that read back from their encoding in `ctx`: every
    /// field that the version leaves out holds its default, and nested values
    /// read back.
    pub open spec fn reads_back_body(m: AssignmentModel, ctx: Ctx) -> bool {
        &&& forall|i: int| 0 <= i < m.topic_partitions.len() ==> #[trigger] <TopicPartitions as KafkaCodec>::reads_back(m.topic_partitions[i], Ctx { version: ctx.version, flexible: ctx.flexible, classic: false })
    }

    /// A value that can be written in `ctx` and reads back: decoding its encoding,
    /// wherever it stands, gives the value and the position just after it.
    #[verifier::spinoff_prover]
    pub proof fn lemma_body_read_back(pre: Seq<u8>, m: AssignmentModel, post: Seq<u8>, ctx: Ctx)
        requires
            Self::spec_encode_body(m, ctx) is Ok,
            Self::reads_back_body(m, ctx),
        ensures
            Self::spec_decode_body(pre + Self::spec_encode_body(m, ctx)->Ok_0 + post, pre.len() as int, ctx) == Ok::<(AssignmentModel, int), SerializationError>((m, pre.len() as int + Self::spec_encode_body(m, ctx)->Ok_0.len())),
    {
        let b0 = (array_bytes::<TopicPartitions>(m.topic_partitions, Ctx { version: ctx.version, flexible: ctx.flexible, classic: false }))->Ok_0;
        let b1 = if ctx.flexible { uvarint_bytes(0) } else { Seq::<u8>::empty() };
        let t2 = post;
        let t1 = b1 + t2;
        let t0 = b0 + t1;
        let e = Self::spec_encode_body(m, ctx)->Ok_0;
        assert(e =~= Seq::<u8>::empty() + b0 + b1);
        lemma_seq_assoc((Seq::<u8>::empty() + b0), b1, post);
        lemma_seq_assoc(Seq::<u8>::empty(), b0, (b1 + post));
        lemma_seq_empty_left((b0 + (b1 + post)));
        let s = pre + e + post;
        lemma_seq_assoc(pre, e, post);
        assert(s == pre + t0);
        let a0 = pre;
        assert(parse_array::<TopicPartitions>(s, a0.len() as int, Ctx { version: ctx.version, flexible: ctx.flexible, classic: false }) == Ok::<(Seq<<TopicPartitions as DeepView>::V>, int), SerializationError>((m.topic_partitions, a0.len() as int + b0.len()))) by {
            assert(array_bytes::<TopicPartitions>(m.topic_partitions, Ctx { version: ctx.version, flexible: ctx.flexible, classic: false }) is Ok);
            lemma_seq_assoc(a0, b0, t1);
            lemma_items_read_back::<TopicPartitions>(m.topic_partitions, Ctx { version: ctx.version, flexible: ctx.flexible, classic: false });
            lemma_array_roundtrip::<TopicPartitions>(a0, m.topic_partitions, t1, Ctx { version: ctx.version, flexible: ctx.flexible, classic: false });
        }
        lemma_seq_assoc(a0, b0, t1);
        let a1 = a0 + b0;
        if ctx.flexible {
            assert(parse_uvarint(s, a1.len() as int) == Ok::<(u64, int), SerializationError>((0u64, a1.len() as int + b1.len()))) by {
                lemma_seq_assoc(a1, b1, t2);
                lemma_uvarint_roundtrip(a1, 0, t2);
            }
        }
    }

    /// The bytes written: the encoding of each field, in the order of the
    /// protocol's layout. Reading them back, wherever they stand, gives the value,
    /// with each field that the version leaves out at its default.
    #[verifier::spinoff_prover]
    pub proof fn lemma_body_layout(pre: Seq<u8>, m: AssignmentModel, post: Seq<u8>, ctx: Ctx)
        requires
            Self::spec_encode_body(m, ctx) is Ok,
        ensures
            Self::spec_encode_body(m, ctx) == Ok::<Seq<u8>, SerializationError>(((array_bytes::<TopicPartitions>(m.topic_partitions, Ctx { version: ctx.version, flexible: ctx.flexible, classic: false }))->Ok_0) + (if ctx.flexible { uvarint_bytes(0) } else { Seq::<u8>::empty() })),
            Self::reads_back_body(m, ctx) ==> Self::spec_decode_body(pre + (((array_bytes::<TopicPartitions>(m.topic_partitions, Ctx { version: ctx.version, flexible: ctx.flexible, classic: false }))->Ok_0) + (if ctx.flexible { uvarint_bytes(0) } else { Seq::<u8>::empty() })) + post, pre.len() as int, ctx) == Ok::<(AssignmentModel, int), SerializationError>((m, pre.len() as int + (((array_bytes::<TopicPartitions>(m.topic_partitions, Ctx { version: ctx.version, flexible: ctx.flexible, classic: false }))->Ok_0) + (if ctx.flexible { uvarint_bytes(0) } else { Seq::<u8>::empty() })).len())),
    {
        let b0 = (array_bytes::<TopicPartitions>(m.topic_partitions, Ctx { version: ctx.version, flexible: ctx.flexible, classic: false }))->Ok_0;
        let b1 = if ctx.flexible { uvarint_bytes(0) } else { Seq::<u8>::empty() };
        let e = Self::spec_encode_body(m, ctx)->Ok_0;
        assert(e =~= Seq::<u8>::empty() + b0 + b1);
        assert(e =~= b0 + b1);
        if Self::reads_back_body(m, ctx) {
            Self::lemma_body_read_back(pre, m, post, ctx);
        }
    }

    /// Writing succeeds exactly when every field that the version carries can be
    /// encoded and every field that it leaves out, where leaving it out is an
    /// error, holds its default.
    #[verifier::spinoff_prover]
    pub proof fn lemma_body_write_succeeds(m: AssignmentModel, ctx: Ctx)
        ensures
            Self::spec_encode_body(m, ctx) is Ok <==> (array_bytes::<TopicPartitions>(m.topic_partitions, Ctx { version: ctx.version, flexible: ctx.flexible, classic: false }) is Ok),
    {
    }

    /// Writes the structure for `version`, with the compact encodings when `is_flexible`.
    /// On failure the buffer is left as it was.
    pub fn encode(&self, buf: &mut Vec<u8>, version: ApiVersion, is_flexible: bool) -> (r: Result<(), SerializationError>)
        ensures
            write_exact(r, old(buf)@, final(buf)@, Self::spec_encode_body(self.deep_view(), Ctx { version: version.0, flexible: is_flexible, classic: false })),
    {
        let start = buf.len();
        let r = self.encode_ctx(buf, Ctx::new(version, is_flexible));
        if r.is_err() {
            buf.truncate(start);
        }
        r
    }

    /// Reads the structure as written for `version`.
    /// On failure the reader is put back where it started.
    pub fn decode(buf: &mut Reader, version: ApiVersion, is_flexible: bool) -> (r: Result<Self, SerializationError>)
        ensures
            final(buf).bytes() == old(buf).bytes(),
            read_view_exact(r, Self::spec_decode_body(old(buf).bytes(), old(buf).pos(), Ctx { version: version.0, flexible: is_flexible, classic: false }), old(buf).pos(), final(buf).pos()),
    {
        let start = buf.position();
        let r = Self::decode_ctx(buf, Ctx::new(version, is_flexible));
        if r.is_err() {
            buf.set_position(start);
        }
        r
    }
}

impl KafkaCodec for Assignment {
    open spec fn spec_encode(m: AssignmentModel, ctx: Ctx) -> Result<Seq<u8>, SerializationError> {
        Self::spec_encode_body(m, ctx)
    }

    open spec fn spec_decode(s: Seq<u8>, pos: int, ctx: Ctx) -> Result<(AssignmentModel, int), SerializationError> {
        Self::spec_decode_body(s, pos, ctx)
    }

    open spec fn reads_back(v: AssignmentModel, ctx: Ctx) -> bool {
        Self::reads_back_body(v, ctx)
    }

    proof fn lemma_read_back(pre: Seq<u8>, v: AssignmentModel, post: Seq<u8>, ctx: Ctx) {
        Self::lemma_body_read_back(pre, v, post, ctx);
        assert(Self::spec_decode(pre + Self::spec_encode(v, ctx)->Ok_0 + post, pre.len() as int, ctx)
            == Self::spec_decode_body(pre + Self::spec_encode_body(v, ctx)->Ok_0 + post, pre.len() as int, ctx));
    }

    fn encode_ctx(&self, buf: &mut Vec<u8>, ctx: Ctx) -> (r: Result<(), SerializationError>) {
        let ghost mut w: Seq<u8> = Seq::empty();
        encode_array(&self.topic_partitions, buf, Ctx { version: ctx.version, flexible: ctx.flexible, classic: false })?;
        proof {
            w = w + (array_bytes::<TopicPartitions>(self.topic_partitions.deep_view(), Ctx { version: ctx.version, flexible: ctx.flexible, classic: false }))->Ok_0;
        }
        assert(buf@ =~= old(buf)@ + w);
        if ctx.flexible {
            encode_unsigned_varint(0, buf);
            proof {
                w = w + uvarint_bytes(0);
            }
            assert(buf@ =~= old(buf)@ + w);
        }
        Ok(())
    }

    fn decode_ctx(buf: &mut Reader, ctx: Ctx) -> (r: Result<Self, SerializationError>) {
        let topic_partitions = decode_array::<TopicPartitions>(buf, Ctx { version: ctx.version, flexible: ctx.flexible, classic: false })?;
        if ctx.flexible {
            let (_tag_count, _) = decode_unsigned_varint(buf)?;
        }
        Ok(Assignment { topic_partitions })
    }
}

// -------------------------------------------------------
// DescribedGroup
// -------------------------------------------------------
#[derive(Clone, Debug, Default, PartialEq)]
pub struct DescribedGroup {
    /// The describe error, or 0 if there was no error.
    pub error_code: i16,
    /// The top-level error message, or null if there was no error.
    pub error_message: Option<String>,
    /// The group ID string.
    pub group_id: String,
    /// The group state string, or the empty string.
    pub group_state: String,
    /// The group epoch.
    pub group_epoch: i32,
    /// The assignment epoch.
    pub assignment_epoch: i32,
    /// The selected assignor.
    pub assignor_name: String,
    /// The members.
    pub members: Vec<Member>,
    /// 32-bit bitfield to represent authorized operations for this group.
    pub authorized_operations: i32,
}

/// The contents of `DescribedGroup`, with strings as characters and
/// nested values by their contents.
pub struct DescribedGroupModel {
    pub error_code: i16,
    pub error_message: Option<Seq<char>>,
    pub group_id: Seq<char>,
    pub group_state: Seq<char>,
    pub group_epoch: i32,
    pub assignment_epoch: i32,
    pub assignor_name: Seq<char>,
    pub members: Seq<<Member as DeepView>::V>,
    pub authorized_operations: i32,
}

impl DeepView for DescribedGroup {
    type V = DescribedGroupModel;

    open spec fn deep_view(&self) -> DescribedGroupModel {
        DescribedGroupModel {
            error_code: self.error_code,
            error_message: self.error_message.deep_view(),
            group_id: self.group_id.deep_view(),
            group_state: self.group_state.deep_view(),
            group_epoch: self.group_epoch,
            assignment_epoch: self.assignment_epoch,
            assignor_name: self.assignor_name.deep_view(),
            members: self.members.deep_view(),
            authorized_operations: self.authorized_operations,
        }
    }
}

impl DescribedGroup {
    /// Fields 1 to 5 of the encoding.
    pub open spec fn spec_encode_body_part1(m: DescribedGroupModel, ctx: Ctx) -> Result<Seq<u8>, SerializationError> {
        let r = Ok(Seq::<u8>::empty());
        let r = then(r, Ok(i16_bytes(m.error_code)));
        let r = then(r, nullable_string_bytes(m.error_message, ctx.flexible));
        let r = then(r, string_bytes(m.group_id, ctx.flexible));
        let r = then(r, string_bytes(m.group_state, ctx.flexible));
        let r = then(r, Ok(i32_bytes(m.group_epoch)));
        r
    }

    #[verifier::spinoff_prover]
    fn encode_body_part1(&self, buf: &mut Vec<u8>, ctx: Ctx) -> (r: Result<(), SerializationError>)
        ensures
            write_ok(r, old(buf)@, final(buf)@, Self::spec_encode_body_part1(self.deep_view(), ctx)),
    {
        let ghost mut w: Seq<u8> = Seq::empty();
        put_i16(buf, self.error_code);
        proof {
            w = w + i16_bytes(self.error_code);
        }
        assert(buf@ =~= old(buf)@ + w);
        encode_nullable_string(&self.error_message, buf, ctx.flexible)?;
        proof {
            w = w + (nullable_string_bytes(self.error_message.deep_view(), ctx.flexible))->Ok_0;
        }
        assert(buf@ =~= old(buf)@ + w);
        encode_string(&self.group_id, buf, ctx.flexible)?;
        proof {
            w = w + (string_bytes(self.group_id.deep_view(), ctx.flexible))->Ok_0;
        }
        assert(buf@ =~= old(buf)@ + w);
        encode_string(&self.group_state, buf, ctx.flexible)?;
        proof {
            w = w + (string_bytes(self.group_state.deep_view(), ctx.flexible))->Ok_0;
        }
        assert(buf@ =~= old(buf)@ + w);
        put_i32(buf, self.group_epoch);
        proof {
            w = w + i32_bytes(self.group_epoch);
        }
        assert(buf@ =~= old(buf)@ + w);
        Ok(())
    }

    /// Fields 6 to 10 of the encoding.
    pub open spec fn spec_encode_body_part2(m: DescribedGroupModel, ctx: Ctx) -> Result<Seq<u8>, SerializationError> {
        let r = Ok(Seq::<u8>::empty());
        let r = then(r, Ok(i32_bytes(m.assignment_epoch)));
        let r = then(r, string_bytes(m.assignor_name, ctx.flexible));
        let r = then(r, array_bytes::<Member>(m.members, Ctx { version: ctx.version, flexible: ctx.flexible, classic: false }));
        let r = then(r, Ok(i32_bytes(m.authorized_operations)));
        let r = if ctx.flexible { then(r, Ok(uvarint_bytes(0))) } else { r };
        r
    }

    #[verifier::spinoff_prover]
    fn encode_body_part2(&self, buf: &mut Vec<u8>, ctx: Ctx) -> (r: Result<(), SerializationError>)
        ensures
            write_ok(r, old(buf)@, final(buf)@, Self::spec_encode_body_part2(self.deep_view(), ctx)),
    {
        let ghost mut w: Seq<u8> = Seq::empty();
        put_i32(buf, self.assignment_epoch);
        proof {
            w = w + i32_bytes(self.assignment_epoch);
        }
        assert(buf@ =~= old(buf)@ + w);
        encode_string(&self.assignor_name, buf, ctx.flexible)?;
        proof {
            w = w + (string_bytes(self.assignor_name.deep_view(), ctx.flexible))->Ok_0;
        }
        assert(buf@ =~= old(buf)@ + w);
        encode_array(&self.members, buf, Ctx { version: ctx.version, flexible: ctx.flexible, classic: false })?;
        proof {
            w = w + (array_bytes::<Member>(self.members.deep_view(), Ctx { version: ctx.version, flexible: ctx.flexible, classic: false }))->Ok_0;
        }
        assert(buf@ =~= old(buf)@ + w);
        put_i32(buf, self.authorized_operations);
        proof {
            w = w + i32_bytes(self.authorized_operations);
        }
        assert(buf@ =~= old(buf)@ + w);
        if ctx.flexible {
            encode_unsigned_varint(0, buf);
            proof {
                w = w + uvarint_bytes(0);
            }
            assert(buf@ =~= old(buf)@ + w);
        }
        Ok(())
    }

    /// The encoding of the structure in context `ctx`.
    pub open spec fn spec_encode_body(m: DescribedGroupModel, ctx: Ctx) -> Result<Seq<u8>, SerializationError> {
        let r = Ok(Seq::<u8>::empty());
        let r = then(r, Self::spec_encode_body_part1(m, ctx));
        let r = then(r, Self::spec_encode_body_part2(m, ctx));
        r
    }

    /// The structure read from `s` at `pos` in context `ctx`.
    pub open spec fn spec_decode_body(s: Seq<u8>, pos: int, ctx: Ctx) -> Result<(DescribedGroupModel, int), SerializationError> {
        match parse_i16(s, pos) {
            Err(e) => Err(e),
            Ok((error_code, pos)) =>
            match parse_nullable_string(s, pos, ctx.flexible) {
                Err(e) => Err(e),
                Ok((error_message, pos)) =>
                match parse_string(s, pos, ctx.flexible) {
                    Err(e) => Err(e),
                    Ok((group_id, pos)) =>
                    match parse_string(s, pos, ctx.flexible) {
                        Err(e) => Err(e),
                        Ok((group_state, pos)) =>
                        match parse_i32(s, pos) {
                            Err(e) => Err(e),
                            Ok((group_epoch, pos)) =>
                            match parse_i32(s, pos) {
                                Err(e) => Err(e),
                                Ok((assignment_epoch, pos)) =>
                                match parse_string(s, pos, ctx.flexible) {
                                    Err(e) => Err(e),
                                    Ok((assignor_name, pos)) =>
                                    match parse_array::<Member>(s, pos, Ctx { version: ctx.version, flexible: ctx.flexible, classic: false }) {
                                        Err(e) => Err(e),
                                        Ok((members, pos)) =>
                                        match parse_i32(s, pos) {
                                            Err(e) => Err(e),
                                            Ok((authorized_operations, pos)) =>
                                            match (if ctx.flexible { parse_uvarint(s, pos) } else { Ok((0u64, pos)) }) {
                                                Err(e) => Err(e),
                                                Ok((_tag_count, pos)) =>
                                                Ok((DescribedGroupModel { error_code, error_message, group_id, group_state, group_epoch, assignment_epoch, assignor_name, members, authorized_operations }, pos))
                                            }
                                        }
                                    }
                                }
                            }
                        }
                    }
                }
            }
        }
    }

    /// Values of the structure that read back from their encoding in `ctx`: every
    /// field that the version leaves out holds its default, and nested values
    /// read back.
    pub open spec fn reads_back_body(m: DescribedGroupModel, ctx: Ctx) -> bool {
        &&& forall|i: int| 0 <= i < m.members.len() ==> #[trigger] <Member as KafkaCodec>::reads_back(m.members[i], Ctx { version: ctx.version, flexible: ctx.flexible, classic: false })
    }

    /// A value that can be written in `ctx` and reads back: decoding its encoding,
    /// wherever it stands, gives the value and the position just after it.
    #[verifier::spinoff_prover]
    pub proof fn lemma_body_read_back(pre: Seq<u8>, m: DescribedGroupModel, post: Seq<u8>, ctx: Ctx)
        requires
            Self::spec_encode_body(m, ctx) is Ok,
            Self::reads_back_body(m, ctx),
        ensures
            Self::spec_decode_body(pre + Self::spec_encode_body(m, ctx)->Ok_0 + post, pre.len() as int, ctx) == Ok::<(DescribedGroupModel, int), SerializationError>((m, pre.len() as int + Self::spec_encode_body(m, ctx)->Ok_0.len())),
    {
        let b0 = i16_bytes(m.error_code);
        let b1 = (nullable_string_bytes(m.error_message, ctx.flexible))->Ok_0;
        let b2 = (string_bytes(m.group_id, ctx.flexible))->Ok_0;
        let b3 = (string_bytes(m.group_state, ctx.flexible))->Ok_0;
        let b4 = i32_bytes(m.group_epoch);
        let b5 = i32_bytes(m.assignment_epoch);
        let b6 = (string_bytes(m.assignor_name, ctx.flexible))->Ok_0;
        let b7 = (array_bytes::<Member>(m.members, Ctx { version: ctx.version, flexible: ctx.flexible, classic: false }))->Ok_0;
        let b8 = i32_bytes(m.authorized_operations);
        let b9 = if ctx.flexible { uvarint_bytes(0) } else { Seq::<u8>::empty() };
        let t10 = post;
        let t9 = b9 + t10;
        let t8 = b8 + t9;
        let t7 = b7 + t8;
        let t6 = b6 + t7;
        let t5 = b5 + t6;
        let t4 = b4 + t5;
        let t3 = b3 + t4;
        let t2 = b2 + t3;
        let t1 = b1 + t2;
        let t0 = b0 + t1;
        let e = Self::spec_encode_body(m, ctx)->Ok_0;
        let p1 = Self::spec_encode_body_part1(m, ctx)->Ok_0;
        assert(p1 =~= Seq::<u8>::empty() + b0 + b1 + b2 + b3 + b4);
        lemma_seq_assoc(((((Seq::<u8>::empty() + b0) + b1) + b2) + b3), b4, t5);
        lemma_seq_assoc((((Seq::<u8>::empty() + b0) + b1) + b2), b3, (b4 + t5));
        lemma_seq_assoc(((Seq::<u8>::empty() + b0) + b1), b2, (b3 + (b4 + t5)));
        lemma_seq_assoc((Seq::<u8>::empty() + b0), b1, (b2 + (b3 + (b4 + t5))));
        lemma_seq_assoc(Seq::<u8>::empty(), b0, (b1 + (b2 + (b3 + (b4 + t5)))));
        lemma_seq_empty_left((b0 + (b1 + (b2 + (b3 + (b4 + t5))))));
        let p2 = Self::spec_encode_body_part2(m, ctx)->Ok_0;
        assert(p2 =~= Seq::<u8>::empty() + b5 + b6 + b7 + b8 + b9);
        lemma_seq_assoc(((((Seq::<u8>::empty() + b5) + b6) + b7) + b8), b9, t10);
        lemma_seq_assoc((((Seq::<u8>::empty() + b5) + b6) + b7), b8, (b9 + t10));
        lemma_seq_assoc(((Seq::<u8>::empty() + b5) + b6), b7, (b8 + (b9 + t10)));
        lemma_seq_assoc((Seq::<u8>::empty() + b5), b6, (b7 + (b8 + (b9 + t10))));
        lemma_seq_assoc(Seq::<u8>::empty(), b5, (b6 + (b7 + (b8 + (b9 + t10)))));
        lemma_seq_empty_left((b5 + (b6 + (b7 + (b8 + (b9 + t10))))));
        assert(e == Seq::<u8>::empty() + p1 + p2);
        lemma_seq_assoc((Seq::<u8>::empty() + p1), p2, t10);
        lemma_seq_assoc(Seq::<u8>::empty(), p1, (p2 + t10));
        lemma_seq_empty_left((p1 + (p2 + t10)));
        let s = pre + e + post;
        lemma_seq_assoc(pre, e, post);
        assert(s == pre + t0);
        let a0 = pre;
        assert(parse_i16(s, a0.len() as int) == Ok::<(i16, int), SerializationError>((m.error_code, a0.len() as int + b0.len()))) by {
            lemma_seq_assoc(a0, b0, t1);
            lemma_i16_roundtrip(a0, m.error_code, t1);
        }
        lemma_seq_assoc(a0, b0, t1);
        let a1 = a0 + b0;
        assert(parse_nullable_string(s, a1.len() as int, ctx.flexible) == Ok::<(Option<Seq<char>>, int), SerializationError>((m.error_message, a1.len() as int + b1.len()))) by {
            assert(nullable_string_bytes(m.error_message, ctx.flexible) is Ok);
            lemma_seq_assoc(a1, b1, t2);
            lemma_nullable_string_roundtrip(a1, m.error_message, t2, ctx.flexible);
        }
        lemma_seq_assoc(a1, b1, t2);
        let a2 = a1 + b1;
        assert(parse_string(s, a2.len() as int, ctx.flexible) == Ok::<(Seq<char>, int), SerializationError>((m.group_id, a2.len() as int + b2.len()))) by {
            assert(string_bytes(m.group_id, ctx.flexible) is Ok);
            lemma_seq_assoc(a2, b2, t3);
            lemma_string_roundtrip(a2, m.group_id, t3, ctx.flexible);
        }
        lemma_seq_assoc(a2, b2, t3);
        let a3 = a2 + b2;
        assert(parse_string(s, a3.len() as int, ctx.flexible) == Ok::<(Seq<char>, int), SerializationError>((m.group_state, a3.len() as int + b3.len()))) by {
            assert(string_bytes(m.group_state, ctx.flexible) is Ok);
            lemma_seq_assoc(a3, b3, t4);
            lemma_string_roundtrip(a3, m.group_state, t4, ctx.flexible);
        }
        lemma_seq_assoc(a3, b3, t4);
        let a4 = a3 + b3;
        assert(parse_i32(s, a4.len() as int) == Ok::<(i32, int), SerializationError>((m.group_epoch, a4.len() as int + b4.len()))) by {
            lemma_seq_assoc(a4, b4, t5);
            lemma_i32_roundtrip(a4, m.group_epoch, t5);
        }
        lemma_seq_assoc(a4, b4, t5);
        let a5 = a4 + b4;
        assert(parse_i32(s, a5.len() as int) == Ok::<(i32, int), SerializationError>((m.assignment_epoch, a5.len() as int + b5.len()))) by {
            lemma_seq_assoc(a5, b5, t6);
            lemma_i32_roundtrip(a5, m.assignment_epoch, t6);
        }
        lemma_seq_assoc(a5, b5, t6);
        let a6 = a5 + b5;
        assert(parse_string(s, a6.len() as int, ctx.flexible) == Ok::<(Seq<char>, int), SerializationError>((m.assignor_name, a6.len() as int + b6.len()))) by {
            assert(string_bytes(m.assignor_name, ctx.flexible) is Ok);
            lemma_seq_assoc(a6, b6, t7);
            lemma_string_roundtrip(a6, m.assignor_name, t7, ctx.flexible);
        }
        lemma_seq_assoc(a6, b6, t7);
        let a7 = a6 + b6;
        assert(parse_array::<Member>(s, a7.len() as int, Ctx { version: ctx.version, flexible: ctx.flexible, classic: false }) == Ok::<(Seq<<Member as DeepView>::V>, int), SerializationError>((m.members, a7.len() as int + b7.len()))) by {
            assert(array_bytes::<Member>(m.members, Ctx { version: ctx.version, flexible: ctx.flexible, classic: false }) is Ok);
            lemma_seq_assoc(a7, b7, t8);
            lemma_items_read_back::<Member>(m.members, Ctx { version: ctx.version, flexible: ctx.flexible, classic: false });
            lemma_array_roundtrip::<Member>(a7, m.members, t8, Ctx { version: ctx.version, flexible: ctx.flexible, classic: false });
        }
        lemma_seq_assoc(a7, b7, t8);
        let a8 = a7 + b7;
        assert(parse_i32(s, a8.len() as int) == Ok::<(i32, int), SerializationError>((m.authorized_operations, a8.len() as int + b8.len()))) by {
            lemma_seq_assoc(a8, b8, t9);
            lemma_i32_roundtrip(a8, m.authorized_operations, t9);
        }
        lemma_seq_assoc(a8, b8, t9);
        let a9 = a8 + b8;
        if ctx.flexible {
            assert(parse_uvarint(s, a9.len() as int) == Ok::<(u64, int), SerializationError>((0u64, a9.len() as int + b9.len()))) by {
                lemma_seq_assoc(a9, b9, t10);
                lemma_uvarint_roundtrip(a9, 0, t10);
            }
        }
    }

    /// The bytes written: the encoding of each field, in the order of the
    /// protocol's layout. Reading them back, wherever they stand, gives the value,
    /// with each field that the version leaves out at its default.
    #[verifier::spinoff_prover]
    pub proof fn lemma_body_layout(pre: Seq<u8>, m: DescribedGroupModel, post: Seq<u8>, ctx: Ctx)
        requires
            Self::spec_encode_body(m, ctx) is Ok,
        ensures
            Self::spec_encode_body(m, ctx) == Ok::<Seq<u8>, SerializationError>((i16_bytes(m.error_code)) + ((nullable_string_bytes(m.error_message, ctx.flexible))->Ok_0) + ((string_bytes(m.group_id, ctx.flexible))->Ok_0) + ((string_bytes(m.group_state, ctx.flexible))->Ok_0) + (i32_bytes(m.group_epoch)) + (i32_bytes(m.assignment_epoch)) + ((string_bytes(m.assignor_name, ctx.flexible))->Ok_0) + ((array_bytes::<Member>(m.members, Ctx { version: ctx.version, flexible: ctx.flexible, classic: false }))->Ok_0) + (i32_bytes(m.authorized_operations)) + (if ctx.flexible { uvarint_bytes(0) } else { Seq::<u8>::empty() })),
            Self::reads_back_body(m, ctx) ==> Self::spec_decode_body(pre + ((i16_bytes(m.error_code)) + ((nullable_string_bytes(m.error_message, ctx.flexible))->Ok_0) + ((string_bytes(m.group_id, ctx.flexible))->Ok_0) + ((string_bytes(m.group_state, ctx.flexible))->Ok_0) + (i32_bytes(m.group_epoch)) + (i32_bytes(m.assignment_epoch)) + ((string_bytes(m.assignor_name, ctx.flexible))->Ok_0) + ((array_bytes::<Member>(m.members, Ctx { version: ctx.version, flexible: ctx.flexible, classic: false }))->Ok_0) + (i32_bytes(m.authorized_operations)) + (if ctx.flexible { uvarint_bytes(0) } else { Seq::<u8>::empty() })) + post, pre.len() as int, ctx) == Ok::<(DescribedGroupModel, int), SerializationError>((m, pre.len() as int + ((i16_bytes(m.error_code)) + ((nullable_string_bytes(m.error_message, ctx.flexible))->Ok_0) + ((string_bytes(m.group_id, ctx.flexible))->Ok_0) + ((string_bytes(m.group_state, ctx.flexible))->Ok_0) + (i32_bytes(m.group_epoch)) + (i32_bytes(m.assignment_epoch)) + ((string_bytes(m.assignor_name, ctx.flexible))->Ok_0) + ((array_bytes::<Member>(m.members, Ctx { version: ctx.version, flexible: ctx.flexible, classic: false }))->Ok_0) + (i32_bytes(m.authorized_operations)) + (if ctx.flexible { uvarint_bytes(0) } else { Seq::<u8>::empty() })).len())),
    {
        let b0 = i16_bytes(m.error_code);
        let b1 = (nullable_string_bytes(m.error_message, ctx.flexible))->Ok_0;
        let b2 = (string_bytes(m.group_id, ctx.flexible))->Ok_0;
        let b3 = (string_bytes(m.group_state, ctx.flexible))->Ok_0;
        let b4 = i32_bytes(m.group_epoch);
        let b5 = i32_bytes(m.assignment_epoch);
        let b6 = (string_bytes(m.assignor_name, ctx.flexible))->Ok_0;
        let b7 = (array_bytes::<Member>(m.members, Ctx { version: ctx.version, flexible: ctx.flexible, classic: false }))->Ok_0;
        let b8 = i32_bytes(m.authorized_operations);
        let b9 = if ctx.flexible { uvarint_bytes(0) } else { Seq::<u8>::empty() };
        let e = Self::spec_encode_body(m, ctx)->Ok_0;
        let p1 = Self::spec_encode_body_part1(m, ctx)->Ok_0;
        assert(p1 =~= Seq::<u8>::empty() + b0 + b1 + b2 + b3 + b4);
        let p2 = Self::spec_encode_body_part2(m, ctx)->Ok_0;
        assert(p2 =~= Seq::<u8>::empty() + b5 + b6 + b7 + b8 + b9);
        assert(e == Seq::<u8>::empty() + p1 + p2);
        assert(e =~= b0 + b1 + b2 + b3 + b4 + b5 + b6 + b7 + b8 + b9);
        if Self::reads_back_body(m, ctx) {
            Self::lemma_body_read_back(pre, m, post, ctx);
        }
    }

    /// Writing succeeds exactly when every field that the version carries can be
    /// encoded and every field that it leaves out, where leaving it out is an
    /// error, holds its default.
    #[verifier::spinoff_prover]
    pub proof fn lemma_body_write_succeeds(m: DescribedGroupModel, ctx: Ctx)
        ensures
            Self::spec_encode_body(m, ctx) is Ok <==> (nullable_string_bytes(m.error_message, ctx.flexible) is Ok) && (string_bytes(m.group_id, ctx.flexible) is Ok) && (string_bytes(m.group_state, ctx.flexible) is Ok) && (string_bytes(m.assignor_name, ctx.flexible) is Ok) && (array_bytes::<Member>(m.members, Ctx { version: ctx.version, flexible: ctx.flexible, classic: false }) is Ok),
    {
    }

    /// Writes the structure for `version`, with the compact encodings when `is_flexible`.
    /// On failure the buffer is left as it was.
    pub fn encode(&self, buf: &mut Vec<u8>, version: ApiVersion, is_flexible: bool) -> (r: Result<(), SerializationError>)
        ensures
            write_exact(r, old(buf)@, final(buf)@, Self::spec_encode_body(self.deep_view(), Ctx { version: version.0, flexible: is_flexible, classic: false })),
    {
        let start = buf.len();
        let r = self.encode_ctx(buf, Ctx::new(version, is_flexible));
        if r.is_err() {
            buf.truncate(start);
        }
        r
    }

    /// Reads the structure as written for `version`.
    /// On failure the reader is put back where it started.
    #[verifier::spinoff_prover]
    pub fn decode(buf: &mut Reader, version: ApiVersion, is_flexible: bool) -> (r: Result<Self, SerializationError>)
        ensures
            final(buf).bytes() == old(buf).bytes(),
            read_view_exact(r, Self::spec_decode_body(old(buf).bytes(), old(buf).pos(), Ctx { version: version.0, flexible: is_flexible, classic: false }), old(buf).pos(), final(buf).pos()),
    {
        let start = buf.position();
        let r = Self::decode_ctx(buf, Ctx::new(version, is_flexible));
        if r.is_err() {
            buf.set_position(start);
        }
        r
    }
}

impl KafkaCodec for DescribedGroup {
    open spec fn spec_encode(m: DescribedGroupModel, ctx: Ctx) -> Result<Seq<u8>, SerializationError> {
        Self::spec_encode_body(m, ctx)
    }

    open spec fn spec_decode(s: Seq<u8>, pos: int, ctx: Ctx) -> Result<(DescribedGroupModel, int), SerializationError> {
        Self::spec_decode_body(s, pos, ctx)
    }

    open spec fn reads_back(v: DescribedGroupModel, ctx: Ctx) -> bool {
        Self::reads_back_body(v, ctx)
    }

    proof fn lemma_read_back(pre: Seq<u8>, v: DescribedGroupModel, post: Seq<u8>, ctx: Ctx) {
        Self::lemma_body_read_back(pre, v, post, ctx);
        assert(Self::spec_decode(pre + Self::spec_encode(v, ctx)->Ok_0 + post, pre.len() as int, ctx)
            == Self::spec_decode_body(pre + Self::spec_encode_body(v, ctx)->Ok_0 + post, pre.len() as int, ctx));
    }

    #[verifier::spinoff_prover]
    fn encode_ctx(&self, buf: &mut Vec<u8>, ctx: Ctx) -> (r: Result<(), SerializationError>) {
        let ghost mut w: Seq<u8> = Seq::empty();
        self.encode_body_part1(buf, ctx)?;
        proof {
            w = w + (Self::spec_encode_body_part1(self.deep_view(), ctx))->Ok_0;
        }
        assert(buf@ =~= old(buf)@ + w);
        self.encode_body_part2(buf, ctx)?;
        proof {
            w = w + (Self::spec_encode_body_part2(self.deep_view(), ctx))->Ok_0;
        }
        assert(buf@ =~= old(buf)@ + w);
        Ok(())
    }

    #[verifier::spinoff_prover]
    fn decode_ctx(buf: &mut Reader, ctx: Ctx) -> (r: Result<Self, SerializationError>) {
        let error_code = buf.get_i16()?;
        let error_message = buf.get_nullable_string(ctx.flexible)?;
        let group_id = buf.get_string(ctx.flexible)?;
        let group_state = buf.get_string(ctx.flexible)?;
        let group_epoch = buf.get_i32()?;
        let assignment_epoch = buf.get_i32()?;
        let assignor_name = buf.get_string(ctx.flexible)?;
        let members = decode_array::<Member>(buf, Ctx { version: ctx.version, flexible: ctx.flexible, classic: false })?;
        let authorized_operations = buf.get_i32()?;
        if ctx.flexible {
            let (_tag_count, _) = decode_unsigned_varint(buf)?;
        }
        Ok(DescribedGroup { error_code, error_message, group_id, group_state, group_epoch, assignment_epoch, assignor_name, members, authorized_operations })
    }
}

// -------------------------------------------------------
// Member
// -------------------------------------------------------
#[derive(Clone, Debug, Default, PartialEq)]
pub struct Member {
    /// The member ID.
    pub member_id: String,
    /// The member instance ID.
    pub instance_id: Option<String>,
    /// The member rack ID.
    pub rack_id: Option<String>,
    /// The current member epoch.
    pub member_epoch: i32,
    /// The client ID.
    pub client_id: String,
    /// The client host.
    pub client_host: String,
    /// The subscribed topic names.
    pub subscribed_topic_names: Vec<String>,
    /// the subscribed topic regex otherwise or null of not provided.
    pub subscribed_topic_regex: Option<String>,
    /// The current assignment.
    pub assignment: Assignment,
    /// The target assignment.
    pub target_assignment: Assignment,
    /// -1 for unknown. 0 for classic member. +1 for consumer member.
    /// Available in version 1+.
    pub member_type: i8,
}

/// The contents of `Member`, with strings as characters and
/// nested values by their contents.
pub struct MemberModel {
    pub member_id: Seq<char>,
    pub instance_id: Option<Seq<char>>,
    pub rack_id: Option<Seq<char>>,
    pub member_epoch: i32,
    pub client_id: Seq<char>,
    pub client_host: Seq<char>,
    pub subscribed_topic_names: Seq<<String as DeepView>::V>,
    pub subscribed_topic_regex: Option<Seq<char>>,
    pub assignment: AssignmentModel,
    pub target_assignment: AssignmentModel,
    pub member_type: i8,
}

impl DeepView for Member {
    type V = MemberModel;

    open spec fn deep_view(&self) -> MemberModel {
        MemberModel {
            member_id: self.member_id.deep_view(),
            instance_id: self.instance_id.deep_view(),
            rack_id: self.rack_id.deep_view(),
            member_epoch: self.member_epoch,
            client_id: self.client_id.deep_view(),
            client_host: self.client_host.deep_view(),
            subscribed_topic_names: self.subscribed_topic_names.deep_view(),
            subscribed_topic_regex: self.subscribed_topic_regex.deep_view(),
            assignment: self.assignment.deep_view(),
            target_assignment: self.target_assignment.deep_view(),
            member_type: self.member_type,
        }
    }
}

impl Member {
    /// Fields 1 to 5 of the encoding.
    pub open spec fn spec_encode_body_part1(m: MemberModel, ctx: Ctx) -> Result<Seq<u8>, SerializationError> {
        let r = Ok(Seq::<u8>::empty());
        let r = then(r, string_bytes(m.member_id, ctx.flexible));
        let r = then(r, nullable_string_bytes(m.instance_id, ctx.flexible));
        let r = then(r, nullable_string_bytes(m.rack_id, ctx.flexible));
        let r = then(r, Ok(i32_bytes(m.member_epoch)));
        let r = then(r, string_bytes(m.client_id, ctx.flexible));
        r
    }

    #[verifier::spinoff_prover]
    fn encode_body_part1(&self, buf: &mut Vec<u8>, ctx: Ctx) -> (r: Result<(), SerializationError>)
        ensures
            write_ok(r, old(buf)@, final(buf)@, Self::spec_encode_body_part1(self.deep_view(), ctx)),
    {
        let ghost mut w: Seq<u8> = Seq::empty();
        encode_string(&self.member_id, buf, ctx.flexible)?;
        proof {
            w = w + (string_bytes(self.member_id.deep_view(), ctx.flexible))->Ok_0;
        }
        assert(buf@ =~= old(buf)@ + w);
        encode_nullable_string(&self.instance_id, buf, ctx.flexible)?;
        proof {
            w = w + (nullable_string_bytes(self.instance_id.deep_view(), ctx.flexible))->Ok_0;
        }
        assert(buf@ =~= old(buf)@ + w);
        encode_nullable_string(&self.rack_id, buf, ctx.flexible)?;
        proof {
            w = w + (nullable_string_bytes(self.rack_id.deep_view(), ctx.flexible))->Ok_0;
        }
        assert(buf@ =~= old(buf)@ + w);
        put_i32(buf, self.member_epoch);
        proof {
            w = w + i32_bytes(self.member_epoch);
        }
        assert(buf@ =~= old(buf)@ + w);
        encode_string(&self.client_id, buf, ctx.flexible)?;
        proof {
            w = w + (string_bytes(self.client_id.deep_view(), ctx.flexible))->Ok_0;
        }
        assert(buf@ =~= old(buf)@ + w);
        Ok(())
    }

    /// Fields 6 to 12 of the encoding.
    pub open spec fn spec_encode_body_part2(m: MemberModel, ctx: Ctx) -> Result<Seq<u8>, SerializationError> {
        let r = Ok(Seq::<u8>::empty());
        let r = then(r, string_bytes(m.client_host, ctx.flexible));
        let r = then(r, array_bytes::<String>(m.subscribed_topic_names, Ctx { version: ctx.version, flexible: ctx.flexible, classic: false }));
        let r = then(r, nullable_string_bytes(m.subscribed_topic_regex, ctx.flexible));
        let r = then(r, <Assignment as KafkaCodec>::spec_encode(m.assignment, Ctx { version: ctx.version, flexible: ctx.flexible, classic: false }));
        let r = then(r, <Assignment as KafkaCodec>::spec_encode(m.target_assignment, Ctx { version: ctx.version, flexible: ctx.flexible, classic: false }));
        let r = if 1 <= ctx.version { then(r, Ok(i8_bytes(m.member_type))) } else { r };
        let r = if ctx.flexible { then(r, Ok(uvarint_bytes(0))) } else { r };
        r
    }

    #[verifier::spinoff_prover]
    fn encode_body_part2(&self, buf: &mut Vec<u8>, ctx: Ctx) -> (r: Result<(), SerializationError>)
        ensures
            write_ok(r, old(buf)@, final(buf)@, Self::spec_encode_body_part2(self.deep_view(), ctx)),
    {
        let ghost mut w: Seq<u8> = Seq::empty();
        encode_string(&self.client_host, buf, ctx.flexible)?;
        proof {
            w = w + (string_bytes(self.client_host.deep_view(), ctx.flexible))->Ok_0;
        }
        assert(buf@ =~= old(buf)@ + w);
        encode_array(&self.subscribed_topic_names, buf, Ctx { version: ctx.version, flexible: ctx.flexible, classic: false })?;
        proof {
            w = w + (array_bytes::<String>(self.subscribed_topic_names.deep_view(), Ctx { version: ctx.version, flexible: ctx.flexible, classic: false }))->Ok_0;
        }
        assert(buf@ =~= old(buf)@ + w);
        encode_nullable_string(&self.subscribed_topic_regex, buf, ctx.flexible)?;
        proof {
            w = w + (nullable_string_bytes(self.subscribed_topic_regex.deep_view(), ctx.flexible))->Ok_0;
        }
        assert(buf@ =~= old(buf)@ + w);
        self.assignment.encode_ctx(buf, Ctx { version: ctx.version, flexible: ctx.flexible, classic: false })?;
        proof {
            w = w + (<Assignment as KafkaCodec>::spec_encode(self.assignment.deep_view(), Ctx { version: ctx.version, flexible: ctx.flexible, classic: false }))->Ok_0;
        }
        assert(buf@ =~= old(buf)@ + w);
        self.target_assignment.encode_ctx(buf, Ctx { version: ctx.version, flexible: ctx.flexible, classic: false })?;
        proof {
            w = w + (<Assignment as KafkaCodec>::spec_encode(self.target_assignment.deep_view(), Ctx { version: ctx.version, flexible: ctx.flexible, classic: false }))->Ok_0;
        }
        assert(buf@ =~= old(buf)@ + w);
        if 1 <= ctx.version {
            put_i8(buf, self.member_type);
            proof {
                w = w + i8_bytes(self.member_type);
            }
            assert(buf@ =~= old(buf)@ + w);
        }
        if ctx.flexible {
            encode_unsigned_varint(0, buf);
            proof {
                w = w + uvarint_bytes(0);
            }
            assert(buf@ =~= old(buf)@ + w);
        }
        Ok(())
    }

    /// The encoding of the structure in context `ctx`.
    pub open spec fn spec_encode_body(m: MemberModel, ctx: Ctx) -> Result<Seq<u8>, SerializationError> {
        let r = Ok(Seq::<u8>::empty());
        let r = then(r, Self::spec_encode_body_part1(m, ctx));
        let r = then(r, Self::spec_encode_body_part2(m, ctx));
        r
    }

    /// The structure read from `s` at `pos` in context `ctx`.
    pub open spec fn spec_decode_body(s: Seq<u8>, pos: int, ctx: Ctx) -> Result<(MemberModel, int), SerializationError> {
        match parse_string(s, pos, ctx.flexible) {
            Err(e) => Err(e),
            Ok((member_id, pos)) =>
            match parse_nullable_string(s, pos, ctx.flexible) {
                Err(e) => Err(e),
                Ok((instance_id, pos)) =>
                match parse_nullable_string(s, pos, ctx.flexible) {
                    Err(e) => Err(e),
                    Ok((rack_id, pos)) =>
                    match parse_i32(s, pos) {
                        Err(e) => Err(e),
                        Ok((member_epoch, pos)) =>
                        match parse_string(s, pos, ctx.flexible) {
                            Err(e) => Err(e),
                            Ok((client_id, pos)) =>
                            match parse_string(s, pos, ctx.flexible) {
                                Err(e) => Err(e),
                                Ok((client_host, pos)) =>
                                match parse_array::<String>(s, pos, Ctx { version: ctx.version, flexible: ctx.flexible, classic: false }) {
                                    Err(e) => Err(e),
                                    Ok((subscribed_topic_names, pos)) =>
                                    match parse_nullable_string(s, pos, ctx.flexible) {
                                        Err(e) => Err(e),
                                        Ok((subscribed_topic_regex, pos)) =>
                                        match <Assignment as KafkaCodec>::spec_decode(s, pos, Ctx { version: ctx.version, flexible: ctx.flexible, classic: false }) {
                                            Err(e) => Err(e),
                                            Ok((assignment, pos)) =>
                                            match <Assignment as KafkaCodec>::spec_decode(s, pos, Ctx { version: ctx.version, flexible: ctx.flexible, classic: false }) {
                                                Err(e) => Err(e),
                                                Ok((target_assignment, pos)) =>
                                                match (if 1 <= ctx.version { parse_i8(s, pos) } else { Ok((0i8, pos)) }) {
                                                    Err(e) => Err(e),
                                                    Ok((member_type, pos)) =>
                                                    match (if ctx.flexible { parse_uvarint(s, pos) } else { Ok((0u64, pos)) }) {
                                                        Err(e) => Err(e),
                                                        Ok((_tag_count, pos)) =>
                                                        Ok((MemberModel { member_id, instance_id, rack_id, member_epoch, client_id, client_host, subscribed_topic_names, subscribed_topic_regex, assignment, target_assignment, member_type }, pos))
                                                    }
                                                }
                                            }
                                        }
                                    }
                                }
                            }
                        }
                    }
                }
            }
        }
    }

    /// The structure as it reads back in context `ctx`: each field that the
    /// version leaves out is at its default.
    #[verifier::opaque]
    pub open spec fn spec_read_as(m: MemberModel, ctx: Ctx) -> MemberModel {
        MemberModel { member_id: m.member_id, instance_id: m.instance_id, rack_id: m.rack_id, member_epoch: m.member_epoch, client_id: m.client_id, client_host: m.client_host, subscribed_topic_names: m.subscribed_topic_names, subscribed_topic_regex: m.subscribed_topic_regex, assignment: m.assignment, target_assignment: m.target_assignment, member_type: if 1 <= ctx.version { m.member_type } else { 0i8 } }
    }

    /// Values that read back in context `ctx`: nested values read back. A field
    /// that the version leaves out is read as its default.
    pub open spec fn reads_back_body(m: MemberModel, ctx: Ctx) -> bool {
        &&& forall|i: int| 0 <= i < m.subscribed_topic_names.len() ==> #[trigger] <String as KafkaCodec>::reads_back(m.subscribed_topic_names[i], Ctx { version: ctx.version, flexible: ctx.flexible, classic: false })
        &&& <Assignment as KafkaCodec>::reads_back(m.assignment, Ctx { version: ctx.version, flexible: ctx.flexible, classic: false })
        &&& <Assignment as KafkaCodec>::reads_back(m.target_assignment, Ctx { version: ctx.version, flexible: ctx.flexible, classic: false })
    }

    /// A value that can be written in context `ctx` and reads back: decoding its
    /// encoding, wherever it stands, gives the value as `spec_read_as` gives it and
    /// the position just after it.
    #[verifier::spinoff_prover]
    pub proof fn lemma_body_read_back(pre: Seq<u8>, m: MemberModel, post: Seq<u8>, ctx: Ctx)
        requires
            Self::spec_encode_body(m, ctx) is Ok,
            Self::reads_back_body(m, ctx),
        ensures
            Self::spec_decode_body(pre + Self::spec_encode_body(m, ctx)->Ok_0 + post, pre.len() as int, ctx) == Ok::<(MemberModel, int), SerializationError>((Self::spec_read_as(m, ctx), pre.len() as int + Self::spec_encode_body(m, ctx)->Ok_0.len())),
    {
        reveal(Member::spec_read_as);
        let b0 = (string_bytes(m.member_id, ctx.flexible))->Ok_0;
        let b1 = (nullable_string_bytes(m.instance_id, ctx.flexible))->Ok_0;
        let b2 = (nullable_string_bytes(m.rack_id, ctx.flexible))->Ok_0;
        let b3 = i32_bytes(m.member_epoch);
        let b4 = (string_bytes(m.client_id, ctx.flexible))->Ok_0;
        let b5 = (string_bytes(m.client_host, ctx.flexible))->Ok_0;
        let b6 = (array_bytes::<String>(m.subscribed_topic_names, Ctx { version: ctx.version, flexible: ctx.flexible, classic: false }))->Ok_0;
        let b7 = (nullable_string_bytes(m.subscribed_topic_regex, ctx.flexible))->Ok_0;
        let b8 = (<Assignment as KafkaCodec>::spec_encode(m.assignment, Ctx { version: ctx.version, flexible: ctx.flexible, classic: false }))->Ok_0;
        let b9 = (<Assignment as KafkaCodec>::spec_encode(m.target_assignment, Ctx { version: ctx.version, flexible: ctx.flexible, classic: false }))->Ok_0;
        let b10 = if 1 <= ctx.version { i8_bytes(m.member_type) } else { Seq::<u8>::empty() };
        let b11 = if ctx.flexible { uvarint_bytes(0) } else { Seq::<u8>::empty() };
        let t12 = post;
        let t11 = b11 + t12;
        let t10 = b10 + t11;
        let t9 = b9 + t10;
        let t8 = b8 + t9;
        let t7 = b7 + t8;
        let t6 = b6 + t7;
        let t5 = b5 + t6;
        let t4 = b4 + t5;
        let t3 = b3 + t4;
        let t2 = b2 + t3;
        let t1 = b1 + t2;
        let t0 = b0 + t1;
        let e = Self::spec_encode_body(m, ctx)->Ok_0;
        let p1 = Self::spec_encode_body_part1(m, ctx)->Ok_0;
        assert(p1 =~= Seq::<u8>::empty() + b0 + b1 + b2 + b3 + b4);
        lemma_seq_assoc(((((Seq::<u8>::empty() + b0) + b1) + b2) + b3), b4, t5);
        lemma_seq_assoc((((Seq::<u8>::empty() + b0) + b1) + b2), b3, (b4 + t5));
        lemma_seq_assoc(((Seq::<u8>::empty() + b0) + b1), b2, (b3 + (b4 + t5)));
        lemma_seq_assoc((Seq::<u8>::empty() + b0), b1, (b2 + (b3 + (b4 + t5))));
        lemma_seq_assoc(Seq::<u8>::empty(), b0, (b1 + (b2 + (b3 + (b4 + t5)))));
        lemma_seq_empty_left((b0 + (b1 + (b2 + (b3 + (b4 + t5))))));
        let p2 = Self::spec_encode_body_part2(m, ctx)->Ok_0;
        assert(p2 =~= Seq::<u8>::empty() + b5 + b6 + b7 + b8 + b9 + b10 + b11);
        lemma_seq_assoc(((((((Seq::<u8>::empty() + b5) + b6) + b7) + b8) + b9) + b10), b11, t12);
        lemma_seq_assoc((((((Seq::<u8>::empty() + b5) + b6) + b7) + b8) + b9), b10, (b11 + t12));
        lemma_seq_assoc(((((Seq::<u8>::empty() + b5) + b6) + b7) + b8), b9, (b10 + (b11 + t12)));
        lemma_seq_assoc((((Seq::<u8>::empty() + b5) + b6) + b7), b8, (b9 + (b10 + (b11 + t12))));
        lemma_seq_assoc(((Seq::<u8>::empty() + b5) + b6), b7, (b8 + (b9 + (b10 + (b11 + t12)))));
        lemma_seq_assoc((Seq::<u8>::empty() + b5), b6, (b7 + (b8 + (b9 + (b10 + (b11 + t12))))));
        lemma_seq_assoc(Seq::<u8>::empty(), b5, (b6 + (b7 + (b8 + (b9 + (b10 + (b11 + t12)))))));
        lemma_seq_empty_left((b5 + (b6 + (b7 + (b8 + (b9 + (b10 + (b11 + t12))))))));
        assert(e == Seq::<u8>::empty() + p1 + p2);
        lemma_seq_assoc((Seq::<u8>::empty() + p1), p2, t12);
        lemma_seq_assoc(Seq::<u8>::empty(), p1, (p2 + t12));
        lemma_seq_empty_left((p1 + (p2 + t12)));
        let s = pre + e + post;
        lemma_seq_assoc(pre, e, post);
        assert(s == pre + t0);
        let a0 = pre;
        assert(parse_string(s, a0.len() as int, ctx.flexible) == Ok::<(Seq<char>, int), SerializationError>((m.member_id, a0.len() as int + b0.len()))) by {
            assert(string_bytes(m.member_id, ctx.flexible) is Ok);
            lemma_seq_assoc(a0, b0, t1);
            lemma_string_roundtrip(a0, m.member_id, t1, ctx.flexible);
        }
        lemma_seq_assoc(a0, b0, t1);
        let a1 = a0 + b0;
        assert(parse_nullable_string(s, a1.len() as int, ctx.flexible) == Ok::<(Option<Seq<char>>, int), SerializationError>((m.instance_id, a1.len() as int + b1.len()))) by {
            assert(nullable_string_bytes(m.instance_id, ctx.flexible) is Ok);
            lemma_seq_assoc(a1, b1, t2);
            lemma_nullable_string_roundtrip(a1, m.instance_id, t2, ctx.flexible);
        }
        lemma_seq_assoc(a1, b1, t2);
        let a2 = a1 + b1;
        assert(parse_nullable_string(s, a2.len() as int, ctx.flexible) == Ok::<(Option<Seq<char>>, int), SerializationError>((m.rack_id, a2.len() as int + b2.len()))) by {
            assert(nullable_string_bytes(m.rack_id, ctx.flexible) is Ok);
            lemma_seq_assoc(a2, b2, t3);
            lemma_nullable_string_roundtrip(a2, m.rack_id, t3, ctx.flexible);
        }
        lemma_seq_assoc(a2, b2, t3);
        let a3 = a2 + b2;
        assert(parse_i32(s, a3.len() as int) == Ok::<(i32, int), SerializationError>((m.member_epoch, a3.len() as int + b3.len()))) by {
            lemma_seq_assoc(a3, b3, t4);
            lemma_i32_roundtrip(a3, m.member_epoch, t4);
        }
        lemma_seq_assoc(a3, b3, t4);
        let a4 = a3 + b3;
        assert(parse_string(s, a4.len() as int, ctx.flexible) == Ok::<(Seq<char>, int), SerializationError>((m.client_id, a4.len() as int + b4.len()))) by {
            assert(string_bytes(m.client_id, ctx.flexible) is Ok);
            lemma_seq_assoc(a4, b4, t5);
            lemma_string_roundtrip(a4, m.client_id, t5, ctx.flexible);
        }
        lemma_seq_assoc(a4, b4, t5);
        let a5 = a4 + b4;
        assert(parse_string(s, a5.len() as int, ctx.flexible) == Ok::<(Seq<char>, int), SerializationError>((m.client_host, a5.len() as int + b5.len()))) by {
            assert(string_bytes(m.client_host, ctx.flexible) is Ok);
            lemma_seq_assoc(a5, b5, t6);
            lemma_string_roundtrip(a5, m.client_host, t6, ctx.flexible);
        }
        lemma_seq_assoc(a5, b5, t6);
        let a6 = a5 + b5;
        assert(parse_array::<String>(s, a6.len() as int, Ctx { version: ctx.version, flexible: ctx.flexible, classic: false }) == Ok::<(Seq<<String as DeepView>::V>, int), SerializationError>((m.subscribed_topic_names, a6.len() as int + b6.len()))) by {
            assert(array_bytes::<String>(m.subscribed_topic_names, Ctx { version: ctx.version, flexible: ctx.flexible, classic: false }) is Ok);
            lemma_seq_assoc(a6, b6, t7);
            lemma_items_read_back::<String>(m.subscribed_topic_names, Ctx { version: ctx.version, flexible: ctx.flexible, classic: false });
            lemma_array_roundtrip::<String>(a6, m.subscribed_topic_names, t7, Ctx { version: ctx.version, flexible: ctx.flexible, classic: false });
        }
        lemma_seq_assoc(a6, b6, t7);
        let a7 = a6 + b6;
        assert(parse_nullable_string(s, a7.len() as int, ctx.flexible) == Ok::<(Option<Seq<char>>, int), SerializationError>((m.subscribed_topic_regex, a7.len() as int + b7.len()))) by {
            assert(nullable_string_bytes(m.subscribed_topic_regex, ctx.flexible) is Ok);
            lemma_seq_assoc(a7, b7, t8);
            lemma_nullable_string_roundtrip(a7, m.subscribed_topic_regex, t8, ctx.flexible);
        }
        lemma_seq_assoc(a7, b7, t8);
        let a8 = a7 + b7;
        assert(<Assignment as KafkaCodec>::spec_decode(s, a8.len() as int, Ctx { version: ctx.version, flexible: ctx.flexible, classic: false }) == Ok::<(AssignmentModel, int), SerializationError>((m.assignment, a8.len() as int + b8.len()))) by {
            assert(<Assignment as KafkaCodec>::spec_encode(m.assignment, Ctx { version: ctx.version, flexible: ctx.flexible, classic: false }) is Ok);
            lemma_seq_assoc(a8, b8, t9);
            <Assignment as KafkaCodec>::lemma_read_back(a8, m.assignment, t9, Ctx { version: ctx.version, flexible: ctx.flexible, classic: false });
        }
        lemma_seq_assoc(a8, b8, t9);
        let a9 = a8 + b8;
        assert(<Assignment as KafkaCodec>::spec_decode(s, a9.len() as int, Ctx { version: ctx.version, flexible: ctx.flexible, classic: false }) == Ok::<(AssignmentModel, int), SerializationError>((m.target_assignment, a9.len() as int + b9.len()))) by {
            assert(<Assignment as KafkaCodec>::spec_encode(m.target_assignment, Ctx { version: ctx.version, flexible: ctx.flexible, classic: false }) is Ok);
            lemma_seq_assoc(a9, b9, t10);
            <Assignment as KafkaCodec>::lemma_read_back(a9, m.target_assignment, t10, Ctx { version: ctx.version, flexible: ctx.flexible, classic: false });
        }
        lemma_seq_assoc(a9, b9, t10);
        let a10 = a9 + b9;
        if 1 <= ctx.version {
            assert(parse_i8(s, a10.len() as int) == Ok::<(i8, int), SerializationError>((m.member_type, a10.len() as int + b10.len()))) by {
                lemma_seq_assoc(a10, b10, t11);
                lemma_i8_roundtrip(a10, m.member_type, t11);
            }
        }
        lemma_seq_assoc(a10, b10, t11);
        let a11 = a10 + b10;
        if ctx.flexible {
            assert(parse_uvarint(s, a11.len() as int) == Ok::<(u64, int), SerializationError>((0u64, a11.len() as int + b11.len()))) by {
                lemma_seq_assoc(a11, b11, t12);
                lemma_uvarint_roundtrip(a11, 0, t12);
            }
        }
    }

    /// The bytes written: the encoding of each field, in the order of the
    /// protocol's layout. Reading them back, wherever they stand, gives the value,
    /// with each field that the version leaves out at its default.
    #[verifier::spinoff_prover]
    pub proof fn lemma_body_layout(pre: Seq<u8>, m: MemberModel, post: Seq<u8>, ctx: Ctx)
        requires
            Self::spec_encode_body(m, ctx) is Ok,
        ensures
            Self::spec_encode_body(m, ctx) == Ok::<Seq<u8>, SerializationError>(((string_bytes(m.member_id, ctx.flexible))->Ok_0) + ((nullable_string_bytes(m.instance_id, ctx.flexible))->Ok_0) + ((nullable_string_bytes(m.rack_id, ctx.flexible))->Ok_0) + (i32_bytes(m.member_epoch)) + ((string_bytes(m.client_id, ctx.flexible))->Ok_0) + ((string_bytes(m.client_host, ctx.flexible))->Ok_0) + ((array_bytes::<String>(m.subscribed_topic_names, Ctx { version: ctx.version, flexible: ctx.flexible, classic: false }))->Ok_0) + ((nullable_string_bytes(m.subscribed_topic_regex, ctx.flexible))->Ok_0) + ((<Assignment as KafkaCodec>::spec_encode(m.assignment, Ctx { version: ctx.version, flexible: ctx.flexible, classic: false }))->Ok_0) + ((<Assignment as KafkaCodec>::spec_encode(m.target_assignment, Ctx { version: ctx.version, flexible: ctx.flexible, classic: false }))->Ok_0) + (if 1 <= ctx.version { i8_bytes(m.member_type) } else { Seq::<u8>::empty() }) + (if ctx.flexible { uvarint_bytes(0) } else { Seq::<u8>::empty() })),
            Self::reads_back_body(m, ctx) ==> Self::spec_decode_body(pre + (((string_bytes(m.member_id, ctx.flexible))->Ok_0) + ((nullable_string_bytes(m.instance_id, ctx.flexible))->Ok_0) + ((nullable_string_bytes(m.rack_id, ctx.flexible))->Ok_0) + (i32_bytes(m.member_epoch)) + ((string_bytes(m.client_id, ctx.flexible))->Ok_0) + ((string_bytes(m.client_host, ctx.flexible))->Ok_0) + ((array_bytes::<String>(m.subscribed_topic_names, Ctx { version: ctx.version, flexible: ctx.flexible, classic: false }))->Ok_0) + ((nullable_string_bytes(m.subscribed_topic_regex, ctx.flexible))->Ok_0) + ((<Assignment as KafkaCodec>::spec_encode(m.assignment, Ctx { version: ctx.version, flexible: ctx.flexible, classic: false }))->Ok_0) + ((<Assignment as KafkaCodec>::spec_encode(m.target_assignment, Ctx { version: ctx.version, flexible: ctx.flexible, classic: false }))->Ok_0) + (if 1 <= ctx.version { i8_bytes(m.member_type) } else { Seq::<u8>::empty() }) + (if ctx.flexible { uvarint_bytes(0) } else { Seq::<u8>::empty() })) + post, pre.len() as int, ctx) == Ok::<(MemberModel, int), SerializationError>((MemberModel { member_id: m.member_id, instance_id: m.instance_id, rack_id: m.rack_id, member_epoch: m.member_epoch, client_id: m.client_id, client_host: m.client_host, subscribed_topic_names: m.subscribed_topic_names, subscribed_topic_regex: m.subscribed_topic_regex, assignment: m.assignment, target_assignment: m.target_assignment, member_type: if 1 <= ctx.version { m.member_type } else { 0i8 } }, pre.len() as int + (((string_bytes(m.member_id, ctx.flexible))->Ok_0) + ((nullable_string_bytes(m.instance_id, ctx.flexible))->Ok_0) + ((nullable_string_bytes(m.rack_id, ctx.flexible))->Ok_0) + (i32_bytes(m.member_epoch)) + ((string_bytes(m.client_id, ctx.flexible))->Ok_0) + ((string_bytes(m.client_host, ctx.flexible))->Ok_0) + ((array_bytes::<String>(m.subscribed_topic_names, Ctx { version: ctx.version, flexible: ctx.flexible, classic: false }))->Ok_0) + ((nullable_string_bytes(m.subscribed_topic_regex, ctx.flexible))->Ok_0) + ((<Assignment as KafkaCodec>::spec_encode(m.assignment, Ctx { version: ctx.version, flexible: ctx.flexible, classic: false }))->Ok_0) + ((<Assignment as KafkaCodec>::spec_encode(m.target_assignment, Ctx { version: ctx.version, flexible: ctx.flexible, classic: false }))->Ok_0) + (if 1 <= ctx.version { i8_bytes(m.member_type) } else { Seq::<u8>::empty() }) + (if ctx.flexible { uvarint_bytes(0) } else { Seq::<u8>::empty() })).len())),
    {
        let b0 = (string_bytes(m.member_id, ctx.flexible))->Ok_0;
        let b1 = (nullable_string_bytes(m.instance_id, ctx.flexible))->Ok_0;
        let b2 = (nullable_string_bytes(m.rack_id, ctx.flexible))->Ok_0;
        let b3 = i32_bytes(m.member_epoch);
        let b4 = (string_bytes(m.client_id, ctx.flexible))->Ok_0;
        let b5 = (string_bytes(m.client_host, ctx.flexible))->Ok_0;
        let b6 = (array_bytes::<String>(m.subscribed_topic_names, Ctx { version: ctx.version, flexible: ctx.flexible, classic: false }))->Ok_0;
        let b7 = (nullable_string_bytes(m.subscribed_topic_regex, ctx.flexible))->Ok_0;
        let b8 = (<Assignment as KafkaCodec>::spec_encode(m.assignment, Ctx { version: ctx.version, flexible: ctx.flexible, classic: false }))->Ok_0;
        let b9 = (<Assignment as KafkaCodec>::spec_encode(m.target_assignment, Ctx { version: ctx.version, flexible: ctx.flexible, classic: false }))->Ok_0;
        let b10 = if 1 <= ctx.version { i8_bytes(m.member_type) } else { Seq::<u8>::empty() };
        let b11 = if ctx.flexible { uvarint_bytes(0) } else { Seq::<u8>::empty() };
        let e = Self::spec_encode_body(m, ctx)->Ok_0;
        let p1 = Self::spec_encode_body_part1(m, ctx)->Ok_0;
        assert(p1 =~= Seq::<u8>::empty() + b0 + b1 + b2 + b3 + b4);
        let p2 = Self::spec_encode_body_part2(m, ctx)->Ok_0;
        assert(p2 =~= Seq::<u8>::empty() + b5 + b6 + b7 + b8 + b9 + b10 + b11);
        assert(e == Seq::<u8>::empty() + p1 + p2);
        assert(e =~= b0 + b1 + b2 + b3 + b4 + b5 + b6 + b7 + b8 + b9 + b10 + b11);
        if Self::reads_back_body(m, ctx) {
            Self::lemma_body_read_back(pre, m, post, ctx);
            reveal(Member::spec_read_as);
        }
    }

    /// Writing succeeds exactly when every field that the version carries can be
    /// encoded and every field that it leaves out, where leaving it out is an
    /// error, holds its default.
    #[verifier::spinoff_prover]
    pub proof fn lemma_body_write_succeeds(m: MemberModel, ctx: Ctx)
        ensures
            Self::spec_encode_body(m, ctx) is Ok <==> (string_bytes(m.member_id, ctx.flexible) is Ok) && (nullable_string_bytes(m.instance_id, ctx.flexible) is Ok) && (nullable_string_bytes(m.rack_id, ctx.flexible) is Ok) && (string_bytes(m.client_id, ctx.flexible) is Ok) && (string_bytes(m.client_host, ctx.flexible) is Ok) && (array_bytes::<String>(m.subscribed_topic_names, Ctx { version: ctx.version, flexible: ctx.flexible, classic: false }) is Ok) && (nullable_string_bytes(m.subscribed_topic_regex, ctx.flexible) is Ok) && (<Assignment as KafkaCodec>::spec_encode(m.assignment, Ctx { version: ctx.version, flexible: ctx.flexible, classic: false }) is Ok) && (<Assignment as KafkaCodec>::spec_encode(m.target_assignment, Ctx { version: ctx.version, flexible: ctx.flexible, classic: false }) is Ok),
    {
    }

    /// Writes the structure for `version`, with the compact encodings when `is_flexible`.
    /// On failure the buffer is left as it was.
    pub fn encode(&self, buf: &mut Vec<u8>, version: ApiVersion, is_flexible: bool) -> (r: Result<(), SerializationError>)
        ensures
            write_exact(r, old(buf)@, final(buf)@, Self::spec_encode_body(self.deep_view(), Ctx { version: version.0, flexible: is_flexible, classic: false })),
    {
        let start = buf.len();
        let r = self.encode_ctx(buf, Ctx::new(version, is_flexible));
        if r.is_err() {
            buf.truncate(start);
        }
        r
    }

    /// Reads the structure as written for `version`.
    /// On failure the reader is put back where it started.
    #[verifier::spinoff_prover]
    pub fn decode(buf: &mut Reader, version: ApiVersion, is_flexible: bool) -> (r: Result<Self, SerializationError>)
        ensures
            final(buf).bytes() == old(buf).bytes(),
            read_view_exact(r, Self::spec_decode_body(old(buf).bytes(), old(buf).pos(), Ctx { version: version.0, flexible: is_flexible, classic: false }), old(buf).pos(), final(buf).pos()),
    {
        let start = buf.position();
        let r = Self::decode_ctx(buf, Ctx::new(version, is_flexible));
        if r.is_err() {
            buf.set_position(start);
        }
        r
    }
}

impl KafkaCodec for Member {
    open spec fn spec_encode(m: MemberModel, ctx: Ctx) -> Result<Seq<u8>, SerializationError> {
        Self::spec_encode_body(m, ctx)
    }

    open spec fn spec_decode(s: Seq<u8>, pos: int, ctx: Ctx) -> Result<(MemberModel, int), SerializationError> {
        Self::spec_decode_body(s, pos, ctx)
    }

    open spec fn reads_back(v: MemberModel, ctx: Ctx) -> bool {
        Self::reads_back_body(v, ctx) && Self::spec_read_as(v, ctx) == v
    }

    proof fn lemma_read_back(pre: Seq<u8>, v: MemberModel, post: Seq<u8>, ctx: Ctx) {
        Self::lemma_body_read_back(pre, v, post, ctx);
        assert(Self::spec_decode(pre + Self::spec_encode(v, ctx)->Ok_0 + post, pre.len() as int, ctx)
            == Self::spec_decode_body(pre + Self::spec_encode_body(v, ctx)->Ok_0 + post, pre.len() as int, ctx));
    }

    #[verifier::spinoff_prover]
    fn encode_ctx(&self, buf: &mut Vec<u8>, ctx: Ctx) -> (r: Result<(), SerializationError>) {
        let ghost mut w: Seq<u8> = Seq::empty();
        self.encode_body_part1(buf, ctx)?;
        proof {
            w = w + (Self::spec_encode_body_part1(self.deep_view(), ctx))->Ok_0;
        }
        assert(buf@ =~= old(buf)@ + w);
        self.encode_body_part2(buf, ctx)?;
        proof {
            w = w + (Self::spec_encode_body_part2(self.deep_view(), ctx))->Ok_0;
        }
        assert(buf@ =~= old(buf)@ + w);
        Ok(())
    }

    #[verifier::spinoff_prover]
    fn decode_ctx(buf: &mut Reader, ctx: Ctx) -> (r: Result<Self, SerializationError>) {
        let member_id = buf.get_string(ctx.flexible)?;
        let instance_id = buf.get_nullable_string(ctx.flexible)?;
        let rack_id = buf.get_nullable_string(ctx.flexible)?;
        let member_epoch = buf.get_i32()?;
        let client_id = buf.get_string(ctx.flexible)?;
        let client_host = buf.get_string(ctx.flexible)?;
        let subscribed_topic_names = decode_array::<String>(buf, Ctx { version: ctx.version, flexible: ctx.flexible, classic: false })?;
        let subscribed_topic_regex = buf.get_nullable_string(ctx.flexible)?;
        let assignment = <Assignment as KafkaCodec>::decode_ctx(buf, Ctx { version: ctx.version, flexible: ctx.flexible, classic: false })?;
        let target_assignment = <Assignment as KafkaCodec>::decode_ctx(buf, Ctx { version: ctx.version, flexible: ctx.flexible, classic: false })?;
        let member_type = if 1 <= ctx.version {
            buf.get_i8()?
        } else {
            0i8
        };
        if ctx.flexible {
            let (_tag_count, _) = decode_unsigned_varint(buf)?;
        }
        Ok(Member { member_id, instance_id, rack_id, member_epoch, client_id, client_host, subscribed_topic_names, subscribed_topic_regex, assignment, target_assignment, member_type })
    }
}

// -------------------------------------------------------
// TopicPartitions
// -------------------------------------------------------
#[derive(Clone, Debug, Default, PartialEq)]
pub struct TopicPartitions {
    /// The topic ID.
    pub topic_id: [u8; 16],
    /// The topic name.
    pub topic_name: String,
    /// The partitions.
    pub partitions: Vec<i32>,
}

/// The contents of `TopicPartitions`, with strings as characters and
/// nested values by their contents.
pub struct TopicPartitionsModel {
    pub topic_id: Seq<u8>,
    pub topic_name: Seq<char>,
    pub partitions: Seq<<i32 as DeepView>::V>,
}

impl DeepView for TopicPartitions {
    type V = TopicPartitionsModel;

    open spec fn deep_view(&self) -> TopicPartitionsModel {
        TopicPartitionsModel {
            topic_id: self.topic_id@,
            topic_name: self.topic_name.deep_view(),
            partitions: self.partitions.deep_view(),
        }
    }
}

impl TopicPartitions {
    /// The encoding of the structure in context `ctx`.
    pub open spec fn spec_encode_body(m: TopicPartitionsModel, ctx: Ctx) -> Result<Seq<u8>, SerializationError> {
        let r = Ok(Seq::<u8>::empty());
        let r = then(r, Ok(m.topic_id));
        let r = then(r, string_bytes(m.topic_name, ctx.flexible));
        let r = then(r, array_bytes::<i32>(m.partitions, Ctx { version: ctx.version, flexible: ctx.flexible, classic: false }));
        let r = if ctx.flexible { then(r, Ok(uvarint_bytes(0))) } else { r };
        r
    }

    /// The structure read from `s` at `pos` in context `ctx`.
    pub open spec fn spec_decode_body(s: Seq<u8>, pos: int, ctx: Ctx) -> Result<(TopicPartitionsModel, int), SerializationError> {
        match parse_raw(s, pos, 16) {
            Err(e) => Err(e),
            Ok((topic_id, pos)) =>
            match parse_string(s, pos, ctx.flexible) {
                Err(e) => Err(e),
                Ok((topic_name, pos)) =>
                match parse_array::<i32>(s, pos, Ctx { version: ctx.version, flexible: ctx.flexible, classic: false }) {
                    Err(e) => Err(e),
                    Ok((partitions, pos)) =>
                    match (if ctx.flexible { parse_uvarint(s, pos) } else { Ok((0u64, pos)) }) {
                        Err(e) => Err(e),
                        Ok((_tag_count, pos)) =>
                        Ok((TopicPartitionsModel { topic_id, topic_name, partitions }, pos))
                    }
                }
            }
        }
    }

    /// Values of the structure that read back from their encoding in `ctx`: every
    /// field that the version leaves out holds its default, and nested values
    /// read back.
    pub open spec fn reads_back_body(m: TopicPartitionsModel, ctx: Ctx) -> bool {
        &&& m.topic_id.len() == 16
        &&& forall|i: int| 0 <= i < m.partitions.len() ==> #[trigger] <i32 as KafkaCodec>::reads_back(m.partitions[i], Ctx { version: ctx.version, flexible: ctx.flexible, classic: false })
    }

    /// A value that can be written in `ctx` and reads back: decoding its encoding,
    /// wherever it stands, gives the value and the position just after it.
    #[verifier::spinoff_prover]
    pub proof fn lemma_body_read_back(pre: Seq<u8>, m: TopicPartitionsModel, post: Seq<u8>, ctx: Ctx)
        requires
            Self::spec_encode_body(m, ctx) is Ok,
            Self::reads_back_body(m, ctx),
        ensures
            Self::spec_decode_body(pre + Self::spec_encode_body(m, ctx)->Ok_0 + post, pre.len() as int, ctx) == Ok::<(TopicPartitionsModel, int), SerializationError>((m, pre.len() as int + Self::spec_encode_body(m, ctx)->Ok_0.len())),
    {
        let b0 = m.topic_id;
        let b1 = (string_bytes(m.topic_name, ctx.flexible))->Ok_0;
        let b2 = (array_bytes::<i32>(m.partitions, Ctx { version: ctx.version, flexible: ctx.flexible, classic: false }))->Ok_0;
        let b3 = if ctx.flexible { uvarint_bytes(0) } else { Seq::<u8>::empty() };
        let t4 = post;
        let t3 = b3 + t4;
        let t2 = b2 + t3;
        let t1 = b1 + t2;
        let t0 = b0 + t1;
        let e = Self::spec_encode_body(m, ctx)->Ok_0;
        assert(e =~= Seq::<u8>::empty() + b0 + b1 + b2 + b3);
        lemma_seq_assoc((((Seq::<u8>::empty() + b0) + b1) + b2), b3, post);
        lemma_seq_assoc(((Seq::<u8>::empty() + b0) + b1), b2, (b3 + post));
        lemma_seq_assoc((Seq::<u8>::empty() + b0), b1, (b2 + (b3 + post)));
        lemma_seq_assoc(Seq::<u8>::empty(), b0, (b1 + (b2 + (b3 + post))));
        lemma_seq_empty_left((b0 + (b1 + (b2 + (b3 + post)))));
        let s = pre + e + post;
        lemma_seq_assoc(pre, e, post);
        assert(s == pre + t0);
        let a0 = pre;
        assert(parse_raw(s, a0.len() as int, 16) == Ok::<(Seq<u8>, int), SerializationError>((m.topic_id, a0.len() as int + b0.len()))) by {
            lemma_seq_assoc(a0, b0, t1);
            lemma_uuid_roundtrip(a0, m.topic_id, t1);
        }
        lemma_seq_assoc(a0, b0, t1);
        let a1 = a0 + b0;
        assert(parse_string(s, a1.len() as int, ctx.flexible) == Ok::<(Seq<char>, int), SerializationError>((m.topic_name, a1.len() as int + b1.len()))) by {
            assert(string_bytes(m.topic_name, ctx.flexible) is Ok);
            lemma_seq_assoc(a1, b1, t2);
            lemma_string_roundtrip(a1, m.topic_name, t2, ctx.flexible);
        }
        lemma_seq_assoc(a1, b1, t2);
        let a2 = a1 + b1;
        assert(parse_array::<i32>(s, a2.len() as int, Ctx { version: ctx.version, flexible: ctx.flexible, classic: false }) == Ok::<(Seq<<i32 as DeepView>::V>, int), SerializationError>((m.partitions, a2.len() as int + b2.len()))) by {
            assert(array_bytes::<i32>(m.partitions, Ctx { version: ctx.version, flexible: ctx.flexible, classic: false }) is Ok);
            lemma_seq_assoc(a2, b2, t3);
            lemma_items_read_back::<i32>(m.partitions, Ctx { version: ctx.version, flexible: ctx.flexible, classic: false });
            lemma_array_roundtrip::<i32>(a2, m.partitions, t3, Ctx { version: ctx.version, flexible: ctx.flexible, classic: false });
        }
        lemma_seq_assoc(a2, b2, t3);
        let a3 = a2 + b2;
        if ctx.flexible {
            assert(parse_uvarint(s, a3.len() as int) == Ok::<(u64, int), SerializationError>((0u64, a3.len() as int + b3.len()))) by {
                lemma_seq_assoc(a3, b3, t4);
                lemma_uvarint_roundtrip(a3, 0, t4);
            }
        }
    }

    /// The bytes written: the encoding of each field, in the order of the
    /// protocol's layout. Reading them back, wherever they stand, gives the value,
    /// with each field that the version leaves out at its default.
    #[verifier::spinoff_prover]
    pub proof fn lemma_body_layout(pre: Seq<u8>, m: TopicPartitionsModel, post: Seq<u8>, ctx: Ctx)
        requires
            Self::spec_encode_body(m, ctx) is Ok,
        ensures
            Self::spec_encode_body(m, ctx) == Ok::<Seq<u8>, SerializationError>((m.topic_id) + ((string_bytes(m.topic_name, ctx.flexible))->Ok_0) + ((array_bytes::<i32>(m.partitions, Ctx { version: ctx.version, flexible: ctx.flexible, classic: false }))->Ok_0) + (if ctx.flexible { uvarint_bytes(0) } else { Seq::<u8>::empty() })),
            Self::reads_back_body(m, ctx) ==> Self::spec_decode_body(pre + ((m.topic_id) + ((string_bytes(m.topic_name, ctx.flexible))->Ok_0) + ((array_bytes::<i32>(m.partitions, Ctx { version: ctx.version, flexible: ctx.flexible, classic: false }))->Ok_0) + (if ctx.flexible { uvarint_bytes(0) } else { Seq::<u8>::empty() })) + post, pre.len() as int, ctx) == Ok::<(TopicPartitionsModel, int), SerializationError>((m, pre.len() as int + ((m.topic_id) + ((string_bytes(m.topic_name, ctx.flexible))->Ok_0) + ((array_bytes::<i32>(m.partitions, Ctx { version: ctx.version, flexible: ctx.flexible, classic: false }))->Ok_0) + (if ctx.flexible { uvarint_bytes(0) } else { Seq::<u8>::empty() })).len())),
    {
        let b0 = m.topic_id;
        let b1 = (string_bytes(m.topic_name, ctx.flexible))->Ok_0;
        let b2 = (array_bytes::<i32>(m.partitions, Ctx { version: ctx.version, flexible: ctx.flexible, classic: false }))->Ok_0;
        let b3 = if ctx.flexible { uvarint_bytes(0) } else { Seq::<u8>::empty() };
        let e = Self::spec_encode_body(m, ctx)->Ok_0;
        assert(e =~= Seq::<u8>::empty() + b0 + b1 + b2 + b3);
        assert(e =~= b0 + b1 + b2 + b3);
        if Self::reads_back_body(m, ctx) {
            Self::lemma_body_read_back(pre, m, post, ctx);
        }
    }

    /// Writing succeeds exactly when every field that the version carries can be
    /// encoded and every field that it leaves out, where leaving it out is an
    /// error, holds its default.
    #[verifier::spinoff_prover]
    pub proof fn lemma_body_write_succeeds(m: TopicPartitionsModel, ctx: Ctx)
        ensures
            Self::spec_encode_body(m, ctx) is Ok <==> (string_bytes(m.topic_name, ctx.flexible) is Ok) && (array_bytes::<i32>(m.partitions, Ctx { version: ctx.version, flexible: ctx.flexible, classic: false }) is Ok),
    {
    }

    /// Writes the structure for `version`, with the compact encodings when `is_flexible`.
    /// On failure the buffer is left as it was.
    pub fn encode(&self, buf: &mut Vec<u8>, version: ApiVersion, is_flexible: bool) -> (r: Result<(), SerializationError>)
        ensures
            write_exact(r, old(buf)@, final(buf)@, Self::spec_encode_body(self.deep_view(), Ctx { version: version.0, flexible: is_flexible, classic: false })),
    {
        let start = buf.len();
        let r = self.encode_ctx(buf, Ctx::new(version, is_flexible));
        if r.is_err() {
            buf.truncate(start);
        }
        r
    }

    /// Reads the structure as written for `version`.
    /// On failure the reader is put back where it started.
    pub fn decode(buf: &mut Reader, version: ApiVersion, is_flexible: bool) -> (r: Result<Self, SerializationError>)
        ensures
            final(buf).bytes() == old(buf).bytes(),
            read_view_exact(r, Self::spec_decode_body(old(buf).bytes(), old(buf).pos(), Ctx { version: version.0, flexible: is_flexible, classic: false }), old(buf).pos(), final(buf).pos()),
    {
        let start = buf.position();
        let r = Self::decode_ctx(buf, Ctx::new(version, is_flexible));
        if r.is_err() {
            buf.set_position(start);
        }
        r
    }
}

impl KafkaCodec for TopicPartitions {
    open spec fn spec_encode(m: TopicPartitionsModel, ctx: Ctx) -> Result<Seq<u8>, SerializationError> {
        Self::spec_encode_body(m, ctx)
    }

    open spec fn spec_decode(s: Seq<u8>, pos: int, ctx: Ctx) -> Result<(TopicPartitionsModel, int), SerializationError> {
        Self::spec_decode_body(s, pos, ctx)
    }

    open spec fn reads_back(v: TopicPartitionsModel, ctx: Ctx) -> bool {
        Self::reads_back_body(v, ctx)
    }

    proof fn lemma_read_back(pre: Seq<u8>, v: TopicPartitionsModel, post: Seq<u8>, ctx: Ctx) {
        Self::lemma_body_read_back(pre, v, post, ctx);
        assert(Self::spec_decode(pre + Self::spec_encode(v, ctx)->Ok_0 + post, pre.len() as int, ctx)
            == Self::spec_decode_body(pre + Self::spec_encode_body(v, ctx)->Ok_0 + post, pre.len() as int, ctx));
    }

    fn encode_ctx(&self, buf: &mut Vec<u8>, ctx: Ctx) -> (r: Result<(), SerializationError>) {
        let ghost mut w: Seq<u8> = Seq::empty();
        encode_uuid(&self.topic_id, buf);
        proof {
            w = w + self.topic_id@;
        }
        assert(buf@ =~= old(buf)@ + w);
        encode_string(&self.topic_name, buf, ctx.flexible)?;
        proof {
            w = w + (string_bytes(self.topic_name.deep_view(), ctx.flexible))->Ok_0;
        }
        assert(buf@ =~= old(buf)@ + w);
        encode_array(&self.partitions, buf, Ctx { version: ctx.version, flexible: ctx.flexible, classic: false })?;
        proof {
            w = w + (array_bytes::<i32>(self.partitions.deep_view(), Ctx { version: ctx.version, flexible: ctx.flexible, classic: false }))->Ok_0;
        }
        assert(buf@ =~= old(buf)@ + w);
        if ctx.flexible {
            encode_unsigned_varint(0, buf);
            proof {
                w = w + uvarint_bytes(0);
            }
            assert(buf@ =~= old(buf)@ + w);
        }
        Ok(())
    }

    fn decode_ctx(buf: &mut Reader, ctx: Ctx) -> (r: Result<Self, SerializationError>) {
        let topic_id = buf.get_uuid()?;
        let topic_name = buf.get_string(ctx.flexible)?;
        let partitions = decode_array::<i32>(buf, Ctx { version: ctx.version, flexible: ctx.flexible, classic: false })?;
        if ctx.flexible {
            let (_tag_count, _) = decode_unsigned_varint(buf)?;
        }
        Ok(TopicPartitions { topic_id, topic_name, partitions })
    }
}

} // verus!
