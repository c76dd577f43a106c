//! DescribeGroupsResponse (API key 15).
use vstd::prelude::*;
use crate::roundtrip::{lemma_array_roundtrip, lemma_bytes_roundtrip, lemma_i16_roundtrip,
    lemma_i32_roundtrip, lemma_items_read_back, lemma_nullable_string_roundtrip, lemma_seq_assoc,
    lemma_seq_empty_left, lemma_string_roundtrip, lemma_uvarint_roundtrip};
use crate::serialization::{Ctx, KafkaCodec, Reader, SerializationError, array_bytes, bytes_bytes,
    decode_array, decode_unsigned_varint, encode_array, encode_bytes, encode_nullable_string,
    encode_string, encode_unsigned_varint, i16_bytes, i32_bytes, nullable_string_bytes,
    parse_array, parse_bytes, parse_i16, parse_i32, parse_nullable_string, parse_string,
    parse_uvarint, put_i16, put_i32, read_view_exact, read_view_ok, string_bytes, then,
    uvarint_bytes, write_exact, write_ok};
use crate::{ApiKey, ApiVersion};

verus! {

// -------------------------------------------------------
// DescribeGroupsResponse
// -------------------------------------------------------
#[derive(Clone, Debug, Default, PartialEq)]
pub struct DescribeGroupsResponse {
    /// The duration in milliseconds for which the request was throttled due to a quota violation, or zero if the request did not violate any quota.
    /// Available in version 1+.
    pub throttle_time_ms: i32,
    /// Each described group.
    pub groups: Vec<DescribedGroup>,
}

/// The contents of `DescribeGroupsResponse`, with strings as characters and
/// nested values by their contents.
pub struct DescribeGroupsResponseModel {
    pub throttle_time_ms: i32,
    pub groups: Seq<<DescribedGroup as DeepView>::V>,
}

impl DeepView for DescribeGroupsResponse {
    type V = DescribeGroupsResponseModel;

    open spec fn deep_view(&self) -> DescribeGroupsResponseModel {
        DescribeGroupsResponseModel {
            throttle_time_ms: self.throttle_time_ms,
            groups: self.groups.deep_view(),
        }
    }
}

impl DescribeGroupsResponse {
    /// The encoding of the structure in context `ctx`.
    pub open spec fn spec_encode_body(m: DescribeGroupsResponseModel, ctx: Ctx) -> Result<Seq<u8>, SerializationError> {
        let r = Ok(Seq::<u8>::empty());
        let r = if 1 <= ctx.version { then(r, Ok(i32_bytes(m.throttle_time_ms))) } else { r };
        let r = then(r, array_bytes::<DescribedGroup>(m.groups, Ctx { version: ctx.version, flexible: ctx.flexible, classic: false }));
        let r = if ctx.flexible { then(r, Ok(uvarint_bytes(0))) } else { r };
        r
    }

    /// The structure read from `s` at `pos` in context `ctx`.
    pub open spec fn spec_decode_body(s: Seq<u8>, pos: int, ctx: Ctx) -> Result<(DescribeGroupsResponseModel, int), SerializationError> {
        match (if 1 <= ctx.version { parse_i32(s, pos) } else { Ok((0i32, pos)) }) {
            Err(e) => Err(e),
            Ok((throttle_time_ms, pos)) =>
            match parse_array::<DescribedGroup>(s, pos, Ctx { version: ctx.version, flexible: ctx.flexible, classic: false }) {
                Err(e) => Err(e),
                Ok((groups, pos)) =>
                match (if ctx.flexible { parse_uvarint(s, pos) } else { Ok((0u64, pos)) }) {
                    Err(e) => Err(e),
                    Ok((_tag_count, pos)) =>
                    Ok((DescribeGroupsResponseModel { throttle_time_ms, groups }, pos))
                }
            }
        }
    }

    /// The structure as it reads back in context `ctx`: each field that the
    /// version leaves out is at its default.
    #[verifier::opaque]
    pub open spec fn spec_read_as(m: DescribeGroupsResponseModel, ctx: Ctx) -> DescribeGroupsResponseModel {
        DescribeGroupsResponseModel { throttle_time_ms: if 1 <= ctx.version { m.throttle_time_ms } else { 0i32 }, groups: m.groups }
    }

    /// Values that read back in context `ctx`: nested values read back. A field
    /// that the version leaves out is read as its default.
    pub open spec fn reads_back_body(m: DescribeGroupsResponseModel, ctx: Ctx) -> bool {
        &&& forall|i: int| 0 <= i < m.groups.len() ==> #[trigger] <DescribedGroup as KafkaCodec>::reads_back(m.groups[i], Ctx { version: ctx.version, flexible: ctx.flexible, classic: false })
    }

    /// A value that can be written in context `ctx` and reads back: decoding its
    /// encoding, wherever it stands, gives the value as `spec_read_as` gives it and
    /// the position just after it.
    #[verifier::spinoff_prover]
    pub proof fn lemma_body_read_back(pre: Seq<u8>, m: DescribeGroupsResponseModel, post: Seq<u8>, ctx: Ctx)
        requires
            Self::spec_encode_body(m, ctx) is Ok,
            Self::reads_back_body(m, ctx),
        ensures
            Self::spec_decode_body(pre + Self::spec_encode_body(m, ctx)->Ok_0 + post, pre.len() as int, ctx) == Ok::<(DescribeGroupsResponseModel, int), SerializationError>((Self::spec_read_as(m, ctx), pre.len() as int + Self::spec_encode_body(m, ctx)->Ok_0.len())),
    {
        reveal(DescribeGroupsResponse::spec_read_as);
        let b0 = if 1 <= ctx.version { i32_bytes(m.throttle_time_ms) } else { Seq::<u8>::empty() };
        let b1 = (array_bytes::<DescribedGroup>(m.groups, Ctx { version: ctx.version, flexible: ctx.flexible, classic: false }))->Ok_0;
        let b2 = if ctx.flexible { uvarint_bytes(0) } else { Seq::<u8>::empty() };
        let t3 = post;
        let t2 = b2 + t3;
        let t1 = b1 + t2;
        let t0 = b0 + t1;
        let e = Self::spec_encode_body(m, ctx)->Ok_0;
        assert(e =~= Seq::<u8>::empty() + b0 + b1 + b2);
        lemma_seq_assoc(((Seq::<u8>::empty() + b0) + b1), b2, post);
        lemma_seq_assoc((Seq::<u8>::empty() + b0), b1, (b2 + post));
        lemma_seq_assoc(Seq::<u8>::empty(), b0, (b1 + (b2 + post)));
        lemma_seq_empty_left((b0 + (b1 + (b2 + post))));
        let s = pre + e + post;
        lemma_seq_assoc(pre, e, post);
        assert(s == pre + t0);
        let a0 = pre;
        if 1 <= ctx.version {
            assert(parse_i32(s, a0.len() as int) == Ok::<(i32, int), SerializationError>((m.throttle_time_ms, a0.len() as int + b0.len()))) by {
                lemma_seq_assoc(a0, b0, t1);
                lemma_i32_roundtrip(a0, m.throttle_time_ms, t1);
            }
        }
        lemma_seq_assoc(a0, b0, t1);
        let a1 = a0 + b0;
        assert(parse_array::<DescribedGroup>(s, a1.len() as int, Ctx { version: ctx.version, flexible: ctx.flexible, classic: false }) == Ok::<(Seq<<DescribedGroup as DeepView>::V>, int), SerializationError>((m.groups, a1.len() as int + b1.len()))) by {
            assert(array_bytes::<DescribedGroup>(m.groups, Ctx { version: ctx.version, flexible: ctx.flexible, classic: false }) is Ok);
            lemma_seq_assoc(a1, b1, t2);
            lemma_items_read_back::<DescribedGroup>(m.groups, Ctx { version: ctx.version, flexible: ctx.flexible, classic: false });
            lemma_array_roundtrip::<DescribedGroup>(a1, m.groups, t2, Ctx { version: ctx.version, flexible: ctx.flexible, classic: false });
        }
        lemma_seq_assoc(a1, b1, t2);
        let a2 = a1 + b1;
        if ctx.flexible {
            assert(parse_uvarint(s, a2.len() as int) == Ok::<(u64, int), SerializationError>((0u64, a2.len() as int + b2.len()))) by {
                lemma_seq_assoc(a2, b2, t3);
                lemma_uvarint_roundtrip(a2, 0, t3);
            }
        }
    }

    /// The bytes written: the encoding of each field, in the order of the
    /// protocol's layout. Reading them back, wherever they stand, gives the value,
    /// with each field that the version leaves out at its default.
    #[verifier::spinoff_prover]
    pub proof fn lemma_body_layout(pre: Seq<u8>, m: DescribeGroupsResponseModel, post: Seq<u8>, ctx: Ctx)
        requires
            Self::spec_encode_body(m, ctx) is Ok,
        ensures
            Self::spec_encode_body(m, ctx) == Ok::<Seq<u8>, SerializationError>((if 1 <= ctx.version { i32_bytes(m.throttle_time_ms) } else { Seq::<u8>::empty() }) + ((array_bytes::<DescribedGroup>(m.groups, Ctx { version: ctx.version, flexible: ctx.flexible, classic: false }))->Ok_0) + (if ctx.flexible { uvarint_bytes(0) } else { Seq::<u8>::empty() })),
            Self::reads_back_body(m, ctx) ==> Self::spec_decode_body(pre + ((if 1 <= ctx.version { i32_bytes(m.throttle_time_ms) } else { Seq::<u8>::empty() }) + ((array_bytes::<DescribedGroup>(m.groups, Ctx { version: ctx.version, flexible: ctx.flexible, classic: false }))->Ok_0) + (if ctx.flexible { uvarint_bytes(0) } else { Seq::<u8>::empty() })) + post, pre.len() as int, ctx) == Ok::<(DescribeGroupsResponseModel, int), SerializationError>((DescribeGroupsResponseModel { throttle_time_ms: if 1 <= ctx.version { m.throttle_time_ms } else { 0i32 }, groups: m.groups }, pre.len() as int + ((if 1 <= ctx.version { i32_bytes(m.throttle_time_ms) } else { Seq::<u8>::empty() }) + ((array_bytes::<DescribedGroup>(m.groups, Ctx { version: ctx.version, flexible: ctx.flexible, classic: false }))->Ok_0) + (if ctx.flexible { uvarint_bytes(0) } else { Seq::<u8>::empty() })).len())),
    {
        let b0 = if 1 <= ctx.version { i32_bytes(m.throttle_time_ms) } else { Seq::<u8>::empty() };
        let b1 = (array_bytes::<DescribedGroup>(m.groups, Ctx { version: ctx.version, flexible: ctx.flexible, classic: false }))->Ok_0;
        let b2 = if ctx.flexible { uvarint_bytes(0) } else { Seq::<u8>::empty() };
        let e = Self::spec_encode_body(m, ctx)->Ok_0;
        assert(e =~= Seq::<u8>::empty() + b0 + b1 + b2);
        assert(e =~= b0 + b1 + b2);
        if Self::reads_back_body(m, ctx) {
            Self::lemma_body_read_back(pre, m, post, ctx);
            reveal(DescribeGroupsResponse::spec_read_as);
        }
    }

    /// Writing succeeds exactly when every field that the version carries can be
    /// encoded and every field that it leaves out, where leaving it out is an
    /// error, holds its default.
    #[verifier::spinoff_prover]
    pub proof fn lemma_body_write_succeeds(m: DescribeGroupsResponseModel, ctx: Ctx)
        ensures
            Self::spec_encode_body(m, ctx) is Ok <==> (array_bytes::<DescribedGroup>(m.groups, Ctx { version: ctx.version, flexible: ctx.flexible, classic: false }) is Ok),
    {
    }

    /// Writes the structure for `version`, with the compact encodings when `is_flexible`.
    /// On failure the buffer is left as it was.
    pub fn encode(&self, buf: &mut Vec<u8>, version: ApiVersion, is_flexible: bool) -> (r: Result<(), SerializationError>)
        ensures
            write_exact(r, old(buf)@, final(buf)@, Self::spec_encode_body(self.deep_view(), Ctx { version: version.0, flexible: is_flexible, classic: false })),
    {
        let start = buf.len();
        let r = self.encode_ctx(buf, Ctx::new(version, is_flexible));
        if r.is_err() {
            buf.truncate(start);
        }
        r
    }

    /// Reads the structure as written for `version`.
    /// On failure the reader is put back where it started.
    pub fn decode(buf: &mut Reader, version: ApiVersion, is_flexible: bool) -> (r: Result<Self, SerializationError>)
        ensures
            final(buf).bytes() == old(buf).bytes(),
            read_view_exact(r, Self::spec_decode_body(old(buf).bytes(), old(buf).pos(), Ctx { version: version.0, flexible: is_flexible, classic: false }), old(buf).pos(), final(buf).pos()),
    {
        let start = buf.position();
        let r = Self::decode_ctx(buf, Ctx::new(version, is_flexible));
        if r.is_err() {
            buf.set_position(start);
        }
        r
    }
}

impl KafkaCodec for DescribeGroupsResponse {
    open spec fn spec_encode(m: DescribeGroupsResponseModel, ctx: Ctx) -> Result<Seq<u8>, SerializationError> {
        Self::spec_encode_body(m, ctx)
    }

    open spec fn spec_decode(s: Seq<u8>, pos: int, ctx: Ctx) -> Result<(DescribeGroupsResponseModel, int), SerializationError> {
        Self::spec_decode_body(s, pos, ctx)
    }

    open spec fn reads_back(v: DescribeGroupsResponseModel, ctx: Ctx) -> bool {
        Self::reads_back_body(v, ctx) && Self::spec_read_as(v, ctx) == v
    }

    proof fn lemma_read_back(pre: Seq<u8>, v: DescribeGroupsResponseModel, post: Seq<u8>, ctx: Ctx) {
        Self::lemma_body_read_back(pre, v, post, ctx);
        assert(Self::spec_decode(pre + Self::spec_encode(v, ctx)->Ok_0 + post, pre.len() as int, ctx)
            == Self::spec_decode_body(pre + Self::spec_encode_body(v, ctx)->Ok_0 + post, pre.len() as int, ctx));
    }

    fn encode_ctx(&self, buf: &mut Vec<u8>, ctx: Ctx) -> (r: Result<(), SerializationError>) {
        let ghost mut w: Seq<u8> = Seq::empty();
        if 1 <= ctx.version {
            put_i32(buf, self.throttle_time_ms);
            proof {
                w = w + i32_bytes(self.throttle_time_ms);
            }
            assert(buf@ =~= old(buf)@ + w);
        }
        encode_array(&self.groups, buf, Ctx { version: ctx.version, flexible: ctx.flexible, classic: false })?;
        proof {
            w = w + (array_bytes::<DescribedGroup>(self.groups.deep_view(), Ctx { version: ctx.version, flexible: ctx.flexible, classic: false }))->Ok_0;
        }
        assert(buf@ =~= old(buf)@ + w);
        if ctx.flexible {
            encode_unsigned_varint(0, buf);
            proof {
                w = w + uvarint_bytes(0);
            }
            assert(buf@ =~= old(buf)@ + w);
        }
        Ok(())
    }

    fn decode_ctx(buf: &mut Reader, ctx: Ctx) -> (r: Result<Self, SerializationError>) {
        let throttle_time_ms = if 1 <= ctx.version {
            buf.get_i32()?
        } else {
            0i32
        };
        let groups = decode_array::<DescribedGroup>(buf, Ctx { version: ctx.version, flexible: ctx.flexible, classic: false })?;
        if ctx.flexible {
            let (_tag_count, _) = decode_unsigned_varint(buf)?;
        }
        Ok(DescribeGroupsResponse { throttle_time_ms, groups })
    }
}

impl DescribeGroupsResponse {
    /// The API key of this message.
    pub fn get_api_key() -> (r: ApiKey)
        ensures
            r.0 == 15,
    {
        ApiKey::new(15)
    }

    /// The oldest version of this message.
    pub fn get_min_supported_version() -> (r: ApiVersion)
        ensures
            r.0 == 0,
    {
        ApiVersion::new(0)
    }

    /// The newest version of this message.
    pub fn get_max_supported_version() -> (r: ApiVersion)
        ensures
            r.0 == 6,
    {
        ApiVersion::new(6)
    }

    /// The first version of this message with the compact encodings.
    pub fn get_min_flexible_version() -> (r: ApiVersion)
        ensures
            r.0 == 5,
    {
        ApiVersion::new(5)
    }

    /// The encoding of a whole message body at `version`.
    pub open spec fn spec_serialize(m: DescribeGroupsResponseModel, version: i16) -> Result<Seq<u8>, SerializationError> {
        let is_flexible = version >= 5;
        let ctx = Ctx { version, flexible: is_flexible, classic: false };
        let r = Ok(Seq::<u8>::empty());
        let r = if 1 <= ctx.version { then(r, Ok(i32_bytes(m.throttle_time_ms))) } else if m.throttle_time_ms != 0 { then(r, Err(SerializationError::Encode("field 'ThrottleTimeMs' is not available in this version"))) } else { r };
        let r = then(r, array_bytes::<DescribedGroup>(m.groups, Ctx { version: ctx.version, flexible: ctx.flexible, classic: false }));
        let r = if ctx.flexible { then(r, Ok(uvarint_bytes(0))) } else { r };
        r
    }

    /// The message body read at `version`.
    pub open spec fn spec_deserialize(s: Seq<u8>, pos: int, version: i16) -> Result<(DescribeGroupsResponseModel, int), SerializationError> {
        let is_flexible = version >= 5;
        let ctx = Ctx { version, flexible: is_flexible, classic: false };
        match (if 1 <= ctx.version { parse_i32(s, pos) } else { Ok((0i32, pos)) }) {
            Err(e) => Err(e),
            Ok((throttle_time_ms, pos)) =>
            match parse_array::<DescribedGroup>(s, pos, Ctx { version: ctx.version, flexible: ctx.flexible, classic: false }) {
                Err(e) => Err(e),
                Ok((groups, pos)) =>
                match (if ctx.flexible { parse_uvarint(s, pos) } else { Ok((0u64, pos)) }) {
                    Err(e) => Err(e),
                    Ok((_tag_count, pos)) =>
                    Ok((DescribeGroupsResponseModel { throttle_time_ms, groups }, pos))
                }
            }
        }
    }

    /// Message bodies that read back when written at `version`: nested values read
    /// back. A field that the version leaves out is read as its default.
    pub open spec fn reads_back_message(m: DescribeGroupsResponseModel, version: i16) -> bool {
        let is_flexible = version >= 5;
        let ctx = Ctx { version, flexible: is_flexible, classic: false };
        &&& forall|i: int| 0 <= i < m.groups.len() ==> #[trigger] <DescribedGroup as KafkaCodec>::reads_back(m.groups[i], Ctx { version: ctx.version, flexible: ctx.flexible, classic: false })
    }

    /// A message body that can be written at `version` and reads back: reading a
    /// body at `version` from its bytes, wherever they stand, gives the same message,
    /// with each field that the version leaves out at its default.
    #[verifier::spinoff_prover]
    pub proof fn lemma_message_read_back(pre: Seq<u8>, m: DescribeGroupsResponseModel, post: Seq<u8>, version: i16)
        requires
            Self::spec_serialize(m, version) is Ok,
            Self::reads_back_message(m, version),
        ensures
            Self::spec_deserialize(pre + Self::spec_serialize(m, version)->Ok_0 + post, pre.len() as int, version) == Ok::<(DescribeGroupsResponseModel, int), SerializationError>((DescribeGroupsResponseModel { throttle_time_ms: if 1 <= version { m.throttle_time_ms } else { 0i32 }, groups: m.groups }, pre.len() as int + Self::spec_serialize(m, version)->Ok_0.len())),
    {
        let is_flexible = version >= 5;
        let ctx = Ctx { version, flexible: is_flexible, classic: false };
        let b0 = if 1 <= ctx.version { i32_bytes(m.throttle_time_ms) } else { Seq::<u8>::empty() };
        let b1 = (array_bytes::<DescribedGroup>(m.groups, Ctx { version: ctx.version, flexible: ctx.flexible, classic: false }))->Ok_0;
        let b2 = if ctx.flexible { uvarint_bytes(0) } else { Seq::<u8>::empty() };
        let t3 = post;
        let t2 = b2 + t3;
        let t1 = b1 + t2;
        let t0 = b0 + t1;
        let e = Self::spec_serialize(m, version)->Ok_0;
        assert(e =~= Seq::<u8>::empty() + b0 + b1 + b2);
        lemma_seq_assoc(((Seq::<u8>::empty() + b0) + b1), b2, post);
        lemma_seq_assoc((Seq::<u8>::empty() + b0), b1, (b2 + post));
        lemma_seq_assoc(Seq::<u8>::empty(), b0, (b1 + (b2 + post)));
        lemma_seq_empty_left((b0 + (b1 + (b2 + post))));
        let s = pre + e + post;
        lemma_seq_assoc(pre, e, post);
        assert(s == pre + t0);
        let a0 = pre;
        if 1 <= ctx.version {
            assert(parse_i32(s, a0.len() as int) == Ok::<(i32, int), SerializationError>((m.throttle_time_ms, a0.len() as int + b0.len()))) by {
                lemma_seq_assoc(a0, b0, t1);
                lemma_i32_roundtrip(a0, m.throttle_time_ms, t1);
            }
        }
        lemma_seq_assoc(a0, b0, t1);
        let a1 = a0 + b0;
        assert(parse_array::<DescribedGroup>(s, a1.len() as int, Ctx { version: ctx.version, flexible: ctx.flexible, classic: false }) == Ok::<(Seq<<DescribedGroup as DeepView>::V>, int), SerializationError>((m.groups, a1.len() as int + b1.len()))) by {
            assert(array_bytes::<DescribedGroup>(m.groups, Ctx { version: ctx.version, flexible: ctx.flexible, classic: false }) is Ok);
            lemma_seq_assoc(a1, b1, t2);
            lemma_items_read_back::<DescribedGroup>(m.groups, Ctx { version: ctx.version, flexible: ctx.flexible, classic: false });
            lemma_array_roundtrip::<DescribedGroup>(a1, m.groups, t2, Ctx { version: ctx.version, flexible: ctx.flexible, classic: false });
        }
        lemma_seq_assoc(a1, b1, t2);
        let a2 = a1 + b1;
        if ctx.flexible {
            assert(parse_uvarint(s, a2.len() as int) == Ok::<(u64, int), SerializationError>((0u64, a2.len() as int + b2.len()))) by {
                lemma_seq_assoc(a2, b2, t3);
                lemma_uvarint_roundtrip(a2, 0, t3);
            }
        }
    }

    /// The bytes written: the encoding of each field, in the order of the
    /// protocol's layout. Reading them back, wherever they stand, gives the value,
    /// with each field that the version leaves out at its default.
    #[verifier::spinoff_prover]
    pub proof fn lemma_message_layout(pre: Seq<u8>, m: DescribeGroupsResponseModel, post: Seq<u8>, version: i16)
        requires
            Self::spec_serialize(m, version) is Ok,
        ensures
            Self::spec_serialize(m, version) == Ok::<Seq<u8>, SerializationError>((if 1 <= version { i32_bytes(m.throttle_time_ms) } else { Seq::<u8>::empty() }) + ((array_bytes::<DescribedGroup>(m.groups, Ctx { version: version, flexible: (version >= 5), classic: false }))->Ok_0) + (if (version >= 5) { uvarint_bytes(0) } else { Seq::<u8>::empty() })),
            Self::reads_back_message(m, version) ==> Self::spec_deserialize(pre + ((if 1 <= version { i32_bytes(m.throttle_time_ms) } else { Seq::<u8>::empty() }) + ((array_bytes::<DescribedGroup>(m.groups, Ctx { version: version, flexible: (version >= 5), classic: false }))->Ok_0) + (if (version >= 5) { uvarint_bytes(0) } else { Seq::<u8>::empty() })) + post, pre.len() as int, version) == Ok::<(DescribeGroupsResponseModel, int), SerializationError>((DescribeGroupsResponseModel { throttle_time_ms: if 1 <= version { m.throttle_time_ms } else { 0i32 }, groups: m.groups }, pre.len() as int + ((if 1 <= version { i32_bytes(m.throttle_time_ms) } else { Seq::<u8>::empty() }) + ((array_bytes::<DescribedGroup>(m.groups, Ctx { version: version, flexible: (version >= 5), classic: false }))->Ok_0) + (if (version >= 5) { uvarint_bytes(0) } else { Seq::<u8>::empty() })).len())),
    {
        let is_flexible = version >= 5;
        let ctx = Ctx { version, flexible: is_flexible, classic: false };
        let b0 = if 1 <= ctx.version { i32_bytes(m.throttle_time_ms) } else { Seq::<u8>::empty() };
        let b1 = (array_bytes::<DescribedGroup>(m.groups, Ctx { version: ctx.version, flexible: ctx.flexible, classic: false }))->Ok_0;
        let b2 = if ctx.flexible { uvarint_bytes(0) } else { Seq::<u8>::empty() };
        let e = Self::spec_serialize(m, version)->Ok_0;
        assert(e =~= Seq::<u8>::empty() + b0 + b1 + b2);
        assert(e =~= b0 + b1 + b2);
        if Self::reads_back_message(m, version) {
            Self::lemma_message_read_back(pre, m, post, version);
        }
    }

    /// Writing succeeds exactly when every field that the version carries can be
    /// encoded and every field that it leaves out, where leaving it out is an
    /// error, holds its default.
    #[verifier::spinoff_prover]
    pub proof fn lemma_message_write_succeeds(m: DescribeGroupsResponseModel, version: i16)
        ensures
            Self::spec_serialize(m, version) is Ok <==> (!(1 <= version) ==> !(m.throttle_time_ms != 0)) && (array_bytes::<DescribedGroup>(m.groups, Ctx { version: version, flexible: (version >= 5), classic: false }) is Ok),
    {
        let is_flexible = version >= 5;
        let ctx = Ctx { version, flexible: is_flexible, classic: false };
    }

    /// Writes the message body for `version`, which must be a supported version.
    /// On failure the buffer is left as it was.
    pub fn serialize(&self, version: ApiVersion, buf: &mut Vec<u8>) -> (r: Result<(), SerializationError>)
        requires
            0 <= version.0 <= 6,
        ensures
            write_exact(r, old(buf)@, final(buf)@, Self::spec_serialize(self.deep_view(), version.0)),
    {
        let start = buf.len();
        let r = self.write_body(version, buf);
        if r.is_err() {
            buf.truncate(start);
        }
        r
    }

    fn write_body(&self, version: ApiVersion, buf: &mut Vec<u8>) -> (r: Result<(), SerializationError>)
        requires
            0 <= version.0 <= 6,
        ensures
            write_ok(r, old(buf)@, final(buf)@, Self::spec_serialize(self.deep_view(), version.0)),
    {
        let is_flexible = version.0 >= Self::get_min_flexible_version().0;
        let ctx = Ctx::new(version, is_flexible);
        let ghost mut w: Seq<u8> = Seq::empty();
        if 1 <= ctx.version {
            put_i32(buf, self.throttle_time_ms);
            proof {
                w = w + i32_bytes(self.throttle_time_ms);
            }
            assert(buf@ =~= old(buf)@ + w);
        } else if self.throttle_time_ms != 0 {
            return Err(SerializationError::Encode("field 'ThrottleTimeMs' is not available in this version"));
        }
        encode_array(&self.groups, buf, Ctx { version: ctx.version, flexible: ctx.flexible, classic: false })?;
        proof {
            w = w + (array_bytes::<DescribedGroup>(self.groups.deep_view(), Ctx { version: ctx.version, flexible: ctx.flexible, classic: false }))->Ok_0;
        }
        assert(buf@ =~= old(buf)@ + w);
        if ctx.flexible {
            encode_unsigned_varint(0, buf);
            proof {
                w = w + uvarint_bytes(0);
            }
            assert(buf@ =~= old(buf)@ + w);
        }
        Ok(())
    }

    /// Reads a message body written for `version`.
    /// On failure the reader is put back where it started.
    pub fn deserialize(version: ApiVersion, buf: &mut Reader) -> (r: Result<Self, SerializationError>)
        ensures
            final(buf).bytes() == old(buf).bytes(),
            read_view_exact(r, Self::spec_deserialize(old(buf).bytes(), old(buf).pos(), version.0), old(buf).pos(), final(buf).pos()),
    {
        let start = buf.position();
        let r = Self::read_body(version, buf);
        if r.is_err() {
            buf.set_position(start);
        }
        r
    }

    fn read_body(version: ApiVersion, buf: &mut Reader) -> (r: Result<Self, SerializationError>)
        ensures
            final(buf).bytes() == old(buf).bytes(),
            read_view_ok(r, Self::spec_deserialize(old(buf).bytes(), old(buf).pos(), version.0), final(buf).pos()),
    {
        let is_flexible = version.0 >= Self::get_min_flexible_version().0;
        let ctx = Ctx::new(version, is_flexible);
        let throttle_time_ms = if 1 <= ctx.version {
            buf.get_i32()?
        } else {
            0i32
        };
        let groups = decode_array::<DescribedGroup>(buf, Ctx { version: ctx.version, flexible: ctx.flexible, classic: false })?;
        if ctx.flexible {
            let (_tag_count, _) = decode_unsigned_varint(buf)?;
        }
        Ok(DescribeGroupsResponse { throttle_time_ms, groups })
    }
}

// -------------------------------------------------------
// DescribedGroup
// -------------------------------------------------------
#[derive(Clone, Debug, Default, PartialEq)]
pub struct DescribedGroup {
    /// The describe error, or 0 if there was no error.
    pub error_code: i16,
    /// The describe error message, or null if there was no error.
    /// Available in version 6+.
    pub error_message: Option<String>,
    /// The group ID string.
    pub group_id: String,
    /// The group state string, or the empty string.
    pub group_state: String,
    /// The group protocol type, or the empty string.
    pub protocol_type: String,
    /// The group protocol data, or the empty string.
    pub protocol_data: String,
    /// The group members.
    pub members: Vec<DescribedGroupMember>,
    /// 32-bit bitfield to represent authorized operations for this group.
    /// Available in version 3+.
    pub authorized_operations: i32,
}

/// The contents of `DescribedGroup`, with strings as characters and
/// nested values by their contents.
pub struct DescribedGroupModel {
    pub error_code: i16,
    pub error_message: Option<Seq<char>>,
    pub group_id: Seq<char>,
    pub group_state: Seq<char>,
    pub protocol_type: Seq<char>,
    pub protocol_data: Seq<char>,
    pub members: Seq<<DescribedGroupMember as DeepView>::V>,
    pub authorized_operations: i32,
}

impl DeepView for DescribedGroup {
    type V = DescribedGroupModel;

    open spec fn deep_view(&self) -> DescribedGroupModel {
        DescribedGroupModel {
            error_code: self.error_code,
            error_message: self.error_message.deep_view(),
            group_id: self.group_id.deep_view(),
            group_state: self.group_state.deep_view(),
            protocol_type: self.protocol_type.deep_view(),
            protocol_data: self.protocol_data.deep_view(),
            members: self.members.deep_view(),
            authorized_operations: self.authorized_operations,
        }
    }
}

impl DescribedGroup {
    /// Fields 1 to 5 of the encoding.
    pub open spec fn spec_encode_body_part1(m: DescribedGroupModel, ctx: Ctx) -> Result<Seq<u8>, SerializationError> {
        let r = Ok(Seq::<u8>::empty());
        let r = then(r, Ok(i16_bytes(m.error_code)));
        let r = if 6 <= ctx.version { then(r, nullable_string_bytes(m.error_message, ctx.flexible)) } else { r };
        let r = then(r, string_bytes(m.group_id, ctx.flexible));
        let r = then(r, string_bytes(m.group_state, ctx.flexible));
        let r = then(r, string_bytes(m.protocol_type, ctx.flexible));
        r
    }

    #[verifier::spinoff_prover]
    fn encode_body_part1(&self, buf: &mut Vec<u8>, ctx: Ctx) -> (r: Result<(), SerializationError>)
        ensures
            write_ok(r, old(buf)@, final(buf)@, Self::spec_encode_body_part1(self.deep_view(), ctx)),
    {
        let ghost mut w: Seq<u8> = Seq::empty();
        put_i16(buf, self.error_code);
        proof {
            w = w + i16_bytes(self.error_code);
        }
        assert(buf@ =~= old(buf)@ + w);
        if 6 <= ctx.version {
            encode_nullable_string(&self.error_message, buf, ctx.flexible)?;
            proof {
                w = w + (nullable_string_bytes(self.error_message.deep_view(), ctx.flexible))->Ok_0;
            }
            assert(buf@ =~= old(buf)@ + w);
        }
        encode_string(&self.group_id, buf, ctx.flexible)?;
        proof {
            w = w + (string_bytes(self.group_id.deep_view(), ctx.flexible))->Ok_0;
        }
        assert(buf@ =~= old(buf)@ + w);
        encode_string(&self.group_state, buf, ctx.flexible)?;
        proof {
            w = w + (string_bytes(self.group_state.deep_view(), ctx.flexible))->Ok_0;
        }
        assert(buf@ =~= old(buf)@ + w);
        encode_string(&self.protocol_type, buf, ctx.flexible)?;
        proof {
            w = w + (string_bytes(self.protocol_type.deep_view(), ctx.flexible))->Ok_0;
        }
        assert(buf@ =~= old(buf)@ + w);
        Ok(())
    }

    /// Fields 6 to 9 of the encoding.
    pub open spec fn spec_encode_body_part2(m: DescribedGroupModel, ctx: Ctx) -> Result<Seq<u8>, SerializationError> {
        let r = Ok(Seq::<u8>::empty());
        let r = then(r, string_bytes(m.protocol_data, ctx.flexible));
        let r = then(r, array_bytes::<DescribedGroupMember>(m.members, Ctx { version: ctx.version, flexible: ctx.flexible, classic: false }));
        let r = if 3 <= ctx.version { then(r, Ok(i32_bytes(m.authorized_operations))) } else { r };
        let r = if ctx.flexible { then(r, Ok(uvarint_bytes(0))) } else { r };
        r
    }

    #[verifier::spinoff_prover]
    fn encode_body_part2(&self, buf: &mut Vec<u8>, ctx: Ctx) -> (r: Result<(), SerializationError>)
        ensures
            write_ok(r, old(buf)@, final(buf)@, Self::spec_encode_body_part2(self.deep_view(), ctx)),
    {
        let ghost mut w: Seq<u8> = Seq::empty();
        encode_string(&self.protocol_data, buf, ctx.flexible)?;
        proof {
            w = w + (string_bytes(self.protocol_data.deep_view(), ctx.flexible))->Ok_0;
        }
        assert(buf@ =~= old(buf)@ + w);
        encode_array(&self.members, buf, Ctx { version: ctx.version, flexible: ctx.flexible, classic: false })?;
        proof {
            w = w + (array_bytes::<DescribedGroupMember>(self.members.deep_view(), Ctx { version: ctx.version, flexible: ctx.flexible, classic: false }))->Ok_0;
        }
        assert(buf@ =~= old(buf)@ + w);
        if 3 <= ctx.version {
            put_i32(buf, self.authorized_operations);
            proof {
                w = w + i32_bytes(self.authorized_operations);
            }
            assert(buf@ =~= old(buf)@ + w);
        }
        if ctx.flexible {
            encode_unsigned_varint(0, buf);
            proof {
                w = w + uvarint_bytes(0);
            }
            assert(buf@ =~= old(buf)@ + w);
        }
        Ok(())
    }

    /// The encoding of the structure in context `ctx`.
    pub open spec fn spec_encode_body(m: DescribedGroupModel, ctx: Ctx) -> Result<Seq<u8>, SerializationError> {
        let r = Ok(Seq::<u8>::empty());
        let r = then(r, Self::spec_encode_body_part1(m, ctx));
        let r = then(r, Self::spec_encode_body_part2(m, ctx));
        r
    }

    /// The structure read from `s` at `pos` in context `ctx`.
    pub open spec fn spec_decode_body(s: Seq<u8>, pos: int, ctx: Ctx) -> Result<(DescribedGroupModel, int), SerializationError> {
        match parse_i16(s, pos) {
            Err(e) => Err(e),
            Ok((error_code, pos)) =>
            match (if 6 <= ctx.version { parse_nullable_string(s, pos, ctx.flexible) } else { Ok((None, pos)) }) {
                Err(e) => Err(e),
                Ok((error_message, pos)) =>
                match parse_string(s, pos, ctx.flexible) {
                    Err(e) => Err(e),
                    Ok((group_id, pos)) =>
                    match parse_string(s, pos, ctx.flexible) {
                        Err(e) => Err(e),
                        Ok((group_state, pos)) =>
                        match parse_string(s, pos, ctx.flexible) {
                            Err(e) => Err(e),
                            Ok((protocol_type, pos)) =>
                            match parse_string(s, pos, ctx.flexible) {
                                Err(e) => Err(e),
                                Ok((protocol_data, pos)) =>
                                match parse_array::<DescribedGroupMember>(s, pos, Ctx { version: ctx.version, flexible: ctx.flexible, classic: false }) {
                                    Err(e) => Err(e),
                                    Ok((members, pos)) =>
                                    match (if 3 <= ctx.version { parse_i32(s, pos) } else { Ok((0i32, pos)) }) {
                                        Err(e) => Err(e),
                                        Ok((authorized_operations, pos)) =>
                                        match (if ctx.flexible { parse_uvarint(s, pos) } else { Ok((0u64, pos)) }) {
                                            Err(e) => Err(e),
                                            Ok((_tag_count, pos)) =>
                                            Ok((DescribedGroupModel { error_code, error_message, group_id, group_state, protocol_type, protocol_data, members, authorized_operations }, pos))
                                        }
                                    }
                                }
                            }
                        }
                    }
                }
            }
        }
    }

    /// The structure as it reads back in context `ctx`: each field that the
    /// version leaves out is at its default.
    #[verifier::opaque]
    pub open spec fn spec_read_as(m: DescribedGroupModel, ctx: Ctx) -> DescribedGroupModel {
        DescribedGroupModel { error_code: m.error_code, error_message: if 6 <= ctx.version { m.error_message } else { None }, group_id: m.group_id, group_state: m.group_state, protocol_type: m.protocol_type, protocol_data: m.protocol_data, members: m.members, authorized_operations: if 3 <= ctx.version { m.authorized_operations } else { 0i32 } }
    }

    /// Values that read back in context `ctx`: nested values read back. A field
    /// that the version leaves out is read as its default.
    pub open spec fn reads_back_body(m: DescribedGroupModel, ctx: Ctx) -> bool {
        &&& forall|i: int| 0 <= i < m.members.len() ==> #[trigger] <DescribedGroupMember as KafkaCodec>::reads_back(m.members[i], Ctx { version: ctx.version, flexible: ctx.flexible, classic: false })
    }

    /// A value that can be written in context `ctx` and reads back: decoding its
    /// encoding, wherever it stands, gives the value as `spec_read_as` gives it and
    /// the position just after it.
    #[verifier::spinoff_prover]
    pub proof fn lemma_body_read_back(pre: Seq<u8>, m: DescribedGroupModel, post: Seq<u8>, ctx: Ctx)
        requires
            Self::spec_encode_body(m, ctx) is Ok,
            Self::reads_back_body(m, ctx),
        ensures
            Self::spec_decode_body(pre + Self::spec_encode_body(m, ctx)->Ok_0 + post, pre.len() as int, ctx) == Ok::<(DescribedGroupModel, int), SerializationError>((Self::spec_read_as(m, ctx), pre.len() as int + Self::spec_encode_body(m, ctx)->Ok_0.len())),
    {
        reveal(DescribedGroup::spec_read_as);
        let b0 = i16_bytes(m.error_code);
        let b1 = if 6 <= ctx.version { (nullable_string_bytes(m.error_message, ctx.flexible))->Ok_0 } else { Seq::<u8>::empty() };
        let b2 = (string_bytes(m.group_id, ctx.flexible))->Ok_0;
        let b3 = (string_bytes(m.group_state, ctx.flexible))->Ok_0;
        let b4 = (string_bytes(m.protocol_type, ctx.flexible))->Ok_0;
        let b5 = (string_bytes(m.protocol_data, ctx.flexible))->Ok_0;
        let b6 = (array_bytes::<DescribedGroupMember>(m.members, Ctx { version: ctx.version, flexible: ctx.flexible, classic: false }))->Ok_0;
        let b7 = if 3 <= ctx.version { i32_bytes(m.authorized_operations) } else { Seq::<u8>::empty() };
        let b8 = if ctx.flexible { uvarint_bytes(0) } else { Seq::<u8>::empty() };
        let t9 = post;
        let t8 = b8 + t9;
        let t7 = b7 + t8;
        let t6 = b6 + t7;
        let t5 = b5 + t6;
        let t4 = b4 + t5;
        let t3 = b3 + t4;
        let t2 = b2 + t3;
        let t1 = b1 + t2;
        let t0 = b0 + t1;
        let e = Self::spec_encode_body(m, ctx)->Ok_0;
        let p1 = Self::spec_encode_body_part1(m, ctx)->Ok_0;
        assert(p1 =~= Seq::<u8>::empty() + b0 + b1 + b2 + b3 + b4);
        lemma_seq_assoc(((((Seq::<u8>::empty() + b0) + b1) + b2) + b3), b4, t5);
        lemma_seq_assoc((((Seq::<u8>::empty() + b0) + b1) + b2), b3, (b4 + t5));
        lemma_seq_assoc(((Seq::<u8>::empty() + b0) + b1), b2, (b3 + (b4 + t5)));
        lemma_seq_assoc((Seq::<u8>::empty() + b0), b1, (b2 + (b3 + (b4 + t5))));
        lemma_seq_assoc(Seq::<u8>::empty(), b0, (b1 + (b2 + (b3 + (b4 + t5)))));
        lemma_seq_empty_left((b0 + (b1 + (b2 + (b3 + (b4 + t5))))));
        let p2 = Self::spec_encode_body_part2(m, ctx)->Ok_0;
        assert(p2 =~= Seq::<u8>::empty() + b5 + b6 + b7 + b8);
        lemma_seq_assoc((((Seq::<u8>::empty() + b5) + b6) + b7), b8, t9);
        lemma_seq_assoc(((Seq::<u8>::empty() + b5) + b6), b7, (b8 + t9));
        lemma_seq_assoc((Seq::<u8>::empty() + b5), b6, (b7 + (b8 + t9)));
        lemma_seq_assoc(Seq::<u8>::empty(), b5, (b6 + (b7 + (b8 + t9))));
        lemma_seq_empty_left((b5 + (b6 + (b7 + (b8 + t9)))));
        assert(e == Seq::<u8>::empty() + p1 + p2);
        lemma_seq_assoc((Seq::<u8>::empty() + p1), p2, t9);
        lemma_seq_assoc(Seq::<u8>::empty(), p1, (p2 + t9));
        lemma_seq_empty_left((p1 + (p2 + t9)));
        let s = pre + e + post;
        lemma_seq_assoc(pre, e, post);
        assert(s == pre + t0);
        let a0 = pre;
        assert(parse_i16(s, a0.len() as int) == Ok::<(i16, int), SerializationError>((m.error_code, a0.len() as int + b0.len()))) by {
            lemma_seq_assoc(a0, b0, t1);
            lemma_i16_roundtrip(a0, m.error_code, t1);
        }
        lemma_seq_assoc(a0, b0, t1);
        let a1 = a0 + b0;
        if 6 <= ctx.version {
            assert(parse_nullable_string(s, a1.len() as int, ctx.flexible) == Ok::<(Option<Seq<char>>, int), SerializationError>((m.error_message, a1.len() as int + b1.len()))) by {
                assert(nullable_string_bytes(m.error_message, ctx.flexible) is Ok);
                lemma_seq_assoc(a1, b1, t2);
                lemma_nullable_string_roundtrip(a1, m.error_message, t2, ctx.flexible);
            }
        }
        lemma_seq_assoc(a1, b1, t2);
        let a2 = a1 + b1;
        assert(parse_string(s, a2.len() as int, ctx.flexible) == Ok::<(Seq<char>, int), SerializationError>((m.group_id, a2.len() as int + b2.len()))) by {
            assert(string_bytes(m.group_id, ctx.flexible) is Ok);
            lemma_seq_assoc(a2, b2, t3);
            lemma_string_roundtrip(a2, m.group_id, t3, ctx.flexible);
        }
        lemma_seq_assoc(a2, b2, t3);
        let a3 = a2 + b2;
        assert(parse_string(s, a3.len() as int, ctx.flexible) == Ok::<(Seq<char>, int), SerializationError>((m.group_state, a3.len() as int + b3.len()))) by {
            assert(string_bytes(m.group_state, ctx.flexible) is Ok);
            lemma_seq_assoc(a3, b3, t4);
            lemma_string_roundtrip(a3, m.group_state, t4, ctx.flexible);
        }
        lemma_seq_assoc(a3, b3, t4);
        let a4 = a3 + b3;
        assert(parse_string(s, a4.len() as int, ctx.flexible) == Ok::<(Seq<char>, int), SerializationError>((m.protocol_type, a4.len() as int + b4.len()))) by {
            assert(string_bytes(m.protocol_type, ctx.flexible) is Ok);
            lemma_seq_assoc(a4, b4, t5);
            lemma_string_roundtrip(a4, m.protocol_type, t5, ctx.flexible);
        }
        lemma_seq_assoc(a4, b4, t5);
        let a5 = a4 + b4;
        assert(parse_string(s, a5.len() as int, ctx.flexible) == Ok::<(Seq<char>, int), SerializationError>((m.protocol_data, a5.len() as int + b5.len()))) by {
            assert(string_bytes(m.protocol_data, ctx.flexible) is Ok);
            lemma_seq_assoc(a5, b5, t6);
            lemma_string_roundtrip(a5, m.protocol_data, t6, ctx.flexible);
        }
        lemma_seq_assoc(a5, b5, t6);
        let a6 = a5 + b5;
        assert(parse_array::<DescribedGroupMember>(s, a6.len() as int, Ctx { version: ctx.version, flexible: ctx.flexible, classic: false }) == Ok::<(Seq<<DescribedGroupMember as DeepView>::V>, int), SerializationError>((m.members, a6.len() as int + b6.len()))) by {
            assert(array_bytes::<DescribedGroupMember>(m.members, Ctx { version: ctx.version, flexible: ctx.flexible, classic: false }) is Ok);
            lemma_seq_assoc(a6, b6, t7);
            lemma_items_read_back::<DescribedGroupMember>(m.members, Ctx { version: ctx.version, flexible: ctx.flexible, classic: false });
            lemma_array_roundtrip::<DescribedGroupMember>(a6, m.members, t7, Ctx { version: ctx.version, flexible: ctx.flexible, classic: false });
        }
        lemma_seq_assoc(a6, b6, t7);
        let a7 = a6 + b6;
        if 3 <= ctx.version {
            assert(parse_i32(s, a7.len() as int) == Ok::<(i32, int), SerializationError>((m.authorized_operations, a7.len() as int + b7.len()))) by {
                lemma_seq_assoc(a7, b7, t8);
                lemma_i32_roundtrip(a7, m.authorized_operations, t8);
            }
        }
        lemma_seq_assoc(a7, b7, t8);
        let a8 = a7 + b7;
        if ctx.flexible {
            assert(parse_uvarint(s, a8.len() as int) == Ok::<(u64, int), SerializationError>((0u64, a8.len() as int + b8.len()))) by {
                lemma_seq_assoc(a8, b8, t9);
                lemma_uvarint_roundtrip(a8, 0, t9);
            }
        }
    }

    /// The bytes written: the encoding of each field, in the order of the
    /// protocol's layout. Reading them back, wherever they stand, gives the value,
    /// with each field that the version leaves out at its default.
    #[verifier::spinoff_prover]
    pub proof fn lemma_body_layout(pre: Seq<u8>, m: DescribedGroupModel, post: Seq<u8>, ctx: Ctx)
        requires
            Self::spec_encode_body(m, ctx) is Ok,
        ensures
            Self::spec_encode_body(m, ctx) == Ok::<Seq<u8>, SerializationError>((i16_bytes(m.error_code)) + (if 6 <= ctx.version { (nullable_string_bytes(m.error_message, ctx.flexible))->Ok_0 } else { Seq::<u8>::empty() }) + ((string_bytes(m.group_id, ctx.flexible))->Ok_0) + ((string_bytes(m.group_state, ctx.flexible))->Ok_0) + ((string_bytes(m.protocol_type, ctx.flexible))->Ok_0) + ((string_bytes(m.protocol_data, ctx.flexible))->Ok_0) + ((array_bytes::<DescribedGroupMember>(m.members, Ctx { version: ctx.version, flexible: ctx.flexible, classic: false }))->Ok_0) + (if 3 <= ctx.version { i32_bytes(m.authorized_operations) } else { Seq::<u8>::empty() }) + (if ctx.flexible { uvarint_bytes(0) } else { Seq::<u8>::empty() })),
            Self::reads_back_body(m, ctx) ==> Self::spec_decode_body(pre + ((i16_bytes(m.error_code)) + (if 6 <= ctx.version { (nullable_string_bytes(m.error_message, ctx.flexible))->Ok_0 } else { Seq::<u8>::empty() }) + ((string_bytes(m.group_id, ctx.flexible))->Ok_0) + ((string_bytes(m.group_state, ctx.flexible))->Ok_0) + ((string_bytes(m.protocol_type, ctx.flexible))->Ok_0) + ((string_bytes(m.protocol_data, ctx.flexible))->Ok_0) + ((array_bytes::<DescribedGroupMember>(m.members, Ctx { version: ctx.version, flexible: ctx.flexible, classic: false }))->Ok_0) + (if 3 <= ctx.version { i32_bytes(m.authorized_operations) } else { Seq::<u8>::empty() }) + (if ctx.flexible { uvarint_bytes(0) } else { Seq::<u8>::empty() })) + post, pre.len() as int, ctx) == Ok::<(DescribedGroupModel, int), SerializationError>((DescribedGroupModel { error_code: m.error_code, error_message: if 6 <= ctx.version { m.error_message } else { None }, group_id: m.group_id, group_state: m.group_state, protocol_type: m.protocol_type, protocol_data: m.protocol_data, members: m.members, authorized_operations: if 3 <= ctx.version { m.authorized_operations } else { 0i32 } }, pre.len() as int + ((i16_bytes(m.error_code)) + (if 6 <= ctx.version { (nullable_string_bytes(m.error_message, ctx.flexible))->Ok_0 } else { Seq::<u8>::empty() }) + ((string_bytes(m.group_id, ctx.flexible))->Ok_0) + ((string_bytes(m.group_state, ctx.flexible))->Ok_0) + ((string_bytes(m.protocol_type, ctx.flexible))->Ok_0) + ((string_bytes(m.protocol_data, ctx.flexible))->Ok_0) + ((array_bytes::<DescribedGroupMember>(m.members, Ctx { version: ctx.version, flexible: ctx.flexible, classic: false }))->Ok_0) + (if 3 <= ctx.version { i32_bytes(m.authorized_operations) } else { Seq::<u8>::empty() }) + (if ctx.flexible { uvarint_bytes(0) } else { Seq::<u8>::empty() })).len())),
    {
        let b0 = i16_bytes(m.error_code);
        let b1 = if 6 <= ctx.version { (nullable_string_bytes(m.error_message, ctx.flexible))->Ok_0 } else { Seq::<u8>::empty() };
        let b2 = (string_bytes(m.group_id, ctx.flexible))->Ok_0;
        let b3 = (string_bytes(m.group_state, ctx.flexible))->Ok_0;
        let b4 = (string_bytes(m.protocol_type, ctx.flexible))->Ok_0;
        let b5 = (string_bytes(m.protocol_data, ctx.flexible))->Ok_0;
        let b6 = (array_bytes::<DescribedGroupMember>(m.members, Ctx { version: ctx.version, flexible: ctx.flexible, classic: false }))->Ok_0;
        let b7 = if 3 <= ctx.version { i32_bytes(m.authorized_operations) } else { Seq::<u8>::empty() };
        let b8 = if ctx.flexible { uvarint_bytes(0) } else { Seq::<u8>::empty() };
        let e = Self::spec_encode_body(m, ctx)->Ok_0;
        let p1 = Self::spec_encode_body_part1(m, ctx)->Ok_0;
        assert(p1 =~= Seq::<u8>::empty() + b0 + b1 + b2 + b3 + b4);
        let p2 = Self::spec_encode_body_part2(m, ctx)->Ok_0;
        assert(p2 =~= Seq::<u8>::empty() + b5 + b6 + b7 + b8);
        assert(e == Seq::<u8>::empty() + p1 + p2);
        assert(e =~= b0 + b1 + b2 + b3 + b4 + b5 + b6 + b7 + b8);
        if Self::reads_back_body(m, ctx) {
            Self::lemma_body_read_back(pre, m, post, ctx);
            reveal(DescribedGroup::spec_read_as);
        }
    }

    /// Writing succeeds exactly when every field that the version carries can be
    /// encoded and every field that it leaves out, where leaving it out is an
    /// error, holds its default.
    #[verifier::spinoff_prover]
    pub proof fn lemma_body_write_succeeds(m: DescribedGroupModel, ctx: Ctx)
        ensures
            Self::spec_encode_body(m, ctx) is Ok <==> ((6 <= ctx.version) ==> nullable_string_bytes(m.error_message, ctx.flexible) is Ok) && (string_bytes(m.group_id, ctx.flexible) is Ok) && (string_bytes(m.group_state, ctx.flexible) is Ok) && (string_bytes(m.protocol_type, ctx.flexible) is Ok) && (string_bytes(m.protocol_data, ctx.flexible) is Ok) && (array_bytes::<DescribedGroupMember>(m.members, Ctx { version: ctx.version, flexible: ctx.flexible, classic: false }) is Ok),
    {
    }

    /// Writes the structure for `version`, with the compact encodings when `is_flexible`.
    /// On failure the buffer is left as it was.
    pub fn encode(&self, buf: &mut Vec<u8>, version: ApiVersion, is_flexible: bool) -> (r: Result<(), SerializationError>)
        ensures
            write_exact(r, old(buf)@, final(buf)@, Self::spec_encode_body(self.deep_view(), Ctx { version: version.0, flexible: is_flexible, classic: false })),
    {
        let start = buf.len();
        let r = self.encode_ctx(buf, Ctx::new(version, is_flexible));
        if r.is_err() {
            buf.truncate(start);
        }
        r
    }

    /// Reads the structure as written for `version`.
    /// On failure the reader is put back where it started.
    #[verifier::spinoff_prover]
    pub fn decode(buf: &mut Reader, version: ApiVersion, is_flexible: bool) -> (r: Result<Self, SerializationError>)
        ensures
            final(buf).bytes() == old(buf).bytes(),
            read_view_exact(r, Self::spec_decode_body(old(buf).bytes(), old(buf).pos(), Ctx { version: version.0, flexible: is_flexible, classic: false }), old(buf).pos(), final(buf).pos()),
    {
        let start = buf.position();
        let r = Self::decode_ctx(buf, Ctx::new(version, is_flexible));
        if r.is_err() {
            buf.set_position(start);
        }
        r
    }
}

impl KafkaCodec for DescribedGroup {
    open spec fn spec_encode(m: DescribedGroupModel, ctx: Ctx) -> Result<Seq<u8>, SerializationError> {
        Self::spec_encode_body(m, ctx)
    }

    open spec fn spec_decode(s: Seq<u8>, pos: int, ctx: Ctx) -> Result<(DescribedGroupModel, int), SerializationError> {
        Self::spec_decode_body(s, pos, ctx)
    }

    open spec fn reads_back(v: DescribedGroupModel, ctx: Ctx) -> bool {
        Self::reads_back_body(v, ctx) && Self::spec_read_as(v, ctx) == v
    }

    proof fn lemma_read_back(pre: Seq<u8>, v: DescribedGroupModel, post: Seq<u8>, ctx: Ctx) {
        Self::lemma_body_read_back(pre, v, post, ctx);
        assert(Self::spec_decode(pre + Self::spec_encode(v, ctx)->Ok_0 + post, pre.len() as int, ctx)
            == Self::spec_decode_body(pre + Self::spec_encode_body(v, ctx)->Ok_0 + post, pre.len() as int, ctx));
    }

    #[verifier::spinoff_prover]
    fn encode_ctx(&self, buf: &mut Vec<u8>, ctx: Ctx) -> (r: Result<(), SerializationError>) {
        let ghost mut w: Seq<u8> = Seq::empty();
        self.encode_body_part1(buf, ctx)?;
        proof {
            w = w + (Self::spec_encode_body_part1(self.deep_view(), ctx))->Ok_0;
        }
        assert(buf@ =~= old(buf)@ + w);
        self.encode_body_part2(buf, ctx)?;
        proof {
            w = w + (Self::spec_encode_body_part2(self.deep_view(), ctx))->Ok_0;
        }
        assert(buf@ =~= old(buf)@ + w);
        Ok(())
    }

    #[verifier::spinoff_prover]
    fn decode_ctx(buf: &mut Reader, ctx: Ctx) -> (r: Result<Self, SerializationError>) {
        let error_code = buf.get_i16()?;
        let error_message = if 6 <= ctx.version {
            buf.get_nullable_string(ctx.flexible)?
        } else {
            None
        };
        let group_id = buf.get_string(ctx.flexible)?;
        let group_state = buf.get_string(ctx.flexible)?;
        let protocol_type = buf.get_string(ctx.flexible)?;
        let protocol_data = buf.get_string(ctx.flexible)?;
        let members = decode_array::<DescribedGroupMember>(buf, Ctx { version: ctx.version, flexible: ctx.flexible, classic: false })?;
        let authorized_operations = if 3 <= ctx.version {
            buf.get_i32()?
        } else {
            0i32
        };
        if ctx.flexible {
            let (_tag_count, _) = decode_unsigned_varint(buf)?;
        }
        Ok(DescribedGroup { error_code, error_message, group_id, group_state, protocol_type, protocol_data, members, authorized_operations })
    }
}

// -------------------------------------------------------
// DescribedGroupMember
// -------------------------------------------------------
#[derive(Clone, Debug, Default, PartialEq)]
pub struct DescribedGroupMember {
    /// The member id.
    pub member_id: String,
    /// The unique identifier of the consumer instance provided by end user.
    /// Available in version 4+.
    pub group_instance_id: Option<String>,
    /// The client ID used in the member's latest join group request.
    pub client_id: String,
    /// The client host.
    pub client_host: String,
    /// The metadata corresponding to the current group protocol in use.
    pub member_metadata: Vec<u8>,
    /// The current assignment provided by the group leader.
    pub member_assignment: Vec<u8>,
}

/// The contents of `DescribedGroupMember`, with strings as characters and
/// nested values by their contents.
pub struct DescribedGroupMemberModel {
    pub member_id: Seq<char>,
    pub group_instance_id: Option<Seq<char>>,
    pub client_id: Seq<char>,
    pub client_host: Seq<char>,
    pub member_metadata: Seq<u8>,
    pub member_assignment: Seq<u8>,
}

impl DeepView for DescribedGroupMember {
    type V = DescribedGroupMemberModel;

    open spec fn deep_view(&self) -> DescribedGroupMemberModel {
        DescribedGroupMemberModel {
            member_id: self.member_id.deep_view(),
            group_instance_id: self.group_instance_id.deep_view(),
            client_id: self.client_id.deep_view(),
            client_host: self.client_host.deep_view(),
            member_metadata: self.member_metadata@,
            member_assignment: self.member_assignment@,
        }
    }
}

impl DescribedGroupMember {
    /// Fields 1 to 7 of the encoding.
    pub open spec fn spec_encode_body_part1(m: DescribedGroupMemberModel, ctx: Ctx) -> Result<Seq<u8>, SerializationError> {
        let r = Ok(Seq::<u8>::empty());
        let r = then(r, string_bytes(m.member_id, ctx.flexible));
        let r = if 4 <= ctx.version { then(r, nullable_string_bytes(m.group_instance_id, ctx.flexible)) } else { r };
        let r = then(r, string_bytes(m.client_id, ctx.flexible));
        let r = then(r, string_bytes(m.client_host, ctx.flexible));
        let r = then(r, bytes_bytes(m.member_metadata, ctx.flexible));
        let r = then(r, bytes_bytes(m.member_assignment, ctx.flexible));
        let r = if ctx.flexible { then(r, Ok(uvarint_bytes(0))) } else { r };
        r
    }

    #[verifier::spinoff_prover]
    fn encode_body_part1(&self, buf: &mut Vec<u8>, ctx: Ctx) -> (r: Result<(), SerializationError>)
        ensures
            write_ok(r, old(buf)@, final(buf)@, Self::spec_encode_body_part1(self.deep_view(), ctx)),
    {
        let ghost mut w: Seq<u8> = Seq::empty();
        encode_string(&self.member_id, buf, ctx.flexible)?;
        proof {
            w = w + (string_bytes(self.member_id.deep_view(), ctx.flexible))->Ok_0;
        }
        assert(buf@ =~= old(buf)@ + w);
        if 4 <= ctx.version {
            encode_nullable_string(&self.group_instance_id, buf, ctx.flexible)?;
            proof {
                w = w + (nullable_string_bytes(self.group_instance_id.deep_view(), ctx.flexible))->Ok_0;
            }
            assert(buf@ =~= old(buf)@ + w);
        }
        encode_string(&self.client_id, buf, ctx.flexible)?;
        proof {
            w = w + (string_bytes(self.client_id.deep_view(), ctx.flexible))->Ok_0;
        }
        assert(buf@ =~= old(buf)@ + w);
        encode_string(&self.client_host, buf, ctx.flexible)?;
        proof {
            w = w + (string_bytes(self.client_host.deep_view(), ctx.flexible))->Ok_0;
        }
        assert(buf@ =~= old(buf)@ + w);
        encode_bytes(&self.member_metadata, buf, ctx.flexible)?;
        proof {
            w = w + (bytes_bytes(self.member_metadata@, ctx.flexible))->Ok_0;
        }
        assert(buf@ =~= old(buf)@ + w);
        encode_bytes(&self.member_assignment, buf, ctx.flexible)?;
        proof {
            w = w + (bytes_bytes(self.member_assignment@, ctx.flexible))->Ok_0;
        }
        assert(buf@ =~= old(buf)@ + w);
        if ctx.flexible {
            encode_unsigned_varint(0, buf);
            proof {
                w = w + uvarint_bytes(0);
            }
            assert(buf@ =~= old(buf)@ + w);
        }
        Ok(())
    }

    /// The encoding of the structure in context `ctx`.
    pub open spec fn spec_encode_body(m: DescribedGroupMemberModel, ctx: Ctx) -> Result<Seq<u8>, SerializationError> {
        let r = Ok(Seq::<u8>::empty());
        let r = then(r, Self::spec_encode_body_part1(m, ctx));
        r
    }

    /// The structure read from `s` at `pos` in context `ctx`.
    pub open spec fn spec_decode_body(s: Seq<u8>, pos: int, ctx: Ctx) -> Result<(DescribedGroupMemberModel, int), SerializationError> {
        match parse_string(s, pos, ctx.flexible) {
            Err(e) => Err(e),
            Ok((member_id, pos)) =>
            match (if 4 <= ctx.version { parse_nullable_string(s, pos, ctx.flexible) } else { Ok((None, pos)) }) {
                Err(e) => Err(e),
                Ok((group_instance_id, pos)) =>
                match parse_string(s, pos, ctx.flexible) {
                    Err(e) => Err(e),
                    Ok((client_id, pos)) =>
                    match parse_string(s, pos, ctx.flexible) {
                        Err(e) => Err(e),
                        Ok((client_host, pos)) =>
                        match parse_bytes(s, pos, ctx.flexible) {
                            Err(e) => Err(e),
                            Ok((member_metadata, pos)) =>
                            match parse_bytes(s, pos, ctx.flexible) {
                                Err(e) => Err(e),
                                Ok((member_assignment, pos)) =>
                                match (if ctx.flexible { parse_uvarint(s, pos) } else { Ok((0u64, pos)) }) {
                                    Err(e) => Err(e),
                                    Ok((_tag_count, pos)) =>
                                    Ok((DescribedGroupMemberModel { member_id, group_instance_id, client_id, client_host, member_metadata, member_assignment }, pos))
                                }
                            }
                        }
                    }
                }
            }
        }
    }

    /// The structure as it reads back in context `ctx`: each field that the
    /// version leaves out is at its default.
    #[verifier::opaque]
    pub open spec fn spec_read_as(m: DescribedGroupMemberModel, ctx: Ctx) -> DescribedGroupMemberModel {
        DescribedGroupMemberModel { member_id: m.member_id, group_instance_id: if 4 <= ctx.version { m.group_instance_id } else { None }, client_id: m.client_id, client_host: m.client_host, member_metadata: m.member_metadata, member_assignment: m.member_assignment }
    }

    /// Values that read back in context `ctx`: nested values read back. A field
    /// that the version leaves out is read as its default.
    pub open spec fn reads_back_body(m: DescribedGroupMemberModel, ctx: Ctx) -> bool {
        true
    }

    /// A value that can be written in context `ctx` and reads back: decoding its
    /// encoding, wherever it stands, gives the value as `spec_read_as` gives it and
    /// the position just after it.
    #[verifier::spinoff_prover]
    pub proof fn lemma_body_read_back(pre: Seq<u8>, m: DescribedGroupMemberModel, post: Seq<u8>, ctx: Ctx)
        requires
            Self::spec_encode_body(m, ctx) is Ok,
            Self::reads_back_body(m, ctx),
        ensures
            Self::spec_decode_body(pre + Self::spec_encode_body(m, ctx)->Ok_0 + post, pre.len() as int, ctx) == Ok::<(DescribedGroupMemberModel, int), SerializationError>((Self::spec_read_as(m, ctx), pre.len() as int + Self::spec_encode_body(m, ctx)->Ok_0.len())),
    {
        reveal(DescribedGroupMember::spec_read_as);
        let b0 = (string_bytes(m.member_id, ctx.flexible))->Ok_0;
        let b1 = if 4 <= ctx.version { (nullable_string_bytes(m.group_instance_id, ctx.flexible))->Ok_0 } else { Seq::<u8>::empty() };
        let b2 = (string_bytes(m.client_id, ctx.flexible))->Ok_0;
        let b3 = (string_bytes(m.client_host, ctx.flexible))->Ok_0;
        let b4 = (bytes_bytes(m.member_metadata, ctx.flexible))->Ok_0;
        let b5 = (bytes_bytes(m.member_assignment, ctx.flexible))->Ok_0;
        let b6 = if ctx.flexible { uvarint_bytes(0) } else { Seq::<u8>::empty() };
        let t7 = post;
        let t6 = b6 + t7;
        let t5 = b5 + t6;
        let t4 = b4 + t5;
        let t3 = b3 + t4;
        let t2 = b2 + t3;
        let t1 = b1 + t2;
        let t0 = b0 + t1;
        let e = Self::spec_encode_body(m, ctx)->Ok_0;
        let p1 = Self::spec_encode_body_part1(m, ctx)->Ok_0;
        assert(p1 =~= Seq::<u8>::empty() + b0 + b1 + b2 + b3 + b4 + b5 + b6);
        lemma_seq_assoc(((((((Seq::<u8>::empty() + b0) + b1) + b2) + b3) + b4) + b5), b6, t7);
        lemma_seq_assoc((((((Seq::<u8>::empty() + b0) + b1) + b2) + b3) + b4), b5, (b6 + t7));
        lemma_seq_assoc(((((Seq::<u8>::empty() + b0) + b1) + b2) + b3), b4, (b5 + (b6 + t7)));
        lemma_seq_assoc((((Seq::<u8>::empty() + b0) + b1) + b2), b3, (b4 + (b5 + (b6 + t7))));
        lemma_seq_assoc(((Seq::<u8>::empty() + b0) + b1), b2, (b3 + (b4 + (b5 + (b6 + t7)))));
        lemma_seq_assoc((Seq::<u8>::empty() + b0), b1, (b2 + (b3 + (b4 + (b5 + (b6 + t7))))));
        lemma_seq_assoc(Seq::<u8>::empty(), b0, (b1 + (b2 + (b3 + (b4 + (b5 + (b6 + t7)))))));
        lemma_seq_empty_left((b0 + (b1 + (b2 + (b3 + (b4 + (b5 + (b6 + t7))))))));
        assert(e == Seq::<u8>::empty() + p1);
        lemma_seq_assoc(Seq::<u8>::empty(), p1, t7);
        lemma_seq_empty_left((p1 + t7));
        let s = pre + e + post;
        lemma_seq_assoc(pre, e, post);
        assert(s == pre + t0);
        let a0 = pre;
        assert(parse_string(s, a0.len() as int, ctx.flexible) == Ok::<(Seq<char>, int), SerializationError>((m.member_id, a0.len() as int + b0.len()))) by {
            assert(string_bytes(m.member_id, ctx.flexible) is Ok);
            lemma_seq_assoc(a0, b0, t1);
            lemma_string_roundtrip(a0, m.member_id, t1, ctx.flexible);
        }
        lemma_seq_assoc(a0, b0, t1);
        let a1 = a0 + b0;
        if 4 <= ctx.version {
            assert(parse_nullable_string(s, a1.len() as int, ctx.flexible) == Ok::<(Option<Seq<char>>, int), SerializationError>((m.group_instance_id, a1.len() as int + b1.len()))) by {
                assert(nullable_string_bytes(m.group_instance_id, ctx.flexible) is Ok);
                lemma_seq_assoc(a1, b1, t2);
                lemma_nullable_string_roundtrip(a1, m.group_instance_id, t2, ctx.flexible);
            }
        }
        lemma_seq_assoc(a1, b1, t2);
        let a2 = a1 + b1;
        assert(parse_string(s, a2.len() as int, ctx.flexible) == Ok::<(Seq<char>, int), SerializationError>((m.client_id, a2.len() as int + b2.len()))) by {
            assert(string_bytes(m.client_id, ctx.flexible) is Ok);
            lemma_seq_assoc(a2, b2, t3);
            lemma_string_roundtrip(a2, m.client_id, t3, ctx.flexible);
        }
        lemma_seq_assoc(a2, b2, t3);
        let a3 = a2 + b2;
        assert(parse_string(s, a3.len() as int, ctx.flexible) == Ok::<(Seq<char>, int), SerializationError>((m.client_host, a3.len() as int + b3.len()))) by {
            assert(string_bytes(m.client_host, ctx.flexible) is Ok);
            lemma_seq_assoc(a3, b3, t4);
            lemma_string_roundtrip(a3, m.client_host, t4, ctx.flexible);
        }
        lemma_seq_assoc(a3, b3, t4);
        let a4 = a3 + b3;
        assert(parse_bytes(s, a4.len() as int, ctx.flexible) == Ok::<(Seq<u8>, int), SerializationError>((m.member_metadata, a4.len() as int + b4.len()))) by {
            assert(bytes_bytes(m.member_metadata, ctx.flexible) is Ok);
            lemma_seq_assoc(a4, b4, t5);
            lemma_bytes_roundtrip(a4, m.member_metadata, t5, ctx.flexible);
        }
        lemma_seq_assoc(a4, b4, t5);
        let a5 = a4 + b4;
        assert(parse_bytes(s, a5.len() as int, ctx.flexible) == Ok::<(Seq<u8>, int), SerializationError>((m.member_assignment, a5.len() as int + b5.len()))) by {
            assert(bytes_bytes(m.member_assignment, ctx.flexible) is Ok);
            lemma_seq_assoc(a5, b5, t6);
            lemma_bytes_roundtrip(a5, m.member_assignment, t6, ctx.flexible);
        }
        lemma_seq_assoc(a5, b5, t6);
        let a6 = a5 + b5;
        if ctx.flexible {
            assert(parse_uvarint(s, a6.len() as int) == Ok::<(u64, int), SerializationError>((0u64, a6.len() as int + b6.len()))) by {
                lemma_seq_assoc(a6, b6, t7);
                lemma_uvarint_roundtrip(a6, 0, t7);
            }
        }
    }

    /// The bytes written: the encoding of each field, in the order of the
    /// protocol's layout. Reading them back, wherever they stand, gives the value,
    /// with each field that the version leaves out at its default.
    #[verifier::spinoff_prover]
    pub proof fn lemma_body_layout(pre: Seq<u8>, m: DescribedGroupMemberModel, post: Seq<u8>, ctx: Ctx)
        requires
            Self::spec_encode_body(m, ctx) is Ok,
        ensures
            Self::spec_encode_body(m, ctx) == Ok::<Seq<u8>, SerializationError>(((string_bytes(m.member_id, ctx.flexible))->Ok_0) + (if 4 <= ctx.version { (nullable_string_bytes(m.group_instance_id, ctx.flexible))->Ok_0 } else { Seq::<u8>::empty() }) + ((string_bytes(m.client_id, ctx.flexible))->Ok_0) + ((string_bytes(m.client_host, ctx.flexible))->Ok_0) + ((bytes_bytes(m.member_metadata, ctx.flexible))->Ok_0) + ((bytes_bytes(m.member_assignment, ctx.flexible))->Ok_0) + (if ctx.flexible { uvarint_bytes(0) } else { Seq::<u8>::empty() })),
            Self::reads_back_body(m, ctx) ==> Self::spec_decode_body(pre + (((string_bytes(m.member_id, ctx.flexible))->Ok_0) + (if 4 <= ctx.version { (nullable_string_bytes(m.group_instance_id, ctx.flexible))->Ok_0 } else { Seq::<u8>::empty() }) + ((string_bytes(m.client_id, ctx.flexible))->Ok_0) + ((string_bytes(m.client_host, ctx.flexible))->Ok_0) + ((bytes_bytes(m.member_metadata, ctx.flexible))->Ok_0) + ((bytes_bytes(m.member_assignment, ctx.flexible))->Ok_0) + (if ctx.flexible { uvarint_bytes(0) } else { Seq::<u8>::empty() })) + post, pre.len() as int, ctx) == Ok::<(DescribedGroupMemberModel, int), SerializationError>((DescribedGroupMemberModel { member_id: m.member_id, group_instance_id: if 4 <= ctx.version { m.group_instance_id } else { None }, client_id: m.client_id, client_host: m.client_host, member_metadata: m.member_metadata, member_assignment: m.member_assignment }, pre.len() as int + (((string_bytes(m.member_id, ctx.flexible))->Ok_0) + (if 4 <= ctx.version { (nullable_string_bytes(m.group_instance_id, ctx.flexible))->Ok_0 } else { Seq::<u8>::empty() }) + ((string_bytes(m.client_id, ctx.flexible))->Ok_0) + ((string_bytes(m.client_host, ctx.flexible))->Ok_0) + ((bytes_bytes(m.member_metadata, ctx.flexible))->Ok_0) + ((bytes_bytes(m.member_assignment, ctx.flexible))->Ok_0) + (if ctx.flexible { uvarint_bytes(0) } else { Seq::<u8>::empty() })).len())),
    {
        let b0 = (string_bytes(m.member_id, ctx.flexible))->Ok_0;
        let b1 = if 4 <= ctx.version { (nullable_string_bytes(m.group_instance_id, ctx.flexible))->Ok_0 } else { Seq::<u8>::empty() };
        let b2 = (string_bytes(m.client_id, ctx.flexible))->Ok_0;
        let b3 = (string_bytes(m.client_host, ctx.flexible))->Ok_0;
        let b4 = (bytes_bytes(m.member_metadata, ctx.flexible))->Ok_0;
        let b5 = (bytes_bytes(m.member_assignment, ctx.flexible))->Ok_0;
        let b6 = if ctx.flexible { uvarint_bytes(0) } else { Seq::<u8>::empty() };
        let e = Self::spec_encode_body(m, ctx)->Ok_0;
        let p1 = Self::spec_encode_body_part1(m, ctx)->Ok_0;
        assert(p1 =~= Seq::<u8>::empty() + b0 + b1 + b2 + b3 + b4 + b5 + b6);
        assert(e == Seq::<u8>::empty() + p1);
        assert(e =~= b0 + b1 + b2 + b3 + b4 + b5 + b6);
        if Self::reads_back_body(m, ctx) {
            Self::lemma_body_read_back(pre, m, post, ctx);
            reveal(DescribedGroupMember::spec_read_as);
        }
    }

    /// Writing succeeds exactly when every field that the version carries can be
    /// encoded and every field that it leaves out, where leaving it out is an
    /// error, holds its default.
    #[verifier::spinoff_prover]
    pub proof fn lemma_body_write_succeeds(m: DescribedGroupMemberModel, ctx: Ctx)
        ensures
            Self::spec_encode_body(m, ctx) is Ok <==> (string_bytes(m.member_id, ctx.flexible) is Ok) && ((4 <= ctx.version) ==> nullable_string_bytes(m.group_instance_id, ctx.flexible) is Ok) && (string_bytes(m.client_id, ctx.flexible) is Ok) && (string_bytes(m.client_host, ctx.flexible) is Ok) && (bytes_bytes(m.member_metadata, ctx.flexible) is Ok) && (bytes_bytes(m.member_assignment, ctx.flexible) is Ok),
    {
    }

    /// Writes the structure for `version`, with the compact encodings when `is_flexible`.
    /// On failure the buffer is left as it was.
    pub fn encode(&self, buf: &mut Vec<u8>, version: ApiVersion, is_flexible: bool) -> (r: Result<(), SerializationError>)
        ensures
            write_exact(r, old(buf)@, final(buf)@, Self::spec_encode_body(self.deep_view(), Ctx { version: version.0, flexible: is_flexible, classic: false })),
    {
        let start = buf.len();
        let r = self.encode_ctx(buf, Ctx::new(version, is_flexible));
        if r.is_err() {
            buf.truncate(start);
        }
        r
    }

    /// Reads the structure as written for `version`.
    /// On failure the reader is put back where it started.
    #[verifier::spinoff_prover]
    pub fn decode(buf: &mut Reader, version: ApiVersion, is_flexible: bool) -> (r: Result<Self, SerializationError>)
        ensures
            final(buf).bytes() == old(buf).bytes(),
            read_view_exact(r, Self::spec_decode_body(old(buf).bytes(), old(buf).pos(), Ctx { version: version.0, flexible: is_flexible, classic: false }), old(buf).pos(), final(buf).pos()),
    {
        let start = buf.position();
        let r = Self::decode_ctx(buf, Ctx::new(version, is_flexible));
        if r.is_err() {
            buf.set_position(start);
        }
        r
    }
}

impl KafkaCodec for DescribedGroupMember {
    open spec fn spec_encode(m: DescribedGroupMemberModel, ctx: Ctx) -> Result<Seq<u8>, SerializationError> {
        Self::spec_encode_body(m, ctx)
    }

    open spec fn spec_decode(s: Seq<u8>, pos: int, ctx: Ctx) -> Result<(DescribedGroupMemberModel, int), SerializationError> {
        Self::spec_decode_body(s, pos, ctx)
    }

    open spec fn reads_back(v: DescribedGroupMemberModel, ctx: Ctx) -> bool {
        Self::reads_back_body(v, ctx) && Self::spec_read_as(v, ctx) == v
    }

    proof fn lemma_read_back(pre: Seq<u8>, v: DescribedGroupMemberModel, post: Seq<u8>, ctx: Ctx) {
        Self::lemma_body_read_back(pre, v, post, ctx);
        assert(Self::spec_decode(pre + Self::spec_encode(v, ctx)->Ok_0 + post, pre.len() as int, ctx)
            == Self::spec_decode_body(pre + Self::spec_encode_body(v, ctx)->Ok_0 + post, pre.len() as int, ctx));
    }

    #[verifier::spinoff_prover]
    fn encode_ctx(&self, buf: &mut Vec<u8>, ctx: Ctx) -> (r: Result<(), SerializationError>) {
        let ghost mut w: Seq<u8> = Seq::empty();
        self.encode_body_part1(buf, ctx)?;
        proof {
            w = w + (Self::spec_encode_body_part1(self.deep_view(), ctx))->Ok_0;
        }
        assert(buf@ =~= old(buf)@ + w);
        Ok(())
    }

    #[verifier::spinoff_prover]
    fn decode_ctx(buf: &mut Reader, ctx: Ctx) -> (r: Result<Self, SerializationError>) {
        let member_id = buf.get_string(ctx.flexible)?;
        let group_instance_id = if 4 <= ctx.version {
            buf.get_nullable_string(ctx.flexible)?
        } else {
            None
        };
        let client_id = buf.get_string(ctx.flexible)?;
        let client_host = buf.get_string(ctx.flexible)?;
        let member_metadata = buf.get_bytes(ctx.flexible)?;
        let member_assignment = buf.get_bytes(ctx.flexible)?;
        if ctx.flexible {
            let (_tag_count, _) = decode_unsigned_varint(buf)?;
        }
        Ok(DescribedGroupMember { member_id, group_instance_id, client_id, client_host, member_metadata, member_assignment })
    }
}

} // verus!
