//! DescribeConfigsResponse (API key 32).
use vstd::prelude::*;
use crate::roundtrip::{lemma_array_roundtrip, lemma_bool_roundtrip, lemma_i16_roundtrip,
    lemma_i32_roundtrip, lemma_i8_roundtrip, lemma_items_read_back,
    lemma_nullable_string_roundtrip, lemma_seq_assoc, lemma_seq_empty_left,
    lemma_string_roundtrip, lemma_uvarint_roundtrip};
use crate::serialization::{Ctx, KafkaCodec, Reader, SerializationError, array_bytes, bool_bytes,
    decode_array, decode_unsigned_varint, encode_array, encode_nullable_string, encode_string,
    encode_unsigned_varint, i16_bytes, i32_bytes, i8_bytes, new_array, nullable_string_bytes,
    parse_array, parse_bool, parse_i16, parse_i32, parse_i8, parse_nullable_string, parse_string,
    parse_uvarint, put_bool, put_i16, put_i32, put_i8, read_view_exact, read_view_ok,
    string_bytes, then, uvarint_bytes, write_exact, write_ok};
use crate::{ApiKey, ApiVersion};

verus! {

// -------------------------------------------------------
// DescribeConfigsResponse
// -------------------------------------------------------
#[derive(Clone, Debug, Default, PartialEq)]
pub struct DescribeConfigsResponse {
    /// The duration in milliseconds for which the request was throttled due to a quota violation, or zero if the request did not violate any quota.
    pub throttle_time_ms: i32,
    /// The results for each resource.
    pub results: Vec<DescribeConfigsResult>,
}

/// The contents of `DescribeConfigsResponse`, with strings as characters and
/// nested values by their contents.
pub struct DescribeConfigsResponseModel {
    pub throttle_time_ms: i32,
    pub results: Seq<<DescribeConfigsResult as DeepView>::V>,
}

impl DeepView for DescribeConfigsResponse {
    type V = DescribeConfigsResponseModel;

    open spec fn deep_view(&self) -> DescribeConfigsResponseModel {
        DescribeConfigsResponseModel {
            throttle_time_ms: self.throttle_time_ms,
            results: self.results.deep_view(),
        }
    }
}

impl DescribeConfigsResponse {
    /// The encoding of the structure in context `ctx`.
    pub open spec fn spec_encode_body(m: DescribeConfigsResponseModel, ctx: Ctx) -> Result<Seq<u8>, SerializationError> {
        let r = Ok(Seq::<u8>::empty());
        let r = then(r, Ok(i32_bytes(m.throttle_time_ms)));
        let r = then(r, array_bytes::<DescribeConfigsResult>(m.results, Ctx { version: ctx.version, flexible: ctx.flexible, classic: false }));
        let r = if ctx.flexible { then(r, Ok(uvarint_bytes(0))) } else { r };
        r
    }

    /// The structure read from `s` at `pos` in context `ctx`.
    pub open spec fn spec_decode_body(s: Seq<u8>, pos: int, ctx: Ctx) -> Result<(DescribeConfigsResponseModel, int), SerializationError> {
        match parse_i32(s, pos) {
            Err(e) => Err(e),
            Ok((throttle_time_ms, pos)) =>
            match parse_array::<DescribeConfigsResult>(s, pos, Ctx { version: ctx.version, flexible: ctx.flexible, classic: false }) {
                Err(e) => Err(e),
                Ok((results, pos)) =>
                match (if ctx.flexible { parse_uvarint(s, pos) } else { Ok((0u64, pos)) }) {
                    Err(e) => Err(e),
                    Ok((_tag_count, pos)) =>
                    Ok((DescribeConfigsResponseModel { throttle_time_ms, results }, pos))
                }
            }
        }
    }

    /// Values of the structure that read back from their encoding in `ctx`: every
    /// field that the version leaves out holds its default, and nested values
    /// read back.
    pub open spec fn reads_back_body(m: DescribeConfigsResponseModel, ctx: Ctx) -> bool {
        &&& forall|i: int| 0 <= i < m.results.len() ==> #[trigger] <DescribeConfigsResult as KafkaCodec>::reads_back(m.results[i], Ctx { version: ctx.version, flexible: ctx.flexible, classic: false })
    }

    /// A value that can be written in `ctx` and reads back: decoding its encoding,
    /// wherever it stands, gives the value and the position just after it.
    #[verifier::spinoff_prover]
    pub proof fn lemma_body_read_back(pre: Seq<u8>, m: DescribeConfigsResponseModel, post: Seq<u8>, ctx: Ctx)
        requires
            Self::spec_encode_body(m, ctx) is Ok,
            Self::reads_back_body(m, ctx),
        ensures
            Self::spec_decode_body(pre + Self::spec_encode_body(m, ctx)->Ok_0 + post, pre.len() as int, ctx) == Ok::<(DescribeConfigsResponseModel, int), SerializationError>((m, pre.len() as int + Self::spec_encode_body(m, ctx)->Ok_0.len())),
    {
        let b0 = i32_bytes(m.throttle_time_ms);
        let b1 = (array_bytes::<DescribeConfigsResult>(m.results, Ctx { version: ctx.version, flexible: ctx.flexible, classic: false }))->Ok_0;
        let b2 = if ctx.flexible { uvarint_bytes(0) } else { Seq::<u8>::empty() };
        let t3 = post;
        let t2 = b2 + t3;
        let t1 = b1 + t2;
        let t0 = b0 + t1;
        let e = Self::spec_encode_body(m, ctx)->Ok_0;
        assert(e =~= Seq::<u8>::empty() + b0 + b1 + b2);
        lemma_seq_assoc(((Seq::<u8>::empty() + b0) + b1), b2, post);
        lemma_seq_assoc((Seq::<u8>::empty() + b0), b1, (b2 + post));
        lemma_seq_assoc(Seq::<u8>::empty(), b0, (b1 + (b2 + post)));
        lemma_seq_empty_left((b0 + (b1 + (b2 + post))));
        let s = pre + e + post;
        lemma_seq_assoc(pre, e, post);
        assert(s == pre + t0);
        let a0 = pre;
        assert(parse_i32(s, a0.len() as int) == Ok::<(i32, int), SerializationError>((m.throttle_time_ms, a0.len() as int + b0.len()))) by {
            lemma_seq_assoc(a0, b0, t1);
            lemma_i32_roundtrip(a0, m.throttle_time_ms, t1);
        }
        lemma_seq_assoc(a0, b0, t1);
        let a1 = a0 + b0;
        assert(parse_array::<DescribeConfigsResult>(s, a1.len() as int, Ctx { version: ctx.version, flexible: ctx.flexible, classic: false }) == Ok::<(Seq<<DescribeConfigsResult as DeepView>::V>, int), SerializationError>((m.results, a1.len() as int + b1.len()))) by {
            assert(array_bytes::<DescribeConfigsResult>(m.results, Ctx { version: ctx.version, flexible: ctx.flexible, classic: false }) is Ok);
            lemma_seq_assoc(a1, b1, t2);
            lemma_items_read_back::<DescribeConfigsResult>(m.results, Ctx { version: ctx.version, flexible: ctx.flexible, classic: false });
            lemma_array_roundtrip::<DescribeConfigsResult>(a1, m.results, t2, Ctx { version: ctx.version, flexible: ctx.flexible, classic: false });
        }
        lemma_seq_assoc(a1, b1, t2);
        let a2 = a1 + b1;
        if ctx.flexible {
            assert(parse_uvarint(s, a2.len() as int) == Ok::<(u64, int), SerializationError>((0u64, a2.len() as int + b2.len()))) by {
                lemma_seq_assoc(a2, b2, t3);
                lemma_uvarint_roundtrip(a2, 0, t3);
            }
        }
    }

    /// The bytes written: the encoding of each field, in the order of the
    /// protocol's layout. Reading them back, wherever they stand, gives the value,
    /// with each field that the version leaves out at its default.
    #[verifier::spinoff_prover]
    pub proof fn lemma_body_layout(pre: Seq<u8>, m: DescribeConfigsResponseModel, post: Seq<u8>, ctx: Ctx)
        requires
            Self::spec_encode_body(m, ctx) is Ok,
        ensures
            Self::spec_encode_body(m, ctx) == Ok::<Seq<u8>, SerializationError>((i32_bytes(m.throttle_time_ms)) + ((array_bytes::<DescribeConfigsResult>(m.results, Ctx { version: ctx.version, flexible: ctx.flexible, classic: false }))->Ok_0) + (if ctx.flexible { uvarint_bytes(0) } else { Seq::<u8>::empty() })),
            Self::reads_back_body(m, ctx) ==> Self::spec_decode_body(pre + ((i32_bytes(m.throttle_time_ms)) + ((array_bytes::<DescribeConfigsResult>(m.results, Ctx { version: ctx.version, flexible: ctx.flexible, classic: false }))->Ok_0) + (if ctx.flexible { uvarint_bytes(0) } else { Seq::<u8>::empty() })) + post, pre.len() as int, ctx) == Ok::<(DescribeConfigsResponseModel, int), SerializationError>((m, pre.len() as int + ((i32_bytes(m.throttle_time_ms)) + ((array_bytes::<DescribeConfigsResult>(m.results, Ctx { version: ctx.version, flexible: ctx.flexible, classic: false }))->Ok_0) + (if ctx.flexible { uvarint_bytes(0) } else { Seq::<u8>::empty() })).len())),
    {
        let b0 = i32_bytes(m.throttle_time_ms);
        let b1 = (array_bytes::<DescribeConfigsResult>(m.results, Ctx { version: ctx.version, flexible: ctx.flexible, classic: false }))->Ok_0;
        let b2 = if ctx.flexible { uvarint_bytes(0) } else { Seq::<u8>::empty() };
        let e = Self::spec_encode_body(m, ctx)->Ok_0;
        assert(e =~= Seq::<u8>::empty() + b0 + b1 + b2);
        assert(e =~= b0 + b1 + b2);
        if Self::reads_back_body(m, ctx) {
            Self::lemma_body_read_back(pre, m, post, ctx);
        }
    }

    /// Writing succeeds exactly when every field that the version carries can be
    /// encoded and every field that it leaves out, where leaving it out is an
    /// error, holds its default.
    #[verifier::spinoff_prover]
    pub proof fn lemma_body_write_succeeds(m: DescribeConfigsResponseModel, ctx: Ctx)
        ensures
            Self::spec_encode_body(m, ctx) is Ok <==> (array_bytes::<DescribeConfigsResult>(m.results, Ctx { version: ctx.version, flexible: ctx.flexible, classic: false }) is Ok),
    {
    }

    /// Writes the structure for `version`, with the compact encodings when `is_flexible`.
    /// On failure the buffer is left as it was.
    pub fn encode(&self, buf: &mut Vec<u8>, version: ApiVersion, is_flexible: bool) -> (r: Result<(), SerializationError>)
        ensures
            write_exact(r, old(buf)@, final(buf)@, Self::spec_encode_body(self.deep_view(), Ctx { version: version.0, flexible: is_flexible, classic: false })),
    {
        let start = buf.len();
        let r = self.encode_ctx(buf, Ctx::new(version, is_flexible));
        if r.is_err() {
            buf.truncate(start);
        }
        r
    }

    /// Reads the structure as written for `version`.
    /// On failure the reader is put back where it started.
    pub fn decode(buf: &mut Reader, version: ApiVersion, is_flexible: bool) -> (r: Result<Self, SerializationError>)
        ensures
            final(buf).bytes() == old(buf).bytes(),
            read_view_exact(r, Self::spec_decode_body(old(buf).bytes(), old(buf).pos(), Ctx { version: version.0, flexible: is_flexible, classic: false }), old(buf).pos(), final(buf).pos()),
    {
        let start = buf.position();
        let r = Self::decode_ctx(buf, Ctx::new(version, is_flexible));
        if r.is_err() {
            buf.set_position(start);
        }
        r
    }
}

impl KafkaCodec for DescribeConfigsResponse {
    open spec fn spec_encode(m: DescribeConfigsResponseModel, ctx: Ctx) -> Result<Seq<u8>, SerializationError> {
        Self::spec_encode_body(m, ctx)
    }

    open spec fn spec_decode(s: Seq<u8>, pos: int, ctx: Ctx) -> Result<(DescribeConfigsResponseModel, int), SerializationError> {
        Self::spec_decode_body(s, pos, ctx)
    }

    open spec fn reads_back(v: DescribeConfigsResponseModel, ctx: Ctx) -> bool {
        Self::reads_back_body(v, ctx)
    }

    proof fn lemma_read_back(pre: Seq<u8>, v: DescribeConfigsResponseModel, post: Seq<u8>, ctx: Ctx) {
        Self::lemma_body_read_back(pre, v, post, ctx);
        assert(Self::spec_decode(pre + Self::spec_encode(v, ctx)->Ok_0 + post, pre.len() as int, ctx)
            == Self::spec_decode_body(pre + Self::spec_encode_body(v, ctx)->Ok_0 + post, pre.len() as int, ctx));
    }

    fn encode_ctx(&self, buf: &mut Vec<u8>, ctx: Ctx) -> (r: Result<(), SerializationError>) {
        let ghost mut w: Seq<u8> = Seq::empty();
        put_i32(buf, self.throttle_time_ms);
        proof {
            w = w + i32_bytes(self.throttle_time_ms);
        }
        assert(buf@ =~= old(buf)@ + w);
        encode_array(&self.results, buf, Ctx { version: ctx.version, flexible: ctx.flexible, classic: false })?;
        proof {
            w = w + (array_bytes::<DescribeConfigsResult>(self.results.deep_view(), Ctx { version: ctx.version, flexible: ctx.flexible, classic: false }))->Ok_0;
        }
        assert(buf@ =~= old(buf)@ + w);
        if ctx.flexible {
            encode_unsigned_varint(0, buf);
            proof {
                w = w + uvarint_bytes(0);
            }
            assert(buf@ =~= old(buf)@ + w);
        }
        Ok(())
    }

    fn decode_ctx(buf: &mut Reader, ctx: Ctx) -> (r: Result<Self, SerializationError>) {
        let throttle_time_ms = buf.get_i32()?;
        let results = decode_array::<DescribeConfigsResult>(buf, Ctx { version: ctx.version, flexible: ctx.flexible, classic: false })?;
        if ctx.flexible {
            let (_tag_count, _) = decode_unsigned_varint(buf)?;
        }
        Ok(DescribeConfigsResponse { throttle_time_ms, results })
    }
}

impl DescribeConfigsResponse {
    /// The API key of this message.
    pub fn get_api_key() -> (r: ApiKey)
        ensures
            r.0 == 32,
    {
        ApiKey::new(32)
    }

    /// The oldest version of this message.
    pub fn get_min_supported_version() -> (r: ApiVersion)
        ensures
            r.0 == 1,
    {
        ApiVersion::new(1)
    }

    /// The newest version of this message.
    pub fn get_max_supported_version() -> (r: ApiVersion)
        ensures
            r.0 == 4,
    {
        ApiVersion::new(4)
    }

    /// The first version of this message with the compact encodings.
    pub fn get_min_flexible_version() -> (r: ApiVersion)
        ensures
            r.0 == 4,
    {
        ApiVersion::new(4)
    }

    /// The encoding of a whole message body at `version`.
    pub open spec fn spec_serialize(m: DescribeConfigsResponseModel, version: i16) -> Result<Seq<u8>, SerializationError> {
        let is_flexible = version >= 4;
        let ctx = Ctx { version, flexible: is_flexible, classic: false };
        let r = Ok(Seq::<u8>::empty());
        let r = then(r, Ok(i32_bytes(m.throttle_time_ms)));
        let r = then(r, array_bytes::<DescribeConfigsResult>(m.results, Ctx { version: ctx.version, flexible: ctx.flexible, classic: false }));
        let r = if ctx.flexible { then(r, Ok(uvarint_bytes(0))) } else { r };
        r
    }

    /// The message body read at `version`.
    pub open spec fn spec_deserialize(s: Seq<u8>, pos: int, version: i16) -> Result<(DescribeConfigsResponseModel, int), SerializationError> {
        let is_flexible = version >= 4;
        let ctx = Ctx { version, flexible: is_flexible, classic: false };
        match parse_i32(s, pos) {
            Err(e) => Err(e),
            Ok((throttle_time_ms, pos)) =>
            match parse_array::<DescribeConfigsResult>(s, pos, Ctx { version: ctx.version, flexible: ctx.flexible, classic: false }) {
                Err(e) => Err(e),
                Ok((results, pos)) =>
                match (if ctx.flexible { parse_uvarint(s, pos) } else { Ok((0u64, pos)) }) {
                    Err(e) => Err(e),
                    Ok((_tag_count, pos)) =>
                    Ok((DescribeConfigsResponseModel { throttle_time_ms, results }, pos))
                }
            }
        }
    }

    /// Message bodies that read back when written at `version`: every field that
    /// the version leaves out holds its default, and nested values read back.
    pub open spec fn reads_back_message(m: DescribeConfigsResponseModel, version: i16) -> bool {
        let is_flexible = version >= 4;
        let ctx = Ctx { version, flexible: is_flexible, classic: false };
        &&& forall|i: int| 0 <= i < m.results.len() ==> #[trigger] <DescribeConfigsResult as KafkaCodec>::reads_back(m.results[i], Ctx { version: ctx.version, flexible: ctx.flexible, classic: false })
    }

    /// A message body that can be written at `version` and reads back: reading a
    /// body at `version` from its bytes, wherever they stand, gives the same message.
    #[verifier::spinoff_prover]
    pub proof fn lemma_message_read_back(pre: Seq<u8>, m: DescribeConfigsResponseModel, post: Seq<u8>, version: i16)
        requires
            Self::spec_serialize(m, version) is Ok,
            Self::reads_back_message(m, version),
        ensures
            Self::spec_deserialize(pre + Self::spec_serialize(m, version)->Ok_0 + post, pre.len() as int, version) == Ok::<(DescribeConfigsResponseModel, int), SerializationError>((m, pre.len() as int + Self::spec_serialize(m, version)->Ok_0.len())),
    {
        let is_flexible = version >= 4;
        let ctx = Ctx { version, flexible: is_flexible, classic: false };
        let b0 = i32_bytes(m.throttle_time_ms);
        let b1 = (array_bytes::<DescribeConfigsResult>(m.results, Ctx { version: ctx.version, flexible: ctx.flexible, classic: false }))->Ok_0;
        let b2 = if ctx.flexible { uvarint_bytes(0) } else { Seq::<u8>::empty() };
        let t3 = post;
        let t2 = b2 + t3;
        let t1 = b1 + t2;
        let t0 = b0 + t1;
        let e = Self::spec_serialize(m, version)->Ok_0;
        assert(e =~= Seq::<u8>::empty() + b0 + b1 + b2);
        lemma_seq_assoc(((Seq::<u8>::empty() + b0) + b1), b2, post);
        lemma_seq_assoc((Seq::<u8>::empty() + b0), b1, (b2 + post));
        lemma_seq_assoc(Seq::<u8>::empty(), b0, (b1 + (b2 + post)));
        lemma_seq_empty_left((b0 + (b1 + (b2 + post))));
        let s = pre + e + post;
        lemma_seq_assoc(pre, e, post);
        assert(s == pre + t0);
        let a0 = pre;
        assert(parse_i32(s, a0.len() as int) == Ok::<(i32, int), SerializationError>((m.throttle_time_ms, a0.len() as int + b0.len()))) by {
            lemma_seq_assoc(a0, b0, t1);
            lemma_i32_roundtrip(a0, m.throttle_time_ms, t1);
        }
        lemma_seq_assoc(a0, b0, t1);
        let a1 = a0 + b0;
        assert(parse_array::<DescribeConfigsResult>(s, a1.len() as int, Ctx { version: ctx.version, flexible: ctx.flexible, classic: false }) == Ok::<(Seq<<DescribeConfigsResult as DeepView>::V>, int), SerializationError>((m.results, a1.len() as int + b1.len()))) by {
            assert(array_bytes::<DescribeConfigsResult>(m.results, Ctx { version: ctx.version, flexible: ctx.flexible, classic: false }) is Ok);
            lemma_seq_assoc(a1, b1, t2);
            lemma_items_read_back::<DescribeConfigsResult>(m.results, Ctx { version: ctx.version, flexible: ctx.flexible, classic: false });
            lemma_array_roundtrip::<DescribeConfigsResult>(a1, m.results, t2, Ctx { version: ctx.version, flexible: ctx.flexible, classic: false });
        }
        lemma_seq_assoc(a1, b1, t2);
        let a2 = a1 + b1;
        if ctx.flexible {
            assert(parse_uvarint(s, a2.len() as int) == Ok::<(u64, int), SerializationError>((0u64, a2.len() as int + b2.len()))) by {
                lemma_seq_assoc(a2, b2, t3);
                lemma_uvarint_roundtrip(a2, 0, t3);
            }
        }
    }

    /// The bytes written: the encoding of each field, in the order of the
    /// protocol's layout. Reading them back, wherever they stand, gives the value,
    /// with each field that the version leaves out at its default.
    #[verifier::spinoff_prover]
    pub proof fn lemma_message_layout(pre: Seq<u8>, m: DescribeConfigsResponseModel, post: Seq<u8>, version: i16)
        requires
            Self::spec_serialize(m, version) is Ok,
        ensures
            Self::spec_serialize(m, version) == Ok::<Seq<u8>, SerializationError>((i32_bytes(m.throttle_time_ms)) + ((array_bytes::<DescribeConfigsResult>(m.results, Ctx { version: version, flexible: (version >= 4), classic: false }))->Ok_0) + (if (version >= 4) { uvarint_bytes(0) } else { Seq::<u8>::empty() })),
            Self::reads_back_message(m, version) ==> Self::spec_deserialize(pre + ((i32_bytes(m.throttle_time_ms)) + ((array_bytes::<DescribeConfigsResult>(m.results, Ctx { version: version, flexible: (version >= 4), classic: false }))->Ok_0) + (if (version >= 4) { uvarint_bytes(0) } else { Seq::<u8>::empty() })) + post, pre.len() as int, version) == Ok::<(DescribeConfigsResponseModel, int), SerializationError>((m, pre.len() as int + ((i32_bytes(m.throttle_time_ms)) + ((array_bytes::<DescribeConfigsResult>(m.results, Ctx { version: version, flexible: (version >= 4), classic: false }))->Ok_0) + (if (version >= 4) { uvarint_bytes(0) } else { Seq::<u8>::empty() })).len())),
    {
        let is_flexible = version >= 4;
        let ctx = Ctx { version, flexible: is_flexible, classic: false };
        let b0 = i32_bytes(m.throttle_time_ms);
        let b1 = (array_bytes::<DescribeConfigsResult>(m.results, Ctx { version: ctx.version, flexible: ctx.flexible, classic: false }))->Ok_0;
        let b2 = if ctx.flexible { uvarint_bytes(0) } else { Seq::<u8>::empty() };
        let e = Self::spec_serialize(m, version)->Ok_0;
        assert(e =~= Seq::<u8>::empty() + b0 + b1 + b2);
        assert(e =~= b0 + b1 + b2);
        if Self::reads_back_message(m, version) {
            Self::lemma_message_read_back(pre, m, post, version);
        }
    }

    /// Writing succeeds exactly when every field that the version carries can be
    /// encoded and every field that it leaves out, where leaving it out is an
    /// error, holds its default.
    #[verifier::spinoff_prover]
    pub proof fn lemma_message_write_succeeds(m: DescribeConfigsResponseModel, version: i16)
        ensures
            Self::spec_serialize(m, version) is Ok <==> (array_bytes::<DescribeConfigsResult>(m.results, Ctx { version: version, flexible: (version >= 4), classic: false }) is Ok),
    {
        let is_flexible = version >= 4;
        let ctx = Ctx { version, flexible: is_flexible, classic: false };
    }

    /// Writes the message body for `version`, which must be a supported version.
    /// On failure the buffer is left as it was.
    pub fn serialize(&self, version: ApiVersion, buf: &mut Vec<u8>) -> (r: Result<(), SerializationError>)
        requires
            1 <= version.0 <= 4,
        ensures
            write_exact(r, old(buf)@, final(buf)@, Self::spec_serialize(self.deep_view(), version.0)),
    {
        let start = buf.len();
        let r = self.write_body(version, buf);
        if r.is_err() {
            buf.truncate(start);
        }
        r
    }

    fn write_body(&self, version: ApiVersion, buf: &mut Vec<u8>) -> (r: Result<(), SerializationError>)
        requires
            1 <= version.0 <= 4,
        ensures
            write_ok(r, old(buf)@, final(buf)@, Self::spec_serialize(self.deep_view(), version.0)),
    {
        let is_flexible = version.0 >= Self::get_min_flexible_version().0;
        let ctx = Ctx::new(version, is_flexible);
        let ghost mut w: Seq<u8> = Seq::empty();
        put_i32(buf, self.throttle_time_ms);
        proof {
            w = w + i32_bytes(self.throttle_time_ms);
        }
        assert(buf@ =~= old(buf)@ + w);
        encode_array(&self.results, buf, Ctx { version: ctx.version, flexible: ctx.flexible, classic: false })?;
        proof {
            w = w + (array_bytes::<DescribeConfigsResult>(self.results.deep_view(), Ctx { version: ctx.version, flexible: ctx.flexible, classic: false }))->Ok_0;
        }
        assert(buf@ =~= old(buf)@ + w);
        if ctx.flexible {
            encode_unsigned_varint(0, buf);
            proof {
                w = w + uvarint_bytes(0);
            }
            assert(buf@ =~= old(buf)@ + w);
        }
        Ok(())
    }

    /// Reads a message body written for `version`.
    /// On failure the reader is put back where it started.
    pub fn deserialize(version: ApiVersion, buf: &mut Reader) -> (r: Result<Self, SerializationError>)
        ensures
            final(buf).bytes() == old(buf).bytes(),
            read_view_exact(r, Self::spec_deserialize(old(buf).bytes(), old(buf).pos(), version.0), old(buf).pos(), final(buf).pos()),
    {
        let start = buf.position();
        let r = Self::read_body(version, buf);
        if r.is_err() {
            buf.set_position(start);
        }
        r
    }

    fn read_body(version: ApiVersion, buf: &mut Reader) -> (r: Result<Self, SerializationError>)
        ensures
            final(buf).bytes() == old(buf).bytes(),
            read_view_ok(r, Self::spec_deserialize(old(buf).bytes(), old(buf).pos(), version.0), final(buf).pos()),
    {
        let is_flexible = version.0 >= Self::get_min_flexible_version().0;
        let ctx = Ctx::new(version, is_flexible);
        let throttle_time_ms = buf.get_i32()?;
        let results = decode_array::<DescribeConfigsResult>(buf, Ctx { version: ctx.version, flexible: ctx.flexible, classic: false })?;
        if ctx.flexible {
            let (_tag_count, _) = decode_unsigned_varint(buf)?;
        }
        Ok(DescribeConfigsResponse { throttle_time_ms, results })
    }
}

// -------------------------------------------------------
// DescribeConfigsResourceResult
// -------------------------------------------------------
#[derive(Clone, Debug, Default, PartialEq)]
pub struct DescribeConfigsResourceResult {
    /// The configuration name.
    pub name: String,
    /// The configuration value.
    pub value: Option<String>,
    /// True if the configuration is read-only.
    pub read_only: bool,
    /// The configuration source.
    /// Available in version 1+.
    pub config_source: i8,
    /// True if this configuration is sensitive.
    pub is_sensitive: bool,
    /// The synonyms for this configuration key.
    /// Available in version 1+.
    pub synonyms: Vec<DescribeConfigsSynonym>,
    /// The configuration data type. Type can be one of the following values - BOOLEAN, STRING, INT, SHORT, LONG, DOUBLE, LIST, CLASS, PASSWORD.
    /// Available in version 3+.
    pub config_type: i8,
    /// The configuration documentation.
    /// Available in version 3+.
    pub documentation: Option<String>,
}

/// The contents of `DescribeConfigsResourceResult`, with strings as characters and
/// nested values by their contents.
pub struct DescribeConfigsResourceResultModel {
    pub name: Seq<char>,
    pub value: Option<Seq<char>>,
    pub read_only: bool,
    pub config_source: i8,
    pub is_sensitive: bool,
    pub synonyms: Seq<<DescribeConfigsSynonym as DeepView>::V>,
    pub config_type: i8,
    pub documentation: Option<Seq<char>>,
}

impl DeepView for DescribeConfigsResourceResult {
    type V = DescribeConfigsResourceResultModel;

    open spec fn deep_view(&self) -> DescribeConfigsResourceResultModel {
        DescribeConfigsResourceResultModel {
            name: self.name.deep_view(),
            value: self.value.deep_view(),
            read_only: self.read_only,
            config_source: self.config_source,
            is_sensitive: self.is_sensitive,
            synonyms: self.synonyms.deep_view(),
            config_type: self.config_type,
            documentation: self.documentation.deep_view(),
        }
    }
}

impl DescribeConfigsResourceResult {
    /// Fields 1 to 5 of the encoding.
    pub open spec fn spec_encode_body_part1(m: DescribeConfigsResourceResultModel, ctx: Ctx) -> Result<Seq<u8>, SerializationError> {
        let r = Ok(Seq::<u8>::empty());
        let r = then(r, string_bytes(m.name, ctx.flexible));
        let r = then(r, nullable_string_bytes(m.value, ctx.flexible));
        let r = then(r, Ok(bool_bytes(m.read_only)));
        let r = if 1 <= ctx.version { then(r, Ok(i8_bytes(m.config_source))) } else { r };
        let r = then(r, Ok(bool_bytes(m.is_sensitive)));
        r
    }

    #[verifier::spinoff_prover]
    fn encode_body_part1(&self, buf: &mut Vec<u8>, ctx: Ctx) -> (r: Result<(), SerializationError>)
        ensures
            write_ok(r, old(buf)@, final(buf)@, Self::spec_encode_body_part1(self.deep_view(), ctx)),
    {
        let ghost mut w: Seq<u8> = Seq::empty();
        encode_string(&self.name, buf, ctx.flexible)?;
        proof {
            w = w + (string_bytes(self.name.deep_view(), ctx.flexible))->Ok_0;
        }
        assert(buf@ =~= old(buf)@ + w);
        encode_nullable_string(&self.value, buf, ctx.flexible)?;
        proof {
            w = w + (nullable_string_bytes(self.value.deep_view(), ctx.flexible))->Ok_0;
        }
        assert(buf@ =~= old(buf)@ + w);
        put_bool(buf, self.read_only);
        proof {
            w = w + bool_bytes(self.read_only);
        }
        assert(buf@ =~= old(buf)@ + w);
        if 1 <= ctx.version {
            put_i8(buf, self.config_source);
            proof {
                w = w + i8_bytes(self.config_source);
            }
            assert(buf@ =~= old(buf)@ + w);
        }
        put_bool(buf, self.is_sensitive);
        proof {
            w = w + bool_bytes(self.is_sensitive);
        }
        assert(buf@ =~= old(buf)@ + w);
        Ok(())
    }

    /// Fields 6 to 9 of the encoding.
    pub open spec fn spec_encode_body_part2(m: DescribeConfigsResourceResultModel, ctx: Ctx) -> Result<Seq<u8>, SerializationError> {
        let r = Ok(Seq::<u8>::empty());
        let r = if 1 <= ctx.version { then(r, array_bytes::<DescribeConfigsSynonym>(m.synonyms, Ctx { version: ctx.version, flexible: ctx.flexible, classic: false })) } else { r };
        let r = if 3 <= ctx.version { then(r, Ok(i8_bytes(m.config_type))) } else { r };
        let r = if 3 <= ctx.version { then(r, nullable_string_bytes(m.documentation, ctx.flexible)) } else { r };
        let r = if ctx.flexible { then(r, Ok(uvarint_bytes(0))) } else { r };
        r
    }

    #[verifier::spinoff_prover]
    fn encode_body_part2(&self, buf: &mut Vec<u8>, ctx: Ctx) -> (r: Result<(), SerializationError>)
        ensures
            write_ok(r, old(buf)@, final(buf)@, Self::spec_encode_body_part2(self.deep_view(), ctx)),
    {
        let ghost mut w: Seq<u8> = Seq::empty();
        if 1 <= ctx.version {
            encode_array(&self.synonyms, buf, Ctx { version: ctx.version, flexible: ctx.flexible, classic: false })?;
            proof {
                w = w + (array_bytes::<DescribeConfigsSynonym>(self.synonyms.deep_view(), Ctx { version: ctx.version, flexible: ctx.flexible, classic: false }))->Ok_0;
            }
            assert(buf@ =~= old(buf)@ + w);
        }
        if 3 <= ctx.version {
            put_i8(buf, self.config_type);
            proof {
                w = w + i8_bytes(self.config_type);
            }
            assert(buf@ =~= old(buf)@ + w);
        }
        if 3 <= ctx.version {
            encode_nullable_string(&self.documentation, buf, ctx.flexible)?;
            proof {
                w = w + (nullable_string_bytes(self.documentation.deep_view(), ctx.flexible))->Ok_0;
            }
            assert(buf@ =~= old(buf)@ + w);
        }
        if ctx.flexible {
            encode_unsigned_varint(0, buf);
            proof {
                w = w + uvarint_bytes(0);
            }
            assert(buf@ =~= old(buf)@ + w);
        }
        Ok(())
    }

    /// The encoding of the structure in context `ctx`.
    pub open spec fn spec_encode_body(m: DescribeConfigsResourceResultModel, ctx: Ctx) -> Result<Seq<u8>, SerializationError> {
        let r = Ok(Seq::<u8>::empty());
        let r = then(r, Self::spec_encode_body_part1(m, ctx));
        let r = then(r, Self::spec_encode_body_part2(m, ctx));
        r
    }

    /// The structure read from `s` at `pos` in context `ctx`.
    pub open spec fn spec_decode_body(s: Seq<u8>, pos: int, ctx: Ctx) -> Result<(DescribeConfigsResourceResultModel, int), SerializationError> {
        match parse_string(s, pos, ctx.flexible) {
            Err(e) => Err(e),
            Ok((name, pos)) =>
            match parse_nullable_string(s, pos, ctx.flexible) {
                Err(e) => Err(e),
                Ok((value, pos)) =>
                match parse_bool(s, pos) {
                    Err(e) => Err(e),
                    Ok((read_only, pos)) =>
                    match (if 1 <= ctx.version { parse_i8(s, pos) } else { Ok((0i8, pos)) }) {
                        Err(e) => Err(e),
                        Ok((config_source, pos)) =>
                        match parse_bool(s, pos) {
                            Err(e) => Err(e),
                            Ok((is_sensitive, pos)) =>
                            match (if 1 <= ctx.version { parse_array::<DescribeConfigsSynonym>(s, pos, Ctx { version: ctx.version, flexible: ctx.flexible, classic: false }) } else { Ok((Seq::<<DescribeConfigsSynonym as DeepView>::V>::empty(), pos)) }) {
                                Err(e) => Err(e),
                                Ok((synonyms, pos)) =>
                                match (if 3 <= ctx.version { parse_i8(s, pos) } else { Ok((0i8, pos)) }) {
                                    Err(e) => Err(e),
                                    Ok((config_type, pos)) =>
                                    match (if 3 <= ctx.version { parse_nullable_string(s, pos, ctx.flexible) } else { Ok((None, pos)) }) {
                                        Err(e) => Err(e),
                                        Ok((documentation, pos)) =>
                                        match (if ctx.flexible { parse_uvarint(s, pos) } else { Ok((0u64, pos)) }) {
                                            Err(e) => Err(e),
                                            Ok((_tag_count, pos)) =>
                                            Ok((DescribeConfigsResourceResultModel { name, value, read_only, config_source, is_sensitive, synonyms, config_type, documentation }, pos))
                                        }
                                    }
                                }
                            }
                        }
                    }
                }
            }
        }
    }

    /// The structure as it reads back in context `ctx`: each field that the
    /// version leaves out is at its default.
    #[verifier::opaque]
    pub open spec fn spec_read_as(m: DescribeConfigsResourceResultModel, ctx: Ctx) -> DescribeConfigsResourceResultModel {
        DescribeConfigsResourceResultModel { name: m.name, value: m.value, read_only: m.read_only, config_source: if 1 <= ctx.version { m.config_source } else { 0i8 }, is_sensitive: m.is_sensitive, synonyms: if 1 <= ctx.version { m.synonyms } else { Seq::<<DescribeConfigsSynonym as DeepView>::V>::empty() }, config_type: if 3 <= ctx.version { m.config_type } else { 0i8 }, documentation: if 3 <= ctx.version { m.documentation } else { None } }
    }

    /// Values that read back in context `ctx`: nested values read back. A field
    /// that the version leaves out is read as its default.
    pub open spec fn reads_back_body(m: DescribeConfigsResourceResultModel, ctx: Ctx) -> bool {
        &&& (1 <= ctx.version) ==> forall|i: int| 0 <= i < m.synonyms.len() ==> #[trigger] <DescribeConfigsSynonym as KafkaCodec>::reads_back(m.synonyms[i], Ctx { version: ctx.version, flexible: ctx.flexible, classic: false })
    }

    /// A value that can be written in context `ctx` and reads back: decoding its
    /// encoding, wherever it stands, gives the value as `spec_read_as` gives it and
    /// the position just after it.
    #[verifier::spinoff_prover]
    pub proof fn lemma_body_read_back(pre: Seq<u8>, m: DescribeConfigsResourceResultModel, post: Seq<u8>, ctx: Ctx)
        requires
            Self::spec_encode_body(m, ctx) is Ok,
            Self::reads_back_body(m, ctx),
        ensures
            Self::spec_decode_body(pre + Self::spec_encode_body(m, ctx)->Ok_0 + post, pre.len() as int, ctx) == Ok::<(DescribeConfigsResourceResultModel, int), SerializationError>((Self::spec_read_as(m, ctx), pre.len() as int + Self::spec_encode_body(m, ctx)->Ok_0.len())),
    {
        reveal(DescribeConfigsResourceResult::spec_read_as);
        let b0 = (string_bytes(m.name, ctx.flexible))->Ok_0;
        let b1 = (nullable_string_bytes(m.value, ctx.flexible))->Ok_0;
        let b2 = bool_bytes(m.read_only);
        let b3 = if 1 <= ctx.version { i8_bytes(m.config_source) } else { Seq::<u8>::empty() };
        let b4 = bool_bytes(m.is_sensitive);
        let b5 = if 1 <= ctx.version { (array_bytes::<DescribeConfigsSynonym>(m.synonyms, Ctx { version: ctx.version, flexible: ctx.flexible, classic: false }))->Ok_0 } else { Seq::<u8>::empty() };
        let b6 = if 3 <= ctx.version { i8_bytes(m.config_type) } else { Seq::<u8>::empty() };
        let b7 = if 3 <= ctx.version { (nullable_string_bytes(m.documentation, ctx.flexible))->Ok_0 } else { Seq::<u8>::empty() };
        let b8 = if ctx.flexible { uvarint_bytes(0) } else { Seq::<u8>::empty() };
        let t9 = post;
        let t8 = b8 + t9;
        let t7 = b7 + t8;
        let t6 = b6 + t7;
        let t5 = b5 + t6;
        let t4 = b4 + t5;
        let t3 = b3 + t4;
        let t2 = b2 + t3;
        let t1 = b1 + t2;
        let t0 = b0 + t1;
        let e = Self::spec_encode_body(m, ctx)->Ok_0;
        let p1 = Self::spec_encode_body_part1(m, ctx)->Ok_0;
        assert(p1 =~= Seq::<u8>::empty() + b0 + b1 + b2 + b3 + b4);
        lemma_seq_assoc(((((Seq::<u8>::empty() + b0) + b1) + b2) + b3), b4, t5);
        lemma_seq_assoc((((Seq::<u8>::empty() + b0) + b1) + b2), b3, (b4 + t5));
        lemma_seq_assoc(((Seq::<u8>::empty() + b0) + b1), b2, (b3 + (b4 + t5)));
        lemma_seq_assoc((Seq::<u8>::empty() + b0), b1, (b2 + (b3 + (b4 + t5))));
        lemma_seq_assoc(Seq::<u8>::empty(), b0, (b1 + (b2 + (b3 + (b4 + t5)))));
        lemma_seq_empty_left((b0 + (b1 + (b2 + (b3 + (b4 + t5))))));
        let p2 = Self::spec_encode_body_part2(m, ctx)->Ok_0;
        assert(p2 =~= Seq::<u8>::empty() + b5 + b6 + b7 + b8);
        lemma_seq_assoc((((Seq::<u8>::empty() + b5) + b6) + b7), b8, t9);
        lemma_seq_assoc(((Seq::<u8>::empty() + b5) + b6), b7, (b8 + t9));
        lemma_seq_assoc((Seq::<u8>::empty() + b5), b6, (b7 + (b8 + t9)));
        lemma_seq_assoc(Seq::<u8>::empty(), b5, (b6 + (b7 + (b8 + t9))));
        lemma_seq_empty_left((b5 + (b6 + (b7 + (b8 + t9)))));
        assert(e == Seq::<u8>::empty() + p1 + p2);
        lemma_seq_assoc((Seq::<u8>::empty() + p1), p2, t9);
        lemma_seq_assoc(Seq::<u8>::empty(), p1, (p2 + t9));
        lemma_seq_empty_left((p1 + (p2 + t9)));
        let s = pre + e + post;
        lemma_seq_assoc(pre, e, post);
        assert(s == pre + t0);
        let a0 = pre;
        assert(parse_string(s, a0.len() as int, ctx.flexible) == Ok::<(Seq<char>, int), SerializationError>((m.name, a0.len() as int + b0.len()))) by {
            assert(string_bytes(m.name, ctx.flexible) is Ok);
            lemma_seq_assoc(a0, b0, t1);
            lemma_string_roundtrip(a0, m.name, t1, ctx.flexible);
        }
        lemma_seq_assoc(a0, b0, t1);
        let a1 = a0 + b0;
        assert(parse_nullable_string(s, a1.len() as int, ctx.flexible) == Ok::<(Option<Seq<char>>, int), SerializationError>((m.value, a1.len() as int + b1.len()))) by {
            assert(nullable_string_bytes(m.value, ctx.flexible) is Ok);
            lemma_seq_assoc(a1, b1, t2);
            lemma_nullable_string_roundtrip(a1, m.value, t2, ctx.flexible);
        }
        lemma_seq_assoc(a1, b1, t2);
        let a2 = a1 + b1;
        assert(parse_bool(s, a2.len() as int) == Ok::<(bool, int), SerializationError>((m.read_only, a2.len() as int + b2.len()))) by {
            lemma_seq_assoc(a2, b2, t3);
            lemma_bool_roundtrip(a2, m.read_only, t3);
        }
        lemma_seq_assoc(a2, b2, t3);
        let a3 = a2 + b2;
        if 1 <= ctx.version {
            assert(parse_i8(s, a3.len() as int) == Ok::<(i8, int), SerializationError>((m.config_source, a3.len() as int + b3.len()))) by {
                lemma_seq_assoc(a3, b3, t4);
                lemma_i8_roundtrip(a3, m.config_source, t4);
            }
        }
        lemma_seq_assoc(a3, b3, t4);
        let a4 = a3 + b3;
        assert(parse_bool(s, a4.len() as int) == Ok::<(bool, int), SerializationError>((m.is_sensitive, a4.len() as int + b4.len()))) by {
            lemma_seq_assoc(a4, b4, t5);
            lemma_bool_roundtrip(a4, m.is_sensitive, t5);
        }
        lemma_seq_assoc(a4, b4, t5);
        let a5 = a4 + b4;
        if 1 <= ctx.version {
            assert(parse_array::<DescribeConfigsSynonym>(s, a5.len() as int, Ctx { version: ctx.version, flexible: ctx.flexible, classic: false }) == Ok::<(Seq<<DescribeConfigsSynonym as DeepView>::V>, int), SerializationError>((m.synonyms, a5.len() as int + b5.len()))) by {
                assert(array_bytes::<DescribeConfigsSynonym>(m.synonyms, Ctx { version: ctx.version, flexible: ctx.flexible, classic: false }) is Ok);
                lemma_seq_assoc(a5, b5, t6);
                lemma_items_read_back::<DescribeConfigsSynonym>(m.synonyms, Ctx { version: ctx.version, flexible: ctx.flexible, classic: false });
                lemma_array_roundtrip::<DescribeConfigsSynonym>(a5, m.synonyms, t6, Ctx { version: ctx.version, flexible: ctx.flexible, classic: false });
            }
        }
        lemma_seq_assoc(a5, b5, t6);
        let a6 = a5 + b5;
        if 3 <= ctx.version {
            assert(parse_i8(s, a6.len() as int) == Ok::<(i8, int), SerializationError>((m.config_type, a6.len() as int + b6.len()))) by {
                lemma_seq_assoc(a6, b6, t7);
                lemma_i8_roundtrip(a6, m.config_type, t7);
            }
        }
        lemma_seq_assoc(a6, b6, t7);
        let a7 = a6 + b6;
        if 3 <= ctx.version {
            assert(parse_nullable_string(s, a7.len() as int, ctx.flexible) == Ok::<(Option<Seq<char>>, int), SerializationError>((m.documentation, a7.len() as int + b7.len()))) by {
                assert(nullable_string_bytes(m.documentation, ctx.flexible) is Ok);
                lemma_seq_assoc(a7, b7, t8);
                lemma_nullable_string_roundtrip(a7, m.documentation, t8, ctx.flexible);
            }
        }
        lemma_seq_assoc(a7, b7, t8);
        let a8 = a7 + b7;
        if ctx.flexible {
            assert(parse_uvarint(s, a8.len() as int) == Ok::<(u64, int), SerializationError>((0u64, a8.len() as int + b8.len()))) by {
                lemma_seq_assoc(a8, b8, t9);
                lemma_uvarint_roundtrip(a8, 0, t9);
            }
        }
    }

    /// The bytes written: the encoding of each field, in the order of the
    /// protocol's layout. Reading them back, wherever they stand, gives the value,
    /// with each field that the version leaves out at its default.
    #[verifier::spinoff_prover]
    pub proof fn lemma_body_layout(pre: Seq<u8>, m: DescribeConfigsResourceResultModel, post: Seq<u8>, ctx: Ctx)
        requires
            Self::spec_encode_body(m, ctx) is Ok,
        ensures
            Self::spec_encode_body(m, ctx) == Ok::<Seq<u8>, SerializationError>(((string_bytes(m.name, ctx.flexible))->Ok_0) + ((nullable_string_bytes(m.value, ctx.flexible))->Ok_0) + (bool_bytes(m.read_only)) + (if 1 <= ctx.version { i8_bytes(m.config_source) } else { Seq::<u8>::empty() }) + (bool_bytes(m.is_sensitive)) + (if 1 <= ctx.version { (array_bytes::<DescribeConfigsSynonym>(m.synonyms, Ctx { version: ctx.version, flexible: ctx.flexible, classic: false }))->Ok_0 } else { Seq::<u8>::empty() }) + (if 3 <= ctx.version { i8_bytes(m.config_type) } else { Seq::<u8>::empty() }) + (if 3 <= ctx.version { (nullable_string_bytes(m.documentation, ctx.flexible))->Ok_0 } else { Seq::<u8>::empty() }) + (if ctx.flexible { uvarint_bytes(0) } else { Seq::<u8>::empty() })),
            Self::reads_back_body(m, ctx) ==> Self::spec_decode_body(pre + (((string_bytes(m.name, ctx.flexible))->Ok_0) + ((nullable_string_bytes(m.value, ctx.flexible))->Ok_0) + (bool_bytes(m.read_only)) + (if 1 <= ctx.version { i8_bytes(m.config_source) } else { Seq::<u8>::empty() }) + (bool_bytes(m.is_sensitive)) + (if 1 <= ctx.version { (array_bytes::<DescribeConfigsSynonym>(m.synonyms, Ctx { version: ctx.version, flexible: ctx.flexible, classic: false }))->Ok_0 } else { Seq::<u8>::empty() }) + (if 3 <= ctx.version { i8_bytes(m.config_type) } else { Seq::<u8>::empty() }) + (if 3 <= ctx.version { (nullable_string_bytes(m.documentation, ctx.flexible))->Ok_0 } else { Seq::<u8>::empty() }) + (if ctx.flexible { uvarint_bytes(0) } else { Seq::<u8>::empty() })) + post, pre.len() as int, ctx) == Ok::<(DescribeConfigsResourceResultModel, int), SerializationError>((DescribeConfigsResourceResultModel { name: m.name, value: m.value, read_only: m.read_only, config_source: if 1 <= ctx.version { m.config_source } else { 0i8 }, is_sensitive: m.is_sensitive, synonyms: if 1 <= ctx.version { m.synonyms } else { Seq::<<DescribeConfigsSynonym as DeepView>::V>::empty() }, config_type: if 3 <= ctx.version { m.config_type } else { 0i8 }, documentation: if 3 <= ctx.version { m.documentation } else { None } }, pre.len() as int + (((string_bytes(m.name, ctx.flexible))->Ok_0) + ((nullable_string_bytes(m.value, ctx.flexible))->Ok_0) + (bool_bytes(m.read_only)) + (if 1 <= ctx.version { i8_bytes(m.config_source) } else { Seq::<u8>::empty() }) + (bool_bytes(m.is_sensitive)) + (if 1 <= ctx.version { (array_bytes::<DescribeConfigsSynonym>(m.synonyms, Ctx { version: ctx.version, flexible: ctx.flexible, classic: false }))->Ok_0 } else { Seq::<u8>::empty() }) + (if 3 <= ctx.version { i8_bytes(m.config_type) } else { Seq::<u8>::empty() }) + (if 3 <= ctx.version { (nullable_string_bytes(m.documentation, ctx.flexible))->Ok_0 } else { Seq::<u8>::empty() }) + (if ctx.flexible { uvarint_bytes(0) } else { Seq::<u8>::empty() })).len())),
    {
        let b0 = (string_bytes(m.name, ctx.flexible))->Ok_0;
        let b1 = (nullable_string_bytes(m.value, ctx.flexible))->Ok_0;
        let b2 = bool_bytes(m.read_only);
        let b3 = if 1 <= ctx.version { i8_bytes(m.config_source) } else { Seq::<u8>::empty() };
        let b4 = bool_bytes(m.is_sensitive);
        let b5 = if 1 <= ctx.version { (array_bytes::<DescribeConfigsSynonym>(m.synonyms, Ctx { version: ctx.version, flexible: ctx.flexible, classic: false }))->Ok_0 } else { Seq::<u8>::empty() };
        let b6 = if 3 <= ctx.version { i8_bytes(m.config_type) } else { Seq::<u8>::empty() };
        let b7 = if 3 <= ctx.version { (nullable_string_bytes(m.documentation, ctx.flexible))->Ok_0 } else { Seq::<u8>::empty() };
        let b8 = if ctx.flexible { uvarint_bytes(0) } else { Seq::<u8>::empty() };
        let e = Self::spec_encode_body(m, ctx)->Ok_0;
        let p1 = Self::spec_encode_body_part1(m, ctx)->Ok_0;
        assert(p1 =~= Seq::<u8>::empty() + b0 + b1 + b2 + b3 + b4);
        let p2 = Self::spec_encode_body_part2(m, ctx)->Ok_0;
        assert(p2 =~= Seq::<u8>::empty() + b5 + b6 + b7 + b8);
        assert(e == Seq::<u8>::empty() + p1 + p2);
        assert(e =~= b0 + b1 + b2 + b3 + b4 + b5 + b6 + b7 + b8);
        if Self::reads_back_body(m, ctx) {
            Self::lemma_body_read_back(pre, m, post, ctx);
            reveal(DescribeConfigsResourceResult::spec_read_as);
        }
    }

    /// Writing succeeds exactly when every field that the version carries can be
    /// encoded and every field that it leaves out, where leaving it out is an
    /// error, holds its default.
    #[verifier::spinoff_prover]
    pub proof fn lemma_body_write_succeeds(m: DescribeConfigsResourceResultModel, ctx: Ctx)
        ensures
            Self::spec_encode_body(m, ctx) is Ok <==> (string_bytes(m.name, ctx.flexible) is Ok) && (nullable_string_bytes(m.value, ctx.flexible) is Ok) && ((1 <= ctx.version) ==> array_bytes::<DescribeConfigsSynonym>(m.synonyms, Ctx { version: ctx.version, flexible: ctx.flexible, classic: false }) is Ok) && ((3 <= ctx.version) ==> nullable_string_bytes(m.documentation, ctx.flexible) is Ok),
    {
    }

    /// Writes the structure for `version`, with the compact encodings when `is_flexible`.
    /// On failure the buffer is left as it was.
    pub fn encode(&self, buf: &mut Vec<u8>, version: ApiVersion, is_flexible: bool) -> (r: Result<(), SerializationError>)
        ensures
            write_exact(r, old(buf)@, final(buf)@, Self::spec_encode_body(self.deep_view(), Ctx { version: version.0, flexible: is_flexible, classic: false })),
    {
        let start = buf.len();
        let r = self.encode_ctx(buf, Ctx::new(version, is_flexible));
        if r.is_err() {
            buf.truncate(start);
        }
        r
    }

    /// Reads the structure as written for `version`.
    /// On failure the reader is put back where it started.
    #[verifier::spinoff_prover]
    pub fn decode(buf: &mut Reader, version: ApiVersion, is_flexible: bool) -> (r: Result<Self, SerializationError>)
        ensures
            final(buf).bytes() == old(buf).bytes(),
            read_view_exact(r, Self::spec_decode_body(old(buf).bytes(), old(buf).pos(), Ctx { version: version.0, flexible: is_flexible, classic: false }), old(buf).pos(), final(buf).pos()),
    {
        let start = buf.position();
        let r = Self::decode_ctx(buf, Ctx::new(version, is_flexible));
        if r.is_err() {
            buf.set_position(start);
        }
        r
    }
}

impl KafkaCodec for DescribeConfigsResourceResult {
    open spec fn spec_encode(m: DescribeConfigsResourceResultModel, ctx: Ctx) -> Result<Seq<u8>, SerializationError> {
        Self::spec_encode_body(m, ctx)
    }

    open spec fn spec_decode(s: Seq<u8>, pos: int, ctx: Ctx) -> Result<(DescribeConfigsResourceResultModel, int), SerializationError> {
        Self::spec_decode_body(s, pos, ctx)
    }

    open spec fn reads_back(v: DescribeConfigsResourceResultModel, ctx: Ctx) -> bool {
        Self::reads_back_body(v, ctx) && Self::spec_read_as(v, ctx) == v
    }

    proof fn lemma_read_back(pre: Seq<u8>, v: DescribeConfigsResourceResultModel, post: Seq<u8>, ctx: Ctx) {
        Self::lemma_body_read_back(pre, v, post, ctx);
        assert(Self::spec_decode(pre + Self::spec_encode(v, ctx)->Ok_0 + post, pre.len() as int, ctx)
            == Self::spec_decode_body(pre + Self::spec_encode_body(v, ctx)->Ok_0 + post, pre.len() as int, ctx));
    }

    #[verifier::spinoff_prover]
    fn encode_ctx(&self, buf: &mut Vec<u8>, ctx: Ctx) -> (r: Result<(), SerializationError>) {
        let ghost mut w: Seq<u8> = Seq::empty();
        self.encode_body_part1(buf, ctx)?;
        proof {
            w = w + (Self::spec_encode_body_part1(self.deep_view(), ctx))->Ok_0;
        }
        assert(buf@ =~= old(buf)@ + w);
        self.encode_body_part2(buf, ctx)?;
        proof {
            w = w + (Self::spec_encode_body_part2(self.deep_view(), ctx))->Ok_0;
        }
        assert(buf@ =~= old(buf)@ + w);
        Ok(())
    }

    #[verifier::spinoff_prover]
    fn decode_ctx(buf: &mut Reader, ctx: Ctx) -> (r: Result<Self, SerializationError>) {
        let name = buf.get_string(ctx.flexible)?;
        let value = buf.get_nullable_string(ctx.flexible)?;
        let read_only = buf.get_bool()?;
        let config_source = if 1 <= ctx.version {
            buf.get_i8()?
        } else {
            0i8
        };
        let is_sensitive = buf.get_bool()?;
        let synonyms = if 1 <= ctx.version {
            decode_array::<DescribeConfigsSynonym>(buf, Ctx { version: ctx.version, flexible: ctx.flexible, classic: false })?
        } else {
            new_array::<DescribeConfigsSynonym>()
        };
        let config_type = if 3 <= ctx.version {
            buf.get_i8()?
        } else {
            0i8
        };
        let documentation = if 3 <= ctx.version {
            buf.get_nullable_string(ctx.flexible)?
        } else {
            None
        };
        if ctx.flexible {
            let (_tag_count, _) = decode_unsigned_varint(buf)?;
        }
        Ok(DescribeConfigsResourceResult { name, value, read_only, config_source, is_sensitive, synonyms, config_type, documentation })
    }
}

// -------------------------------------------------------
// DescribeConfigsResult
// -------------------------------------------------------
#[derive(Clone, Debug, Default, PartialEq)]
pub struct DescribeConfigsResult {
    /// The error code, or 0 if we were able to successfully describe the configurations.
    pub error_code: i16,
    /// The error message, or null if we were able to successfully describe the configurations.
    pub error_message: Option<String>,
    /// The resource type.
    pub resource_type: i8,
    /// The resource name.
    pub resource_name: String,
    /// Each listed configuration.
    pub configs: Vec<DescribeConfigsResourceResult>,
}

/// The contents of `DescribeConfigsResult`, with strings as characters and
/// nested values by their contents.
pub struct DescribeConfigsResultModel {
    pub error_code: i16,
    pub error_message: Option<Seq<char>>,
    pub resource_type: i8,
    pub resource_name: Seq<char>,
    pub configs: Seq<<DescribeConfigsResourceResult as DeepView>::V>,
}

impl DeepView for DescribeConfigsResult {
    type V = DescribeConfigsResultModel;

    open spec fn deep_view(&self) -> DescribeConfigsResultModel {
        DescribeConfigsResultModel {
            error_code: self.error_code,
            error_message: self.error_message.deep_view(),
            resource_type: self.resource_type,
            resource_name: self.resource_name.deep_view(),
            configs: self.configs.deep_view(),
        }
    }
}

impl DescribeConfigsResult {
    /// The encoding of the structure in context `ctx`.
    pub open spec fn spec_encode_body(m: DescribeConfigsResultModel, ctx: Ctx) -> Result<Seq<u8>, SerializationError> {
        let r = Ok(Seq::<u8>::empty());
        let r = then(r, Ok(i16_bytes(m.error_code)));
        let r = then(r, nullable_string_bytes(m.error_message, ctx.flexible));
        let r = then(r, Ok(i8_bytes(m.resource_type)));
        let r = then(r, string_bytes(m.resource_name, ctx.flexible));
        let r = then(r, array_bytes::<DescribeConfigsResourceResult>(m.configs, Ctx { version: ctx.version, flexible: ctx.flexible, classic: false }));
        let r = if ctx.flexible { then(r, Ok(uvarint_bytes(0))) } else { r };
        r
    }

    /// The structure read from `s` at `pos` in context `ctx`.
    pub open spec fn spec_decode_body(s: Seq<u8>, pos: int, ctx: Ctx) -> Result<(DescribeConfigsResultModel, int), SerializationError> {
        match parse_i16(s, pos) {
            Err(e) => Err(e),
            Ok((error_code, pos)) =>
            match parse_nullable_string(s, pos, ctx.flexible) {
                Err(e) => Err(e),
                Ok((error_message, pos)) =>
                match parse_i8(s, pos) {
                    Err(e) => Err(e),
                    Ok((resource_type, pos)) =>
                    match parse_string(s, pos, ctx.flexible) {
                        Err(e) => Err(e),
                        Ok((resource_name, pos)) =>
                        match parse_array::<DescribeConfigsResourceResult>(s, pos, Ctx { version: ctx.version, flexible: ctx.flexible, classic: false }) {
                            Err(e) => Err(e),
                            Ok((configs, pos)) =>
                            match (if ctx.flexible { parse_uvarint(s, pos) } else { Ok((0u64, pos)) }) {
                                Err(e) => Err(e),
                                Ok((_tag_count, pos)) =>
                                Ok((DescribeConfigsResultModel { error_code, error_message, resource_type, resource_name, configs }, pos))
                            }
                        }
                    }
                }
            }
        }
    }

    /// Values of the structure that read back from their encoding in `ctx`: every
    /// field that the version leaves out holds its default, and nested values
    /// read back.
    pub open spec fn reads_back_body(m: DescribeConfigsResultModel, ctx: Ctx) -> bool {
        &&& forall|i: int| 0 <= i < m.configs.len() ==> #[trigger] <DescribeConfigsResourceResult as KafkaCodec>::reads_back(m.configs[i], Ctx { version: ctx.version, flexible: ctx.flexible, classic: false })
    }

    /// A value that can be written in `ctx` and reads back: decoding its encoding,
    /// wherever it stands, gives the value and the position just after it.
    #[verifier::spinoff_prover]
    pub proof fn lemma_body_read_back(pre: Seq<u8>, m: DescribeConfigsResultModel, post: Seq<u8>, ctx: Ctx)
        requires
            Self::spec_encode_body(m, ctx) is Ok,
            Self::reads_back_body(m, ctx),
        ensures
            Self::spec_decode_body(pre + Self::spec_encode_body(m, ctx)->Ok_0 + post, pre.len() as int, ctx) == Ok::<(DescribeConfigsResultModel, int), SerializationError>((m, pre.len() as int + Self::spec_encode_body(m, ctx)->Ok_0.len())),
    {
        let b0 = i16_bytes(m.error_code);
        let b1 = (nullable_string_bytes(m.error_message, ctx.flexible))->Ok_0;
        let b2 = i8_bytes(m.resource_type);
        let b3 = (string_bytes(m.resource_name, ctx.flexible))->Ok_0;
        let b4 = (array_bytes::<DescribeConfigsResourceResult>(m.configs, Ctx { version: ctx.version, flexible: ctx.flexible, classic: false }))->Ok_0;
        let b5 = if ctx.flexible { uvarint_bytes(0) } else { Seq::<u8>::empty() };
        let t6 = post;
        let t5 = b5 + t6;
        let t4 = b4 + t5;
        let t3 = b3 + t4;
        let t2 = b2 + t3;
        let t1 = b1 + t2;
        let t0 = b0 + t1;
        let e = Self::spec_encode_body(m, ctx)->Ok_0;
        assert(e =~= Seq::<u8>::empty() + b0 + b1 + b2 + b3 + b4 + b5);
        lemma_seq_assoc((((((Seq::<u8>::empty() + b0) + b1) + b2) + b3) + b4), b5, post);
        lemma_seq_assoc(((((Seq::<u8>::empty() + b0) + b1) + b2) + b3), b4, (b5 + post));
        lemma_seq_assoc((((Seq::<u8>::empty() + b0) + b1) + b2), b3, (b4 + (b5 + post)));
        lemma_seq_assoc(((Seq::<u8>::empty() + b0) + b1), b2, (b3 + (b4 + (b5 + post))));
        lemma_seq_assoc((Seq::<u8>::empty() + b0), b1, (b2 + (b3 + (b4 + (b5 + post)))));
        lemma_seq_assoc(Seq::<u8>::empty(), b0, (b1 + (b2 + (b3 + (b4 + (b5 + post))))));
        lemma_seq_empty_left((b0 + (b1 + (b2 + (b3 + (b4 + (b5 + post)))))));
        let s = pre + e + post;
        lemma_seq_assoc(pre, e, post);
        assert(s == pre + t0);
        let a0 = pre;
        assert(parse_i16(s, a0.len() as int) == Ok::<(i16, int), SerializationError>((m.error_code, a0.len() as int + b0.len()))) by {
            lemma_seq_assoc(a0, b0, t1);
            lemma_i16_roundtrip(a0, m.error_code, t1);
        }
        lemma_seq_assoc(a0, b0, t1);
        let a1 = a0 + b0;
        assert(parse_nullable_string(s, a1.len() as int, ctx.flexible) == Ok::<(Option<Seq<char>>, int), SerializationError>((m.error_message, a1.len() as int + b1.len()))) by {
            assert(nullable_string_bytes(m.error_message, ctx.flexible) is Ok);
            lemma_seq_assoc(a1, b1, t2);
            lemma_nullable_string_roundtrip(a1, m.error_message, t2, ctx.flexible);
        }
        lemma_seq_assoc(a1, b1, t2);
        let a2 = a1 + b1;
        assert(parse_i8(s, a2.len() as int) == Ok::<(i8, int), SerializationError>((m.resource_type, a2.len() as int + b2.len()))) by {
            lemma_seq_assoc(a2, b2, t3);
            lemma_i8_roundtrip(a2, m.resource_type, t3);
        }
        lemma_seq_assoc(a2, b2, t3);
        let a3 = a2 + b2;
        assert(parse_string(s, a3.len() as int, ctx.flexible) == Ok::<(Seq<char>, int), SerializationError>((m.resource_name, a3.len() as int + b3.len()))) by {
            assert(string_bytes(m.resource_name, ctx.flexible) is Ok);
            lemma_seq_assoc(a3, b3, t4);
            lemma_string_roundtrip(a3, m.resource_name, t4, ctx.flexible);
        }
        lemma_seq_assoc(a3, b3, t4);
        let a4 = a3 + b3;
        assert(parse_array::<DescribeConfigsResourceResult>(s, a4.len() as int, Ctx { version: ctx.version, flexible: ctx.flexible, classic: false }) == Ok::<(Seq<<DescribeConfigsResourceResult as DeepView>::V>, int), SerializationError>((m.configs, a4.len() as int + b4.len()))) by {
            assert(array_bytes::<DescribeConfigsResourceResult>(m.configs, Ctx { version: ctx.version, flexible: ctx.flexible, classic: false }) is Ok);
            lemma_seq_assoc(a4, b4, t5);
            lemma_items_read_back::<DescribeConfigsResourceResult>(m.configs, Ctx { version: ctx.version, flexible: ctx.flexible, classic: false });
            lemma_array_roundtrip::<DescribeConfigsResourceResult>(a4, m.configs, t5, Ctx { version: ctx.version, flexible: ctx.flexible, classic: false });
        }
        lemma_seq_assoc(a4, b4, t5);
        let a5 = a4 + b4;
        if ctx.flexible {
            assert(parse_uvarint(s, a5.len() as int) == Ok::<(u64, int), SerializationError>((0u64, a5.len() as int + b5.len()))) by {
                lemma_seq_assoc(a5, b5, t6);
                lemma_uvarint_roundtrip(a5, 0, t6);
            }
        }
    }

    /// The bytes written: the encoding of each field, in the order of the
    /// protocol's layout. Reading them back, wherever they stand, gives the value,
    /// with each field that the version leaves out at its default.
    #[verifier::spinoff_prover]
    pub proof fn lemma_body_layout(pre: Seq<u8>, m: DescribeConfigsResultModel, post: Seq<u8>, ctx: Ctx)
        requires
            Self::spec_encode_body(m, ctx) is Ok,
        ensures
            Self::spec_encode_body(m, ctx) == Ok::<Seq<u8>, SerializationError>((i16_bytes(m.error_code)) + ((nullable_string_bytes(m.error_message, ctx.flexible))->Ok_0) + (i8_bytes(m.resource_type)) + ((string_bytes(m.resource_name, ctx.flexible))->Ok_0) + ((array_bytes::<DescribeConfigsResourceResult>(m.configs, Ctx { version: ctx.version, flexible: ctx.flexible, classic: false }))->Ok_0) + (if ctx.flexible { uvarint_bytes(0) } else { Seq::<u8>::empty() })),
            Self::reads_back_body(m, ctx) ==> Self::spec_decode_body(pre + ((i16_bytes(m.error_code)) + ((nullable_string_bytes(m.error_message, ctx.flexible))->Ok_0) + (i8_bytes(m.resource_type)) + ((string_bytes(m.resource_name, ctx.flexible))->Ok_0) + ((array_bytes::<DescribeConfigsResourceResult>(m.configs, Ctx { version: ctx.version, flexible: ctx.flexible, classic: false }))->Ok_0) + (if ctx.flexible { uvarint_bytes(0) } else { Seq::<u8>::empty() })) + post, pre.len() as int, ctx) == Ok::<(DescribeConfigsResultModel, int), SerializationError>((m, pre.len() as int + ((i16_bytes(m.error_code)) + ((nullable_string_bytes(m.error_message, ctx.flexible))->Ok_0) + (i8_bytes(m.resource_type)) + ((string_bytes(m.resource_name, ctx.flexible))->Ok_0) + ((array_bytes::<DescribeConfigsResourceResult>(m.configs, Ctx { version: ctx.version, flexible: ctx.flexible, classic: false }))->Ok_0) + (if ctx.flexible { uvarint_bytes(0) } else { Seq::<u8>::empty() })).len())),
    {
        let b0 = i16_bytes(m.error_code);
        let b1 = (nullable_string_bytes(m.error_message, ctx.flexible))->Ok_0;
        let b2 = i8_bytes(m.resource_type);
        let b3 = (string_bytes(m.resource_name, ctx.flexible))->Ok_0;
        let b4 = (array_bytes::<DescribeConfigsResourceResult>(m.configs, Ctx { version: ctx.version, flexible: ctx.flexible, classic: false }))->Ok_0;
        let b5 = if ctx.flexible { uvarint_bytes(0) } else { Seq::<u8>::empty() };
        let e = Self::spec_encode_body(m, ctx)->Ok_0;
        assert(e =~= Seq::<u8>::empty() + b0 + b1 + b2 + b3 + b4 + b5);
        assert(e =~= b0 + b1 + b2 + b3 + b4 + b5);
        if Self::reads_back_body(m, ctx) {
            Self::lemma_body_read_back(pre, m, post, ctx);
        }
    }

    /// Writing succeeds exactly when every field that the version carries can be
    /// encoded and every field that it leaves out, where leaving it out is an
    /// error, holds its default.
    #[verifier::spinoff_prover]
    pub proof fn lemma_body_write_succeeds(m: DescribeConfigsResultModel, ctx: Ctx)
        ensures
            Self::spec_encode_body(m, ctx) is Ok <==> (nullable_string_bytes(m.error_message, ctx.flexible) is Ok) && (string_bytes(m.resource_name, ctx.flexible) is Ok) && (array_bytes::<DescribeConfigsResourceResult>(m.configs, Ctx { version: ctx.version, flexible: ctx.flexible, classic: false }) is Ok),
    {
    }

    /// Writes the structure for `version`, with the compact encodings when `is_flexible`.
    /// On failure the buffer is left as it was.
    pub fn encode(&self, buf: &mut Vec<u8>, version: ApiVersion, is_flexible: bool) -> (r: Result<(), SerializationError>)
        ensures
            write_exact(r, old(buf)@, final(buf)@, Self::spec_encode_body(self.deep_view(), Ctx { version: version.0, flexible: is_flexible, classic: false })),
    {
        let start = buf.len();
        let r = self.encode_ctx(buf, Ctx::new(version, is_flexible));
        if r.is_err() {
            buf.truncate(start);
        }
        r
    }

    /// Reads the structure as written for `version`.
    /// On failure the reader is put back where it started.
    pub fn decode(buf: &mut Reader, version: ApiVersion, is_flexible: bool) -> (r: Result<Self, SerializationError>)
        ensures
            final(buf).bytes() == old(buf).bytes(),
            read_view_exact(r, Self::spec_decode_body(old(buf).bytes(), old(buf).pos(), Ctx { version: version.0, flexible: is_flexible, classic: false }), old(buf).pos(), final(buf).pos()),
    {
        let start = buf.position();
        let r = Self::decode_ctx(buf, Ctx::new(version, is_flexible));
        if r.is_err() {
            buf.set_position(start);
        }
        r
    }
}

impl KafkaCodec for DescribeConfigsResult {
    open spec fn spec_encode(m: DescribeConfigsResultModel, ctx: Ctx) -> Result<Seq<u8>, SerializationError> {
        Self::spec_encode_body(m, ctx)
    }

    open spec fn spec_decode(s: Seq<u8>, pos: int, ctx: Ctx) -> Result<(DescribeConfigsResultModel, int), SerializationError> {
        Self::spec_decode_body(s, pos, ctx)
    }

    open spec fn reads_back(v: DescribeConfigsResultModel, ctx: Ctx) -> bool {
        Self::reads_back_body(v, ctx)
    }

    proof fn lemma_read_back(pre: Seq<u8>, v: DescribeConfigsResultModel, post: Seq<u8>, ctx: Ctx) {
        Self::lemma_body_read_back(pre, v, post, ctx);
        assert(Self::spec_decode(pre + Self::spec_encode(v, ctx)->Ok_0 + post, pre.len() as int, ctx)
            == Self::spec_decode_body(pre + Self::spec_encode_body(v, ctx)->Ok_0 + post, pre.len() as int, ctx));
    }

    fn encode_ctx(&self, buf: &mut Vec<u8>, ctx: Ctx) -> (r: Result<(), SerializationError>) {
        let ghost mut w: Seq<u8> = Seq::empty();
        put_i16(buf, self.error_code);
        proof {
            w = w + i16_bytes(self.error_code);
        }
        assert(buf@ =~= old(buf)@ + w);
        encode_nullable_string(&self.error_message, buf, ctx.flexible)?;
        proof {
            w = w + (nullable_string_bytes(self.error_message.deep_view(), ctx.flexible))->Ok_0;
        }
        assert(buf@ =~= old(buf)@ + w);
        put_i8(buf, self.resource_type);
        proof {
            w = w + i8_bytes(self.resource_type);
        }
        assert(buf@ =~= old(buf)@ + w);
        encode_string(&self.resource_name, buf, ctx.flexible)?;
        proof {
            w = w + (string_bytes(self.resource_name.deep_view(), ctx.flexible))->Ok_0;
        }
        assert(buf@ =~= old(buf)@ + w);
        encode_array(&self.configs, buf, Ctx { version: ctx.version, flexible: ctx.flexible, classic: false })?;
        proof {
            w = w + (array_bytes::<DescribeConfigsResourceResult>(self.configs.deep_view(), Ctx { version: ctx.version, flexible: ctx.flexible, classic: false }))->Ok_0;
        }
        assert(buf@ =~= old(buf)@ + w);
        if ctx.flexible {
            encode_unsigned_varint(0, buf);
            proof {
                w = w + uvarint_bytes(0);
            }
            assert(buf@ =~= old(buf)@ + w);
        }
        Ok(())
    }

    fn decode_ctx(buf: &mut Reader, ctx: Ctx) -> (r: Result<Self, SerializationError>) {
        let error_code = buf.get_i16()?;
        let error_message = buf.get_nullable_string(ctx.flexible)?;
        let resource_type = buf.get_i8()?;
        let resource_name = buf.get_string(ctx.flexible)?;
        let configs = decode_array::<DescribeConfigsResourceResult>(buf, Ctx { version: ctx.version, flexible: ctx.flexible, classic: false })?;
        if ctx.flexible {
            let (_tag_count, _) = decode_unsigned_varint(buf)?;
        }
        Ok(DescribeConfigsResult { error_code, error_message, resource_type, resource_name, configs })
    }
}

// -------------------------------------------------------
// DescribeConfigsSynonym
// -------------------------------------------------------
#[derive(Clone, Debug, Default, PartialEq)]
pub struct DescribeConfigsSynonym {
    /// The synonym name.
    /// Available in version 1+.
    pub name: String,
    /// The synonym value.
    /// Available in version 1+.
    pub value: Option<String>,
    /// The synonym source.
    /// Available in version 1+.
    pub source: i8,
}

/// The contents of `DescribeConfigsSynonym`, with strings as characters and
/// nested values by their contents.
pub struct DescribeConfigsSynonymModel {
    pub name: Seq<char>,
    pub value: Option<Seq<char>>,
    pub source: i8,
}

impl DeepView for DescribeConfigsSynonym {
    type V = DescribeConfigsSynonymModel;

    open spec fn deep_view(&self) -> DescribeConfigsSynonymModel {
        DescribeConfigsSynonymModel {
            name: self.name.deep_view(),
            value: self.value.deep_view(),
            source: self.source,
        }
    }
}

impl DescribeConfigsSynonym {
    /// The encoding of the structure in context `ctx`.
    pub open spec fn spec_encode_body(m: DescribeConfigsSynonymModel, ctx: Ctx) -> Result<Seq<u8>, SerializationError> {
        let r = Ok(Seq::<u8>::empty());
        let r = if 1 <= ctx.version { then(r, string_bytes(m.name, ctx.flexible)) } else { r };
        let r = if 1 <= ctx.version { then(r, nullable_string_bytes(m.value, ctx.flexible)) } else { r };
        let r = if 1 <= ctx.version { then(r, Ok(i8_bytes(m.source))) } else { r };
        let r = if ctx.flexible { then(r, Ok(uvarint_bytes(0))) } else { r };
        r
    }

    /// The structure read from `s` at `pos` in context `ctx`.
    pub open spec fn spec_decode_body(s: Seq<u8>, pos: int, ctx: Ctx) -> Result<(DescribeConfigsSynonymModel, int), SerializationError> {
        match (if 1 <= ctx.version { parse_string(s, pos, ctx.flexible) } else { Ok((Seq::<char>::empty(), pos)) }) {
            Err(e) => Err(e),
            Ok((name, pos)) =>
            match (if 1 <= ctx.version { parse_nullable_string(s, pos, ctx.flexible) } else { Ok((None, pos)) }) {
                Err(e) => Err(e),
                Ok((value, pos)) =>
                match (if 1 <= ctx.version { parse_i8(s, pos) } else { Ok((0i8, pos)) }) {
                    Err(e) => Err(e),
                    Ok((source, pos)) =>
                    match (if ctx.flexible { parse_uvarint(s, pos) } else { Ok((0u64, pos)) }) {
                        Err(e) => Err(e),
                        Ok((_tag_count, pos)) =>
                        Ok((DescribeConfigsSynonymModel { name, value, source }, pos))
                    }
                }
            }
        }
    }

    /// The structure as it reads back in context `ctx`: each field that the
    /// version leaves out is at its default.
    #[verifier::opaque]
    pub open spec fn spec_read_as(m: DescribeConfigsSynonymModel, ctx: Ctx) -> DescribeConfigsSynonymModel {
        DescribeConfigsSynonymModel { name: if 1 <= ctx.version { m.name } else { Seq::<char>::empty() }, value: if 1 <= ctx.version { m.value } else { None }, source: if 1 <= ctx.version { m.source } else { 0i8 } }
    }

    /// Values that read back in context `ctx`: nested values read back. A field
    /// that the version leaves out is read as its default.
    pub open spec fn reads_back_body(m: DescribeConfigsSynonymModel, ctx: Ctx) -> bool {
        true
    }

    /// A value that can be written in context `ctx` and reads back: decoding its
    /// encoding, wherever it stands, gives the value as `spec_read_as` gives it and
    /// the position just after it.
    #[verifier::spinoff_prover]
    pub proof fn lemma_body_read_back(pre: Seq<u8>, m: DescribeConfigsSynonymModel, post: Seq<u8>, ctx: Ctx)
        requires
            Self::spec_encode_body(m, ctx) is Ok,
            Self::reads_back_body(m, ctx),
        ensures
            Self::spec_decode_body(pre + Self::spec_encode_body(m, ctx)->Ok_0 + post, pre.len() as int, ctx) == Ok::<(DescribeConfigsSynonymModel, int), SerializationError>((Self::spec_read_as(m, ctx), pre.len() as int + Self::spec_encode_body(m, ctx)->Ok_0.len())),
    {
        reveal(DescribeConfigsSynonym::spec_read_as);
        let b0 = if 1 <= ctx.version { (string_bytes(m.name, ctx.flexible))->Ok_0 } else { Seq::<u8>::empty() };
        let b1 = if 1 <= ctx.version { (nullable_string_bytes(m.value, ctx.flexible))->Ok_0 } else { Seq::<u8>::empty() };
        let b2 = if 1 <= ctx.version { i8_bytes(m.source) } else { Seq::<u8>::empty() };
        let b3 = if ctx.flexible { uvarint_bytes(0) } else { Seq::<u8>::empty() };
        let t4 = post;
        let t3 = b3 + t4;
        let t2 = b2 + t3;
        let t1 = b1 + t2;
        let t0 = b0 + t1;
        let e = Self::spec_encode_body(m, ctx)->Ok_0;
        assert(e =~= Seq::<u8>::empty() + b0 + b1 + b2 + b3);
        lemma_seq_assoc((((Seq::<u8>::empty() + b0) + b1) + b2), b3, post);
        lemma_seq_assoc(((Seq::<u8>::empty() + b0) + b1), b2, (b3 + post));
        lemma_seq_assoc((Seq::<u8>::empty() + b0), b1, (b2 + (b3 + post)));
        lemma_seq_assoc(Seq::<u8>::empty(), b0, (b1 + (b2 + (b3 + post))));
        lemma_seq_empty_left((b0 + (b1 + (b2 + (b3 + post)))));
        let s = pre + e + post;
        lemma_seq_assoc(pre, e, post);
        assert(s == pre + t0);
        let a0 = pre;
        if 1 <= ctx.version {
            assert(parse_string(s, a0.len() as int, ctx.flexible) == Ok::<(Seq<char>, int), SerializationError>((m.name, a0.len() as int + b0.len()))) by {
                assert(string_bytes(m.name, ctx.flexible) is Ok);
                lemma_seq_assoc(a0, b0, t1);
                lemma_string_roundtrip(a0, m.name, t1, ctx.flexible);
            }
        }
        lemma_seq_assoc(a0, b0, t1);
        let a1 = a0 + b0;
        if 1 <= ctx.version {
            assert(parse_nullable_string(s, a1.len() as int, ctx.flexible) == Ok::<(Option<Seq<char>>, int), SerializationError>((m.value, a1.len() as int + b1.len()))) by {
                assert(nullable_string_bytes(m.value, ctx.flexible) is Ok);
                lemma_seq_assoc(a1, b1, t2);
                lemma_nullable_string_roundtrip(a1, m.value, t2, ctx.flexible);
            }
        }
        lemma_seq_assoc(a1, b1, t2);
        let a2 = a1 + b1;
        if 1 <= ctx.version {
            assert(parse_i8(s, a2.len() as int) == Ok::<(i8, int), SerializationError>((m.source, a2.len() as int + b2.len()))) by {
                lemma_seq_assoc(a2, b2, t3);
                lemma_i8_roundtrip(a2, m.source, t3);
            }
        }
        lemma_seq_assoc(a2, b2, t3);
        let a3 = a2 + b2;
        if ctx.flexible {
            assert(parse_uvarint(s, a3.len() as int) == Ok::<(u64, int), SerializationError>((0u64, a3.len() as int + b3.len()))) by {
                lemma_seq_assoc(a3, b3, t4);
                lemma_uvarint_roundtrip(a3, 0, t4);
            }
        }
    }

    /// The bytes written: the encoding of each field, in the order of the
    /// protocol's layout. Reading them back, wherever they stand, gives the value,
    /// with each field that the version leaves out at its default.
    #[verifier::spinoff_prover]
    pub proof fn lemma_body_layout(pre: Seq<u8>, m: DescribeConfigsSynonymModel, post: Seq<u8>, ctx: Ctx)
        requires
            Self::spec_encode_body(m, ctx) is Ok,
        ensures
            Self::spec_encode_body(m, ctx) == Ok::<Seq<u8>, SerializationError>((if 1 <= ctx.version { (string_bytes(m.name, ctx.flexible))->Ok_0 } else { Seq::<u8>::empty() }) + (if 1 <= ctx.version { (nullable_string_bytes(m.value, ctx.flexible))->Ok_0 } else { Seq::<u8>::empty() }) + (if 1 <= ctx.version { i8_bytes(m.source) } else { Seq::<u8>::empty() }) + (if ctx.flexible { uvarint_bytes(0) } else { Seq::<u8>::empty() })),
            Self::reads_back_body(m, ctx) ==> Self::spec_decode_body(pre + ((if 1 <= ctx.version { (string_bytes(m.name, ctx.flexible))->Ok_0 } else { Seq::<u8>::empty() }) + (if 1 <= ctx.version { (nullable_string_bytes(m.value, ctx.flexible))->Ok_0 } else { Seq::<u8>::empty() }) + (if 1 <= ctx.version { i8_bytes(m.source) } else { Seq::<u8>::empty() }) + (if ctx.flexible { uvarint_bytes(0) } else { Seq::<u8>::empty() })) + post, pre.len() as int, ctx) == Ok::<(DescribeConfigsSynonymModel, int), SerializationError>((DescribeConfigsSynonymModel { name: if 1 <= ctx.version { m.name } else { Seq::<char>::empty() }, value: if 1 <= ctx.version { m.value } else { None }, source: if 1 <= ctx.version { m.source } else { 0i8 } }, pre.len() as int + ((if 1 <= ctx.version { (string_bytes(m.name, ctx.flexible))->Ok_0 } else { Seq::<u8>::empty() }) + (if 1 <= ctx.version { (nullable_string_bytes(m.value, ctx.flexible))->Ok_0 } else { Seq::<u8>::empty() }) + (if 1 <= ctx.version { i8_bytes(m.source) } else { Seq::<u8>::empty() }) + (if ctx.flexible { uvarint_bytes(0) } else { Seq::<u8>::empty() })).len())),
    {
        let b0 = if 1 <= ctx.version { (string_bytes(m.name, ctx.flexible))->Ok_0 } else { Seq::<u8>::empty() };
        let b1 = if 1 <= ctx.version { (nullable_string_bytes(m.value, ctx.flexible))->Ok_0 } else { Seq::<u8>::empty() };
        let b2 = if 1 <= ctx.version { i8_bytes(m.source) } else { Seq::<u8>::empty() };
        let b3 = if ctx.flexible { uvarint_bytes(0) } else { Seq::<u8>::empty() };
        let e = Self::spec_encode_body(m, ctx)->Ok_0;
        assert(e =~= Seq::<u8>::empty() + b0 + b1 + b2 + b3);
        assert(e =~= b0 + b1 + b2 + b3);
        if Self::reads_back_body(m, ctx) {
            Self::lemma_body_read_back(pre, m, post, ctx);
            reveal(DescribeConfigsSynonym::spec_read_as);
        }
    }

    /// Writing succeeds exactly when every field that the version carries can be
    /// encoded and every field that it leaves out, where leaving it out is an
    /// error, holds its default.
    #[verifier::spinoff_prover]
    pub proof fn lemma_body_write_succeeds(m: DescribeConfigsSynonymModel, ctx: Ctx)
        ensures
            Self::spec_encode_body(m, ctx) is Ok <==> ((1 <= ctx.version) ==> string_bytes(m.name, ctx.flexible) is Ok) && ((1 <= ctx.version) ==> nullable_string_bytes(m.value, ctx.flexible) is Ok),
    {
    }

    /// Writes the structure for `version`, with the compact encodings when `is_flexible`.
    /// On failure the buffer is left as it was.
    pub fn encode(&self, buf: &mut Vec<u8>, version: ApiVersion, is_flexible: bool) -> (r: Result<(), SerializationError>)
        ensures
            write_exact(r, old(buf)@, final(buf)@, Self::spec_encode_body(self.deep_view(), Ctx { version: version.0, flexible: is_flexible, classic: false })),
    {
        let start = buf.len();
        let r = self.encode_ctx(buf, Ctx::new(version, is_flexible));
        if r.is_err() {
            buf.truncate(start);
        }
        r
    }

    /// Reads the structure as written for `version`.
    /// On failure the reader is put back where it started.
    pub fn decode(buf: &mut Reader, version: ApiVersion, is_flexible: bool) -> (r: Result<Self, SerializationError>)
        ensures
            final(buf).bytes() == old(buf).bytes(),
            read_view_exact(r, Self::spec_decode_body(old(buf).bytes(), old(buf).pos(), Ctx { version: version.0, flexible: is_flexible, classic: false }), old(buf).pos(), final(buf).pos()),
    {
        let start = buf.position();
        let r = Self::decode_ctx(buf, Ctx::new(version, is_flexible));
        if r.is_err() {
            buf.set_position(start);
        }
        r
    }
}

impl KafkaCodec for DescribeConfigsSynonym {
    open spec fn spec_encode(m: DescribeConfigsSynonymModel, ctx: Ctx) -> Result<Seq<u8>, SerializationError> {
        Self::spec_encode_body(m, ctx)
    }

    open spec fn spec_decode(s: Seq<u8>, pos: int, ctx: Ctx) -> Result<(DescribeConfigsSynonymModel, int), SerializationError> {
        Self::spec_decode_body(s, pos, ctx)
    }

    open spec fn reads_back(v: DescribeConfigsSynonymModel, ctx: Ctx) -> bool {
        Self::reads_back_body(v, ctx) && Self::spec_read_as(v, ctx) == v
    }

    proof fn lemma_read_back(pre: Seq<u8>, v: DescribeConfigsSynonymModel, post: Seq<u8>, ctx: Ctx) {
        Self::lemma_body_read_back(pre, v, post, ctx);
        assert(Self::spec_decode(pre + Self::spec_encode(v, ctx)->Ok_0 + post, pre.len() as int, ctx)
            == Self::spec_decode_body(pre + Self::spec_encode_body(v, ctx)->Ok_0 + post, pre.len() as int, ctx));
    }

    fn encode_ctx(&self, buf: &mut Vec<u8>, ctx: Ctx) -> (r: Result<(), SerializationError>) {
        let ghost mut w: Seq<u8> = Seq::empty();
        if 1 <= ctx.version {
            encode_string(&self.name, buf, ctx.flexible)?;
            proof {
                w = w + (string_bytes(self.name.deep_view(), ctx.flexible))->Ok_0;
            }
            assert(buf@ =~= old(buf)@ + w);
        }
        if 1 <= ctx.version {
            encode_nullable_string(&self.value, buf, ctx.flexible)?;
            proof {
                w = w + (nullable_string_bytes(self.value.deep_view(), ctx.flexible))->Ok_0;
            }
            assert(buf@ =~= old(buf)@ + w);
        }
        if 1 <= ctx.version {
            put_i8(buf, self.source);
            proof {
                w = w + i8_bytes(self.source);
            }
            assert(buf@ =~= old(buf)@ + w);
        }
        if ctx.flexible {
            encode_unsigned_varint(0, buf);
            proof {
                w = w + uvarint_bytes(0);
            }
            assert(buf@ =~= old(buf)@ + w);
        }
        Ok(())
    }

    fn decode_ctx(buf: &mut Reader, ctx: Ctx) -> (r: Result<Self, SerializationError>) {
        let name = if 1 <= ctx.version {
            buf.get_string(ctx.flexible)?
        } else {
            String::new()
        };
        let value = if 1 <= ctx.version {
            buf.get_nullable_string(ctx.flexible)?
        } else {
            None
        };
        let source = if 1 <= ctx.version {
            buf.get_i8()?
        } else {
            0i8
        };
        if ctx.flexible {
            let (_tag_count, _) = decode_unsigned_varint(buf)?;
        }
        Ok(DescribeConfigsSynonym { name, value, source })
    }
}

} // verus!
