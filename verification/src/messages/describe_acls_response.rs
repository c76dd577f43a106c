//! DescribeAclsResponse (API key 29).
use vstd::prelude::*;
use crate::roundtrip::{lemma_array_roundtrip, lemma_i16_roundtrip, lemma_i32_roundtrip,
    lemma_i8_roundtrip, lemma_items_read_back, lemma_nullable_string_roundtrip, lemma_seq_assoc,
    lemma_seq_empty_left, lemma_string_roundtrip, lemma_uvarint_roundtrip};
use crate::serialization::{Ctx, KafkaCodec, Reader, SerializationError, array_bytes, decode_array,
    decode_unsigned_varint, encode_array, encode_nullable_string, encode_string,
    encode_unsigned_varint, i16_bytes, i32_bytes, i8_bytes, nullable_string_bytes, parse_array,
    parse_i16, parse_i32, parse_i8, parse_nullable_string, parse_string, parse_uvarint, put_i16,
    put_i32, put_i8, read_view_exact, read_view_ok, string_bytes, then, uvarint_bytes,
    write_exact, write_ok};
use crate::{ApiKey, ApiVersion};

verus! {

// -------------------------------------------------------
// DescribeAclsResponse
// -------------------------------------------------------
#[derive(Clone, Debug, Default, PartialEq)]
pub struct DescribeAclsResponse {
    /// The duration in milliseconds for which the request was throttled due to a quota violation, or zero if the request did not violate any quota.
    pub throttle_time_ms: i32,
    /// The error code, or 0 if there was no error.
    pub error_code: i16,
    /// The error message, or null if there was no error.
    pub error_message: Option<String>,
    /// Each Resource that is referenced in an ACL.
    pub resources: Vec<DescribeAclsResource>,
}

/// The contents of `DescribeAclsResponse`, with strings as characters and
/// nested values by their contents.
pub struct DescribeAclsResponseModel {
    pub throttle_time_ms: i32,
    pub error_code: i16,
    pub error_message: Option<Seq<char>>,
    pub resources: Seq<<DescribeAclsResource as DeepView>::V>,
}

impl DeepView for DescribeAclsResponse {
    type V = DescribeAclsResponseModel;

    open spec fn deep_view(&self) -> DescribeAclsResponseModel {
        DescribeAclsResponseModel {
            throttle_time_ms: self.throttle_time_ms,
            error_code: self.error_code,
            error_message: self.error_message.deep_view(),
            resources: self.resources.deep_view(),
        }
    }
}

impl DescribeAclsResponse {
    /// The encoding of the structure in context `ctx`.
    pub open spec fn spec_encode_body(m: DescribeAclsResponseModel, ctx: Ctx) -> Result<Seq<u8>, SerializationError> {
        let r = Ok(Seq::<u8>::empty());
        let r = then(r, Ok(i32_bytes(m.throttle_time_ms)));
        let r = then(r, Ok(i16_bytes(m.error_code)));
        let r = then(r, nullable_string_bytes(m.error_message, ctx.flexible));
        let r = then(r, array_bytes::<DescribeAclsResource>(m.resources, Ctx { version: ctx.version, flexible: ctx.flexible, classic: false }));
        let r = if ctx.flexible { then(r, Ok(uvarint_bytes(0))) } else { r };
        r
    }

    /// The structure read from `s` at `pos` in context `ctx`.
    pub open spec fn spec_decode_body(s: Seq<u8>, pos: int, ctx: Ctx) -> Result<(DescribeAclsResponseModel, int), SerializationError> {
        match parse_i32(s, pos) {
            Err(e) => Err(e),
            Ok((throttle_time_ms, pos)) =>
            match parse_i16(s, pos) {
                Err(e) => Err(e),
                Ok((error_code, pos)) =>
                match parse_nullable_string(s, pos, ctx.flexible) {
                    Err(e) => Err(e),
                    Ok((error_message, pos)) =>
                    match parse_array::<DescribeAclsResource>(s, pos, Ctx { version: ctx.version, flexible: ctx.flexible, classic: false }) {
                        Err(e) => Err(e),
                        Ok((resources, pos)) =>
                        match (if ctx.flexible { parse_uvarint(s, pos) } else { Ok((0u64, pos)) }) {
                            Err(e) => Err(e),
                            Ok((_tag_count, pos)) =>
                            Ok((DescribeAclsResponseModel { throttle_time_ms, error_code, error_message, resources }, pos))
                        }
                    }
                }
            }
        }
    }

    /// Values of the structure that read back from their encoding in `ctx`: every
    /// field that the version leaves out holds its default, and nested values
    /// read back.
    pub open spec fn reads_back_body(m: DescribeAclsResponseModel, ctx: Ctx) -> bool {
        &&& forall|i: int| 0 <= i < m.resources.len() ==> #[trigger] <DescribeAclsResource as KafkaCodec>::reads_back(m.resources[i], Ctx { version: ctx.version, flexible: ctx.flexible, classic: false })
    }

    /// A value that can be written in `ctx` and reads back: decoding its encoding,
    /// wherever it stands, gives the value and the position just after it.
    #[verifier::spinoff_prover]
    pub proof fn lemma_body_read_back(pre: Seq<u8>, m: DescribeAclsResponseModel, post: Seq<u8>, ctx: Ctx)
        requires
            Self::spec_encode_body(m, ctx) is Ok,
            Self::reads_back_body(m, ctx),
        ensures
            Self::spec_decode_body(pre + Self::spec_encode_body(m, ctx)->Ok_0 + post, pre.len() as int, ctx) == Ok::<(DescribeAclsResponseModel, int), SerializationError>((m, pre.len() as int + Self::spec_encode_body(m, ctx)->Ok_0.len())),
    {
        let b0 = i32_bytes(m.throttle_time_ms);
        let b1 = i16_bytes(m.error_code);
        let b2 = (nullable_string_bytes(m.error_message, ctx.flexible))->Ok_0;
        let b3 = (array_bytes::<DescribeAclsResource>(m.resources, Ctx { version: ctx.version, flexible: ctx.flexible, classic: false }))->Ok_0;
        let b4 = if ctx.flexible { uvarint_bytes(0) } else { Seq::<u8>::empty() };
        let t5 = post;
        let t4 = b4 + t5;
        let t3 = b3 + t4;
        let t2 = b2 + t3;
        let t1 = b1 + t2;
        let t0 = b0 + t1;
        let e = Self::spec_encode_body(m, ctx)->Ok_0;
        assert(e =~= Seq::<u8>::empty() + b0 + b1 + b2 + b3 + b4);
        lemma_seq_assoc(((((Seq::<u8>::empty() + b0) + b1) + b2) + b3), b4, post);
        lemma_seq_assoc((((Seq::<u8>::empty() + b0) + b1) + b2), b3, (b4 + post));
        lemma_seq_assoc(((Seq::<u8>::empty() + b0) + b1), b2, (b3 + (b4 + post)));
        lemma_seq_assoc((Seq::<u8>::empty() + b0), b1, (b2 + (b3 + (b4 + post))));
        lemma_seq_assoc(Seq::<u8>::empty(), b0, (b1 + (b2 + (b3 + (b4 + post)))));
        lemma_seq_empty_left((b0 + (b1 + (b2 + (b3 + (b4 + post))))));
        let s = pre + e + post;
        lemma_seq_assoc(pre, e, post);
        assert(s == pre + t0);
        let a0 = pre;
        assert(parse_i32(s, a0.len() as int) == Ok::<(i32, int), SerializationError>((m.throttle_time_ms, a0.len() as int + b0.len()))) by {
            lemma_seq_assoc(a0, b0, t1);
            lemma_i32_roundtrip(a0, m.throttle_time_ms, t1);
        }
        lemma_seq_assoc(a0, b0, t1);
        let a1 = a0 + b0;
        assert(parse_i16(s, a1.len() as int) == Ok::<(i16, int), SerializationError>((m.error_code, a1.len() as int + b1.len()))) by {
            lemma_seq_assoc(a1, b1, t2);
            lemma_i16_roundtrip(a1, m.error_code, t2);
        }
        lemma_seq_assoc(a1, b1, t2);
        let a2 = a1 + b1;
        assert(parse_nullable_string(s, a2.len() as int, ctx.flexible) == Ok::<(Option<Seq<char>>, int), SerializationError>((m.error_message, a2.len() as int + b2.len()))) by {
            assert(nullable_string_bytes(m.error_message, ctx.flexible) is Ok);
            lemma_seq_assoc(a2, b2, t3);
            lemma_nullable_string_roundtrip(a2, m.error_message, t3, ctx.flexible);
        }
        lemma_seq_assoc(a2, b2, t3);
        let a3 = a2 + b2;
        assert(parse_array::<DescribeAclsResource>(s, a3.len() as int, Ctx { version: ctx.version, flexible: ctx.flexible, classic: false }) == Ok::<(Seq<<DescribeAclsResource as DeepView>::V>, int), SerializationError>((m.resources, a3.len() as int + b3.len()))) by {
            assert(array_bytes::<DescribeAclsResource>(m.resources, Ctx { version: ctx.version, flexible: ctx.flexible, classic: false }) is Ok);
            lemma_seq_assoc(a3, b3, t4);
            lemma_items_read_back::<DescribeAclsResource>(m.resources, Ctx { version: ctx.version, flexible: ctx.flexible, classic: false });
            lemma_array_roundtrip::<DescribeAclsResource>(a3, m.resources, t4, Ctx { version: ctx.version, flexible: ctx.flexible, classic: false });
        }
        lemma_seq_assoc(a3, b3, t4);
        let a4 = a3 + b3;
        if ctx.flexible {
            assert(parse_uvarint(s, a4.len() as int) == Ok::<(u64, int), SerializationError>((0u64, a4.len() as int + b4.len()))) by {
                lemma_seq_assoc(a4, b4, t5);
                lemma_uvarint_roundtrip(a4, 0, t5);
            }
        }
    }

    /// The bytes written: the encoding of each field, in the order of the
    /// protocol's layout. Reading them back, wherever they stand, gives the value,
    /// with each field that the version leaves out at its default.
    #[verifier::spinoff_prover]
    pub proof fn lemma_body_layout(pre: Seq<u8>, m: DescribeAclsResponseModel, post: Seq<u8>, ctx: Ctx)
        requires
            Self::spec_encode_body(m, ctx) is Ok,
        ensures
            Self::spec_encode_body(m, ctx) == Ok::<Seq<u8>, SerializationError>((i32_bytes(m.throttle_time_ms)) + (i16_bytes(m.error_code)) + ((nullable_string_bytes(m.error_message, ctx.flexible))->Ok_0) + ((array_bytes::<DescribeAclsResource>(m.resources, Ctx { version: ctx.version, flexible: ctx.flexible, classic: false }))->Ok_0) + (if ctx.flexible { uvarint_bytes(0) } else { Seq::<u8>::empty() })),
            Self::reads_back_body(m, ctx) ==> Self::spec_decode_body(pre + ((i32_bytes(m.throttle_time_ms)) + (i16_bytes(m.error_code)) + ((nullable_string_bytes(m.error_message, ctx.flexible))->Ok_0) + ((array_bytes::<DescribeAclsResource>(m.resources, Ctx { version: ctx.version, flexible: ctx.flexible, classic: false }))->Ok_0) + (if ctx.flexible { uvarint_bytes(0) } else { Seq::<u8>::empty() })) + post, pre.len() as int, ctx) == Ok::<(DescribeAclsResponseModel, int), SerializationError>((m, pre.len() as int + ((i32_bytes(m.throttle_time_ms)) + (i16_bytes(m.error_code)) + ((nullable_string_bytes(m.error_message, ctx.flexible))->Ok_0) + ((array_bytes::<DescribeAclsResource>(m.resources, Ctx { version: ctx.version, flexible: ctx.flexible, classic: false }))->Ok_0) + (if ctx.flexible { uvarint_bytes(0) } else { Seq::<u8>::empty() })).len())),
    {
        let b0 = i32_bytes(m.throttle_time_ms);
        let b1 = i16_bytes(m.error_code);
        let b2 = (nullable_string_bytes(m.error_message, ctx.flexible))->Ok_0;
        let b3 = (array_bytes::<DescribeAclsResource>(m.resources, Ctx { version: ctx.version, flexible: ctx.flexible, classic: false }))->Ok_0;
        let b4 = if ctx.flexible { uvarint_bytes(0) } else { Seq::<u8>::empty() };
        let e = Self::spec_encode_body(m, ctx)->Ok_0;
        assert(e =~= Seq::<u8>::empty() + b0 + b1 + b2 + b3 + b4);
        assert(e =~= b0 + b1 + b2 + b3 + b4);
        if Self::reads_back_body(m, ctx) {
            Self::lemma_body_read_back(pre, m, post, ctx);
        }
    }

    /// Writing succeeds exactly when every field that the version carries can be
    /// encoded and every field that it leaves out, where leaving it out is an
    /// error, holds its default.
    #[verifier::spinoff_prover]
    pub proof fn lemma_body_write_succeeds(m: DescribeAclsResponseModel, ctx: Ctx)
        ensures
            Self::spec_encode_body(m, ctx) is Ok <==> (nullable_string_bytes(m.error_message, ctx.flexible) is Ok) && (array_bytes::<DescribeAclsResource>(m.resources, Ctx { version: ctx.version, flexible: ctx.flexible, classic: false }) is Ok),
    {
    }

    /// Writes the structure for `version`, with the compact encodings when `is_flexible`.
    /// On failure the buffer is left as it was.
    pub fn encode(&self, buf: &mut Vec<u8>, version: ApiVersion, is_flexible: bool) -> (r: Result<(), SerializationError>)
        ensures
            write_exact(r, old(buf)@, final(buf)@, Self::spec_encode_body(self.deep_view(), Ctx { version: version.0, flexible: is_flexible, classic: false })),
    {
        let start = buf.len();
        let r = self.encode_ctx(buf, Ctx::new(version, is_flexible));
        if r.is_err() {
            buf.truncate(start);
        }
        r
    }

    /// Reads the structure as written for `version`.
    /// On failure the reader is put back where it started.
    pub fn decode(buf: &mut Reader, version: ApiVersion, is_flexible: bool) -> (r: Result<Self, SerializationError>)
        ensures
            final(buf).bytes() == old(buf).bytes(),
            read_view_exact(r, Self::spec_decode_body(old(buf).bytes(), old(buf).pos(), Ctx { version: version.0, flexible: is_flexible, classic: false }), old(buf).pos(), final(buf).pos()),
    {
        let start = buf.position();
        let r = Self::decode_ctx(buf, Ctx::new(version, is_flexible));
        if r.is_err() {
            buf.set_position(start);
        }
        r
    }
}

impl KafkaCodec for DescribeAclsResponse {
    open spec fn spec_encode(m: DescribeAclsResponseModel, ctx: Ctx) -> Result<Seq<u8>, SerializationError> {
        Self::spec_encode_body(m, ctx)
    }

    open spec fn spec_decode(s: Seq<u8>, pos: int, ctx: Ctx) -> Result<(DescribeAclsResponseModel, int), SerializationError> {
        Self::spec_decode_body(s, pos, ctx)
    }

    open spec fn reads_back(v: DescribeAclsResponseModel, ctx: Ctx) -> bool {
        Self::reads_back_body(v, ctx)
    }

    proof fn lemma_read_back(pre: Seq<u8>, v: DescribeAclsResponseModel, post: Seq<u8>, ctx: Ctx) {
        Self::lemma_body_read_back(pre, v, post, ctx);
        assert(Self::spec_decode(pre + Self::spec_encode(v, ctx)->Ok_0 + post, pre.len() as int, ctx)
            == Self::spec_decode_body(pre + Self::spec_encode_body(v, ctx)->Ok_0 + post, pre.len() as int, ctx));
    }

    fn encode_ctx(&self, buf: &mut Vec<u8>, ctx: Ctx) -> (r: Result<(), SerializationError>) {
        let ghost mut w: Seq<u8> = Seq::empty();
        put_i32(buf, self.throttle_time_ms);
        proof {
            w = w + i32_bytes(self.throttle_time_ms);
        }
        assert(buf@ =~= old(buf)@ + w);
        put_i16(buf, self.error_code);
        proof {
            w = w + i16_bytes(self.error_code);
        }
        assert(buf@ =~= old(buf)@ + w);
        encode_nullable_string(&self.error_message, buf, ctx.flexible)?;
        proof {
            w = w + (nullable_string_bytes(self.error_message.deep_view(), ctx.flexible))->Ok_0;
        }
        assert(buf@ =~= old(buf)@ + w);
        encode_array(&self.resources, buf, Ctx { version: ctx.version, flexible: ctx.flexible, classic: false })?;
        proof {
            w = w + (array_bytes::<DescribeAclsResource>(self.resources.deep_view(), Ctx { version: ctx.version, flexible: ctx.flexible, classic: false }))->Ok_0;
        }
        assert(buf@ =~= old(buf)@ + w);
        if ctx.flexible {
            encode_unsigned_varint(0, buf);
            proof {
                w = w + uvarint_bytes(0);
            }
            assert(buf@ =~= old(buf)@ + w);
        }
        Ok(())
    }

    fn decode_ctx(buf: &mut Reader, ctx: Ctx) -> (r: Result<Self, SerializationError>) {
        let throttle_time_ms = buf.get_i32()?;
        let error_code = buf.get_i16()?;
        let error_message = buf.get_nullable_string(ctx.flexible)?;
        let resources = decode_array::<DescribeAclsResource>(buf, Ctx { version: ctx.version, flexible: ctx.flexible, classic: false })?;
        if ctx.flexible {
            let (_tag_count, _) = decode_unsigned_varint(buf)?;
        }
        Ok(DescribeAclsResponse { throttle_time_ms, error_code, error_message, resources })
    }
}

impl DescribeAclsResponse {
    /// The API key of this message.
    pub fn get_api_key() -> (r: ApiKey)
        ensures
            r.0 == 29,
    {
        ApiKey::new(29)
    }

    /// The oldest version of this message.
    pub fn get_min_supported_version() -> (r: ApiVersion)
        ensures
            r.0 == 1,
    {
        ApiVersion::new(1)
    }

    /// The newest version of this message.
    pub fn get_max_supported_version() -> (r: ApiVersion)
        ensures
            r.0 == 3,
    {
        ApiVersion::new(3)
    }

    /// The first version of this message with the compact encodings.
    pub fn get_min_flexible_version() -> (r: ApiVersion)
        ensures
            r.0 == 2,
    {
        ApiVersion::new(2)
    }

    /// The encoding of a whole message body at `version`.
    pub open spec fn spec_serialize(m: DescribeAclsResponseModel, version: i16) -> Result<Seq<u8>, SerializationError> {
        let is_flexible = version >= 2;
        let ctx = Ctx { version, flexible: is_flexible, classic: false };
        let r = Ok(Seq::<u8>::empty());
        let r = then(r, Ok(i32_bytes(m.throttle_time_ms)));
        let r = then(r, Ok(i16_bytes(m.error_code)));
        let r = then(r, nullable_string_bytes(m.error_message, ctx.flexible));
        let r = then(r, array_bytes::<DescribeAclsResource>(m.resources, Ctx { version: ctx.version, flexible: ctx.flexible, classic: false }));
        let r = if ctx.flexible { then(r, Ok(uvarint_bytes(0))) } else { r };
        r
    }

    /// The message body read at `version`.
    pub open spec fn spec_deserialize(s: Seq<u8>, pos: int, version: i16) -> Result<(DescribeAclsResponseModel, int), SerializationError> {
        let is_flexible = version >= 2;
        let ctx = Ctx { version, flexible: is_flexible, classic: false };
        match parse_i32(s, pos) {
            Err(e) => Err(e),
            Ok((throttle_time_ms, pos)) =>
            match parse_i16(s, pos) {
                Err(e) => Err(e),
                Ok((error_code, pos)) =>
                match parse_nullable_string(s, pos, ctx.flexible) {
                    Err(e) => Err(e),
                    Ok((error_message, pos)) =>
                    match parse_array::<DescribeAclsResource>(s, pos, Ctx { version: ctx.version, flexible: ctx.flexible, classic: false }) {
                        Err(e) => Err(e),
                        Ok((resources, pos)) =>
                        match (if ctx.flexible { parse_uvarint(s, pos) } else { Ok((0u64, pos)) }) {
                            Err(e) => Err(e),
                            Ok((_tag_count, pos)) =>
                            Ok((DescribeAclsResponseModel { throttle_time_ms, error_code, error_message, resources }, pos))
                        }
                    }
                }
            }
        }
    }

    /// Message bodies that read back when written at `version`: every field that
    /// the version leaves out holds its default, and nested values read back.
    pub open spec fn reads_back_message(m: DescribeAclsResponseModel, version: i16) -> bool {
        let is_flexible = version >= 2;
        let ctx = Ctx { version, flexible: is_flexible, classic: false };
        &&& forall|i: int| 0 <= i < m.resources.len() ==> #[trigger] <DescribeAclsResource as KafkaCodec>::reads_back(m.resources[i], Ctx { version: ctx.version, flexible: ctx.flexible, classic: false })
    }

    /// A message body that can be written at `version` and reads back: reading a
    /// body at `version` from its bytes, wherever they stand, gives the same message.
    #[verifier::spinoff_prover]
    pub proof fn lemma_message_read_back(pre: Seq<u8>, m: DescribeAclsResponseModel, post: Seq<u8>, version: i16)
        requires
            Self::spec_serialize(m, version) is Ok,
            Self::reads_back_message(m, version),
        ensures
            Self::spec_deserialize(pre + Self::spec_serialize(m, version)->Ok_0 + post, pre.len() as int, version) == Ok::<(DescribeAclsResponseModel, int), SerializationError>((m, pre.len() as int + Self::spec_serialize(m, version)->Ok_0.len())),
    {
        let is_flexible = version >= 2;
        let ctx = Ctx { version, flexible: is_flexible, classic: false };
        let b0 = i32_bytes(m.throttle_time_ms);
        let b1 = i16_bytes(m.error_code);
        let b2 = (nullable_string_bytes(m.error_message, ctx.flexible))->Ok_0;
        let b3 = (array_bytes::<DescribeAclsResource>(m.resources, Ctx { version: ctx.version, flexible: ctx.flexible, classic: false }))->Ok_0;
        let b4 = if ctx.flexible { uvarint_bytes(0) } else { Seq::<u8>::empty() };
        let t5 = post;
        let t4 = b4 + t5;
        let t3 = b3 + t4;
        let t2 = b2 + t3;
        let t1 = b1 + t2;
        let t0 = b0 + t1;
        let e = Self::spec_serialize(m, version)->Ok_0;
        assert(e =~= Seq::<u8>::empty() + b0 + b1 + b2 + b3 + b4);
        lemma_seq_assoc(((((Seq::<u8>::empty() + b0) + b1) + b2) + b3), b4, post);
        lemma_seq_assoc((((Seq::<u8>::empty() + b0) + b1) + b2), b3, (b4 + post));
        lemma_seq_assoc(((Seq::<u8>::empty() + b0) + b1), b2, (b3 + (b4 + post)));
        lemma_seq_assoc((Seq::<u8>::empty() + b0), b1, (b2 + (b3 + (b4 + post))));
        lemma_seq_assoc(Seq::<u8>::empty(), b0, (b1 + (b2 + (b3 + (b4 + post)))));
        lemma_seq_empty_left((b0 + (b1 + (b2 + (b3 + (b4 + post))))));
        let s = pre + e + post;
        lemma_seq_assoc(pre, e, post);
        assert(s == pre + t0);
        let a0 = pre;
        assert(parse_i32(s, a0.len() as int) == Ok::<(i32, int), SerializationError>((m.throttle_time_ms, a0.len() as int + b0.len()))) by {
            lemma_seq_assoc(a0, b0, t1);
            lemma_i32_roundtrip(a0, m.throttle_time_ms, t1);
        }
        lemma_seq_assoc(a0, b0, t1);
        let a1 = a0 + b0;
        assert(parse_i16(s, a1.len() as int) == Ok::<(i16, int), SerializationError>((m.error_code, a1.len() as int + b1.len()))) by {
            lemma_seq_assoc(a1, b1, t2);
            lemma_i16_roundtrip(a1, m.error_code, t2);
        }
        lemma_seq_assoc(a1, b1, t2);
        let a2 = a1 + b1;
        assert(parse_nullable_string(s, a2.len() as int, ctx.flexible) == Ok::<(Option<Seq<char>>, int), SerializationError>((m.error_message, a2.len() as int + b2.len()))) by {
            assert(nullable_string_bytes(m.error_message, ctx.flexible) is Ok);
            lemma_seq_assoc(a2, b2, t3);
            lemma_nullable_string_roundtrip(a2, m.error_message, t3, ctx.flexible);
        }
        lemma_seq_assoc(a2, b2, t3);
        let a3 = a2 + b2;
        assert(parse_array::<DescribeAclsResource>(s, a3.len() as int, Ctx { version: ctx.version, flexible: ctx.flexible, classic: false }) == Ok::<(Seq<<DescribeAclsResource as DeepView>::V>, int), SerializationError>((m.resources, a3.len() as int + b3.len()))) by {
            assert(array_bytes::<DescribeAclsResource>(m.resources, Ctx { version: ctx.version, flexible: ctx.flexible, classic: false }) is Ok);
            lemma_seq_assoc(a3, b3, t4);
            lemma_items_read_back::<DescribeAclsResource>(m.resources, Ctx { version: ctx.version, flexible: ctx.flexible, classic: false });
            lemma_array_roundtrip::<DescribeAclsResource>(a3, m.resources, t4, Ctx { version: ctx.version, flexible: ctx.flexible, classic: false });
        }
        lemma_seq_assoc(a3, b3, t4);
        let a4 = a3 + b3;
        if ctx.flexible {
            assert(parse_uvarint(s, a4.len() as int) == Ok::<(u64, int), SerializationError>((0u64, a4.len() as int + b4.len()))) by {
                lemma_seq_assoc(a4, b4, t5);
                lemma_uvarint_roundtrip(a4, 0, t5);
            }
        }
    }

    /// The bytes written: the encoding of each field, in the order of the
    /// protocol's layout. Reading them back, wherever they stand, gives the value,
    /// with each field that the version leaves out at its default.
    #[verifier::spinoff_prover]
    pub proof fn lemma_message_layout(pre: Seq<u8>, m: DescribeAclsResponseModel, post: Seq<u8>, version: i16)
        requires
            Self::spec_serialize(m, version) is Ok,
        ensures
            Self::spec_serialize(m, version) == Ok::<Seq<u8>, SerializationError>((i32_bytes(m.throttle_time_ms)) + (i16_bytes(m.error_code)) + ((nullable_string_bytes(m.error_message, (version >= 2)))->Ok_0) + ((array_bytes::<DescribeAclsResource>(m.resources, Ctx { version: version, flexible: (version >= 2), classic: false }))->Ok_0) + (if (version >= 2) { uvarint_bytes(0) } else { Seq::<u8>::empty() })),
            Self::reads_back_message(m, version) ==> Self::spec_deserialize(pre + ((i32_bytes(m.throttle_time_ms)) + (i16_bytes(m.error_code)) + ((nullable_string_bytes(m.error_message, (version >= 2)))->Ok_0) + ((array_bytes::<DescribeAclsResource>(m.resources, Ctx { version: version, flexible: (version >= 2), classic: false }))->Ok_0) + (if (version >= 2) { uvarint_bytes(0) } else { Seq::<u8>::empty() })) + post, pre.len() as int, version) == Ok::<(DescribeAclsResponseModel, int), SerializationError>((m, pre.len() as int + ((i32_bytes(m.throttle_time_ms)) + (i16_bytes(m.error_code)) + ((nullable_string_bytes(m.error_message, (version >= 2)))->Ok_0) + ((array_bytes::<DescribeAclsResource>(m.resources, Ctx { version: version, flexible: (version >= 2), classic: false }))->Ok_0) + (if (version >= 2) { uvarint_bytes(0) } else { Seq::<u8>::empty() })).len())),
    {
        let is_flexible = version >= 2;
        let ctx = Ctx { version, flexible: is_flexible, classic: false };
        let b0 = i32_bytes(m.throttle_time_ms);
        let b1 = i16_bytes(m.error_code);
        let b2 = (nullable_string_bytes(m.error_message, ctx.flexible))->Ok_0;
        let b3 = (array_bytes::<DescribeAclsResource>(m.resources, Ctx { version: ctx.version, flexible: ctx.flexible, classic: false }))->Ok_0;
        let b4 = if ctx.flexible { uvarint_bytes(0) } else { Seq::<u8>::empty() };
        let e = Self::spec_serialize(m, version)->Ok_0;
        assert(e =~= Seq::<u8>::empty() + b0 + b1 + b2 + b3 + b4);
        assert(e =~= b0 + b1 + b2 + b3 + b4);
        if Self::reads_back_message(m, version) {
            Self::lemma_message_read_back(pre, m, post, version);
        }
    }

    /// Writing succeeds exactly when every field that the version carries can be
    /// encoded and every field that it leaves out, where leaving it out is an
    /// error, holds its default.
    #[verifier::spinoff_prover]
    pub proof fn lemma_message_write_succeeds(m: DescribeAclsResponseModel, version: i16)
        ensures
            Self::spec_serialize(m, version) is Ok <==> (nullable_string_bytes(m.error_message, (version >= 2)) is Ok) && (array_bytes::<DescribeAclsResource>(m.resources, Ctx { version: version, flexible: (version >= 2), classic: false }) is Ok),
    {
        let is_flexible = version >= 2;
        let ctx = Ctx { version, flexible: is_flexible, classic: false };
    }

    /// Writes the message body for `version`, which must be a supported version.
    /// On failure the buffer is left as it was.
    pub fn serialize(&self, version: ApiVersion, buf: &mut Vec<u8>) -> (r: Result<(), SerializationError>)
        requires
            1 <= version.0 <= 3,
        ensures
            write_exact(r, old(buf)@, final(buf)@, Self::spec_serialize(self.deep_view(), version.0)),
    {
        let start = buf.len();
        let r = self.write_body(version, buf);
        if r.is_err() {
            buf.truncate(start);
        }
        r
    }

    fn write_body(&self, version: ApiVersion, buf: &mut Vec<u8>) -> (r: Result<(), SerializationError>)
        requires
            1 <= version.0 <= 3,
        ensures
            write_ok(r, old(buf)@, final(buf)@, Self::spec_serialize(self.deep_view(), version.0)),
    {
        let is_flexible = version.0 >= Self::get_min_flexible_version().0;
        let ctx = Ctx::new(version, is_flexible);
        let ghost mut w: Seq<u8> = Seq::empty();
        put_i32(buf, self.throttle_time_ms);
        proof {
            w = w + i32_bytes(self.throttle_time_ms);
        }
        assert(buf@ =~= old(buf)@ + w);
        put_i16(buf, self.error_code);
        proof {
            w = w + i16_bytes(self.error_code);
        }
        assert(buf@ =~= old(buf)@ + w);
        encode_nullable_string(&self.error_message, buf, ctx.flexible)?;
        proof {
            w = w + (nullable_string_bytes(self.error_message.deep_view(), ctx.flexible))->Ok_0;
        }
        assert(buf@ =~= old(buf)@ + w);
        encode_array(&self.resources, buf, Ctx { version: ctx.version, flexible: ctx.flexible, classic: false })?;
        proof {
            w = w + (array_bytes::<DescribeAclsResource>(self.resources.deep_view(), Ctx { version: ctx.version, flexible: ctx.flexible, classic: false }))->Ok_0;
        }
        assert(buf@ =~= old(buf)@ + w);
        if ctx.flexible {
            encode_unsigned_varint(0, buf);
            proof {
                w = w + uvarint_bytes(0);
            }
            assert(buf@ =~= old(buf)@ + w);
        }
        Ok(())
    }

    /// Reads a message body written for `version`.
    /// On failure the reader is put back where it started.
    pub fn deserialize(version: ApiVersion, buf: &mut Reader) -> (r: Result<Self, SerializationError>)
        ensures
            final(buf).bytes() == old(buf).bytes(),
            read_view_exact(r, Self::spec_deserialize(old(buf).bytes(), old(buf).pos(), version.0), old(buf).pos(), final(buf).pos()),
    {
        let start = buf.position();
        let r = Self::read_body(version, buf);
        if r.is_err() {
            buf.set_position(start);
        }
        r
    }

    fn read_body(version: ApiVersion, buf: &mut Reader) -> (r: Result<Self, SerializationError>)
        ensures
            final(buf).bytes() == old(buf).bytes(),
            read_view_ok(r, Self::spec_deserialize(old(buf).bytes(), old(buf).pos(), version.0), final(buf).pos()),
    {
        let is_flexible = version.0 >= Self::get_min_flexible_version().0;
        let ctx = Ctx::new(version, is_flexible);
        let throttle_time_ms = buf.get_i32()?;
        let error_code = buf.get_i16()?;
        let error_message = buf.get_nullable_string(ctx.flexible)?;
        let resources = decode_array::<DescribeAclsResource>(buf, Ctx { version: ctx.version, flexible: ctx.flexible, classic: false })?;
        if ctx.flexible {
            let (_tag_count, _) = decode_unsigned_varint(buf)?;
        }
        Ok(DescribeAclsResponse { throttle_time_ms, error_code, error_message, resources })
    }
}

// -------------------------------------------------------
// AclDescription
// -------------------------------------------------------
#[derive(Clone, Debug, Default, PartialEq)]
pub struct AclDescription {
    /// The ACL principal.
    pub principal: String,
    /// The ACL host.
    pub host: String,
    /// The ACL operation.
    pub operation: i8,
    /// The ACL permission type.
    pub permission_type: i8,
}

/// The contents of `AclDescription`, with strings as characters and
/// nested values by their contents.
pub struct AclDescriptionModel {
    pub principal: Seq<char>,
    pub host: Seq<char>,
    pub operation: i8,
    pub permission_type: i8,
}

impl DeepView for AclDescription {
    type V = AclDescriptionModel;

    open spec fn deep_view(&self) -> AclDescriptionModel {
        AclDescriptionModel {
            principal: self.principal.deep_view(),
            host: self.host.deep_view(),
            operation: self.operation,
            permission_type: self.permission_type,
        }
    }
}

impl AclDescription {
    /// The encoding of the structure in context `ctx`.
    pub open spec fn spec_encode_body(m: AclDescriptionModel, ctx: Ctx) -> Result<Seq<u8>, SerializationError> {
        let r = Ok(Seq::<u8>::empty());
        let r = then(r, string_bytes(m.principal, ctx.flexible));
        let r = then(r, string_bytes(m.host, ctx.flexible));
        let r = then(r, Ok(i8_bytes(m.operation)));
        let r = then(r, Ok(i8_bytes(m.permission_type)));
        let r = if ctx.flexible { then(r, Ok(uvarint_bytes(0))) } else { r };
        r
    }

    /// The structure read from `s` at `pos` in context `ctx`.
    pub open spec fn spec_decode_body(s: Seq<u8>, pos: int, ctx: Ctx) -> Result<(AclDescriptionModel, int), SerializationError> {
        match parse_string(s, pos, ctx.flexible) {
            Err(e) => Err(e),
            Ok((principal, pos)) =>
            match parse_string(s, pos, ctx.flexible) {
                Err(e) => Err(e),
                Ok((host, pos)) =>
                match parse_i8(s, pos) {
                    Err(e) => Err(e),
                    Ok((operation, pos)) =>
                    match parse_i8(s, pos) {
                        Err(e) => Err(e),
                        Ok((permission_type, pos)) =>
                        match (if ctx.flexible { parse_uvarint(s, pos) } else { Ok((0u64, pos)) }) {
                            Err(e) => Err(e),
                            Ok((_tag_count, pos)) =>
                            Ok((AclDescriptionModel { principal, host, operation, permission_type }, pos))
                        }
                    }
                }
            }
        }
    }

    /// Values of the structure that read back from their encoding in `ctx`: every
    /// field that the version leaves out holds its default, and nested values
    /// read back.
    pub open spec fn reads_back_body(m: AclDescriptionModel, ctx: Ctx) -> bool {
        true
    }

    /// A value that can be written in `ctx` and reads back: decoding its encoding,
    /// wherever it stands, gives the value and the position just after it.
    #[verifier::spinoff_prover]
    pub proof fn lemma_body_read_back(pre: Seq<u8>, m: AclDescriptionModel, post: Seq<u8>, ctx: Ctx)
        requires
            Self::spec_encode_body(m, ctx) is Ok,
            Self::reads_back_body(m, ctx),
        ensures
            Self::spec_decode_body(pre + Self::spec_encode_body(m, ctx)->Ok_0 + post, pre.len() as int, ctx) == Ok::<(AclDescriptionModel, int), SerializationError>((m, pre.len() as int + Self::spec_encode_body(m, ctx)->Ok_0.len())),
    {
        let b0 = (string_bytes(m.principal, ctx.flexible))->Ok_0;
        let b1 = (string_bytes(m.host, ctx.flexible))->Ok_0;
        let b2 = i8_bytes(m.operation);
        let b3 = i8_bytes(m.permission_type);
        let b4 = if ctx.flexible { uvarint_bytes(0) } else { Seq::<u8>::empty() };
        let t5 = post;
        let t4 = b4 + t5;
        let t3 = b3 + t4;
        let t2 = b2 + t3;
        let t1 = b1 + t2;
        let t0 = b0 + t1;
        let e = Self::spec_encode_body(m, ctx)->Ok_0;
        assert(e =~= Seq::<u8>::empty() + b0 + b1 + b2 + b3 + b4);
        lemma_seq_assoc(((((Seq::<u8>::empty() + b0) + b1) + b2) + b3), b4, post);
        lemma_seq_assoc((((Seq::<u8>::empty() + b0) + b1) + b2), b3, (b4 + post));
        lemma_seq_assoc(((Seq::<u8>::empty() + b0) + b1), b2, (b3 + (b4 + post)));
        lemma_seq_assoc((Seq::<u8>::empty() + b0), b1, (b2 + (b3 + (b4 + post))));
        lemma_seq_assoc(Seq::<u8>::empty(), b0, (b1 + (b2 + (b3 + (b4 + post)))));
        lemma_seq_empty_left((b0 + (b1 + (b2 + (b3 + (b4 + post))))));
        let s = pre + e + post;
        lemma_seq_assoc(pre, e, post);
        assert(s == pre + t0);
        let a0 = pre;
        assert(parse_string(s, a0.len() as int, ctx.flexible) == Ok::<(Seq<char>, int), SerializationError>((m.principal, a0.len() as int + b0.len()))) by {
            assert(string_bytes(m.principal, ctx.flexible) is Ok);
            lemma_seq_assoc(a0, b0, t1);
            lemma_string_roundtrip(a0, m.principal, t1, ctx.flexible);
        }
        lemma_seq_assoc(a0, b0, t1);
        let a1 = a0 + b0;
        assert(parse_string(s, a1.len() as int, ctx.flexible) == Ok::<(Seq<char>, int), SerializationError>((m.host, a1.len() as int + b1.len()))) by {
            assert(string_bytes(m.host, ctx.flexible) is Ok);
            lemma_seq_assoc(a1, b1, t2);
            lemma_string_roundtrip(a1, m.host, t2, ctx.flexible);
        }
        lemma_seq_assoc(a1, b1, t2);
        let a2 = a1 + b1;
        assert(parse_i8(s, a2.len() as int) == Ok::<(i8, int), SerializationError>((m.operation, a2.len() as int + b2.len()))) by {
            lemma_seq_assoc(a2, b2, t3);
            lemma_i8_roundtrip(a2, m.operation, t3);
        }
        lemma_seq_assoc(a2, b2, t3);
        let a3 = a2 + b2;
        assert(parse_i8(s, a3.len() as int) == Ok::<(i8, int), SerializationError>((m.permission_type, a3.len() as int + b3.len()))) by {
            lemma_seq_assoc(a3, b3, t4);
            lemma_i8_roundtrip(a3, m.permission_type, t4);
        }
        lemma_seq_assoc(a3, b3, t4);
        let a4 = a3 + b3;
        if ctx.flexible {
            assert(parse_uvarint(s, a4.len() as int) == Ok::<(u64, int), SerializationError>((0u64, a4.len() as int + b4.len()))) by {
                lemma_seq_assoc(a4, b4, t5);
                lemma_uvarint_roundtrip(a4, 0, t5);
            }
        }
    }

    /// The bytes written: the encoding of each field, in the order of the
    /// protocol's layout. Reading them back, wherever they stand, gives the value,
    /// with each field that the version leaves out at its default.
    #[verifier::spinoff_prover]
    pub proof fn lemma_body_layout(pre: Seq<u8>, m: AclDescriptionModel, post: Seq<u8>, ctx: Ctx)
        requires
            Self::spec_encode_body(m, ctx) is Ok,
        ensures
            Self::spec_encode_body(m, ctx) == Ok::<Seq<u8>, SerializationError>(((string_bytes(m.principal, ctx.flexible))->Ok_0) + ((string_bytes(m.host, ctx.flexible))->Ok_0) + (i8_bytes(m.operation)) + (i8_bytes(m.permission_type)) + (if ctx.flexible { uvarint_bytes(0) } else { Seq::<u8>::empty() })),
            Self::reads_back_body(m, ctx) ==> Self::spec_decode_body(pre + (((string_bytes(m.principal, ctx.flexible))->Ok_0) + ((string_bytes(m.host, ctx.flexible))->Ok_0) + (i8_bytes(m.operation)) + (i8_bytes(m.permission_type)) + (if ctx.flexible { uvarint_bytes(0) } else { Seq::<u8>::empty() })) + post, pre.len() as int, ctx) == Ok::<(AclDescriptionModel, int), SerializationError>((m, pre.len() as int + (((string_bytes(m.principal, ctx.flexible))->Ok_0) + ((string_bytes(m.host, ctx.flexible))->Ok_0) + (i8_bytes(m.operation)) + (i8_bytes(m.permission_type)) + (if ctx.flexible { uvarint_bytes(0) } else { Seq::<u8>::empty() })).len())),
    {
        let b0 = (string_bytes(m.principal, ctx.flexible))->Ok_0;
        let b1 = (string_bytes(m.host, ctx.flexible))->Ok_0;
        let b2 = i8_bytes(m.operation);
        let b3 = i8_bytes(m.permission_type);
        let b4 = if ctx.flexible { uvarint_bytes(0) } else { Seq::<u8>::empty() };
        let e = Self::spec_encode_body(m, ctx)->Ok_0;
        assert(e =~= Seq::<u8>::empty() + b0 + b1 + b2 + b3 + b4);
        assert(e =~= b0 + b1 + b2 + b3 + b4);
        if Self::reads_back_body(m, ctx) {
            Self::lemma_body_read_back(pre, m, post, ctx);
        }
    }

    /// Writing succeeds exactly when every field that the version carries can be
    /// encoded and every field that it leaves out, where leaving it out is an
    /// error, holds its default.
    #[verifier::spinoff_prover]
    pub proof fn lemma_body_write_succeeds(m: AclDescriptionModel, ctx: Ctx)
        ensures
            Self::spec_encode_body(m, ctx) is Ok <==> (string_bytes(m.principal, ctx.flexible) is Ok) && (string_bytes(m.host, ctx.flexible) is Ok),
    {
    }

    /// Writes the structure for `version`, with the compact encodings when `is_flexible`.
    /// On failure the buffer is left as it was.
    pub fn encode(&self, buf: &mut Vec<u8>, version: ApiVersion, is_flexible: bool) -> (r: Result<(), SerializationError>)
        ensures
            write_exact(r, old(buf)@, final(buf)@, Self::spec_encode_body(self.deep_view(), Ctx { version: version.0, flexible: is_flexible, classic: false })),
    {
        let start = buf.len();
        let r = self.encode_ctx(buf, Ctx::new(version, is_flexible));
        if r.is_err() {
            buf.truncate(start);
        }
        r
    }

    /// Reads the structure as written for `version`.
    /// On failure the reader is put back where it started.
    pub fn decode(buf: &mut Reader, version: ApiVersion, is_flexible: bool) -> (r: Result<Self, SerializationError>)
        ensures
            final(buf).bytes() == old(buf).bytes(),
            read_view_exact(r, Self::spec_decode_body(old(buf).bytes(), old(buf).pos(), Ctx { version: version.0, flexible: is_flexible, classic: false }), old(buf).pos(), final(buf).pos()),
    {
        let start = buf.position();
        let r = Self::decode_ctx(buf, Ctx::new(version, is_flexible));
        if r.is_err() {
            buf.set_position(start);
        }
        r
    }
}

impl KafkaCodec for AclDescription {
    open spec fn spec_encode(m: AclDescriptionModel, ctx: Ctx) -> Result<Seq<u8>, SerializationError> {
        Self::spec_encode_body(m, ctx)
    }

    open spec fn spec_decode(s: Seq<u8>, pos: int, ctx: Ctx) -> Result<(AclDescriptionModel, int), SerializationError> {
        Self::spec_decode_body(s, pos, ctx)
    }

    open spec fn reads_back(v: AclDescriptionModel, ctx: Ctx) -> bool {
        Self::reads_back_body(v, ctx)
    }

    proof fn lemma_read_back(pre: Seq<u8>, v: AclDescriptionModel, post: Seq<u8>, ctx: Ctx) {
        Self::lemma_body_read_back(pre, v, post, ctx);
        assert(Self::spec_decode(pre + Self::spec_encode(v, ctx)->Ok_0 + post, pre.len() as int, ctx)
            == Self::spec_decode_body(pre + Self::spec_encode_body(v, ctx)->Ok_0 + post, pre.len() as int, ctx));
    }

    fn encode_ctx(&self, buf: &mut Vec<u8>, ctx: Ctx) -> (r: Result<(), SerializationError>) {
        let ghost mut w: Seq<u8> = Seq::empty();
        encode_string(&self.principal, buf, ctx.flexible)?;
        proof {
            w = w + (string_bytes(self.principal.deep_view(), ctx.flexible))->Ok_0;
        }
        assert(buf@ =~= old(buf)@ + w);
        encode_string(&self.host, buf, ctx.flexible)?;
        proof {
            w = w + (string_bytes(self.host.deep_view(), ctx.flexible))->Ok_0;
        }
        assert(buf@ =~= old(buf)@ + w);
        put_i8(buf, self.operation);
        proof {
            w = w + i8_bytes(self.operation);
        }
        assert(buf@ =~= old(buf)@ + w);
        put_i8(buf, self.permission_type);
        proof {
            w = w + i8_bytes(self.permission_type);
        }
        assert(buf@ =~= old(buf)@ + w);
        if ctx.flexible {
            encode_unsigned_varint(0, buf);
            proof {
                w = w + uvarint_bytes(0);
            }
            assert(buf@ =~= old(buf)@ + w);
        }
        Ok(())
    }

    fn decode_ctx(buf: &mut Reader, ctx: Ctx) -> (r: Result<Self, SerializationError>) {
        let principal = buf.get_string(ctx.flexible)?;
        let host = buf.get_string(ctx.flexible)?;
        let operation = buf.get_i8()?;
        let permission_type = buf.get_i8()?;
        if ctx.flexible {
            let (_tag_count, _) = decode_unsigned_varint(buf)?;
        }
        Ok(AclDescription { principal, host, operation, permission_type })
    }
}

// -------------------------------------------------------
// DescribeAclsResource
// -------------------------------------------------------
#[derive(Clone, Debug, PartialEq)]
pub struct DescribeAclsResource {
    /// The resource type.
    pub resource_type: i8,
    /// The resource name.
    pub resource_name: String,
    /// The resource pattern type.
    /// Available in version 1+.
    pub pattern_type: i8,
    /// The ACLs.
    pub acls: Vec<AclDescription>,
}

/// The contents of `DescribeAclsResource`, with strings as characters and
/// nested values by their contents.
pub struct DescribeAclsResourceModel {
    pub resource_type: i8,
    pub resource_name: Seq<char>,
    pub pattern_type: i8,
    pub acls: Seq<<AclDescription as DeepView>::V>,
}

impl DeepView for DescribeAclsResource {
    type V = DescribeAclsResourceModel;

    open spec fn deep_view(&self) -> DescribeAclsResourceModel {
        DescribeAclsResourceModel {
            resource_type: self.resource_type,
            resource_name: self.resource_name.deep_view(),
            pattern_type: self.pattern_type,
            acls: self.acls.deep_view(),
        }
    }
}

impl Default for DescribeAclsResource {
    fn default() -> (r: DescribeAclsResource)
        ensures
            r.resource_type == 0i8,
            r.resource_name@.len() == 0,
            r.pattern_type == 3i8,
            r.acls@.len() == 0,
    {
        DescribeAclsResource {
            resource_type: 0i8,
            resource_name: String::new(),
            pattern_type: 3i8,
            acls: Vec::new(),
        }
    }
}

impl DescribeAclsResource {
    /// The encoding of the structure in context `ctx`.
    pub open spec fn spec_encode_body(m: DescribeAclsResourceModel, ctx: Ctx) -> Result<Seq<u8>, SerializationError> {
        let r = Ok(Seq::<u8>::empty());
        let r = then(r, Ok(i8_bytes(m.resource_type)));
        let r = then(r, string_bytes(m.resource_name, ctx.flexible));
        let r = if 1 <= ctx.version { then(r, Ok(i8_bytes(m.pattern_type))) } else { r };
        let r = then(r, array_bytes::<AclDescription>(m.acls, Ctx { version: ctx.version, flexible: ctx.flexible, classic: false }));
        let r = if ctx.flexible { then(r, Ok(uvarint_bytes(0))) } else { r };
        r
    }

    /// The structure read from `s` at `pos` in context `ctx`.
    pub open spec fn spec_decode_body(s: Seq<u8>, pos: int, ctx: Ctx) -> Result<(DescribeAclsResourceModel, int), SerializationError> {
        match parse_i8(s, pos) {
            Err(e) => Err(e),
            Ok((resource_type, pos)) =>
            match parse_string(s, pos, ctx.flexible) {
                Err(e) => Err(e),
                Ok((resource_name, pos)) =>
                match (if 1 <= ctx.version { parse_i8(s, pos) } else { Ok((3i8, pos)) }) {
                    Err(e) => Err(e),
                    Ok((pattern_type, pos)) =>
                    match parse_array::<AclDescription>(s, pos, Ctx { version: ctx.version, flexible: ctx.flexible, classic: false }) {
                        Err(e) => Err(e),
                        Ok((acls, pos)) =>
                        match (if ctx.flexible { parse_uvarint(s, pos) } else { Ok((0u64, pos)) }) {
                            Err(e) => Err(e),
                            Ok((_tag_count, pos)) =>
                            Ok((DescribeAclsResourceModel { resource_type, resource_name, pattern_type, acls }, pos))
                        }
                    }
                }
            }
        }
    }

    /// The structure as it reads back in context `ctx`: each field that the
    /// version leaves out is at its default.
    #[verifier::opaque]
    pub open spec fn spec_read_as(m: DescribeAclsResourceModel, ctx: Ctx) -> DescribeAclsResourceModel {
        DescribeAclsResourceModel { resource_type: m.resource_type, resource_name: m.resource_name, pattern_type: if 1 <= ctx.version { m.pattern_type } else { 3i8 }, acls: m.acls }
    }

    /// Values that read back in context `ctx`: nested values read back. A field
    /// that the version leaves out is read as its default.
    pub open spec fn reads_back_body(m: DescribeAclsResourceModel, ctx: Ctx) -> bool {
        &&& forall|i: int| 0 <= i < m.acls.len() ==> #[trigger] <AclDescription as KafkaCodec>::reads_back(m.acls[i], Ctx { version: ctx.version, flexible: ctx.flexible, classic: false })
    }

    /// A value that can be written in context `ctx` and reads back: decoding its
    /// encoding, wherever it stands, gives the value as `spec_read_as` gives it and
    /// the position just after it.
    #[verifier::spinoff_prover]
    pub proof fn lemma_body_read_back(pre: Seq<u8>, m: DescribeAclsResourceModel, post: Seq<u8>, ctx: Ctx)
        requires
            Self::spec_encode_body(m, ctx) is Ok,
            Self::reads_back_body(m, ctx),
        ensures
            Self::spec_decode_body(pre + Self::spec_encode_body(m, ctx)->Ok_0 + post, pre.len() as int, ctx) == Ok::<(DescribeAclsResourceModel, int), SerializationError>((Self::spec_read_as(m, ctx), pre.len() as int + Self::spec_encode_body(m, ctx)->Ok_0.len())),
    {
        reveal(DescribeAclsResource::spec_read_as);
        let b0 = i8_bytes(m.resource_type);
        let b1 = (string_bytes(m.resource_name, ctx.flexible))->Ok_0;
        let b2 = if 1 <= ctx.version { i8_bytes(m.pattern_type) } else { Seq::<u8>::empty() };
        let b3 = (array_bytes::<AclDescription>(m.acls, Ctx { version: ctx.version, flexible: ctx.flexible, classic: false }))->Ok_0;
        let b4 = if ctx.flexible { uvarint_bytes(0) } else { Seq::<u8>::empty() };
        let t5 = post;
        let t4 = b4 + t5;
        let t3 = b3 + t4;
        let t2 = b2 + t3;
        let t1 = b1 + t2;
        let t0 = b0 + t1;
        let e = Self::spec_encode_body(m, ctx)->Ok_0;
        assert(e =~= Seq::<u8>::empty() + b0 + b1 + b2 + b3 + b4);
        lemma_seq_assoc(((((Seq::<u8>::empty() + b0) + b1) + b2) + b3), b4, post);
        lemma_seq_assoc((((Seq::<u8>::empty() + b0) + b1) + b2), b3, (b4 + post));
        lemma_seq_assoc(((Seq::<u8>::empty() + b0) + b1), b2, (b3 + (b4 + post)));
        lemma_seq_assoc((Seq::<u8>::empty() + b0), b1, (b2 + (b3 + (b4 + post))));
        lemma_seq_assoc(Seq::<u8>::empty(), b0, (b1 + (b2 + (b3 + (b4 + post)))));
        lemma_seq_empty_left((b0 + (b1 + (b2 + (b3 + (b4 + post))))));
        let s = pre + e + post;
        lemma_seq_assoc(pre, e, post);
        assert(s == pre + t0);
        let a0 = pre;
        assert(parse_i8(s, a0.len() as int) == Ok::<(i8, int), SerializationError>((m.resource_type, a0.len() as int + b0.len()))) by {
            lemma_seq_assoc(a0, b0, t1);
            lemma_i8_roundtrip(a0, m.resource_type, t1);
        }
        lemma_seq_assoc(a0, b0, t1);
        let a1 = a0 + b0;
        assert(parse_string(s, a1.len() as int, ctx.flexible) == Ok::<(Seq<char>, int), SerializationError>((m.resource_name, a1.len() as int + b1.len()))) by {
            assert(string_bytes(m.resource_name, ctx.flexible) is Ok);
            lemma_seq_assoc(a1, b1, t2);
            lemma_string_roundtrip(a1, m.resource_name, t2, ctx.flexible);
        }
        lemma_seq_assoc(a1, b1, t2);
        let a2 = a1 + b1;
        if 1 <= ctx.version {
            assert(parse_i8(s, a2.len() as int) == Ok::<(i8, int), SerializationError>((m.pattern_type, a2.len() as int + b2.len()))) by {
                lemma_seq_assoc(a2, b2, t3);
                lemma_i8_roundtrip(a2, m.pattern_type, t3);
            }
        }
        lemma_seq_assoc(a2, b2, t3);
        let a3 = a2 + b2;
        assert(parse_array::<AclDescription>(s, a3.len() as int, Ctx { version: ctx.version, flexible: ctx.flexible, classic: false }) == Ok::<(Seq<<AclDescription as DeepView>::V>, int), SerializationError>((m.acls, a3.len() as int + b3.len()))) by {
            assert(array_bytes::<AclDescription>(m.acls, Ctx { version: ctx.version, flexible: ctx.flexible, classic: false }) is Ok);
            lemma_seq_assoc(a3, b3, t4);
            lemma_items_read_back::<AclDescription>(m.acls, Ctx { version: ctx.version, flexible: ctx.flexible, classic: false });
            lemma_array_roundtrip::<AclDescription>(a3, m.acls, t4, Ctx { version: ctx.version, flexible: ctx.flexible, classic: false });
        }
        lemma_seq_assoc(a3, b3, t4);
        let a4 = a3 + b3;
        if ctx.flexible {
            assert(parse_uvarint(s, a4.len() as int) == Ok::<(u64, int), SerializationError>((0u64, a4.len() as int + b4.len()))) by {
                lemma_seq_assoc(a4, b4, t5);
                lemma_uvarint_roundtrip(a4, 0, t5);
            }
        }
    }

    /// The bytes written: the encoding of each field, in the order of the
    /// protocol's layout. Reading them back, wherever they stand, gives the value,
    /// with each field that the version leaves out at its default.
    #[verifier::spinoff_prover]
    pub proof fn lemma_body_layout(pre: Seq<u8>, m: DescribeAclsResourceModel, post: Seq<u8>, ctx: Ctx)
        requires
            Self::spec_encode_body(m, ctx) is Ok,
        ensures
            Self::spec_encode_body(m, ctx) == Ok::<Seq<u8>, SerializationError>((i8_bytes(m.resource_type)) + ((string_bytes(m.resource_name, ctx.flexible))->Ok_0) + (if 1 <= ctx.version { i8_bytes(m.pattern_type) } else { Seq::<u8>::empty() }) + ((array_bytes::<AclDescription>(m.acls, Ctx { version: ctx.version, flexible: ctx.flexible, classic: false }))->Ok_0) + (if ctx.flexible { uvarint_bytes(0) } else { Seq::<u8>::empty() })),
            Self::reads_back_body(m, ctx) ==> Self::spec_decode_body(pre + ((i8_bytes(m.resource_type)) + ((string_bytes(m.resource_name, ctx.flexible))->Ok_0) + (if 1 <= ctx.version { i8_bytes(m.pattern_type) } else { Seq::<u8>::empty() }) + ((array_bytes::<AclDescription>(m.acls, Ctx { version: ctx.version, flexible: ctx.flexible, classic: false }))->Ok_0) + (if ctx.flexible { uvarint_bytes(0) } else { Seq::<u8>::empty() })) + post, pre.len() as int, ctx) == Ok::<(DescribeAclsResourceModel, int), SerializationError>((DescribeAclsResourceModel { resource_type: m.resource_type, resource_name: m.resource_name, pattern_type: if 1 <= ctx.version { m.pattern_type } else { 3i8 }, acls: m.acls }, pre.len() as int + ((i8_bytes(m.resource_type)) + ((string_bytes(m.resource_name, ctx.flexible))->Ok_0) + (if 1 <= ctx.version { i8_bytes(m.pattern_type) } else { Seq::<u8>::empty() }) + ((array_bytes::<AclDescription>(m.acls, Ctx { version: ctx.version, flexible: ctx.flexible, classic: false }))->Ok_0) + (if ctx.flexible { uvarint_bytes(0) } else { Seq::<u8>::empty() })).len())),
    {
        let b0 = i8_bytes(m.resource_type);
        let b1 = (string_bytes(m.resource_name, ctx.flexible))->Ok_0;
        let b2 = if 1 <= ctx.version { i8_bytes(m.pattern_type) } else { Seq::<u8>::empty() };
        let b3 = (array_bytes::<AclDescription>(m.acls, Ctx { version: ctx.version, flexible: ctx.flexible, classic: false }))->Ok_0;
        let b4 = if ctx.flexible { uvarint_bytes(0) } else { Seq::<u8>::empty() };
        let e = Self::spec_encode_body(m, ctx)->Ok_0;
        assert(e =~= Seq::<u8>::empty() + b0 + b1 + b2 + b3 + b4);
        assert(e =~= b0 + b1 + b2 + b3 + b4);
        if Self::reads_back_body(m, ctx) {
            Self::lemma_body_read_back(pre, m, post, ctx);
            reveal(DescribeAclsResource::spec_read_as);
        }
    }

    /// Writing succeeds exactly when every field that the version carries can be
    /// encoded and every field that it leaves out, where leaving it out is an
    /// error, holds its default.
    #[verifier::spinoff_prover]
    pub proof fn lemma_body_write_succeeds(m: DescribeAclsResourceModel, ctx: Ctx)
        ensures
            Self::spec_encode_body(m, ctx) is Ok <==> (string_bytes(m.resource_name, ctx.flexible) is Ok) && (array_bytes::<AclDescription>(m.acls, Ctx { version: ctx.version, flexible: ctx.flexible, classic: false }) is Ok),
    {
    }

    /// Writes the structure for `version`, with the compact encodings when `is_flexible`.
    /// On failure the buffer is left as it was.
    pub fn encode(&self, buf: &mut Vec<u8>, version: ApiVersion, is_flexible: bool) -> (r: Result<(), SerializationError>)
        ensures
            write_exact(r, old(buf)@, final(buf)@, Self::spec_encode_body(self.deep_view(), Ctx { version: version.0, flexible: is_flexible, classic: false })),
    {
        let start = buf.len();
        let r = self.encode_ctx(buf, Ctx::new(version, is_flexible));
        if r.is_err() {
            buf.truncate(start);
        }
        r
    }

    /// Reads the structure as written for `version`.
    /// On failure the reader is put back where it started.
    pub fn decode(buf: &mut Reader, version: ApiVersion, is_flexible: bool) -> (r: Result<Self, SerializationError>)
        ensures
            final(buf).bytes() == old(buf).bytes(),
            read_view_exact(r, Self::spec_decode_body(old(buf).bytes(), old(buf).pos(), Ctx { version: version.0, flexible: is_flexible, classic: false }), old(buf).pos(), final(buf).pos()),
    {
        let start = buf.position();
        let r = Self::decode_ctx(buf, Ctx::new(version, is_flexible));
        if r.is_err() {
            buf.set_position(start);
        }
        r
    }
}

impl KafkaCodec for DescribeAclsResource {
    open spec fn spec_encode(m: DescribeAclsResourceModel, ctx: Ctx) -> Result<Seq<u8>, SerializationError> {
        Self::spec_encode_body(m, ctx)
    }

    open spec fn spec_decode(s: Seq<u8>, pos: int, ctx: Ctx) -> Result<(DescribeAclsResourceModel, int), SerializationError> {
        Self::spec_decode_body(s, pos, ctx)
    }

    open spec fn reads_back(v: DescribeAclsResourceModel, ctx: Ctx) -> bool {
        Self::reads_back_body(v, ctx) && Self::spec_read_as(v, ctx) == v
    }

    proof fn lemma_read_back(pre: Seq<u8>, v: DescribeAclsResourceModel, post: Seq<u8>, ctx: Ctx) {
        Self::lemma_body_read_back(pre, v, post, ctx);
        assert(Self::spec_decode(pre + Self::spec_encode(v, ctx)->Ok_0 + post, pre.len() as int, ctx)
            == Self::spec_decode_body(pre + Self::spec_encode_body(v, ctx)->Ok_0 + post, pre.len() as int, ctx));
    }

    fn encode_ctx(&self, buf: &mut Vec<u8>, ctx: Ctx) -> (r: Result<(), SerializationError>) {
        let ghost mut w: Seq<u8> = Seq::empty();
        put_i8(buf, self.resource_type);
        proof {
            w = w + i8_bytes(self.resource_type);
        }
        assert(buf@ =~= old(buf)@ + w);
        encode_string(&self.resource_name, buf, ctx.flexible)?;
        proof {
            w = w + (string_bytes(self.resource_name.deep_view(), ctx.flexible))->Ok_0;
        }
        assert(buf@ =~= old(buf)@ + w);
        if 1 <= ctx.version {
            put_i8(buf, self.pattern_type);
            proof {
                w = w + i8_bytes(self.pattern_type);
            }
            assert(buf@ =~= old(buf)@ + w);
        }
        encode_array(&self.acls, buf, Ctx { version: ctx.version, flexible: ctx.flexible, classic: false })?;
        proof {
            w = w + (array_bytes::<AclDescription>(self.acls.deep_view(), Ctx { version: ctx.version, flexible: ctx.flexible, classic: false }))->Ok_0;
        }
        assert(buf@ =~= old(buf)@ + w);
        if ctx.flexible {
            encode_unsigned_varint(0, buf);
            proof {
                w = w + uvarint_bytes(0);
            }
            assert(buf@ =~= old(buf)@ + w);
        }
        Ok(())
    }

    fn decode_ctx(buf: &mut Reader, ctx: Ctx) -> (r: Result<Self, SerializationError>) {
        let resource_type = buf.get_i8()?;
        let resource_name = buf.get_string(ctx.flexible)?;
        let pattern_type = if 1 <= ctx.version {
            buf.get_i8()?
        } else {
            3i8
        };
        let acls = decode_array::<AclDescription>(buf, Ctx { version: ctx.version, flexible: ctx.flexible, classic: false })?;
        if ctx.flexible {
            let (_tag_count, _) = decode_unsigned_varint(buf)?;
        }
        Ok(DescribeAclsResource { resource_type, resource_name, pattern_type, acls })
    }
}

} // verus!
