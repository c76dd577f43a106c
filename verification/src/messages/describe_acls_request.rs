//! DescribeAclsRequest (API key 29).
use vstd::prelude::*;
use crate::roundtrip::{lemma_i8_roundtrip, lemma_nullable_string_roundtrip, lemma_seq_assoc,
    lemma_seq_empty_left, lemma_uvarint_roundtrip};
use crate::serialization::{Ctx, KafkaCodec, Reader, SerializationError, decode_unsigned_varint,
    encode_nullable_string, encode_unsigned_varint, i8_bytes, nullable_string_bytes, parse_i8,
    parse_nullable_string, parse_uvarint, put_i8, read_view_exact, read_view_ok, then,
    uvarint_bytes, write_exact, write_ok};
use crate::{ApiKey, ApiVersion};

verus! {

// -------------------------------------------------------
// DescribeAclsRequest
// -------------------------------------------------------
#[derive(Clone, Debug, Default, PartialEq)]
pub struct DescribeAclsRequest {
    /// The resource type.
    pub resource_type_filter: i8,
    /// The resource name, or null to match any resource name.
    pub resource_name_filter: Option<String>,
    /// The resource pattern to match.
    /// Available in version 1+.
    pub pattern_type_filter: i8,
    /// The principal to match, or null to match any principal.
    pub principal_filter: Option<String>,
    /// The host to match, or null to match any host.
    pub host_filter: Option<String>,
    /// The operation to match.
    pub operation: i8,
    /// The permission type to match.
    pub permission_type: i8,
}

/// The contents of `DescribeAclsRequest`, with strings as characters and
/// nested values by their contents.
pub struct DescribeAclsRequestModel {
    pub resource_type_filter: i8,
    pub resource_name_filter: Option<Seq<char>>,
    pub pattern_type_filter: i8,
    pub principal_filter: Option<Seq<char>>,
    pub host_filter: Option<Seq<char>>,
    pub operation: i8,
    pub permission_type: i8,
}

impl DeepView for DescribeAclsRequest {
    type V = DescribeAclsRequestModel;

    open spec fn deep_view(&self) -> DescribeAclsRequestModel {
        DescribeAclsRequestModel {
            resource_type_filter: self.resource_type_filter,
            resource_name_filter: self.resource_name_filter.deep_view(),
            pattern_type_filter: self.pattern_type_filter,
            principal_filter: self.principal_filter.deep_view(),
            host_filter: self.host_filter.deep_view(),
            operation: self.operation,
            permission_type: self.permission_type,
        }
    }
}

impl DescribeAclsRequest {
    /// Fields 1 to 5 of the encoding.
    pub open spec fn spec_encode_body_part1(m: DescribeAclsRequestModel, ctx: Ctx) -> Result<Seq<u8>, SerializationError> {
        let r = Ok(Seq::<u8>::empty());
        let r = then(r, Ok(i8_bytes(m.resource_type_filter)));
        let r = then(r, nullable_string_bytes(m.resource_name_filter, ctx.flexible));
        let r = if 1 <= ctx.version { then(r, Ok(i8_bytes(m.pattern_type_filter))) } else { r };
        let r = then(r, nullable_string_bytes(m.principal_filter, ctx.flexible));
        let r = then(r, nullable_string_bytes(m.host_filter, ctx.flexible));
        r
    }

    #[verifier::spinoff_prover]
    fn encode_body_part1(&self, buf: &mut Vec<u8>, ctx: Ctx) -> (r: Result<(), SerializationError>)
        ensures
            write_ok(r, old(buf)@, final(buf)@, Self::spec_encode_body_part1(self.deep_view(), ctx)),
    {
        let ghost mut w: Seq<u8> = Seq::empty();
        put_i8(buf, self.resource_type_filter);
        proof {
            w = w + i8_bytes(self.resource_type_filter);
        }
        assert(buf@ =~= old(buf)@ + w);
        encode_nullable_string(&self.resource_name_filter, buf, ctx.flexible)?;
        proof {
            w = w + (nullable_string_bytes(self.resource_name_filter.deep_view(), ctx.flexible))->Ok_0;
        }
        assert(buf@ =~= old(buf)@ + w);
        if 1 <= ctx.version {
            put_i8(buf, self.pattern_type_filter);
            proof {
                w = w + i8_bytes(self.pattern_type_filter);
            }
            assert(buf@ =~= old(buf)@ + w);
        }
        encode_nullable_string(&self.principal_filter, buf, ctx.flexible)?;
        proof {
            w = w + (nullable_string_bytes(self.principal_filter.deep_view(), ctx.flexible))->Ok_0;
        }
        assert(buf@ =~= old(buf)@ + w);
        encode_nullable_string(&self.host_filter, buf, ctx.flexible)?;
        proof {
            w = w + (nullable_string_bytes(self.host_filter.deep_view(), ctx.flexible))->Ok_0;
        }
        assert(buf@ =~= old(buf)@ + w);
        Ok(())
    }

    /// Fields 6 to 8 of the encoding.
    pub open spec fn spec_encode_body_part2(m: DescribeAclsRequestModel, ctx: Ctx) -> Result<Seq<u8>, SerializationError> {
        let r = Ok(Seq::<u8>::empty());
        let r = then(r, Ok(i8_bytes(m.operation)));
        let r = then(r, Ok(i8_bytes(m.permission_type)));
        let r = if ctx.flexible { then(r, Ok(uvarint_bytes(0))) } else { r };
        r
    }

    #[verifier::spinoff_prover]
    fn encode_body_part2(&self, buf: &mut Vec<u8>, ctx: Ctx) -> (r: Result<(), SerializationError>)
        ensures
            write_ok(r, old(buf)@, final(buf)@, Self::spec_encode_body_part2(self.deep_view(), ctx)),
    {
        let ghost mut w: Seq<u8> = Seq::empty();
        put_i8(buf, self.operation);
        proof {
            w = w + i8_bytes(self.operation);
        }
        assert(buf@ =~= old(buf)@ + w);
        put_i8(buf, self.permission_type);
        proof {
            w = w + i8_bytes(self.permission_type);
        }
        assert(buf@ =~= old(buf)@ + w);
        if ctx.flexible {
            encode_unsigned_varint(0, buf);
            proof {
                w = w + uvarint_bytes(0);
            }
            assert(buf@ =~= old(buf)@ + w);
        }
        Ok(())
    }

    /// The encoding of the structure in context `ctx`.
    pub open spec fn spec_encode_body(m: DescribeAclsRequestModel, ctx: Ctx) -> Result<Seq<u8>, SerializationError> {
        let r = Ok(Seq::<u8>::empty());
        let r = then(r, Self::spec_encode_body_part1(m, ctx));
        let r = then(r, Self::spec_encode_body_part2(m, ctx));
        r
    }

    /// The structure read from `s` at `pos` in context `ctx`.
    pub open spec fn spec_decode_body(s: Seq<u8>, pos: int, ctx: Ctx) -> Result<(DescribeAclsRequestModel, int), SerializationError> {
        match parse_i8(s, pos) {
            Err(e) => Err(e),
            Ok((resource_type_filter, pos)) =>
            match parse_nullable_string(s, pos, ctx.flexible) {
                Err(e) => Err(e),
                Ok((resource_name_filter, pos)) =>
                match (if 1 <= ctx.version { parse_i8(s, pos) } else { Ok((0i8, pos)) }) {
                    Err(e) => Err(e),
                    Ok((pattern_type_filter, pos)) =>
                    match parse_nullable_string(s, pos, ctx.flexible) {
                        Err(e) => Err(e),
                        Ok((principal_filter, pos)) =>
                        match parse_nullable_string(s, pos, ctx.flexible) {
                            Err(e) => Err(e),
                            Ok((host_filter, pos)) =>
                            match parse_i8(s, pos) {
                                Err(e) => Err(e),
                                Ok((operation, pos)) =>
                                match parse_i8(s, pos) {
                                    Err(e) => Err(e),
                                    Ok((permission_type, pos)) =>
                                    match (if ctx.flexible { parse_uvarint(s, pos) } else { Ok((0u64, pos)) }) {
                                        Err(e) => Err(e),
                                        Ok((_tag_count, pos)) =>
                                        Ok((DescribeAclsRequestModel { resource_type_filter, resource_name_filter, pattern_type_filter, principal_filter, host_filter, operation, permission_type }, pos))
                                    }
                                }
                            }
                        }
                    }
                }
            }
        }
    }

    /// The structure as it reads back in context `ctx`: each field that the
    /// version leaves out is at its default.
    #[verifier::opaque]
    pub open spec fn spec_read_as(m: DescribeAclsRequestModel, ctx: Ctx) -> DescribeAclsRequestModel {
        DescribeAclsRequestModel { resource_type_filter: m.resource_type_filter, resource_name_filter: m.resource_name_filter, pattern_type_filter: if 1 <= ctx.version { m.pattern_type_filter } else { 0i8 }, principal_filter: m.principal_filter, host_filter: m.host_filter, operation: m.operation, permission_type: m.permission_type }
    }

    /// Values that read back in context `ctx`: nested values read back. A field
    /// that the version leaves out is read as its default.
    pub open spec fn reads_back_body(m: DescribeAclsRequestModel, ctx: Ctx) -> bool {
        true
    }

    /// A value that can be written in context `ctx` and reads back: decoding its
    /// encoding, wherever it stands, gives the value as `spec_read_as` gives it and
    /// the position just after it.
    #[verifier::spinoff_prover]
    pub proof fn lemma_body_read_back(pre: Seq<u8>, m: DescribeAclsRequestModel, post: Seq<u8>, ctx: Ctx)
        requires
            Self::spec_encode_body(m, ctx) is Ok,
            Self::reads_back_body(m, ctx),
        ensures
            Self::spec_decode_body(pre + Self::spec_encode_body(m, ctx)->Ok_0 + post, pre.len() as int, ctx) == Ok::<(DescribeAclsRequestModel, int), SerializationError>((Self::spec_read_as(m, ctx), pre.len() as int + Self::spec_encode_body(m, ctx)->Ok_0.len())),
    {
        reveal(DescribeAclsRequest::spec_read_as);
        let b0 = i8_bytes(m.resource_type_filter);
        let b1 = (nullable_string_bytes(m.resource_name_filter, ctx.flexible))->Ok_0;
        let b2 = if 1 <= ctx.version { i8_bytes(m.pattern_type_filter) } else { Seq::<u8>::empty() };
        let b3 = (nullable_string_bytes(m.principal_filter, ctx.flexible))->Ok_0;
        let b4 = (nullable_string_bytes(m.host_filter, ctx.flexible))->Ok_0;
        let b5 = i8_bytes(m.operation);
        let b6 = i8_bytes(m.permission_type);
        let b7 = if ctx.flexible { uvarint_bytes(0) } else { Seq::<u8>::empty() };
        let t8 = post;
        let t7 = b7 + t8;
        let t6 = b6 + t7;
        let t5 = b5 + t6;
        let t4 = b4 + t5;
        let t3 = b3 + t4;
        let t2 = b2 + t3;
        let t1 = b1 + t2;
        let t0 = b0 + t1;
        let e = Self::spec_encode_body(m, ctx)->Ok_0;
        let p1 = Self::spec_encode_body_part1(m, ctx)->Ok_0;
        assert(p1 =~= Seq::<u8>::empty() + b0 + b1 + b2 + b3 + b4);
        lemma_seq_assoc(((((Seq::<u8>::empty() + b0) + b1) + b2) + b3), b4, t5);
        lemma_seq_assoc((((Seq::<u8>::empty() + b0) + b1) + b2), b3, (b4 + t5));
        lemma_seq_assoc(((Seq::<u8>::empty() + b0) + b1), b2, (b3 + (b4 + t5)));
        lemma_seq_assoc((Seq::<u8>::empty() + b0), b1, (b2 + (b3 + (b4 + t5))));
        lemma_seq_assoc(Seq::<u8>::empty(), b0, (b1 + (b2 + (b3 + (b4 + t5)))));
        lemma_seq_empty_left((b0 + (b1 + (b2 + (b3 + (b4 + t5))))));
        let p2 = Self::spec_encode_body_part2(m, ctx)->Ok_0;
        assert(p2 =~= Seq::<u8>::empty() + b5 + b6 + b7);
        lemma_seq_assoc(((Seq::<u8>::empty() + b5) + b6), b7, t8);
        lemma_seq_assoc((Seq::<u8>::empty() + b5), b6, (b7 + t8));
        lemma_seq_assoc(Seq::<u8>::empty(), b5, (b6 + (b7 + t8)));
        lemma_seq_empty_left((b5 + (b6 + (b7 + t8))));
        assert(e == Seq::<u8>::empty() + p1 + p2);
        lemma_seq_assoc((Seq::<u8>::empty() + p1), p2, t8);
        lemma_seq_assoc(Seq::<u8>::empty(), p1, (p2 + t8));
        lemma_seq_empty_left((p1 + (p2 + t8)));
        let s = pre + e + post;
        lemma_seq_assoc(pre, e, post);
        assert(s == pre + t0);
        let a0 = pre;
        assert(parse_i8(s, a0.len() as int) == Ok::<(i8, int), SerializationError>((m.resource_type_filter, a0.len() as int + b0.len()))) by {
            lemma_seq_assoc(a0, b0, t1);
            lemma_i8_roundtrip(a0, m.resource_type_filter, t1);
        }
        lemma_seq_assoc(a0, b0, t1);
        let a1 = a0 + b0;
        assert(parse_nullable_string(s, a1.len() as int, ctx.flexible) == Ok::<(Option<Seq<char>>, int), SerializationError>((m.resource_name_filter, a1.len() as int + b1.len()))) by {
            assert(nullable_string_bytes(m.resource_name_filter, ctx.flexible) is Ok);
            lemma_seq_assoc(a1, b1, t2);
            lemma_nullable_string_roundtrip(a1, m.resource_name_filter, t2, ctx.flexible);
        }
        lemma_seq_assoc(a1, b1, t2);
        let a2 = a1 + b1;
        if 1 <= ctx.version {
            assert(parse_i8(s, a2.len() as int) == Ok::<(i8, int), SerializationError>((m.pattern_type_filter, a2.len() as int + b2.len()))) by {
                lemma_seq_assoc(a2, b2, t3);
                lemma_i8_roundtrip(a2, m.pattern_type_filter, t3);
            }
        }
        lemma_seq_assoc(a2, b2, t3);
        let a3 = a2 + b2;
        assert(parse_nullable_string(s, a3.len() as int, ctx.flexible) == Ok::<(Option<Seq<char>>, int), SerializationError>((m.principal_filter, a3.len() as int + b3.len()))) by {
            assert(nullable_string_bytes(m.principal_filter, ctx.flexible) is Ok);
            lemma_seq_assoc(a3, b3, t4);
            lemma_nullable_string_roundtrip(a3, m.principal_filter, t4, ctx.flexible);
        }
        lemma_seq_assoc(a3, b3, t4);
        let a4 = a3 + b3;
        assert(parse_nullable_string(s, a4.len() as int, ctx.flexible) == Ok::<(Option<Seq<char>>, int), SerializationError>((m.host_filter, a4.len() as int + b4.len()))) by {
            assert(nullable_string_bytes(m.host_filter, ctx.flexible) is Ok);
            lemma_seq_assoc(a4, b4, t5);
            lemma_nullable_string_roundtrip(a4, m.host_filter, t5, ctx.flexible);
        }
        lemma_seq_assoc(a4, b4, t5);
        let a5 = a4 + b4;
        assert(parse_i8(s, a5.len() as int) == Ok::<(i8, int), SerializationError>((m.operation, a5.len() as int + b5.len()))) by {
            lemma_seq_assoc(a5, b5, t6);
            lemma_i8_roundtrip(a5, m.operation, t6);
        }
        lemma_seq_assoc(a5, b5, t6);
        let a6 = a5 + b5;
        assert(parse_i8(s, a6.len() as int) == Ok::<(i8, int), SerializationError>((m.permission_type, a6.len() as int + b6.len()))) by {
            lemma_seq_assoc(a6, b6, t7);
            lemma_i8_roundtrip(a6, m.permission_type, t7);
        }
        lemma_seq_assoc(a6, b6, t7);
        let a7 = a6 + b6;
        if ctx.flexible {
            assert(parse_uvarint(s, a7.len() as int) == Ok::<(u64, int), SerializationError>((0u64, a7.len() as int + b7.len()))) by {
                lemma_seq_assoc(a7, b7, t8);
                lemma_uvarint_roundtrip(a7, 0, t8);
            }
        }
    }

    /// The bytes written: the encoding of each field, in the order of the
    /// protocol's layout. Reading them back, wherever they stand, gives the value,
    /// with each field that the version leaves out at its default.
    #[verifier::spinoff_prover]
    pub proof fn lemma_body_layout(pre: Seq<u8>, m: DescribeAclsRequestModel, post: Seq<u8>, ctx: Ctx)
        requires
            Self::spec_encode_body(m, ctx) is Ok,
        ensures
            Self::spec_encode_body(m, ctx) == Ok::<Seq<u8>, SerializationError>((i8_bytes(m.resource_type_filter)) + ((nullable_string_bytes(m.resource_name_filter, ctx.flexible))->Ok_0) + (if 1 <= ctx.version { i8_bytes(m.pattern_type_filter) } else { Seq::<u8>::empty() }) + ((nullable_string_bytes(m.principal_filter, ctx.flexible))->Ok_0) + ((nullable_string_bytes(m.host_filter, ctx.flexible))->Ok_0) + (i8_bytes(m.operation)) + (i8_bytes(m.permission_type)) + (if ctx.flexible { uvarint_bytes(0) } else { Seq::<u8>::empty() })),
            Self::reads_back_body(m, ctx) ==> Self::spec_decode_body(pre + ((i8_bytes(m.resource_type_filter)) + ((nullable_string_bytes(m.resource_name_filter, ctx.flexible))->Ok_0) + (if 1 <= ctx.version { i8_bytes(m.pattern_type_filter) } else { Seq::<u8>::empty() }) + ((nullable_string_bytes(m.principal_filter, ctx.flexible))->Ok_0) + ((nullable_string_bytes(m.host_filter, ctx.flexible))->Ok_0) + (i8_bytes(m.operation)) + (i8_bytes(m.permission_type)) + (if ctx.flexible { uvarint_bytes(0) } else { Seq::<u8>::empty() })) + post, pre.len() as int, ctx) == Ok::<(DescribeAclsRequestModel, int), SerializationError>((DescribeAclsRequestModel { resource_type_filter: m.resource_type_filter, resource_name_filter: m.resource_name_filter, pattern_type_filter: if 1 <= ctx.version { m.pattern_type_filter } else { 0i8 }, principal_filter: m.principal_filter, host_filter: m.host_filter, operation: m.operation, permission_type: m.permission_type }, pre.len() as int + ((i8_bytes(m.resource_type_filter)) + ((nullable_string_bytes(m.resource_name_filter, ctx.flexible))->Ok_0) + (if 1 <= ctx.version { i8_bytes(m.pattern_type_filter) } else { Seq::<u8>::empty() }) + ((nullable_string_bytes(m.principal_filter, ctx.flexible))->Ok_0) + ((nullable_string_bytes(m.host_filter, ctx.flexible))->Ok_0) + (i8_bytes(m.operation)) + (i8_bytes(m.permission_type)) + (if ctx.flexible { uvarint_bytes(0) } else { Seq::<u8>::empty() })).len())),
    {
        let b0 = i8_bytes(m.resource_type_filter);
        let b1 = (nullable_string_bytes(m.resource_name_filter, ctx.flexible))->Ok_0;
        let b2 = if 1 <= ctx.version { i8_bytes(m.pattern_type_filter) } else { Seq::<u8>::empty() };
        let b3 = (nullable_string_bytes(m.principal_filter, ctx.flexible))->Ok_0;
        let b4 = (nullable_string_bytes(m.host_filter, ctx.flexible))->Ok_0;
        let b5 = i8_bytes(m.operation);
        let b6 = i8_bytes(m.permission_type);
        let b7 = if ctx.flexible { uvarint_bytes(0) } else { Seq::<u8>::empty() };
        let e = Self::spec_encode_body(m, ctx)->Ok_0;
        let p1 = Self::spec_encode_body_part1(m, ctx)->Ok_0;
        assert(p1 =~= Seq::<u8>::empty() + b0 + b1 + b2 + b3 + b4);
        let p2 = Self::spec_encode_body_part2(m, ctx)->Ok_0;
        assert(p2 =~= Seq::<u8>::empty() + b5 + b6 + b7);
        assert(e == Seq::<u8>::empty() + p1 + p2);
        assert(e =~= b0 + b1 + b2 + b3 + b4 + b5 + b6 + b7);
        if Self::reads_back_body(m, ctx) {
            Self::lemma_body_read_back(pre, m, post, ctx);
            reveal(DescribeAclsRequest::spec_read_as);
        }
    }

    /// Writing succeeds exactly when every field that the version carries can be
    /// encoded and every field that it leaves out, where leaving it out is an
    /// error, holds its default.
    #[verifier::spinoff_prover]
    pub proof fn lemma_body_write_succeeds(m: DescribeAclsRequestModel, ctx: Ctx)
        ensures
            Self::spec_encode_body(m, ctx) is Ok <==> (nullable_string_bytes(m.resource_name_filter, ctx.flexible) is Ok) && (nullable_string_bytes(m.principal_filter, ctx.flexible) is Ok) && (nullable_string_bytes(m.host_filter, ctx.flexible) is Ok),
    {
    }

    /// Writes the structure for `version`, with the compact encodings when `is_flexible`.
    /// On failure the buffer is left as it was.
    pub fn encode(&self, buf: &mut Vec<u8>, version: ApiVersion, is_flexible: bool) -> (r: Result<(), SerializationError>)
        ensures
            write_exact(r, old(buf)@, final(buf)@, Self::spec_encode_body(self.deep_view(), Ctx { version: version.0, flexible: is_flexible, classic: false })),
    {
        let start = buf.len();
        let r = self.encode_ctx(buf, Ctx::new(version, is_flexible));
        if r.is_err() {
            buf.truncate(start);
        }
        r
    }

    /// Reads the structure as written for `version`.
    /// On failure the reader is put back where it started.
    #[verifier::spinoff_prover]
    pub fn decode(buf: &mut Reader, version: ApiVersion, is_flexible: bool) -> (r: Result<Self, SerializationError>)
        ensures
            final(buf).bytes() == old(buf).bytes(),
            read_view_exact(r, Self::spec_decode_body(old(buf).bytes(), old(buf).pos(), Ctx { version: version.0, flexible: is_flexible, classic: false }), old(buf).pos(), final(buf).pos()),
    {
        let start = buf.position();
        let r = Self::decode_ctx(buf, Ctx::new(version, is_flexible));
        if r.is_err() {
            buf.set_position(start);
        }
        r
    }
}

impl KafkaCodec for DescribeAclsRequest {
    open spec fn spec_encode(m: DescribeAclsRequestModel, ctx: Ctx) -> Result<Seq<u8>, SerializationError> {
        Self::spec_encode_body(m, ctx)
    }

    open spec fn spec_decode(s: Seq<u8>, pos: int, ctx: Ctx) -> Result<(DescribeAclsRequestModel, int), SerializationError> {
        Self::spec_decode_body(s, pos, ctx)
    }

    open spec fn reads_back(v: DescribeAclsRequestModel, ctx: Ctx) -> bool {
        Self::reads_back_body(v, ctx) && Self::spec_read_as(v, ctx) == v
    }

    proof fn lemma_read_back(pre: Seq<u8>, v: DescribeAclsRequestModel, post: Seq<u8>, ctx: Ctx) {
        Self::lemma_body_read_back(pre, v, post, ctx);
        assert(Self::spec_decode(pre + Self::spec_encode(v, ctx)->Ok_0 + post, pre.len() as int, ctx)
            == Self::spec_decode_body(pre + Self::spec_encode_body(v, ctx)->Ok_0 + post, pre.len() as int, ctx));
    }

    #[verifier::spinoff_prover]
    fn encode_ctx(&self, buf: &mut Vec<u8>, ctx: Ctx) -> (r: Result<(), SerializationError>) {
        let ghost mut w: Seq<u8> = Seq::empty();
        self.encode_body_part1(buf, ctx)?;
        proof {
            w = w + (Self::spec_encode_body_part1(self.deep_view(), ctx))->Ok_0;
        }
        assert(buf@ =~= old(buf)@ + w);
        self.encode_body_part2(buf, ctx)?;
        proof {
            w = w + (Self::spec_encode_body_part2(self.deep_view(), ctx))->Ok_0;
        }
        assert(buf@ =~= old(buf)@ + w);
        Ok(())
    }

    #[verifier::spinoff_prover]
    fn decode_ctx(buf: &mut Reader, ctx: Ctx) -> (r: Result<Self, SerializationError>) {
        let resource_type_filter = buf.get_i8()?;
        let resource_name_filter = buf.get_nullable_string(ctx.flexible)?;
        let pattern_type_filter = if 1 <= ctx.version {
            buf.get_i8()?
        } else {
            0i8
        };
        let principal_filter = buf.get_nullable_string(ctx.flexible)?;
        let host_filter = buf.get_nullable_string(ctx.flexible)?;
        let operation = buf.get_i8()?;
        let permission_type = buf.get_i8()?;
        if ctx.flexible {
            let (_tag_count, _) = decode_unsigned_varint(buf)?;
        }
        Ok(DescribeAclsRequest { resource_type_filter, resource_name_filter, pattern_type_filter, principal_filter, host_filter, operation, permission_type })
    }
}

impl DescribeAclsRequest {
    /// The API key of this message.
    pub fn get_api_key() -> (r: ApiKey)
        ensures
            r.0 == 29,
    {
        ApiKey::new(29)
    }

    /// The oldest version of this message.
    pub fn get_min_supported_version() -> (r: ApiVersion)
        ensures
            r.0 == 1,
    {
        ApiVersion::new(1)
    }

    /// The newest version of this message.
    pub fn get_max_supported_version() -> (r: ApiVersion)
        ensures
            r.0 == 3,
    {
        ApiVersion::new(3)
    }

    /// The first version of this message with the compact encodings.
    pub fn get_min_flexible_version() -> (r: ApiVersion)
        ensures
            r.0 == 2,
    {
        ApiVersion::new(2)
    }

    /// Fields 1 to 5 of the encoding.
    pub open spec fn spec_serialize_part1(m: DescribeAclsRequestModel, ctx: Ctx) -> Result<Seq<u8>, SerializationError> {
        let r = Ok(Seq::<u8>::empty());
        let r = then(r, Ok(i8_bytes(m.resource_type_filter)));
        let r = then(r, nullable_string_bytes(m.resource_name_filter, ctx.flexible));
        let r = if 1 <= ctx.version { then(r, Ok(i8_bytes(m.pattern_type_filter))) } else if m.pattern_type_filter != 0 { then(r, Err(SerializationError::FieldNotAvailable { field: "PatternTypeFilter", version: ctx.version, api_name: "DescribeAclsRequest" })) } else { r };
        let r = then(r, nullable_string_bytes(m.principal_filter, ctx.flexible));
        let r = then(r, nullable_string_bytes(m.host_filter, ctx.flexible));
        r
    }

    #[verifier::spinoff_prover]
    fn serialize_part1(&self, buf: &mut Vec<u8>, ctx: Ctx) -> (r: Result<(), SerializationError>)
        ensures
            write_ok(r, old(buf)@, final(buf)@, Self::spec_serialize_part1(self.deep_view(), ctx)),
    {
        let ghost mut w: Seq<u8> = Seq::empty();
        put_i8(buf, self.resource_type_filter);
        proof {
            w = w + i8_bytes(self.resource_type_filter);
        }
        assert(buf@ =~= old(buf)@ + w);
        encode_nullable_string(&self.resource_name_filter, buf, ctx.flexible)?;
        proof {
            w = w + (nullable_string_bytes(self.resource_name_filter.deep_view(), ctx.flexible))->Ok_0;
        }
        assert(buf@ =~= old(buf)@ + w);
        if 1 <= ctx.version {
            put_i8(buf, self.pattern_type_filter);
            proof {
                w = w + i8_bytes(self.pattern_type_filter);
            }
            assert(buf@ =~= old(buf)@ + w);
        } else if self.pattern_type_filter != 0 {
            return Err(SerializationError::FieldNotAvailable { field: "PatternTypeFilter", version: ctx.version, api_name: "DescribeAclsRequest" });
        }
        encode_nullable_string(&self.principal_filter, buf, ctx.flexible)?;
        proof {
            w = w + (nullable_string_bytes(self.principal_filter.deep_view(), ctx.flexible))->Ok_0;
        }
        assert(buf@ =~= old(buf)@ + w);
        encode_nullable_string(&self.host_filter, buf, ctx.flexible)?;
        proof {
            w = w + (nullable_string_bytes(self.host_filter.deep_view(), ctx.flexible))->Ok_0;
        }
        assert(buf@ =~= old(buf)@ + w);
        Ok(())
    }

    /// Fields 6 to 8 of the encoding.
    pub open spec fn spec_serialize_part2(m: DescribeAclsRequestModel, ctx: Ctx) -> Result<Seq<u8>, SerializationError> {
        let r = Ok(Seq::<u8>::empty());
        let r = then(r, Ok(i8_bytes(m.operation)));
        let r = then(r, Ok(i8_bytes(m.permission_type)));
        let r = if ctx.flexible { then(r, Ok(uvarint_bytes(0))) } else { r };
        r
    }

    #[verifier::spinoff_prover]
    fn serialize_part2(&self, buf: &mut Vec<u8>, ctx: Ctx) -> (r: Result<(), SerializationError>)
        ensures
            write_ok(r, old(buf)@, final(buf)@, Self::spec_serialize_part2(self.deep_view(), ctx)),
    {
        let ghost mut w: Seq<u8> = Seq::empty();
        put_i8(buf, self.operation);
        proof {
            w = w + i8_bytes(self.operation);
        }
        assert(buf@ =~= old(buf)@ + w);
        put_i8(buf, self.permission_type);
        proof {
            w = w + i8_bytes(self.permission_type);
        }
        assert(buf@ =~= old(buf)@ + w);
        if ctx.flexible {
            encode_unsigned_varint(0, buf);
            proof {
                w = w + uvarint_bytes(0);
            }
            assert(buf@ =~= old(buf)@ + w);
        }
        Ok(())
    }

    /// The encoding of a whole message body at `version`.
    pub open spec fn spec_serialize(m: DescribeAclsRequestModel, version: i16) -> Result<Seq<u8>, SerializationError> {
        let is_flexible = version >= 2;
        let ctx = Ctx { version, flexible: is_flexible, classic: false };
        let r = Ok(Seq::<u8>::empty());
        let r = then(r, Self::spec_serialize_part1(m, ctx));
        let r = then(r, Self::spec_serialize_part2(m, ctx));
        r
    }

    /// The message body read at `version`.
    pub open spec fn spec_deserialize(s: Seq<u8>, pos: int, version: i16) -> Result<(DescribeAclsRequestModel, int), SerializationError> {
        let is_flexible = version >= 2;
        let ctx = Ctx { version, flexible: is_flexible, classic: false };
        match parse_i8(s, pos) {
            Err(e) => Err(e),
            Ok((resource_type_filter, pos)) =>
            match parse_nullable_string(s, pos, ctx.flexible) {
                Err(e) => Err(e),
                Ok((resource_name_filter, pos)) =>
                match (if 1 <= ctx.version { parse_i8(s, pos) } else { Ok((0i8, pos)) }) {
                    Err(e) => Err(e),
                    Ok((pattern_type_filter, pos)) =>
                    match parse_nullable_string(s, pos, ctx.flexible) {
                        Err(e) => Err(e),
                        Ok((principal_filter, pos)) =>
                        match parse_nullable_string(s, pos, ctx.flexible) {
                            Err(e) => Err(e),
                            Ok((host_filter, pos)) =>
                            match parse_i8(s, pos) {
                                Err(e) => Err(e),
                                Ok((operation, pos)) =>
                                match parse_i8(s, pos) {
                                    Err(e) => Err(e),
                                    Ok((permission_type, pos)) =>
                                    match (if ctx.flexible { parse_uvarint(s, pos) } else { Ok((0u64, pos)) }) {
                                        Err(e) => Err(e),
                                        Ok((_tag_count, pos)) =>
                                        Ok((DescribeAclsRequestModel { resource_type_filter, resource_name_filter, pattern_type_filter, principal_filter, host_filter, operation, permission_type }, pos))
                                    }
                                }
                            }
                        }
                    }
                }
            }
        }
    }

    /// Message bodies that read back when written at `version`: nested values read
    /// back. A field that the version leaves out is read as its default.
    pub open spec fn reads_back_message(m: DescribeAclsRequestModel, version: i16) -> bool {
        let is_flexible = version >= 2;
        let ctx = Ctx { version, flexible: is_flexible, classic: false };
        true
    }

    /// A message body that can be written at `version` and reads back: reading a
    /// body at `version` from its bytes, wherever they stand, gives the same message,
    /// with each field that the version leaves out at its default.
    #[verifier::spinoff_prover]
    pub proof fn lemma_message_read_back(pre: Seq<u8>, m: DescribeAclsRequestModel, post: Seq<u8>, version: i16)
        requires
            Self::spec_serialize(m, version) is Ok,
            Self::reads_back_message(m, version),
        ensures
            Self::spec_deserialize(pre + Self::spec_serialize(m, version)->Ok_0 + post, pre.len() as int, version) == Ok::<(DescribeAclsRequestModel, int), SerializationError>((DescribeAclsRequestModel { resource_type_filter: m.resource_type_filter, resource_name_filter: m.resource_name_filter, pattern_type_filter: if 1 <= version { m.pattern_type_filter } else { 0i8 }, principal_filter: m.principal_filter, host_filter: m.host_filter, operation: m.operation, permission_type: m.permission_type }, pre.len() as int + Self::spec_serialize(m, version)->Ok_0.len())),
    {
        let is_flexible = version >= 2;
        let ctx = Ctx { version, flexible: is_flexible, classic: false };
        let b0 = i8_bytes(m.resource_type_filter);
        let b1 = (nullable_string_bytes(m.resource_name_filter, ctx.flexible))->Ok_0;
        let b2 = if 1 <= ctx.version { i8_bytes(m.pattern_type_filter) } else { Seq::<u8>::empty() };
        let b3 = (nullable_string_bytes(m.principal_filter, ctx.flexible))->Ok_0;
        let b4 = (nullable_string_bytes(m.host_filter, ctx.flexible))->Ok_0;
        let b5 = i8_bytes(m.operation);
        let b6 = i8_bytes(m.permission_type);
        let b7 = if ctx.flexible { uvarint_bytes(0) } else { Seq::<u8>::empty() };
        let t8 = post;
        let t7 = b7 + t8;
        let t6 = b6 + t7;
        let t5 = b5 + t6;
        let t4 = b4 + t5;
        let t3 = b3 + t4;
        let t2 = b2 + t3;
        let t1 = b1 + t2;
        let t0 = b0 + t1;
        let e = Self::spec_serialize(m, version)->Ok_0;
        let p1 = Self::spec_serialize_part1(m, ctx)->Ok_0;
        assert(p1 =~= Seq::<u8>::empty() + b0 + b1 + b2 + b3 + b4);
        lemma_seq_assoc(((((Seq::<u8>::empty() + b0) + b1) + b2) + b3), b4, t5);
        lemma_seq_assoc((((Seq::<u8>::empty() + b0) + b1) + b2), b3, (b4 + t5));
        lemma_seq_assoc(((Seq::<u8>::empty() + b0) + b1), b2, (b3 + (b4 + t5)));
        lemma_seq_assoc((Seq::<u8>::empty() + b0), b1, (b2 + (b3 + (b4 + t5))));
        lemma_seq_assoc(Seq::<u8>::empty(), b0, (b1 + (b2 + (b3 + (b4 + t5)))));
        lemma_seq_empty_left((b0 + (b1 + (b2 + (b3 + (b4 + t5))))));
        let p2 = Self::spec_serialize_part2(m, ctx)->Ok_0;
        assert(p2 =~= Seq::<u8>::empty() + b5 + b6 + b7);
        lemma_seq_assoc(((Seq::<u8>::empty() + b5) + b6), b7, t8);
        lemma_seq_assoc((Seq::<u8>::empty() + b5), b6, (b7 + t8));
        lemma_seq_assoc(Seq::<u8>::empty(), b5, (b6 + (b7 + t8)));
        lemma_seq_empty_left((b5 + (b6 + (b7 + t8))));
        assert(e == Seq::<u8>::empty() + p1 + p2);
        lemma_seq_assoc((Seq::<u8>::empty() + p1), p2, t8);
        lemma_seq_assoc(Seq::<u8>::empty(), p1, (p2 + t8));
        lemma_seq_empty_left((p1 + (p2 + t8)));
        let s = pre + e + post;
        lemma_seq_assoc(pre, e, post);
        assert(s == pre + t0);
        let a0 = pre;
        assert(parse_i8(s, a0.len() as int) == Ok::<(i8, int), SerializationError>((m.resource_type_filter, a0.len() as int + b0.len()))) by {
            lemma_seq_assoc(a0, b0, t1);
            lemma_i8_roundtrip(a0, m.resource_type_filter, t1);
        }
        lemma_seq_assoc(a0, b0, t1);
        let a1 = a0 + b0;
        assert(parse_nullable_string(s, a1.len() as int, ctx.flexible) == Ok::<(Option<Seq<char>>, int), SerializationError>((m.resource_name_filter, a1.len() as int + b1.len()))) by {
            assert(nullable_string_bytes(m.resource_name_filter, ctx.flexible) is Ok);
            lemma_seq_assoc(a1, b1, t2);
            lemma_nullable_string_roundtrip(a1, m.resource_name_filter, t2, ctx.flexible);
        }
        lemma_seq_assoc(a1, b1, t2);
        let a2 = a1 + b1;
        if 1 <= ctx.version {
            assert(parse_i8(s, a2.len() as int) == Ok::<(i8, int), SerializationError>((m.pattern_type_filter, a2.len() as int + b2.len()))) by {
                lemma_seq_assoc(a2, b2, t3);
                lemma_i8_roundtrip(a2, m.pattern_type_filter, t3);
            }
        }
        lemma_seq_assoc(a2, b2, t3);
        let a3 = a2 + b2;
        assert(parse_nullable_string(s, a3.len() as int, ctx.flexible) == Ok::<(Option<Seq<char>>, int), SerializationError>((m.principal_filter, a3.len() as int + b3.len()))) by {
            assert(nullable_string_bytes(m.principal_filter, ctx.flexible) is Ok);
            lemma_seq_assoc(a3, b3, t4);
            lemma_nullable_string_roundtrip(a3, m.principal_filter, t4, ctx.flexible);
        }
        lemma_seq_assoc(a3, b3, t4);
        let a4 = a3 + b3;
        assert(parse_nullable_string(s, a4.len() as int, ctx.flexible) == Ok::<(Option<Seq<char>>, int), SerializationError>((m.host_filter, a4.len() as int + b4.len()))) by {
            assert(nullable_string_bytes(m.host_filter, ctx.flexible) is Ok);
            lemma_seq_assoc(a4, b4, t5);
            lemma_nullable_string_roundtrip(a4, m.host_filter, t5, ctx.flexible);
        }
        lemma_seq_assoc(a4, b4, t5);
        let a5 = a4 + b4;
        assert(parse_i8(s, a5.len() as int) == Ok::<(i8, int), SerializationError>((m.operation, a5.len() as int + b5.len()))) by {
            lemma_seq_assoc(a5, b5, t6);
            lemma_i8_roundtrip(a5, m.operation, t6);
        }
        lemma_seq_assoc(a5, b5, t6);
        let a6 = a5 + b5;
        assert(parse_i8(s, a6.len() as int) == Ok::<(i8, int), SerializationError>((m.permission_type, a6.len() as int + b6.len()))) by {
            lemma_seq_assoc(a6, b6, t7);
            lemma_i8_roundtrip(a6, m.permission_type, t7);
        }
        lemma_seq_assoc(a6, b6, t7);
        let a7 = a6 + b6;
        if ctx.flexible {
            assert(parse_uvarint(s, a7.len() as int) == Ok::<(u64, int), SerializationError>((0u64, a7.len() as int + b7.len()))) by {
                lemma_seq_assoc(a7, b7, t8);
                lemma_uvarint_roundtrip(a7, 0, t8);
            }
        }
    }

    /// The bytes written: the encoding of each field, in the order of the
    /// protocol's layout. Reading them back, wherever they stand, gives the value,
    /// with each field that the version leaves out at its default.
    #[verifier::spinoff_prover]
    pub proof fn lemma_message_layout(pre: Seq<u8>, m: DescribeAclsRequestModel, post: Seq<u8>, version: i16)
        requires
            Self::spec_serialize(m, version) is Ok,
        ensures
            Self::spec_serialize(m, version) == Ok::<Seq<u8>, SerializationError>((i8_bytes(m.resource_type_filter)) + ((nullable_string_bytes(m.resource_name_filter, (version >= 2)))->Ok_0) + (if 1 <= version { i8_bytes(m.pattern_type_filter) } else { Seq::<u8>::empty() }) + ((nullable_string_bytes(m.principal_filter, (version >= 2)))->Ok_0) + ((nullable_string_bytes(m.host_filter, (version >= 2)))->Ok_0) + (i8_bytes(m.operation)) + (i8_bytes(m.permission_type)) + (if (version >= 2) { uvarint_bytes(0) } else { Seq::<u8>::empty() })),
            Self::reads_back_message(m, version) ==> Self::spec_deserialize(pre + ((i8_bytes(m.resource_type_filter)) + ((nullable_string_bytes(m.resource_name_filter, (version >= 2)))->Ok_0) + (if 1 <= version { i8_bytes(m.pattern_type_filter) } else { Seq::<u8>::empty() }) + ((nullable_string_bytes(m.principal_filter, (version >= 2)))->Ok_0) + ((nullable_string_bytes(m.host_filter, (version >= 2)))->Ok_0) + (i8_bytes(m.operation)) + (i8_bytes(m.permission_type)) + (if (version >= 2) { uvarint_bytes(0) } else { Seq::<u8>::empty() })) + post, pre.len() as int, version) == Ok::<(DescribeAclsRequestModel, int), SerializationError>((DescribeAclsRequestModel { resource_type_filter: m.resource_type_filter, resource_name_filter: m.resource_name_filter, pattern_type_filter: if 1 <= version { m.pattern_type_filter } else { 0i8 }, principal_filter: m.principal_filter, host_filter: m.host_filter, operation: m.operation, permission_type: m.permission_type }, pre.len() as int + ((i8_bytes(m.resource_type_filter)) + ((nullable_string_bytes(m.resource_name_filter, (version >= 2)))->Ok_0) + (if 1 <= version { i8_bytes(m.pattern_type_filter) } else { Seq::<u8>::empty() }) + ((nullable_string_bytes(m.principal_filter, (version >= 2)))->Ok_0) + ((nullable_string_bytes(m.host_filter, (version >= 2)))->Ok_0) + (i8_bytes(m.operation)) + (i8_bytes(m.permission_type)) + (if (version >= 2) { uvarint_bytes(0) } else { Seq::<u8>::empty() })).len())),
    {
        let is_flexible = version >= 2;
        let ctx = Ctx { version, flexible: is_flexible, classic: false };
        let b0 = i8_bytes(m.resource_type_filter);
        let b1 = (nullable_string_bytes(m.resource_name_filter, ctx.flexible))->Ok_0;
        let b2 = if 1 <= ctx.version { i8_bytes(m.pattern_type_filter) } else { Seq::<u8>::empty() };
        let b3 = (nullable_string_bytes(m.principal_filter, ctx.flexible))->Ok_0;
        let b4 = (nullable_string_bytes(m.host_filter, ctx.flexible))->Ok_0;
        let b5 = i8_bytes(m.operation);
        let b6 = i8_bytes(m.permission_type);
        let b7 = if ctx.flexible { uvarint_bytes(0) } else { Seq::<u8>::empty() };
        let e = Self::spec_serialize(m, version)->Ok_0;
        let p1 = Self::spec_serialize_part1(m, ctx)->Ok_0;
        assert(p1 =~= Seq::<u8>::empty() + b0 + b1 + b2 + b3 + b4);
        let p2 = Self::spec_serialize_part2(m, ctx)->Ok_0;
        assert(p2 =~= Seq::<u8>::empty() + b5 + b6 + b7);
        assert(e == Seq::<u8>::empty() + p1 + p2);
        assert(e =~= b0 + b1 + b2 + b3 + b4 + b5 + b6 + b7);
        if Self::reads_back_message(m, version) {
            Self::lemma_message_read_back(pre, m, post, version);
        }
    }

    /// Writing succeeds exactly when every field that the version carries can be
    /// encoded and every field that it leaves out, where leaving it out is an
    /// error, holds its default.
    #[verifier::spinoff_prover]
    pub proof fn lemma_message_write_succeeds(m: DescribeAclsRequestModel, version: i16)
        ensures
            Self::spec_serialize(m, version) is Ok <==> (nullable_string_bytes(m.resource_name_filter, (version >= 2)) is Ok) && (!(1 <= version) ==> !(m.pattern_type_filter != 0)) && (nullable_string_bytes(m.principal_filter, (version >= 2)) is Ok) && (nullable_string_bytes(m.host_filter, (version >= 2)) is Ok),
    {
        let is_flexible = version >= 2;
        let ctx = Ctx { version, flexible: is_flexible, classic: false };
    }

    /// Writes the message body for `version`, which must be a supported version.
    /// On failure the buffer is left as it was.
    pub fn serialize(&self, version: ApiVersion, buf: &mut Vec<u8>) -> (r: Result<(), SerializationError>)
        requires
            1 <= version.0 <= 3,
        ensures
            write_exact(r, old(buf)@, final(buf)@, Self::spec_serialize(self.deep_view(), version.0)),
    {
        let start = buf.len();
        let r = self.write_body(version, buf);
        if r.is_err() {
            buf.truncate(start);
        }
        r
    }

    #[verifier::spinoff_prover]
    fn write_body(&self, version: ApiVersion, buf: &mut Vec<u8>) -> (r: Result<(), SerializationError>)
        requires
            1 <= version.0 <= 3,
        ensures
            write_ok(r, old(buf)@, final(buf)@, Self::spec_serialize(self.deep_view(), version.0)),
    {
        let is_flexible = version.0 >= Self::get_min_flexible_version().0;
        let ctx = Ctx::new(version, is_flexible);
        let ghost mut w: Seq<u8> = Seq::empty();
        self.serialize_part1(buf, ctx)?;
        proof {
            w = w + (Self::spec_serialize_part1(self.deep_view(), ctx))->Ok_0;
        }
        assert(buf@ =~= old(buf)@ + w);
        self.serialize_part2(buf, ctx)?;
        proof {
            w = w + (Self::spec_serialize_part2(self.deep_view(), ctx))->Ok_0;
        }
        assert(buf@ =~= old(buf)@ + w);
        Ok(())
    }

    /// Reads a message body written for `version`.
    /// On failure the reader is put back where it started.
    #[verifier::spinoff_prover]
    pub fn deserialize(version: ApiVersion, buf: &mut Reader) -> (r: Result<Self, SerializationError>)
        ensures
            final(buf).bytes() == old(buf).bytes(),
            read_view_exact(r, Self::spec_deserialize(old(buf).bytes(), old(buf).pos(), version.0), old(buf).pos(), final(buf).pos()),
    {
        let start = buf.position();
        let r = Self::read_body(version, buf);
        if r.is_err() {
            buf.set_position(start);
        }
        r
    }

    fn read_body(version: ApiVersion, buf: &mut Reader) -> (r: Result<Self, SerializationError>)
        ensures
            final(buf).bytes() == old(buf).bytes(),
            read_view_ok(r, Self::spec_deserialize(old(buf).bytes(), old(buf).pos(), version.0), final(buf).pos()),
    {
        let is_flexible = version.0 >= Self::get_min_flexible_version().0;
        let ctx = Ctx::new(version, is_flexible);
        let resource_type_filter = buf.get_i8()?;
        let resource_name_filter = buf.get_nullable_string(ctx.flexible)?;
        let pattern_type_filter = if 1 <= ctx.version {
            buf.get_i8()?
        } else {
            0i8
        };
        let principal_filter = buf.get_nullable_string(ctx.flexible)?;
        let host_filter = buf.get_nullable_string(ctx.flexible)?;
        let operation = buf.get_i8()?;
        let permission_type = buf.get_i8()?;
        if ctx.flexible {
            let (_tag_count, _) = decode_unsigned_varint(buf)?;
        }
        Ok(DescribeAclsRequest { resource_type_filter, resource_name_filter, pattern_type_filter, principal_filter, host_filter, operation, permission_type })
    }
}

} // verus!
