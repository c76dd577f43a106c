//! DescribeConfigsRequest (API key 32).
use vstd::prelude::*;
use crate::roundtrip::{lemma_array_roundtrip, lemma_bool_roundtrip, lemma_i8_roundtrip,
    lemma_items_read_back, lemma_nullable_array_roundtrip, lemma_seq_assoc, lemma_seq_empty_left,
    lemma_string_roundtrip, lemma_uvarint_roundtrip};
use crate::serialization::{Ctx, KafkaCodec, Reader, SerializationError, array_bytes, bool_bytes,
    decode_array, decode_nullable_array, decode_unsigned_varint, encode_array,
    encode_nullable_array, encode_string, encode_unsigned_varint, i8_bytes, nullable_array_bytes,
    parse_array, parse_bool, parse_i8, parse_nullable_array, parse_string, parse_uvarint,
    put_bool, put_i8, read_view_exact, read_view_ok, string_bytes, then, uvarint_bytes,
    write_exact, write_ok};
use crate::{ApiKey, ApiVersion};

verus! {

// -------------------------------------------------------
// DescribeConfigsRequest
// -------------------------------------------------------
#[derive(Clone, Debug, Default, PartialEq)]
pub struct DescribeConfigsRequest {
    /// The resources whose configurations we want to describe.
    pub resources: Vec<DescribeConfigsResource>,
    /// True if we should include all synonyms.
    /// Available in version 1+.
    pub include_synonyms: bool,
    /// True if we should include configuration documentation.
    /// Available in version 3+.
    pub include_documentation: bool,
}

/// The contents of `DescribeConfigsRequest`, with strings as characters and
/// nested values by their contents.
pub struct DescribeConfigsRequestModel {
    pub resources: Seq<<DescribeConfigsResource as DeepView>::V>,
    pub include_synonyms: bool,
    pub include_documentation: bool,
}

impl DeepView for DescribeConfigsRequest {
    type V = DescribeConfigsRequestModel;

    open spec fn deep_view(&self) -> DescribeConfigsRequestModel {
        DescribeConfigsRequestModel {
            resources: self.resources.deep_view(),
            include_synonyms: self.include_synonyms,
            include_documentation: self.include_documentation,
        }
    }
}

impl DescribeConfigsRequest {
    /// The encoding of the structure in context `ctx`.
    pub open spec fn spec_encode_body(m: DescribeConfigsRequestModel, ctx: Ctx) -> Result<Seq<u8>, SerializationError> {
        let r = Ok(Seq::<u8>::empty());
        let r = then(r, array_bytes::<DescribeConfigsResource>(m.resources, Ctx { version: ctx.version, flexible: ctx.flexible, classic: false }));
        let r = if 1 <= ctx.version { then(r, Ok(bool_bytes(m.include_synonyms))) } else { r };
        let r = if 3 <= ctx.version { then(r, Ok(bool_bytes(m.include_documentation))) } else { r };
        let r = if ctx.flexible { then(r, Ok(uvarint_bytes(0))) } else { r };
        r
    }

    /// The structure read from `s` at `pos` in context `ctx`.
    pub open spec fn spec_decode_body(s: Seq<u8>, pos: int, ctx: Ctx) -> Result<(DescribeConfigsRequestModel, int), SerializationError> {
        match parse_array::<DescribeConfigsResource>(s, pos, Ctx { version: ctx.version, flexible: ctx.flexible, classic: false }) {
            Err(e) => Err(e),
            Ok((resources, pos)) =>
            match (if 1 <= ctx.version { parse_bool(s, pos) } else { Ok((false, pos)) }) {
                Err(e) => Err(e),
                Ok((include_synonyms, pos)) =>
                match (if 3 <= ctx.version { parse_bool(s, pos) } else { Ok((false, pos)) }) {
                    Err(e) => Err(e),
                    Ok((include_documentation, pos)) =>
                    match (if ctx.flexible { parse_uvarint(s, pos) } else { Ok((0u64, pos)) }) {
                        Err(e) => Err(e),
                        Ok((_tag_count, pos)) =>
                        Ok((DescribeConfigsRequestModel { resources, include_synonyms, include_documentation }, pos))
                    }
                }
            }
        }
    }

    /// The structure as it reads back in context `ctx`: each field that the
    /// version leaves out is at its default.
    #[verifier::opaque]
    pub open spec fn spec_read_as(m: DescribeConfigsRequestModel, ctx: Ctx) -> DescribeConfigsRequestModel {
        DescribeConfigsRequestModel { resources: m.resources, include_synonyms: if 1 <= ctx.version { m.include_synonyms } else { false }, include_documentation: if 3 <= ctx.version { m.include_documentation } else { false } }
    }

    /// Values that read back in context `ctx`: nested values read back. A field
    /// that the version leaves out is read as its default.
    pub open spec fn reads_back_body(m: DescribeConfigsRequestModel, ctx: Ctx) -> bool {
        &&& forall|i: int| 0 <= i < m.resources.len() ==> #[trigger] <DescribeConfigsResource as KafkaCodec>::reads_back(m.resources[i], Ctx { version: ctx.version, flexible: ctx.flexible, classic: false })
    }

    /// A value that can be written in context `ctx` and reads back: decoding its
    /// encoding, wherever it stands, gives the value as `spec_read_as` gives it and
    /// the position just after it.
    #[verifier::spinoff_prover]
    pub proof fn lemma_body_read_back(pre: Seq<u8>, m: DescribeConfigsRequestModel, post: Seq<u8>, ctx: Ctx)
        requires
            Self::spec_encode_body(m, ctx) is Ok,
            Self::reads_back_body(m, ctx),
        ensures
            Self::spec_decode_body(pre + Self::spec_encode_body(m, ctx)->Ok_0 + post, pre.len() as int, ctx) == Ok::<(DescribeConfigsRequestModel, int), SerializationError>((Self::spec_read_as(m, ctx), pre.len() as int + Self::spec_encode_body(m, ctx)->Ok_0.len())),
    {
        reveal(DescribeConfigsRequest::spec_read_as);
        let b0 = (array_bytes::<DescribeConfigsResource>(m.resources, Ctx { version: ctx.version, flexible: ctx.flexible, classic: false }))->Ok_0;
        let b1 = if 1 <= ctx.version { bool_bytes(m.include_synonyms) } else { Seq::<u8>::empty() };
        let b2 = if 3 <= ctx.version { bool_bytes(m.include_documentation) } else { Seq::<u8>::empty() };
        let b3 = if ctx.flexible { uvarint_bytes(0) } else { Seq::<u8>::empty() };
        let t4 = post;
        let t3 = b3 + t4;
        let t2 = b2 + t3;
        let t1 = b1 + t2;
        let t0 = b0 + t1;
        let e = Self::spec_encode_body(m, ctx)->Ok_0;
        assert(e =~= Seq::<u8>::empty() + b0 + b1 + b2 + b3);
        lemma_seq_assoc((((Seq::<u8>::empty() + b0) + b1) + b2), b3, post);
        lemma_seq_assoc(((Seq::<u8>::empty() + b0) + b1), b2, (b3 + post));
        lemma_seq_assoc((Seq::<u8>::empty() + b0), b1, (b2 + (b3 + post)));
        lemma_seq_assoc(Seq::<u8>::empty(), b0, (b1 + (b2 + (b3 + post))));
        lemma_seq_empty_left((b0 + (b1 + (b2 + (b3 + post)))));
        let s = pre + e + post;
        lemma_seq_assoc(pre, e, post);
        assert(s == pre + t0);
        let a0 = pre;
        assert(parse_array::<DescribeConfigsResource>(s, a0.len() as int, Ctx { version: ctx.version, flexible: ctx.flexible, classic: false }) == Ok::<(Seq<<DescribeConfigsResource as DeepView>::V>, int), SerializationError>((m.resources, a0.len() as int + b0.len()))) by {
            assert(array_bytes::<DescribeConfigsResource>(m.resources, Ctx { version: ctx.version, flexible: ctx.flexible, classic: false }) is Ok);
            lemma_seq_assoc(a0, b0, t1);
            lemma_items_read_back::<DescribeConfigsResource>(m.resources, Ctx { version: ctx.version, flexible: ctx.flexible, classic: false });
            lemma_array_roundtrip::<DescribeConfigsResource>(a0, m.resources, t1, Ctx { version: ctx.version, flexible: ctx.flexible, classic: false });
        }
        lemma_seq_assoc(a0, b0, t1);
        let a1 = a0 + b0;
        if 1 <= ctx.version {
            assert(parse_bool(s, a1.len() as int) == Ok::<(bool, int), SerializationError>((m.include_synonyms, a1.len() as int + b1.len()))) by {
                lemma_seq_assoc(a1, b1, t2);
                lemma_bool_roundtrip(a1, m.include_synonyms, t2);
            }
        }
        lemma_seq_assoc(a1, b1, t2);
        let a2 = a1 + b1;
        if 3 <= ctx.version {
            assert(parse_bool(s, a2.len() as int) == Ok::<(bool, int), SerializationError>((m.include_documentation, a2.len() as int + b2.len()))) by {
                lemma_seq_assoc(a2, b2, t3);
                lemma_bool_roundtrip(a2, m.include_documentation, t3);
            }
        }
        lemma_seq_assoc(a2, b2, t3);
        let a3 = a2 + b2;
        if ctx.flexible {
            assert(parse_uvarint(s, a3.len() as int) == Ok::<(u64, int), SerializationError>((0u64, a3.len() as int + b3.len()))) by {
                lemma_seq_assoc(a3, b3, t4);
                lemma_uvarint_roundtrip(a3, 0, t4);
            }
        }
    }

    /// The bytes written: the encoding of each field, in the order of the
    /// protocol's layout. Reading them back, wherever they stand, gives the value,
    /// with each field that the version leaves out at its default.
    #[verifier::spinoff_prover]
    pub proof fn lemma_body_layout(pre: Seq<u8>, m: DescribeConfigsRequestModel, post: Seq<u8>, ctx: Ctx)
        requires
            Self::spec_encode_body(m, ctx) is Ok,
        ensures
            Self::spec_encode_body(m, ctx) == Ok::<Seq<u8>, SerializationError>(((array_bytes::<DescribeConfigsResource>(m.resources, Ctx { version: ctx.version, flexible: ctx.flexible, classic: false }))->Ok_0) + (if 1 <= ctx.version { bool_bytes(m.include_synonyms) } else { Seq::<u8>::empty() }) + (if 3 <= ctx.version { bool_bytes(m.include_documentation) } else { Seq::<u8>::empty() }) + (if ctx.flexible { uvarint_bytes(0) } else { Seq::<u8>::empty() })),
            Self::reads_back_body(m, ctx) ==> Self::spec_decode_body(pre + (((array_bytes::<DescribeConfigsResource>(m.resources, Ctx { version: ctx.version, flexible: ctx.flexible, classic: false }))->Ok_0) + (if 1 <= ctx.version { bool_bytes(m.include_synonyms) } else { Seq::<u8>::empty() }) + (if 3 <= ctx.version { bool_bytes(m.include_documentation) } else { Seq::<u8>::empty() }) + (if ctx.flexible { uvarint_bytes(0) } else { Seq::<u8>::empty() })) + post, pre.len() as int, ctx) == Ok::<(DescribeConfigsRequestModel, int), SerializationError>((DescribeConfigsRequestModel { resources: m.resources, include_synonyms: if 1 <= ctx.version { m.include_synonyms } else { false }, include_documentation: if 3 <= ctx.version { m.include_documentation } else { false } }, pre.len() as int + (((array_bytes::<DescribeConfigsResource>(m.resources, Ctx { version: ctx.version, flexible: ctx.flexible, classic: false }))->Ok_0) + (if 1 <= ctx.version { bool_bytes(m.include_synonyms) } else { Seq::<u8>::empty() }) + (if 3 <= ctx.version { bool_bytes(m.include_documentation) } else { Seq::<u8>::empty() }) + (if ctx.flexible { uvarint_bytes(0) } else { Seq::<u8>::empty() })).len())),
    {
        let b0 = (array_bytes::<DescribeConfigsResource>(m.resources, Ctx { version: ctx.version, flexible: ctx.flexible, classic: false }))->Ok_0;
        let b1 = if 1 <= ctx.version { bool_bytes(m.include_synonyms) } else { Seq::<u8>::empty() };
        let b2 = if 3 <= ctx.version { bool_bytes(m.include_documentation) } else { Seq::<u8>::empty() };
        let b3 = if ctx.flexible { uvarint_bytes(0) } else { Seq::<u8>::empty() };
        let e = Self::spec_encode_body(m, ctx)->Ok_0;
        assert(e =~= Seq::<u8>::empty() + b0 + b1 + b2 + b3);
        assert(e =~= b0 + b1 + b2 + b3);
        if Self::reads_back_body(m, ctx) {
            Self::lemma_body_read_back(pre, m, post, ctx);
            reveal(DescribeConfigsRequest::spec_read_as);
        }
    }

    /// Writing succeeds exactly when every field that the version carries can be
    /// encoded and every field that it leaves out, where leaving it out is an
    /// error, holds its default.
    #[verifier::spinoff_prover]
    pub proof fn lemma_body_write_succeeds(m: DescribeConfigsRequestModel, ctx: Ctx)
        ensures
            Self::spec_encode_body(m, ctx) is Ok <==> (array_bytes::<DescribeConfigsResource>(m.resources, Ctx { version: ctx.version, flexible: ctx.flexible, classic: false }) is Ok),
    {
    }

    /// Writes the structure for `version`, with the compact encodings when `is_flexible`.
    /// On failure the buffer is left as it was.
    pub fn encode(&self, buf: &mut Vec<u8>, version: ApiVersion, is_flexible: bool) -> (r: Result<(), SerializationError>)
        ensures
            write_exact(r, old(buf)@, final(buf)@, Self::spec_encode_body(self.deep_view(), Ctx { version: version.0, flexible: is_flexible, classic: false })),
    {
        let start = buf.len();
        let r = self.encode_ctx(buf, Ctx::new(version, is_flexible));
        if r.is_err() {
            buf.truncate(start);
        }
        r
    }

    /// Reads the structure as written for `version`.
    /// On failure the reader is put back where it started.
    pub fn decode(buf: &mut Reader, version: ApiVersion, is_flexible: bool) -> (r: Result<Self, SerializationError>)
        ensures
            final(buf).bytes() == old(buf).bytes(),
            read_view_exact(r, Self::spec_decode_body(old(buf).bytes(), old(buf).pos(), Ctx { version: version.0, flexible: is_flexible, classic: false }), old(buf).pos(), final(buf).pos()),
    {
        let start = buf.position();
        let r = Self::decode_ctx(buf, Ctx::new(version, is_flexible));
        if r.is_err() {
            buf.set_position(start);
        }
        r
    }
}

impl KafkaCodec for DescribeConfigsRequest {
    open spec fn spec_encode(m: DescribeConfigsRequestModel, ctx: Ctx) -> Result<Seq<u8>, SerializationError> {
        Self::spec_encode_body(m, ctx)
    }

    open spec fn spec_decode(s: Seq<u8>, pos: int, ctx: Ctx) -> Result<(DescribeConfigsRequestModel, int), SerializationError> {
        Self::spec_decode_body(s, pos, ctx)
    }

    open spec fn reads_back(v: DescribeConfigsRequestModel, ctx: Ctx) -> bool {
        Self::reads_back_body(v, ctx) && Self::spec_read_as(v, ctx) == v
    }

    proof fn lemma_read_back(pre: Seq<u8>, v: DescribeConfigsRequestModel, post: Seq<u8>, ctx: Ctx) {
        Self::lemma_body_read_back(pre, v, post, ctx);
        assert(Self::spec_decode(pre + Self::spec_encode(v, ctx)->Ok_0 + post, pre.len() as int, ctx)
            == Self::spec_decode_body(pre + Self::spec_encode_body(v, ctx)->Ok_0 + post, pre.len() as int, ctx));
    }

    fn encode_ctx(&self, buf: &mut Vec<u8>, ctx: Ctx) -> (r: Result<(), SerializationError>) {
        let ghost mut w: Seq<u8> = Seq::empty();
        encode_array(&self.resources, buf, Ctx { version: ctx.version, flexible: ctx.flexible, classic: false })?;
        proof {
            w = w + (array_bytes::<DescribeConfigsResource>(self.resources.deep_view(), Ctx { version: ctx.version, flexible: ctx.flexible, classic: false }))->Ok_0;
        }
        assert(buf@ =~= old(buf)@ + w);
        if 1 <= ctx.version {
            put_bool(buf, self.include_synonyms);
            proof {
                w = w + bool_bytes(self.include_synonyms);
            }
            assert(buf@ =~= old(buf)@ + w);
        }
        if 3 <= ctx.version {
            put_bool(buf, self.include_documentation);
            proof {
                w = w + bool_bytes(self.include_documentation);
            }
            assert(buf@ =~= old(buf)@ + w);
        }
        if ctx.flexible {
            encode_unsigned_varint(0, buf);
            proof {
                w = w + uvarint_bytes(0);
            }
            assert(buf@ =~= old(buf)@ + w);
        }
        Ok(())
    }

    fn decode_ctx(buf: &mut Reader, ctx: Ctx) -> (r: Result<Self, SerializationError>) {
        let resources = decode_array::<DescribeConfigsResource>(buf, Ctx { version: ctx.version, flexible: ctx.flexible, classic: false })?;
        let include_synonyms = if 1 <= ctx.version {
            buf.get_bool()?
        } else {
            false
        };
        let include_documentation = if 3 <= ctx.version {
            buf.get_bool()?
        } else {
            false
        };
        if ctx.flexible {
            let (_tag_count, _) = decode_unsigned_varint(buf)?;
        }
        Ok(DescribeConfigsRequest { resources, include_synonyms, include_documentation })
    }
}

impl DescribeConfigsRequest {
    /// The API key of this message.
    pub fn get_api_key() -> (r: ApiKey)
        ensures
            r.0 == 32,
    {
        ApiKey::new(32)
    }

    /// The oldest version of this message.
    pub fn get_min_supported_version() -> (r: ApiVersion)
        ensures
            r.0 == 1,
    {
        ApiVersion::new(1)
    }

    /// The newest version of this message.
    pub fn get_max_supported_version() -> (r: ApiVersion)
        ensures
            r.0 == 4,
    {
        ApiVersion::new(4)
    }

    /// The first version of this message with the compact encodings.
    pub fn get_min_flexible_version() -> (r: ApiVersion)
        ensures
            r.0 == 4,
    {
        ApiVersion::new(4)
    }

    /// The encoding of a whole message body at `version`.
    pub open spec fn spec_serialize(m: DescribeConfigsRequestModel, version: i16) -> Result<Seq<u8>, SerializationError> {
        let is_flexible = version >= 4;
        let ctx = Ctx { version, flexible: is_flexible, classic: false };
        let r = Ok(Seq::<u8>::empty());
        let r = then(r, array_bytes::<DescribeConfigsResource>(m.resources, Ctx { version: ctx.version, flexible: ctx.flexible, classic: false }));
        let r = if 1 <= ctx.version { then(r, Ok(bool_bytes(m.include_synonyms))) } else if m.include_synonyms { then(r, Err(SerializationError::Encode("field 'IncludeSynonyms' is not available in this version"))) } else { r };
        let r = if 3 <= ctx.version { then(r, Ok(bool_bytes(m.include_documentation))) } else if m.include_documentation { then(r, Err(SerializationError::Encode("field 'IncludeDocumentation' is not available in this version"))) } else { r };
        let r = if ctx.flexible { then(r, Ok(uvarint_bytes(0))) } else { r };
        r
    }

    /// The message body read at `version`.
    pub open spec fn spec_deserialize(s: Seq<u8>, pos: int, version: i16) -> Result<(DescribeConfigsRequestModel, int), SerializationError> {
        let is_flexible = version >= 4;
        let ctx = Ctx { version, flexible: is_flexible, classic: false };
        match parse_array::<DescribeConfigsResource>(s, pos, Ctx { version: ctx.version, flexible: ctx.flexible, classic: false }) {
            Err(e) => Err(e),
            Ok((resources, pos)) =>
            match (if 1 <= ctx.version { parse_bool(s, pos) } else { Ok((false, pos)) }) {
                Err(e) => Err(e),
                Ok((include_synonyms, pos)) =>
                match (if 3 <= ctx.version { parse_bool(s, pos) } else { Ok((false, pos)) }) {
                    Err(e) => Err(e),
                    Ok((include_documentation, pos)) =>
                    match (if ctx.flexible { parse_uvarint(s, pos) } else { Ok((0u64, pos)) }) {
                        Err(e) => Err(e),
                        Ok((_tag_count, pos)) =>
                        Ok((DescribeConfigsRequestModel { resources, include_synonyms, include_documentation }, pos))
                    }
                }
            }
        }
    }

    /// Message bodies that read back when written at `version`: nested values read
    /// back. A field that the version leaves out is read as its default.
    pub open spec fn reads_back_message(m: DescribeConfigsRequestModel, version: i16) -> bool {
        let is_flexible = version >= 4;
        let ctx = Ctx { version, flexible: is_flexible, classic: false };
        &&& forall|i: int| 0 <= i < m.resources.len() ==> #[trigger] <DescribeConfigsResource as KafkaCodec>::reads_back(m.resources[i], Ctx { version: ctx.version, flexible: ctx.flexible, classic: false })
    }

    /// A message body that can be written at `version` and reads back: reading a
    /// body at `version` from its bytes, wherever they stand, gives the same message,
    /// with each field that the version leaves out at its default.
    #[verifier::spinoff_prover]
    pub proof fn lemma_message_read_back(pre: Seq<u8>, m: DescribeConfigsRequestModel, post: Seq<u8>, version: i16)
        requires
            Self::spec_serialize(m, version) is Ok,
            Self::reads_back_message(m, version),
        ensures
            Self::spec_deserialize(pre + Self::spec_serialize(m, version)->Ok_0 + post, pre.len() as int, version) == Ok::<(DescribeConfigsRequestModel, int), SerializationError>((DescribeConfigsRequestModel { resources: m.resources, include_synonyms: if 1 <= version { m.include_synonyms } else { false }, include_documentation: if 3 <= version { m.include_documentation } else { false } }, pre.len() as int + Self::spec_serialize(m, version)->Ok_0.len())),
    {
        let is_flexible = version >= 4;
        let ctx = Ctx { version, flexible: is_flexible, classic: false };
        let b0 = (array_bytes::<DescribeConfigsResource>(m.resources, Ctx { version: ctx.version, flexible: ctx.flexible, classic: false }))->Ok_0;
        let b1 = if 1 <= ctx.version { bool_bytes(m.include_synonyms) } else { Seq::<u8>::empty() };
        let b2 = if 3 <= ctx.version { bool_bytes(m.include_documentation) } else { Seq::<u8>::empty() };
        let b3 = if ctx.flexible { uvarint_bytes(0) } else { Seq::<u8>::empty() };
        let t4 = post;
        let t3 = b3 + t4;
        let t2 = b2 + t3;
        let t1 = b1 + t2;
        let t0 = b0 + t1;
        let e = Self::spec_serialize(m, version)->Ok_0;
        assert(e =~= Seq::<u8>::empty() + b0 + b1 + b2 + b3);
        lemma_seq_assoc((((Seq::<u8>::empty() + b0) + b1) + b2), b3, post);
        lemma_seq_assoc(((Seq::<u8>::empty() + b0) + b1), b2, (b3 + post));
        lemma_seq_assoc((Seq::<u8>::empty() + b0), b1, (b2 + (b3 + post)));
        lemma_seq_assoc(Seq::<u8>::empty(), b0, (b1 + (b2 + (b3 + post))));
        lemma_seq_empty_left((b0 + (b1 + (b2 + (b3 + post)))));
        let s = pre + e + post;
        lemma_seq_assoc(pre, e, post);
        assert(s == pre + t0);
        let a0 = pre;
        assert(parse_array::<DescribeConfigsResource>(s, a0.len() as int, Ctx { version: ctx.version, flexible: ctx.flexible, classic: false }) == Ok::<(Seq<<DescribeConfigsResource as DeepView>::V>, int), SerializationError>((m.resources, a0.len() as int + b0.len()))) by {
            assert(array_bytes::<DescribeConfigsResource>(m.resources, Ctx { version: ctx.version, flexible: ctx.flexible, classic: false }) is Ok);
            lemma_seq_assoc(a0, b0, t1);
            lemma_items_read_back::<DescribeConfigsResource>(m.resources, Ctx { version: ctx.version, flexible: ctx.flexible, classic: false });
            lemma_array_roundtrip::<DescribeConfigsResource>(a0, m.resources, t1, Ctx { version: ctx.version, flexible: ctx.flexible, classic: false });
        }
        lemma_seq_assoc(a0, b0, t1);
        let a1 = a0 + b0;
        if 1 <= ctx.version {
            assert(parse_bool(s, a1.len() as int) == Ok::<(bool, int), SerializationError>((m.include_synonyms, a1.len() as int + b1.len()))) by {
                lemma_seq_assoc(a1, b1, t2);
                lemma_bool_roundtrip(a1, m.include_synonyms, t2);
            }
        }
        lemma_seq_assoc(a1, b1, t2);
        let a2 = a1 + b1;
        if 3 <= ctx.version {
            assert(parse_bool(s, a2.len() as int) == Ok::<(bool, int), SerializationError>((m.include_documentation, a2.len() as int + b2.len()))) by {
                lemma_seq_assoc(a2, b2, t3);
                lemma_bool_roundtrip(a2, m.include_documentation, t3);
            }
        }
        lemma_seq_assoc(a2, b2, t3);
        let a3 = a2 + b2;
        if ctx.flexible {
            assert(parse_uvarint(s, a3.len() as int) == Ok::<(u64, int), SerializationError>((0u64, a3.len() as int + b3.len()))) by {
                lemma_seq_assoc(a3, b3, t4);
                lemma_uvarint_roundtrip(a3, 0, t4);
            }
        }
    }

    /// The bytes written: the encoding of each field, in the order of the
    /// protocol's layout. Reading them back, wherever they stand, gives the value,
    /// with each field that the version leaves out at its default.
    #[verifier::spinoff_prover]
    pub proof fn lemma_message_layout(pre: Seq<u8>, m: DescribeConfigsRequestModel, post: Seq<u8>, version: i16)
        requires
            Self::spec_serialize(m, version) is Ok,
        ensures
            Self::spec_serialize(m, version) == Ok::<Seq<u8>, SerializationError>(((array_bytes::<DescribeConfigsResource>(m.resources, Ctx { version: version, flexible: (version >= 4), classic: false }))->Ok_0) + (if 1 <= version { bool_bytes(m.include_synonyms) } else { Seq::<u8>::empty() }) + (if 3 <= version { bool_bytes(m.include_documentation) } else { Seq::<u8>::empty() }) + (if (version >= 4) { uvarint_bytes(0) } else { Seq::<u8>::empty() })),
            Self::reads_back_message(m, version) ==> Self::spec_deserialize(pre + (((array_bytes::<DescribeConfigsResource>(m.resources, Ctx { version: version, flexible: (version >= 4), classic: false }))->Ok_0) + (if 1 <= version { bool_bytes(m.include_synonyms) } else { Seq::<u8>::empty() }) + (if 3 <= version { bool_bytes(m.include_documentation) } else { Seq::<u8>::empty() }) + (if (version >= 4) { uvarint_bytes(0) } else { Seq::<u8>::empty() })) + post, pre.len() as int, version) == Ok::<(DescribeConfigsRequestModel, int), SerializationError>((DescribeConfigsRequestModel { resources: m.resources, include_synonyms: if 1 <= version { m.include_synonyms } else { false }, include_documentation: if 3 <= version { m.include_documentation } else { false } }, pre.len() as int + (((array_bytes::<DescribeConfigsResource>(m.resources, Ctx { version: version, flexible: (version >= 4), classic: false }))->Ok_0) + (if 1 <= version { bool_bytes(m.include_synonyms) } else { Seq::<u8>::empty() }) + (if 3 <= version { bool_bytes(m.include_documentation) } else { Seq::<u8>::empty() }) + (if (version >= 4) { uvarint_bytes(0) } else { Seq::<u8>::empty() })).len())),
    {
        let is_flexible = version >= 4;
        let ctx = Ctx { version, flexible: is_flexible, classic: false };
        let b0 = (array_bytes::<DescribeConfigsResource>(m.resources, Ctx { version: ctx.version, flexible: ctx.flexible, classic: false }))->Ok_0;
        let b1 = if 1 <= ctx.version { bool_bytes(m.include_synonyms) } else { Seq::<u8>::empty() };
        let b2 = if 3 <= ctx.version { bool_bytes(m.include_documentation) } else { Seq::<u8>::empty() };
        let b3 = if ctx.flexible { uvarint_bytes(0) } else { Seq::<u8>::empty() };
        let e = Self::spec_serialize(m, version)->Ok_0;
        assert(e =~= Seq::<u8>::empty() + b0 + b1 + b2 + b3);
        assert(e =~= b0 + b1 + b2 + b3);
        if Self::reads_back_message(m, version) {
            Self::lemma_message_read_back(pre, m, post, version);
        }
    }

    /// Writing succeeds exactly when every field that the version carries can be
    /// encoded and every field that it leaves out, where leaving it out is an
    /// error, holds its default.
    #[verifier::spinoff_prover]
    pub proof fn lemma_message_write_succeeds(m: DescribeConfigsRequestModel, version: i16)
        ensures
            Self::spec_serialize(m, version) is Ok <==> (array_bytes::<DescribeConfigsResource>(m.resources, Ctx { version: version, flexible: (version >= 4), classic: false }) is Ok) && (!(1 <= version) ==> !(m.include_synonyms)) && (!(3 <= version) ==> !(m.include_documentation)),
    {
        let is_flexible = version >= 4;
        let ctx = Ctx { version, flexible: is_flexible, classic: false };
    }

    /// Writes the message body for `version`, which must be a supported version.
    /// On failure the buffer is left as it was.
    pub fn serialize(&self, version: ApiVersion, buf: &mut Vec<u8>) -> (r: Result<(), SerializationError>)
        requires
            1 <= version.0 <= 4,
        ensures
            write_exact(r, old(buf)@, final(buf)@, Self::spec_serialize(self.deep_view(), version.0)),
    {
        let start = buf.len();
        let r = self.write_body(version, buf);
        if r.is_err() {
            buf.truncate(start);
        }
        r
    }

    fn write_body(&self, version: ApiVersion, buf: &mut Vec<u8>) -> (r: Result<(), SerializationError>)
        requires
            1 <= version.0 <= 4,
        ensures
            write_ok(r, old(buf)@, final(buf)@, Self::spec_serialize(self.deep_view(), version.0)),
    {
        let is_flexible = version.0 >= Self::get_min_flexible_version().0;
        let ctx = Ctx::new(version, is_flexible);
        let ghost mut w: Seq<u8> = Seq::empty();
        encode_array(&self.resources, buf, Ctx { version: ctx.version, flexible: ctx.flexible, classic: false })?;
        proof {
            w = w + (array_bytes::<DescribeConfigsResource>(self.resources.deep_view(), Ctx { version: ctx.version, flexible: ctx.flexible, classic: false }))->Ok_0;
        }
        assert(buf@ =~= old(buf)@ + w);
        if 1 <= ctx.version {
            put_bool(buf, self.include_synonyms);
            proof {
                w = w + bool_bytes(self.include_synonyms);
            }
            assert(buf@ =~= old(buf)@ + w);
        } else if self.include_synonyms {
            return Err(SerializationError::Encode("field 'IncludeSynonyms' is not available in this version"));
        }
        if 3 <= ctx.version {
            put_bool(buf, self.include_documentation);
            proof {
                w = w + bool_bytes(self.include_documentation);
            }
            assert(buf@ =~= old(buf)@ + w);
        } else if self.include_documentation {
            return Err(SerializationError::Encode("field 'IncludeDocumentation' is not available in this version"));
        }
        if ctx.flexible {
            encode_unsigned_varint(0, buf);
            proof {
                w = w + uvarint_bytes(0);
            }
            assert(buf@ =~= old(buf)@ + w);
        }
        Ok(())
    }

    /// Reads a message body written for `version`.
    /// On failure the reader is put back where it started.
    pub fn deserialize(version: ApiVersion, buf: &mut Reader) -> (r: Result<Self, SerializationError>)
        ensures
            final(buf).bytes() == old(buf).bytes(),
            read_view_exact(r, Self::spec_deserialize(old(buf).bytes(), old(buf).pos(), version.0), old(buf).pos(), final(buf).pos()),
    {
        let start = buf.position();
        let r = Self::read_body(version, buf);
        if r.is_err() {
            buf.set_position(start);
        }
        r
    }

    fn read_body(version: ApiVersion, buf: &mut Reader) -> (r: Result<Self, SerializationError>)
        ensures
            final(buf).bytes() == old(buf).bytes(),
            read_view_ok(r, Self::spec_deserialize(old(buf).bytes(), old(buf).pos(), version.0), final(buf).pos()),
    {
        let is_flexible = version.0 >= Self::get_min_flexible_version().0;
        let ctx = Ctx::new(version, is_flexible);
        let resources = decode_array::<DescribeConfigsResource>(buf, Ctx { version: ctx.version, flexible: ctx.flexible, classic: false })?;
        let include_synonyms = if 1 <= ctx.version {
            buf.get_bool()?
        } else {
            false
        };
        let include_documentation = if 3 <= ctx.version {
            buf.get_bool()?
        } else {
            false
        };
        if ctx.flexible {
            let (_tag_count, _) = decode_unsigned_varint(buf)?;
        }
        Ok(DescribeConfigsRequest { resources, include_synonyms, include_documentation })
    }
}

// -------------------------------------------------------
// DescribeConfigsResource
// -------------------------------------------------------
#[derive(Clone, Debug, Default, PartialEq)]
pub struct DescribeConfigsResource {
    /// The resource type.
    pub resource_type: i8,
    /// The resource name.
    pub resource_name: String,
    /// The configuration keys to list, or null to list all configuration keys.
    pub configuration_keys: Option<Vec<String>>,
}

/// The contents of `DescribeConfigsResource`, with strings as characters and
/// nested values by their contents.
pub struct DescribeConfigsResourceModel {
    pub resource_type: i8,
    pub resource_name: Seq<char>,
    pub configuration_keys: Option<Seq<<String as DeepView>::V>>,
}

impl DeepView for DescribeConfigsResource {
    type V = DescribeConfigsResourceModel;

    open spec fn deep_view(&self) -> DescribeConfigsResourceModel {
        DescribeConfigsResourceModel {
            resource_type: self.resource_type,
            resource_name: self.resource_name.deep_view(),
            configuration_keys: self.configuration_keys.deep_view(),
        }
    }
}

impl DescribeConfigsResource {
    /// The encoding of the structure in context `ctx`.
    pub open spec fn spec_encode_body(m: DescribeConfigsResourceModel, ctx: Ctx) -> Result<Seq<u8>, SerializationError> {
        let r = Ok(Seq::<u8>::empty());
        let r = then(r, Ok(i8_bytes(m.resource_type)));
        let r = then(r, string_bytes(m.resource_name, ctx.flexible));
        let r = then(r, nullable_array_bytes::<String>(m.configuration_keys, Ctx { version: ctx.version, flexible: ctx.flexible, classic: false }));
        let r = if ctx.flexible { then(r, Ok(uvarint_bytes(0))) } else { r };
        r
    }

    /// The structure read from `s` at `pos` in context `ctx`.
    pub open spec fn spec_decode_body(s: Seq<u8>, pos: int, ctx: Ctx) -> Result<(DescribeConfigsResourceModel, int), SerializationError> {
        match parse_i8(s, pos) {
            Err(e) => Err(e),
            Ok((resource_type, pos)) =>
            match parse_string(s, pos, ctx.flexible) {
                Err(e) => Err(e),
                Ok((resource_name, pos)) =>
                match parse_nullable_array::<String>(s, pos, Ctx { version: ctx.version, flexible: ctx.flexible, classic: false }) {
                    Err(e) => Err(e),
                    Ok((configuration_keys, pos)) =>
                    match (if ctx.flexible { parse_uvarint(s, pos) } else { Ok((0u64, pos)) }) {
                        Err(e) => Err(e),
                        Ok((_tag_count, pos)) =>
                        Ok((DescribeConfigsResourceModel { resource_type, resource_name, configuration_keys }, pos))
                    }
                }
            }
        }
    }

    /// Values of the structure that read back from their encoding in `ctx`: every
    /// field that the version leaves out holds its default, and nested values
    /// read back.
    pub open spec fn reads_back_body(m: DescribeConfigsResourceModel, ctx: Ctx) -> bool {
        &&& (m.configuration_keys matches Some(items) ==> forall|i: int| 0 <= i < items.len() ==> #[trigger] <String as KafkaCodec>::reads_back(items[i], Ctx { version: ctx.version, flexible: ctx.flexible, classic: false }))
    }

    /// A value that can be written in `ctx` and reads back: decoding its encoding,
    /// wherever it stands, gives the value and the position just after it.
    #[verifier::spinoff_prover]
    pub proof fn lemma_body_read_back(pre: Seq<u8>, m: DescribeConfigsResourceModel, post: Seq<u8>, ctx: Ctx)
        requires
            Self::spec_encode_body(m, ctx) is Ok,
            Self::reads_back_body(m, ctx),
        ensures
            Self::spec_decode_body(pre + Self::spec_encode_body(m, ctx)->Ok_0 + post, pre.len() as int, ctx) == Ok::<(DescribeConfigsResourceModel, int), SerializationError>((m, pre.len() as int + Self::spec_encode_body(m, ctx)->Ok_0.len())),
    {
        let b0 = i8_bytes(m.resource_type);
        let b1 = (string_bytes(m.resource_name, ctx.flexible))->Ok_0;
        let b2 = (nullable_array_bytes::<String>(m.configuration_keys, Ctx { version: ctx.version, flexible: ctx.flexible, classic: false }))->Ok_0;
        let b3 = if ctx.flexible { uvarint_bytes(0) } else { Seq::<u8>::empty() };
        let t4 = post;
        let t3 = b3 + t4;
        let t2 = b2 + t3;
        let t1 = b1 + t2;
        let t0 = b0 + t1;
        let e = Self::spec_encode_body(m, ctx)->Ok_0;
        assert(e =~= Seq::<u8>::empty() + b0 + b1 + b2 + b3);
        lemma_seq_assoc((((Seq::<u8>::empty() + b0) + b1) + b2), b3, post);
        lemma_seq_assoc(((Seq::<u8>::empty() + b0) + b1), b2, (b3 + post));
        lemma_seq_assoc((Seq::<u8>::empty() + b0), b1, (b2 + (b3 + post)));
        lemma_seq_assoc(Seq::<u8>::empty(), b0, (b1 + (b2 + (b3 + post))));
        lemma_seq_empty_left((b0 + (b1 + (b2 + (b3 + post)))));
        let s = pre + e + post;
        lemma_seq_assoc(pre, e, post);
        assert(s == pre + t0);
        let a0 = pre;
        assert(parse_i8(s, a0.len() as int) == Ok::<(i8, int), SerializationError>((m.resource_type, a0.len() as int + b0.len()))) by {
            lemma_seq_assoc(a0, b0, t1);
            lemma_i8_roundtrip(a0, m.resource_type, t1);
        }
        lemma_seq_assoc(a0, b0, t1);
        let a1 = a0 + b0;
        assert(parse_string(s, a1.len() as int, ctx.flexible) == Ok::<(Seq<char>, int), SerializationError>((m.resource_name, a1.len() as int + b1.len()))) by {
            assert(string_bytes(m.resource_name, ctx.flexible) is Ok);
            lemma_seq_assoc(a1, b1, t2);
            lemma_string_roundtrip(a1, m.resource_name, t2, ctx.flexible);
        }
        lemma_seq_assoc(a1, b1, t2);
        let a2 = a1 + b1;
        assert(parse_nullable_array::<String>(s, a2.len() as int, Ctx { version: ctx.version, flexible: ctx.flexible, classic: false }) == Ok::<(Option<Seq<<String as DeepView>::V>>, int), SerializationError>((m.configuration_keys, a2.len() as int + b2.len()))) by {
            assert(nullable_array_bytes::<String>(m.configuration_keys, Ctx { version: ctx.version, flexible: ctx.flexible, classic: false }) is Ok);
            lemma_seq_assoc(a2, b2, t3);
            if let Some(items) = m.configuration_keys {
                lemma_items_read_back::<String>(items, Ctx { version: ctx.version, flexible: ctx.flexible, classic: false });
            }
            lemma_nullable_array_roundtrip::<String>(a2, m.configuration_keys, t3, Ctx { version: ctx.version, flexible: ctx.flexible, classic: false });
        }
        lemma_seq_assoc(a2, b2, t3);
        let a3 = a2 + b2;
        if ctx.flexible {
            assert(parse_uvarint(s, a3.len() as int) == Ok::<(u64, int), SerializationError>((0u64, a3.len() as int + b3.len()))) by {
                lemma_seq_assoc(a3, b3, t4);
                lemma_uvarint_roundtrip(a3, 0, t4);
            }
        }
    }

    /// The bytes written: the encoding of each field, in the order of the
    /// protocol's layout. Reading them back, wherever they stand, gives the value,
    /// with each field that the version leaves out at its default.
    #[verifier::spinoff_prover]
    pub proof fn lemma_body_layout(pre: Seq<u8>, m: DescribeConfigsResourceModel, post: Seq<u8>, ctx: Ctx)
        requires
            Self::spec_encode_body(m, ctx) is Ok,
        ensures
            Self::spec_encode_body(m, ctx) == Ok::<Seq<u8>, SerializationError>((i8_bytes(m.resource_type)) + ((string_bytes(m.resource_name, ctx.flexible))->Ok_0) + ((nullable_array_bytes::<String>(m.configuration_keys, Ctx { version: ctx.version, flexible: ctx.flexible, classic: false }))->Ok_0) + (if ctx.flexible { uvarint_bytes(0) } else { Seq::<u8>::empty() })),
            Self::reads_back_body(m, ctx) ==> Self::spec_decode_body(pre + ((i8_bytes(m.resource_type)) + ((string_bytes(m.resource_name, ctx.flexible))->Ok_0) + ((nullable_array_bytes::<String>(m.configuration_keys, Ctx { version: ctx.version, flexible: ctx.flexible, classic: false }))->Ok_0) + (if ctx.flexible { uvarint_bytes(0) } else { Seq::<u8>::empty() })) + post, pre.len() as int, ctx) == Ok::<(DescribeConfigsResourceModel, int), SerializationError>((m, pre.len() as int + ((i8_bytes(m.resource_type)) + ((string_bytes(m.resource_name, ctx.flexible))->Ok_0) + ((nullable_array_bytes::<String>(m.configuration_keys, Ctx { version: ctx.version, flexible: ctx.flexible, classic: false }))->Ok_0) + (if ctx.flexible { uvarint_bytes(0) } else { Seq::<u8>::empty() })).len())),
    {
        let b0 = i8_bytes(m.resource_type);
        let b1 = (string_bytes(m.resource_name, ctx.flexible))->Ok_0;
        let b2 = (nullable_array_bytes::<String>(m.configuration_keys, Ctx { version: ctx.version, flexible: ctx.flexible, classic: false }))->Ok_0;
        let b3 = if ctx.flexible { uvarint_bytes(0) } else { Seq::<u8>::empty() };
        let e = Self::spec_encode_body(m, ctx)->Ok_0;
        assert(e =~= Seq::<u8>::empty() + b0 + b1 + b2 + b3);
        assert(e =~= b0 + b1 + b2 + b3);
        if Self::reads_back_body(m, ctx) {
            Self::lemma_body_read_back(pre, m, post, ctx);
        }
    }

    /// Writing succeeds exactly when every field that the version carries can be
    /// encoded and every field that it leaves out, where leaving it out is an
    /// error, holds its default.
    #[verifier::spinoff_prover]
    pub proof fn lemma_body_write_succeeds(m: DescribeConfigsResourceModel, ctx: Ctx)
        ensures
            Self::spec_encode_body(m, ctx) is Ok <==> (string_bytes(m.resource_name, ctx.flexible) is Ok) && (nullable_array_bytes::<String>(m.configuration_keys, Ctx { version: ctx.version, flexible: ctx.flexible, classic: false }) is Ok),
    {
    }

    /// Writes the structure for `version`, with the compact encodings when `is_flexible`.
    /// On failure the buffer is left as it was.
    pub fn encode(&self, buf: &mut Vec<u8>, version: ApiVersion, is_flexible: bool) -> (r: Result<(), SerializationError>)
        ensures
            write_exact(r, old(buf)@, final(buf)@, Self::spec_encode_body(self.deep_view(), Ctx { version: version.0, flexible: is_flexible, classic: false })),
    {
        let start = buf.len();
        let r = self.encode_ctx(buf, Ctx::new(version, is_flexible));
        if r.is_err() {
            buf.truncate(start);
        }
        r
    }

    /// Reads the structure as written for `version`.
    /// On failure the reader is put back where it started.
    pub fn decode(buf: &mut Reader, version: ApiVersion, is_flexible: bool) -> (r: Result<Self, SerializationError>)
        ensures
            final(buf).bytes() == old(buf).bytes(),
            read_view_exact(r, Self::spec_decode_body(old(buf).bytes(), old(buf).pos(), Ctx { version: version.0, flexible: is_flexible, classic: false }), old(buf).pos(), final(buf).pos()),
    {
        let start = buf.position();
        let r = Self::decode_ctx(buf, Ctx::new(version, is_flexible));
        if r.is_err() {
            buf.set_position(start);
        }
        r
    }
}

impl KafkaCodec for DescribeConfigsResource {
    open spec fn spec_encode(m: DescribeConfigsResourceModel, ctx: Ctx) -> Result<Seq<u8>, SerializationError> {
        Self::spec_encode_body(m, ctx)
    }

    open spec fn spec_decode(s: Seq<u8>, pos: int, ctx: Ctx) -> Result<(DescribeConfigsResourceModel, int), SerializationError> {
        Self::spec_decode_body(s, pos, ctx)
    }

    open spec fn reads_back(v: DescribeConfigsResourceModel, ctx: Ctx) -> bool {
        Self::reads_back_body(v, ctx)
    }

    proof fn lemma_read_back(pre: Seq<u8>, v: DescribeConfigsResourceModel, post: Seq<u8>, ctx: Ctx) {
        Self::lemma_body_read_back(pre, v, post, ctx);
        assert(Self::spec_decode(pre + Self::spec_encode(v, ctx)->Ok_0 + post, pre.len() as int, ctx)
            == Self::spec_decode_body(pre + Self::spec_encode_body(v, ctx)->Ok_0 + post, pre.len() as int, ctx));
    }

    fn encode_ctx(&self, buf: &mut Vec<u8>, ctx: Ctx) -> (r: Result<(), SerializationError>) {
        let ghost mut w: Seq<u8> = Seq::empty();
        put_i8(buf, self.resource_type);
        proof {
            w = w + i8_bytes(self.resource_type);
        }
        assert(buf@ =~= old(buf)@ + w);
        encode_string(&self.resource_name, buf, ctx.flexible)?;
        proof {
            w = w + (string_bytes(self.resource_name.deep_view(), ctx.flexible))->Ok_0;
        }
        assert(buf@ =~= old(buf)@ + w);
        encode_nullable_array(&self.configuration_keys, buf, Ctx { version: ctx.version, flexible: ctx.flexible, classic: false })?;
        proof {
            w = w + (nullable_array_bytes::<String>(self.configuration_keys.deep_view(), Ctx { version: ctx.version, flexible: ctx.flexible, classic: false }))->Ok_0;
        }
        assert(buf@ =~= old(buf)@ + w);
        if ctx.flexible {
            encode_unsigned_varint(0, buf);
            proof {
                w = w + uvarint_bytes(0);
            }
            assert(buf@ =~= old(buf)@ + w);
        }
        Ok(())
    }

    fn decode_ctx(buf: &mut Reader, ctx: Ctx) -> (r: Result<Self, SerializationError>) {
        let resource_type = buf.get_i8()?;
        let resource_name = buf.get_string(ctx.flexible)?;
        let configuration_keys = decode_nullable_array::<String>(buf, Ctx { version: ctx.version, flexible: ctx.flexible, classic: false })?;
        if ctx.flexible {
            let (_tag_count, _) = decode_unsigned_varint(buf)?;
        }
        Ok(DescribeConfigsResource { resource_type, resource_name, configuration_keys })
    }
}

} // verus!
