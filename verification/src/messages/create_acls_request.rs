//! CreateAclsRequest (API key 30).
use vstd::prelude::*;
use crate::roundtrip::{lemma_array_roundtrip, lemma_i8_roundtrip, lemma_items_read_back,
    lemma_seq_assoc, lemma_seq_empty_left, lemma_string_roundtrip, lemma_uvarint_roundtrip};
use crate::serialization::{Ctx, KafkaCodec, Reader, SerializationError, array_bytes, decode_array,
    decode_unsigned_varint, encode_array, encode_string, encode_unsigned_varint, i8_bytes,
    parse_array, parse_i8, parse_string, parse_uvarint, put_i8, read_view_exact, read_view_ok,
    string_bytes, then, uvarint_bytes, write_exact, write_ok};
use crate::{ApiKey, ApiVersion};

verus! {

// -------------------------------------------------------
// CreateAclsRequest
// -------------------------------------------------------
#[derive(Clone, Debug, Default, PartialEq)]
pub struct CreateAclsRequest {
    /// The ACLs that we want to create.
    pub creations: Vec<AclCreation>,
}

/// The contents of `CreateAclsRequest`, with strings as characters and
/// nested values by their contents.
pub struct CreateAclsRequestModel {
    pub creations: Seq<<AclCreation as DeepView>::V>,
}

impl DeepView for CreateAclsRequest {
    type V = CreateAclsRequestModel;

    open spec fn deep_view(&self) -> CreateAclsRequestModel {
        CreateAclsRequestModel {
            creations: self.creations.deep_view(),
        }
    }
}

impl CreateAclsRequest {
    /// The encoding of the structure in context `ctx`.
    pub open spec fn spec_encode_body(m: CreateAclsRequestModel, ctx: Ctx) -> Result<Seq<u8>, SerializationError> {
        let r = Ok(Seq::<u8>::empty());
        let r = then(r, array_bytes::<AclCreation>(m.creations, Ctx { version: ctx.version, flexible: ctx.flexible, classic: false }));
        let r = if ctx.flexible { then(r, Ok(uvarint_bytes(0))) } else { r };
        r
    }

    /// The structure read from `s` at `pos` in context `ctx`.
    pub open spec fn spec_decode_body(s: Seq<u8>, pos: int, ctx: Ctx) -> Result<(CreateAclsRequestModel, int), SerializationError> {
        match parse_array::<AclCreation>(s, pos, Ctx { version: ctx.version, flexible: ctx.flexible, classic: false }) {
            Err(e) => Err(e),
            Ok((creations, pos)) =>
            match (if ctx.flexible { parse_uvarint(s, pos) } else { Ok((0u64, pos)) }) {
                Err(e) => Err(e),
                Ok((_tag_count, pos)) =>
                Ok((CreateAclsRequestModel { creations }, pos))
            }
        }
    }

    /// Values of the structure that read back from their encoding in `ctx`: every
    /// field that the version leaves out holds its default, and nested values
    /// read back.
    pub open spec fn reads_back_body(m: CreateAclsRequestModel, ctx: Ctx) -> bool {
        &&& forall|i: int| 0 <= i < m.creations.len() ==> #[trigger] <AclCreation as KafkaCodec>::reads_back(m.creations[i], Ctx { version: ctx.version, flexible: ctx.flexible, classic: false })
    }

    /// A value that can be written in `ctx` and reads back: decoding its encoding,
    /// wherever it stands, gives the value and the position just after it.
    #[verifier::spinoff_prover]
    pub proof fn lemma_body_read_back(pre: Seq<u8>, m: CreateAclsRequestModel, post: Seq<u8>, ctx: Ctx)
        requires
            Self::spec_encode_body(m, ctx) is Ok,
            Self::reads_back_body(m, ctx),
        ensures
            Self::spec_decode_body(pre + Self::spec_encode_body(m, ctx)->Ok_0 + post, pre.len() as int, ctx) == Ok::<(CreateAclsRequestModel, int), SerializationError>((m, pre.len() as int + Self::spec_encode_body(m, ctx)->Ok_0.len())),
    {
        let b0 = (array_bytes::<AclCreation>(m.creations, Ctx { version: ctx.version, flexible: ctx.flexible, classic: false }))->Ok_0;
        let b1 = if ctx.flexible { uvarint_bytes(0) } else { Seq::<u8>::empty() };
        let t2 = post;
        let t1 = b1 + t2;
        let t0 = b0 + t1;
        let e = Self::spec_encode_body(m, ctx)->Ok_0;
        assert(e =~= Seq::<u8>::empty() + b0 + b1);
        lemma_seq_assoc((Seq::<u8>::empty() + b0), b1, post);
        lemma_seq_assoc(Seq::<u8>::empty(), b0, (b1 + post));
        lemma_seq_empty_left((b0 + (b1 + post)));
        let s = pre + e + post;
        lemma_seq_assoc(pre, e, post);
        assert(s == pre + t0);
        let a0 = pre;
        assert(parse_array::<AclCreation>(s, a0.len() as int, Ctx { version: ctx.version, flexible: ctx.flexible, classic: false }) == Ok::<(Seq<<AclCreation as DeepView>::V>, int), SerializationError>((m.creations, a0.len() as int + b0.len()))) by {
            assert(array_bytes::<AclCreation>(m.creations, Ctx { version: ctx.version, flexible: ctx.flexible, classic: false }) is Ok);
            lemma_seq_assoc(a0, b0, t1);
            lemma_items_read_back::<AclCreation>(m.creations, Ctx { version: ctx.version, flexible: ctx.flexible, classic: false });
            lemma_array_roundtrip::<AclCreation>(a0, m.creations, t1, Ctx { version: ctx.version, flexible: ctx.flexible, classic: false });
        }
        lemma_seq_assoc(a0, b0, t1);
        let a1 = a0 + b0;
        if ctx.flexible {
            assert(parse_uvarint(s, a1.len() as int) == Ok::<(u64, int), SerializationError>((0u64, a1.len() as int + b1.len()))) by {
                lemma_seq_assoc(a1, b1, t2);
                lemma_uvarint_roundtrip(a1, 0, t2);
            }
        }
    }

    /// The bytes written: the encoding of each field, in the order of the
    /// protocol's layout. Reading them back, wherever they stand, gives the value,
    /// with each field that the version leaves out at its default.
    #[verifier::spinoff_prover]
    pub proof fn lemma_body_layout(pre: Seq<u8>, m: CreateAclsRequestModel, post: Seq<u8>, ctx: Ctx)
        requires
            Self::spec_encode_body(m, ctx) is Ok,
        ensures
            Self::spec_encode_body(m, ctx) == Ok::<Seq<u8>, SerializationError>(((array_bytes::<AclCreation>(m.creations, Ctx { version: ctx.version, flexible: ctx.flexible, classic: false }))->Ok_0) + (if ctx.flexible { uvarint_bytes(0) } else { Seq::<u8>::empty() })),
            Self::reads_back_body(m, ctx) ==> Self::spec_decode_body(pre + (((array_bytes::<AclCreation>(m.creations, Ctx { version: ctx.version, flexible: ctx.flexible, classic: false }))->Ok_0) + (if ctx.flexible { uvarint_bytes(0) } else { Seq::<u8>::empty() })) + post, pre.len() as int, ctx) == Ok::<(CreateAclsRequestModel, int), SerializationError>((m, pre.len() as int + (((array_bytes::<AclCreation>(m.creations, Ctx { version: ctx.version, flexible: ctx.flexible, classic: false }))->Ok_0) + (if ctx.flexible { uvarint_bytes(0) } else { Seq::<u8>::empty() })).len())),
    {
        let b0 = (array_bytes::<AclCreation>(m.creations, Ctx { version: ctx.version, flexible: ctx.flexible, classic: false }))->Ok_0;
        let b1 = if ctx.flexible { uvarint_bytes(0) } else { Seq::<u8>::empty() };
        let e = Self::spec_encode_body(m, ctx)->Ok_0;
        assert(e =~= Seq::<u8>::empty() + b0 + b1);
        assert(e =~= b0 + b1);
        if Self::reads_back_body(m, ctx) {
            Self::lemma_body_read_back(pre, m, post, ctx);
        }
    }

    /// Writing succeeds exactly when every field that the version carries can be
    /// encoded and every field that it leaves out, where leaving it out is an
    /// error, holds its default.
    #[verifier::spinoff_prover]
    pub proof fn lemma_body_write_succeeds(m: CreateAclsRequestModel, ctx: Ctx)
        ensures
            Self::spec_encode_body(m, ctx) is Ok <==> (array_bytes::<AclCreation>(m.creations, Ctx { version: ctx.version, flexible: ctx.flexible, classic: false }) is Ok),
    {
    }

    /// Writes the structure for `version`, with the compact encodings when `is_flexible`.
    /// On failure the buffer is left as it was.
    pub fn encode(&self, buf: &mut Vec<u8>, version: ApiVersion, is_flexible: bool) -> (r: Result<(), SerializationError>)
        ensures
            write_exact(r, old(buf)@, final(buf)@, Self::spec_encode_body(self.deep_view(), Ctx { version: version.0, flexible: is_flexible, classic: false })),
    {
        let start = buf.len();
        let r = self.encode_ctx(buf, Ctx::new(version, is_flexible));
        if r.is_err() {
            buf.truncate(start);
        }
        r
    }

    /// Reads the structure as written for `version`.
    /// On failure the reader is put back where it started.
    pub fn decode(buf: &mut Reader, version: ApiVersion, is_flexible: bool) -> (r: Result<Self, SerializationError>)
        ensures
            final(buf).bytes() == old(buf).bytes(),
            read_view_exact(r, Self::spec_decode_body(old(buf).bytes(), old(buf).pos(), Ctx { version: version.0, flexible: is_flexible, classic: false }), old(buf).pos(), final(buf).pos()),
    {
        let start = buf.position();
        let r = Self::decode_ctx(buf, Ctx::new(version, is_flexible));
        if r.is_err() {
            buf.set_position(start);
        }
        r
    }
}

impl KafkaCodec for CreateAclsRequest {
    open spec fn spec_encode(m: CreateAclsRequestModel, ctx: Ctx) -> Result<Seq<u8>, SerializationError> {
        Self::spec_encode_body(m, ctx)
    }

    open spec fn spec_decode(s: Seq<u8>, pos: int, ctx: Ctx) -> Result<(CreateAclsRequestModel, int), SerializationError> {
        Self::spec_decode_body(s, pos, ctx)
    }

    open spec fn reads_back(v: CreateAclsRequestModel, ctx: Ctx) -> bool {
        Self::reads_back_body(v, ctx)
    }

    proof fn lemma_read_back(pre: Seq<u8>, v: CreateAclsRequestModel, post: Seq<u8>, ctx: Ctx) {
        Self::lemma_body_read_back(pre, v, post, ctx);
        assert(Self::spec_decode(pre + Self::spec_encode(v, ctx)->Ok_0 + post, pre.len() as int, ctx)
            == Self::spec_decode_body(pre + Self::spec_encode_body(v, ctx)->Ok_0 + post, pre.len() as int, ctx));
    }

    fn encode_ctx(&self, buf: &mut Vec<u8>, ctx: Ctx) -> (r: Result<(), SerializationError>) {
        let ghost mut w: Seq<u8> = Seq::empty();
        encode_array(&self.creations, buf, Ctx { version: ctx.version, flexible: ctx.flexible, classic: false })?;
        proof {
            w = w + (array_bytes::<AclCreation>(self.creations.deep_view(), Ctx { version: ctx.version, flexible: ctx.flexible, classic: false }))->Ok_0;
        }
        assert(buf@ =~= old(buf)@ + w);
        if ctx.flexible {
            encode_unsigned_varint(0, buf);
            proof {
                w = w + uvarint_bytes(0);
            }
            assert(buf@ =~= old(buf)@ + w);
        }
        Ok(())
    }

    fn decode_ctx(buf: &mut Reader, ctx: Ctx) -> (r: Result<Self, SerializationError>) {
        let creations = decode_array::<AclCreation>(buf, Ctx { version: ctx.version, flexible: ctx.flexible, classic: false })?;
        if ctx.flexible {
            let (_tag_count, _) = decode_unsigned_varint(buf)?;
        }
        Ok(CreateAclsRequest { creations })
    }
}

impl CreateAclsRequest {
    /// The API key of this message.
    pub fn get_api_key() -> (r: ApiKey)
        ensures
            r.0 == 30,
    {
        ApiKey::new(30)
    }

    /// The oldest version of this message.
    pub fn get_min_supported_version() -> (r: ApiVersion)
        ensures
            r.0 == 1,
    {
        ApiVersion::new(1)
    }

    /// The newest version of this message.
    pub fn get_max_supported_version() -> (r: ApiVersion)
        ensures
            r.0 == 3,
    {
        ApiVersion::new(3)
    }

    /// The first version of this message with the compact encodings.
    pub fn get_min_flexible_version() -> (r: ApiVersion)
        ensures
            r.0 == 2,
    {
        ApiVersion::new(2)
    }

    /// The encoding of a whole message body at `version`.
    pub open spec fn spec_serialize(m: CreateAclsRequestModel, version: i16) -> Result<Seq<u8>, SerializationError> {
        let is_flexible = version >= 2;
        let ctx = Ctx { version, flexible: is_flexible, classic: false };
        let r = Ok(Seq::<u8>::empty());
        let r = then(r, array_bytes::<AclCreation>(m.creations, Ctx { version: ctx.version, flexible: ctx.flexible, classic: false }));
        let r = if ctx.flexible { then(r, Ok(uvarint_bytes(0))) } else { r };
        r
    }

    /// The message body read at `version`.
    pub open spec fn spec_deserialize(s: Seq<u8>, pos: int, version: i16) -> Result<(CreateAclsRequestModel, int), SerializationError> {
        let is_flexible = version >= 2;
        let ctx = Ctx { version, flexible: is_flexible, classic: false };
        match parse_array::<AclCreation>(s, pos, Ctx { version: ctx.version, flexible: ctx.flexible, classic: false }) {
            Err(e) => Err(e),
            Ok((creations, pos)) =>
            match (if ctx.flexible { parse_uvarint(s, pos) } else { Ok((0u64, pos)) }) {
                Err(e) => Err(e),
                Ok((_tag_count, pos)) =>
                Ok((CreateAclsRequestModel { creations }, pos))
            }
        }
    }

    /// Message bodies that read back when written at `version`: every field that
    /// the version leaves out holds its default, and nested values read back.
    pub open spec fn reads_back_message(m: CreateAclsRequestModel, version: i16) -> bool {
        let is_flexible = version >= 2;
        let ctx = Ctx { version, flexible: is_flexible, classic: false };
        &&& forall|i: int| 0 <= i < m.creations.len() ==> #[trigger] <AclCreation as KafkaCodec>::reads_back(m.creations[i], Ctx { version: ctx.version, flexible: ctx.flexible, classic: false })
    }

    /// A message body that can be written at `version` and reads back: reading a
    /// body at `version` from its bytes, wherever they stand, gives the same message.
    #[verifier::spinoff_prover]
    pub proof fn lemma_message_read_back(pre: Seq<u8>, m: CreateAclsRequestModel, post: Seq<u8>, version: i16)
        requires
            Self::spec_serialize(m, version) is Ok,
            Self::reads_back_message(m, version),
        ensures
            Self::spec_deserialize(pre + Self::spec_serialize(m, version)->Ok_0 + post, pre.len() as int, version) == Ok::<(CreateAclsRequestModel, int), SerializationError>((m, pre.len() as int + Self::spec_serialize(m, version)->Ok_0.len())),
    {
        let is_flexible = version >= 2;
        let ctx = Ctx { version, flexible: is_flexible, classic: false };
        let b0 = (array_bytes::<AclCreation>(m.creations, Ctx { version: ctx.version, flexible: ctx.flexible, classic: false }))->Ok_0;
        let b1 = if ctx.flexible { uvarint_bytes(0) } else { Seq::<u8>::empty() };
        let t2 = post;
        let t1 = b1 + t2;
        let t0 = b0 + t1;
        let e = Self::spec_serialize(m, version)->Ok_0;
        assert(e =~= Seq::<u8>::empty() + b0 + b1);
        lemma_seq_assoc((Seq::<u8>::empty() + b0), b1, post);
        lemma_seq_assoc(Seq::<u8>::empty(), b0, (b1 + post));
        lemma_seq_empty_left((b0 + (b1 + post)));
        let s = pre + e + post;
        lemma_seq_assoc(pre, e, post);
        assert(s == pre + t0);
        let a0 = pre;
        assert(parse_array::<AclCreation>(s, a0.len() as int, Ctx { version: ctx.version, flexible: ctx.flexible, classic: false }) == Ok::<(Seq<<AclCreation as DeepView>::V>, int), SerializationError>((m.creations, a0.len() as int + b0.len()))) by {
            assert(array_bytes::<AclCreation>(m.creations, Ctx { version: ctx.version, flexible: ctx.flexible, classic: false }) is Ok);
            lemma_seq_assoc(a0, b0, t1);
            lemma_items_read_back::<AclCreation>(m.creations, Ctx { version: ctx.version, flexible: ctx.flexible, classic: false });
            lemma_array_roundtrip::<AclCreation>(a0, m.creations, t1, Ctx { version: ctx.version, flexible: ctx.flexible, classic: false });
        }
        lemma_seq_assoc(a0, b0, t1);
        let a1 = a0 + b0;
        if ctx.flexible {
            assert(parse_uvarint(s, a1.len() as int) == Ok::<(u64, int), SerializationError>((0u64, a1.len() as int + b1.len()))) by {
                lemma_seq_assoc(a1, b1, t2);
                lemma_uvarint_roundtrip(a1, 0, t2);
            }
        }
    }

    /// The bytes written: the encoding of each field, in the order of the
    /// protocol's layout. Reading them back, wherever they stand, gives the value,
    /// with each field that the version leaves out at its default.
    #[verifier::spinoff_prover]
    pub proof fn lemma_message_layout(pre: Seq<u8>, m: CreateAclsRequestModel, post: Seq<u8>, version: i16)
        requires
            Self::spec_serialize(m, version) is Ok,
        ensures
            Self::spec_serialize(m, version) == Ok::<Seq<u8>, SerializationError>(((array_bytes::<AclCreation>(m.creations, Ctx { version: version, flexible: (version >= 2), classic: false }))->Ok_0) + (if (version >= 2) { uvarint_bytes(0) } else { Seq::<u8>::empty() })),
            Self::reads_back_message(m, version) ==> Self::spec_deserialize(pre + (((array_bytes::<AclCreation>(m.creations, Ctx { version: version, flexible: (version >= 2), classic: false }))->Ok_0) + (if (version >= 2) { uvarint_bytes(0) } else { Seq::<u8>::empty() })) + post, pre.len() as int, version) == Ok::<(CreateAclsRequestModel, int), SerializationError>((m, pre.len() as int + (((array_bytes::<AclCreation>(m.creations, Ctx { version: version, flexible: (version >= 2), classic: false }))->Ok_0) + (if (version >= 2) { uvarint_bytes(0) } else { Seq::<u8>::empty() })).len())),
    {
        let is_flexible = version >= 2;
        let ctx = Ctx { version, flexible: is_flexible, classic: false };
        let b0 = (array_bytes::<AclCreation>(m.creations, Ctx { version: ctx.version, flexible: ctx.flexible, classic: false }))->Ok_0;
        let b1 = if ctx.flexible { uvarint_bytes(0) } else { Seq::<u8>::empty() };
        let e = Self::spec_serialize(m, version)->Ok_0;
        assert(e =~= Seq::<u8>::empty() + b0 + b1);
        assert(e =~= b0 + b1);
        if Self::reads_back_message(m, version) {
            Self::lemma_message_read_back(pre, m, post, version);
        }
    }

    /// Writing succeeds exactly when every field that the version carries can be
    /// encoded and every field that it leaves out, where leaving it out is an
    /// error, holds its default.
    #[verifier::spinoff_prover]
    pub proof fn lemma_message_write_succeeds(m: CreateAclsRequestModel, version: i16)
        ensures
            Self::spec_serialize(m, version) is Ok <==> (array_bytes::<AclCreation>(m.creations, Ctx { version: version, flexible: (version >= 2), classic: false }) is Ok),
    {
        let is_flexible = version >= 2;
        let ctx = Ctx { version, flexible: is_flexible, classic: false };
    }

    /// Writes the message body for `version`, which must be a supported version.
    /// On failure the buffer is left as it was.
    pub fn serialize(&self, version: ApiVersion, buf: &mut Vec<u8>) -> (r: Result<(), SerializationError>)
        requires
            1 <= version.0 <= 3,
        ensures
            write_exact(r, old(buf)@, final(buf)@, Self::spec_serialize(self.deep_view(), version.0)),
    {
        let start = buf.len();
        let r = self.write_body(version, buf);
        if r.is_err() {
            buf.truncate(start);
        }
        r
    }

    fn write_body(&self, version: ApiVersion, buf: &mut Vec<u8>) -> (r: Result<(), SerializationError>)
        requires
            1 <= version.0 <= 3,
        ensures
            write_ok(r, old(buf)@, final(buf)@, Self::spec_serialize(self.deep_view(), version.0)),
    {
        let is_flexible = version.0 >= Self::get_min_flexible_version().0;
        let ctx = Ctx::new(version, is_flexible);
        let ghost mut w: Seq<u8> = Seq::empty();
        encode_array(&self.creations, buf, Ctx { version: ctx.version, flexible: ctx.flexible, classic: false })?;
        proof {
            w = w + (array_bytes::<AclCreation>(self.creations.deep_view(), Ctx { version: ctx.version, flexible: ctx.flexible, classic: false }))->Ok_0;
        }
        assert(buf@ =~= old(buf)@ + w);
        if ctx.flexible {
            encode_unsigned_varint(0, buf);
            proof {
                w = w + uvarint_bytes(0);
            }
            assert(buf@ =~= old(buf)@ + w);
        }
        Ok(())
    }

    /// Reads a message body written for `version`.
    /// On failure the reader is put back where it started.
    pub fn deserialize(version: ApiVersion, buf: &mut Reader) -> (r: Result<Self, SerializationError>)
        ensures
            final(buf).bytes() == old(buf).bytes(),
            read_view_exact(r, Self::spec_deserialize(old(buf).bytes(), old(buf).pos(), version.0), old(buf).pos(), final(buf).pos()),
    {
        let start = buf.position();
        let r = Self::read_body(version, buf);
        if r.is_err() {
            buf.set_position(start);
        }
        r
    }

    fn read_body(version: ApiVersion, buf: &mut Reader) -> (r: Result<Self, SerializationError>)
        ensures
            final(buf).bytes() == old(buf).bytes(),
            read_view_ok(r, Self::spec_deserialize(old(buf).bytes(), old(buf).pos(), version.0), final(buf).pos()),
    {
        let is_flexible = version.0 >= Self::get_min_flexible_version().0;
        let ctx = Ctx::new(version, is_flexible);
        let creations = decode_array::<AclCreation>(buf, Ctx { version: ctx.version, flexible: ctx.flexible, classic: false })?;
        if ctx.flexible {
            let (_tag_count, _) = decode_unsigned_varint(buf)?;
        }
        Ok(CreateAclsRequest { creations })
    }
}

// -------------------------------------------------------
// AclCreation
// -------------------------------------------------------
#[derive(Clone, Debug, Default, PartialEq)]
pub struct AclCreation {
    /// The type of the resource.
    pub resource_type: i8,
    /// The resource name for the ACL.
    pub resource_name: String,
    /// The pattern type for the ACL.
    /// Available in version 1+.
    pub resource_pattern_type: i8,
    /// The principal for the ACL.
    pub principal: String,
    /// The host for the ACL.
    pub host: String,
    /// The operation type for the ACL (read, write, etc.).
    pub operation: i8,
    /// The permission type for the ACL (allow, deny, etc.).
    pub permission_type: i8,
}

/// The contents of `AclCreation`, with strings as characters and
/// nested values by their contents.
pub struct AclCreationModel {
    pub resource_type: i8,
    pub resource_name: Seq<char>,
    pub resource_pattern_type: i8,
    pub principal: Seq<char>,
    pub host: Seq<char>,
    pub operation: i8,
    pub permission_type: i8,
}

impl DeepView for AclCreation {
    type V = AclCreationModel;

    open spec fn deep_view(&self) -> AclCreationModel {
        AclCreationModel {
            resource_type: self.resource_type,
            resource_name: self.resource_name.deep_view(),
            resource_pattern_type: self.resource_pattern_type,
            principal: self.principal.deep_view(),
            host: self.host.deep_view(),
            operation: self.operation,
            permission_type: self.permission_type,
        }
    }
}

impl AclCreation {
    /// Fields 1 to 5 of the encoding.
    pub open spec fn spec_encode_body_part1(m: AclCreationModel, ctx: Ctx) -> Result<Seq<u8>, SerializationError> {
        let r = Ok(Seq::<u8>::empty());
        let r = then(r, Ok(i8_bytes(m.resource_type)));
        let r = then(r, string_bytes(m.resource_name, ctx.flexible));
        let r = if 1 <= ctx.version { then(r, Ok(i8_bytes(m.resource_pattern_type))) } else { r };
        let r = then(r, string_bytes(m.principal, ctx.flexible));
        let r = then(r, string_bytes(m.host, ctx.flexible));
        r
    }

    #[verifier::spinoff_prover]
    fn encode_body_part1(&self, buf: &mut Vec<u8>, ctx: Ctx) -> (r: Result<(), SerializationError>)
        ensures
            write_ok(r, old(buf)@, final(buf)@, Self::spec_encode_body_part1(self.deep_view(), ctx)),
    {
        let ghost mut w: Seq<u8> = Seq::empty();
        put_i8(buf, self.resource_type);
        proof {
            w = w + i8_bytes(self.resource_type);
        }
        assert(buf@ =~= old(buf)@ + w);
        encode_string(&self.resource_name, buf, ctx.flexible)?;
        proof {
            w = w + (string_bytes(self.resource_name.deep_view(), ctx.flexible))->Ok_0;
        }
        assert(buf@ =~= old(buf)@ + w);
        if 1 <= ctx.version {
            put_i8(buf, self.resource_pattern_type);
            proof {
                w = w + i8_bytes(self.resource_pattern_type);
            }
            assert(buf@ =~= old(buf)@ + w);
        }
        encode_string(&self.principal, buf, ctx.flexible)?;
        proof {
            w = w + (string_bytes(self.principal.deep_view(), ctx.flexible))->Ok_0;
        }
        assert(buf@ =~= old(buf)@ + w);
        encode_string(&self.host, buf, ctx.flexible)?;
        proof {
            w = w + (string_bytes(self.host.deep_view(), ctx.flexible))->Ok_0;
        }
        assert(buf@ =~= old(buf)@ + w);
        Ok(())
    }

    /// Fields 6 to 8 of the encoding.
    pub open spec fn spec_encode_body_part2(m: AclCreationModel, ctx: Ctx) -> Result<Seq<u8>, SerializationError> {
        let r = Ok(Seq::<u8>::empty());
        let r = then(r, Ok(i8_bytes(m.operation)));
        let r = then(r, Ok(i8_bytes(m.permission_type)));
        let r = if ctx.flexible { then(r, Ok(uvarint_bytes(0))) } else { r };
        r
    }

    #[verifier::spinoff_prover]
    fn encode_body_part2(&self, buf: &mut Vec<u8>, ctx: Ctx) -> (r: Result<(), SerializationError>)
        ensures
            write_ok(r, old(buf)@, final(buf)@, Self::spec_encode_body_part2(self.deep_view(), ctx)),
    {
        let ghost mut w: Seq<u8> = Seq::empty();
        put_i8(buf, self.operation);
        proof {
            w = w + i8_bytes(self.operation);
        }
        assert(buf@ =~= old(buf)@ + w);
        put_i8(buf, self.permission_type);
        proof {
            w = w + i8_bytes(self.permission_type);
        }
        assert(buf@ =~= old(buf)@ + w);
        if ctx.flexible {
            encode_unsigned_varint(0, buf);
            proof {
                w = w + uvarint_bytes(0);
            }
            assert(buf@ =~= old(buf)@ + w);
        }
        Ok(())
    }

    /// The encoding of the structure in context `ctx`.
    pub open spec fn spec_encode_body(m: AclCreationModel, ctx: Ctx) -> Result<Seq<u8>, SerializationError> {
        let r = Ok(Seq::<u8>::empty());
        let r = then(r, Self::spec_encode_body_part1(m, ctx));
        let r = then(r, Self::spec_encode_body_part2(m, ctx));
        r
    }

    /// The structure read from `s` at `pos` in context `ctx`.
    pub open spec fn spec_decode_body(s: Seq<u8>, pos: int, ctx: Ctx) -> Result<(AclCreationModel, int), SerializationError> {
        match parse_i8(s, pos) {
            Err(e) => Err(e),
            Ok((resource_type, pos)) =>
            match parse_string(s, pos, ctx.flexible) {
                Err(e) => Err(e),
                Ok((resource_name, pos)) =>
                match (if 1 <= ctx.version { parse_i8(s, pos) } else { Ok((0i8, pos)) }) {
                    Err(e) => Err(e),
                    Ok((resource_pattern_type, pos)) =>
                    match parse_string(s, pos, ctx.flexible) {
                        Err(e) => Err(e),
                        Ok((principal, pos)) =>
                        match parse_string(s, pos, ctx.flexible) {
                            Err(e) => Err(e),
                            Ok((host, pos)) =>
                            match parse_i8(s, pos) {
                                Err(e) => Err(e),
                                Ok((operation, pos)) =>
                                match parse_i8(s, pos) {
                                    Err(e) => Err(e),
                                    Ok((permission_type, pos)) =>
                                    match (if ctx.flexible { parse_uvarint(s, pos) } else { Ok((0u64, pos)) }) {
                                        Err(e) => Err(e),
                                        Ok((_tag_count, pos)) =>
                                        Ok((AclCreationModel { resource_type, resource_name, resource_pattern_type, principal, host, operation, permission_type }, pos))
                                    }
                                }
                            }
                        }
                    }
                }
            }
        }
    }

    /// The structure as it reads back in context `ctx`: each field that the
    /// version leaves out is at its default.
    #[verifier::opaque]
    pub open spec fn spec_read_as(m: AclCreationModel, ctx: Ctx) -> AclCreationModel {
        AclCreationModel { resource_type: m.resource_type, resource_name: m.resource_name, resource_pattern_type: if 1 <= ctx.version { m.resource_pattern_type } else { 0i8 }, principal: m.principal, host: m.host, operation: m.operation, permission_type: m.permission_type }
    }

    /// Values that read back in context `ctx`: nested values read back. A field
    /// that the version leaves out is read as its default.
    pub open spec fn reads_back_body(m: AclCreationModel, ctx: Ctx) -> bool {
        true
    }

    /// A value that can be written in context `ctx` and reads back: decoding its
    /// encoding, wherever it stands, gives the value as `spec_read_as` gives it and
    /// the position just after it.
    #[verifier::spinoff_prover]
    pub proof fn lemma_body_read_back(pre: Seq<u8>, m: AclCreationModel, post: Seq<u8>, ctx: Ctx)
        requires
            Self::spec_encode_body(m, ctx) is Ok,
            Self::reads_back_body(m, ctx),
        ensures
            Self::spec_decode_body(pre + Self::spec_encode_body(m, ctx)->Ok_0 + post, pre.len() as int, ctx) == Ok::<(AclCreationModel, int), SerializationError>((Self::spec_read_as(m, ctx), pre.len() as int + Self::spec_encode_body(m, ctx)->Ok_0.len())),
    {
        reveal(AclCreation::spec_read_as);
        let b0 = i8_bytes(m.resource_type);
        let b1 = (string_bytes(m.resource_name, ctx.flexible))->Ok_0;
        let b2 = if 1 <= ctx.version { i8_bytes(m.resource_pattern_type) } else { Seq::<u8>::empty() };
        let b3 = (string_bytes(m.principal, ctx.flexible))->Ok_0;
        let b4 = (string_bytes(m.host, ctx.flexible))->Ok_0;
        let b5 = i8_bytes(m.operation);
        let b6 = i8_bytes(m.permission_type);
        let b7 = if ctx.flexible { uvarint_bytes(0) } else { Seq::<u8>::empty() };
        let t8 = post;
        let t7 = b7 + t8;
        let t6 = b6 + t7;
        let t5 = b5 + t6;
        let t4 = b4 + t5;
        let t3 = b3 + t4;
        let t2 = b2 + t3;
        let t1 = b1 + t2;
        let t0 = b0 + t1;
        let e = Self::spec_encode_body(m, ctx)->Ok_0;
        let p1 = Self::spec_encode_body_part1(m, ctx)->Ok_0;
        assert(p1 =~= Seq::<u8>::empty() + b0 + b1 + b2 + b3 + b4);
        lemma_seq_assoc(((((Seq::<u8>::empty() + b0) + b1) + b2) + b3), b4, t5);
        lemma_seq_assoc((((Seq::<u8>::empty() + b0) + b1) + b2), b3, (b4 + t5));
        lemma_seq_assoc(((Seq::<u8>::empty() + b0) + b1), b2, (b3 + (b4 + t5)));
        lemma_seq_assoc((Seq::<u8>::empty() + b0), b1, (b2 + (b3 + (b4 + t5))));
        lemma_seq_assoc(Seq::<u8>::empty(), b0, (b1 + (b2 + (b3 + (b4 + t5)))));
        lemma_seq_empty_left((b0 + (b1 + (b2 + (b3 + (b4 + t5))))));
        let p2 = Self::spec_encode_body_part2(m, ctx)->Ok_0;
        assert(p2 =~= Seq::<u8>::empty() + b5 + b6 + b7);
        lemma_seq_assoc(((Seq::<u8>::empty() + b5) + b6), b7, t8);
        lemma_seq_assoc((Seq::<u8>::empty() + b5), b6, (b7 + t8));
        lemma_seq_assoc(Seq::<u8>::empty(), b5, (b6 + (b7 + t8)));
        lemma_seq_empty_left((b5 + (b6 + (b7 + t8))));
        assert(e == Seq::<u8>::empty() + p1 + p2);
        lemma_seq_assoc((Seq::<u8>::empty() + p1), p2, t8);
        lemma_seq_assoc(Seq::<u8>::empty(), p1, (p2 + t8));
        lemma_seq_empty_left((p1 + (p2 + t8)));
        let s = pre + e + post;
        lemma_seq_assoc(pre, e, post);
        assert(s == pre + t0);
        let a0 = pre;
        assert(parse_i8(s, a0.len() as int) == Ok::<(i8, int), SerializationError>((m.resource_type, a0.len() as int + b0.len()))) by {
            lemma_seq_assoc(a0, b0, t1);
            lemma_i8_roundtrip(a0, m.resource_type, t1);
        }
        lemma_seq_assoc(a0, b0, t1);
        let a1 = a0 + b0;
        assert(parse_string(s, a1.len() as int, ctx.flexible) == Ok::<(Seq<char>, int), SerializationError>((m.resource_name, a1.len() as int + b1.len()))) by {
            assert(string_bytes(m.resource_name, ctx.flexible) is Ok);
            lemma_seq_assoc(a1, b1, t2);
            lemma_string_roundtrip(a1, m.resource_name, t2, ctx.flexible);
        }
        lemma_seq_assoc(a1, b1, t2);
        let a2 = a1 + b1;
        if 1 <= ctx.version {
            assert(parse_i8(s, a2.len() as int) == Ok::<(i8, int), SerializationError>((m.resource_pattern_type, a2.len() as int + b2.len()))) by {
                lemma_seq_assoc(a2, b2, t3);
                lemma_i8_roundtrip(a2, m.resource_pattern_type, t3);
            }
        }
        lemma_seq_assoc(a2, b2, t3);
        let a3 = a2 + b2;
        assert(parse_string(s, a3.len() as int, ctx.flexible) == Ok::<(Seq<char>, int), SerializationError>((m.principal, a3.len() as int + b3.len()))) by {
            assert(string_bytes(m.principal, ctx.flexible) is Ok);
            lemma_seq_assoc(a3, b3, t4);
            lemma_string_roundtrip(a3, m.principal, t4, ctx.flexible);
        }
        lemma_seq_assoc(a3, b3, t4);
        let a4 = a3 + b3;
        assert(parse_string(s, a4.len() as int, ctx.flexible) == Ok::<(Seq<char>, int), SerializationError>((m.host, a4.len() as int + b4.len()))) by {
            assert(string_bytes(m.host, ctx.flexible) is Ok);
            lemma_seq_assoc(a4, b4, t5);
            lemma_string_roundtrip(a4, m.host, t5, ctx.flexible);
        }
        lemma_seq_assoc(a4, b4, t5);
        let a5 = a4 + b4;
        assert(parse_i8(s, a5.len() as int) == Ok::<(i8, int), SerializationError>((m.operation, a5.len() as int + b5.len()))) by {
            lemma_seq_assoc(a5, b5, t6);
            lemma_i8_roundtrip(a5, m.operation, t6);
        }
        lemma_seq_assoc(a5, b5, t6);
        let a6 = a5 + b5;
        assert(parse_i8(s, a6.len() as int) == Ok::<(i8, int), SerializationError>((m.permission_type, a6.len() as int + b6.len()))) by {
            lemma_seq_assoc(a6, b6, t7);
            lemma_i8_roundtrip(a6, m.permission_type, t7);
        }
        lemma_seq_assoc(a6, b6, t7);
        let a7 = a6 + b6;
        if ctx.flexible {
            assert(parse_uvarint(s, a7.len() as int) == Ok::<(u64, int), SerializationError>((0u64, a7.len() as int + b7.len()))) by {
                lemma_seq_assoc(a7, b7, t8);
                lemma_uvarint_roundtrip(a7, 0, t8);
            }
        }
    }

    /// The bytes written: the encoding of each field, in the order of the
    /// protocol's layout. Reading them back, wherever they stand, gives the value,
    /// with each field that the version leaves out at its default.
    #[verifier::spinoff_prover]
    pub proof fn lemma_body_layout(pre: Seq<u8>, m: AclCreationModel, post: Seq<u8>, ctx: Ctx)
        requires
            Self::spec_encode_body(m, ctx) is Ok,
        ensures
            Self::spec_encode_body(m, ctx) == Ok::<Seq<u8>, SerializationError>((i8_bytes(m.resource_type)) + ((string_bytes(m.resource_name, ctx.flexible))->Ok_0) + (if 1 <= ctx.version { i8_bytes(m.resource_pattern_type) } else { Seq::<u8>::empty() }) + ((string_bytes(m.principal, ctx.flexible))->Ok_0) + ((string_bytes(m.host, ctx.flexible))->Ok_0) + (i8_bytes(m.operation)) + (i8_bytes(m.permission_type)) + (if ctx.flexible { uvarint_bytes(0) } else { Seq::<u8>::empty() })),
            Self::reads_back_body(m, ctx) ==> Self::spec_decode_body(pre + ((i8_bytes(m.resource_type)) + ((string_bytes(m.resource_name, ctx.flexible))->Ok_0) + (if 1 <= ctx.version { i8_bytes(m.resource_pattern_type) } else { Seq::<u8>::empty() }) + ((string_bytes(m.principal, ctx.flexible))->Ok_0) + ((string_bytes(m.host, ctx.flexible))->Ok_0) + (i8_bytes(m.operation)) + (i8_bytes(m.permission_type)) + (if ctx.flexible { uvarint_bytes(0) } else { Seq::<u8>::empty() })) + post, pre.len() as int, ctx) == Ok::<(AclCreationModel, int), SerializationError>((AclCreationModel { resource_type: m.resource_type, resource_name: m.resource_name, resource_pattern_type: if 1 <= ctx.version { m.resource_pattern_type } else { 0i8 }, principal: m.principal, host: m.host, operation: m.operation, permission_type: m.permission_type }, pre.len() as int + ((i8_bytes(m.resource_type)) + ((string_bytes(m.resource_name, ctx.flexible))->Ok_0) + (if 1 <= ctx.version { i8_bytes(m.resource_pattern_type) } else { Seq::<u8>::empty() }) + ((string_bytes(m.principal, ctx.flexible))->Ok_0) + ((string_bytes(m.host, ctx.flexible))->Ok_0) + (i8_bytes(m.operation)) + (i8_bytes(m.permission_type)) + (if ctx.flexible { uvarint_bytes(0) } else { Seq::<u8>::empty() })).len())),
    {
        let b0 = i8_bytes(m.resource_type);
        let b1 = (string_bytes(m.resource_name, ctx.flexible))->Ok_0;
        let b2 = if 1 <= ctx.version { i8_bytes(m.resource_pattern_type) } else { Seq::<u8>::empty() };
        let b3 = (string_bytes(m.principal, ctx.flexible))->Ok_0;
        let b4 = (string_bytes(m.host, ctx.flexible))->Ok_0;
        let b5 = i8_bytes(m.operation);
        let b6 = i8_bytes(m.permission_type);
        let b7 = if ctx.flexible { uvarint_bytes(0) } else { Seq::<u8>::empty() };
        let e = Self::spec_encode_body(m, ctx)->Ok_0;
        let p1 = Self::spec_encode_body_part1(m, ctx)->Ok_0;
        assert(p1 =~= Seq::<u8>::empty() + b0 + b1 + b2 + b3 + b4);
        let p2 = Self::spec_encode_body_part2(m, ctx)->Ok_0;
        assert(p2 =~= Seq::<u8>::empty() + b5 + b6 + b7);
        assert(e == Seq::<u8>::empty() + p1 + p2);
        assert(e =~= b0 + b1 + b2 + b3 + b4 + b5 + b6 + b7);
        if Self::reads_back_body(m, ctx) {
            Self::lemma_body_read_back(pre, m, post, ctx);
            reveal(AclCreation::spec_read_as);
        }
    }

    /// Writing succeeds exactly when every field that the version carries can be
    /// encoded and every field that it leaves out, where leaving it out is an
    /// error, holds its default.
    #[verifier::spinoff_prover]
    pub proof fn lemma_body_write_succeeds(m: AclCreationModel, ctx: Ctx)
        ensures
            Self::spec_encode_body(m, ctx) is Ok <==> (string_bytes(m.resource_name, ctx.flexible) is Ok) && (string_bytes(m.principal, ctx.flexible) is Ok) && (string_bytes(m.host, ctx.flexible) is Ok),
    {
    }

    /// Writes the structure for `version`, with the compact encodings when `is_flexible`.
    /// On failure the buffer is left as it was.
    pub fn encode(&self, buf: &mut Vec<u8>, version: ApiVersion, is_flexible: bool) -> (r: Result<(), SerializationError>)
        ensures
            write_exact(r, old(buf)@, final(buf)@, Self::spec_encode_body(self.deep_view(), Ctx { version: version.0, flexible: is_flexible, classic: false })),
    {
        let start = buf.len();
        let r = self.encode_ctx(buf, Ctx::new(version, is_flexible));
        if r.is_err() {
            buf.truncate(start);
        }
        r
    }

    /// Reads the structure as written for `version`.
    /// On failure the reader is put back where it started.
    #[verifier::spinoff_prover]
    pub fn decode(buf: &mut Reader, version: ApiVersion, is_flexible: bool) -> (r: Result<Self, SerializationError>)
        ensures
            final(buf).bytes() == old(buf).bytes(),
            read_view_exact(r, Self::spec_decode_body(old(buf).bytes(), old(buf).pos(), Ctx { version: version.0, flexible: is_flexible, classic: false }), old(buf).pos(), final(buf).pos()),
    {
        let start = buf.position();
        let r = Self::decode_ctx(buf, Ctx::new(version, is_flexible));
        if r.is_err() {
            buf.set_position(start);
        }
        r
    }
}

impl KafkaCodec for AclCreation {
    open spec fn spec_encode(m: AclCreationModel, ctx: Ctx) -> Result<Seq<u8>, SerializationError> {
        Self::spec_encode_body(m, ctx)
    }

    open spec fn spec_decode(s: Seq<u8>, pos: int, ctx: Ctx) -> Result<(AclCreationModel, int), SerializationError> {
        Self::spec_decode_body(s, pos, ctx)
    }

    open spec fn reads_back(v: AclCreationModel, ctx: Ctx) -> bool {
        Self::reads_back_body(v, ctx) && Self::spec_read_as(v, ctx) == v
    }

    proof fn lemma_read_back(pre: Seq<u8>, v: AclCreationModel, post: Seq<u8>, ctx: Ctx) {
        Self::lemma_body_read_back(pre, v, post, ctx);
        assert(Self::spec_decode(pre + Self::spec_encode(v, ctx)->Ok_0 + post, pre.len() as int, ctx)
            == Self::spec_decode_body(pre + Self::spec_encode_body(v, ctx)->Ok_0 + post, pre.len() as int, ctx));
    }

    #[verifier::spinoff_prover]
    fn encode_ctx(&self, buf: &mut Vec<u8>, ctx: Ctx) -> (r: Result<(), SerializationError>) {
        let ghost mut w: Seq<u8> = Seq::empty();
        self.encode_body_part1(buf, ctx)?;
        proof {
            w = w + (Self::spec_encode_body_part1(self.deep_view(), ctx))->Ok_0;
        }
        assert(buf@ =~= old(buf)@ + w);
        self.encode_body_part2(buf, ctx)?;
        proof {
            w = w + (Self::spec_encode_body_part2(self.deep_view(), ctx))->Ok_0;
        }
        assert(buf@ =~= old(buf)@ + w);
        Ok(())
    }

    #[verifier::spinoff_prover]
    fn decode_ctx(buf: &mut Reader, ctx: Ctx) -> (r: Result<Self, SerializationError>) {
        let resource_type = buf.get_i8()?;
        let resource_name = buf.get_string(ctx.flexible)?;
        let resource_pattern_type = if 1 <= ctx.version {
            buf.get_i8()?
        } else {
            0i8
        };
        let principal = buf.get_string(ctx.flexible)?;
        let host = buf.get_string(ctx.flexible)?;
        let operation = buf.get_i8()?;
        let permission_type = buf.get_i8()?;
        if ctx.flexible {
            let (_tag_count, _) = decode_unsigned_varint(buf)?;
        }
        Ok(AclCreation { resource_type, resource_name, resource_pattern_type, principal, host, operation, permission_type })
    }
}

} // verus!
