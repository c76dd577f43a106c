//! AlterClientQuotasRequest (API key 49).
use vstd::prelude::*;
use crate::roundtrip::{lemma_array_roundtrip, lemma_bool_roundtrip, lemma_items_read_back,
    lemma_nullable_string_roundtrip, lemma_seq_assoc, lemma_seq_empty_left,
    lemma_string_roundtrip, lemma_u64_roundtrip, lemma_uvarint_roundtrip};
use crate::serialization::{Ctx, KafkaCodec, Reader, SerializationError, array_bytes, bool_bytes,
    decode_array, decode_unsigned_varint, encode_array, encode_nullable_string, encode_string,
    encode_unsigned_varint, nullable_string_bytes, parse_array, parse_bool, parse_nullable_string,
    parse_string, parse_u64, parse_uvarint, put_bool, put_u64, read_view_exact, read_view_ok,
    string_bytes, then, u64_bytes, uvarint_bytes, write_exact, write_ok};
use crate::{ApiKey, ApiVersion};

verus! {

// -------------------------------------------------------
// AlterClientQuotasRequest
// -------------------------------------------------------
#[derive(Clone, Debug, Default, PartialEq)]
pub struct AlterClientQuotasRequest {
    /// The quota configuration entries to alter.
    pub entries: Vec<EntryData>,
    /// Whether the alteration should be validated, but not performed.
    pub validate_only: bool,
}

/// The contents of `AlterClientQuotasRequest`, with strings as characters and
/// nested values by their contents.
pub struct AlterClientQuotasRequestModel {
    pub entries: Seq<<EntryData as DeepView>::V>,
    pub validate_only: bool,
}

impl DeepView for AlterClientQuotasRequest {
    type V = AlterClientQuotasRequestModel;

    open spec fn deep_view(&self) -> AlterClientQuotasRequestModel {
        AlterClientQuotasRequestModel {
            entries: self.entries.deep_view(),
            validate_only: self.validate_only,
        }
    }
}

impl AlterClientQuotasRequest {
    /// The encoding of the structure in context `ctx`.
    pub open spec fn spec_encode_body(m: AlterClientQuotasRequestModel, ctx: Ctx) -> Result<Seq<u8>, SerializationError> {
        let r = Ok(Seq::<u8>::empty());
        let r = then(r, array_bytes::<EntryData>(m.entries, Ctx { version: ctx.version, flexible: ctx.flexible, classic: false }));
        let r = then(r, Ok(bool_bytes(m.validate_only)));
        let r = if ctx.flexible { then(r, Ok(uvarint_bytes(0))) } else { r };
        r
    }

    /// The structure read from `s` at `pos` in context `ctx`.
    pub open spec fn spec_decode_body(s: Seq<u8>, pos: int, ctx: Ctx) -> Result<(AlterClientQuotasRequestModel, int), SerializationError> {
        match parse_array::<EntryData>(s, pos, Ctx { version: ctx.version, flexible: ctx.flexible, classic: false }) {
            Err(e) => Err(e),
            Ok((entries, pos)) =>
            match parse_bool(s, pos) {
                Err(e) => Err(e),
                Ok((validate_only, pos)) =>
                match (if ctx.flexible { parse_uvarint(s, pos) } else { Ok((0u64, pos)) }) {
                    Err(e) => Err(e),
                    Ok((_tag_count, pos)) =>
                    Ok((AlterClientQuotasRequestModel { entries, validate_only }, pos))
                }
            }
        }
    }

    /// Values of the structure that read back from their encoding in `ctx`: every
    /// field that the version leaves out holds its default, and nested values
    /// read back.
    pub open spec fn reads_back_body(m: AlterClientQuotasRequestModel, ctx: Ctx) -> bool {
        &&& forall|i: int| 0 <= i < m.entries.len() ==> #[trigger] <EntryData as KafkaCodec>::reads_back(m.entries[i], Ctx { version: ctx.version, flexible: ctx.flexible, classic: false })
    }

    /// A value that can be written in `ctx` and reads back: decoding its encoding,
    /// wherever it stands, gives the value and the position just after it.
    #[verifier::spinoff_prover]
    pub proof fn lemma_body_read_back(pre: Seq<u8>, m: AlterClientQuotasRequestModel, post: Seq<u8>, ctx: Ctx)
        requires
            Self::spec_encode_body(m, ctx) is Ok,
            Self::reads_back_body(m, ctx),
        ensures
            Self::spec_decode_body(pre + Self::spec_encode_body(m, ctx)->Ok_0 + post, pre.len() as int, ctx) == Ok::<(AlterClientQuotasRequestModel, int), SerializationError>((m, pre.len() as int + Self::spec_encode_body(m, ctx)->Ok_0.len())),
    {
        let b0 = (array_bytes::<EntryData>(m.entries, Ctx { version: ctx.version, flexible: ctx.flexible, classic: false }))->Ok_0;
        let b1 = bool_bytes(m.validate_only);
        let b2 = if ctx.flexible { uvarint_bytes(0) } else { Seq::<u8>::empty() };
        let t3 = post;
        let t2 = b2 + t3;
        let t1 = b1 + t2;
        let t0 = b0 + t1;
        let e = Self::spec_encode_body(m, ctx)->Ok_0;
        assert(e =~= Seq::<u8>::empty() + b0 + b1 + b2);
        lemma_seq_assoc(((Seq::<u8>::empty() + b0) + b1), b2, post);
        lemma_seq_assoc((Seq::<u8>::empty() + b0), b1, (b2 + post));
        lemma_seq_assoc(Seq::<u8>::empty(), b0, (b1 + (b2 + post)));
        lemma_seq_empty_left((b0 + (b1 + (b2 + post))));
        let s = pre + e + post;
        lemma_seq_assoc(pre, e, post);
        assert(s == pre + t0);
        let a0 = pre;
        assert(parse_array::<EntryData>(s, a0.len() as int, Ctx { version: ctx.version, flexible: ctx.flexible, classic: false }) == Ok::<(Seq<<EntryData as DeepView>::V>, int), SerializationError>((m.entries, a0.len() as int + b0.len()))) by {
            assert(array_bytes::<EntryData>(m.entries, Ctx { version: ctx.version, flexible: ctx.flexible, classic: false }) is Ok);
            lemma_seq_assoc(a0, b0, t1);
            lemma_items_read_back::<EntryData>(m.entries, Ctx { version: ctx.version, flexible: ctx.flexible, classic: false });
            lemma_array_roundtrip::<EntryData>(a0, m.entries, t1, Ctx { version: ctx.version, flexible: ctx.flexible, classic: false });
        }
        lemma_seq_assoc(a0, b0, t1);
        let a1 = a0 + b0;
        assert(parse_bool(s, a1.len() as int) == Ok::<(bool, int), SerializationError>((m.validate_only, a1.len() as int + b1.len()))) by {
            lemma_seq_assoc(a1, b1, t2);
            lemma_bool_roundtrip(a1, m.validate_only, t2);
        }
        lemma_seq_assoc(a1, b1, t2);
        let a2 = a1 + b1;
        if ctx.flexible {
            assert(parse_uvarint(s, a2.len() as int) == Ok::<(u64, int), SerializationError>((0u64, a2.len() as int + b2.len()))) by {
                lemma_seq_assoc(a2, b2, t3);
                lemma_uvarint_roundtrip(a2, 0, t3);
            }
        }
    }

    /// The bytes written: the encoding of each field, in the order of the
    /// protocol's layout. Reading them back, wherever they stand, gives the value,
    /// with each field that the version leaves out at its default.
    #[verifier::spinoff_prover]
    pub proof fn lemma_body_layout(pre: Seq<u8>, m: AlterClientQuotasRequestModel, post: Seq<u8>, ctx: Ctx)
        requires
            Self::spec_encode_body(m, ctx) is Ok,
        ensures
            Self::spec_encode_body(m, ctx) == Ok::<Seq<u8>, SerializationError>(((array_bytes::<EntryData>(m.entries, Ctx { version: ctx.version, flexible: ctx.flexible, classic: false }))->Ok_0) + (bool_bytes(m.validate_only)) + (if ctx.flexible { uvarint_bytes(0) } else { Seq::<u8>::empty() })),
            Self::reads_back_body(m, ctx) ==> Self::spec_decode_body(pre + (((array_bytes::<EntryData>(m.entries, Ctx { version: ctx.version, flexible: ctx.flexible, classic: false }))->Ok_0) + (bool_bytes(m.validate_only)) + (if ctx.flexible { uvarint_bytes(0) } else { Seq::<u8>::empty() })) + post, pre.len() as int, ctx) == Ok::<(AlterClientQuotasRequestModel, int), SerializationError>((m, pre.len() as int + (((array_bytes::<EntryData>(m.entries, Ctx { version: ctx.version, flexible: ctx.flexible, classic: false }))->Ok_0) + (bool_bytes(m.validate_only)) + (if ctx.flexible { uvarint_bytes(0) } else { Seq::<u8>::empty() })).len())),
    {
        let b0 = (array_bytes::<EntryData>(m.entries, Ctx { version: ctx.version, flexible: ctx.flexible, classic: false }))->Ok_0;
        let b1 = bool_bytes(m.validate_only);
        let b2 = if ctx.flexible { uvarint_bytes(0) } else { Seq::<u8>::empty() };
        let e = Self::spec_encode_body(m, ctx)->Ok_0;
        assert(e =~= Seq::<u8>::empty() + b0 + b1 + b2);
        assert(e =~= b0 + b1 + b2);
        if Self::reads_back_body(m, ctx) {
            Self::lemma_body_read_back(pre, m, post, ctx);
        }
    }

    /// Writing succeeds exactly when every field that the version carries can be
    /// encoded and every field that it leaves out, where leaving it out is an
    /// error, holds its default.
    #[verifier::spinoff_prover]
    pub proof fn lemma_body_write_succeeds(m: AlterClientQuotasRequestModel, ctx: Ctx)
        ensures
            Self::spec_encode_body(m, ctx) is Ok <==> (array_bytes::<EntryData>(m.entries, Ctx { version: ctx.version, flexible: ctx.flexible, classic: false }) is Ok),
    {
    }

    /// Writes the structure for `version`, with the compact encodings when `is_flexible`.
    /// On failure the buffer is left as it was.
    pub fn encode(&self, buf: &mut Vec<u8>, version: ApiVersion, is_flexible: bool) -> (r: Result<(), SerializationError>)
        ensures
            write_exact(r, old(buf)@, final(buf)@, Self::spec_encode_body(self.deep_view(), Ctx { version: version.0, flexible: is_flexible, classic: false })),
    {
        let start = buf.len();
        let r = self.encode_ctx(buf, Ctx::new(version, is_flexible));
        if r.is_err() {
            buf.truncate(start);
        }
        r
    }

    /// Reads the structure as written for `version`.
    /// On failure the reader is put back where it started.
    pub fn decode(buf: &mut Reader, version: ApiVersion, is_flexible: bool) -> (r: Result<Self, SerializationError>)
        ensures
            final(buf).bytes() == old(buf).bytes(),
            read_view_exact(r, Self::spec_decode_body(old(buf).bytes(), old(buf).pos(), Ctx { version: version.0, flexible: is_flexible, classic: false }), old(buf).pos(), final(buf).pos()),
    {
        let start = buf.position();
        let r = Self::decode_ctx(buf, Ctx::new(version, is_flexible));
        if r.is_err() {
            buf.set_position(start);
        }
        r
    }
}

impl KafkaCodec for AlterClientQuotasRequest {
    open spec fn spec_encode(m: AlterClientQuotasRequestModel, ctx: Ctx) -> Result<Seq<u8>, SerializationError> {
        Self::spec_encode_body(m, ctx)
    }

    open spec fn spec_decode(s: Seq<u8>, pos: int, ctx: Ctx) -> Result<(AlterClientQuotasRequestModel, int), SerializationError> {
        Self::spec_decode_body(s, pos, ctx)
    }

    open spec fn reads_back(v: AlterClientQuotasRequestModel, ctx: Ctx) -> bool {
        Self::reads_back_body(v, ctx)
    }

    proof fn lemma_read_back(pre: Seq<u8>, v: AlterClientQuotasRequestModel, post: Seq<u8>, ctx: Ctx) {
        Self::lemma_body_read_back(pre, v, post, ctx);
        assert(Self::spec_decode(pre + Self::spec_encode(v, ctx)->Ok_0 + post, pre.len() as int, ctx)
            == Self::spec_decode_body(pre + Self::spec_encode_body(v, ctx)->Ok_0 + post, pre.len() as int, ctx));
    }

    fn encode_ctx(&self, buf: &mut Vec<u8>, ctx: Ctx) -> (r: Result<(), SerializationError>) {
        let ghost mut w: Seq<u8> = Seq::empty();
        encode_array(&self.entries, buf, Ctx { version: ctx.version, flexible: ctx.flexible, classic: false })?;
        proof {
            w = w + (array_bytes::<EntryData>(self.entries.deep_view(), Ctx { version: ctx.version, flexible: ctx.flexible, classic: false }))->Ok_0;
        }
        assert(buf@ =~= old(buf)@ + w);
        put_bool(buf, self.validate_only);
        proof {
            w = w + bool_bytes(self.validate_only);
        }
        assert(buf@ =~= old(buf)@ + w);
        if ctx.flexible {
            encode_unsigned_varint(0, buf);
            proof {
                w = w + uvarint_bytes(0);
            }
            assert(buf@ =~= old(buf)@ + w);
        }
        Ok(())
    }

    fn decode_ctx(buf: &mut Reader, ctx: Ctx) -> (r: Result<Self, SerializationError>) {
        let entries = decode_array::<EntryData>(buf, Ctx { version: ctx.version, flexible: ctx.flexible, classic: false })?;
        let validate_only = buf.get_bool()?;
        if ctx.flexible {
            let (_tag_count, _) = decode_unsigned_varint(buf)?;
        }
        Ok(AlterClientQuotasRequest { entries, validate_only })
    }
}

impl AlterClientQuotasRequest {
    /// The API key of this message.
    pub fn get_api_key() -> (r: ApiKey)
        ensures
            r.0 == 49,
    {
        ApiKey::new(49)
    }

    /// The oldest version of this message.
    pub fn get_min_supported_version() -> (r: ApiVersion)
        ensures
            r.0 == 0,
    {
        ApiVersion::new(0)
    }

    /// The newest version of this message.
    pub fn get_max_supported_version() -> (r: ApiVersion)
        ensures
            r.0 == 1,
    {
        ApiVersion::new(1)
    }

    /// The first version of this message with the compact encodings.
    pub fn get_min_flexible_version() -> (r: ApiVersion)
        ensures
            r.0 == 1,
    {
        ApiVersion::new(1)
    }

    /// The encoding of a whole message body at `version`.
    pub open spec fn spec_serialize(m: AlterClientQuotasRequestModel, version: i16) -> Result<Seq<u8>, SerializationError> {
        let is_flexible = version >= 1;
        let ctx = Ctx { version, flexible: is_flexible, classic: false };
        let r = Ok(Seq::<u8>::empty());
        let r = then(r, array_bytes::<EntryData>(m.entries, Ctx { version: ctx.version, flexible: ctx.flexible, classic: false }));
        let r = then(r, Ok(bool_bytes(m.validate_only)));
        let r = if ctx.flexible { then(r, Ok(uvarint_bytes(0))) } else { r };
        r
    }

    /// The message body read at `version`.
    pub open spec fn spec_deserialize(s: Seq<u8>, pos: int, version: i16) -> Result<(AlterClientQuotasRequestModel, int), SerializationError> {
        let is_flexible = version >= 1;
        let ctx = Ctx { version, flexible: is_flexible, classic: false };
        match parse_array::<EntryData>(s, pos, Ctx { version: ctx.version, flexible: ctx.flexible, classic: false }) {
            Err(e) => Err(e),
            Ok((entries, pos)) =>
            match parse_bool(s, pos) {
                Err(e) => Err(e),
                Ok((validate_only, pos)) =>
                match (if ctx.flexible { parse_uvarint(s, pos) } else { Ok((0u64, pos)) }) {
                    Err(e) => Err(e),
                    Ok((_tag_count, pos)) =>
                    Ok((AlterClientQuotasRequestModel { entries, validate_only }, pos))
                }
            }
        }
    }

    /// Message bodies that read back when written at `version`: every field that
    /// the version leaves out holds its default, and nested values read back.
    pub open spec fn reads_back_message(m: AlterClientQuotasRequestModel, version: i16) -> bool {
        let is_flexible = version >= 1;
        let ctx = Ctx { version, flexible: is_flexible, classic: false };
        &&& forall|i: int| 0 <= i < m.entries.len() ==> #[trigger] <EntryData as KafkaCodec>::reads_back(m.entries[i], Ctx { version: ctx.version, flexible: ctx.flexible, classic: false })
    }

    /// A message body that can be written at `version` and reads back: reading a
    /// body at `version` from its bytes, wherever they stand, gives the same message.
    #[verifier::spinoff_prover]
    pub proof fn lemma_message_read_back(pre: Seq<u8>, m: AlterClientQuotasRequestModel, post: Seq<u8>, version: i16)
        requires
            Self::spec_serialize(m, version) is Ok,
            Self::reads_back_message(m, version),
        ensures
            Self::spec_deserialize(pre + Self::spec_serialize(m, version)->Ok_0 + post, pre.len() as int, version) == Ok::<(AlterClientQuotasRequestModel, int), SerializationError>((m, pre.len() as int + Self::spec_serialize(m, version)->Ok_0.len())),
    {
        let is_flexible = version >= 1;
        let ctx = Ctx { version, flexible: is_flexible, classic: false };
        let b0 = (array_bytes::<EntryData>(m.entries, Ctx { version: ctx.version, flexible: ctx.flexible, classic: false }))->Ok_0;
        let b1 = bool_bytes(m.validate_only);
        let b2 = if ctx.flexible { uvarint_bytes(0) } else { Seq::<u8>::empty() };
        let t3 = post;
        let t2 = b2 + t3;
        let t1 = b1 + t2;
        let t0 = b0 + t1;
        let e = Self::spec_serialize(m, version)->Ok_0;
        assert(e =~= Seq::<u8>::empty() + b0 + b1 + b2);
        lemma_seq_assoc(((Seq::<u8>::empty() + b0) + b1), b2, post);
        lemma_seq_assoc((Seq::<u8>::empty() + b0), b1, (b2 + post));
        lemma_seq_assoc(Seq::<u8>::empty(), b0, (b1 + (b2 + post)));
        lemma_seq_empty_left((b0 + (b1 + (b2 + post))));
        let s = pre + e + post;
        lemma_seq_assoc(pre, e, post);
        assert(s == pre + t0);
        let a0 = pre;
        assert(parse_array::<EntryData>(s, a0.len() as int, Ctx { version: ctx.version, flexible: ctx.flexible, classic: false }) == Ok::<(Seq<<EntryData as DeepView>::V>, int), SerializationError>((m.entries, a0.len() as int + b0.len()))) by {
            assert(array_bytes::<EntryData>(m.entries, Ctx { version: ctx.version, flexible: ctx.flexible, classic: false }) is Ok);
            lemma_seq_assoc(a0, b0, t1);
            lemma_items_read_back::<EntryData>(m.entries, Ctx { version: ctx.version, flexible: ctx.flexible, classic: false });
            lemma_array_roundtrip::<EntryData>(a0, m.entries, t1, Ctx { version: ctx.version, flexible: ctx.flexible, classic: false });
        }
        lemma_seq_assoc(a0, b0, t1);
        let a1 = a0 + b0;
        assert(parse_bool(s, a1.len() as int) == Ok::<(bool, int), SerializationError>((m.validate_only, a1.len() as int + b1.len()))) by {
            lemma_seq_assoc(a1, b1, t2);
            lemma_bool_roundtrip(a1, m.validate_only, t2);
        }
        lemma_seq_assoc(a1, b1, t2);
        let a2 = a1 + b1;
        if ctx.flexible {
            assert(parse_uvarint(s, a2.len() as int) == Ok::<(u64, int), SerializationError>((0u64, a2.len() as int + b2.len()))) by {
                lemma_seq_assoc(a2, b2, t3);
                lemma_uvarint_roundtrip(a2, 0, t3);
            }
        }
    }

    /// The bytes written: the encoding of each field, in the order of the
    /// protocol's layout. Reading them back, wherever they stand, gives the value,
    /// with each field that the version leaves out at its default.
    #[verifier::spinoff_prover]
    pub proof fn lemma_message_layout(pre: Seq<u8>, m: AlterClientQuotasRequestModel, post: Seq<u8>, version: i16)
        requires
            Self::spec_serialize(m, version) is Ok,
        ensures
            Self::spec_serialize(m, version) == Ok::<Seq<u8>, SerializationError>(((array_bytes::<EntryData>(m.entries, Ctx { version: version, flexible: (version >= 1), classic: false }))->Ok_0) + (bool_bytes(m.validate_only)) + (if (version >= 1) { uvarint_bytes(0) } else { Seq::<u8>::empty() })),
            Self::reads_back_message(m, version) ==> Self::spec_deserialize(pre + (((array_bytes::<EntryData>(m.entries, Ctx { version: version, flexible: (version >= 1), classic: false }))->Ok_0) + (bool_bytes(m.validate_only)) + (if (version >= 1) { uvarint_bytes(0) } else { Seq::<u8>::empty() })) + post, pre.len() as int, version) == Ok::<(AlterClientQuotasRequestModel, int), SerializationError>((m, pre.len() as int + (((array_bytes::<EntryData>(m.entries, Ctx { version: version, flexible: (version >= 1), classic: false }))->Ok_0) + (bool_bytes(m.validate_only)) + (if (version >= 1) { uvarint_bytes(0) } else { Seq::<u8>::empty() })).len())),
    {
        let is_flexible = version >= 1;
        let ctx = Ctx { version, flexible: is_flexible, classic: false };
        let b0 = (array_bytes::<EntryData>(m.entries, Ctx { version: ctx.version, flexible: ctx.flexible, classic: false }))->Ok_0;
        let b1 = bool_bytes(m.validate_only);
        let b2 = if ctx.flexible { uvarint_bytes(0) } else { Seq::<u8>::empty() };
        let e = Self::spec_serialize(m, version)->Ok_0;
        assert(e =~= Seq::<u8>::empty() + b0 + b1 + b2);
        assert(e =~= b0 + b1 + b2);
        if Self::reads_back_message(m, version) {
            Self::lemma_message_read_back(pre, m, post, version);
        }
    }

    /// Writing succeeds exactly when every field that the version carries can be
    /// encoded and every field that it leaves out, where leaving it out is an
    /// error, holds its default.
    #[verifier::spinoff_prover]
    pub proof fn lemma_message_write_succeeds(m: AlterClientQuotasRequestModel, version: i16)
        ensures
            Self::spec_serialize(m, version) is Ok <==> (array_bytes::<EntryData>(m.entries, Ctx { version: version, flexible: (version >= 1), classic: false }) is Ok),
    {
        let is_flexible = version >= 1;
        let ctx = Ctx { version, flexible: is_flexible, classic: false };
    }

    /// Writes the message body for `version`, which must be a supported version.
    /// On failure the buffer is left as it was.
    pub fn serialize(&self, version: ApiVersion, buf: &mut Vec<u8>) -> (r: Result<(), SerializationError>)
        requires
            0 <= version.0 <= 1,
        ensures
            write_exact(r, old(buf)@, final(buf)@, Self::spec_serialize(self.deep_view(), version.0)),
    {
        let start = buf.len();
        let r = self.write_body(version, buf);
        if r.is_err() {
            buf.truncate(start);
        }
        r
    }

    fn write_body(&self, version: ApiVersion, buf: &mut Vec<u8>) -> (r: Result<(), SerializationError>)
        requires
            0 <= version.0 <= 1,
        ensures
            write_ok(r, old(buf)@, final(buf)@, Self::spec_serialize(self.deep_view(), version.0)),
    {
        let is_flexible = version.0 >= Self::get_min_flexible_version().0;
        let ctx = Ctx::new(version, is_flexible);
        let ghost mut w: Seq<u8> = Seq::empty();
        encode_array(&self.entries, buf, Ctx { version: ctx.version, flexible: ctx.flexible, classic: false })?;
        proof {
            w = w + (array_bytes::<EntryData>(self.entries.deep_view(), Ctx { version: ctx.version, flexible: ctx.flexible, classic: false }))->Ok_0;
        }
        assert(buf@ =~= old(buf)@ + w);
        put_bool(buf, self.validate_only);
        proof {
            w = w + bool_bytes(self.validate_only);
        }
        assert(buf@ =~= old(buf)@ + w);
        if ctx.flexible {
            encode_unsigned_varint(0, buf);
            proof {
                w = w + uvarint_bytes(0);
            }
            assert(buf@ =~= old(buf)@ + w);
        }
        Ok(())
    }

    /// Reads a message body written for `version`.
    /// On failure the reader is put back where it started.
    pub fn deserialize(version: ApiVersion, buf: &mut Reader) -> (r: Result<Self, SerializationError>)
        ensures
            final(buf).bytes() == old(buf).bytes(),
            read_view_exact(r, Self::spec_deserialize(old(buf).bytes(), old(buf).pos(), version.0), old(buf).pos(), final(buf).pos()),
    {
        let start = buf.position();
        let r = Self::read_body(version, buf);
        if r.is_err() {
            buf.set_position(start);
        }
        r
    }

    fn read_body(version: ApiVersion, buf: &mut Reader) -> (r: Result<Self, SerializationError>)
        ensures
            final(buf).bytes() == old(buf).bytes(),
            read_view_ok(r, Self::spec_deserialize(old(buf).bytes(), old(buf).pos(), version.0), final(buf).pos()),
    {
        let is_flexible = version.0 >= Self::get_min_flexible_version().0;
        let ctx = Ctx::new(version, is_flexible);
        let entries = decode_array::<EntryData>(buf, Ctx { version: ctx.version, flexible: ctx.flexible, classic: false })?;
        let validate_only = buf.get_bool()?;
        if ctx.flexible {
            let (_tag_count, _) = decode_unsigned_varint(buf)?;
        }
        Ok(AlterClientQuotasRequest { entries, validate_only })
    }
}

// -------------------------------------------------------
// EntityData
// -------------------------------------------------------
#[derive(Clone, Debug, Default, PartialEq)]
pub struct EntityData {
    /// The entity type.
    pub entity_type: String,
    /// The name of the entity, or null if the default.
    pub entity_name: Option<String>,
}

/// The contents of `EntityData`, with strings as characters and
/// nested values by their contents.
pub struct EntityDataModel {
    pub entity_type: Seq<char>,
    pub entity_name: Option<Seq<char>>,
}

impl DeepView for EntityData {
    type V = EntityDataModel;

    open spec fn deep_view(&self) -> EntityDataModel {
        EntityDataModel {
            entity_type: self.entity_type.deep_view(),
            entity_name: self.entity_name.deep_view(),
        }
    }
}

impl EntityData {
    /// The encoding of the structure in context `ctx`.
    pub open spec fn spec_encode_body(m: EntityDataModel, ctx: Ctx) -> Result<Seq<u8>, SerializationError> {
        let r = Ok(Seq::<u8>::empty());
        let r = then(r, string_bytes(m.entity_type, ctx.flexible));
        let r = then(r, nullable_string_bytes(m.entity_name, ctx.flexible));
        let r = if ctx.flexible { then(r, Ok(uvarint_bytes(0))) } else { r };
        r
    }

    /// The structure read from `s` at `pos` in context `ctx`.
    pub open spec fn spec_decode_body(s: Seq<u8>, pos: int, ctx: Ctx) -> Result<(EntityDataModel, int), SerializationError> {
        match parse_string(s, pos, ctx.flexible) {
            Err(e) => Err(e),
            Ok((entity_type, pos)) =>
            match parse_nullable_string(s, pos, ctx.flexible) {
                Err(e) => Err(e),
                Ok((entity_name, pos)) =>
                match (if ctx.flexible { parse_uvarint(s, pos) } else { Ok((0u64, pos)) }) {
                    Err(e) => Err(e),
                    Ok((_tag_count, pos)) =>
                    Ok((EntityDataModel { entity_type, entity_name }, pos))
                }
            }
        }
    }

    /// Values of the structure that read back from their encoding in `ctx`: every
    /// field that the version leaves out holds its default, and nested values
    /// read back.
    pub open spec fn reads_back_body(m: EntityDataModel, ctx: Ctx) -> bool {
        true
    }

    /// A value that can be written in `ctx` and reads back: decoding its encoding,
    /// wherever it stands, gives the value and the position just after it.
    #[verifier::spinoff_prover]
    pub proof fn lemma_body_read_back(pre: Seq<u8>, m: EntityDataModel, post: Seq<u8>, ctx: Ctx)
        requires
            Self::spec_encode_body(m, ctx) is Ok,
            Self::reads_back_body(m, ctx),
        ensures
            Self::spec_decode_body(pre + Self::spec_encode_body(m, ctx)->Ok_0 + post, pre.len() as int, ctx) == Ok::<(EntityDataModel, int), SerializationError>((m, pre.len() as int + Self::spec_encode_body(m, ctx)->Ok_0.len())),
    {
        let b0 = (string_bytes(m.entity_type, ctx.flexible))->Ok_0;
        let b1 = (nullable_string_bytes(m.entity_name, ctx.flexible))->Ok_0;
        let b2 = if ctx.flexible { uvarint_bytes(0) } else { Seq::<u8>::empty() };
        let t3 = post;
        let t2 = b2 + t3;
        let t1 = b1 + t2;
        let t0 = b0 + t1;
        let e = Self::spec_encode_body(m, ctx)->Ok_0;
        assert(e =~= Seq::<u8>::empty() + b0 + b1 + b2);
        lemma_seq_assoc(((Seq::<u8>::empty() + b0) + b1), b2, post);
        lemma_seq_assoc((Seq::<u8>::empty() + b0), b1, (b2 + post));
        lemma_seq_assoc(Seq::<u8>::empty(), b0, (b1 + (b2 + post)));
        lemma_seq_empty_left((b0 + (b1 + (b2 + post))));
        let s = pre + e + post;
        lemma_seq_assoc(pre, e, post);
        assert(s == pre + t0);
        let a0 = pre;
        assert(parse_string(s, a0.len() as int, ctx.flexible) == Ok::<(Seq<char>, int), SerializationError>((m.entity_type, a0.len() as int + b0.len()))) by {
            assert(string_bytes(m.entity_type, ctx.flexible) is Ok);
            lemma_seq_assoc(a0, b0, t1);
            lemma_string_roundtrip(a0, m.entity_type, t1, ctx.flexible);
        }
        lemma_seq_assoc(a0, b0, t1);
        let a1 = a0 + b0;
        assert(parse_nullable_string(s, a1.len() as int, ctx.flexible) == Ok::<(Option<Seq<char>>, int), SerializationError>((m.entity_name, a1.len() as int + b1.len()))) by {
            assert(nullable_string_bytes(m.entity_name, ctx.flexible) is Ok);
            lemma_seq_assoc(a1, b1, t2);
            lemma_nullable_string_roundtrip(a1, m.entity_name, t2, ctx.flexible);
        }
        lemma_seq_assoc(a1, b1, t2);
        let a2 = a1 + b1;
        if ctx.flexible {
            assert(parse_uvarint(s, a2.len() as int) == Ok::<(u64, int), SerializationError>((0u64, a2.len() as int + b2.len()))) by {
                lemma_seq_assoc(a2, b2, t3);
                lemma_uvarint_roundtrip(a2, 0, t3);
            }
        }
    }

    /// The bytes written: the encoding of each field, in the order of the
    /// protocol's layout. Reading them back, wherever they stand, gives the value,
    /// with each field that the version leaves out at its default.
    #[verifier::spinoff_prover]
    pub proof fn lemma_body_layout(pre: Seq<u8>, m: EntityDataModel, post: Seq<u8>, ctx: Ctx)
        requires
            Self::spec_encode_body(m, ctx) is Ok,
        ensures
            Self::spec_encode_body(m, ctx) == Ok::<Seq<u8>, SerializationError>(((string_bytes(m.entity_type, ctx.flexible))->Ok_0) + ((nullable_string_bytes(m.entity_name, ctx.flexible))->Ok_0) + (if ctx.flexible { uvarint_bytes(0) } else { Seq::<u8>::empty() })),
            Self::reads_back_body(m, ctx) ==> Self::spec_decode_body(pre + (((string_bytes(m.entity_type, ctx.flexible))->Ok_0) + ((nullable_string_bytes(m.entity_name, ctx.flexible))->Ok_0) + (if ctx.flexible { uvarint_bytes(0) } else { Seq::<u8>::empty() })) + post, pre.len() as int, ctx) == Ok::<(EntityDataModel, int), SerializationError>((m, pre.len() as int + (((string_bytes(m.entity_type, ctx.flexible))->Ok_0) + ((nullable_string_bytes(m.entity_name, ctx.flexible))->Ok_0) + (if ctx.flexible { uvarint_bytes(0) } else { Seq::<u8>::empty() })).len())),
    {
        let b0 = (string_bytes(m.entity_type, ctx.flexible))->Ok_0;
        let b1 = (nullable_string_bytes(m.entity_name, ctx.flexible))->Ok_0;
        let b2 = if ctx.flexible { uvarint_bytes(0) } else { Seq::<u8>::empty() };
        let e = Self::spec_encode_body(m, ctx)->Ok_0;
        assert(e =~= Seq::<u8>::empty() + b0 + b1 + b2);
        assert(e =~= b0 + b1 + b2);
        if Self::reads_back_body(m, ctx) {
            Self::lemma_body_read_back(pre, m, post, ctx);
        }
    }

    /// Writing succeeds exactly when every field that the version carries can be
    /// encoded and every field that it leaves out, where leaving it out is an
    /// error, holds its default.
    #[verifier::spinoff_prover]
    pub proof fn lemma_body_write_succeeds(m: EntityDataModel, ctx: Ctx)
        ensures
            Self::spec_encode_body(m, ctx) is Ok <==> (string_bytes(m.entity_type, ctx.flexible) is Ok) && (nullable_string_bytes(m.entity_name, ctx.flexible) is Ok),
    {
    }

    /// Writes the structure for `version`, with the compact encodings when `is_flexible`.
    /// On failure the buffer is left as it was.
    pub fn encode(&self, buf: &mut Vec<u8>, version: ApiVersion, is_flexible: bool) -> (r: Result<(), SerializationError>)
        ensures
            write_exact(r, old(buf)@, final(buf)@, Self::spec_encode_body(self.deep_view(), Ctx { version: version.0, flexible: is_flexible, classic: false })),
    {
        let start = buf.len();
        let r = self.encode_ctx(buf, Ctx::new(version, is_flexible));
        if r.is_err() {
            buf.truncate(start);
        }
        r
    }

    /// Reads the structure as written for `version`.
    /// On failure the reader is put back where it started.
    pub fn decode(buf: &mut Reader, version: ApiVersion, is_flexible: bool) -> (r: Result<Self, SerializationError>)
        ensures
            final(buf).bytes() == old(buf).bytes(),
            read_view_exact(r, Self::spec_decode_body(old(buf).bytes(), old(buf).pos(), Ctx { version: version.0, flexible: is_flexible, classic: false }), old(buf).pos(), final(buf).pos()),
    {
        let start = buf.position();
        let r = Self::decode_ctx(buf, Ctx::new(version, is_flexible));
        if r.is_err() {
            buf.set_position(start);
        }
        r
    }
}

impl KafkaCodec for EntityData {
    open spec fn spec_encode(m: EntityDataModel, ctx: Ctx) -> Result<Seq<u8>, SerializationError> {
        Self::spec_encode_body(m, ctx)
    }

    open spec fn spec_decode(s: Seq<u8>, pos: int, ctx: Ctx) -> Result<(EntityDataModel, int), SerializationError> {
        Self::spec_decode_body(s, pos, ctx)
    }

    open spec fn reads_back(v: EntityDataModel, ctx: Ctx) -> bool {
        Self::reads_back_body(v, ctx)
    }

    proof fn lemma_read_back(pre: Seq<u8>, v: EntityDataModel, post: Seq<u8>, ctx: Ctx) {
        Self::lemma_body_read_back(pre, v, post, ctx);
        assert(Self::spec_decode(pre + Self::spec_encode(v, ctx)->Ok_0 + post, pre.len() as int, ctx)
            == Self::spec_decode_body(pre + Self::spec_encode_body(v, ctx)->Ok_0 + post, pre.len() as int, ctx));
    }

    fn encode_ctx(&self, buf: &mut Vec<u8>, ctx: Ctx) -> (r: Result<(), SerializationError>) {
        let ghost mut w: Seq<u8> = Seq::empty();
        encode_string(&self.entity_type, buf, ctx.flexible)?;
        proof {
            w = w + (string_bytes(self.entity_type.deep_view(), ctx.flexible))->Ok_0;
        }
        assert(buf@ =~= old(buf)@ + w);
        encode_nullable_string(&self.entity_name, buf, ctx.flexible)?;
        proof {
            w = w + (nullable_string_bytes(self.entity_name.deep_view(), ctx.flexible))->Ok_0;
        }
        assert(buf@ =~= old(buf)@ + w);
        if ctx.flexible {
            encode_unsigned_varint(0, buf);
            proof {
                w = w + uvarint_bytes(0);
            }
            assert(buf@ =~= old(buf)@ + w);
        }
        Ok(())
    }

    fn decode_ctx(buf: &mut Reader, ctx: Ctx) -> (r: Result<Self, SerializationError>) {
        let entity_type = buf.get_string(ctx.flexible)?;
        let entity_name = buf.get_nullable_string(ctx.flexible)?;
        if ctx.flexible {
            let (_tag_count, _) = decode_unsigned_varint(buf)?;
        }
        Ok(EntityData { entity_type, entity_name })
    }
}

// -------------------------------------------------------
// EntryData
// -------------------------------------------------------
#[derive(Clone, Debug, Default, PartialEq)]
pub struct EntryData {
    /// The quota entity to alter.
    pub entity: Vec<EntityData>,
    /// An individual quota configuration entry to alter.
    pub ops: Vec<OpData>,
}

/// The contents of `EntryData`, with strings as characters and
/// nested values by their contents.
pub struct EntryDataModel {
    pub entity: Seq<<EntityData as DeepView>::V>,
    pub ops: Seq<<OpData as DeepView>::V>,
}

impl DeepView for EntryData {
    type V = EntryDataModel;

    open spec fn deep_view(&self) -> EntryDataModel {
        EntryDataModel {
            entity: self.entity.deep_view(),
            ops: self.ops.deep_view(),
        }
    }
}

impl EntryData {
    /// The encoding of the structure in context `ctx`.
    pub open spec fn spec_encode_body(m: EntryDataModel, ctx: Ctx) -> Result<Seq<u8>, SerializationError> {
        let r = Ok(Seq::<u8>::empty());
        let r = then(r, array_bytes::<EntityData>(m.entity, Ctx { version: ctx.version, flexible: ctx.flexible, classic: false }));
        let r = then(r, array_bytes::<OpData>(m.ops, Ctx { version: ctx.version, flexible: ctx.flexible, classic: false }));
        let r = if ctx.flexible { then(r, Ok(uvarint_bytes(0))) } else { r };
        r
    }

    /// The structure read from `s` at `pos` in context `ctx`.
    pub open spec fn spec_decode_body(s: Seq<u8>, pos: int, ctx: Ctx) -> Result<(EntryDataModel, int), SerializationError> {
        match parse_array::<EntityData>(s, pos, Ctx { version: ctx.version, flexible: ctx.flexible, classic: false }) {
            Err(e) => Err(e),
            Ok((entity, pos)) =>
            match parse_array::<OpData>(s, pos, Ctx { version: ctx.version, flexible: ctx.flexible, classic: false }) {
                Err(e) => Err(e),
                Ok((ops, pos)) =>
                match (if ctx.flexible { parse_uvarint(s, pos) } else { Ok((0u64, pos)) }) {
                    Err(e) => Err(e),
                    Ok((_tag_count, pos)) =>
                    Ok((EntryDataModel { entity, ops }, pos))
                }
            }
        }
    }

    /// Values of the structure that read back from their encoding in `ctx`: every
    /// field that the version leaves out holds its default, and nested values
    /// read back.
    pub open spec fn reads_back_body(m: EntryDataModel, ctx: Ctx) -> bool {
        &&& forall|i: int| 0 <= i < m.entity.len() ==> #[trigger] <EntityData as KafkaCodec>::reads_back(m.entity[i], Ctx { version: ctx.version, flexible: ctx.flexible, classic: false })
        &&& forall|i: int| 0 <= i < m.ops.len() ==> #[trigger] <OpData as KafkaCodec>::reads_back(m.ops[i], Ctx { version: ctx.version, flexible: ctx.flexible, classic: false })
    }

    /// A value that can be written in `ctx` and reads back: decoding its encoding,
    /// wherever it stands, gives the value and the position just after it.
    #[verifier::spinoff_prover]
    pub proof fn lemma_body_read_back(pre: Seq<u8>, m: EntryDataModel, post: Seq<u8>, ctx: Ctx)
        requires
            Self::spec_encode_body(m, ctx) is Ok,
            Self::reads_back_body(m, ctx),
        ensures
            Self::spec_decode_body(pre + Self::spec_encode_body(m, ctx)->Ok_0 + post, pre.len() as int, ctx) == Ok::<(EntryDataModel, int), SerializationError>((m, pre.len() as int + Self::spec_encode_body(m, ctx)->Ok_0.len())),
    {
        let b0 = (array_bytes::<EntityData>(m.entity, Ctx { version: ctx.version, flexible: ctx.flexible, classic: false }))->Ok_0;
        let b1 = (array_bytes::<OpData>(m.ops, Ctx { version: ctx.version, flexible: ctx.flexible, classic: false }))->Ok_0;
        let b2 = if ctx.flexible { uvarint_bytes(0) } else { Seq::<u8>::empty() };
        let t3 = post;
        let t2 = b2 + t3;
        let t1 = b1 + t2;
        let t0 = b0 + t1;
        let e = Self::spec_encode_body(m, ctx)->Ok_0;
        assert(e =~= Seq::<u8>::empty() + b0 + b1 + b2);
        lemma_seq_assoc(((Seq::<u8>::empty() + b0) + b1), b2, post);
        lemma_seq_assoc((Seq::<u8>::empty() + b0), b1, (b2 + post));
        lemma_seq_assoc(Seq::<u8>::empty(), b0, (b1 + (b2 + post)));
        lemma_seq_empty_left((b0 + (b1 + (b2 + post))));
        let s = pre + e + post;
        lemma_seq_assoc(pre, e, post);
        assert(s == pre + t0);
        let a0 = pre;
        assert(parse_array::<EntityData>(s, a0.len() as int, Ctx { version: ctx.version, flexible: ctx.flexible, classic: false }) == Ok::<(Seq<<EntityData as DeepView>::V>, int), SerializationError>((m.entity, a0.len() as int + b0.len()))) by {
            assert(array_bytes::<EntityData>(m.entity, Ctx { version: ctx.version, flexible: ctx.flexible, classic: false }) is Ok);
            lemma_seq_assoc(a0, b0, t1);
            lemma_items_read_back::<EntityData>(m.entity, Ctx { version: ctx.version, flexible: ctx.flexible, classic: false });
            lemma_array_roundtrip::<EntityData>(a0, m.entity, t1, Ctx { version: ctx.version, flexible: ctx.flexible, classic: false });
        }
        lemma_seq_assoc(a0, b0, t1);
        let a1 = a0 + b0;
        assert(parse_array::<OpData>(s, a1.len() as int, Ctx { version: ctx.version, flexible: ctx.flexible, classic: false }) == Ok::<(Seq<<OpData as DeepView>::V>, int), SerializationError>((m.ops, a1.len() as int + b1.len()))) by {
            assert(array_bytes::<OpData>(m.ops, Ctx { version: ctx.version, flexible: ctx.flexible, classic: false }) is Ok);
            lemma_seq_assoc(a1, b1, t2);
            lemma_items_read_back::<OpData>(m.ops, Ctx { version: ctx.version, flexible: ctx.flexible, classic: false });
            lemma_array_roundtrip::<OpData>(a1, m.ops, t2, Ctx { version: ctx.version, flexible: ctx.flexible, classic: false });
        }
        lemma_seq_assoc(a1, b1, t2);
        let a2 = a1 + b1;
        if ctx.flexible {
            assert(parse_uvarint(s, a2.len() as int) == Ok::<(u64, int), SerializationError>((0u64, a2.len() as int + b2.len()))) by {
                lemma_seq_assoc(a2, b2, t3);
                lemma_uvarint_roundtrip(a2, 0, t3);
            }
        }
    }

    /// The bytes written: the encoding of each field, in the order of the
    /// protocol's layout. Reading them back, wherever they stand, gives the value,
    /// with each field that the version leaves out at its default.
    #[verifier::spinoff_prover]
    pub proof fn lemma_body_layout(pre: Seq<u8>, m: EntryDataModel, post: Seq<u8>, ctx: Ctx)
        requires
            Self::spec_encode_body(m, ctx) is Ok,
        ensures
            Self::spec_encode_body(m, ctx) == Ok::<Seq<u8>, SerializationError>(((array_bytes::<EntityData>(m.entity, Ctx { version: ctx.version, flexible: ctx.flexible, classic: false }))->Ok_0) + ((array_bytes::<OpData>(m.ops, Ctx { version: ctx.version, flexible: ctx.flexible, classic: false }))->Ok_0) + (if ctx.flexible { uvarint_bytes(0) } else { Seq::<u8>::empty() })),
            Self::reads_back_body(m, ctx) ==> Self::spec_decode_body(pre + (((array_bytes::<EntityData>(m.entity, Ctx { version: ctx.version, flexible: ctx.flexible, classic: false }))->Ok_0) + ((array_bytes::<OpData>(m.ops, Ctx { version: ctx.version, flexible: ctx.flexible, classic: false }))->Ok_0) + (if ctx.flexible { uvarint_bytes(0) } else { Seq::<u8>::empty() })) + post, pre.len() as int, ctx) == Ok::<(EntryDataModel, int), SerializationError>((m, pre.len() as int + (((array_bytes::<EntityData>(m.entity, Ctx { version: ctx.version, flexible: ctx.flexible, classic: false }))->Ok_0) + ((array_bytes::<OpData>(m.ops, Ctx { version: ctx.version, flexible: ctx.flexible, classic: false }))->Ok_0) + (if ctx.flexible { uvarint_bytes(0) } else { Seq::<u8>::empty() })).len())),
    {
        let b0 = (array_bytes::<EntityData>(m.entity, Ctx { version: ctx.version, flexible: ctx.flexible, classic: false }))->Ok_0;
        let b1 = (array_bytes::<OpData>(m.ops, Ctx { version: ctx.version, flexible: ctx.flexible, classic: false }))->Ok_0;
        let b2 = if ctx.flexible { uvarint_bytes(0) } else { Seq::<u8>::empty() };
        let e = Self::spec_encode_body(m, ctx)->Ok_0;
        assert(e =~= Seq::<u8>::empty() + b0 + b1 + b2);
        assert(e =~= b0 + b1 + b2);
        if Self::reads_back_body(m, ctx) {
            Self::lemma_body_read_back(pre, m, post, ctx);
        }
    }

    /// Writing succeeds exactly when every field that the version carries can be
    /// encoded and every field that it leaves out, where leaving it out is an
    /// error, holds its default.
    #[verifier::spinoff_prover]
    pub proof fn lemma_body_write_succeeds(m: EntryDataModel, ctx: Ctx)
        ensures
            Self::spec_encode_body(m, ctx) is Ok <==> (array_bytes::<EntityData>(m.entity, Ctx { version: ctx.version, flexible: ctx.flexible, classic: false }) is Ok) && (array_bytes::<OpData>(m.ops, Ctx { version: ctx.version, flexible: ctx.flexible, classic: false }) is Ok),
    {
    }

    /// Writes the structure for `version`, with the compact encodings when `is_flexible`.
    /// On failure the buffer is left as it was.
    pub fn encode(&self, buf: &mut Vec<u8>, version: ApiVersion, is_flexible: bool) -> (r: Result<(), SerializationError>)
        ensures
            write_exact(r, old(buf)@, final(buf)@, Self::spec_encode_body(self.deep_view(), Ctx { version: version.0, flexible: is_flexible, classic: false })),
    {
        let start = buf.len();
        let r = self.encode_ctx(buf, Ctx::new(version, is_flexible));
        if r.is_err() {
            buf.truncate(start);
        }
        r
    }

    /// Reads the structure as written for `version`.
    /// On failure the reader is put back where it started.
    pub fn decode(buf: &mut Reader, version: ApiVersion, is_flexible: bool) -> (r: Result<Self, SerializationError>)
        ensures
            final(buf).bytes() == old(buf).bytes(),
            read_view_exact(r, Self::spec_decode_body(old(buf).bytes(), old(buf).pos(), Ctx { version: version.0, flexible: is_flexible, classic: false }), old(buf).pos(), final(buf).pos()),
    {
        let start = buf.position();
        let r = Self::decode_ctx(buf, Ctx::new(version, is_flexible));
        if r.is_err() {
            buf.set_position(start);
        }
        r
    }
}

impl KafkaCodec for EntryData {
    open spec fn spec_encode(m: EntryDataModel, ctx: Ctx) -> Result<Seq<u8>, SerializationError> {
        Self::spec_encode_body(m, ctx)
    }

    open spec fn spec_decode(s: Seq<u8>, pos: int, ctx: Ctx) -> Result<(EntryDataModel, int), SerializationError> {
        Self::spec_decode_body(s, pos, ctx)
    }

    open spec fn reads_back(v: EntryDataModel, ctx: Ctx) -> bool {
        Self::reads_back_body(v, ctx)
    }

    proof fn lemma_read_back(pre: Seq<u8>, v: EntryDataModel, post: Seq<u8>, ctx: Ctx) {
        Self::lemma_body_read_back(pre, v, post, ctx);
        assert(Self::spec_decode(pre + Self::spec_encode(v, ctx)->Ok_0 + post, pre.len() as int, ctx)
            == Self::spec_decode_body(pre + Self::spec_encode_body(v, ctx)->Ok_0 + post, pre.len() as int, ctx));
    }

    fn encode_ctx(&self, buf: &mut Vec<u8>, ctx: Ctx) -> (r: Result<(), SerializationError>) {
        let ghost mut w: Seq<u8> = Seq::empty();
        encode_array(&self.entity, buf, Ctx { version: ctx.version, flexible: ctx.flexible, classic: false })?;
        proof {
            w = w + (array_bytes::<EntityData>(self.entity.deep_view(), Ctx { version: ctx.version, flexible: ctx.flexible, classic: false }))->Ok_0;
        }
        assert(buf@ =~= old(buf)@ + w);
        encode_array(&self.ops, buf, Ctx { version: ctx.version, flexible: ctx.flexible, classic: false })?;
        proof {
            w = w + (array_bytes::<OpData>(self.ops.deep_view(), Ctx { version: ctx.version, flexible: ctx.flexible, classic: false }))->Ok_0;
        }
        assert(buf@ =~= old(buf)@ + w);
        if ctx.flexible {
            encode_unsigned_varint(0, buf);
            proof {
                w = w + uvarint_bytes(0);
            }
            assert(buf@ =~= old(buf)@ + w);
        }
        Ok(())
    }

    fn decode_ctx(buf: &mut Reader, ctx: Ctx) -> (r: Result<Self, SerializationError>) {
        let entity = decode_array::<EntityData>(buf, Ctx { version: ctx.version, flexible: ctx.flexible, classic: false })?;
        let ops = decode_array::<OpData>(buf, Ctx { version: ctx.version, flexible: ctx.flexible, classic: false })?;
        if ctx.flexible {
            let (_tag_count, _) = decode_unsigned_varint(buf)?;
        }
        Ok(EntryData { entity, ops })
    }
}

// -------------------------------------------------------
// OpData
// -------------------------------------------------------
#[derive(Clone, Debug, Default, PartialEq)]
pub struct OpData {
    /// The quota configuration key.
    pub key: String,
    /// The value to set, otherwise ignored if the value is to be removed.
    /// Held as the bit pattern of the IEEE 754 double that the protocol carries.
    pub value: u64,
    /// Whether the quota configuration value should be removed, otherwise set.
    pub remove: bool,
}

/// The contents of `OpData`, with strings as characters and
/// nested values by their contents.
pub struct OpDataModel {
    pub key: Seq<char>,
    pub value: u64,
    pub remove: bool,
}

impl DeepView for OpData {
    type V = OpDataModel;

    open spec fn deep_view(&self) -> OpDataModel {
        OpDataModel {
            key: self.key.deep_view(),
            value: self.value,
            remove: self.remove,
        }
    }
}

impl OpData {
    /// The encoding of the structure in context `ctx`.
    pub open spec fn spec_encode_body(m: OpDataModel, ctx: Ctx) -> Result<Seq<u8>, SerializationError> {
        let r = Ok(Seq::<u8>::empty());
        let r = then(r, string_bytes(m.key, ctx.flexible));
        let r = then(r, Ok(u64_bytes(m.value)));
        let r = then(r, Ok(bool_bytes(m.remove)));
        let r = if ctx.flexible { then(r, Ok(uvarint_bytes(0))) } else { r };
        r
    }

    /// The structure read from `s` at `pos` in context `ctx`.
    pub open spec fn spec_decode_body(s: Seq<u8>, pos: int, ctx: Ctx) -> Result<(OpDataModel, int), SerializationError> {
        match parse_string(s, pos, ctx.flexible) {
            Err(e) => Err(e),
            Ok((key, pos)) =>
            match parse_u64(s, pos) {
                Err(e) => Err(e),
                Ok((value, pos)) =>
                match parse_bool(s, pos) {
                    Err(e) => Err(e),
                    Ok((remove, pos)) =>
                    match (if ctx.flexible { parse_uvarint(s, pos) } else { Ok((0u64, pos)) }) {
                        Err(e) => Err(e),
                        Ok((_tag_count, pos)) =>
                        Ok((OpDataModel { key, value, remove }, pos))
                    }
                }
            }
        }
    }

    /// Values of the structure that read back from their encoding in `ctx`: every
    /// field that the version leaves out holds its default, and nested values
    /// read back.
    pub open spec fn reads_back_body(m: OpDataModel, ctx: Ctx) -> bool {
        true
    }

    /// A value that can be written in `ctx` and reads back: decoding its encoding,
    /// wherever it stands, gives the value and the position just after it.
    #[verifier::spinoff_prover]
    pub proof fn lemma_body_read_back(pre: Seq<u8>, m: OpDataModel, post: Seq<u8>, ctx: Ctx)
        requires
            Self::spec_encode_body(m, ctx) is Ok,
            Self::reads_back_body(m, ctx),
        ensures
            Self::spec_decode_body(pre + Self::spec_encode_body(m, ctx)->Ok_0 + post, pre.len() as int, ctx) == Ok::<(OpDataModel, int), SerializationError>((m, pre.len() as int + Self::spec_encode_body(m, ctx)->Ok_0.len())),
    {
        let b0 = (string_bytes(m.key, ctx.flexible))->Ok_0;
        let b1 = u64_bytes(m.value);
        let b2 = bool_bytes(m.remove);
        let b3 = if ctx.flexible { uvarint_bytes(0) } else { Seq::<u8>::empty() };
        let t4 = post;
        let t3 = b3 + t4;
        let t2 = b2 + t3;
        let t1 = b1 + t2;
        let t0 = b0 + t1;
        let e = Self::spec_encode_body(m, ctx)->Ok_0;
        assert(e =~= Seq::<u8>::empty() + b0 + b1 + b2 + b3);
        lemma_seq_assoc((((Seq::<u8>::empty() + b0) + b1) + b2), b3, post);
        lemma_seq_assoc(((Seq::<u8>::empty() + b0) + b1), b2, (b3 + post));
        lemma_seq_assoc((Seq::<u8>::empty() + b0), b1, (b2 + (b3 + post)));
        lemma_seq_assoc(Seq::<u8>::empty(), b0, (b1 + (b2 + (b3 + post))));
        lemma_seq_empty_left((b0 + (b1 + (b2 + (b3 + post)))));
        let s = pre + e + post;
        lemma_seq_assoc(pre, e, post);
        assert(s == pre + t0);
        let a0 = pre;
        assert(parse_string(s, a0.len() as int, ctx.flexible) == Ok::<(Seq<char>, int), SerializationError>((m.key, a0.len() as int + b0.len()))) by {
            assert(string_bytes(m.key, ctx.flexible) is Ok);
            lemma_seq_assoc(a0, b0, t1);
            lemma_string_roundtrip(a0, m.key, t1, ctx.flexible);
        }
        lemma_seq_assoc(a0, b0, t1);
        let a1 = a0 + b0;
        assert(parse_u64(s, a1.len() as int) == Ok::<(u64, int), SerializationError>((m.value, a1.len() as int + b1.len()))) by {
            lemma_seq_assoc(a1, b1, t2);
            lemma_u64_roundtrip(a1, m.value, t2);
        }
        lemma_seq_assoc(a1, b1, t2);
        let a2 = a1 + b1;
        assert(parse_bool(s, a2.len() as int) == Ok::<(bool, int), SerializationError>((m.remove, a2.len() as int + b2.len()))) by {
            lemma_seq_assoc(a2, b2, t3);
            lemma_bool_roundtrip(a2, m.remove, t3);
        }
        lemma_seq_assoc(a2, b2, t3);
        let a3 = a2 + b2;
        if ctx.flexible {
            assert(parse_uvarint(s, a3.len() as int) == Ok::<(u64, int), SerializationError>((0u64, a3.len() as int + b3.len()))) by {
                lemma_seq_assoc(a3, b3, t4);
                lemma_uvarint_roundtrip(a3, 0, t4);
            }
        }
    }

    /// The bytes written: the encoding of each field, in the order of the
    /// protocol's layout. Reading them back, wherever they stand, gives the value,
    /// with each field that the version leaves out at its default.
    #[verifier::spinoff_prover]
    pub proof fn lemma_body_layout(pre: Seq<u8>, m: OpDataModel, post: Seq<u8>, ctx: Ctx)
        requires
            Self::spec_encode_body(m, ctx) is Ok,
        ensures
            Self::spec_encode_body(m, ctx) == Ok::<Seq<u8>, SerializationError>(((string_bytes(m.key, ctx.flexible))->Ok_0) + (u64_bytes(m.value)) + (bool_bytes(m.remove)) + (if ctx.flexible { uvarint_bytes(0) } else { Seq::<u8>::empty() })),
            Self::reads_back_body(m, ctx) ==> Self::spec_decode_body(pre + (((string_bytes(m.key, ctx.flexible))->Ok_0) + (u64_bytes(m.value)) + (bool_bytes(m.remove)) + (if ctx.flexible { uvarint_bytes(0) } else { Seq::<u8>::empty() })) + post, pre.len() as int, ctx) == Ok::<(OpDataModel, int), SerializationError>((m, pre.len() as int + (((string_bytes(m.key, ctx.flexible))->Ok_0) + (u64_bytes(m.value)) + (bool_bytes(m.remove)) + (if ctx.flexible { uvarint_bytes(0) } else { Seq::<u8>::empty() })).len())),
    {
        let b0 = (string_bytes(m.key, ctx.flexible))->Ok_0;
        let b1 = u64_bytes(m.value);
        let b2 = bool_bytes(m.remove);
        let b3 = if ctx.flexible { uvarint_bytes(0) } else { Seq::<u8>::empty() };
        let e = Self::spec_encode_body(m, ctx)->Ok_0;
        assert(e =~= Seq::<u8>::empty() + b0 + b1 + b2 + b3);
        assert(e =~= b0 + b1 + b2 + b3);
        if Self::reads_back_body(m, ctx) {
            Self::lemma_body_read_back(pre, m, post, ctx);
        }
    }

    /// Writing succeeds exactly when every field that the version carries can be
    /// encoded and every field that it leaves out, where leaving it out is an
    /// error, holds its default.
    #[verifier::spinoff_prover]
    pub proof fn lemma_body_write_succeeds(m: OpDataModel, ctx: Ctx)
        ensures
            Self::spec_encode_body(m, ctx) is Ok <==> (string_bytes(m.key, ctx.flexible) is Ok),
    {
    }

    /// Writes the structure for `version`, with the compact encodings when `is_flexible`.
    /// On failure the buffer is left as it was.
    pub fn encode(&self, buf: &mut Vec<u8>, version: ApiVersion, is_flexible: bool) -> (r: Result<(), SerializationError>)
        ensures
            write_exact(r, old(buf)@, final(buf)@, Self::spec_encode_body(self.deep_view(), Ctx { version: version.0, flexible: is_flexible, classic: false })),
    {
        let start = buf.len();
        let r = self.encode_ctx(buf, Ctx::new(version, is_flexible));
        if r.is_err() {
            buf.truncate(start);
        }
        r
    }

    /// Reads the structure as written for `version`.
    /// On failure the reader is put back where it started.
    pub fn decode(buf: &mut Reader, version: ApiVersion, is_flexible: bool) -> (r: Result<Self, SerializationError>)
        ensures
            final(buf).bytes() == old(buf).bytes(),
            read_view_exact(r, Self::spec_decode_body(old(buf).bytes(), old(buf).pos(), Ctx { version: version.0, flexible: is_flexible, classic: false }), old(buf).pos(), final(buf).pos()),
    {
        let start = buf.position();
        let r = Self::decode_ctx(buf, Ctx::new(version, is_flexible));
        if r.is_err() {
            buf.set_position(start);
        }
        r
    }
}

impl KafkaCodec for OpData {
    open spec fn spec_encode(m: OpDataModel, ctx: Ctx) -> Result<Seq<u8>, SerializationError> {
        Self::spec_encode_body(m, ctx)
    }

    open spec fn spec_decode(s: Seq<u8>, pos: int, ctx: Ctx) -> Result<(OpDataModel, int), SerializationError> {
        Self::spec_decode_body(s, pos, ctx)
    }

    open spec fn reads_back(v: OpDataModel, ctx: Ctx) -> bool {
        Self::reads_back_body(v, ctx)
    }

    proof fn lemma_read_back(pre: Seq<u8>, v: OpDataModel, post: Seq<u8>, ctx: Ctx) {
        Self::lemma_body_read_back(pre, v, post, ctx);
        assert(Self::spec_decode(pre + Self::spec_encode(v, ctx)->Ok_0 + post, pre.len() as int, ctx)
            == Self::spec_decode_body(pre + Self::spec_encode_body(v, ctx)->Ok_0 + post, pre.len() as int, ctx));
    }

    fn encode_ctx(&self, buf: &mut Vec<u8>, ctx: Ctx) -> (r: Result<(), SerializationError>) {
        let ghost mut w: Seq<u8> = Seq::empty();
        encode_string(&self.key, buf, ctx.flexible)?;
        proof {
            w = w + (string_bytes(self.key.deep_view(), ctx.flexible))->Ok_0;
        }
        assert(buf@ =~= old(buf)@ + w);
        put_u64(buf, self.value);
        proof {
            w = w + u64_bytes(self.value);
        }
        assert(buf@ =~= old(buf)@ + w);
        put_bool(buf, self.remove);
        proof {
            w = w + bool_bytes(self.remove);
        }
        assert(buf@ =~= old(buf)@ + w);
        if ctx.flexible {
            encode_unsigned_varint(0, buf);
            proof {
                w = w + uvarint_bytes(0);
            }
            assert(buf@ =~= old(buf)@ + w);
        }
        Ok(())
    }

    fn decode_ctx(buf: &mut Reader, ctx: Ctx) -> (r: Result<Self, SerializationError>) {
        let key = buf.get_string(ctx.flexible)?;
        let value = buf.get_u64()?;
        let remove = buf.get_bool()?;
        if ctx.flexible {
            let (_tag_count, _) = decode_unsigned_varint(buf)?;
        }
        Ok(OpData { key, value, remove })
    }
}

} // verus!
