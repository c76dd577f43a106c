//! CreateDelegationTokenRequest (API key 38).
use vstd::prelude::*;
use crate::roundtrip::{lemma_array_roundtrip, lemma_i64_roundtrip, lemma_items_read_back,
    lemma_nullable_string_roundtrip, lemma_seq_assoc, lemma_seq_empty_left,
    lemma_string_roundtrip, lemma_uvarint_roundtrip};
use crate::serialization::{Ctx, KafkaCodec, Reader, SerializationError, array_bytes, decode_array,
    decode_unsigned_varint, encode_array, encode_nullable_string, encode_string,
    encode_unsigned_varint, i64_bytes, nullable_string_bytes, parse_array, parse_i64,
    parse_nullable_string, parse_string, parse_uvarint, put_i64, read_view_exact, read_view_ok,
    string_bytes, then, uvarint_bytes, write_exact, write_ok};
use crate::{ApiKey, ApiVersion};

verus! {

// -------------------------------------------------------
// CreateDelegationTokenRequest
// -------------------------------------------------------
#[derive(Clone, Debug, Default, PartialEq)]
pub struct CreateDelegationTokenRequest {
    /// The principal type of the owner of the token. If it's null it defaults to the token request principal.
    /// Available in version 3+.
    pub owner_principal_type: Option<String>,
    /// The principal name of the owner of the token. If it's null it defaults to the token request principal.
    /// Available in version 3+.
    pub owner_principal_name: Option<String>,
    /// A list of those who are allowed to renew this token before it expires.
    pub renewers: Vec<CreatableRenewers>,
    /// The maximum lifetime of the token in milliseconds, or -1 to use the server side default.
    pub max_lifetime_ms: i64,
}

/// The contents of `CreateDelegationTokenRequest`, with strings as characters and
/// nested values by their contents.
pub struct CreateDelegationTokenRequestModel {
    pub owner_principal_type: Option<Seq<char>>,
    pub owner_principal_name: Option<Seq<char>>,
    pub renewers: Seq<<CreatableRenewers as DeepView>::V>,
    pub max_lifetime_ms: i64,
}

impl DeepView for CreateDelegationTokenRequest {
    type V = CreateDelegationTokenRequestModel;

    open spec fn deep_view(&self) -> CreateDelegationTokenRequestModel {
        CreateDelegationTokenRequestModel {
            owner_principal_type: self.owner_principal_type.deep_view(),
            owner_principal_name: self.owner_principal_name.deep_view(),
            renewers: self.renewers.deep_view(),
            max_lifetime_ms: self.max_lifetime_ms,
        }
    }
}

impl CreateDelegationTokenRequest {
    /// The encoding of the structure in context `ctx`.
    pub open spec fn spec_encode_body(m: CreateDelegationTokenRequestModel, ctx: Ctx) -> Result<Seq<u8>, SerializationError> {
        let r = Ok(Seq::<u8>::empty());
        let r = if 3 <= ctx.version { then(r, nullable_string_bytes(m.owner_principal_type, ctx.flexible)) } else { r };
        let r = if 3 <= ctx.version { then(r, nullable_string_bytes(m.owner_principal_name, ctx.flexible)) } else { r };
        let r = then(r, array_bytes::<CreatableRenewers>(m.renewers, Ctx { version: ctx.version, flexible: ctx.flexible, classic: false }));
        let r = then(r, Ok(i64_bytes(m.max_lifetime_ms)));
        let r = if ctx.flexible { then(r, Ok(uvarint_bytes(0))) } else { r };
        r
    }

    /// The structure read from `s` at `pos` in context `ctx`.
    pub open spec fn spec_decode_body(s: Seq<u8>, pos: int, ctx: Ctx) -> Result<(CreateDelegationTokenRequestModel, int), SerializationError> {
        match (if 3 <= ctx.version { parse_nullable_string(s, pos, ctx.flexible) } else { Ok((None, pos)) }) {
            Err(e) => Err(e),
            Ok((owner_principal_type, pos)) =>
            match (if 3 <= ctx.version { parse_nullable_string(s, pos, ctx.flexible) } else { Ok((None, pos)) }) {
                Err(e) => Err(e),
                Ok((owner_principal_name, pos)) =>
                match parse_array::<CreatableRenewers>(s, pos, Ctx { version: ctx.version, flexible: ctx.flexible, classic: false }) {
                    Err(e) => Err(e),
                    Ok((renewers, pos)) =>
                    match parse_i64(s, pos) {
                        Err(e) => Err(e),
                        Ok((max_lifetime_ms, pos)) =>
                        match (if ctx.flexible { parse_uvarint(s, pos) } else { Ok((0u64, pos)) }) {
                            Err(e) => Err(e),
                            Ok((_tag_count, pos)) =>
                            Ok((CreateDelegationTokenRequestModel { owner_principal_type, owner_principal_name, renewers, max_lifetime_ms }, pos))
                        }
                    }
                }
            }
        }
    }

    /// The structure as it reads back in context `ctx`: each field that the
    /// version leaves out is at its default.
    #[verifier::opaque]
    pub open spec fn spec_read_as(m: CreateDelegationTokenRequestModel, ctx: Ctx) -> CreateDelegationTokenRequestModel {
        CreateDelegationTokenRequestModel { owner_principal_type: if 3 <= ctx.version { m.owner_principal_type } else { None }, owner_principal_name: if 3 <= ctx.version { m.owner_principal_name } else { None }, renewers: m.renewers, max_lifetime_ms: m.max_lifetime_ms }
    }

    /// Values that read back in context `ctx`: nested values read back. A field
    /// that the version leaves out is read as its default.
    pub open spec fn reads_back_body(m: CreateDelegationTokenRequestModel, ctx: Ctx) -> bool {
        &&& forall|i: int| 0 <= i < m.renewers.len() ==> #[trigger] <CreatableRenewers as KafkaCodec>::reads_back(m.renewers[i], Ctx { version: ctx.version, flexible: ctx.flexible, classic: false })
    }

    /// A value that can be written in context `ctx` and reads back: decoding its
    /// encoding, wherever it stands, gives the value as `spec_read_as` gives it and
    /// the position just after it.
    #[verifier::spinoff_prover]
    pub proof fn lemma_body_read_back(pre: Seq<u8>, m: CreateDelegationTokenRequestModel, post: Seq<u8>, ctx: Ctx)
        requires
            Self::spec_encode_body(m, ctx) is Ok,
            Self::reads_back_body(m, ctx),
        ensures
            Self::spec_decode_body(pre + Self::spec_encode_body(m, ctx)->Ok_0 + post, pre.len() as int, ctx) == Ok::<(CreateDelegationTokenRequestModel, int), SerializationError>((Self::spec_read_as(m, ctx), pre.len() as int + Self::spec_encode_body(m, ctx)->Ok_0.len())),
    {
        reveal(CreateDelegationTokenRequest::spec_read_as);
        let b0 = if 3 <= ctx.version { (nullable_string_bytes(m.owner_principal_type, ctx.flexible))->Ok_0 } else { Seq::<u8>::empty() };
        let b1 = if 3 <= ctx.version { (nullable_string_bytes(m.owner_principal_name, ctx.flexible))->Ok_0 } else { Seq::<u8>::empty() };
        let b2 = (array_bytes::<CreatableRenewers>(m.renewers, Ctx { version: ctx.version, flexible: ctx.flexible, classic: false }))->Ok_0;
        let b3 = i64_bytes(m.max_lifetime_ms);
        let b4 = if ctx.flexible { uvarint_bytes(0) } else { Seq::<u8>::empty() };
        let t5 = post;
        let t4 = b4 + t5;
        let t3 = b3 + t4;
        let t2 = b2 + t3;
        let t1 = b1 + t2;
        let t0 = b0 + t1;
        let e = Self::spec_encode_body(m, ctx)->Ok_0;
        assert(e =~= Seq::<u8>::empty() + b0 + b1 + b2 + b3 + b4);
        lemma_seq_assoc(((((Seq::<u8>::empty() + b0) + b1) + b2) + b3), b4, post);
        lemma_seq_assoc((((Seq::<u8>::empty() + b0) + b1) + b2), b3, (b4 + post));
        lemma_seq_assoc(((Seq::<u8>::empty() + b0) + b1), b2, (b3 + (b4 + post)));
        lemma_seq_assoc((Seq::<u8>::empty() + b0), b1, (b2 + (b3 + (b4 + post))));
        lemma_seq_assoc(Seq::<u8>::empty(), b0, (b1 + (b2 + (b3 + (b4 + post)))));
        lemma_seq_empty_left((b0 + (b1 + (b2 + (b3 + (b4 + post))))));
        let s = pre + e + post;
        lemma_seq_assoc(pre, e, post);
        assert(s == pre + t0);
        let a0 = pre;
        if 3 <= ctx.version {
            assert(parse_nullable_string(s, a0.len() as int, ctx.flexible) == Ok::<(Option<Seq<char>>, int), SerializationError>((m.owner_principal_type, a0.len() as int + b0.len()))) by {
                assert(nullable_string_bytes(m.owner_principal_type, ctx.flexible) is Ok);
                lemma_seq_assoc(a0, b0, t1);
                lemma_nullable_string_roundtrip(a0, m.owner_principal_type, t1, ctx.flexible);
            }
        }
        lemma_seq_assoc(a0, b0, t1);
        let a1 = a0 + b0;
        if 3 <= ctx.version {
            assert(parse_nullable_string(s, a1.len() as int, ctx.flexible) == Ok::<(Option<Seq<char>>, int), SerializationError>((m.owner_principal_name, a1.len() as int + b1.len()))) by {
                assert(nullable_string_bytes(m.owner_principal_name, ctx.flexible) is Ok);
                lemma_seq_assoc(a1, b1, t2);
                lemma_nullable_string_roundtrip(a1, m.owner_principal_name, t2, ctx.flexible);
            }
        }
        lemma_seq_assoc(a1, b1, t2);
        let a2 = a1 + b1;
        assert(parse_array::<CreatableRenewers>(s, a2.len() as int, Ctx { version: ctx.version, flexible: ctx.flexible, classic: false }) == Ok::<(Seq<<CreatableRenewers as DeepView>::V>, int), SerializationError>((m.renewers, a2.len() as int + b2.len()))) by {
            assert(array_bytes::<CreatableRenewers>(m.renewers, Ctx { version: ctx.version, flexible: ctx.flexible, classic: false }) is Ok);
            lemma_seq_assoc(a2, b2, t3);
            lemma_items_read_back::<CreatableRenewers>(m.renewers, Ctx { version: ctx.version, flexible: ctx.flexible, classic: false });
            lemma_array_roundtrip::<CreatableRenewers>(a2, m.renewers, t3, Ctx { version: ctx.version, flexible: ctx.flexible, classic: false });
        }
        lemma_seq_assoc(a2, b2, t3);
        let a3 = a2 + b2;
        assert(parse_i64(s, a3.len() as int) == Ok::<(i64, int), SerializationError>((m.max_lifetime_ms, a3.len() as int + b3.len()))) by {
            lemma_seq_assoc(a3, b3, t4);
            lemma_i64_roundtrip(a3, m.max_lifetime_ms, t4);
        }
        lemma_seq_assoc(a3, b3, t4);
        let a4 = a3 + b3;
        if ctx.flexible {
            assert(parse_uvarint(s, a4.len() as int) == Ok::<(u64, int), SerializationError>((0u64, a4.len() as int + b4.len()))) by {
                lemma_seq_assoc(a4, b4, t5);
                lemma_uvarint_roundtrip(a4, 0, t5);
            }
        }
    }

    /// The bytes written: the encoding of each field, in the order of the
    /// protocol's layout. Reading them back, wherever they stand, gives the value,
    /// with each field that the version leaves out at its default.
    #[verifier::spinoff_prover]
    pub proof fn lemma_body_layout(pre: Seq<u8>, m: CreateDelegationTokenRequestModel, post: Seq<u8>, ctx: Ctx)
        requires
            Self::spec_encode_body(m, ctx) is Ok,
        ensures
            Self::spec_encode_body(m, ctx) == Ok::<Seq<u8>, SerializationError>((if 3 <= ctx.version { (nullable_string_bytes(m.owner_principal_type, ctx.flexible))->Ok_0 } else { Seq::<u8>::empty() }) + (if 3 <= ctx.version { (nullable_string_bytes(m.owner_principal_name, ctx.flexible))->Ok_0 } else { Seq::<u8>::empty() }) + ((array_bytes::<CreatableRenewers>(m.renewers, Ctx { version: ctx.version, flexible: ctx.flexible, classic: false }))->Ok_0) + (i64_bytes(m.max_lifetime_ms)) + (if ctx.flexible { uvarint_bytes(0) } else { Seq::<u8>::empty() })),
            Self::reads_back_body(m, ctx) ==> Self::spec_decode_body(pre + ((if 3 <= ctx.version { (nullable_string_bytes(m.owner_principal_type, ctx.flexible))->Ok_0 } else { Seq::<u8>::empty() }) + (if 3 <= ctx.version { (nullable_string_bytes(m.owner_principal_name, ctx.flexible))->Ok_0 } else { Seq::<u8>::empty() }) + ((array_bytes::<CreatableRenewers>(m.renewers, Ctx { version: ctx.version, flexible: ctx.flexible, classic: false }))->Ok_0) + (i64_bytes(m.max_lifetime_ms)) + (if ctx.flexible { uvarint_bytes(0) } else { Seq::<u8>::empty() })) + post, pre.len() as int, ctx) == Ok::<(CreateDelegationTokenRequestModel, int), SerializationError>((CreateDelegationTokenRequestModel { owner_principal_type: if 3 <= ctx.version { m.owner_principal_type } else { None }, owner_principal_name: if 3 <= ctx.version { m.owner_principal_name } else { None }, renewers: m.renewers, max_lifetime_ms: m.max_lifetime_ms }, pre.len() as int + ((if 3 <= ctx.version { (nullable_string_bytes(m.owner_principal_type, ctx.flexible))->Ok_0 } else { Seq::<u8>::empty() }) + (if 3 <= ctx.version { (nullable_string_bytes(m.owner_principal_name, ctx.flexible))->Ok_0 } else { Seq::<u8>::empty() }) + ((array_bytes::<CreatableRenewers>(m.renewers, Ctx { version: ctx.version, flexible: ctx.flexible, classic: false }))->Ok_0) + (i64_bytes(m.max_lifetime_ms)) + (if ctx.flexible { uvarint_bytes(0) } else { Seq::<u8>::empty() })).len())),
    {
        let b0 = if 3 <= ctx.version { (nullable_string_bytes(m.owner_principal_type, ctx.flexible))->Ok_0 } else { Seq::<u8>::empty() };
        let b1 = if 3 <= ctx.version { (nullable_string_bytes(m.owner_principal_name, ctx.flexible))->Ok_0 } else { Seq::<u8>::empty() };
        let b2 = (array_bytes::<CreatableRenewers>(m.renewers, Ctx { version: ctx.version, flexible: ctx.flexible, classic: false }))->Ok_0;
        let b3 = i64_bytes(m.max_lifetime_ms);
        let b4 = if ctx.flexible { uvarint_bytes(0) } else { Seq::<u8>::empty() };
        let e = Self::spec_encode_body(m, ctx)->Ok_0;
        assert(e =~= Seq::<u8>::empty() + b0 + b1 + b2 + b3 + b4);
        assert(e =~= b0 + b1 + b2 + b3 + b4);
        if Self::reads_back_body(m, ctx) {
            Self::lemma_body_read_back(pre, m, post, ctx);
            reveal(CreateDelegationTokenRequest::spec_read_as);
        }
    }

    /// Writing succeeds exactly when every field that the version carries can be
    /// encoded and every field that it leaves out, where leaving it out is an
    /// error, holds its default.
    #[verifier::spinoff_prover]
    pub proof fn lemma_body_write_succeeds(m: CreateDelegationTokenRequestModel, ctx: Ctx)
        ensures
            Self::spec_encode_body(m, ctx) is Ok <==> ((3 <= ctx.version) ==> nullable_string_bytes(m.owner_principal_type, ctx.flexible) is Ok) && ((3 <= ctx.version) ==> nullable_string_bytes(m.owner_principal_name, ctx.flexible) is Ok) && (array_bytes::<CreatableRenewers>(m.renewers, Ctx { version: ctx.version, flexible: ctx.flexible, classic: false }) is Ok),
    {
    }

    /// Writes the structure for `version`, with the compact encodings when `is_flexible`.
    /// On failure the buffer is left as it was.
    pub fn encode(&self, buf: &mut Vec<u8>, version: ApiVersion, is_flexible: bool) -> (r: Result<(), SerializationError>)
        ensures
            write_exact(r, old(buf)@, final(buf)@, Self::spec_encode_body(self.deep_view(), Ctx { version: version.0, flexible: is_flexible, classic: false })),
    {
        let start = buf.len();
        let r = self.encode_ctx(buf, Ctx::new(version, is_flexible));
        if r.is_err() {
            buf.truncate(start);
        }
        r
    }

    /// Reads the structure as written for `version`.
    /// On failure the reader is put back where it started.
    pub fn decode(buf: &mut Reader, version: ApiVersion, is_flexible: bool) -> (r: Result<Self, SerializationError>)
        ensures
            final(buf).bytes() == old(buf).bytes(),
            read_view_exact(r, Self::spec_decode_body(old(buf).bytes(), old(buf).pos(), Ctx { version: version.0, flexible: is_flexible, classic: false }), old(buf).pos(), final(buf).pos()),
    {
        let start = buf.position();
        let r = Self::decode_ctx(buf, Ctx::new(version, is_flexible));
        if r.is_err() {
            buf.set_position(start);
        }
        r
    }
}

impl KafkaCodec for CreateDelegationTokenRequest {
    open spec fn spec_encode(m: CreateDelegationTokenRequestModel, ctx: Ctx) -> Result<Seq<u8>, SerializationError> {
        Self::spec_encode_body(m, ctx)
    }

    open spec fn spec_decode(s: Seq<u8>, pos: int, ctx: Ctx) -> Result<(CreateDelegationTokenRequestModel, int), SerializationError> {
        Self::spec_decode_body(s, pos, ctx)
    }

    open spec fn reads_back(v: CreateDelegationTokenRequestModel, ctx: Ctx) -> bool {
        Self::reads_back_body(v, ctx) && Self::spec_read_as(v, ctx) == v
    }

    proof fn lemma_read_back(pre: Seq<u8>, v: CreateDelegationTokenRequestModel, post: Seq<u8>, ctx: Ctx) {
        Self::lemma_body_read_back(pre, v, post, ctx);
        assert(Self::spec_decode(pre + Self::spec_encode(v, ctx)->Ok_0 + post, pre.len() as int, ctx)
            == Self::spec_decode_body(pre + Self::spec_encode_body(v, ctx)->Ok_0 + post, pre.len() as int, ctx));
    }

    fn encode_ctx(&self, buf: &mut Vec<u8>, ctx: Ctx) -> (r: Result<(), SerializationError>) {
        let ghost mut w: Seq<u8> = Seq::empty();
        if 3 <= ctx.version {
            encode_nullable_string(&self.owner_principal_type, buf, ctx.flexible)?;
            proof {
                w = w + (nullable_string_bytes(self.owner_principal_type.deep_view(), ctx.flexible))->Ok_0;
            }
            assert(buf@ =~= old(buf)@ + w);
        }
        if 3 <= ctx.version {
            encode_nullable_string(&self.owner_principal_name, buf, ctx.flexible)?;
            proof {
                w = w + (nullable_string_bytes(self.owner_principal_name.deep_view(), ctx.flexible))->Ok_0;
            }
            assert(buf@ =~= old(buf)@ + w);
        }
        encode_array(&self.renewers, buf, Ctx { version: ctx.version, flexible: ctx.flexible, classic: false })?;
        proof {
            w = w + (array_bytes::<CreatableRenewers>(self.renewers.deep_view(), Ctx { version: ctx.version, flexible: ctx.flexible, classic: false }))->Ok_0;
        }
        assert(buf@ =~= old(buf)@ + w);
        put_i64(buf, self.max_lifetime_ms);
        proof {
            w = w + i64_bytes(self.max_lifetime_ms);
        }
        assert(buf@ =~= old(buf)@ + w);
        if ctx.flexible {
            encode_unsigned_varint(0, buf);
            proof {
                w = w + uvarint_bytes(0);
            }
            assert(buf@ =~= old(buf)@ + w);
        }
        Ok(())
    }

    fn decode_ctx(buf: &mut Reader, ctx: Ctx) -> (r: Result<Self, SerializationError>) {
        let owner_principal_type = if 3 <= ctx.version {
            buf.get_nullable_string(ctx.flexible)?
        } else {
            None
        };
        let owner_principal_name = if 3 <= ctx.version {
            buf.get_nullable_string(ctx.flexible)?
        } else {
            None
        };
        let renewers = decode_array::<CreatableRenewers>(buf, Ctx { version: ctx.version, flexible: ctx.flexible, classic: false })?;
        let max_lifetime_ms = buf.get_i64()?;
        if ctx.flexible {
            let (_tag_count, _) = decode_unsigned_varint(buf)?;
        }
        Ok(CreateDelegationTokenRequest { owner_principal_type, owner_principal_name, renewers, max_lifetime_ms })
    }
}

impl CreateDelegationTokenRequest {
    /// The API key of this message.
    pub fn get_api_key() -> (r: ApiKey)
        ensures
            r.0 == 38,
    {
        ApiKey::new(38)
    }

    /// The oldest version of this message.
    pub fn get_min_supported_version() -> (r: ApiVersion)
        ensures
            r.0 == 1,
    {
        ApiVersion::new(1)
    }

    /// The newest version of this message.
    pub fn get_max_supported_version() -> (r: ApiVersion)
        ensures
            r.0 == 3,
    {
        ApiVersion::new(3)
    }

    /// The first version of this message with the compact encodings.
    pub fn get_min_flexible_version() -> (r: ApiVersion)
        ensures
            r.0 == 2,
    {
        ApiVersion::new(2)
    }

    /// The encoding of a whole message body at `version`.
    pub open spec fn spec_serialize(m: CreateDelegationTokenRequestModel, version: i16) -> Result<Seq<u8>, SerializationError> {
        let is_flexible = version >= 2;
        let ctx = Ctx { version, flexible: is_flexible, classic: false };
        let r = Ok(Seq::<u8>::empty());
        let r = if 3 <= ctx.version { then(r, nullable_string_bytes(m.owner_principal_type, ctx.flexible)) } else if m.owner_principal_type is Some { then(r, Err(SerializationError::Encode("field 'OwnerPrincipalType' is not available in this version"))) } else { r };
        let r = if 3 <= ctx.version { then(r, nullable_string_bytes(m.owner_principal_name, ctx.flexible)) } else if m.owner_principal_name is Some { then(r, Err(SerializationError::Encode("field 'OwnerPrincipalName' is not available in this version"))) } else { r };
        let r = then(r, array_bytes::<CreatableRenewers>(m.renewers, Ctx { version: ctx.version, flexible: ctx.flexible, classic: false }));
        let r = then(r, Ok(i64_bytes(m.max_lifetime_ms)));
        let r = if ctx.flexible { then(r, Ok(uvarint_bytes(0))) } else { r };
        r
    }

    /// The message body read at `version`.
    pub open spec fn spec_deserialize(s: Seq<u8>, pos: int, version: i16) -> Result<(CreateDelegationTokenRequestModel, int), SerializationError> {
        let is_flexible = version >= 2;
        let ctx = Ctx { version, flexible: is_flexible, classic: false };
        match (if 3 <= ctx.version { parse_nullable_string(s, pos, ctx.flexible) } else { Ok((None, pos)) }) {
            Err(e) => Err(e),
            Ok((owner_principal_type, pos)) =>
            match (if 3 <= ctx.version { parse_nullable_string(s, pos, ctx.flexible) } else { Ok((None, pos)) }) {
                Err(e) => Err(e),
                Ok((owner_principal_name, pos)) =>
                match parse_array::<CreatableRenewers>(s, pos, Ctx { version: ctx.version, flexible: ctx.flexible, classic: false }) {
                    Err(e) => Err(e),
                    Ok((renewers, pos)) =>
                    match parse_i64(s, pos) {
                        Err(e) => Err(e),
                        Ok((max_lifetime_ms, pos)) =>
                        match (if ctx.flexible { parse_uvarint(s, pos) } else { Ok((0u64, pos)) }) {
                            Err(e) => Err(e),
                            Ok((_tag_count, pos)) =>
                            Ok((CreateDelegationTokenRequestModel { owner_principal_type, owner_principal_name, renewers, max_lifetime_ms }, pos))
                        }
                    }
                }
            }
        }
    }

    /// Message bodies that read back when written at `version`: nested values read
    /// back. A field that the version leaves out is read as its default.
    pub open spec fn reads_back_message(m: CreateDelegationTokenRequestModel, version: i16) -> bool {
        let is_flexible = version >= 2;
        let ctx = Ctx { version, flexible: is_flexible, classic: false };
        &&& forall|i: int| 0 <= i < m.renewers.len() ==> #[trigger] <CreatableRenewers as KafkaCodec>::reads_back(m.renewers[i], Ctx { version: ctx.version, flexible: ctx.flexible, classic: false })
    }

    /// A message body that can be written at `version` and reads back: reading a
    /// body at `version` from its bytes, wherever they stand, gives the same message,
    /// with each field that the version leaves out at its default.
    #[verifier::spinoff_prover]
    pub proof fn lemma_message_read_back(pre: Seq<u8>, m: CreateDelegationTokenRequestModel, post: Seq<u8>, version: i16)
        requires
            Self::spec_serialize(m, version) is Ok,
            Self::reads_back_message(m, version),
        ensures
            Self::spec_deserialize(pre + Self::spec_serialize(m, version)->Ok_0 + post, pre.len() as int, version) == Ok::<(CreateDelegationTokenRequestModel, int), SerializationError>((CreateDelegationTokenRequestModel { owner_principal_type: if 3 <= version { m.owner_principal_type } else { None }, owner_principal_name: if 3 <= version { m.owner_principal_name } else { None }, renewers: m.renewers, max_lifetime_ms: m.max_lifetime_ms }, pre.len() as int + Self::spec_serialize(m, version)->Ok_0.len())),
    {
        let is_flexible = version >= 2;
        let ctx = Ctx { version, flexible: is_flexible, classic: false };
        let b0 = if 3 <= ctx.version { (nullable_string_bytes(m.owner_principal_type, ctx.flexible))->Ok_0 } else { Seq::<u8>::empty() };
        let b1 = if 3 <= ctx.version { (nullable_string_bytes(m.owner_principal_name, ctx.flexible))->Ok_0 } else { Seq::<u8>::empty() };
        let b2 = (array_bytes::<CreatableRenewers>(m.renewers, Ctx { version: ctx.version, flexible: ctx.flexible, classic: false }))->Ok_0;
        let b3 = i64_bytes(m.max_lifetime_ms);
        let b4 = if ctx.flexible { uvarint_bytes(0) } else { Seq::<u8>::empty() };
        let t5 = post;
        let t4 = b4 + t5;
        let t3 = b3 + t4;
        let t2 = b2 + t3;
        let t1 = b1 + t2;
        let t0 = b0 + t1;
        let e = Self::spec_serialize(m, version)->Ok_0;
        assert(e =~= Seq::<u8>::empty() + b0 + b1 + b2 + b3 + b4);
        lemma_seq_assoc(((((Seq::<u8>::empty() + b0) + b1) + b2) + b3), b4, post);
        lemma_seq_assoc((((Seq::<u8>::empty() + b0) + b1) + b2), b3, (b4 + post));
        lemma_seq_assoc(((Seq::<u8>::empty() + b0) + b1), b2, (b3 + (b4 + post)));
        lemma_seq_assoc((Seq::<u8>::empty() + b0), b1, (b2 + (b3 + (b4 + post))));
        lemma_seq_assoc(Seq::<u8>::empty(), b0, (b1 + (b2 + (b3 + (b4 + post)))));
        lemma_seq_empty_left((b0 + (b1 + (b2 + (b3 + (b4 + post))))));
        let s = pre + e + post;
        lemma_seq_assoc(pre, e, post);
        assert(s == pre + t0);
        let a0 = pre;
        if 3 <= ctx.version {
            assert(parse_nullable_string(s, a0.len() as int, ctx.flexible) == Ok::<(Option<Seq<char>>, int), SerializationError>((m.owner_principal_type, a0.len() as int + b0.len()))) by {
                assert(nullable_string_bytes(m.owner_principal_type, ctx.flexible) is Ok);
                lemma_seq_assoc(a0, b0, t1);
                lemma_nullable_string_roundtrip(a0, m.owner_principal_type, t1, ctx.flexible);
            }
        }
        lemma_seq_assoc(a0, b0, t1);
        let a1 = a0 + b0;
        if 3 <= ctx.version {
            assert(parse_nullable_string(s, a1.len() as int, ctx.flexible) == Ok::<(Option<Seq<char>>, int), SerializationError>((m.owner_principal_name, a1.len() as int + b1.len()))) by {
                assert(nullable_string_bytes(m.owner_principal_name, ctx.flexible) is Ok);
                lemma_seq_assoc(a1, b1, t2);
                lemma_nullable_string_roundtrip(a1, m.owner_principal_name, t2, ctx.flexible);
            }
        }
        lemma_seq_assoc(a1, b1, t2);
        let a2 = a1 + b1;
        assert(parse_array::<CreatableRenewers>(s, a2.len() as int, Ctx { version: ctx.version, flexible: ctx.flexible, classic: false }) == Ok::<(Seq<<CreatableRenewers as DeepView>::V>, int), SerializationError>((m.renewers, a2.len() as int + b2.len()))) by {
            assert(array_bytes::<CreatableRenewers>(m.renewers, Ctx { version: ctx.version, flexible: ctx.flexible, classic: false }) is Ok);
            lemma_seq_assoc(a2, b2, t3);
            lemma_items_read_back::<CreatableRenewers>(m.renewers, Ctx { version: ctx.version, flexible: ctx.flexible, classic: false });
            lemma_array_roundtrip::<CreatableRenewers>(a2, m.renewers, t3, Ctx { version: ctx.version, flexible: ctx.flexible, classic: false });
        }
        lemma_seq_assoc(a2, b2, t3);
        let a3 = a2 + b2;
        assert(parse_i64(s, a3.len() as int) == Ok::<(i64, int), SerializationError>((m.max_lifetime_ms, a3.len() as int + b3.len()))) by {
            lemma_seq_assoc(a3, b3, t4);
            lemma_i64_roundtrip(a3, m.max_lifetime_ms, t4);
        }
        lemma_seq_assoc(a3, b3, t4);
        let a4 = a3 + b3;
        if ctx.flexible {
            assert(parse_uvarint(s, a4.len() as int) == Ok::<(u64, int), SerializationError>((0u64, a4.len() as int + b4.len()))) by {
                lemma_seq_assoc(a4, b4, t5);
                lemma_uvarint_roundtrip(a4, 0, t5);
            }
        }
    }

    /// The bytes written: the encoding of each field, in the order of the
    /// protocol's layout. Reading them back, wherever they stand, gives the value,
    /// with each field that the version leaves out at its default.
    #[verifier::spinoff_prover]
    pub proof fn lemma_message_layout(pre: Seq<u8>, m: CreateDelegationTokenRequestModel, post: Seq<u8>, version: i16)
        requires
            Self::spec_serialize(m, version) is Ok,
        ensures
            Self::spec_serialize(m, version) == Ok::<Seq<u8>, SerializationError>((if 3 <= version { (nullable_string_bytes(m.owner_principal_type, (version >= 2)))->Ok_0 } else { Seq::<u8>::empty() }) + (if 3 <= version { (nullable_string_bytes(m.owner_principal_name, (version >= 2)))->Ok_0 } else { Seq::<u8>::empty() }) + ((array_bytes::<CreatableRenewers>(m.renewers, Ctx { version: version, flexible: (version >= 2), classic: false }))->Ok_0) + (i64_bytes(m.max_lifetime_ms)) + (if (version >= 2) { uvarint_bytes(0) } else { Seq::<u8>::empty() })),
            Self::reads_back_message(m, version) ==> Self::spec_deserialize(pre + ((if 3 <= version { (nullable_string_bytes(m.owner_principal_type, (version >= 2)))->Ok_0 } else { Seq::<u8>::empty() }) + (if 3 <= version { (nullable_string_bytes(m.owner_principal_name, (version >= 2)))->Ok_0 } else { Seq::<u8>::empty() }) + ((array_bytes::<CreatableRenewers>(m.renewers, Ctx { version: version, flexible: (version >= 2), classic: false }))->Ok_0) + (i64_bytes(m.max_lifetime_ms)) + (if (version >= 2) { uvarint_bytes(0) } else { Seq::<u8>::empty() })) + post, pre.len() as int, version) == Ok::<(CreateDelegationTokenRequestModel, int), SerializationError>((CreateDelegationTokenRequestModel { owner_principal_type: if 3 <= version { m.owner_principal_type } else { None }, owner_principal_name: if 3 <= version { m.owner_principal_name } else { None }, renewers: m.renewers, max_lifetime_ms: m.max_lifetime_ms }, pre.len() as int + ((if 3 <= version { (nullable_string_bytes(m.owner_principal_type, (version >= 2)))->Ok_0 } else { Seq::<u8>::empty() }) + (if 3 <= version { (nullable_string_bytes(m.owner_principal_name, (version >= 2)))->Ok_0 } else { Seq::<u8>::empty() }) + ((array_bytes::<CreatableRenewers>(m.renewers, Ctx { version: version, flexible: (version >= 2), classic: false }))->Ok_0) + (i64_bytes(m.max_lifetime_ms)) + (if (version >= 2) { uvarint_bytes(0) } else { Seq::<u8>::empty() })).len())),
    {
        let is_flexible = version >= 2;
        let ctx = Ctx { version, flexible: is_flexible, classic: false };
        let b0 = if 3 <= ctx.version { (nullable_string_bytes(m.owner_principal_type, ctx.flexible))->Ok_0 } else { Seq::<u8>::empty() };
        let b1 = if 3 <= ctx.version { (nullable_string_bytes(m.owner_principal_name, ctx.flexible))->Ok_0 } else { Seq::<u8>::empty() };
        let b2 = (array_bytes::<CreatableRenewers>(m.renewers, Ctx { version: ctx.version, flexible: ctx.flexible, classic: false }))->Ok_0;
        let b3 = i64_bytes(m.max_lifetime_ms);
        let b4 = if ctx.flexible { uvarint_bytes(0) } else { Seq::<u8>::empty() };
        let e = Self::spec_serialize(m, version)->Ok_0;
        assert(e =~= Seq::<u8>::empty() + b0 + b1 + b2 + b3 + b4);
        assert(e =~= b0 + b1 + b2 + b3 + b4);
        if Self::reads_back_message(m, version) {
            Self::lemma_message_read_back(pre, m, post, version);
        }
    }

    /// Writing succeeds exactly when every field that the version carries can be
    /// encoded and every field that it leaves out, where leaving it out is an
    /// error, holds its default.
    #[verifier::spinoff_prover]
    pub proof fn lemma_message_write_succeeds(m: CreateDelegationTokenRequestModel, version: i16)
        ensures
            Self::spec_serialize(m, version) is Ok <==> ((3 <= version) ==> nullable_string_bytes(m.owner_principal_type, (version >= 2)) is Ok) && (!(3 <= version) ==> !(m.owner_principal_type is Some)) && ((3 <= version) ==> nullable_string_bytes(m.owner_principal_name, (version >= 2)) is Ok) && (!(3 <= version) ==> !(m.owner_principal_name is Some)) && (array_bytes::<CreatableRenewers>(m.renewers, Ctx { version: version, flexible: (version >= 2), classic: false }) is Ok),
    {
        let is_flexible = version >= 2;
        let ctx = Ctx { version, flexible: is_flexible, classic: false };
    }

    /// Writes the message body for `version`, which must be a supported version.
    /// On failure the buffer is left as it was.
    pub fn serialize(&self, version: ApiVersion, buf: &mut Vec<u8>) -> (r: Result<(), SerializationError>)
        requires
            1 <= version.0 <= 3,
        ensures
            write_exact(r, old(buf)@, final(buf)@, Self::spec_serialize(self.deep_view(), version.0)),
    {
        let start = buf.len();
        let r = self.write_body(version, buf);
        if r.is_err() {
            buf.truncate(start);
        }
        r
    }

    fn write_body(&self, version: ApiVersion, buf: &mut Vec<u8>) -> (r: Result<(), SerializationError>)
        requires
            1 <= version.0 <= 3,
        ensures
            write_ok(r, old(buf)@, final(buf)@, Self::spec_serialize(self.deep_view(), version.0)),
    {
        let is_flexible = version.0 >= Self::get_min_flexible_version().0;
        let ctx = Ctx::new(version, is_flexible);
        let ghost mut w: Seq<u8> = Seq::empty();
        if 3 <= ctx.version {
            encode_nullable_string(&self.owner_principal_type, buf, ctx.flexible)?;
            proof {
                w = w + (nullable_string_bytes(self.owner_principal_type.deep_view(), ctx.flexible))->Ok_0;
            }
            assert(buf@ =~= old(buf)@ + w);
        } else if self.owner_principal_type.is_some() {
            return Err(SerializationError::Encode("field 'OwnerPrincipalType' is not available in this version"));
        }
        if 3 <= ctx.version {
            encode_nullable_string(&self.owner_principal_name, buf, ctx.flexible)?;
            proof {
                w = w + (nullable_string_bytes(self.owner_principal_name.deep_view(), ctx.flexible))->Ok_0;
            }
            assert(buf@ =~= old(buf)@ + w);
        } else if self.owner_principal_name.is_some() {
            return Err(SerializationError::Encode("field 'OwnerPrincipalName' is not available in this version"));
        }
        encode_array(&self.renewers, buf, Ctx { version: ctx.version, flexible: ctx.flexible, classic: false })?;
        proof {
            w = w + (array_bytes::<CreatableRenewers>(self.renewers.deep_view(), Ctx { version: ctx.version, flexible: ctx.flexible, classic: false }))->Ok_0;
        }
        assert(buf@ =~= old(buf)@ + w);
        put_i64(buf, self.max_lifetime_ms);
        proof {
            w = w + i64_bytes(self.max_lifetime_ms);
        }
        assert(buf@ =~= old(buf)@ + w);
        if ctx.flexible {
            encode_unsigned_varint(0, buf);
            proof {
                w = w + uvarint_bytes(0);
            }
            assert(buf@ =~= old(buf)@ + w);
        }
        Ok(())
    }

    /// Reads a message body written for `version`.
    /// On failure the reader is put back where it started.
    pub fn deserialize(version: ApiVersion, buf: &mut Reader) -> (r: Result<Self, SerializationError>)
        ensures
            final(buf).bytes() == old(buf).bytes(),
            read_view_exact(r, Self::spec_deserialize(old(buf).bytes(), old(buf).pos(), version.0), old(buf).pos(), final(buf).pos()),
    {
        let start = buf.position();
        let r = Self::read_body(version, buf);
        if r.is_err() {
            buf.set_position(start);
        }
        r
    }

    fn read_body(version: ApiVersion, buf: &mut Reader) -> (r: Result<Self, SerializationError>)
        ensures
            final(buf).bytes() == old(buf).bytes(),
            read_view_ok(r, Self::spec_deserialize(old(buf).bytes(), old(buf).pos(), version.0), final(buf).pos()),
    {
        let is_flexible = version.0 >= Self::get_min_flexible_version().0;
        let ctx = Ctx::new(version, is_flexible);
        let owner_principal_type = if 3 <= ctx.version {
            buf.get_nullable_string(ctx.flexible)?
        } else {
            None
        };
        let owner_principal_name = if 3 <= ctx.version {
            buf.get_nullable_string(ctx.flexible)?
        } else {
            None
        };
        let renewers = decode_array::<CreatableRenewers>(buf, Ctx { version: ctx.version, flexible: ctx.flexible, classic: false })?;
        let max_lifetime_ms = buf.get_i64()?;
        if ctx.flexible {
            let (_tag_count, _) = decode_unsigned_varint(buf)?;
        }
        Ok(CreateDelegationTokenRequest { owner_principal_type, owner_principal_name, renewers, max_lifetime_ms })
    }
}

// -------------------------------------------------------
// CreatableRenewers
// -------------------------------------------------------
#[derive(Clone, Debug, Default, PartialEq)]
pub struct CreatableRenewers {
    /// The type of the Kafka principal.
    pub principal_type: String,
    /// The name of the Kafka principal.
    pub principal_name: String,
}

/// The contents of `CreatableRenewers`, with strings as characters and
/// nested values by their contents.
pub struct CreatableRenewersModel {
    pub principal_type: Seq<char>,
    pub principal_name: Seq<char>,
}

impl DeepView for CreatableRenewers {
    type V = CreatableRenewersModel;

    open spec fn deep_view(&self) -> CreatableRenewersModel {
        CreatableRenewersModel {
            principal_type: self.principal_type.deep_view(),
            principal_name: self.principal_name.deep_view(),
        }
    }
}

impl CreatableRenewers {
    /// The encoding of the structure in context `ctx`.
    pub open spec fn spec_encode_body(m: CreatableRenewersModel, ctx: Ctx) -> Result<Seq<u8>, SerializationError> {
        let r = Ok(Seq::<u8>::empty());
        let r = then(r, string_bytes(m.principal_type, ctx.flexible));
        let r = then(r, string_bytes(m.principal_name, ctx.flexible));
        let r = if ctx.flexible { then(r, Ok(uvarint_bytes(0))) } else { r };
        r
    }

    /// The structure read from `s` at `pos` in context `ctx`.
    pub open spec fn spec_decode_body(s: Seq<u8>, pos: int, ctx: Ctx) -> Result<(CreatableRenewersModel, int), SerializationError> {
        match parse_string(s, pos, ctx.flexible) {
            Err(e) => Err(e),
            Ok((principal_type, pos)) =>
            match parse_string(s, pos, ctx.flexible) {
                Err(e) => Err(e),
                Ok((principal_name, pos)) =>
                match (if ctx.flexible { parse_uvarint(s, pos) } else { Ok((0u64, pos)) }) {
                    Err(e) => Err(e),
                    Ok((_tag_count, pos)) =>
                    Ok((CreatableRenewersModel { principal_type, principal_name }, pos))
                }
            }
        }
    }

    /// Values of the structure that read back from their encoding in `ctx`: every
    /// field that the version leaves out holds its default, and nested values
    /// read back.
    pub open spec fn reads_back_body(m: CreatableRenewersModel, ctx: Ctx) -> bool {
        true
    }

    /// A value that can be written in `ctx` and reads back: decoding its encoding,
    /// wherever it stands, gives the value and the position just after it.
    #[verifier::spinoff_prover]
    pub proof fn lemma_body_read_back(pre: Seq<u8>, m: CreatableRenewersModel, post: Seq<u8>, ctx: Ctx)
        requires
            Self::spec_encode_body(m, ctx) is Ok,
            Self::reads_back_body(m, ctx),
        ensures
            Self::spec_decode_body(pre + Self::spec_encode_body(m, ctx)->Ok_0 + post, pre.len() as int, ctx) == Ok::<(CreatableRenewersModel, int), SerializationError>((m, pre.len() as int + Self::spec_encode_body(m, ctx)->Ok_0.len())),
    {
        let b0 = (string_bytes(m.principal_type, ctx.flexible))->Ok_0;
        let b1 = (string_bytes(m.principal_name, ctx.flexible))->Ok_0;
        let b2 = if ctx.flexible { uvarint_bytes(0) } else { Seq::<u8>::empty() };
        let t3 = post;
        let t2 = b2 + t3;
        let t1 = b1 + t2;
        let t0 = b0 + t1;
        let e = Self::spec_encode_body(m, ctx)->Ok_0;
        assert(e =~= Seq::<u8>::empty() + b0 + b1 + b2);
        lemma_seq_assoc(((Seq::<u8>::empty() + b0) + b1), b2, post);
        lemma_seq_assoc((Seq::<u8>::empty() + b0), b1, (b2 + post));
        lemma_seq_assoc(Seq::<u8>::empty(), b0, (b1 + (b2 + post)));
        lemma_seq_empty_left((b0 + (b1 + (b2 + post))));
        let s = pre + e + post;
        lemma_seq_assoc(pre, e, post);
        assert(s == pre + t0);
        let a0 = pre;
        assert(parse_string(s, a0.len() as int, ctx.flexible) == Ok::<(Seq<char>, int), SerializationError>((m.principal_type, a0.len() as int + b0.len()))) by {
            assert(string_bytes(m.principal_type, ctx.flexible) is Ok);
            lemma_seq_assoc(a0, b0, t1);
            lemma_string_roundtrip(a0, m.principal_type, t1, ctx.flexible);
        }
        lemma_seq_assoc(a0, b0, t1);
        let a1 = a0 + b0;
        assert(parse_string(s, a1.len() as int, ctx.flexible) == Ok::<(Seq<char>, int), SerializationError>((m.principal_name, a1.len() as int + b1.len()))) by {
            assert(string_bytes(m.principal_name, ctx.flexible) is Ok);
            lemma_seq_assoc(a1, b1, t2);
            lemma_string_roundtrip(a1, m.principal_name, t2, ctx.flexible);
        }
        lemma_seq_assoc(a1, b1, t2);
        let a2 = a1 + b1;
        if ctx.flexible {
            assert(parse_uvarint(s, a2.len() as int) == Ok::<(u64, int), SerializationError>((0u64, a2.len() as int + b2.len()))) by {
                lemma_seq_assoc(a2, b2, t3);
                lemma_uvarint_roundtrip(a2, 0, t3);
            }
        }
    }

    /// The bytes written: the encoding of each field, in the order of the
    /// protocol's layout. Reading them back, wherever they stand, gives the value,
    /// with each field that the version leaves out at its default.
    #[verifier::spinoff_prover]
    pub proof fn lemma_body_layout(pre: Seq<u8>, m: CreatableRenewersModel, post: Seq<u8>, ctx: Ctx)
        requires
            Self::spec_encode_body(m, ctx) is Ok,
        ensures
            Self::spec_encode_body(m, ctx) == Ok::<Seq<u8>, SerializationError>(((string_bytes(m.principal_type, ctx.flexible))->Ok_0) + ((string_bytes(m.principal_name, ctx.flexible))->Ok_0) + (if ctx.flexible { uvarint_bytes(0) } else { Seq::<u8>::empty() })),
            Self::reads_back_body(m, ctx) ==> Self::spec_decode_body(pre + (((string_bytes(m.principal_type, ctx.flexible))->Ok_0) + ((string_bytes(m.principal_name, ctx.flexible))->Ok_0) + (if ctx.flexible { uvarint_bytes(0) } else { Seq::<u8>::empty() })) + post, pre.len() as int, ctx) == Ok::<(CreatableRenewersModel, int), SerializationError>((m, pre.len() as int + (((string_bytes(m.principal_type, ctx.flexible))->Ok_0) + ((string_bytes(m.principal_name, ctx.flexible))->Ok_0) + (if ctx.flexible { uvarint_bytes(0) } else { Seq::<u8>::empty() })).len())),
    {
        let b0 = (string_bytes(m.principal_type, ctx.flexible))->Ok_0;
        let b1 = (string_bytes(m.principal_name, ctx.flexible))->Ok_0;
        let b2 = if ctx.flexible { uvarint_bytes(0) } else { Seq::<u8>::empty() };
        let e = Self::spec_encode_body(m, ctx)->Ok_0;
        assert(e =~= Seq::<u8>::empty() + b0 + b1 + b2);
        assert(e =~= b0 + b1 + b2);
        if Self::reads_back_body(m, ctx) {
            Self::lemma_body_read_back(pre, m, post, ctx);
        }
    }

    /// Writing succeeds exactly when every field that the version carries can be
    /// encoded and every field that it leaves out, where leaving it out is an
    /// error, holds its default.
    #[verifier::spinoff_prover]
    pub proof fn lemma_body_write_succeeds(m: CreatableRenewersModel, ctx: Ctx)
        ensures
            Self::spec_encode_body(m, ctx) is Ok <==> (string_bytes(m.principal_type, ctx.flexible) is Ok) && (string_bytes(m.principal_name, ctx.flexible) is Ok),
    {
    }

    /// Writes the structure for `version`, with the compact encodings when `is_flexible`.
    /// On failure the buffer is left as it was.
    pub fn encode(&self, buf: &mut Vec<u8>, version: ApiVersion, is_flexible: bool) -> (r: Result<(), SerializationError>)
        ensures
            write_exact(r, old(buf)@, final(buf)@, Self::spec_encode_body(self.deep_view(), Ctx { version: version.0, flexible: is_flexible, classic: false })),
    {
        let start = buf.len();
        let r = self.encode_ctx(buf, Ctx::new(version, is_flexible));
        if r.is_err() {
            buf.truncate(start);
        }
        r
    }

    /// Reads the structure as written for `version`.
    /// On failure the reader is put back where it started.
    pub fn decode(buf: &mut Reader, version: ApiVersion, is_flexible: bool) -> (r: Result<Self, SerializationError>)
        ensures
            final(buf).bytes() == old(buf).bytes(),
            read_view_exact(r, Self::spec_decode_body(old(buf).bytes(), old(buf).pos(), Ctx { version: version.0, flexible: is_flexible, classic: false }), old(buf).pos(), final(buf).pos()),
    {
        let start = buf.position();
        let r = Self::decode_ctx(buf, Ctx::new(version, is_flexible));
        if r.is_err() {
            buf.set_position(start);
        }
        r
    }
}

impl KafkaCodec for CreatableRenewers {
    open spec fn spec_encode(m: CreatableRenewersModel, ctx: Ctx) -> Result<Seq<u8>, SerializationError> {
        Self::spec_encode_body(m, ctx)
    }

    open spec fn spec_decode(s: Seq<u8>, pos: int, ctx: Ctx) -> Result<(CreatableRenewersModel, int), SerializationError> {
        Self::spec_decode_body(s, pos, ctx)
    }

    open spec fn reads_back(v: CreatableRenewersModel, ctx: Ctx) -> bool {
        Self::reads_back_body(v, ctx)
    }

    proof fn lemma_read_back(pre: Seq<u8>, v: CreatableRenewersModel, post: Seq<u8>, ctx: Ctx) {
        Self::lemma_body_read_back(pre, v, post, ctx);
        assert(Self::spec_decode(pre + Self::spec_encode(v, ctx)->Ok_0 + post, pre.len() as int, ctx)
            == Self::spec_decode_body(pre + Self::spec_encode_body(v, ctx)->Ok_0 + post, pre.len() as int, ctx));
    }

    fn encode_ctx(&self, buf: &mut Vec<u8>, ctx: Ctx) -> (r: Result<(), SerializationError>) {
        let ghost mut w: Seq<u8> = Seq::empty();
        encode_string(&self.principal_type, buf, ctx.flexible)?;
        proof {
            w = w + (string_bytes(self.principal_type.deep_view(), ctx.flexible))->Ok_0;
        }
        assert(buf@ =~= old(buf)@ + w);
        encode_string(&self.principal_name, buf, ctx.flexible)?;
        proof {
            w = w + (string_bytes(self.principal_name.deep_view(), ctx.flexible))->Ok_0;
        }
        assert(buf@ =~= old(buf)@ + w);
        if ctx.flexible {
            encode_unsigned_varint(0, buf);
            proof {
                w = w + uvarint_bytes(0);
            }
            assert(buf@ =~= old(buf)@ + w);
        }
        Ok(())
    }

    fn decode_ctx(buf: &mut Reader, ctx: Ctx) -> (r: Result<Self, SerializationError>) {
        let principal_type = buf.get_string(ctx.flexible)?;
        let principal_name = buf.get_string(ctx.flexible)?;
        if ctx.flexible {
            let (_tag_count, _) = decode_unsigned_varint(buf)?;
        }
        Ok(CreatableRenewers { principal_type, principal_name })
    }
}

} // verus!
