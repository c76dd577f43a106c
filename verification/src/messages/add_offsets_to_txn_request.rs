//! AddOffsetsToTxnRequest (API key 25).
use vstd::prelude::*;
use crate::roundtrip::{lemma_i16_roundtrip, lemma_i64_roundtrip, lemma_seq_assoc,
    lemma_seq_empty_left, lemma_string_roundtrip, lemma_uvarint_roundtrip};
use crate::serialization::{Ctx, KafkaCodec, Reader, SerializationError, decode_unsigned_varint,
    encode_string, encode_unsigned_varint, i16_bytes, i64_bytes, parse_i16, parse_i64,
    parse_string, parse_uvarint, put_i16, put_i64, read_view_exact, read_view_ok, string_bytes,
    then, uvarint_bytes, write_exact, write_ok};
use crate::{ApiKey, ApiVersion};

verus! {

// -------------------------------------------------------
// AddOffsetsToTxnRequest
// -------------------------------------------------------
#[derive(Clone, Debug, Default, PartialEq)]
pub struct AddOffsetsToTxnRequest {
    /// The transactional id corresponding to the transaction.
    pub transactional_id: String,
    /// Current producer id in use by the transactional id.
    pub producer_id: i64,
    /// Current epoch associated with the producer id.
    pub producer_epoch: i16,
    /// The unique group identifier.
    pub group_id: String,
}

/// The contents of `AddOffsetsToTxnRequest`, with strings as characters and
/// nested values by their contents.
pub struct AddOffsetsToTxnRequestModel {
    pub transactional_id: Seq<char>,
    pub producer_id: i64,
    pub producer_epoch: i16,
    pub group_id: Seq<char>,
}

impl DeepView for AddOffsetsToTxnRequest {
    type V = AddOffsetsToTxnRequestModel;

    open spec fn deep_view(&self) -> AddOffsetsToTxnRequestModel {
        AddOffsetsToTxnRequestModel {
            transactional_id: self.transactional_id.deep_view(),
            producer_id: self.producer_id,
            producer_epoch: self.producer_epoch,
            group_id: self.group_id.deep_view(),
        }
    }
}

impl AddOffsetsToTxnRequest {
    /// The encoding of the structure in context `ctx`.
    pub open spec fn spec_encode_body(m: AddOffsetsToTxnRequestModel, ctx: Ctx) -> Result<Seq<u8>, SerializationError> {
        let r = Ok(Seq::<u8>::empty());
        let r = then(r, string_bytes(m.transactional_id, ctx.flexible));
        let r = then(r, Ok(i64_bytes(m.producer_id)));
        let r = then(r, Ok(i16_bytes(m.producer_epoch)));
        let r = then(r, string_bytes(m.group_id, ctx.flexible));
        let r = if ctx.flexible { then(r, Ok(uvarint_bytes(0))) } else { r };
        r
    }

    /// The structure read from `s` at `pos` in context `ctx`.
    pub open spec fn spec_decode_body(s: Seq<u8>, pos: int, ctx: Ctx) -> Result<(AddOffsetsToTxnRequestModel, int), SerializationError> {
        match parse_string(s, pos, ctx.flexible) {
            Err(e) => Err(e),
            Ok((transactional_id, pos)) =>
            match parse_i64(s, pos) {
                Err(e) => Err(e),
                Ok((producer_id, pos)) =>
                match parse_i16(s, pos) {
                    Err(e) => Err(e),
                    Ok((producer_epoch, pos)) =>
                    match parse_string(s, pos, ctx.flexible) {
                        Err(e) => Err(e),
                        Ok((group_id, pos)) =>
                        match (if ctx.flexible { parse_uvarint(s, pos) } else { Ok((0u64, pos)) }) {
                            Err(e) => Err(e),
                            Ok((_tag_count, pos)) =>
                            Ok((AddOffsetsToTxnRequestModel { transactional_id, producer_id, producer_epoch, group_id }, pos))
                        }
                    }
                }
            }
        }
    }

    /// Values of the structure that read back from their encoding in `ctx`: every
    /// field that the version leaves out holds its default, and nested values
    /// read back.
    pub open spec fn reads_back_body(m: AddOffsetsToTxnRequestModel, ctx: Ctx) -> bool {
        true
    }

    /// A value that can be written in `ctx` and reads back: decoding its encoding,
    /// wherever it stands, gives the value and the position just after it.
    #[verifier::spinoff_prover]
    pub proof fn lemma_body_read_back(pre: Seq<u8>, m: AddOffsetsToTxnRequestModel, post: Seq<u8>, ctx: Ctx)
        requires
            Self::spec_encode_body(m, ctx) is Ok,
            Self::reads_back_body(m, ctx),
        ensures
            Self::spec_decode_body(pre + Self::spec_encode_body(m, ctx)->Ok_0 + post, pre.len() as int, ctx) == Ok::<(AddOffsetsToTxnRequestModel, int), SerializationError>((m, pre.len() as int + Self::spec_encode_body(m, ctx)->Ok_0.len())),
    {
        let b0 = (string_bytes(m.transactional_id, ctx.flexible))->Ok_0;
        let b1 = i64_bytes(m.producer_id);
        let b2 = i16_bytes(m.producer_epoch);
        let b3 = (string_bytes(m.group_id, ctx.flexible))->Ok_0;
        let b4 = if ctx.flexible { uvarint_bytes(0) } else { Seq::<u8>::empty() };
        let t5 = post;
        let t4 = b4 + t5;
        let t3 = b3 + t4;
        let t2 = b2 + t3;
        let t1 = b1 + t2;
        let t0 = b0 + t1;
        let e = Self::spec_encode_body(m, ctx)->Ok_0;
        assert(e =~= Seq::<u8>::empty() + b0 + b1 + b2 + b3 + b4);
        lemma_seq_assoc(((((Seq::<u8>::empty() + b0) + b1) + b2) + b3), b4, post);
        lemma_seq_assoc((((Seq::<u8>::empty() + b0) + b1) + b2), b3, (b4 + post));
        lemma_seq_assoc(((Seq::<u8>::empty() + b0) + b1), b2, (b3 + (b4 + post)));
        lemma_seq_assoc((Seq::<u8>::empty() + b0), b1, (b2 + (b3 + (b4 + post))));
        lemma_seq_assoc(Seq::<u8>::empty(), b0, (b1 + (b2 + (b3 + (b4 + post)))));
        lemma_seq_empty_left((b0 + (b1 + (b2 + (b3 + (b4 + post))))));
        let s = pre + e + post;
        lemma_seq_assoc(pre, e, post);
        assert(s == pre + t0);
        let a0 = pre;
        assert(parse_string(s, a0.len() as int, ctx.flexible) == Ok::<(Seq<char>, int), SerializationError>((m.transactional_id, a0.len() as int + b0.len()))) by {
            assert(string_bytes(m.transactional_id, ctx.flexible) is Ok);
            lemma_seq_assoc(a0, b0, t1);
            lemma_string_roundtrip(a0, m.transactional_id, t1, ctx.flexible);
        }
        lemma_seq_assoc(a0, b0, t1);
        let a1 = a0 + b0;
        assert(parse_i64(s, a1.len() as int) == Ok::<(i64, int), SerializationError>((m.producer_id, a1.len() as int + b1.len()))) by {
            lemma_seq_assoc(a1, b1, t2);
            lemma_i64_roundtrip(a1, m.producer_id, t2);
        }
        lemma_seq_assoc(a1, b1, t2);
        let a2 = a1 + b1;
        assert(parse_i16(s, a2.len() as int) == Ok::<(i16, int), SerializationError>((m.producer_epoch, a2.len() as int + b2.len()))) by {
            lemma_seq_assoc(a2, b2, t3);
            lemma_i16_roundtrip(a2, m.producer_epoch, t3);
        }
        lemma_seq_assoc(a2, b2, t3);
        let a3 = a2 + b2;
        assert(parse_string(s, a3.len() as int, ctx.flexible) == Ok::<(Seq<char>, int), SerializationError>((m.group_id, a3.len() as int + b3.len()))) by {
            assert(string_bytes(m.group_id, ctx.flexible) is Ok);
            lemma_seq_assoc(a3, b3, t4);
            lemma_string_roundtrip(a3, m.group_id, t4, ctx.flexible);
        }
        lemma_seq_assoc(a3, b3, t4);
        let a4 = a3 + b3;
        if ctx.flexible {
            assert(parse_uvarint(s, a4.len() as int) == Ok::<(u64, int), SerializationError>((0u64, a4.len() as int + b4.len()))) by {
                lemma_seq_assoc(a4, b4, t5);
                lemma_uvarint_roundtrip(a4, 0, t5);
            }
        }
    }

    /// The bytes written: the encoding of each field, in the order of the
    /// protocol's layout. Reading them back, wherever they stand, gives the value,
    /// with each field that the version leaves out at its default.
    #[verifier::spinoff_prover]
    pub proof fn lemma_body_layout(pre: Seq<u8>, m: AddOffsetsToTxnRequestModel, post: Seq<u8>, ctx: Ctx)
        requires
            Self::spec_encode_body(m, ctx) is Ok,
        ensures
            Self::spec_encode_body(m, ctx) == Ok::<Seq<u8>, SerializationError>(((string_bytes(m.transactional_id, ctx.flexible))->Ok_0) + (i64_bytes(m.producer_id)) + (i16_bytes(m.producer_epoch)) + ((string_bytes(m.group_id, ctx.flexible))->Ok_0) + (if ctx.flexible { uvarint_bytes(0) } else { Seq::<u8>::empty() })),
            Self::reads_back_body(m, ctx) ==> Self::spec_decode_body(pre + (((string_bytes(m.transactional_id, ctx.flexible))->Ok_0) + (i64_bytes(m.producer_id)) + (i16_bytes(m.producer_epoch)) + ((string_bytes(m.group_id, ctx.flexible))->Ok_0) + (if ctx.flexible { uvarint_bytes(0) } else { Seq::<u8>::empty() })) + post, pre.len() as int, ctx) == Ok::<(AddOffsetsToTxnRequestModel, int), SerializationError>((m, pre.len() as int + (((string_bytes(m.transactional_id, ctx.flexible))->Ok_0) + (i64_bytes(m.producer_id)) + (i16_bytes(m.producer_epoch)) + ((string_bytes(m.group_id, ctx.flexible))->Ok_0) + (if ctx.flexible { uvarint_bytes(0) } else { Seq::<u8>::empty() })).len())),
    {
        let b0 = (string_bytes(m.transactional_id, ctx.flexible))->Ok_0;
        let b1 = i64_bytes(m.producer_id);
        let b2 = i16_bytes(m.producer_epoch);
        let b3 = (string_bytes(m.group_id, ctx.flexible))->Ok_0;
        let b4 = if ctx.flexible { uvarint_bytes(0) } else { Seq::<u8>::empty() };
        let e = Self::spec_encode_body(m, ctx)->Ok_0;
        assert(e =~= Seq::<u8>::empty() + b0 + b1 + b2 + b3 + b4);
        assert(e =~= b0 + b1 + b2 + b3 + b4);
        if Self::reads_back_body(m, ctx) {
            Self::lemma_body_read_back(pre, m, post, ctx);
        }
    }

    /// Writing succeeds exactly when every field that the version carries can be
    /// encoded and every field that it leaves out, where leaving it out is an
    /// error, holds its default.
    #[verifier::spinoff_prover]
    pub proof fn lemma_body_write_succeeds(m: AddOffsetsToTxnRequestModel, ctx: Ctx)
        ensures
            Self::spec_encode_body(m, ctx) is Ok <==> (string_bytes(m.transactional_id, ctx.flexible) is Ok) && (string_bytes(m.group_id, ctx.flexible) is Ok),
    {
    }

    /// Writes the structure for `version`, with the compact encodings when `is_flexible`.
    /// On failure the buffer is left as it was.
    pub fn encode(&self, buf: &mut Vec<u8>, version: ApiVersion, is_flexible: bool) -> (r: Result<(), SerializationError>)
        ensures
            write_exact(r, old(buf)@, final(buf)@, Self::spec_encode_body(self.deep_view(), Ctx { version: version.0, flexible: is_flexible, classic: false })),
    {
        let start = buf.len();
        let r = self.encode_ctx(buf, Ctx::new(version, is_flexible));
        if r.is_err() {
            buf.truncate(start);
        }
        r
    }

    /// Reads the structure as written for `version`.
    /// On failure the reader is put back where it started.
    pub fn decode(buf: &mut Reader, version: ApiVersion, is_flexible: bool) -> (r: Result<Self, SerializationError>)
        ensures
            final(buf).bytes() == old(buf).bytes(),
            read_view_exact(r, Self::spec_decode_body(old(buf).bytes(), old(buf).pos(), Ctx { version: version.0, flexible: is_flexible, classic: false }), old(buf).pos(), final(buf).pos()),
    {
        let start = buf.position();
        let r = Self::decode_ctx(buf, Ctx::new(version, is_flexible));
        if r.is_err() {
            buf.set_position(start);
        }
        r
    }
}

impl KafkaCodec for AddOffsetsToTxnRequest {
    open spec fn spec_encode(m: AddOffsetsToTxnRequestModel, ctx: Ctx) -> Result<Seq<u8>, SerializationError> {
        Self::spec_encode_body(m, ctx)
    }

    open spec fn spec_decode(s: Seq<u8>, pos: int, ctx: Ctx) -> Result<(AddOffsetsToTxnRequestModel, int), SerializationError> {
        Self::spec_decode_body(s, pos, ctx)
    }

    open spec fn reads_back(v: AddOffsetsToTxnRequestModel, ctx: Ctx) -> bool {
        Self::reads_back_body(v, ctx)
    }

    proof fn lemma_read_back(pre: Seq<u8>, v: AddOffsetsToTxnRequestModel, post: Seq<u8>, ctx: Ctx) {
        Self::lemma_body_read_back(pre, v, post, ctx);
        assert(Self::spec_decode(pre + Self::spec_encode(v, ctx)->Ok_0 + post, pre.len() as int, ctx)
            == Self::spec_decode_body(pre + Self::spec_encode_body(v, ctx)->Ok_0 + post, pre.len() as int, ctx));
    }

    fn encode_ctx(&self, buf: &mut Vec<u8>, ctx: Ctx) -> (r: Result<(), SerializationError>) {
        let ghost mut w: Seq<u8> = Seq::empty();
        encode_string(&self.transactional_id, buf, ctx.flexible)?;
        proof {
            w = w + (string_bytes(self.transactional_id.deep_view(), ctx.flexible))->Ok_0;
        }
        assert(buf@ =~= old(buf)@ + w);
        put_i64(buf, self.producer_id);
        proof {
            w = w + i64_bytes(self.producer_id);
        }
        assert(buf@ =~= old(buf)@ + w);
        put_i16(buf, self.producer_epoch);
        proof {
            w = w + i16_bytes(self.producer_epoch);
        }
        assert(buf@ =~= old(buf)@ + w);
        encode_string(&self.group_id, buf, ctx.flexible)?;
        proof {
            w = w + (string_bytes(self.group_id.deep_view(), ctx.flexible))->Ok_0;
        }
        assert(buf@ =~= old(buf)@ + w);
        if ctx.flexible {
            encode_unsigned_varint(0, buf);
            proof {
                w = w + uvarint_bytes(0);
            }
            assert(buf@ =~= old(buf)@ + w);
        }
        Ok(())
    }

    fn decode_ctx(buf: &mut Reader, ctx: Ctx) -> (r: Result<Self, SerializationError>) {
        let transactional_id = buf.get_string(ctx.flexible)?;
        let producer_id = buf.get_i64()?;
        let producer_epoch = buf.get_i16()?;
        let group_id = buf.get_string(ctx.flexible)?;
        if ctx.flexible {
            let (_tag_count, _) = decode_unsigned_varint(buf)?;
        }
        Ok(AddOffsetsToTxnRequest { transactional_id, producer_id, producer_epoch, group_id })
    }
}

impl AddOffsetsToTxnRequest {
    /// The API key of this message.
    pub fn get_api_key() -> (r: ApiKey)
        ensures
            r.0 == 25,
    {
        ApiKey::new(25)
    }

    /// The oldest version of this message.
    pub fn get_min_supported_version() -> (r: ApiVersion)
        ensures
            r.0 == 0,
    {
        ApiVersion::new(0)
    }

    /// The newest version of this message.
    pub fn get_max_supported_version() -> (r: ApiVersion)
        ensures
            r.0 == 4,
    {
        ApiVersion::new(4)
    }

    /// The first version of this message with the compact encodings.
    pub fn get_min_flexible_version() -> (r: ApiVersion)
        ensures
            r.0 == 3,
    {
        ApiVersion::new(3)
    }

    /// The encoding of a whole message body at `version`.
    pub open spec fn spec_serialize(m: AddOffsetsToTxnRequestModel, version: i16) -> Result<Seq<u8>, SerializationError> {
        let is_flexible = version >= 3;
        let ctx = Ctx { version, flexible: is_flexible, classic: false };
        let r = Ok(Seq::<u8>::empty());
        let r = then(r, string_bytes(m.transactional_id, ctx.flexible));
        let r = then(r, Ok(i64_bytes(m.producer_id)));
        let r = then(r, Ok(i16_bytes(m.producer_epoch)));
        let r = then(r, string_bytes(m.group_id, ctx.flexible));
        let r = if ctx.flexible { then(r, Ok(uvarint_bytes(0))) } else { r };
        r
    }

    /// The message body read at `version`.
    pub open spec fn spec_deserialize(s: Seq<u8>, pos: int, version: i16) -> Result<(AddOffsetsToTxnRequestModel, int), SerializationError> {
        let is_flexible = version >= 3;
        let ctx = Ctx { version, flexible: is_flexible, classic: false };
        match parse_string(s, pos, ctx.flexible) {
            Err(e) => Err(e),
            Ok((transactional_id, pos)) =>
            match parse_i64(s, pos) {
                Err(e) => Err(e),
                Ok((producer_id, pos)) =>
                match parse_i16(s, pos) {
                    Err(e) => Err(e),
                    Ok((producer_epoch, pos)) =>
                    match parse_string(s, pos, ctx.flexible) {
                        Err(e) => Err(e),
                        Ok((group_id, pos)) =>
                        match (if ctx.flexible { parse_uvarint(s, pos) } else { Ok((0u64, pos)) }) {
                            Err(e) => Err(e),
                            Ok((_tag_count, pos)) =>
                            Ok((AddOffsetsToTxnRequestModel { transactional_id, producer_id, producer_epoch, group_id }, pos))
                        }
                    }
                }
            }
        }
    }

    /// Message bodies that read back when written at `version`: every field that
    /// the version leaves out holds its default, and nested values read back.
    pub open spec fn reads_back_message(m: AddOffsetsToTxnRequestModel, version: i16) -> bool {
        let is_flexible = version >= 3;
        let ctx = Ctx { version, flexible: is_flexible, classic: false };
        true
    }

    /// A message body that can be written at `version` and reads back: reading a
    /// body at `version` from its bytes, wherever they stand, gives the same message.
    #[verifier::spinoff_prover]
    pub proof fn lemma_message_read_back(pre: Seq<u8>, m: AddOffsetsToTxnRequestModel, post: Seq<u8>, version: i16)
        requires
            Self::spec_serialize(m, version) is Ok,
            Self::reads_back_message(m, version),
        ensures
            Self::spec_deserialize(pre + Self::spec_serialize(m, version)->Ok_0 + post, pre.len() as int, version) == Ok::<(AddOffsetsToTxnRequestModel, int), SerializationError>((m, pre.len() as int + Self::spec_serialize(m, version)->Ok_0.len())),
    {
        let is_flexible = version >= 3;
        let ctx = Ctx { version, flexible: is_flexible, classic: false };
        let b0 = (string_bytes(m.transactional_id, ctx.flexible))->Ok_0;
        let b1 = i64_bytes(m.producer_id);
        let b2 = i16_bytes(m.producer_epoch);
        let b3 = (string_bytes(m.group_id, ctx.flexible))->Ok_0;
        let b4 = if ctx.flexible { uvarint_bytes(0) } else { Seq::<u8>::empty() };
        let t5 = post;
        let t4 = b4 + t5;
        let t3 = b3 + t4;
        let t2 = b2 + t3;
        let t1 = b1 + t2;
        let t0 = b0 + t1;
        let e = Self::spec_serialize(m, version)->Ok_0;
        assert(e =~= Seq::<u8>::empty() + b0 + b1 + b2 + b3 + b4);
        lemma_seq_assoc(((((Seq::<u8>::empty() + b0) + b1) + b2) + b3), b4, post);
        lemma_seq_assoc((((Seq::<u8>::empty() + b0) + b1) + b2), b3, (b4 + post));
        lemma_seq_assoc(((Seq::<u8>::empty() + b0) + b1), b2, (b3 + (b4 + post)));
        lemma_seq_assoc((Seq::<u8>::empty() + b0), b1, (b2 + (b3 + (b4 + post))));
        lemma_seq_assoc(Seq::<u8>::empty(), b0, (b1 + (b2 + (b3 + (b4 + post)))));
        lemma_seq_empty_left((b0 + (b1 + (b2 + (b3 + (b4 + post))))));
        let s = pre + e + post;
        lemma_seq_assoc(pre, e, post);
        assert(s == pre + t0);
        let a0 = pre;
        assert(parse_string(s, a0.len() as int, ctx.flexible) == Ok::<(Seq<char>, int), SerializationError>((m.transactional_id, a0.len() as int + b0.len()))) by {
            assert(string_bytes(m.transactional_id, ctx.flexible) is Ok);
            lemma_seq_assoc(a0, b0, t1);
            lemma_string_roundtrip(a0, m.transactional_id, t1, ctx.flexible);
        }
        lemma_seq_assoc(a0, b0, t1);
        let a1 = a0 + b0;
        assert(parse_i64(s, a1.len() as int) == Ok::<(i64, int), SerializationError>((m.producer_id, a1.len() as int + b1.len()))) by {
            lemma_seq_assoc(a1, b1, t2);
            lemma_i64_roundtrip(a1, m.producer_id, t2);
        }
        lemma_seq_assoc(a1, b1, t2);
        let a2 = a1 + b1;
        assert(parse_i16(s, a2.len() as int) == Ok::<(i16, int), SerializationError>((m.producer_epoch, a2.len() as int + b2.len()))) by {
            lemma_seq_assoc(a2, b2, t3);
            lemma_i16_roundtrip(a2, m.producer_epoch, t3);
        }
        lemma_seq_assoc(a2, b2, t3);
        let a3 = a2 + b2;
        assert(parse_string(s, a3.len() as int, ctx.flexible) == Ok::<(Seq<char>, int), SerializationError>((m.group_id, a3.len() as int + b3.len()))) by {
            assert(string_bytes(m.group_id, ctx.flexible) is Ok);
            lemma_seq_assoc(a3, b3, t4);
            lemma_string_roundtrip(a3, m.group_id, t4, ctx.flexible);
        }
        lemma_seq_assoc(a3, b3, t4);
        let a4 = a3 + b3;
        if ctx.flexible {
            assert(parse_uvarint(s, a4.len() as int) == Ok::<(u64, int), SerializationError>((0u64, a4.len() as int + b4.len()))) by {
                lemma_seq_assoc(a4, b4, t5);
                lemma_uvarint_roundtrip(a4, 0, t5);
            }
        }
    }

    /// The bytes written: the encoding of each field, in the order of the
    /// protocol's layout. Reading them back, wherever they stand, gives the value,
    /// with each field that the version leaves out at its default.
    #[verifier::spinoff_prover]
    pub proof fn lemma_message_layout(pre: Seq<u8>, m: AddOffsetsToTxnRequestModel, post: Seq<u8>, version: i16)
        requires
            Self::spec_serialize(m, version) is Ok,
        ensures
            Self::spec_serialize(m, version) == Ok::<Seq<u8>, SerializationError>(((string_bytes(m.transactional_id, (version >= 3)))->Ok_0) + (i64_bytes(m.producer_id)) + (i16_bytes(m.producer_epoch)) + ((string_bytes(m.group_id, (version >= 3)))->Ok_0) + (if (version >= 3) { uvarint_bytes(0) } else { Seq::<u8>::empty() })),
            Self::reads_back_message(m, version) ==> Self::spec_deserialize(pre + (((string_bytes(m.transactional_id, (version >= 3)))->Ok_0) + (i64_bytes(m.producer_id)) + (i16_bytes(m.producer_epoch)) + ((string_bytes(m.group_id, (version >= 3)))->Ok_0) + (if (version >= 3) { uvarint_bytes(0) } else { Seq::<u8>::empty() })) + post, pre.len() as int, version) == Ok::<(AddOffsetsToTxnRequestModel, int), SerializationError>((m, pre.len() as int + (((string_bytes(m.transactional_id, (version >= 3)))->Ok_0) + (i64_bytes(m.producer_id)) + (i16_bytes(m.producer_epoch)) + ((string_bytes(m.group_id, (version >= 3)))->Ok_0) + (if (version >= 3) { uvarint_bytes(0) } else { Seq::<u8>::empty() })).len())),
    {
        let is_flexible = version >= 3;
        let ctx = Ctx { version, flexible: is_flexible, classic: false };
        let b0 = (string_bytes(m.transactional_id, ctx.flexible))->Ok_0;
        let b1 = i64_bytes(m.producer_id);
        let b2 = i16_bytes(m.producer_epoch);
        let b3 = (string_bytes(m.group_id, ctx.flexible))->Ok_0;
        let b4 = if ctx.flexible { uvarint_bytes(0) } else { Seq::<u8>::empty() };
        let e = Self::spec_serialize(m, version)->Ok_0;
        assert(e =~= Seq::<u8>::empty() + b0 + b1 + b2 + b3 + b4);
        assert(e =~= b0 + b1 + b2 + b3 + b4);
        if Self::reads_back_message(m, version) {
            Self::lemma_message_read_back(pre, m, post, version);
        }
    }

    /// Writing succeeds exactly when every field that the version carries can be
    /// encoded and every field that it leaves out, where leaving it out is an
    /// error, holds its default.
    #[verifier::spinoff_prover]
    pub proof fn lemma_message_write_succeeds(m: AddOffsetsToTxnRequestModel, version: i16)
        ensures
            Self::spec_serialize(m, version) is Ok <==> (string_bytes(m.transactional_id, (version >= 3)) is Ok) && (string_bytes(m.group_id, (version >= 3)) is Ok),
    {
        let is_flexible = version >= 3;
        let ctx = Ctx { version, flexible: is_flexible, classic: false };
    }

    /// Writes the message body for `version`, which must be a supported version.
    /// On failure the buffer is left as it was.
    pub fn serialize(&self, version: ApiVersion, buf: &mut Vec<u8>) -> (r: Result<(), SerializationError>)
        requires
            0 <= version.0 <= 4,
        ensures
            write_exact(r, old(buf)@, final(buf)@, Self::spec_serialize(self.deep_view(), version.0)),
    {
        let start = buf.len();
        let r = self.write_body(version, buf);
        if r.is_err() {
            buf.truncate(start);
        }
        r
    }

    fn write_body(&self, version: ApiVersion, buf: &mut Vec<u8>) -> (r: Result<(), SerializationError>)
        requires
            0 <= version.0 <= 4,
        ensures
            write_ok(r, old(buf)@, final(buf)@, Self::spec_serialize(self.deep_view(), version.0)),
    {
        let is_flexible = version.0 >= Self::get_min_flexible_version().0;
        let ctx = Ctx::new(version, is_flexible);
        let ghost mut w: Seq<u8> = Seq::empty();
        encode_string(&self.transactional_id, buf, ctx.flexible)?;
        proof {
            w = w + (string_bytes(self.transactional_id.deep_view(), ctx.flexible))->Ok_0;
        }
        assert(buf@ =~= old(buf)@ + w);
        put_i64(buf, self.producer_id);
        proof {
            w = w + i64_bytes(self.producer_id);
        }
        assert(buf@ =~= old(buf)@ + w);
        put_i16(buf, self.producer_epoch);
        proof {
            w = w + i16_bytes(self.producer_epoch);
        }
        assert(buf@ =~= old(buf)@ + w);
        encode_string(&self.group_id, buf, ctx.flexible)?;
        proof {
            w = w + (string_bytes(self.group_id.deep_view(), ctx.flexible))->Ok_0;
        }
        assert(buf@ =~= old(buf)@ + w);
        if ctx.flexible {
            encode_unsigned_varint(0, buf);
            proof {
                w = w + uvarint_bytes(0);
            }
            assert(buf@ =~= old(buf)@ + w);
        }
        Ok(())
    }

    /// Reads a message body written for `version`.
    /// On failure the reader is put back where it started.
    pub fn deserialize(version: ApiVersion, buf: &mut Reader) -> (r: Result<Self, SerializationError>)
        ensures
            final(buf).bytes() == old(buf).bytes(),
            read_view_exact(r, Self::spec_deserialize(old(buf).bytes(), old(buf).pos(), version.0), old(buf).pos(), final(buf).pos()),
    {
        let start = buf.position();
        let r = Self::read_body(version, buf);
        if r.is_err() {
            buf.set_position(start);
        }
        r
    }

    fn read_body(version: ApiVersion, buf: &mut Reader) -> (r: Result<Self, SerializationError>)
        ensures
            final(buf).bytes() == old(buf).bytes(),
            read_view_ok(r, Self::spec_deserialize(old(buf).bytes(), old(buf).pos(), version.0), final(buf).pos()),
    {
        let is_flexible = version.0 >= Self::get_min_flexible_version().0;
        let ctx = Ctx::new(version, is_flexible);
        let transactional_id = buf.get_string(ctx.flexible)?;
        let producer_id = buf.get_i64()?;
        let producer_epoch = buf.get_i16()?;
        let group_id = buf.get_string(ctx.flexible)?;
        if ctx.flexible {
            let (_tag_count, _) = decode_unsigned_varint(buf)?;
        }
        Ok(AddOffsetsToTxnRequest { transactional_id, producer_id, producer_epoch, group_id })
    }
}

} // verus!
