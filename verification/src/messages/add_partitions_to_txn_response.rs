//! AddPartitionsToTxnResponse (API key 24).
use vstd::prelude::*;
use crate::roundtrip::{lemma_array_roundtrip, lemma_i16_roundtrip, lemma_i32_roundtrip,
    lemma_items_read_back, lemma_seq_assoc, lemma_seq_empty_left, lemma_string_roundtrip,
    lemma_uvarint_roundtrip};
use crate::serialization::{Ctx, KafkaCodec, Reader, SerializationError, array_bytes, decode_array,
    decode_unsigned_varint, encode_array, encode_string, encode_unsigned_varint, i16_bytes,
    i32_bytes, new_array, parse_array, parse_i16, parse_i32, parse_string, parse_uvarint, put_i16,
    put_i32, read_view_exact, read_view_ok, string_bytes, then, uvarint_bytes, write_exact,
    write_ok};
use crate::{ApiKey, ApiVersion};

verus! {

// -------------------------------------------------------
// AddPartitionsToTxnResponse
// -------------------------------------------------------
#[derive(Clone, Debug, Default, PartialEq)]
pub struct AddPartitionsToTxnResponse {
    /// Duration in milliseconds for which the request was throttled due to a quota violation, or zero if the request did not violate any quota.
    pub throttle_time_ms: i32,
    /// The response top level error code.
    /// Available in version 4+.
    pub error_code: i16,
    /// Results categorized by transactional ID.
    /// Available in version 4+.
    pub results_by_transaction: Vec<AddPartitionsToTxnResult>,
    /// The results for each topic.
    /// Available in version 0-3.
    pub results_by_topic_v3_and_below: Vec<AddPartitionsToTxnTopicResult>,
}

/// The contents of `AddPartitionsToTxnResponse`, with strings as characters and
/// nested values by their contents.
pub struct AddPartitionsToTxnResponseModel {
    pub throttle_time_ms: i32,
    pub error_code: i16,
    pub results_by_transaction: Seq<<AddPartitionsToTxnResult as DeepView>::V>,
    pub results_by_topic_v3_and_below: Seq<<AddPartitionsToTxnTopicResult as DeepView>::V>,
}

impl DeepView for AddPartitionsToTxnResponse {
    type V = AddPartitionsToTxnResponseModel;

    open spec fn deep_view(&self) -> AddPartitionsToTxnResponseModel {
        AddPartitionsToTxnResponseModel {
            throttle_time_ms: self.throttle_time_ms,
            error_code: self.error_code,
            results_by_transaction: self.results_by_transaction.deep_view(),
            results_by_topic_v3_and_below: self.results_by_topic_v3_and_below.deep_view(),
        }
    }
}

impl AddPartitionsToTxnResponse {
    /// The encoding of the structure in context `ctx`.
    pub open spec fn spec_encode_body(m: AddPartitionsToTxnResponseModel, ctx: Ctx) -> Result<Seq<u8>, SerializationError> {
        let r = Ok(Seq::<u8>::empty());
        let r = then(r, Ok(i32_bytes(m.throttle_time_ms)));
        let r = if 4 <= ctx.version { then(r, Ok(i16_bytes(m.error_code))) } else { r };
        let r = if 4 <= ctx.version { then(r, array_bytes::<AddPartitionsToTxnResult>(m.results_by_transaction, Ctx { version: ctx.version, flexible: ctx.flexible, classic: false })) } else { r };
        let r = if 0 <= ctx.version && ctx.version <= 3 { then(r, array_bytes::<AddPartitionsToTxnTopicResult>(m.results_by_topic_v3_and_below, Ctx { version: ctx.version, flexible: ctx.flexible, classic: false })) } else { r };
        let r = if ctx.flexible { then(r, Ok(uvarint_bytes(0))) } else { r };
        r
    }

    /// The structure read from `s` at `pos` in context `ctx`.
    pub open spec fn spec_decode_body(s: Seq<u8>, pos: int, ctx: Ctx) -> Result<(AddPartitionsToTxnResponseModel, int), SerializationError> {
        match parse_i32(s, pos) {
            Err(e) => Err(e),
            Ok((throttle_time_ms, pos)) =>
            match (if 4 <= ctx.version { parse_i16(s, pos) } else { Ok((0i16, pos)) }) {
                Err(e) => Err(e),
                Ok((error_code, pos)) =>
                match (if 4 <= ctx.version { parse_array::<AddPartitionsToTxnResult>(s, pos, Ctx { version: ctx.version, flexible: ctx.flexible, classic: false }) } else { Ok((Seq::<<AddPartitionsToTxnResult as DeepView>::V>::empty(), pos)) }) {
                    Err(e) => Err(e),
                    Ok((results_by_transaction, pos)) =>
                    match (if 0 <= ctx.version && ctx.version <= 3 { parse_array::<AddPartitionsToTxnTopicResult>(s, pos, Ctx { version: ctx.version, flexible: ctx.flexible, classic: false }) } else { Ok((Seq::<<AddPartitionsToTxnTopicResult as DeepView>::V>::empty(), pos)) }) {
                        Err(e) => Err(e),
                        Ok((results_by_topic_v3_and_below, pos)) =>
                        match (if ctx.flexible { parse_uvarint(s, pos) } else { Ok((0u64, pos)) }) {
                            Err(e) => Err(e),
                            Ok((_tag_count, pos)) =>
                            Ok((AddPartitionsToTxnResponseModel { throttle_time_ms, error_code, results_by_transaction, results_by_topic_v3_and_below }, pos))
                        }
                    }
                }
            }
        }
    }

    /// The structure as it reads back in context `ctx`: each field that the
    /// version leaves out is at its default.
    #[verifier::opaque]
    pub open spec fn spec_read_as(m: AddPartitionsToTxnResponseModel, ctx: Ctx) -> AddPartitionsToTxnResponseModel {
        AddPartitionsToTxnResponseModel { throttle_time_ms: m.throttle_time_ms, error_code: if 4 <= ctx.version { m.error_code } else { 0i16 }, results_by_transaction: if 4 <= ctx.version { m.results_by_transaction } else { Seq::<<AddPartitionsToTxnResult as DeepView>::V>::empty() }, results_by_topic_v3_and_below: if 0 <= ctx.version && ctx.version <= 3 { m.results_by_topic_v3_and_below } else { Seq::<<AddPartitionsToTxnTopicResult as DeepView>::V>::empty() } }
    }

    /// Values that read back in context `ctx`: nested values read back. A field
    /// that the version leaves out is read as its default.
    pub open spec fn reads_back_body(m: AddPartitionsToTxnResponseModel, ctx: Ctx) -> bool {
        &&& (4 <= ctx.version) ==> forall|i: int| 0 <= i < m.results_by_transaction.len() ==> #[trigger] <AddPartitionsToTxnResult as KafkaCodec>::reads_back(m.results_by_transaction[i], Ctx { version: ctx.version, flexible: ctx.flexible, classic: false })
        &&& (0 <= ctx.version && ctx.version <= 3) ==> forall|i: int| 0 <= i < m.results_by_topic_v3_and_below.len() ==> #[trigger] <AddPartitionsToTxnTopicResult as KafkaCodec>::reads_back(m.results_by_topic_v3_and_below[i], Ctx { version: ctx.version, flexible: ctx.flexible, classic: false })
    }

    /// A value that can be written in context `ctx` and reads back: decoding its
    /// encoding, wherever it stands, gives the value as `spec_read_as` gives it and
    /// the position just after it.
    #[verifier::spinoff_prover]
    pub proof fn lemma_body_read_back(pre: Seq<u8>, m: AddPartitionsToTxnResponseModel, post: Seq<u8>, ctx: Ctx)
        requires
            Self::spec_encode_body(m, ctx) is Ok,
            Self::reads_back_body(m, ctx),
        ensures
            Self::spec_decode_body(pre + Self::spec_encode_body(m, ctx)->Ok_0 + post, pre.len() as int, ctx) == Ok::<(AddPartitionsToTxnResponseModel, int), SerializationError>((Self::spec_read_as(m, ctx), pre.len() as int + Self::spec_encode_body(m, ctx)->Ok_0.len())),
    {
        reveal(AddPartitionsToTxnResponse::spec_read_as);
        let b0 = i32_bytes(m.throttle_time_ms);
        let b1 = if 4 <= ctx.version { i16_bytes(m.error_code) } else { Seq::<u8>::empty() };
        let b2 = if 4 <= ctx.version { (array_bytes::<AddPartitionsToTxnResult>(m.results_by_transaction, Ctx { version: ctx.version, flexible: ctx.flexible, classic: false }))->Ok_0 } else { Seq::<u8>::empty() };
        let b3 = if 0 <= ctx.version && ctx.version <= 3 { (array_bytes::<AddPartitionsToTxnTopicResult>(m.results_by_topic_v3_and_below, Ctx { version: ctx.version, flexible: ctx.flexible, classic: false }))->Ok_0 } else { Seq::<u8>::empty() };
        let b4 = if ctx.flexible { uvarint_bytes(0) } else { Seq::<u8>::empty() };
        let t5 = post;
        let t4 = b4 + t5;
        let t3 = b3 + t4;
        let t2 = b2 + t3;
        let t1 = b1 + t2;
        let t0 = b0 + t1;
        let e = Self::spec_encode_body(m, ctx)->Ok_0;
        assert(e =~= Seq::<u8>::empty() + b0 + b1 + b2 + b3 + b4);
        lemma_seq_assoc(((((Seq::<u8>::empty() + b0) + b1) + b2) + b3), b4, post);
        lemma_seq_assoc((((Seq::<u8>::empty() + b0) + b1) + b2), b3, (b4 + post));
        lemma_seq_assoc(((Seq::<u8>::empty() + b0) + b1), b2, (b3 + (b4 + post)));
        lemma_seq_assoc((Seq::<u8>::empty() + b0), b1, (b2 + (b3 + (b4 + post))));
        lemma_seq_assoc(Seq::<u8>::empty(), b0, (b1 + (b2 + (b3 + (b4 + post)))));
        lemma_seq_empty_left((b0 + (b1 + (b2 + (b3 + (b4 + post))))));
        let s = pre + e + post;
        lemma_seq_assoc(pre, e, post);
        assert(s == pre + t0);
        let a0 = pre;
        assert(parse_i32(s, a0.len() as int) == Ok::<(i32, int), SerializationError>((m.throttle_time_ms, a0.len() as int + b0.len()))) by {
            lemma_seq_assoc(a0, b0, t1);
            lemma_i32_roundtrip(a0, m.throttle_time_ms, t1);
        }
        lemma_seq_assoc(a0, b0, t1);
        let a1 = a0 + b0;
        if 4 <= ctx.version {
            assert(parse_i16(s, a1.len() as int) == Ok::<(i16, int), SerializationError>((m.error_code, a1.len() as int + b1.len()))) by {
                lemma_seq_assoc(a1, b1, t2);
                lemma_i16_roundtrip(a1, m.error_code, t2);
            }
        }
        lemma_seq_assoc(a1, b1, t2);
        let a2 = a1 + b1;
        if 4 <= ctx.version {
            assert(parse_array::<AddPartitionsToTxnResult>(s, a2.len() as int, Ctx { version: ctx.version, flexible: ctx.flexible, classic: false }) == Ok::<(Seq<<AddPartitionsToTxnResult as DeepView>::V>, int), SerializationError>((m.results_by_transaction, a2.len() as int + b2.len()))) by {
                assert(array_bytes::<AddPartitionsToTxnResult>(m.results_by_transaction, Ctx { version: ctx.version, flexible: ctx.flexible, classic: false }) is Ok);
                lemma_seq_assoc(a2, b2, t3);
                lemma_items_read_back::<AddPartitionsToTxnResult>(m.results_by_transaction, Ctx { version: ctx.version, flexible: ctx.flexible, classic: false });
                lemma_array_roundtrip::<AddPartitionsToTxnResult>(a2, m.results_by_transaction, t3, Ctx { version: ctx.version, flexible: ctx.flexible, classic: false });
            }
        }
        lemma_seq_assoc(a2, b2, t3);
        let a3 = a2 + b2;
        if 0 <= ctx.version && ctx.version <= 3 {
            assert(parse_array::<AddPartitionsToTxnTopicResult>(s, a3.len() as int, Ctx { version: ctx.version, flexible: ctx.flexible, classic: false }) == Ok::<(Seq<<AddPartitionsToTxnTopicResult as DeepView>::V>, int), SerializationError>((m.results_by_topic_v3_and_below, a3.len() as int + b3.len()))) by {
                assert(array_bytes::<AddPartitionsToTxnTopicResult>(m.results_by_topic_v3_and_below, Ctx { version: ctx.version, flexible: ctx.flexible, classic: false }) is Ok);
                lemma_seq_assoc(a3, b3, t4);
                lemma_items_read_back::<AddPartitionsToTxnTopicResult>(m.results_by_topic_v3_and_below, Ctx { version: ctx.version, flexible: ctx.flexible, classic: false });
                lemma_array_roundtrip::<AddPartitionsToTxnTopicResult>(a3, m.results_by_topic_v3_and_below, t4, Ctx { version: ctx.version, flexible: ctx.flexible, classic: false });
            }
        }
        lemma_seq_assoc(a3, b3, t4);
        let a4 = a3 + b3;
        if ctx.flexible {
            assert(parse_uvarint(s, a4.len() as int) == Ok::<(u64, int), SerializationError>((0u64, a4.len() as int + b4.len()))) by {
                lemma_seq_assoc(a4, b4, t5);
                lemma_uvarint_roundtrip(a4, 0, t5);
            }
        }
    }

    /// The bytes written: the encoding of each field, in the order of the
    /// protocol's layout. Reading them back, wherever they stand, gives the value,
    /// with each field that the version leaves out at its default.
    #[verifier::spinoff_prover]
    pub proof fn lemma_body_layout(pre: Seq<u8>, m: AddPartitionsToTxnResponseModel, post: Seq<u8>, ctx: Ctx)
        requires
            Self::spec_encode_body(m, ctx) is Ok,
        ensures
            Self::spec_encode_body(m, ctx) == Ok::<Seq<u8>, SerializationError>((i32_bytes(m.throttle_time_ms)) + (if 4 <= ctx.version { i16_bytes(m.error_code) } else { Seq::<u8>::empty() }) + (if 4 <= ctx.version { (array_bytes::<AddPartitionsToTxnResult>(m.results_by_transaction, Ctx { version: ctx.version, flexible: ctx.flexible, classic: false }))->Ok_0 } else { Seq::<u8>::empty() }) + (if 0 <= ctx.version && ctx.version <= 3 { (array_bytes::<AddPartitionsToTxnTopicResult>(m.results_by_topic_v3_and_below, Ctx { version: ctx.version, flexible: ctx.flexible, classic: false }))->Ok_0 } else { Seq::<u8>::empty() }) + (if ctx.flexible { uvarint_bytes(0) } else { Seq::<u8>::empty() })),
            Self::reads_back_body(m, ctx) ==> Self::spec_decode_body(pre + ((i32_bytes(m.throttle_time_ms)) + (if 4 <= ctx.version { i16_bytes(m.error_code) } else { Seq::<u8>::empty() }) + (if 4 <= ctx.version { (array_bytes::<AddPartitionsToTxnResult>(m.results_by_transaction, Ctx { version: ctx.version, flexible: ctx.flexible, classic: false }))->Ok_0 } else { Seq::<u8>::empty() }) + (if 0 <= ctx.version && ctx.version <= 3 { (array_bytes::<AddPartitionsToTxnTopicResult>(m.results_by_topic_v3_and_below, Ctx { version: ctx.version, flexible: ctx.flexible, classic: false }))->Ok_0 } else { Seq::<u8>::empty() }) + (if ctx.flexible { uvarint_bytes(0) } else { Seq::<u8>::empty() })) + post, pre.len() as int, ctx) == Ok::<(AddPartitionsToTxnResponseModel, int), SerializationError>((AddPartitionsToTxnResponseModel { throttle_time_ms: m.throttle_time_ms, error_code: if 4 <= ctx.version { m.error_code } else { 0i16 }, results_by_transaction: if 4 <= ctx.version { m.results_by_transaction } else { Seq::<<AddPartitionsToTxnResult as DeepView>::V>::empty() }, results_by_topic_v3_and_below: if 0 <= ctx.version && ctx.version <= 3 { m.results_by_topic_v3_and_below } else { Seq::<<AddPartitionsToTxnTopicResult as DeepView>::V>::empty() } }, pre.len() as int + ((i32_bytes(m.throttle_time_ms)) + (if 4 <= ctx.version { i16_bytes(m.error_code) } else { Seq::<u8>::empty() }) + (if 4 <= ctx.version { (array_bytes::<AddPartitionsToTxnResult>(m.results_by_transaction, Ctx { version: ctx.version, flexible: ctx.flexible, classic: false }))->Ok_0 } else { Seq::<u8>::empty() }) + (if 0 <= ctx.version && ctx.version <= 3 { (array_bytes::<AddPartitionsToTxnTopicResult>(m.results_by_topic_v3_and_below, Ctx { version: ctx.version, flexible: ctx.flexible, classic: false }))->Ok_0 } else { Seq::<u8>::empty() }) + (if ctx.flexible { uvarint_bytes(0) } else { Seq::<u8>::empty() })).len())),
    {
        let b0 = i32_bytes(m.throttle_time_ms);
        let b1 = if 4 <= ctx.version { i16_bytes(m.error_code) } else { Seq::<u8>::empty() };
        let b2 = if 4 <= ctx.version { (array_bytes::<AddPartitionsToTxnResult>(m.results_by_transaction, Ctx { version: ctx.version, flexible: ctx.flexible, classic: false }))->Ok_0 } else { Seq::<u8>::empty() };
        let b3 = if 0 <= ctx.version && ctx.version <= 3 { (array_bytes::<AddPartitionsToTxnTopicResult>(m.results_by_topic_v3_and_below, Ctx { version: ctx.version, flexible: ctx.flexible, classic: false }))->Ok_0 } else { Seq::<u8>::empty() };
        let b4 = if ctx.flexible { uvarint_bytes(0) } else { Seq::<u8>::empty() };
        let e = Self::spec_encode_body(m, ctx)->Ok_0;
        assert(e =~= Seq::<u8>::empty() + b0 + b1 + b2 + b3 + b4);
        assert(e =~= b0 + b1 + b2 + b3 + b4);
        if Self::reads_back_body(m, ctx) {
            Self::lemma_body_read_back(pre, m, post, ctx);
            reveal(AddPartitionsToTxnResponse::spec_read_as);
        }
    }

    /// Writing succeeds exactly when every field that the version carries can be
    /// encoded and every field that it leaves out, where leaving it out is an
    /// error, holds its default.
    #[verifier::spinoff_prover]
    pub proof fn lemma_body_write_succeeds(m: AddPartitionsToTxnResponseModel, ctx: Ctx)
        ensures
            Self::spec_encode_body(m, ctx) is Ok <==> ((4 <= ctx.version) ==> array_bytes::<AddPartitionsToTxnResult>(m.results_by_transaction, Ctx { version: ctx.version, flexible: ctx.flexible, classic: false }) is Ok) && ((0 <= ctx.version && ctx.version <= 3) ==> array_bytes::<AddPartitionsToTxnTopicResult>(m.results_by_topic_v3_and_below, Ctx { version: ctx.version, flexible: ctx.flexible, classic: false }) is Ok),
    {
    }

    /// Writes the structure for `version`, with the compact encodings when `is_flexible`.
    /// On failure the buffer is left as it was.
    pub fn encode(&self, buf: &mut Vec<u8>, version: ApiVersion, is_flexible: bool) -> (r: Result<(), SerializationError>)
        ensures
            write_exact(r, old(buf)@, final(buf)@, Self::spec_encode_body(self.deep_view(), Ctx { version: version.0, flexible: is_flexible, classic: false })),
    {
        let start = buf.len();
        let r = self.encode_ctx(buf, Ctx::new(version, is_flexible));
        if r.is_err() {
            buf.truncate(start);
        }
        r
    }

    /// Reads the structure as written for `version`.
    /// On failure the reader is put back where it started.
    pub fn decode(buf: &mut Reader, version: ApiVersion, is_flexible: bool) -> (r: Result<Self, SerializationError>)
        ensures
            final(buf).bytes() == old(buf).bytes(),
            read_view_exact(r, Self::spec_decode_body(old(buf).bytes(), old(buf).pos(), Ctx { version: version.0, flexible: is_flexible, classic: false }), old(buf).pos(), final(buf).pos()),
    {
        let start = buf.position();
        let r = Self::decode_ctx(buf, Ctx::new(version, is_flexible));
        if r.is_err() {
            buf.set_position(start);
        }
        r
    }
}

impl KafkaCodec for AddPartitionsToTxnResponse {
    open spec fn spec_encode(m: AddPartitionsToTxnResponseModel, ctx: Ctx) -> Result<Seq<u8>, SerializationError> {
        Self::spec_encode_body(m, ctx)
    }

    open spec fn spec_decode(s: Seq<u8>, pos: int, ctx: Ctx) -> Result<(AddPartitionsToTxnResponseModel, int), SerializationError> {
        Self::spec_decode_body(s, pos, ctx)
    }

    open spec fn reads_back(v: AddPartitionsToTxnResponseModel, ctx: Ctx) -> bool {
        Self::reads_back_body(v, ctx) && Self::spec_read_as(v, ctx) == v
    }

    proof fn lemma_read_back(pre: Seq<u8>, v: AddPartitionsToTxnResponseModel, post: Seq<u8>, ctx: Ctx) {
        Self::lemma_body_read_back(pre, v, post, ctx);
        assert(Self::spec_decode(pre + Self::spec_encode(v, ctx)->Ok_0 + post, pre.len() as int, ctx)
            == Self::spec_decode_body(pre + Self::spec_encode_body(v, ctx)->Ok_0 + post, pre.len() as int, ctx));
    }

    fn encode_ctx(&self, buf: &mut Vec<u8>, ctx: Ctx) -> (r: Result<(), SerializationError>) {
        let ghost mut w: Seq<u8> = Seq::empty();
        put_i32(buf, self.throttle_time_ms);
        proof {
            w = w + i32_bytes(self.throttle_time_ms);
        }
        assert(buf@ =~= old(buf)@ + w);
        if 4 <= ctx.version {
            put_i16(buf, self.error_code);
            proof {
                w = w + i16_bytes(self.error_code);
            }
            assert(buf@ =~= old(buf)@ + w);
        }
        if 4 <= ctx.version {
            encode_array(&self.results_by_transaction, buf, Ctx { version: ctx.version, flexible: ctx.flexible, classic: false })?;
            proof {
                w = w + (array_bytes::<AddPartitionsToTxnResult>(self.results_by_transaction.deep_view(), Ctx { version: ctx.version, flexible: ctx.flexible, classic: false }))->Ok_0;
            }
            assert(buf@ =~= old(buf)@ + w);
        }
        if 0 <= ctx.version && ctx.version <= 3 {
            encode_array(&self.results_by_topic_v3_and_below, buf, Ctx { version: ctx.version, flexible: ctx.flexible, classic: false })?;
            proof {
                w = w + (array_bytes::<AddPartitionsToTxnTopicResult>(self.results_by_topic_v3_and_below.deep_view(), Ctx { version: ctx.version, flexible: ctx.flexible, classic: false }))->Ok_0;
            }
            assert(buf@ =~= old(buf)@ + w);
        }
        if ctx.flexible {
            encode_unsigned_varint(0, buf);
            proof {
                w = w + uvarint_bytes(0);
            }
            assert(buf@ =~= old(buf)@ + w);
        }
        Ok(())
    }

    fn decode_ctx(buf: &mut Reader, ctx: Ctx) -> (r: Result<Self, SerializationError>) {
        let throttle_time_ms = buf.get_i32()?;
        let error_code = if 4 <= ctx.version {
            buf.get_i16()?
        } else {
            0i16
        };
        let results_by_transaction = if 4 <= ctx.version {
            decode_array::<AddPartitionsToTxnResult>(buf, Ctx { version: ctx.version, flexible: ctx.flexible, classic: false })?
        } else {
            new_array::<AddPartitionsToTxnResult>()
        };
        let results_by_topic_v3_and_below = if 0 <= ctx.version && ctx.version <= 3 {
            decode_array::<AddPartitionsToTxnTopicResult>(buf, Ctx { version: ctx.version, flexible: ctx.flexible, classic: false })?
        } else {
            new_array::<AddPartitionsToTxnTopicResult>()
        };
        if ctx.flexible {
            let (_tag_count, _) = decode_unsigned_varint(buf)?;
        }
        Ok(AddPartitionsToTxnResponse { throttle_time_ms, error_code, results_by_transaction, results_by_topic_v3_and_below })
    }
}

impl AddPartitionsToTxnResponse {
    /// The API key of this message.
    pub fn get_api_key() -> (r: ApiKey)
        ensures
            r.0 == 24,
    {
        ApiKey::new(24)
    }

    /// The oldest version of this message.
    pub fn get_min_supported_version() -> (r: ApiVersion)
        ensures
            r.0 == 0,
    {
        ApiVersion::new(0)
    }

    /// The newest version of this message.
    pub fn get_max_supported_version() -> (r: ApiVersion)
        ensures
            r.0 == 5,
    {
        ApiVersion::new(5)
    }

    /// The first version of this message with the compact encodings.
    pub fn get_min_flexible_version() -> (r: ApiVersion)
        ensures
            r.0 == 3,
    {
        ApiVersion::new(3)
    }

    /// The encoding of a whole message body at `version`.
    pub open spec fn spec_serialize(m: AddPartitionsToTxnResponseModel, version: i16) -> Result<Seq<u8>, SerializationError> {
        let is_flexible = version >= 3;
        let ctx = Ctx { version, flexible: is_flexible, classic: false };
        let r = Ok(Seq::<u8>::empty());
        let r = then(r, Ok(i32_bytes(m.throttle_time_ms)));
        let r = if 4 <= ctx.version { then(r, Ok(i16_bytes(m.error_code))) } else if m.error_code != 0 { then(r, Err(SerializationError::Encode("field 'ErrorCode' is not available in this version"))) } else { r };
        let r = if 4 <= ctx.version { then(r, array_bytes::<AddPartitionsToTxnResult>(m.results_by_transaction, Ctx { version: ctx.version, flexible: ctx.flexible, classic: false })) } else if m.results_by_transaction.len() != 0 { then(r, Err(SerializationError::Encode("field 'ResultsByTransaction' is not available in this version"))) } else { r };
        let r = if 0 <= ctx.version && ctx.version <= 3 { then(r, array_bytes::<AddPartitionsToTxnTopicResult>(m.results_by_topic_v3_and_below, Ctx { version: ctx.version, flexible: ctx.flexible, classic: false })) } else if m.results_by_topic_v3_and_below.len() != 0 { then(r, Err(SerializationError::Encode("field 'ResultsByTopicV3AndBelow' is not available in this version"))) } else { r };
        let r = if ctx.flexible { then(r, Ok(uvarint_bytes(0))) } else { r };
        r
    }

    /// The message body read at `version`.
    pub open spec fn spec_deserialize(s: Seq<u8>, pos: int, version: i16) -> Result<(AddPartitionsToTxnResponseModel, int), SerializationError> {
        let is_flexible = version >= 3;
        let ctx = Ctx { version, flexible: is_flexible, classic: false };
        match parse_i32(s, pos) {
            Err(e) => Err(e),
            Ok((throttle_time_ms, pos)) =>
            match (if 4 <= ctx.version { parse_i16(s, pos) } else { Ok((0i16, pos)) }) {
                Err(e) => Err(e),
                Ok((error_code, pos)) =>
                match (if 4 <= ctx.version { parse_array::<AddPartitionsToTxnResult>(s, pos, Ctx { version: ctx.version, flexible: ctx.flexible, classic: false }) } else { Ok((Seq::<<AddPartitionsToTxnResult as DeepView>::V>::empty(), pos)) }) {
                    Err(e) => Err(e),
                    Ok((results_by_transaction, pos)) =>
                    match (if 0 <= ctx.version && ctx.version <= 3 { parse_array::<AddPartitionsToTxnTopicResult>(s, pos, Ctx { version: ctx.version, flexible: ctx.flexible, classic: false }) } else { Ok((Seq::<<AddPartitionsToTxnTopicResult as DeepView>::V>::empty(), pos)) }) {
                        Err(e) => Err(e),
                        Ok((results_by_topic_v3_and_below, pos)) =>
                        Ok((AddPartitionsToTxnResponseModel { throttle_time_ms, error_code, results_by_transaction, results_by_topic_v3_and_below }, pos))
                    }
                }
            }
        }
    }

    /// Message bodies that read back when written at `version`: nested values read
    /// back. A field that the version leaves out is read as its default.
    pub open spec fn reads_back_message(m: AddPartitionsToTxnResponseModel, version: i16) -> bool {
        let is_flexible = version >= 3;
        let ctx = Ctx { version, flexible: is_flexible, classic: false };
        &&& (4 <= ctx.version) ==> forall|i: int| 0 <= i < m.results_by_transaction.len() ==> #[trigger] <AddPartitionsToTxnResult as KafkaCodec>::reads_back(m.results_by_transaction[i], Ctx { version: ctx.version, flexible: ctx.flexible, classic: false })
        &&& (0 <= ctx.version && ctx.version <= 3) ==> forall|i: int| 0 <= i < m.results_by_topic_v3_and_below.len() ==> #[trigger] <AddPartitionsToTxnTopicResult as KafkaCodec>::reads_back(m.results_by_topic_v3_and_below[i], Ctx { version: ctx.version, flexible: ctx.flexible, classic: false })
    }

    /// A message body that can be written at `version` and reads back: reading a
    /// body at `version` from its bytes, wherever they stand, gives the same message,
    /// with each field that the version leaves out at its default.
    #[verifier::spinoff_prover]
    pub proof fn lemma_message_read_back(pre: Seq<u8>, m: AddPartitionsToTxnResponseModel, post: Seq<u8>, version: i16)
        requires
            Self::spec_serialize(m, version) is Ok,
            Self::reads_back_message(m, version),
        ensures
            Self::spec_deserialize(pre + Self::spec_serialize(m, version)->Ok_0 + post, pre.len() as int, version) == Ok::<(AddPartitionsToTxnResponseModel, int), SerializationError>((AddPartitionsToTxnResponseModel { throttle_time_ms: m.throttle_time_ms, error_code: if 4 <= version { m.error_code } else { 0i16 }, results_by_transaction: if 4 <= version { m.results_by_transaction } else { Seq::<<AddPartitionsToTxnResult as DeepView>::V>::empty() }, results_by_topic_v3_and_below: if 0 <= version && version <= 3 { m.results_by_topic_v3_and_below } else { Seq::<<AddPartitionsToTxnTopicResult as DeepView>::V>::empty() } }, pre.len() as int + Self::spec_serialize(m, version)->Ok_0.len() - (if version >= 3 { 1int } else { 0int }))),
    {
        let is_flexible = version >= 3;
        let ctx = Ctx { version, flexible: is_flexible, classic: false };
        let b0 = i32_bytes(m.throttle_time_ms);
        let b1 = if 4 <= ctx.version { i16_bytes(m.error_code) } else { Seq::<u8>::empty() };
        let b2 = if 4 <= ctx.version { (array_bytes::<AddPartitionsToTxnResult>(m.results_by_transaction, Ctx { version: ctx.version, flexible: ctx.flexible, classic: false }))->Ok_0 } else { Seq::<u8>::empty() };
        let b3 = if 0 <= ctx.version && ctx.version <= 3 { (array_bytes::<AddPartitionsToTxnTopicResult>(m.results_by_topic_v3_and_below, Ctx { version: ctx.version, flexible: ctx.flexible, classic: false }))->Ok_0 } else { Seq::<u8>::empty() };
        let b4 = if ctx.flexible { uvarint_bytes(0) } else { Seq::<u8>::empty() };
        let t5 = post;
        let t4 = b4 + t5;
        let t3 = b3 + t4;
        let t2 = b2 + t3;
        let t1 = b1 + t2;
        let t0 = b0 + t1;
        let e = Self::spec_serialize(m, version)->Ok_0;
        assert(e =~= Seq::<u8>::empty() + b0 + b1 + b2 + b3 + b4);
        lemma_seq_assoc(((((Seq::<u8>::empty() + b0) + b1) + b2) + b3), b4, post);
        lemma_seq_assoc((((Seq::<u8>::empty() + b0) + b1) + b2), b3, (b4 + post));
        lemma_seq_assoc(((Seq::<u8>::empty() + b0) + b1), b2, (b3 + (b4 + post)));
        lemma_seq_assoc((Seq::<u8>::empty() + b0), b1, (b2 + (b3 + (b4 + post))));
        lemma_seq_assoc(Seq::<u8>::empty(), b0, (b1 + (b2 + (b3 + (b4 + post)))));
        lemma_seq_empty_left((b0 + (b1 + (b2 + (b3 + (b4 + post))))));
        let s = pre + e + post;
        lemma_seq_assoc(pre, e, post);
        assert(s == pre + t0);
        let a0 = pre;
        assert(parse_i32(s, a0.len() as int) == Ok::<(i32, int), SerializationError>((m.throttle_time_ms, a0.len() as int + b0.len()))) by {
            lemma_seq_assoc(a0, b0, t1);
            lemma_i32_roundtrip(a0, m.throttle_time_ms, t1);
        }
        lemma_seq_assoc(a0, b0, t1);
        let a1 = a0 + b0;
        if 4 <= ctx.version {
            assert(parse_i16(s, a1.len() as int) == Ok::<(i16, int), SerializationError>((m.error_code, a1.len() as int + b1.len()))) by {
                lemma_seq_assoc(a1, b1, t2);
                lemma_i16_roundtrip(a1, m.error_code, t2);
            }
        }
        lemma_seq_assoc(a1, b1, t2);
        let a2 = a1 + b1;
        if 4 <= ctx.version {
            assert(parse_array::<AddPartitionsToTxnResult>(s, a2.len() as int, Ctx { version: ctx.version, flexible: ctx.flexible, classic: false }) == Ok::<(Seq<<AddPartitionsToTxnResult as DeepView>::V>, int), SerializationError>((m.results_by_transaction, a2.len() as int + b2.len()))) by {
                assert(array_bytes::<AddPartitionsToTxnResult>(m.results_by_transaction, Ctx { version: ctx.version, flexible: ctx.flexible, classic: false }) is Ok);
                lemma_seq_assoc(a2, b2, t3);
                lemma_items_read_back::<AddPartitionsToTxnResult>(m.results_by_transaction, Ctx { version: ctx.version, flexible: ctx.flexible, classic: false });
                lemma_array_roundtrip::<AddPartitionsToTxnResult>(a2, m.results_by_transaction, t3, Ctx { version: ctx.version, flexible: ctx.flexible, classic: false });
            }
        }
        lemma_seq_assoc(a2, b2, t3);
        let a3 = a2 + b2;
        if 0 <= ctx.version && ctx.version <= 3 {
            assert(parse_array::<AddPartitionsToTxnTopicResult>(s, a3.len() as int, Ctx { version: ctx.version, flexible: ctx.flexible, classic: false }) == Ok::<(Seq<<AddPartitionsToTxnTopicResult as DeepView>::V>, int), SerializationError>((m.results_by_topic_v3_and_below, a3.len() as int + b3.len()))) by {
                assert(array_bytes::<AddPartitionsToTxnTopicResult>(m.results_by_topic_v3_and_below, Ctx { version: ctx.version, flexible: ctx.flexible, classic: false }) is Ok);
                lemma_seq_assoc(a3, b3, t4);
                lemma_items_read_back::<AddPartitionsToTxnTopicResult>(m.results_by_topic_v3_and_below, Ctx { version: ctx.version, flexible: ctx.flexible, classic: false });
                lemma_array_roundtrip::<AddPartitionsToTxnTopicResult>(a3, m.results_by_topic_v3_and_below, t4, Ctx { version: ctx.version, flexible: ctx.flexible, classic: false });
            }
        }
        lemma_seq_assoc(a3, b3, t4);
        let a4 = a3 + b3;
    }

    /// The bytes written: the encoding of each field, in the order of the
    /// protocol's layout. Reading them back, wherever they stand, gives the value,
    /// with each field that the version leaves out at its default.
    #[verifier::spinoff_prover]
    pub proof fn lemma_message_layout(pre: Seq<u8>, m: AddPartitionsToTxnResponseModel, post: Seq<u8>, version: i16)
        requires
            Self::spec_serialize(m, version) is Ok,
        ensures
            Self::spec_serialize(m, version) == Ok::<Seq<u8>, SerializationError>((i32_bytes(m.throttle_time_ms)) + (if 4 <= version { i16_bytes(m.error_code) } else { Seq::<u8>::empty() }) + (if 4 <= version { (array_bytes::<AddPartitionsToTxnResult>(m.results_by_transaction, Ctx { version: version, flexible: (version >= 3), classic: false }))->Ok_0 } else { Seq::<u8>::empty() }) + (if 0 <= version && version <= 3 { (array_bytes::<AddPartitionsToTxnTopicResult>(m.results_by_topic_v3_and_below, Ctx { version: version, flexible: (version >= 3), classic: false }))->Ok_0 } else { Seq::<u8>::empty() }) + (if (version >= 3) { uvarint_bytes(0) } else { Seq::<u8>::empty() })),
            Self::reads_back_message(m, version) ==> Self::spec_deserialize(pre + ((i32_bytes(m.throttle_time_ms)) + (if 4 <= version { i16_bytes(m.error_code) } else { Seq::<u8>::empty() }) + (if 4 <= version { (array_bytes::<AddPartitionsToTxnResult>(m.results_by_transaction, Ctx { version: version, flexible: (version >= 3), classic: false }))->Ok_0 } else { Seq::<u8>::empty() }) + (if 0 <= version && version <= 3 { (array_bytes::<AddPartitionsToTxnTopicResult>(m.results_by_topic_v3_and_below, Ctx { version: version, flexible: (version >= 3), classic: false }))->Ok_0 } else { Seq::<u8>::empty() }) + (if (version >= 3) { uvarint_bytes(0) } else { Seq::<u8>::empty() })) + post, pre.len() as int, version) == Ok::<(AddPartitionsToTxnResponseModel, int), SerializationError>((AddPartitionsToTxnResponseModel { throttle_time_ms: m.throttle_time_ms, error_code: if 4 <= version { m.error_code } else { 0i16 }, results_by_transaction: if 4 <= version { m.results_by_transaction } else { Seq::<<AddPartitionsToTxnResult as DeepView>::V>::empty() }, results_by_topic_v3_and_below: if 0 <= version && version <= 3 { m.results_by_topic_v3_and_below } else { Seq::<<AddPartitionsToTxnTopicResult as DeepView>::V>::empty() } }, pre.len() as int + ((i32_bytes(m.throttle_time_ms)) + (if 4 <= version { i16_bytes(m.error_code) } else { Seq::<u8>::empty() }) + (if 4 <= version { (array_bytes::<AddPartitionsToTxnResult>(m.results_by_transaction, Ctx { version: version, flexible: (version >= 3), classic: false }))->Ok_0 } else { Seq::<u8>::empty() }) + (if 0 <= version && version <= 3 { (array_bytes::<AddPartitionsToTxnTopicResult>(m.results_by_topic_v3_and_below, Ctx { version: version, flexible: (version >= 3), classic: false }))->Ok_0 } else { Seq::<u8>::empty() }) + (if (version >= 3) { uvarint_bytes(0) } else { Seq::<u8>::empty() })).len() - (if version >= 3 { 1int } else { 0int }))),
    {
        let is_flexible = version >= 3;
        let ctx = Ctx { version, flexible: is_flexible, classic: false };
        let b0 = i32_bytes(m.throttle_time_ms);
        let b1 = if 4 <= ctx.version { i16_bytes(m.error_code) } else { Seq::<u8>::empty() };
        let b2 = if 4 <= ctx.version { (array_bytes::<AddPartitionsToTxnResult>(m.results_by_transaction, Ctx { version: ctx.version, flexible: ctx.flexible, classic: false }))->Ok_0 } else { Seq::<u8>::empty() };
        let b3 = if 0 <= ctx.version && ctx.version <= 3 { (array_bytes::<AddPartitionsToTxnTopicResult>(m.results_by_topic_v3_and_below, Ctx { version: ctx.version, flexible: ctx.flexible, classic: false }))->Ok_0 } else { Seq::<u8>::empty() };
        let b4 = if ctx.flexible { uvarint_bytes(0) } else { Seq::<u8>::empty() };
        let e = Self::spec_serialize(m, version)->Ok_0;
        assert(e =~= Seq::<u8>::empty() + b0 + b1 + b2 + b3 + b4);
        assert(e =~= b0 + b1 + b2 + b3 + b4);
        if Self::reads_back_message(m, version) {
            Self::lemma_message_read_back(pre, m, post, version);
        }
    }

    /// Writing succeeds exactly when every field that the version carries can be
    /// encoded and every field that it leaves out, where leaving it out is an
    /// error, holds its default.
    #[verifier::spinoff_prover]
    pub proof fn lemma_message_write_succeeds(m: AddPartitionsToTxnResponseModel, version: i16)
        ensures
            Self::spec_serialize(m, version) is Ok <==> (!(4 <= version) ==> !(m.error_code != 0)) && ((4 <= version) ==> array_bytes::<AddPartitionsToTxnResult>(m.results_by_transaction, Ctx { version: version, flexible: (version >= 3), classic: false }) is Ok) && (!(4 <= version) ==> !(m.results_by_transaction.len() != 0)) && ((0 <= version && version <= 3) ==> array_bytes::<AddPartitionsToTxnTopicResult>(m.results_by_topic_v3_and_below, Ctx { version: version, flexible: (version >= 3), classic: false }) is Ok) && (!(0 <= version && version <= 3) ==> !(m.results_by_topic_v3_and_below.len() != 0)),
    {
        let is_flexible = version >= 3;
        let ctx = Ctx { version, flexible: is_flexible, classic: false };
    }

    /// Writes the message body for `version`, which must be a supported version.
    /// On failure the buffer is left as it was.
    pub fn serialize(&self, version: ApiVersion, buf: &mut Vec<u8>) -> (r: Result<(), SerializationError>)
        requires
            0 <= version.0 <= 5,
        ensures
            write_exact(r, old(buf)@, final(buf)@, Self::spec_serialize(self.deep_view(), version.0)),
    {
        let start = buf.len();
        let r = self.write_body(version, buf);
        if r.is_err() {
            buf.truncate(start);
        }
        r
    }

    fn write_body(&self, version: ApiVersion, buf: &mut Vec<u8>) -> (r: Result<(), SerializationError>)
        requires
            0 <= version.0 <= 5,
        ensures
            write_ok(r, old(buf)@, final(buf)@, Self::spec_serialize(self.deep_view(), version.0)),
    {
        let is_flexible = version.0 >= Self::get_min_flexible_version().0;
        let ctx = Ctx::new(version, is_flexible);
        let ghost mut w: Seq<u8> = Seq::empty();
        put_i32(buf, self.throttle_time_ms);
        proof {
            w = w + i32_bytes(self.throttle_time_ms);
        }
        assert(buf@ =~= old(buf)@ + w);
        if 4 <= ctx.version {
            put_i16(buf, self.error_code);
            proof {
                w = w + i16_bytes(self.error_code);
            }
            assert(buf@ =~= old(buf)@ + w);
        } else if self.error_code != 0 {
            return Err(SerializationError::Encode("field 'ErrorCode' is not available in this version"));
        }
        if 4 <= ctx.version {
            encode_array(&self.results_by_transaction, buf, Ctx { version: ctx.version, flexible: ctx.flexible, classic: false })?;
            proof {
                w = w + (array_bytes::<AddPartitionsToTxnResult>(self.results_by_transaction.deep_view(), Ctx { version: ctx.version, flexible: ctx.flexible, classic: false }))->Ok_0;
            }
            assert(buf@ =~= old(buf)@ + w);
        } else if self.results_by_transaction.len() != 0 {
            return Err(SerializationError::Encode("field 'ResultsByTransaction' is not available in this version"));
        }
        if 0 <= ctx.version && ctx.version <= 3 {
            encode_array(&self.results_by_topic_v3_and_below, buf, Ctx { version: ctx.version, flexible: ctx.flexible, classic: false })?;
            proof {
                w = w + (array_bytes::<AddPartitionsToTxnTopicResult>(self.results_by_topic_v3_and_below.deep_view(), Ctx { version: ctx.version, flexible: ctx.flexible, classic: false }))->Ok_0;
            }
            assert(buf@ =~= old(buf)@ + w);
        } else if self.results_by_topic_v3_and_below.len() != 0 {
            return Err(SerializationError::Encode("field 'ResultsByTopicV3AndBelow' is not available in this version"));
        }
        if ctx.flexible {
            encode_unsigned_varint(0, buf);
            proof {
                w = w + uvarint_bytes(0);
            }
            assert(buf@ =~= old(buf)@ + w);
        }
        Ok(())
    }

    /// Reads a message body written for `version`.
    /// On failure the reader is put back where it started.
    pub fn deserialize(version: ApiVersion, buf: &mut Reader) -> (r: Result<Self, SerializationError>)
        ensures
            final(buf).bytes() == old(buf).bytes(),
            read_view_exact(r, Self::spec_deserialize(old(buf).bytes(), old(buf).pos(), version.0), old(buf).pos(), final(buf).pos()),
    {
        let start = buf.position();
        let r = Self::read_body(version, buf);
        if r.is_err() {
            buf.set_position(start);
        }
        r
    }

    fn read_body(version: ApiVersion, buf: &mut Reader) -> (r: Result<Self, SerializationError>)
        ensures
            final(buf).bytes() == old(buf).bytes(),
            read_view_ok(r, Self::spec_deserialize(old(buf).bytes(), old(buf).pos(), version.0), final(buf).pos()),
    {
        let is_flexible = version.0 >= Self::get_min_flexible_version().0;
        let ctx = Ctx::new(version, is_flexible);
        let throttle_time_ms = buf.get_i32()?;
        let error_code = if 4 <= ctx.version {
            buf.get_i16()?
        } else {
            0i16
        };
        let results_by_transaction = if 4 <= ctx.version {
            decode_array::<AddPartitionsToTxnResult>(buf, Ctx { version: ctx.version, flexible: ctx.flexible, classic: false })?
        } else {
            new_array::<AddPartitionsToTxnResult>()
        };
        let results_by_topic_v3_and_below = if 0 <= ctx.version && ctx.version <= 3 {
            decode_array::<AddPartitionsToTxnTopicResult>(buf, Ctx { version: ctx.version, flexible: ctx.flexible, classic: false })?
        } else {
            new_array::<AddPartitionsToTxnTopicResult>()
        };
        Ok(AddPartitionsToTxnResponse { throttle_time_ms, error_code, results_by_transaction, results_by_topic_v3_and_below })
    }
}

// -------------------------------------------------------
// AddPartitionsToTxnPartitionResult
// -------------------------------------------------------
#[derive(Clone, Debug, Default, PartialEq)]
pub struct AddPartitionsToTxnPartitionResult {
    /// The partition indexes.
    pub partition_index: i32,
    /// The response error code.
    pub partition_error_code: i16,
}

/// The contents of `AddPartitionsToTxnPartitionResult`, with strings as characters and
/// nested values by their contents.
pub struct AddPartitionsToTxnPartitionResultModel {
    pub partition_index: i32,
    pub partition_error_code: i16,
}

impl DeepView for AddPartitionsToTxnPartitionResult {
    type V = AddPartitionsToTxnPartitionResultModel;

    open spec fn deep_view(&self) -> AddPartitionsToTxnPartitionResultModel {
        AddPartitionsToTxnPartitionResultModel {
            partition_index: self.partition_index,
            partition_error_code: self.partition_error_code,
        }
    }
}

impl AddPartitionsToTxnPartitionResult {
    /// The encoding of the structure in context `ctx`.
    pub open spec fn spec_encode_body(m: AddPartitionsToTxnPartitionResultModel, ctx: Ctx) -> Result<Seq<u8>, SerializationError> {
        let r = Ok(Seq::<u8>::empty());
        let r = then(r, Ok(i32_bytes(m.partition_index)));
        let r = then(r, Ok(i16_bytes(m.partition_error_code)));
        let r = if ctx.flexible { then(r, Ok(uvarint_bytes(0))) } else { r };
        r
    }

    /// The structure read from `s` at `pos` in context `ctx`.
    pub open spec fn spec_decode_body(s: Seq<u8>, pos: int, ctx: Ctx) -> Result<(AddPartitionsToTxnPartitionResultModel, int), SerializationError> {
        match parse_i32(s, pos) {
            Err(e) => Err(e),
            Ok((partition_index, pos)) =>
            match parse_i16(s, pos) {
                Err(e) => Err(e),
                Ok((partition_error_code, pos)) =>
                match (if ctx.flexible { parse_uvarint(s, pos) } else { Ok((0u64, pos)) }) {
                    Err(e) => Err(e),
                    Ok((_tag_count, pos)) =>
                    Ok((AddPartitionsToTxnPartitionResultModel { partition_index, partition_error_code }, pos))
                }
            }
        }
    }

    /// Values of the structure that read back from their encoding in `ctx`: every
    /// field that the version leaves out holds its default, and nested values
    /// read back.
    pub open spec fn reads_back_body(m: AddPartitionsToTxnPartitionResultModel, ctx: Ctx) -> bool {
        true
    }

    /// A value that can be written in `ctx` and reads back: decoding its encoding,
    /// wherever it stands, gives the value and the position just after it.
    #[verifier::spinoff_prover]
    pub proof fn lemma_body_read_back(pre: Seq<u8>, m: AddPartitionsToTxnPartitionResultModel, post: Seq<u8>, ctx: Ctx)
        requires
            Self::spec_encode_body(m, ctx) is Ok,
            Self::reads_back_body(m, ctx),
        ensures
            Self::spec_decode_body(pre + Self::spec_encode_body(m, ctx)->Ok_0 + post, pre.len() as int, ctx) == Ok::<(AddPartitionsToTxnPartitionResultModel, int), SerializationError>((m, pre.len() as int + Self::spec_encode_body(m, ctx)->Ok_0.len())),
    {
        let b0 = i32_bytes(m.partition_index);
        let b1 = i16_bytes(m.partition_error_code);
        let b2 = if ctx.flexible { uvarint_bytes(0) } else { Seq::<u8>::empty() };
        let t3 = post;
        let t2 = b2 + t3;
        let t1 = b1 + t2;
        let t0 = b0 + t1;
        let e = Self::spec_encode_body(m, ctx)->Ok_0;
        assert(e =~= Seq::<u8>::empty() + b0 + b1 + b2);
        lemma_seq_assoc(((Seq::<u8>::empty() + b0) + b1), b2, post);
        lemma_seq_assoc((Seq::<u8>::empty() + b0), b1, (b2 + post));
        lemma_seq_assoc(Seq::<u8>::empty(), b0, (b1 + (b2 + post)));
        lemma_seq_empty_left((b0 + (b1 + (b2 + post))));
        let s = pre + e + post;
        lemma_seq_assoc(pre, e, post);
        assert(s == pre + t0);
        let a0 = pre;
        assert(parse_i32(s, a0.len() as int) == Ok::<(i32, int), SerializationError>((m.partition_index, a0.len() as int + b0.len()))) by {
            lemma_seq_assoc(a0, b0, t1);
            lemma_i32_roundtrip(a0, m.partition_index, t1);
        }
        lemma_seq_assoc(a0, b0, t1);
        let a1 = a0 + b0;
        assert(parse_i16(s, a1.len() as int) == Ok::<(i16, int), SerializationError>((m.partition_error_code, a1.len() as int + b1.len()))) by {
            lemma_seq_assoc(a1, b1, t2);
            lemma_i16_roundtrip(a1, m.partition_error_code, t2);
        }
        lemma_seq_assoc(a1, b1, t2);
        let a2 = a1 + b1;
        if ctx.flexible {
            assert(parse_uvarint(s, a2.len() as int) == Ok::<(u64, int), SerializationError>((0u64, a2.len() as int + b2.len()))) by {
                lemma_seq_assoc(a2, b2, t3);
                lemma_uvarint_roundtrip(a2, 0, t3);
            }
        }
    }

    /// The bytes written: the encoding of each field, in the order of the
    /// protocol's layout. Reading them back, wherever they stand, gives the value,
    /// with each field that the version leaves out at its default.
    #[verifier::spinoff_prover]
    pub proof fn lemma_body_layout(pre: Seq<u8>, m: AddPartitionsToTxnPartitionResultModel, post: Seq<u8>, ctx: Ctx)
        requires
            Self::spec_encode_body(m, ctx) is Ok,
        ensures
            Self::spec_encode_body(m, ctx) == Ok::<Seq<u8>, SerializationError>((i32_bytes(m.partition_index)) + (i16_bytes(m.partition_error_code)) + (if ctx.flexible { uvarint_bytes(0) } else { Seq::<u8>::empty() })),
            Self::reads_back_body(m, ctx) ==> Self::spec_decode_body(pre + ((i32_bytes(m.partition_index)) + (i16_bytes(m.partition_error_code)) + (if ctx.flexible { uvarint_bytes(0) } else { Seq::<u8>::empty() })) + post, pre.len() as int, ctx) == Ok::<(AddPartitionsToTxnPartitionResultModel, int), SerializationError>((m, pre.len() as int + ((i32_bytes(m.partition_index)) + (i16_bytes(m.partition_error_code)) + (if ctx.flexible { uvarint_bytes(0) } else { Seq::<u8>::empty() })).len())),
    {
        let b0 = i32_bytes(m.partition_index);
        let b1 = i16_bytes(m.partition_error_code);
        let b2 = if ctx.flexible { uvarint_bytes(0) } else { Seq::<u8>::empty() };
        let e = Self::spec_encode_body(m, ctx)->Ok_0;
        assert(e =~= Seq::<u8>::empty() + b0 + b1 + b2);
        assert(e =~= b0 + b1 + b2);
        if Self::reads_back_body(m, ctx) {
            Self::lemma_body_read_back(pre, m, post, ctx);
        }
    }

    /// Writing succeeds exactly when every field that the version carries can be
    /// encoded and every field that it leaves out, where leaving it out is an
    /// error, holds its default.
    #[verifier::spinoff_prover]
    pub proof fn lemma_body_write_succeeds(m: AddPartitionsToTxnPartitionResultModel, ctx: Ctx)
        ensures
            Self::spec_encode_body(m, ctx) is Ok <==> true,
    {
    }

    /// Writes the structure for `version`, with the compact encodings when `is_flexible`.
    /// On failure the buffer is left as it was.
    pub fn encode(&self, buf: &mut Vec<u8>, version: ApiVersion, is_flexible: bool) -> (r: Result<(), SerializationError>)
        ensures
            write_exact(r, old(buf)@, final(buf)@, Self::spec_encode_body(self.deep_view(), Ctx { version: version.0, flexible: is_flexible, classic: false })),
    {
        let start = buf.len();
        let r = self.encode_ctx(buf, Ctx::new(version, is_flexible));
        if r.is_err() {
            buf.truncate(start);
        }
        r
    }

    /// Reads the structure as written for `version`.
    /// On failure the reader is put back where it started.
    pub fn decode(buf: &mut Reader, version: ApiVersion, is_flexible: bool) -> (r: Result<Self, SerializationError>)
        ensures
            final(buf).bytes() == old(buf).bytes(),
            read_view_exact(r, Self::spec_decode_body(old(buf).bytes(), old(buf).pos(), Ctx { version: version.0, flexible: is_flexible, classic: false }), old(buf).pos(), final(buf).pos()),
    {
        let start = buf.position();
        let r = Self::decode_ctx(buf, Ctx::new(version, is_flexible));
        if r.is_err() {
            buf.set_position(start);
        }
        r
    }
}

impl KafkaCodec for AddPartitionsToTxnPartitionResult {
    open spec fn spec_encode(m: AddPartitionsToTxnPartitionResultModel, ctx: Ctx) -> Result<Seq<u8>, SerializationError> {
        Self::spec_encode_body(m, ctx)
    }

    open spec fn spec_decode(s: Seq<u8>, pos: int, ctx: Ctx) -> Result<(AddPartitionsToTxnPartitionResultModel, int), SerializationError> {
        Self::spec_decode_body(s, pos, ctx)
    }

    open spec fn reads_back(v: AddPartitionsToTxnPartitionResultModel, ctx: Ctx) -> bool {
        Self::reads_back_body(v, ctx)
    }

    proof fn lemma_read_back(pre: Seq<u8>, v: AddPartitionsToTxnPartitionResultModel, post: Seq<u8>, ctx: Ctx) {
        Self::lemma_body_read_back(pre, v, post, ctx);
        assert(Self::spec_decode(pre + Self::spec_encode(v, ctx)->Ok_0 + post, pre.len() as int, ctx)
            == Self::spec_decode_body(pre + Self::spec_encode_body(v, ctx)->Ok_0 + post, pre.len() as int, ctx));
    }

    fn encode_ctx(&self, buf: &mut Vec<u8>, ctx: Ctx) -> (r: Result<(), SerializationError>) {
        let ghost mut w: Seq<u8> = Seq::empty();
        put_i32(buf, self.partition_index);
        proof {
            w = w + i32_bytes(self.partition_index);
        }
        assert(buf@ =~= old(buf)@ + w);
        put_i16(buf, self.partition_error_code);
        proof {
            w = w + i16_bytes(self.partition_error_code);
        }
        assert(buf@ =~= old(buf)@ + w);
        if ctx.flexible {
            encode_unsigned_varint(0, buf);
            proof {
                w = w + uvarint_bytes(0);
            }
            assert(buf@ =~= old(buf)@ + w);
        }
        Ok(())
    }

    fn decode_ctx(buf: &mut Reader, ctx: Ctx) -> (r: Result<Self, SerializationError>) {
        let partition_index = buf.get_i32()?;
        let partition_error_code = buf.get_i16()?;
        if ctx.flexible {
            let (_tag_count, _) = decode_unsigned_varint(buf)?;
        }
        Ok(AddPartitionsToTxnPartitionResult { partition_index, partition_error_code })
    }
}

// -------------------------------------------------------
// AddPartitionsToTxnResult
// -------------------------------------------------------
#[derive(Clone, Debug, Default, PartialEq)]
pub struct AddPartitionsToTxnResult {
    /// The transactional id corresponding to the transaction.
    /// Available in version 4+.
    pub transactional_id: String,
    /// The results for each topic.
    /// Available in version 4+.
    pub topic_results: Vec<AddPartitionsToTxnTopicResult>,
}

/// The contents of `AddPartitionsToTxnResult`, with strings as characters and
/// nested values by their contents.
pub struct AddPartitionsToTxnResultModel {
    pub transactional_id: Seq<char>,
    pub topic_results: Seq<<AddPartitionsToTxnTopicResult as DeepView>::V>,
}

impl DeepView for AddPartitionsToTxnResult {
    type V = AddPartitionsToTxnResultModel;

    open spec fn deep_view(&self) -> AddPartitionsToTxnResultModel {
        AddPartitionsToTxnResultModel {
            transactional_id: self.transactional_id.deep_view(),
            topic_results: self.topic_results.deep_view(),
        }
    }
}

impl AddPartitionsToTxnResult {
    /// The encoding of the structure in context `ctx`.
    pub open spec fn spec_encode_body(m: AddPartitionsToTxnResultModel, ctx: Ctx) -> Result<Seq<u8>, SerializationError> {
        let r = Ok(Seq::<u8>::empty());
        let r = if 4 <= ctx.version { then(r, string_bytes(m.transactional_id, ctx.flexible)) } else { r };
        let r = if 4 <= ctx.version { then(r, array_bytes::<AddPartitionsToTxnTopicResult>(m.topic_results, Ctx { version: ctx.version, flexible: ctx.flexible, classic: false })) } else { r };
        let r = if ctx.flexible { then(r, Ok(uvarint_bytes(0))) } else { r };
        r
    }

    /// The structure read from `s` at `pos` in context `ctx`.
    pub open spec fn spec_decode_body(s: Seq<u8>, pos: int, ctx: Ctx) -> Result<(AddPartitionsToTxnResultModel, int), SerializationError> {
        match (if 4 <= ctx.version { parse_string(s, pos, ctx.flexible) } else { Ok((Seq::<char>::empty(), pos)) }) {
            Err(e) => Err(e),
            Ok((transactional_id, pos)) =>
            match (if 4 <= ctx.version { parse_array::<AddPartitionsToTxnTopicResult>(s, pos, Ctx { version: ctx.version, flexible: ctx.flexible, classic: false }) } else { Ok((Seq::<<AddPartitionsToTxnTopicResult as DeepView>::V>::empty(), pos)) }) {
                Err(e) => Err(e),
                Ok((topic_results, pos)) =>
                match (if ctx.flexible { parse_uvarint(s, pos) } else { Ok((0u64, pos)) }) {
                    Err(e) => Err(e),
                    Ok((_tag_count, pos)) =>
                    Ok((AddPartitionsToTxnResultModel { transactional_id, topic_results }, pos))
                }
            }
        }
    }

    /// The structure as it reads back in context `ctx`: each field that the
    /// version leaves out is at its default.
    #[verifier::opaque]
    pub open spec fn spec_read_as(m: AddPartitionsToTxnResultModel, ctx: Ctx) -> AddPartitionsToTxnResultModel {
        AddPartitionsToTxnResultModel { transactional_id: if 4 <= ctx.version { m.transactional_id } else { Seq::<char>::empty() }, topic_results: if 4 <= ctx.version { m.topic_results } else { Seq::<<AddPartitionsToTxnTopicResult as DeepView>::V>::empty() } }
    }

    /// Values that read back in context `ctx`: nested values read back. A field
    /// that the version leaves out is read as its default.
    pub open spec fn reads_back_body(m: AddPartitionsToTxnResultModel, ctx: Ctx) -> bool {
        &&& (4 <= ctx.version) ==> forall|i: int| 0 <= i < m.topic_results.len() ==> #[trigger] <AddPartitionsToTxnTopicResult as KafkaCodec>::reads_back(m.topic_results[i], Ctx { version: ctx.version, flexible: ctx.flexible, classic: false })
    }

    /// A value that can be written in context `ctx` and reads back: decoding its
    /// encoding, wherever it stands, gives the value as `spec_read_as` gives it and
    /// the position just after it.
    #[verifier::spinoff_prover]
    pub proof fn lemma_body_read_back(pre: Seq<u8>, m: AddPartitionsToTxnResultModel, post: Seq<u8>, ctx: Ctx)
        requires
            Self::spec_encode_body(m, ctx) is Ok,
            Self::reads_back_body(m, ctx),
        ensures
            Self::spec_decode_body(pre + Self::spec_encode_body(m, ctx)->Ok_0 + post, pre.len() as int, ctx) == Ok::<(AddPartitionsToTxnResultModel, int), SerializationError>((Self::spec_read_as(m, ctx), pre.len() as int + Self::spec_encode_body(m, ctx)->Ok_0.len())),
    {
        reveal(AddPartitionsToTxnResult::spec_read_as);
        let b0 = if 4 <= ctx.version { (string_bytes(m.transactional_id, ctx.flexible))->Ok_0 } else { Seq::<u8>::empty() };
        let b1 = if 4 <= ctx.version { (array_bytes::<AddPartitionsToTxnTopicResult>(m.topic_results, Ctx { version: ctx.version, flexible: ctx.flexible, classic: false }))->Ok_0 } else { Seq::<u8>::empty() };
        let b2 = if ctx.flexible { uvarint_bytes(0) } else { Seq::<u8>::empty() };
        let t3 = post;
        let t2 = b2 + t3;
        let t1 = b1 + t2;
        let t0 = b0 + t1;
        let e = Self::spec_encode_body(m, ctx)->Ok_0;
        assert(e =~= Seq::<u8>::empty() + b0 + b1 + b2);
        lemma_seq_assoc(((Seq::<u8>::empty() + b0) + b1), b2, post);
        lemma_seq_assoc((Seq::<u8>::empty() + b0), b1, (b2 + post));
        lemma_seq_assoc(Seq::<u8>::empty(), b0, (b1 + (b2 + post)));
        lemma_seq_empty_left((b0 + (b1 + (b2 + post))));
        let s = pre + e + post;
        lemma_seq_assoc(pre, e, post);
        assert(s == pre + t0);
        let a0 = pre;
        if 4 <= ctx.version {
            assert(parse_string(s, a0.len() as int, ctx.flexible) == Ok::<(Seq<char>, int), SerializationError>((m.transactional_id, a0.len() as int + b0.len()))) by {
                assert(string_bytes(m.transactional_id, ctx.flexible) is Ok);
                lemma_seq_assoc(a0, b0, t1);
                lemma_string_roundtrip(a0, m.transactional_id, t1, ctx.flexible);
            }
        }
        lemma_seq_assoc(a0, b0, t1);
        let a1 = a0 + b0;
        if 4 <= ctx.version {
            assert(parse_array::<AddPartitionsToTxnTopicResult>(s, a1.len() as int, Ctx { version: ctx.version, flexible: ctx.flexible, classic: false }) == Ok::<(Seq<<AddPartitionsToTxnTopicResult as DeepView>::V>, int), SerializationError>((m.topic_results, a1.len() as int + b1.len()))) by {
                assert(array_bytes::<AddPartitionsToTxnTopicResult>(m.topic_results, Ctx { version: ctx.version, flexible: ctx.flexible, classic: false }) is Ok);
                lemma_seq_assoc(a1, b1, t2);
                lemma_items_read_back::<AddPartitionsToTxnTopicResult>(m.topic_results, Ctx { version: ctx.version, flexible: ctx.flexible, classic: false });
                lemma_array_roundtrip::<AddPartitionsToTxnTopicResult>(a1, m.topic_results, t2, Ctx { version: ctx.version, flexible: ctx.flexible, classic: false });
            }
        }
        lemma_seq_assoc(a1, b1, t2);
        let a2 = a1 + b1;
        if ctx.flexible {
            assert(parse_uvarint(s, a2.len() as int) == Ok::<(u64, int), SerializationError>((0u64, a2.len() as int + b2.len()))) by {
                lemma_seq_assoc(a2, b2, t3);
                lemma_uvarint_roundtrip(a2, 0, t3);
            }
        }
    }

    /// The bytes written: the encoding of each field, in the order of the
    /// protocol's layout. Reading them back, wherever they stand, gives the value,
    /// with each field that the version leaves out at its default.
    #[verifier::spinoff_prover]
    pub proof fn lemma_body_layout(pre: Seq<u8>, m: AddPartitionsToTxnResultModel, post: Seq<u8>, ctx: Ctx)
        requires
            Self::spec_encode_body(m, ctx) is Ok,
        ensures
            Self::spec_encode_body(m, ctx) == Ok::<Seq<u8>, SerializationError>((if 4 <= ctx.version { (string_bytes(m.transactional_id, ctx.flexible))->Ok_0 } else { Seq::<u8>::empty() }) + (if 4 <= ctx.version { (array_bytes::<AddPartitionsToTxnTopicResult>(m.topic_results, Ctx { version: ctx.version, flexible: ctx.flexible, classic: false }))->Ok_0 } else { Seq::<u8>::empty() }) + (if ctx.flexible { uvarint_bytes(0) } else { Seq::<u8>::empty() })),
            Self::reads_back_body(m, ctx) ==> Self::spec_decode_body(pre + ((if 4 <= ctx.version { (string_bytes(m.transactional_id, ctx.flexible))->Ok_0 } else { Seq::<u8>::empty() }) + (if 4 <= ctx.version { (array_bytes::<AddPartitionsToTxnTopicResult>(m.topic_results, Ctx { version: ctx.version, flexible: ctx.flexible, classic: false }))->Ok_0 } else { Seq::<u8>::empty() }) + (if ctx.flexible { uvarint_bytes(0) } else { Seq::<u8>::empty() })) + post, pre.len() as int, ctx) == Ok::<(AddPartitionsToTxnResultModel, int), SerializationError>((AddPartitionsToTxnResultModel { transactional_id: if 4 <= ctx.version { m.transactional_id } else { Seq::<char>::empty() }, topic_results: if 4 <= ctx.version { m.topic_results } else { Seq::<<AddPartitionsToTxnTopicResult as DeepView>::V>::empty() } }, pre.len() as int + ((if 4 <= ctx.version { (string_bytes(m.transactional_id, ctx.flexible))->Ok_0 } else { Seq::<u8>::empty() }) + (if 4 <= ctx.version { (array_bytes::<AddPartitionsToTxnTopicResult>(m.topic_results, Ctx { version: ctx.version, flexible: ctx.flexible, classic: false }))->Ok_0 } else { Seq::<u8>::empty() }) + (if ctx.flexible { uvarint_bytes(0) } else { Seq::<u8>::empty() })).len())),
    {
        let b0 = if 4 <= ctx.version { (string_bytes(m.transactional_id, ctx.flexible))->Ok_0 } else { Seq::<u8>::empty() };
        let b1 = if 4 <= ctx.version { (array_bytes::<AddPartitionsToTxnTopicResult>(m.topic_results, Ctx { version: ctx.version, flexible: ctx.flexible, classic: false }))->Ok_0 } else { Seq::<u8>::empty() };
        let b2 = if ctx.flexible { uvarint_bytes(0) } else { Seq::<u8>::empty() };
        let e = Self::spec_encode_body(m, ctx)->Ok_0;
        assert(e =~= Seq::<u8>::empty() + b0 + b1 + b2);
        assert(e =~= b0 + b1 + b2);
        if Self::reads_back_body(m, ctx) {
            Self::lemma_body_read_back(pre, m, post, ctx);
            reveal(AddPartitionsToTxnResult::spec_read_as);
        }
    }

    /// Writing succeeds exactly when every field that the version carries can be
    /// encoded and every field that it leaves out, where leaving it out is an
    /// error, holds its default.
    #[verifier::spinoff_prover]
    pub proof fn lemma_body_write_succeeds(m: AddPartitionsToTxnResultModel, ctx: Ctx)
        ensures
            Self::spec_encode_body(m, ctx) is Ok <==> ((4 <= ctx.version) ==> string_bytes(m.transactional_id, ctx.flexible) is Ok) && ((4 <= ctx.version) ==> array_bytes::<AddPartitionsToTxnTopicResult>(m.topic_results, Ctx { version: ctx.version, flexible: ctx.flexible, classic: false }) is Ok),
    {
    }

    /// Writes the structure for `version`, with the compact encodings when `is_flexible`.
    /// On failure the buffer is left as it was.
    pub fn encode(&self, buf: &mut Vec<u8>, version: ApiVersion, is_flexible: bool) -> (r: Result<(), SerializationError>)
        ensures
            write_exact(r, old(buf)@, final(buf)@, Self::spec_encode_body(self.deep_view(), Ctx { version: version.0, flexible: is_flexible, classic: false })),
    {
        let start = buf.len();
        let r = self.encode_ctx(buf, Ctx::new(version, is_flexible));
        if r.is_err() {
            buf.truncate(start);
        }
        r
    }

    /// Reads the structure as written for `version`.
    /// On failure the reader is put back where it started.
    pub fn decode(buf: &mut Reader, version: ApiVersion, is_flexible: bool) -> (r: Result<Self, SerializationError>)
        ensures
            final(buf).bytes() == old(buf).bytes(),
            read_view_exact(r, Self::spec_decode_body(old(buf).bytes(), old(buf).pos(), Ctx { version: version.0, flexible: is_flexible, classic: false }), old(buf).pos(), final(buf).pos()),
    {
        let start = buf.position();
        let r = Self::decode_ctx(buf, Ctx::new(version, is_flexible));
        if r.is_err() {
            buf.set_position(start);
        }
        r
    }
}

impl KafkaCodec for AddPartitionsToTxnResult {
    open spec fn spec_encode(m: AddPartitionsToTxnResultModel, ctx: Ctx) -> Result<Seq<u8>, SerializationError> {
        Self::spec_encode_body(m, ctx)
    }

    open spec fn spec_decode(s: Seq<u8>, pos: int, ctx: Ctx) -> Result<(AddPartitionsToTxnResultModel, int), SerializationError> {
        Self::spec_decode_body(s, pos, ctx)
    }

    open spec fn reads_back(v: AddPartitionsToTxnResultModel, ctx: Ctx) -> bool {
        Self::reads_back_body(v, ctx) && Self::spec_read_as(v, ctx) == v
    }

    proof fn lemma_read_back(pre: Seq<u8>, v: AddPartitionsToTxnResultModel, post: Seq<u8>, ctx: Ctx) {
        Self::lemma_body_read_back(pre, v, post, ctx);
        assert(Self::spec_decode(pre + Self::spec_encode(v, ctx)->Ok_0 + post, pre.len() as int, ctx)
            == Self::spec_decode_body(pre + Self::spec_encode_body(v, ctx)->Ok_0 + post, pre.len() as int, ctx));
    }

    fn encode_ctx(&self, buf: &mut Vec<u8>, ctx: Ctx) -> (r: Result<(), SerializationError>) {
        let ghost mut w: Seq<u8> = Seq::empty();
        if 4 <= ctx.version {
            encode_string(&self.transactional_id, buf, ctx.flexible)?;
            proof {
                w = w + (string_bytes(self.transactional_id.deep_view(), ctx.flexible))->Ok_0;
            }
            assert(buf@ =~= old(buf)@ + w);
        }
        if 4 <= ctx.version {
            encode_array(&self.topic_results, buf, Ctx { version: ctx.version, flexible: ctx.flexible, classic: false })?;
            proof {
                w = w + (array_bytes::<AddPartitionsToTxnTopicResult>(self.topic_results.deep_view(), Ctx { version: ctx.version, flexible: ctx.flexible, classic: false }))->Ok_0;
            }
            assert(buf@ =~= old(buf)@ + w);
        }
        if ctx.flexible {
            encode_unsigned_varint(0, buf);
            proof {
                w = w + uvarint_bytes(0);
            }
            assert(buf@ =~= old(buf)@ + w);
        }
        Ok(())
    }

    fn decode_ctx(buf: &mut Reader, ctx: Ctx) -> (r: Result<Self, SerializationError>) {
        let transactional_id = if 4 <= ctx.version {
            buf.get_string(ctx.flexible)?
        } else {
            String::new()
        };
        let topic_results = if 4 <= ctx.version {
            decode_array::<AddPartitionsToTxnTopicResult>(buf, Ctx { version: ctx.version, flexible: ctx.flexible, classic: false })?
        } else {
            new_array::<AddPartitionsToTxnTopicResult>()
        };
        if ctx.flexible {
            let (_tag_count, _) = decode_unsigned_varint(buf)?;
        }
        Ok(AddPartitionsToTxnResult { transactional_id, topic_results })
    }
}

// -------------------------------------------------------
// AddPartitionsToTxnTopicResult
// -------------------------------------------------------
#[derive(Clone, Debug, Default, PartialEq)]
pub struct AddPartitionsToTxnTopicResult {
    /// The topic name.
    pub name: String,
    /// The results for each partition.
    pub results_by_partition: Vec<AddPartitionsToTxnPartitionResult>,
}

/// The contents of `AddPartitionsToTxnTopicResult`, with strings as characters and
/// nested values by their contents.
pub struct AddPartitionsToTxnTopicResultModel {
    pub name: Seq<char>,
    pub results_by_partition: Seq<<AddPartitionsToTxnPartitionResult as DeepView>::V>,
}

impl DeepView for AddPartitionsToTxnTopicResult {
    type V = AddPartitionsToTxnTopicResultModel;

    open spec fn deep_view(&self) -> AddPartitionsToTxnTopicResultModel {
        AddPartitionsToTxnTopicResultModel {
            name: self.name.deep_view(),
            results_by_partition: self.results_by_partition.deep_view(),
        }
    }
}

impl AddPartitionsToTxnTopicResult {
    /// The encoding of the structure in context `ctx`.
    pub open spec fn spec_encode_body(m: AddPartitionsToTxnTopicResultModel, ctx: Ctx) -> Result<Seq<u8>, SerializationError> {
        let r = Ok(Seq::<u8>::empty());
        let r = then(r, string_bytes(m.name, ctx.flexible));
        let r = then(r, array_bytes::<AddPartitionsToTxnPartitionResult>(m.results_by_partition, Ctx { version: ctx.version, flexible: ctx.flexible, classic: false }));
        let r = if ctx.flexible { then(r, Ok(uvarint_bytes(0))) } else { r };
        r
    }

    /// The structure read from `s` at `pos` in context `ctx`.
    pub open spec fn spec_decode_body(s: Seq<u8>, pos: int, ctx: Ctx) -> Result<(AddPartitionsToTxnTopicResultModel, int), SerializationError> {
        match parse_string(s, pos, ctx.flexible) {
            Err(e) => Err(e),
            Ok((name, pos)) =>
            match parse_array::<AddPartitionsToTxnPartitionResult>(s, pos, Ctx { version: ctx.version, flexible: ctx.flexible, classic: false }) {
                Err(e) => Err(e),
                Ok((results_by_partition, pos)) =>
                match (if ctx.flexible { parse_uvarint(s, pos) } else { Ok((0u64, pos)) }) {
                    Err(e) => Err(e),
                    Ok((_tag_count, pos)) =>
                    Ok((AddPartitionsToTxnTopicResultModel { name, results_by_partition }, pos))
                }
            }
        }
    }

    /// Values of the structure that read back from their encoding in `ctx`: every
    /// field that the version leaves out holds its default, and nested values
    /// read back.
    pub open spec fn reads_back_body(m: AddPartitionsToTxnTopicResultModel, ctx: Ctx) -> bool {
        &&& forall|i: int| 0 <= i < m.results_by_partition.len() ==> #[trigger] <AddPartitionsToTxnPartitionResult as KafkaCodec>::reads_back(m.results_by_partition[i], Ctx { version: ctx.version, flexible: ctx.flexible, classic: false })
    }

    /// A value that can be written in `ctx` and reads back: decoding its encoding,
    /// wherever it stands, gives the value and the position just after it.
    #[verifier::spinoff_prover]
    pub proof fn lemma_body_read_back(pre: Seq<u8>, m: AddPartitionsToTxnTopicResultModel, post: Seq<u8>, ctx: Ctx)
        requires
            Self::spec_encode_body(m, ctx) is Ok,
            Self::reads_back_body(m, ctx),
        ensures
            Self::spec_decode_body(pre + Self::spec_encode_body(m, ctx)->Ok_0 + post, pre.len() as int, ctx) == Ok::<(AddPartitionsToTxnTopicResultModel, int), SerializationError>((m, pre.len() as int + Self::spec_encode_body(m, ctx)->Ok_0.len())),
    {
        let b0 = (string_bytes(m.name, ctx.flexible))->Ok_0;
        let b1 = (array_bytes::<AddPartitionsToTxnPartitionResult>(m.results_by_partition, Ctx { version: ctx.version, flexible: ctx.flexible, classic: false }))->Ok_0;
        let b2 = if ctx.flexible { uvarint_bytes(0) } else { Seq::<u8>::empty() };
        let t3 = post;
        let t2 = b2 + t3;
        let t1 = b1 + t2;
        let t0 = b0 + t1;
        let e = Self::spec_encode_body(m, ctx)->Ok_0;
        assert(e =~= Seq::<u8>::empty() + b0 + b1 + b2);
        lemma_seq_assoc(((Seq::<u8>::empty() + b0) + b1), b2, post);
        lemma_seq_assoc((Seq::<u8>::empty() + b0), b1, (b2 + post));
        lemma_seq_assoc(Seq::<u8>::empty(), b0, (b1 + (b2 + post)));
        lemma_seq_empty_left((b0 + (b1 + (b2 + post))));
        let s = pre + e + post;
        lemma_seq_assoc(pre, e, post);
        assert(s == pre + t0);
        let a0 = pre;
        assert(parse_string(s, a0.len() as int, ctx.flexible) == Ok::<(Seq<char>, int), SerializationError>((m.name, a0.len() as int + b0.len()))) by {
            assert(string_bytes(m.name, ctx.flexible) is Ok);
            lemma_seq_assoc(a0, b0, t1);
            lemma_string_roundtrip(a0, m.name, t1, ctx.flexible);
        }
        lemma_seq_assoc(a0, b0, t1);
        let a1 = a0 + b0;
        assert(parse_array::<AddPartitionsToTxnPartitionResult>(s, a1.len() as int, Ctx { version: ctx.version, flexible: ctx.flexible, classic: false }) == Ok::<(Seq<<AddPartitionsToTxnPartitionResult as DeepView>::V>, int), SerializationError>((m.results_by_partition, a1.len() as int + b1.len()))) by {
            assert(array_bytes::<AddPartitionsToTxnPartitionResult>(m.results_by_partition, Ctx { version: ctx.version, flexible: ctx.flexible, classic: false }) is Ok);
            lemma_seq_assoc(a1, b1, t2);
            lemma_items_read_back::<AddPartitionsToTxnPartitionResult>(m.results_by_partition, Ctx { version: ctx.version, flexible: ctx.flexible, classic: false });
            lemma_array_roundtrip::<AddPartitionsToTxnPartitionResult>(a1, m.results_by_partition, t2, Ctx { version: ctx.version, flexible: ctx.flexible, classic: false });
        }
        lemma_seq_assoc(a1, b1, t2);
        let a2 = a1 + b1;
        if ctx.flexible {
            assert(parse_uvarint(s, a2.len() as int) == Ok::<(u64, int), SerializationError>((0u64, a2.len() as int + b2.len()))) by {
                lemma_seq_assoc(a2, b2, t3);
                lemma_uvarint_roundtrip(a2, 0, t3);
            }
        }
    }

    /// The bytes written: the encoding of each field, in the order of the
    /// protocol's layout. Reading them back, wherever they stand, gives the value,
    /// with each field that the version leaves out at its default.
    #[verifier::spinoff_prover]
    pub proof fn lemma_body_layout(pre: Seq<u8>, m: AddPartitionsToTxnTopicResultModel, post: Seq<u8>, ctx: Ctx)
        requires
            Self::spec_encode_body(m, ctx) is Ok,
        ensures
            Self::spec_encode_body(m, ctx) == Ok::<Seq<u8>, SerializationError>(((string_bytes(m.name, ctx.flexible))->Ok_0) + ((array_bytes::<AddPartitionsToTxnPartitionResult>(m.results_by_partition, Ctx { version: ctx.version, flexible: ctx.flexible, classic: false }))->Ok_0) + (if ctx.flexible { uvarint_bytes(0) } else { Seq::<u8>::empty() })),
            Self::reads_back_body(m, ctx) ==> Self::spec_decode_body(pre + (((string_bytes(m.name, ctx.flexible))->Ok_0) + ((array_bytes::<AddPartitionsToTxnPartitionResult>(m.results_by_partition, Ctx { version: ctx.version, flexible: ctx.flexible, classic: false }))->Ok_0) + (if ctx.flexible { uvarint_bytes(0) } else { Seq::<u8>::empty() })) + post, pre.len() as int, ctx) == Ok::<(AddPartitionsToTxnTopicResultModel, int), SerializationError>((m, pre.len() as int + (((string_bytes(m.name, ctx.flexible))->Ok_0) + ((array_bytes::<AddPartitionsToTxnPartitionResult>(m.results_by_partition, Ctx { version: ctx.version, flexible: ctx.flexible, classic: false }))->Ok_0) + (if ctx.flexible { uvarint_bytes(0) } else { Seq::<u8>::empty() })).len())),
    {
        let b0 = (string_bytes(m.name, ctx.flexible))->Ok_0;
        let b1 = (array_bytes::<AddPartitionsToTxnPartitionResult>(m.results_by_partition, Ctx { version: ctx.version, flexible: ctx.flexible, classic: false }))->Ok_0;
        let b2 = if ctx.flexible { uvarint_bytes(0) } else { Seq::<u8>::empty() };
        let e = Self::spec_encode_body(m, ctx)->Ok_0;
        assert(e =~= Seq::<u8>::empty() + b0 + b1 + b2);
        assert(e =~= b0 + b1 + b2);
        if Self::reads_back_body(m, ctx) {
            Self::lemma_body_read_back(pre, m, post, ctx);
        }
    }

    /// Writing succeeds exactly when every field that the version carries can be
    /// encoded and every field that it leaves out, where leaving it out is an
    /// error, holds its default.
    #[verifier::spinoff_prover]
    pub proof fn lemma_body_write_succeeds(m: AddPartitionsToTxnTopicResultModel, ctx: Ctx)
        ensures
            Self::spec_encode_body(m, ctx) is Ok <==> (string_bytes(m.name, ctx.flexible) is Ok) && (array_bytes::<AddPartitionsToTxnPartitionResult>(m.results_by_partition, Ctx { version: ctx.version, flexible: ctx.flexible, classic: false }) is Ok),
    {
    }

    /// Writes the structure for `version`, with the compact encodings when `is_flexible`.
    /// On failure the buffer is left as it was.
    pub fn encode(&self, buf: &mut Vec<u8>, version: ApiVersion, is_flexible: bool) -> (r: Result<(), SerializationError>)
        ensures
            write_exact(r, old(buf)@, final(buf)@, Self::spec_encode_body(self.deep_view(), Ctx { version: version.0, flexible: is_flexible, classic: false })),
    {
        let start = buf.len();
        let r = self.encode_ctx(buf, Ctx::new(version, is_flexible));
        if r.is_err() {
            buf.truncate(start);
        }
        r
    }

    /// Reads the structure as written for `version`.
    /// On failure the reader is put back where it started.
    pub fn decode(buf: &mut Reader, version: ApiVersion, is_flexible: bool) -> (r: Result<Self, SerializationError>)
        ensures
            final(buf).bytes() == old(buf).bytes(),
            read_view_exact(r, Self::spec_decode_body(old(buf).bytes(), old(buf).pos(), Ctx { version: version.0, flexible: is_flexible, classic: false }), old(buf).pos(), final(buf).pos()),
    {
        let start = buf.position();
        let r = Self::decode_ctx(buf, Ctx::new(version, is_flexible));
        if r.is_err() {
            buf.set_position(start);
        }
        r
    }
}

impl KafkaCodec for AddPartitionsToTxnTopicResult {
    open spec fn spec_encode(m: AddPartitionsToTxnTopicResultModel, ctx: Ctx) -> Result<Seq<u8>, SerializationError> {
        Self::spec_encode_body(m, ctx)
    }

    open spec fn spec_decode(s: Seq<u8>, pos: int, ctx: Ctx) -> Result<(AddPartitionsToTxnTopicResultModel, int), SerializationError> {
        Self::spec_decode_body(s, pos, ctx)
    }

    open spec fn reads_back(v: AddPartitionsToTxnTopicResultModel, ctx: Ctx) -> bool {
        Self::reads_back_body(v, ctx)
    }

    proof fn lemma_read_back(pre: Seq<u8>, v: AddPartitionsToTxnTopicResultModel, post: Seq<u8>, ctx: Ctx) {
        Self::lemma_body_read_back(pre, v, post, ctx);
        assert(Self::spec_decode(pre + Self::spec_encode(v, ctx)->Ok_0 + post, pre.len() as int, ctx)
            == Self::spec_decode_body(pre + Self::spec_encode_body(v, ctx)->Ok_0 + post, pre.len() as int, ctx));
    }

    fn encode_ctx(&self, buf: &mut Vec<u8>, ctx: Ctx) -> (r: Result<(), SerializationError>) {
        let ghost mut w: Seq<u8> = Seq::empty();
        encode_string(&self.name, buf, ctx.flexible)?;
        proof {
            w = w + (string_bytes(self.name.deep_view(), ctx.flexible))->Ok_0;
        }
        assert(buf@ =~= old(buf)@ + w);
        encode_array(&self.results_by_partition, buf, Ctx { version: ctx.version, flexible: ctx.flexible, classic: false })?;
        proof {
            w = w + (array_bytes::<AddPartitionsToTxnPartitionResult>(self.results_by_partition.deep_view(), Ctx { version: ctx.version, flexible: ctx.flexible, classic: false }))->Ok_0;
        }
        assert(buf@ =~= old(buf)@ + w);
        if ctx.flexible {
            encode_unsigned_varint(0, buf);
            proof {
                w = w + uvarint_bytes(0);
            }
            assert(buf@ =~= old(buf)@ + w);
        }
        Ok(())
    }

    fn decode_ctx(buf: &mut Reader, ctx: Ctx) -> (r: Result<Self, SerializationError>) {
        let name = buf.get_string(ctx.flexible)?;
        let results_by_partition = decode_array::<AddPartitionsToTxnPartitionResult>(buf, Ctx { version: ctx.version, flexible: ctx.flexible, classic: false })?;
        if ctx.flexible {
            let (_tag_count, _) = decode_unsigned_varint(buf)?;
        }
        Ok(AddPartitionsToTxnTopicResult { name, results_by_partition })
    }
}

} // verus!
