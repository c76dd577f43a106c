//! CreateDelegationTokenResponse (API key 38).
use vstd::prelude::*;
use crate::roundtrip::{lemma_bytes_roundtrip, lemma_i16_roundtrip, lemma_i32_roundtrip,
    lemma_i64_roundtrip, lemma_seq_assoc, lemma_seq_empty_left, lemma_string_roundtrip,
    lemma_uvarint_roundtrip};
use crate::serialization::{Ctx, KafkaCodec, Reader, SerializationError, bytes_bytes,
    decode_unsigned_varint, encode_bytes, encode_string, encode_unsigned_varint, i16_bytes,
    i32_bytes, i64_bytes, parse_bytes, parse_i16, parse_i32, parse_i64, parse_string,
    parse_uvarint, put_i16, put_i32, put_i64, read_view_exact, read_view_ok, string_bytes, then,
    uvarint_bytes, write_exact, write_ok};
use crate::{ApiKey, ApiVersion};

verus! {

// -------------------------------------------------------
// CreateDelegationTokenResponse
// -------------------------------------------------------
#[derive(Clone, Debug, Default, PartialEq)]
pub struct CreateDelegationTokenResponse {
    /// The top-level error, or zero if there was no error.
    pub error_code: i16,
    /// The principal type of the token owner.
    pub principal_type: String,
    /// The name of the token owner.
    pub principal_name: String,
    /// The principal type of the requester of the token.
    /// Available in version 3+.
    pub token_requester_principal_type: String,
    /// The principal type of the requester of the token.
    /// Available in version 3+.
    pub token_requester_principal_name: String,
    /// When this token was generated.
    pub issue_timestamp_ms: i64,
    /// When this token expires.
    pub expiry_timestamp_ms: i64,
    /// The maximum lifetime of this token.
    pub max_timestamp_ms: i64,
    /// The token UUID.
    pub token_id: String,
    /// HMAC of the delegation token.
    pub hmac: Vec<u8>,
    /// The duration in milliseconds for which the request was throttled due to a quota violation, or zero if the request did not violate any quota.
    pub throttle_time_ms: i32,
}

/// The contents of `CreateDelegationTokenResponse`, with strings as characters and
/// nested values by their contents.
pub struct CreateDelegationTokenResponseModel {
    pub error_code: i16,
    pub principal_type: Seq<char>,
    pub principal_name: Seq<char>,
    pub token_requester_principal_type: Seq<char>,
    pub token_requester_principal_name: Seq<char>,
    pub issue_timestamp_ms: i64,
    pub expiry_timestamp_ms: i64,
    pub max_timestamp_ms: i64,
    pub token_id: Seq<char>,
    pub hmac: Seq<u8>,
    pub throttle_time_ms: i32,
}

impl DeepView for CreateDelegationTokenResponse {
    type V = CreateDelegationTokenResponseModel;

    open spec fn deep_view(&self) -> CreateDelegationTokenResponseModel {
        CreateDelegationTokenResponseModel {
            error_code: self.error_code,
            principal_type: self.principal_type.deep_view(),
            principal_name: self.principal_name.deep_view(),
            token_requester_principal_type: self.token_requester_principal_type.deep_view(),
            token_requester_principal_name: self.token_requester_principal_name.deep_view(),
            issue_timestamp_ms: self.issue_timestamp_ms,
            expiry_timestamp_ms: self.expiry_timestamp_ms,
            max_timestamp_ms: self.max_timestamp_ms,
            token_id: self.token_id.deep_view(),
            hmac: self.hmac@,
            throttle_time_ms: self.throttle_time_ms,
        }
    }
}

impl CreateDelegationTokenResponse {
    /// Fields 1 to 5 of the encoding.
    pub open spec fn spec_encode_body_part1(m: CreateDelegationTokenResponseModel, ctx: Ctx) -> Result<Seq<u8>, SerializationError> {
        let r = Ok(Seq::<u8>::empty());
        let r = then(r, Ok(i16_bytes(m.error_code)));
        let r = then(r, string_bytes(m.principal_type, ctx.flexible));
        let r = then(r, string_bytes(m.principal_name, ctx.flexible));
        let r = if 3 <= ctx.version { then(r, string_bytes(m.token_requester_principal_type, ctx.flexible)) } else { r };
        let r = if 3 <= ctx.version { then(r, string_bytes(m.token_requester_principal_name, ctx.flexible)) } else { r };
        r
    }

    #[verifier::spinoff_prover]
    fn encode_body_part1(&self, buf: &mut Vec<u8>, ctx: Ctx) -> (r: Result<(), SerializationError>)
        ensures
            write_ok(r, old(buf)@, final(buf)@, Self::spec_encode_body_part1(self.deep_view(), ctx)),
    {
        let ghost mut w: Seq<u8> = Seq::empty();
        put_i16(buf, self.error_code);
        proof {
            w = w + i16_bytes(self.error_code);
        }
        assert(buf@ =~= old(buf)@ + w);
        encode_string(&self.principal_type, buf, ctx.flexible)?;
        proof {
            w = w + (string_bytes(self.principal_type.deep_view(), ctx.flexible))->Ok_0;
        }
        assert(buf@ =~= old(buf)@ + w);
        encode_string(&self.principal_name, buf, ctx.flexible)?;
        proof {
            w = w + (string_bytes(self.principal_name.deep_view(), ctx.flexible))->Ok_0;
        }
        assert(buf@ =~= old(buf)@ + w);
        if 3 <= ctx.version {
            encode_string(&self.token_requester_principal_type, buf, ctx.flexible)?;
            proof {
                w = w + (string_bytes(self.token_requester_principal_type.deep_view(), ctx.flexible))->Ok_0;
            }
            assert(buf@ =~= old(buf)@ + w);
        }
        if 3 <= ctx.version {
            encode_string(&self.token_requester_principal_name, buf, ctx.flexible)?;
            proof {
                w = w + (string_bytes(self.token_requester_principal_name.deep_view(), ctx.flexible))->Ok_0;
            }
            assert(buf@ =~= old(buf)@ + w);
        }
        Ok(())
    }

    /// Fields 6 to 12 of the encoding.
    pub open spec fn spec_encode_body_part2(m: CreateDelegationTokenResponseModel, ctx: Ctx) -> Result<Seq<u8>, SerializationError> {
        let r = Ok(Seq::<u8>::empty());
        let r = then(r, Ok(i64_bytes(m.issue_timestamp_ms)));
        let r = then(r, Ok(i64_bytes(m.expiry_timestamp_ms)));
        let r = then(r, Ok(i64_bytes(m.max_timestamp_ms)));
        let r = then(r, string_bytes(m.token_id, ctx.flexible));
        let r = then(r, bytes_bytes(m.hmac, ctx.flexible));
        let r = then(r, Ok(i32_bytes(m.throttle_time_ms)));
        let r = if ctx.flexible { then(r, Ok(uvarint_bytes(0))) } else { r };
        r
    }

    #[verifier::spinoff_prover]
    fn encode_body_part2(&self, buf: &mut Vec<u8>, ctx: Ctx) -> (r: Result<(), SerializationError>)
        ensures
            write_ok(r, old(buf)@, final(buf)@, Self::spec_encode_body_part2(self.deep_view(), ctx)),
    {
        let ghost mut w: Seq<u8> = Seq::empty();
        put_i64(buf, self.issue_timestamp_ms);
        proof {
            w = w + i64_bytes(self.issue_timestamp_ms);
        }
        assert(buf@ =~= old(buf)@ + w);
        put_i64(buf, self.expiry_timestamp_ms);
        proof {
            w = w + i64_bytes(self.expiry_timestamp_ms);
        }
        assert(buf@ =~= old(buf)@ + w);
        put_i64(buf, self.max_timestamp_ms);
        proof {
            w = w + i64_bytes(self.max_timestamp_ms);
        }
        assert(buf@ =~= old(buf)@ + w);
        encode_string(&self.token_id, buf, ctx.flexible)?;
        proof {
            w = w + (string_bytes(self.token_id.deep_view(), ctx.flexible))->Ok_0;
        }
        assert(buf@ =~= old(buf)@ + w);
        encode_bytes(&self.hmac, buf, ctx.flexible)?;
        proof {
            w = w + (bytes_bytes(self.hmac@, ctx.flexible))->Ok_0;
        }
        assert(buf@ =~= old(buf)@ + w);
        put_i32(buf, self.throttle_time_ms);
        proof {
            w = w + i32_bytes(self.throttle_time_ms);
        }
        assert(buf@ =~= old(buf)@ + w);
        if ctx.flexible {
            encode_unsigned_varint(0, buf);
            proof {
                w = w + uvarint_bytes(0);
            }
            assert(buf@ =~= old(buf)@ + w);
        }
        Ok(())
    }

    /// The encoding of the structure in context `ctx`.
    pub open spec fn spec_encode_body(m: CreateDelegationTokenResponseModel, ctx: Ctx) -> Result<Seq<u8>, SerializationError> {
        let r = Ok(Seq::<u8>::empty());
        let r = then(r, Self::spec_encode_body_part1(m, ctx));
        let r = then(r, Self::spec_encode_body_part2(m, ctx));
        r
    }

    /// The structure read from `s` at `pos` in context `ctx`.
    pub open spec fn spec_decode_body(s: Seq<u8>, pos: int, ctx: Ctx) -> Result<(CreateDelegationTokenResponseModel, int), SerializationError> {
        match parse_i16(s, pos) {
            Err(e) => Err(e),
            Ok((error_code, pos)) =>
            match parse_string(s, pos, ctx.flexible) {
                Err(e) => Err(e),
                Ok((principal_type, pos)) =>
                match parse_string(s, pos, ctx.flexible) {
                    Err(e) => Err(e),
                    Ok((principal_name, pos)) =>
                    match (if 3 <= ctx.version { parse_string(s, pos, ctx.flexible) } else { Ok((Seq::<char>::empty(), pos)) }) {
                        Err(e) => Err(e),
                        Ok((token_requester_principal_type, pos)) =>
                        match (if 3 <= ctx.version { parse_string(s, pos, ctx.flexible) } else { Ok((Seq::<char>::empty(), pos)) }) {
                            Err(e) => Err(e),
                            Ok((token_requester_principal_name, pos)) =>
                            match parse_i64(s, pos) {
                                Err(e) => Err(e),
                                Ok((issue_timestamp_ms, pos)) =>
                                match parse_i64(s, pos) {
                                    Err(e) => Err(e),
                                    Ok((expiry_timestamp_ms, pos)) =>
                                    match parse_i64(s, pos) {
                                        Err(e) => Err(e),
                                        Ok((max_timestamp_ms, pos)) =>
                                        match parse_string(s, pos, ctx.flexible) {
                                            Err(e) => Err(e),
                                            Ok((token_id, pos)) =>
                                            match parse_bytes(s, pos, ctx.flexible) {
                                                Err(e) => Err(e),
                                                Ok((hmac, pos)) =>
                                                match parse_i32(s, pos) {
                                                    Err(e) => Err(e),
                                                    Ok((throttle_time_ms, pos)) =>
                                                    match (if ctx.flexible { parse_uvarint(s, pos) } else { Ok((0u64, pos)) }) {
                                                        Err(e) => Err(e),
                                                        Ok((_tag_count, pos)) =>
                                                        Ok((CreateDelegationTokenResponseModel { error_code, principal_type, principal_name, token_requester_principal_type, token_requester_principal_name, issue_timestamp_ms, expiry_timestamp_ms, max_timestamp_ms, token_id, hmac, throttle_time_ms }, pos))
                                                    }
                                                }
                                            }
                                        }
                                    }
                                }
                            }
                        }
                    }
                }
            }
        }
    }

    /// The structure as it reads back in context `ctx`: each field that the
    /// version leaves out is at its default.
    #[verifier::opaque]
    pub open spec fn spec_read_as(m: CreateDelegationTokenResponseModel, ctx: Ctx) -> CreateDelegationTokenResponseModel {
        CreateDelegationTokenResponseModel { error_code: m.error_code, principal_type: m.principal_type, principal_name: m.principal_name, token_requester_principal_type: if 3 <= ctx.version { m.token_requester_principal_type } else { Seq::<char>::empty() }, token_requester_principal_name: if 3 <= ctx.version { m.token_requester_principal_name } else { Seq::<char>::empty() }, issue_timestamp_ms: m.issue_timestamp_ms, expiry_timestamp_ms: m.expiry_timestamp_ms, max_timestamp_ms: m.max_timestamp_ms, token_id: m.token_id, hmac: m.hmac, throttle_time_ms: m.throttle_time_ms }
    }

    /// Values that read back in context `ctx`: nested values read back. A field
    /// that the version leaves out is read as its default.
    pub open spec fn reads_back_body(m: CreateDelegationTokenResponseModel, ctx: Ctx) -> bool {
        true
    }

    /// A value that can be written in context `ctx` and reads back: decoding its
    /// encoding, wherever it stands, gives the value as `spec_read_as` gives it and
    /// the position just after it.
    #[verifier::spinoff_prover]
    pub proof fn lemma_body_read_back(pre: Seq<u8>, m: CreateDelegationTokenResponseModel, post: Seq<u8>, ctx: Ctx)
        requires
            Self::spec_encode_body(m, ctx) is Ok,
            Self::reads_back_body(m, ctx),
        ensures
            Self::spec_decode_body(pre + Self::spec_encode_body(m, ctx)->Ok_0 + post, pre.len() as int, ctx) == Ok::<(CreateDelegationTokenResponseModel, int), SerializationError>((Self::spec_read_as(m, ctx), pre.len() as int + Self::spec_encode_body(m, ctx)->Ok_0.len())),
    {
        reveal(CreateDelegationTokenResponse::spec_read_as);
        let b0 = i16_bytes(m.error_code);
        let b1 = (string_bytes(m.principal_type, ctx.flexible))->Ok_0;
        let b2 = (string_bytes(m.principal_name, ctx.flexible))->Ok_0;
        let b3 = if 3 <= ctx.version { (string_bytes(m.token_requester_principal_type, ctx.flexible))->Ok_0 } else { Seq::<u8>::empty() };
        let b4 = if 3 <= ctx.version { (string_bytes(m.token_requester_principal_name, ctx.flexible))->Ok_0 } else { Seq::<u8>::empty() };
        let b5 = i64_bytes(m.issue_timestamp_ms);
        let b6 = i64_bytes(m.expiry_timestamp_ms);
        let b7 = i64_bytes(m.max_timestamp_ms);
        let b8 = (string_bytes(m.token_id, ctx.flexible))->Ok_0;
        let b9 = (bytes_bytes(m.hmac, ctx.flexible))->Ok_0;
        let b10 = i32_bytes(m.throttle_time_ms);
        let b11 = if ctx.flexible { uvarint_bytes(0) } else { Seq::<u8>::empty() };
        let t12 = post;
        let t11 = b11 + t12;
        let t10 = b10 + t11;
        let t9 = b9 + t10;
        let t8 = b8 + t9;
        let t7 = b7 + t8;
        let t6 = b6 + t7;
        let t5 = b5 + t6;
        let t4 = b4 + t5;
        let t3 = b3 + t4;
        let t2 = b2 + t3;
        let t1 = b1 + t2;
        let t0 = b0 + t1;
        let e = Self::spec_encode_body(m, ctx)->Ok_0;
        let p1 = Self::spec_encode_body_part1(m, ctx)->Ok_0;
        assert(p1 =~= Seq::<u8>::empty() + b0 + b1 + b2 + b3 + b4);
        lemma_seq_assoc(((((Seq::<u8>::empty() + b0) + b1) + b2) + b3), b4, t5);
        lemma_seq_assoc((((Seq::<u8>::empty() + b0) + b1) + b2), b3, (b4 + t5));
        lemma_seq_assoc(((Seq::<u8>::empty() + b0) + b1), b2, (b3 + (b4 + t5)));
        lemma_seq_assoc((Seq::<u8>::empty() + b0), b1, (b2 + (b3 + (b4 + t5))));
        lemma_seq_assoc(Seq::<u8>::empty(), b0, (b1 + (b2 + (b3 + (b4 + t5)))));
        lemma_seq_empty_left((b0 + (b1 + (b2 + (b3 + (b4 + t5))))));
        let p2 = Self::spec_encode_body_part2(m, ctx)->Ok_0;
        assert(p2 =~= Seq::<u8>::empty() + b5 + b6 + b7 + b8 + b9 + b10 + b11);
        lemma_seq_assoc(((((((Seq::<u8>::empty() + b5) + b6) + b7) + b8) + b9) + b10), b11, t12);
        lemma_seq_assoc((((((Seq::<u8>::empty() + b5) + b6) + b7) + b8) + b9), b10, (b11 + t12));
        lemma_seq_assoc(((((Seq::<u8>::empty() + b5) + b6) + b7) + b8), b9, (b10 + (b11 + t12)));
        lemma_seq_assoc((((Seq::<u8>::empty() + b5) + b6) + b7), b8, (b9 + (b10 + (b11 + t12))));
        lemma_seq_assoc(((Seq::<u8>::empty() + b5) + b6), b7, (b8 + (b9 + (b10 + (b11 + t12)))));
        lemma_seq_assoc((Seq::<u8>::empty() + b5), b6, (b7 + (b8 + (b9 + (b10 + (b11 + t12))))));
        lemma_seq_assoc(Seq::<u8>::empty(), b5, (b6 + (b7 + (b8 + (b9 + (b10 + (b11 + t12)))))));
        lemma_seq_empty_left((b5 + (b6 + (b7 + (b8 + (b9 + (b10 + (b11 + t12))))))));
        assert(e == Seq::<u8>::empty() + p1 + p2);
        lemma_seq_assoc((Seq::<u8>::empty() + p1), p2, t12);
        lemma_seq_assoc(Seq::<u8>::empty(), p1, (p2 + t12));
        lemma_seq_empty_left((p1 + (p2 + t12)));
        let s = pre + e + post;
        lemma_seq_assoc(pre, e, post);
        assert(s == pre + t0);
        let a0 = pre;
        assert(parse_i16(s, a0.len() as int) == Ok::<(i16, int), SerializationError>((m.error_code, a0.len() as int + b0.len()))) by {
            lemma_seq_assoc(a0, b0, t1);
            lemma_i16_roundtrip(a0, m.error_code, t1);
        }
        lemma_seq_assoc(a0, b0, t1);
        let a1 = a0 + b0;
        assert(parse_string(s, a1.len() as int, ctx.flexible) == Ok::<(Seq<char>, int), SerializationError>((m.principal_type, a1.len() as int + b1.len()))) by {
            assert(string_bytes(m.principal_type, ctx.flexible) is Ok);
            lemma_seq_assoc(a1, b1, t2);
            lemma_string_roundtrip(a1, m.principal_type, t2, ctx.flexible);
        }
        lemma_seq_assoc(a1, b1, t2);
        let a2 = a1 + b1;
        assert(parse_string(s, a2.len() as int, ctx.flexible) == Ok::<(Seq<char>, int), SerializationError>((m.principal_name, a2.len() as int + b2.len()))) by {
            assert(string_bytes(m.principal_name, ctx.flexible) is Ok);
            lemma_seq_assoc(a2, b2, t3);
            lemma_string_roundtrip(a2, m.principal_name, t3, ctx.flexible);
        }
        lemma_seq_assoc(a2, b2, t3);
        let a3 = a2 + b2;
        if 3 <= ctx.version {
            assert(parse_string(s, a3.len() as int, ctx.flexible) == Ok::<(Seq<char>, int), SerializationError>((m.token_requester_principal_type, a3.len() as int + b3.len()))) by {
                assert(string_bytes(m.token_requester_principal_type, ctx.flexible) is Ok);
                lemma_seq_assoc(a3, b3, t4);
                lemma_string_roundtrip(a3, m.token_requester_principal_type, t4, ctx.flexible);
            }
        }
        lemma_seq_assoc(a3, b3, t4);
        let a4 = a3 + b3;
        if 3 <= ctx.version {
            assert(parse_string(s, a4.len() as int, ctx.flexible) == Ok::<(Seq<char>, int), SerializationError>((m.token_requester_principal_name, a4.len() as int + b4.len()))) by {
                assert(string_bytes(m.token_requester_principal_name, ctx.flexible) is Ok);
                lemma_seq_assoc(a4, b4, t5);
                lemma_string_roundtrip(a4, m.token_requester_principal_name, t5, ctx.flexible);
            }
        }
        lemma_seq_assoc(a4, b4, t5);
        let a5 = a4 + b4;
        assert(parse_i64(s, a5.len() as int) == Ok::<(i64, int), SerializationError>((m.issue_timestamp_ms, a5.len() as int + b5.len()))) by {
            lemma_seq_assoc(a5, b5, t6);
            lemma_i64_roundtrip(a5, m.issue_timestamp_ms, t6);
        }
        lemma_seq_assoc(a5, b5, t6);
        let a6 = a5 + b5;
        assert(parse_i64(s, a6.len() as int) == Ok::<(i64, int), SerializationError>((m.expiry_timestamp_ms, a6.len() as int + b6.len()))) by {
            lemma_seq_assoc(a6, b6, t7);
            lemma_i64_roundtrip(a6, m.expiry_timestamp_ms, t7);
        }
        lemma_seq_assoc(a6, b6, t7);
        let a7 = a6 + b6;
        assert(parse_i64(s, a7.len() as int) == Ok::<(i64, int), SerializationError>((m.max_timestamp_ms, a7.len() as int + b7.len()))) by {
            lemma_seq_assoc(a7, b7, t8);
            lemma_i64_roundtrip(a7, m.max_timestamp_ms, t8);
        }
        lemma_seq_assoc(a7, b7, t8);
        let a8 = a7 + b7;
        assert(parse_string(s, a8.len() as int, ctx.flexible) == Ok::<(Seq<char>, int), SerializationError>((m.token_id, a8.len() as int + b8.len()))) by {
            assert(string_bytes(m.token_id, ctx.flexible) is Ok);
            lemma_seq_assoc(a8, b8, t9);
            lemma_string_roundtrip(a8, m.token_id, t9, ctx.flexible);
        }
        lemma_seq_assoc(a8, b8, t9);
        let a9 = a8 + b8;
        assert(parse_bytes(s, a9.len() as int, ctx.flexible) == Ok::<(Seq<u8>, int), SerializationError>((m.hmac, a9.len() as int + b9.len()))) by {
            assert(bytes_bytes(m.hmac, ctx.flexible) is Ok);
            lemma_seq_assoc(a9, b9, t10);
            lemma_bytes_roundtrip(a9, m.hmac, t10, ctx.flexible);
        }
        lemma_seq_assoc(a9, b9, t10);
        let a10 = a9 + b9;
        assert(parse_i32(s, a10.len() as int) == Ok::<(i32, int), SerializationError>((m.throttle_time_ms, a10.len() as int + b10.len()))) by {
            lemma_seq_assoc(a10, b10, t11);
            lemma_i32_roundtrip(a10, m.throttle_time_ms, t11);
        }
        lemma_seq_assoc(a10, b10, t11);
        let a11 = a10 + b10;
        if ctx.flexible {
            assert(parse_uvarint(s, a11.len() as int) == Ok::<(u64, int), SerializationError>((0u64, a11.len() as int + b11.len()))) by {
                lemma_seq_assoc(a11, b11, t12);
                lemma_uvarint_roundtrip(a11, 0, t12);
            }
        }
    }

    /// The bytes written: the encoding of each field, in the order of the
    /// protocol's layout. Reading them back, wherever they stand, gives the value,
    /// with each field that the version leaves out at its default.
    #[verifier::spinoff_prover]
    pub proof fn lemma_body_layout(pre: Seq<u8>, m: CreateDelegationTokenResponseModel, post: Seq<u8>, ctx: Ctx)
        requires
            Self::spec_encode_body(m, ctx) is Ok,
        ensures
            Self::spec_encode_body(m, ctx) == Ok::<Seq<u8>, SerializationError>((i16_bytes(m.error_code)) + ((string_bytes(m.principal_type, ctx.flexible))->Ok_0) + ((string_bytes(m.principal_name, ctx.flexible))->Ok_0) + (if 3 <= ctx.version { (string_bytes(m.token_requester_principal_type, ctx.flexible))->Ok_0 } else { Seq::<u8>::empty() }) + (if 3 <= ctx.version { (string_bytes(m.token_requester_principal_name, ctx.flexible))->Ok_0 } else { Seq::<u8>::empty() }) + (i64_bytes(m.issue_timestamp_ms)) + (i64_bytes(m.expiry_timestamp_ms)) + (i64_bytes(m.max_timestamp_ms)) + ((string_bytes(m.token_id, ctx.flexible))->Ok_0) + ((bytes_bytes(m.hmac, ctx.flexible))->Ok_0) + (i32_bytes(m.throttle_time_ms)) + (if ctx.flexible { uvarint_bytes(0) } else { Seq::<u8>::empty() })),
            Self::reads_back_body(m, ctx) ==> Self::spec_decode_body(pre + ((i16_bytes(m.error_code)) + ((string_bytes(m.principal_type, ctx.flexible))->Ok_0) + ((string_bytes(m.principal_name, ctx.flexible))->Ok_0) + (if 3 <= ctx.version { (string_bytes(m.token_requester_principal_type, ctx.flexible))->Ok_0 } else { Seq::<u8>::empty() }) + (if 3 <= ctx.version { (string_bytes(m.token_requester_principal_name, ctx.flexible))->Ok_0 } else { Seq::<u8>::empty() }) + (i64_bytes(m.issue_timestamp_ms)) + (i64_bytes(m.expiry_timestamp_ms)) + (i64_bytes(m.max_timestamp_ms)) + ((string_bytes(m.token_id, ctx.flexible))->Ok_0) + ((bytes_bytes(m.hmac, ctx.flexible))->Ok_0) + (i32_bytes(m.throttle_time_ms)) + (if ctx.flexible { uvarint_bytes(0) } else { Seq::<u8>::empty() })) + post, pre.len() as int, ctx) == Ok::<(CreateDelegationTokenResponseModel, int), SerializationError>((CreateDelegationTokenResponseModel { error_code: m.error_code, principal_type: m.principal_type, principal_name: m.principal_name, token_requester_principal_type: if 3 <= ctx.version { m.token_requester_principal_type } else { Seq::<char>::empty() }, token_requester_principal_name: if 3 <= ctx.version { m.token_requester_principal_name } else { Seq::<char>::empty() }, issue_timestamp_ms: m.issue_timestamp_ms, expiry_timestamp_ms: m.expiry_timestamp_ms, max_timestamp_ms: m.max_timestamp_ms, token_id: m.token_id, hmac: m.hmac, throttle_time_ms: m.throttle_time_ms }, pre.len() as int + ((i16_bytes(m.error_code)) + ((string_bytes(m.principal_type, ctx.flexible))->Ok_0) + ((string_bytes(m.principal_name, ctx.flexible))->Ok_0) + (if 3 <= ctx.version { (string_bytes(m.token_requester_principal_type, ctx.flexible))->Ok_0 } else { Seq::<u8>::empty() }) + (if 3 <= ctx.version { (string_bytes(m.token_requester_principal_name, ctx.flexible))->Ok_0 } else { Seq::<u8>::empty() }) + (i64_bytes(m.issue_timestamp_ms)) + (i64_bytes(m.expiry_timestamp_ms)) + (i64_bytes(m.max_timestamp_ms)) + ((string_bytes(m.token_id, ctx.flexible))->Ok_0) + ((bytes_bytes(m.hmac, ctx.flexible))->Ok_0) + (i32_bytes(m.throttle_time_ms)) + (if ctx.flexible { uvarint_bytes(0) } else { Seq::<u8>::empty() })).len())),
    {
        let b0 = i16_bytes(m.error_code);
        let b1 = (string_bytes(m.principal_type, ctx.flexible))->Ok_0;
        let b2 = (string_bytes(m.principal_name, ctx.flexible))->Ok_0;
        let b3 = if 3 <= ctx.version { (string_bytes(m.token_requester_principal_type, ctx.flexible))->Ok_0 } else { Seq::<u8>::empty() };
        let b4 = if 3 <= ctx.version { (string_bytes(m.token_requester_principal_name, ctx.flexible))->Ok_0 } else { Seq::<u8>::empty() };
        let b5 = i64_bytes(m.issue_timestamp_ms);
        let b6 = i64_bytes(m.expiry_timestamp_ms);
        let b7 = i64_bytes(m.max_timestamp_ms);
        let b8 = (string_bytes(m.token_id, ctx.flexible))->Ok_0;
        let b9 = (bytes_bytes(m.hmac, ctx.flexible))->Ok_0;
        let b10 = i32_bytes(m.throttle_time_ms);
        let b11 = if ctx.flexible { uvarint_bytes(0) } else { Seq::<u8>::empty() };
        let e = Self::spec_encode_body(m, ctx)->Ok_0;
        let p1 = Self::spec_encode_body_part1(m, ctx)->Ok_0;
        assert(p1 =~= Seq::<u8>::empty() + b0 + b1 + b2 + b3 + b4);
        let p2 = Self::spec_encode_body_part2(m, ctx)->Ok_0;
        assert(p2 =~= Seq::<u8>::empty() + b5 + b6 + b7 + b8 + b9 + b10 + b11);
        assert(e == Seq::<u8>::empty() + p1 + p2);
        assert(e =~= b0 + b1 + b2 + b3 + b4 + b5 + b6 + b7 + b8 + b9 + b10 + b11);
        if Self::reads_back_body(m, ctx) {
            Self::lemma_body_read_back(pre, m, post, ctx);
            reveal(CreateDelegationTokenResponse::spec_read_as);
        }
    }

    /// Writing succeeds exactly when every field that the version carries can be
    /// encoded and every field that it leaves out, where leaving it out is an
    /// error, holds its default.
    #[verifier::spinoff_prover]
    pub proof fn lemma_body_write_succeeds(m: CreateDelegationTokenResponseModel, ctx: Ctx)
        ensures
            Self::spec_encode_body(m, ctx) is Ok <==> (string_bytes(m.principal_type, ctx.flexible) is Ok) && (string_bytes(m.principal_name, ctx.flexible) is Ok) && ((3 <= ctx.version) ==> string_bytes(m.token_requester_principal_type, ctx.flexible) is Ok) && ((3 <= ctx.version) ==> string_bytes(m.token_requester_principal_name, ctx.flexible) is Ok) && (string_bytes(m.token_id, ctx.flexible) is Ok) && (bytes_bytes(m.hmac, ctx.flexible) is Ok),
    {
    }

    /// Writes the structure for `version`, with the compact encodings when `is_flexible`.
    /// On failure the buffer is left as it was.
    pub fn encode(&self, buf: &mut Vec<u8>, version: ApiVersion, is_flexible: bool) -> (r: Result<(), SerializationError>)
        ensures
            write_exact(r, old(buf)@, final(buf)@, Self::spec_encode_body(self.deep_view(), Ctx { version: version.0, flexible: is_flexible, classic: false })),
    {
        let start = buf.len();
        let r = self.encode_ctx(buf, Ctx::new(version, is_flexible));
        if r.is_err() {
            buf.truncate(start);
        }
        r
    }

    /// Reads the structure as written for `version`.
    /// On failure the reader is put back where it started.
    #[verifier::spinoff_prover]
    pub fn decode(buf: &mut Reader, version: ApiVersion, is_flexible: bool) -> (r: Result<Self, SerializationError>)
        ensures
            final(buf).bytes() == old(buf).bytes(),
            read_view_exact(r, Self::spec_decode_body(old(buf).bytes(), old(buf).pos(), Ctx { version: version.0, flexible: is_flexible, classic: false }), old(buf).pos(), final(buf).pos()),
    {
        let start = buf.position();
        let r = Self::decode_ctx(buf, Ctx::new(version, is_flexible));
        if r.is_err() {
            buf.set_position(start);
        }
        r
    }
}

impl KafkaCodec for CreateDelegationTokenResponse {
    open spec fn spec_encode(m: CreateDelegationTokenResponseModel, ctx: Ctx) -> Result<Seq<u8>, SerializationError> {
        Self::spec_encode_body(m, ctx)
    }

    open spec fn spec_decode(s: Seq<u8>, pos: int, ctx: Ctx) -> Result<(CreateDelegationTokenResponseModel, int), SerializationError> {
        Self::spec_decode_body(s, pos, ctx)
    }

    open spec fn reads_back(v: CreateDelegationTokenResponseModel, ctx: Ctx) -> bool {
        Self::reads_back_body(v, ctx) && Self::spec_read_as(v, ctx) == v
    }

    proof fn lemma_read_back(pre: Seq<u8>, v: CreateDelegationTokenResponseModel, post: Seq<u8>, ctx: Ctx) {
        Self::lemma_body_read_back(pre, v, post, ctx);
        assert(Self::spec_decode(pre + Self::spec_encode(v, ctx)->Ok_0 + post, pre.len() as int, ctx)
            == Self::spec_decode_body(pre + Self::spec_encode_body(v, ctx)->Ok_0 + post, pre.len() as int, ctx));
    }

    #[verifier::spinoff_prover]
    fn encode_ctx(&self, buf: &mut Vec<u8>, ctx: Ctx) -> (r: Result<(), SerializationError>) {
        let ghost mut w: Seq<u8> = Seq::empty();
        self.encode_body_part1(buf, ctx)?;
        proof {
            w = w + (Self::spec_encode_body_part1(self.deep_view(), ctx))->Ok_0;
        }
        assert(buf@ =~= old(buf)@ + w);
        self.encode_body_part2(buf, ctx)?;
        proof {
            w = w + (Self::spec_encode_body_part2(self.deep_view(), ctx))->Ok_0;
        }
        assert(buf@ =~= old(buf)@ + w);
        Ok(())
    }

    #[verifier::spinoff_prover]
    fn decode_ctx(buf: &mut Reader, ctx: Ctx) -> (r: Result<Self, SerializationError>) {
        let error_code = buf.get_i16()?;
        let principal_type = buf.get_string(ctx.flexible)?;
        let principal_name = buf.get_string(ctx.flexible)?;
        let token_requester_principal_type = if 3 <= ctx.version {
            buf.get_string(ctx.flexible)?
        } else {
            String::new()
        };
        let token_requester_principal_name = if 3 <= ctx.version {
            buf.get_string(ctx.flexible)?
        } else {
            String::new()
        };
        let issue_timestamp_ms = buf.get_i64()?;
        let expiry_timestamp_ms = buf.get_i64()?;
        let max_timestamp_ms = buf.get_i64()?;
        let token_id = buf.get_string(ctx.flexible)?;
        let hmac = buf.get_bytes(ctx.flexible)?;
        let throttle_time_ms = buf.get_i32()?;
        if ctx.flexible {
            let (_tag_count, _) = decode_unsigned_varint(buf)?;
        }
        Ok(CreateDelegationTokenResponse { error_code, principal_type, principal_name, token_requester_principal_type, token_requester_principal_name, issue_timestamp_ms, expiry_timestamp_ms, max_timestamp_ms, token_id, hmac, throttle_time_ms })
    }
}

impl CreateDelegationTokenResponse {
    /// The API key of this message.
    pub fn get_api_key() -> (r: ApiKey)
        ensures
            r.0 == 38,
    {
        ApiKey::new(38)
    }

    /// The oldest version of this message.
    pub fn get_min_supported_version() -> (r: ApiVersion)
        ensures
            r.0 == 1,
    {
        ApiVersion::new(1)
    }

    /// The newest version of this message.
    pub fn get_max_supported_version() -> (r: ApiVersion)
        ensures
            r.0 == 3,
    {
        ApiVersion::new(3)
    }

    /// The first version of this message with the compact encodings.
    pub fn get_min_flexible_version() -> (r: ApiVersion)
        ensures
            r.0 == 2,
    {
        ApiVersion::new(2)
    }

    /// Fields 1 to 5 of the encoding.
    pub open spec fn spec_serialize_part1(m: CreateDelegationTokenResponseModel, ctx: Ctx) -> Result<Seq<u8>, SerializationError> {
        let r = Ok(Seq::<u8>::empty());
        let r = then(r, Ok(i16_bytes(m.error_code)));
        let r = then(r, string_bytes(m.principal_type, ctx.flexible));
        let r = then(r, string_bytes(m.principal_name, ctx.flexible));
        let r = if 3 <= ctx.version { then(r, string_bytes(m.token_requester_principal_type, ctx.flexible)) } else if m.token_requester_principal_type.len() != 0 { then(r, Err(SerializationError::Encode("field 'TokenRequesterPrincipalType' is not available in this version"))) } else { r };
        let r = if 3 <= ctx.version { then(r, string_bytes(m.token_requester_principal_name, ctx.flexible)) } else if m.token_requester_principal_name.len() != 0 { then(r, Err(SerializationError::Encode("field 'TokenRequesterPrincipalName' is not available in this version"))) } else { r };
        r
    }

    #[verifier::spinoff_prover]
    fn serialize_part1(&self, buf: &mut Vec<u8>, ctx: Ctx) -> (r: Result<(), SerializationError>)
        ensures
            write_ok(r, old(buf)@, final(buf)@, Self::spec_serialize_part1(self.deep_view(), ctx)),
    {
        let ghost mut w: Seq<u8> = Seq::empty();
        put_i16(buf, self.error_code);
        proof {
            w = w + i16_bytes(self.error_code);
        }
        assert(buf@ =~= old(buf)@ + w);
        encode_string(&self.principal_type, buf, ctx.flexible)?;
        proof {
            w = w + (string_bytes(self.principal_type.deep_view(), ctx.flexible))->Ok_0;
        }
        assert(buf@ =~= old(buf)@ + w);
        encode_string(&self.principal_name, buf, ctx.flexible)?;
        proof {
            w = w + (string_bytes(self.principal_name.deep_view(), ctx.flexible))->Ok_0;
        }
        assert(buf@ =~= old(buf)@ + w);
        if 3 <= ctx.version {
            encode_string(&self.token_requester_principal_type, buf, ctx.flexible)?;
            proof {
                w = w + (string_bytes(self.token_requester_principal_type.deep_view(), ctx.flexible))->Ok_0;
            }
            assert(buf@ =~= old(buf)@ + w);
        } else if !self.token_requester_principal_type.as_str().is_empty() {
            return Err(SerializationError::Encode("field 'TokenRequesterPrincipalType' is not available in this version"));
        }
        if 3 <= ctx.version {
            encode_string(&self.token_requester_principal_name, buf, ctx.flexible)?;
            proof {
                w = w + (string_bytes(self.token_requester_principal_name.deep_view(), ctx.flexible))->Ok_0;
            }
            assert(buf@ =~= old(buf)@ + w);
        } else if !self.token_requester_principal_name.as_str().is_empty() {
            return Err(SerializationError::Encode("field 'TokenRequesterPrincipalName' is not available in this version"));
        }
        Ok(())
    }

    /// Fields 6 to 12 of the encoding.
    pub open spec fn spec_serialize_part2(m: CreateDelegationTokenResponseModel, ctx: Ctx) -> Result<Seq<u8>, SerializationError> {
        let r = Ok(Seq::<u8>::empty());
        let r = then(r, Ok(i64_bytes(m.issue_timestamp_ms)));
        let r = then(r, Ok(i64_bytes(m.expiry_timestamp_ms)));
        let r = then(r, Ok(i64_bytes(m.max_timestamp_ms)));
        let r = then(r, string_bytes(m.token_id, ctx.flexible));
        let r = then(r, bytes_bytes(m.hmac, ctx.flexible));
        let r = then(r, Ok(i32_bytes(m.throttle_time_ms)));
        let r = if ctx.flexible { then(r, Ok(uvarint_bytes(0))) } else { r };
        r
    }

    #[verifier::spinoff_prover]
    fn serialize_part2(&self, buf: &mut Vec<u8>, ctx: Ctx) -> (r: Result<(), SerializationError>)
        ensures
            write_ok(r, old(buf)@, final(buf)@, Self::spec_serialize_part2(self.deep_view(), ctx)),
    {
        let ghost mut w: Seq<u8> = Seq::empty();
        put_i64(buf, self.issue_timestamp_ms);
        proof {
            w = w + i64_bytes(self.issue_timestamp_ms);
        }
        assert(buf@ =~= old(buf)@ + w);
        put_i64(buf, self.expiry_timestamp_ms);
        proof {
            w = w + i64_bytes(self.expiry_timestamp_ms);
        }
        assert(buf@ =~= old(buf)@ + w);
        put_i64(buf, self.max_timestamp_ms);
        proof {
            w = w + i64_bytes(self.max_timestamp_ms);
        }
        assert(buf@ =~= old(buf)@ + w);
        encode_string(&self.token_id, buf, ctx.flexible)?;
        proof {
            w = w + (string_bytes(self.token_id.deep_view(), ctx.flexible))->Ok_0;
        }
        assert(buf@ =~= old(buf)@ + w);
        encode_bytes(&self.hmac, buf, ctx.flexible)?;
        proof {
            w = w + (bytes_bytes(self.hmac@, ctx.flexible))->Ok_0;
        }
        assert(buf@ =~= old(buf)@ + w);
        put_i32(buf, self.throttle_time_ms);
        proof {
            w = w + i32_bytes(self.throttle_time_ms);
        }
        assert(buf@ =~= old(buf)@ + w);
        if ctx.flexible {
            encode_unsigned_varint(0, buf);
            proof {
                w = w + uvarint_bytes(0);
            }
            assert(buf@ =~= old(buf)@ + w);
        }
        Ok(())
    }

    /// The encoding of a whole message body at `version`.
    pub open spec fn spec_serialize(m: CreateDelegationTokenResponseModel, version: i16) -> Result<Seq<u8>, SerializationError> {
        let is_flexible = version >= 2;
        let ctx = Ctx { version, flexible: is_flexible, classic: false };
        let r = Ok(Seq::<u8>::empty());
        let r = then(r, Self::spec_serialize_part1(m, ctx));
        let r = then(r, Self::spec_serialize_part2(m, ctx));
        r
    }

    /// The message body read at `version`.
    pub open spec fn spec_deserialize(s: Seq<u8>, pos: int, version: i16) -> Result<(CreateDelegationTokenResponseModel, int), SerializationError> {
        let is_flexible = version >= 2;
        let ctx = Ctx { version, flexible: is_flexible, classic: false };
        match parse_i16(s, pos) {
            Err(e) => Err(e),
            Ok((error_code, pos)) =>
            match parse_string(s, pos, ctx.flexible) {
                Err(e) => Err(e),
                Ok((principal_type, pos)) =>
                match parse_string(s, pos, ctx.flexible) {
                    Err(e) => Err(e),
                    Ok((principal_name, pos)) =>
                    match (if 3 <= ctx.version { parse_string(s, pos, ctx.flexible) } else { Ok((Seq::<char>::empty(), pos)) }) {
                        Err(e) => Err(e),
                        Ok((token_requester_principal_type, pos)) =>
                        match (if 3 <= ctx.version { parse_string(s, pos, ctx.flexible) } else { Ok((Seq::<char>::empty(), pos)) }) {
                            Err(e) => Err(e),
                            Ok((token_requester_principal_name, pos)) =>
                            match parse_i64(s, pos) {
                                Err(e) => Err(e),
                                Ok((issue_timestamp_ms, pos)) =>
                                match parse_i64(s, pos) {
                                    Err(e) => Err(e),
                                    Ok((expiry_timestamp_ms, pos)) =>
                                    match parse_i64(s, pos) {
                                        Err(e) => Err(e),
                                        Ok((max_timestamp_ms, pos)) =>
                                        match parse_string(s, pos, ctx.flexible) {
                                            Err(e) => Err(e),
                                            Ok((token_id, pos)) =>
                                            match parse_bytes(s, pos, ctx.flexible) {
                                                Err(e) => Err(e),
                                                Ok((hmac, pos)) =>
                                                match parse_i32(s, pos) {
                                                    Err(e) => Err(e),
                                                    Ok((throttle_time_ms, pos)) =>
                                                    match (if ctx.flexible { parse_uvarint(s, pos) } else { Ok((0u64, pos)) }) {
                                                        Err(e) => Err(e),
                                                        Ok((_tag_count, pos)) =>
                                                        Ok((CreateDelegationTokenResponseModel { error_code, principal_type, principal_name, token_requester_principal_type, token_requester_principal_name, issue_timestamp_ms, expiry_timestamp_ms, max_timestamp_ms, token_id, hmac, throttle_time_ms }, pos))
                                                    }
                                                }
                                            }
                                        }
                                    }
                                }
                            }
                        }
                    }
                }
            }
        }
    }

    /// Message bodies that read back when written at `version`: nested values read
    /// back. A field that the version leaves out is read as its default.
    pub open spec fn reads_back_message(m: CreateDelegationTokenResponseModel, version: i16) -> bool {
        let is_flexible = version >= 2;
        let ctx = Ctx { version, flexible: is_flexible, classic: false };
        true
    }

    /// A message body that can be written at `version` and reads back: reading a
    /// body at `version` from its bytes, wherever they stand, gives the same message,
    /// with each field that the version leaves out at its default.
    #[verifier::spinoff_prover]
    pub proof fn lemma_message_read_back(pre: Seq<u8>, m: CreateDelegationTokenResponseModel, post: Seq<u8>, version: i16)
        requires
            Self::spec_serialize(m, version) is Ok,
            Self::reads_back_message(m, version),
        ensures
            Self::spec_deserialize(pre + Self::spec_serialize(m, version)->Ok_0 + post, pre.len() as int, version) == Ok::<(CreateDelegationTokenResponseModel, int), SerializationError>((CreateDelegationTokenResponseModel { error_code: m.error_code, principal_type: m.principal_type, principal_name: m.principal_name, token_requester_principal_type: if 3 <= version { m.token_requester_principal_type } else { Seq::<char>::empty() }, token_requester_principal_name: if 3 <= version { m.token_requester_principal_name } else { Seq::<char>::empty() }, issue_timestamp_ms: m.issue_timestamp_ms, expiry_timestamp_ms: m.expiry_timestamp_ms, max_timestamp_ms: m.max_timestamp_ms, token_id: m.token_id, hmac: m.hmac, throttle_time_ms: m.throttle_time_ms }, pre.len() as int + Self::spec_serialize(m, version)->Ok_0.len())),
    {
        let is_flexible = version >= 2;
        let ctx = Ctx { version, flexible: is_flexible, classic: false };
        let b0 = i16_bytes(m.error_code);
        let b1 = (string_bytes(m.principal_type, ctx.flexible))->Ok_0;
        let b2 = (string_bytes(m.principal_name, ctx.flexible))->Ok_0;
        let b3 = if 3 <= ctx.version { (string_bytes(m.token_requester_principal_type, ctx.flexible))->Ok_0 } else { Seq::<u8>::empty() };
        let b4 = if 3 <= ctx.version { (string_bytes(m.token_requester_principal_name, ctx.flexible))->Ok_0 } else { Seq::<u8>::empty() };
        let b5 = i64_bytes(m.issue_timestamp_ms);
        let b6 = i64_bytes(m.expiry_timestamp_ms);
        let b7 = i64_bytes(m.max_timestamp_ms);
        let b8 = (string_bytes(m.token_id, ctx.flexible))->Ok_0;
        let b9 = (bytes_bytes(m.hmac, ctx.flexible))->Ok_0;
        let b10 = i32_bytes(m.throttle_time_ms);
        let b11 = if ctx.flexible { uvarint_bytes(0) } else { Seq::<u8>::empty() };
        let t12 = post;
        let t11 = b11 + t12;
        let t10 = b10 + t11;
        let t9 = b9 + t10;
        let t8 = b8 + t9;
        let t7 = b7 + t8;
        let t6 = b6 + t7;
        let t5 = b5 + t6;
        let t4 = b4 + t5;
        let t3 = b3 + t4;
        let t2 = b2 + t3;
        let t1 = b1 + t2;
        let t0 = b0 + t1;
        let e = Self::spec_serialize(m, version)->Ok_0;
        let p1 = Self::spec_serialize_part1(m, ctx)->Ok_0;
        assert(p1 =~= Seq::<u8>::empty() + b0 + b1 + b2 + b3 + b4);
        lemma_seq_assoc(((((Seq::<u8>::empty() + b0) + b1) + b2) + b3), b4, t5);
        lemma_seq_assoc((((Seq::<u8>::empty() + b0) + b1) + b2), b3, (b4 + t5));
        lemma_seq_assoc(((Seq::<u8>::empty() + b0) + b1), b2, (b3 + (b4 + t5)));
        lemma_seq_assoc((Seq::<u8>::empty() + b0), b1, (b2 + (b3 + (b4 + t5))));
        lemma_seq_assoc(Seq::<u8>::empty(), b0, (b1 + (b2 + (b3 + (b4 + t5)))));
        lemma_seq_empty_left((b0 + (b1 + (b2 + (b3 + (b4 + t5))))));
        let p2 = Self::spec_serialize_part2(m, ctx)->Ok_0;
        assert(p2 =~= Seq::<u8>::empty() + b5 + b6 + b7 + b8 + b9 + b10 + b11);
        lemma_seq_assoc(((((((Seq::<u8>::empty() + b5) + b6) + b7) + b8) + b9) + b10), b11, t12);
        lemma_seq_assoc((((((Seq::<u8>::empty() + b5) + b6) + b7) + b8) + b9), b10, (b11 + t12));
        lemma_seq_assoc(((((Seq::<u8>::empty() + b5) + b6) + b7) + b8), b9, (b10 + (b11 + t12)));
        lemma_seq_assoc((((Seq::<u8>::empty() + b5) + b6) + b7), b8, (b9 + (b10 + (b11 + t12))));
        lemma_seq_assoc(((Seq::<u8>::empty() + b5) + b6), b7, (b8 + (b9 + (b10 + (b11 + t12)))));
        lemma_seq_assoc((Seq::<u8>::empty() + b5), b6, (b7 + (b8 + (b9 + (b10 + (b11 + t12))))));
        lemma_seq_assoc(Seq::<u8>::empty(), b5, (b6 + (b7 + (b8 + (b9 + (b10 + (b11 + t12)))))));
        lemma_seq_empty_left((b5 + (b6 + (b7 + (b8 + (b9 + (b10 + (b11 + t12))))))));
        assert(e == Seq::<u8>::empty() + p1 + p2);
        lemma_seq_assoc((Seq::<u8>::empty() + p1), p2, t12);
        lemma_seq_assoc(Seq::<u8>::empty(), p1, (p2 + t12));
        lemma_seq_empty_left((p1 + (p2 + t12)));
        let s = pre + e + post;
        lemma_seq_assoc(pre, e, post);
        assert(s == pre + t0);
        let a0 = pre;
        assert(parse_i16(s, a0.len() as int) == Ok::<(i16, int), SerializationError>((m.error_code, a0.len() as int + b0.len()))) by {
            lemma_seq_assoc(a0, b0, t1);
            lemma_i16_roundtrip(a0, m.error_code, t1);
        }
        lemma_seq_assoc(a0, b0, t1);
        let a1 = a0 + b0;
        assert(parse_string(s, a1.len() as int, ctx.flexible) == Ok::<(Seq<char>, int), SerializationError>((m.principal_type, a1.len() as int + b1.len()))) by {
            assert(string_bytes(m.principal_type, ctx.flexible) is Ok);
            lemma_seq_assoc(a1, b1, t2);
            lemma_string_roundtrip(a1, m.principal_type, t2, ctx.flexible);
        }
        lemma_seq_assoc(a1, b1, t2);
        let a2 = a1 + b1;
        assert(parse_string(s, a2.len() as int, ctx.flexible) == Ok::<(Seq<char>, int), SerializationError>((m.principal_name, a2.len() as int + b2.len()))) by {
            assert(string_bytes(m.principal_name, ctx.flexible) is Ok);
            lemma_seq_assoc(a2, b2, t3);
            lemma_string_roundtrip(a2, m.principal_name, t3, ctx.flexible);
        }
        lemma_seq_assoc(a2, b2, t3);
        let a3 = a2 + b2;
        if 3 <= ctx.version {
            assert(parse_string(s, a3.len() as int, ctx.flexible) == Ok::<(Seq<char>, int), SerializationError>((m.token_requester_principal_type, a3.len() as int + b3.len()))) by {
                assert(string_bytes(m.token_requester_principal_type, ctx.flexible) is Ok);
                lemma_seq_assoc(a3, b3, t4);
                lemma_string_roundtrip(a3, m.token_requester_principal_type, t4, ctx.flexible);
            }
        }
        lemma_seq_assoc(a3, b3, t4);
        let a4 = a3 + b3;
        if 3 <= ctx.version {
            assert(parse_string(s, a4.len() as int, ctx.flexible) == Ok::<(Seq<char>, int), SerializationError>((m.token_requester_principal_name, a4.len() as int + b4.len()))) by {
                assert(string_bytes(m.token_requester_principal_name, ctx.flexible) is Ok);
                lemma_seq_assoc(a4, b4, t5);
                lemma_string_roundtrip(a4, m.token_requester_principal_name, t5, ctx.flexible);
            }
        }
        lemma_seq_assoc(a4, b4, t5);
        let a5 = a4 + b4;
        assert(parse_i64(s, a5.len() as int) == Ok::<(i64, int), SerializationError>((m.issue_timestamp_ms, a5.len() as int + b5.len()))) by {
            lemma_seq_assoc(a5, b5, t6);
            lemma_i64_roundtrip(a5, m.issue_timestamp_ms, t6);
        }
        lemma_seq_assoc(a5, b5, t6);
        let a6 = a5 + b5;
        assert(parse_i64(s, a6.len() as int) == Ok::<(i64, int), SerializationError>((m.expiry_timestamp_ms, a6.len() as int + b6.len()))) by {
            lemma_seq_assoc(a6, b6, t7);
            lemma_i64_roundtrip(a6, m.expiry_timestamp_ms, t7);
        }
        lemma_seq_assoc(a6, b6, t7);
        let a7 = a6 + b6;
        assert(parse_i64(s, a7.len() as int) == Ok::<(i64, int), SerializationError>((m.max_timestamp_ms, a7.len() as int + b7.len()))) by {
            lemma_seq_assoc(a7, b7, t8);
            lemma_i64_roundtrip(a7, m.max_timestamp_ms, t8);
        }
        lemma_seq_assoc(a7, b7, t8);
        let a8 = a7 + b7;
        assert(parse_string(s, a8.len() as int, ctx.flexible) == Ok::<(Seq<char>, int), SerializationError>((m.token_id, a8.len() as int + b8.len()))) by {
            assert(string_bytes(m.token_id, ctx.flexible) is Ok);
            lemma_seq_assoc(a8, b8, t9);
            lemma_string_roundtrip(a8, m.token_id, t9, ctx.flexible);
        }
        lemma_seq_assoc(a8, b8, t9);
        let a9 = a8 + b8;
        assert(parse_bytes(s, a9.len() as int, ctx.flexible) == Ok::<(Seq<u8>, int), SerializationError>((m.hmac, a9.len() as int + b9.len()))) by {
            assert(bytes_bytes(m.hmac, ctx.flexible) is Ok);
            lemma_seq_assoc(a9, b9, t10);
            lemma_bytes_roundtrip(a9, m.hmac, t10, ctx.flexible);
        }
        lemma_seq_assoc(a9, b9, t10);
        let a10 = a9 + b9;
        assert(parse_i32(s, a10.len() as int) == Ok::<(i32, int), SerializationError>((m.throttle_time_ms, a10.len() as int + b10.len()))) by {
            lemma_seq_assoc(a10, b10, t11);
            lemma_i32_roundtrip(a10, m.throttle_time_ms, t11);
        }
        lemma_seq_assoc(a10, b10, t11);
        let a11 = a10 + b10;
        if ctx.flexible {
            assert(parse_uvarint(s, a11.len() as int) == Ok::<(u64, int), SerializationError>((0u64, a11.len() as int + b11.len()))) by {
                lemma_seq_assoc(a11, b11, t12);
                lemma_uvarint_roundtrip(a11, 0, t12);
            }
        }
    }

    /// The bytes written: the encoding of each field, in the order of the
    /// protocol's layout. Reading them back, wherever they stand, gives the value,
    /// with each field that the version leaves out at its default.
    #[verifier::spinoff_prover]
    pub proof fn lemma_message_layout(pre: Seq<u8>, m: CreateDelegationTokenResponseModel, post: Seq<u8>, version: i16)
        requires
            Self::spec_serialize(m, version) is Ok,
        ensures
            Self::spec_serialize(m, version) == Ok::<Seq<u8>, SerializationError>((i16_bytes(m.error_code)) + ((string_bytes(m.principal_type, (version >= 2)))->Ok_0) + ((string_bytes(m.principal_name, (version >= 2)))->Ok_0) + (if 3 <= version { (string_bytes(m.token_requester_principal_type, (version >= 2)))->Ok_0 } else { Seq::<u8>::empty() }) + (if 3 <= version { (string_bytes(m.token_requester_principal_name, (version >= 2)))->Ok_0 } else { Seq::<u8>::empty() }) + (i64_bytes(m.issue_timestamp_ms)) + (i64_bytes(m.expiry_timestamp_ms)) + (i64_bytes(m.max_timestamp_ms)) + ((string_bytes(m.token_id, (version >= 2)))->Ok_0) + ((bytes_bytes(m.hmac, (version >= 2)))->Ok_0) + (i32_bytes(m.throttle_time_ms)) + (if (version >= 2) { uvarint_bytes(0) } else { Seq::<u8>::empty() })),
            Self::reads_back_message(m, version) ==> Self::spec_deserialize(pre + ((i16_bytes(m.error_code)) + ((string_bytes(m.principal_type, (version >= 2)))->Ok_0) + ((string_bytes(m.principal_name, (version >= 2)))->Ok_0) + (if 3 <= version { (string_bytes(m.token_requester_principal_type, (version >= 2)))->Ok_0 } else { Seq::<u8>::empty() }) + (if 3 <= version { (string_bytes(m.token_requester_principal_name, (version >= 2)))->Ok_0 } else { Seq::<u8>::empty() }) + (i64_bytes(m.issue_timestamp_ms)) + (i64_bytes(m.expiry_timestamp_ms)) + (i64_bytes(m.max_timestamp_ms)) + ((string_bytes(m.token_id, (version >= 2)))->Ok_0) + ((bytes_bytes(m.hmac, (version >= 2)))->Ok_0) + (i32_bytes(m.throttle_time_ms)) + (if (version >= 2) { uvarint_bytes(0) } else { Seq::<u8>::empty() })) + post, pre.len() as int, version) == Ok::<(CreateDelegationTokenResponseModel, int), SerializationError>((CreateDelegationTokenResponseModel { error_code: m.error_code, principal_type: m.principal_type, principal_name: m.principal_name, token_requester_principal_type: if 3 <= version { m.token_requester_principal_type } else { Seq::<char>::empty() }, token_requester_principal_name: if 3 <= version { m.token_requester_principal_name } else { Seq::<char>::empty() }, issue_timestamp_ms: m.issue_timestamp_ms, expiry_timestamp_ms: m.expiry_timestamp_ms, max_timestamp_ms: m.max_timestamp_ms, token_id: m.token_id, hmac: m.hmac, throttle_time_ms: m.throttle_time_ms }, pre.len() as int + ((i16_bytes(m.error_code)) + ((string_bytes(m.principal_type, (version >= 2)))->Ok_0) + ((string_bytes(m.principal_name, (version >= 2)))->Ok_0) + (if 3 <= version { (string_bytes(m.token_requester_principal_type, (version >= 2)))->Ok_0 } else { Seq::<u8>::empty() }) + (if 3 <= version { (string_bytes(m.token_requester_principal_name, (version >= 2)))->Ok_0 } else { Seq::<u8>::empty() }) + (i64_bytes(m.issue_timestamp_ms)) + (i64_bytes(m.expiry_timestamp_ms)) + (i64_bytes(m.max_timestamp_ms)) + ((string_bytes(m.token_id, (version >= 2)))->Ok_0) + ((bytes_bytes(m.hmac, (version >= 2)))->Ok_0) + (i32_bytes(m.throttle_time_ms)) + (if (version >= 2) { uvarint_bytes(0) } else { Seq::<u8>::empty() })).len())),
    {
        let is_flexible = version >= 2;
        let ctx = Ctx { version, flexible: is_flexible, classic: false };
        let b0 = i16_bytes(m.error_code);
        let b1 = (string_bytes(m.principal_type, ctx.flexible))->Ok_0;
        let b2 = (string_bytes(m.principal_name, ctx.flexible))->Ok_0;
        let b3 = if 3 <= ctx.version { (string_bytes(m.token_requester_principal_type, ctx.flexible))->Ok_0 } else { Seq::<u8>::empty() };
        let b4 = if 3 <= ctx.version { (string_bytes(m.token_requester_principal_name, ctx.flexible))->Ok_0 } else { Seq::<u8>::empty() };
        let b5 = i64_bytes(m.issue_timestamp_ms);
        let b6 = i64_bytes(m.expiry_timestamp_ms);
        let b7 = i64_bytes(m.max_timestamp_ms);
        let b8 = (string_bytes(m.token_id, ctx.flexible))->Ok_0;
        let b9 = (bytes_bytes(m.hmac, ctx.flexible))->Ok_0;
        let b10 = i32_bytes(m.throttle_time_ms);
        let b11 = if ctx.flexible { uvarint_bytes(0) } else { Seq::<u8>::empty() };
        let e = Self::spec_serialize(m, version)->Ok_0;
        let p1 = Self::spec_serialize_part1(m, ctx)->Ok_0;
        assert(p1 =~= Seq::<u8>::empty() + b0 + b1 + b2 + b3 + b4);
        let p2 = Self::spec_serialize_part2(m, ctx)->Ok_0;
        assert(p2 =~= Seq::<u8>::empty() + b5 + b6 + b7 + b8 + b9 + b10 + b11);
        assert(e == Seq::<u8>::empty() + p1 + p2);
        assert(e =~= b0 + b1 + b2 + b3 + b4 + b5 + b6 + b7 + b8 + b9 + b10 + b11);
        if Self::reads_back_message(m, version) {
            Self::lemma_message_read_back(pre, m, post, version);
        }
    }

    /// Writing succeeds exactly when every field that the version carries can be
    /// encoded and every field that it leaves out, where leaving it out is an
    /// error, holds its default.
    #[verifier::spinoff_prover]
    pub proof fn lemma_message_write_succeeds(m: CreateDelegationTokenResponseModel, version: i16)
        ensures
            Self::spec_serialize(m, version) is Ok <==> (string_bytes(m.principal_type, (version >= 2)) is Ok) && (string_bytes(m.principal_name, (version >= 2)) is Ok) && ((3 <= version) ==> string_bytes(m.token_requester_principal_type, (version >= 2)) is Ok) && (!(3 <= version) ==> !(m.token_requester_principal_type.len() != 0)) && ((3 <= version) ==> string_bytes(m.token_requester_principal_name, (version >= 2)) is Ok) && (!(3 <= version) ==> !(m.token_requester_principal_name.len() != 0)) && (string_bytes(m.token_id, (version >= 2)) is Ok) && (bytes_bytes(m.hmac, (version >= 2)) is Ok),
    {
        let is_flexible = version >= 2;
        let ctx = Ctx { version, flexible: is_flexible, classic: false };
    }

    /// Writes the message body for `version`, which must be a supported version.
    /// On failure the buffer is left as it was.
    pub fn serialize(&self, version: ApiVersion, buf: &mut Vec<u8>) -> (r: Result<(), SerializationError>)
        requires
            1 <= version.0 <= 3,
        ensures
            write_exact(r, old(buf)@, final(buf)@, Self::spec_serialize(self.deep_view(), version.0)),
    {
        let start = buf.len();
        let r = self.write_body(version, buf);
        if r.is_err() {
            buf.truncate(start);
        }
        r
    }

    #[verifier::spinoff_prover]
    fn write_body(&self, version: ApiVersion, buf: &mut Vec<u8>) -> (r: Result<(), SerializationError>)
        requires
            1 <= version.0 <= 3,
        ensures
            write_ok(r, old(buf)@, final(buf)@, Self::spec_serialize(self.deep_view(), version.0)),
    {
        let is_flexible = version.0 >= Self::get_min_flexible_version().0;
        let ctx = Ctx::new(version, is_flexible);
        let ghost mut w: Seq<u8> = Seq::empty();
        self.serialize_part1(buf, ctx)?;
        proof {
            w = w + (Self::spec_serialize_part1(self.deep_view(), ctx))->Ok_0;
        }
        assert(buf@ =~= old(buf)@ + w);
        self.serialize_part2(buf, ctx)?;
        proof {
            w = w + (Self::spec_serialize_part2(self.deep_view(), ctx))->Ok_0;
        }
        assert(buf@ =~= old(buf)@ + w);
        Ok(())
    }

    /// Reads a message body written for `version`.
    /// On failure the reader is put back where it started.
    #[verifier::spinoff_prover]
    pub fn deserialize(version: ApiVersion, buf: &mut Reader) -> (r: Result<Self, SerializationError>)
        ensures
            final(buf).bytes() == old(buf).bytes(),
            read_view_exact(r, Self::spec_deserialize(old(buf).bytes(), old(buf).pos(), version.0), old(buf).pos(), final(buf).pos()),
    {
        let start = buf.position();
        let r = Self::read_body(version, buf);
        if r.is_err() {
            buf.set_position(start);
        }
        r
    }

    fn read_body(version: ApiVersion, buf: &mut Reader) -> (r: Result<Self, SerializationError>)
        ensures
            final(buf).bytes() == old(buf).bytes(),
            read_view_ok(r, Self::spec_deserialize(old(buf).bytes(), old(buf).pos(), version.0), final(buf).pos()),
    {
        let is_flexible = version.0 >= Self::get_min_flexible_version().0;
        let ctx = Ctx::new(version, is_flexible);
        let error_code = buf.get_i16()?;
        let principal_type = buf.get_string(ctx.flexible)?;
        let principal_name = buf.get_string(ctx.flexible)?;
        let token_requester_principal_type = if 3 <= ctx.version {
            buf.get_string(ctx.flexible)?
        } else {
            String::new()
        };
        let token_requester_principal_name = if 3 <= ctx.version {
            buf.get_string(ctx.flexible)?
        } else {
            String::new()
        };
        let issue_timestamp_ms = buf.get_i64()?;
        let expiry_timestamp_ms = buf.get_i64()?;
        let max_timestamp_ms = buf.get_i64()?;
        let token_id = buf.get_string(ctx.flexible)?;
        let hmac = buf.get_bytes(ctx.flexible)?;
        let throttle_time_ms = buf.get_i32()?;
        if ctx.flexible {
            let (_tag_count, _) = decode_unsigned_varint(buf)?;
        }
        Ok(CreateDelegationTokenResponse { error_code, principal_type, principal_name, token_requester_principal_type, token_requester_principal_name, issue_timestamp_ms, expiry_timestamp_ms, max_timestamp_ms, token_id, hmac, throttle_time_ms })
    }
}

} // verus!
