//! ApiVersionsResponse (API key 18).
use vstd::prelude::*;
use crate::roundtrip::{lemma_array_roundtrip, lemma_bool_roundtrip, lemma_i16_roundtrip,
    lemma_i32_roundtrip, lemma_i64_roundtrip, lemma_items_read_back, lemma_seq_assoc,
    lemma_seq_empty_left, lemma_string_roundtrip, lemma_uvarint_roundtrip};
use crate::serialization::{Ctx, KafkaCodec, Reader, SerializationError, array_bytes, bool_bytes,
    decode_array, decode_unsigned_varint, encode_array, encode_string, encode_unsigned_varint,
    i16_bytes, i32_bytes, i64_bytes, new_array, parse_array, parse_bool, parse_i16, parse_i32,
    parse_i64, parse_string, parse_uvarint, put_bool, put_i16, put_i32, put_i64, read_view_exact,
    read_view_ok, string_bytes, then, uvarint_bytes, write_exact, write_ok};
use crate::{ApiKey, ApiVersion as ApiVer};

verus! {

// -------------------------------------------------------
// ApiVersionsResponse
// -------------------------------------------------------
#[derive(Clone, Debug, Default, PartialEq)]
pub struct ApiVersionsResponse {
    /// The top-level error code.
    pub error_code: i16,
    /// The APIs supported by the broker.
    pub api_keys: Vec<ApiVersion>,
    /// The duration in milliseconds for which the request was throttled due to a quota violation, or zero if the request did not violate any quota.
    /// Available in version 1+.
    pub throttle_time_ms: i32,
    /// Features supported by the broker. Note: in v0-v3, features with MinSupportedVersion = 0 are omitted.
    /// Available in version 3+.
    pub supported_features: Vec<SupportedFeatureKey>,
    /// The monotonically increasing epoch for the finalized features information. Valid values are >= 0. A value of -1 is special and represents unknown epoch.
    /// Available in version 3+.
    pub finalized_features_epoch: i64,
    /// List of cluster-wide finalized features. The information is valid only if FinalizedFeaturesEpoch >= 0.
    /// Available in version 3+.
    pub finalized_features: Vec<FinalizedFeatureKey>,
    /// Set by a KRaft controller if the required configurations for ZK migration are present.
    /// Available in version 3+.
    pub zk_migration_ready: bool,
}

/// The contents of `ApiVersionsResponse`, with strings as characters and
/// nested values by their contents.
pub struct ApiVersionsResponseModel {
    pub error_code: i16,
    pub api_keys: Seq<<ApiVersion as DeepView>::V>,
    pub throttle_time_ms: i32,
    pub supported_features: Seq<<SupportedFeatureKey as DeepView>::V>,
    pub finalized_features_epoch: i64,
    pub finalized_features: Seq<<FinalizedFeatureKey as DeepView>::V>,
    pub zk_migration_ready: bool,
}

impl DeepView for ApiVersionsResponse {
    type V = ApiVersionsResponseModel;

    open spec fn deep_view(&self) -> ApiVersionsResponseModel {
        ApiVersionsResponseModel {
            error_code: self.error_code,
            api_keys: self.api_keys.deep_view(),
            throttle_time_ms: self.throttle_time_ms,
            supported_features: self.supported_features.deep_view(),
            finalized_features_epoch: self.finalized_features_epoch,
            finalized_features: self.finalized_features.deep_view(),
            zk_migration_ready: self.zk_migration_ready,
        }
    }
}

impl ApiVersionsResponse {
    /// Fields 1 to 5 of the encoding.
    pub open spec fn spec_encode_body_part1(m: ApiVersionsResponseModel, ctx: Ctx) -> Result<Seq<u8>, SerializationError> {
        let r = Ok(Seq::<u8>::empty());
        let r = then(r, Ok(i16_bytes(m.error_code)));
        let r = then(r, array_bytes::<ApiVersion>(m.api_keys, Ctx { version: ctx.version, flexible: ctx.flexible, classic: false }));
        let r = if 1 <= ctx.version { then(r, Ok(i32_bytes(m.throttle_time_ms))) } else { r };
        let r = if 3 <= ctx.version { then(r, array_bytes::<SupportedFeatureKey>(m.supported_features, Ctx { version: ctx.version, flexible: ctx.flexible, classic: false })) } else { r };
        let r = if 3 <= ctx.version { then(r, Ok(i64_bytes(m.finalized_features_epoch))) } else { r };
        r
    }

    #[verifier::spinoff_prover]
    fn encode_body_part1(&self, buf: &mut Vec<u8>, ctx: Ctx) -> (r: Result<(), SerializationError>)
        ensures
            write_ok(r, old(buf)@, final(buf)@, Self::spec_encode_body_part1(self.deep_view(), ctx)),
    {
        let ghost mut w: Seq<u8> = Seq::empty();
        put_i16(buf, self.error_code);
        proof {
            w = w + i16_bytes(self.error_code);
        }
        assert(buf@ =~= old(buf)@ + w);
        encode_array(&self.api_keys, buf, Ctx { version: ctx.version, flexible: ctx.flexible, classic: false })?;
        proof {
            w = w + (array_bytes::<ApiVersion>(self.api_keys.deep_view(), Ctx { version: ctx.version, flexible: ctx.flexible, classic: false }))->Ok_0;
        }
        assert(buf@ =~= old(buf)@ + w);
        if 1 <= ctx.version {
            put_i32(buf, self.throttle_time_ms);
            proof {
                w = w + i32_bytes(self.throttle_time_ms);
            }
            assert(buf@ =~= old(buf)@ + w);
        }
        if 3 <= ctx.version {
            encode_array(&self.supported_features, buf, Ctx { version: ctx.version, flexible: ctx.flexible, classic: false })?;
            proof {
                w = w + (array_bytes::<SupportedFeatureKey>(self.supported_features.deep_view(), Ctx { version: ctx.version, flexible: ctx.flexible, classic: false }))->Ok_0;
            }
            assert(buf@ =~= old(buf)@ + w);
        }
        if 3 <= ctx.version {
            put_i64(buf, self.finalized_features_epoch);
            proof {
                w = w + i64_bytes(self.finalized_features_epoch);
            }
            assert(buf@ =~= old(buf)@ + w);
        }
        Ok(())
    }

    /// Fields 6 to 8 of the encoding.
    pub open spec fn spec_encode_body_part2(m: ApiVersionsResponseModel, ctx: Ctx) -> Result<Seq<u8>, SerializationError> {
        let r = Ok(Seq::<u8>::empty());
        let r = if 3 <= ctx.version { then(r, array_bytes::<FinalizedFeatureKey>(m.finalized_features, Ctx { version: ctx.version, flexible: ctx.flexible, classic: false })) } else { r };
        let r = if 3 <= ctx.version { then(r, Ok(bool_bytes(m.zk_migration_ready))) } else { r };
        let r = if ctx.flexible { then(r, Ok(uvarint_bytes(0))) } else { r };
        r
    }

    #[verifier::spinoff_prover]
    fn encode_body_part2(&self, buf: &mut Vec<u8>, ctx: Ctx) -> (r: Result<(), SerializationError>)
        ensures
            write_ok(r, old(buf)@, final(buf)@, Self::spec_encode_body_part2(self.deep_view(), ctx)),
    {
        let ghost mut w: Seq<u8> = Seq::empty();
        if 3 <= ctx.version {
            encode_array(&self.finalized_features, buf, Ctx { version: ctx.version, flexible: ctx.flexible, classic: false })?;
            proof {
                w = w + (array_bytes::<FinalizedFeatureKey>(self.finalized_features.deep_view(), Ctx { version: ctx.version, flexible: ctx.flexible, classic: false }))->Ok_0;
            }
            assert(buf@ =~= old(buf)@ + w);
        }
        if 3 <= ctx.version {
            put_bool(buf, self.zk_migration_ready);
            proof {
                w = w + bool_bytes(self.zk_migration_ready);
            }
            assert(buf@ =~= old(buf)@ + w);
        }
        if ctx.flexible {
            encode_unsigned_varint(0, buf);
            proof {
                w = w + uvarint_bytes(0);
            }
            assert(buf@ =~= old(buf)@ + w);
        }
        Ok(())
    }

    /// The encoding of the structure in context `ctx`.
    pub open spec fn spec_encode_body(m: ApiVersionsResponseModel, ctx: Ctx) -> Result<Seq<u8>, SerializationError> {
        let r = Ok(Seq::<u8>::empty());
        let r = then(r, Self::spec_encode_body_part1(m, ctx));
        let r = then(r, Self::spec_encode_body_part2(m, ctx));
        r
    }

    /// The structure read from `s` at `pos` in context `ctx`.
    pub open spec fn spec_decode_body(s: Seq<u8>, pos: int, ctx: Ctx) -> Result<(ApiVersionsResponseModel, int), SerializationError> {
        match parse_i16(s, pos) {
            Err(e) => Err(e),
            Ok((error_code, pos)) =>
            match parse_array::<ApiVersion>(s, pos, Ctx { version: ctx.version, flexible: ctx.flexible, classic: false }) {
                Err(e) => Err(e),
                Ok((api_keys, pos)) =>
                match (if 1 <= ctx.version { parse_i32(s, pos) } else { Ok((0i32, pos)) }) {
                    Err(e) => Err(e),
                    Ok((throttle_time_ms, pos)) =>
                    match (if 3 <= ctx.version { parse_array::<SupportedFeatureKey>(s, pos, Ctx { version: ctx.version, flexible: ctx.flexible, classic: false }) } else { Ok((Seq::<<SupportedFeatureKey as DeepView>::V>::empty(), pos)) }) {
                        Err(e) => Err(e),
                        Ok((supported_features, pos)) =>
                        match (if 3 <= ctx.version { parse_i64(s, pos) } else { Ok((0i64, pos)) }) {
                            Err(e) => Err(e),
                            Ok((finalized_features_epoch, pos)) =>
                            match (if 3 <= ctx.version { parse_array::<FinalizedFeatureKey>(s, pos, Ctx { version: ctx.version, flexible: ctx.flexible, classic: false }) } else { Ok((Seq::<<FinalizedFeatureKey as DeepView>::V>::empty(), pos)) }) {
                                Err(e) => Err(e),
                                Ok((finalized_features, pos)) =>
                                match (if 3 <= ctx.version { parse_bool(s, pos) } else { Ok((false, pos)) }) {
                                    Err(e) => Err(e),
                                    Ok((zk_migration_ready, pos)) =>
                                    match (if ctx.flexible { parse_uvarint(s, pos) } else { Ok((0u64, pos)) }) {
                                        Err(e) => Err(e),
                                        Ok((_tag_count, pos)) =>
                                        Ok((ApiVersionsResponseModel { error_code, api_keys, throttle_time_ms, supported_features, finalized_features_epoch, finalized_features, zk_migration_ready }, pos))
                                    }
                                }
                            }
                        }
                    }
                }
            }
        }
    }

    /// The structure as it reads back in context `ctx`: each field that the
    /// version leaves out is at its default.
    #[verifier::opaque]
    pub open spec fn spec_read_as(m: ApiVersionsResponseModel, ctx: Ctx) -> ApiVersionsResponseModel {
        ApiVersionsResponseModel { error_code: m.error_code, api_keys: m.api_keys, throttle_time_ms: if 1 <= ctx.version { m.throttle_time_ms } else { 0i32 }, supported_features: if 3 <= ctx.version { m.supported_features } else { Seq::<<SupportedFeatureKey as DeepView>::V>::empty() }, finalized_features_epoch: if 3 <= ctx.version { m.finalized_features_epoch } else { 0i64 }, finalized_features: if 3 <= ctx.version { m.finalized_features } else { Seq::<<FinalizedFeatureKey as DeepView>::V>::empty() }, zk_migration_ready: if 3 <= ctx.version { m.zk_migration_ready } else { false } }
    }

    /// Values that read back in context `ctx`: nested values read back. A field
    /// that the version leaves out is read as its default.
    pub open spec fn reads_back_body(m: ApiVersionsResponseModel, ctx: Ctx) -> bool {
        &&& forall|i: int| 0 <= i < m.api_keys.len() ==> #[trigger] <ApiVersion as KafkaCodec>::reads_back(m.api_keys[i], Ctx { version: ctx.version, flexible: ctx.flexible, classic: false })
        &&& (3 <= ctx.version) ==> forall|i: int| 0 <= i < m.supported_features.len() ==> #[trigger] <SupportedFeatureKey as KafkaCodec>::reads_back(m.supported_features[i], Ctx { version: ctx.version, flexible: ctx.flexible, classic: false })
        &&& (3 <= ctx.version) ==> forall|i: int| 0 <= i < m.finalized_features.len() ==> #[trigger] <FinalizedFeatureKey as KafkaCodec>::reads_back(m.finalized_features[i], Ctx { version: ctx.version, flexible: ctx.flexible, classic: false })
    }

    /// A value that can be written in context `ctx` and reads back: decoding its
    /// encoding, wherever it stands, gives the value as `spec_read_as` gives it and
    /// the position just after it.
    #[verifier::spinoff_prover]
    pub proof fn lemma_body_read_back(pre: Seq<u8>, m: ApiVersionsResponseModel, post: Seq<u8>, ctx: Ctx)
        requires
            Self::spec_encode_body(m, ctx) is Ok,
            Self::reads_back_body(m, ctx),
        ensures
            Self::spec_decode_body(pre + Self::spec_encode_body(m, ctx)->Ok_0 + post, pre.len() as int, ctx) == Ok::<(ApiVersionsResponseModel, int), SerializationError>((Self::spec_read_as(m, ctx), pre.len() as int + Self::spec_encode_body(m, ctx)->Ok_0.len())),
    {
        reveal(ApiVersionsResponse::spec_read_as);
        let b0 = i16_bytes(m.error_code);
        let b1 = (array_bytes::<ApiVersion>(m.api_keys, Ctx { version: ctx.version, flexible: ctx.flexible, classic: false }))->Ok_0;
        let b2 = if 1 <= ctx.version { i32_bytes(m.throttle_time_ms) } else { Seq::<u8>::empty() };
        let b3 = if 3 <= ctx.version { (array_bytes::<SupportedFeatureKey>(m.supported_features, Ctx { version: ctx.version, flexible: ctx.flexible, classic: false }))->Ok_0 } else { Seq::<u8>::empty() };
        let b4 = if 3 <= ctx.version { i64_bytes(m.finalized_features_epoch) } else { Seq::<u8>::empty() };
        let b5 = if 3 <= ctx.version { (array_bytes::<FinalizedFeatureKey>(m.finalized_features, Ctx { version: ctx.version, flexible: ctx.flexible, classic: false }))->Ok_0 } else { Seq::<u8>::empty() };
        let b6 = if 3 <= ctx.version { bool_bytes(m.zk_migration_ready) } else { Seq::<u8>::empty() };
        let b7 = if ctx.flexible { uvarint_bytes(0) } else { Seq::<u8>::empty() };
        let t8 = post;
        let t7 = b7 + t8;
        let t6 = b6 + t7;
        let t5 = b5 + t6;
        let t4 = b4 + t5;
        let t3 = b3 + t4;
        let t2 = b2 + t3;
        let t1 = b1 + t2;
        let t0 = b0 + t1;
        let e = Self::spec_encode_body(m, ctx)->Ok_0;
        let p1 = Self::spec_encode_body_part1(m, ctx)->Ok_0;
        assert(p1 =~= Seq::<u8>::empty() + b0 + b1 + b2 + b3 + b4);
        lemma_seq_assoc(((((Seq::<u8>::empty() + b0) + b1) + b2) + b3), b4, t5);
        lemma_seq_assoc((((Seq::<u8>::empty() + b0) + b1) + b2), b3, (b4 + t5));
        lemma_seq_assoc(((Seq::<u8>::empty() + b0) + b1), b2, (b3 + (b4 + t5)));
        lemma_seq_assoc((Seq::<u8>::empty() + b0), b1, (b2 + (b3 + (b4 + t5))));
        lemma_seq_assoc(Seq::<u8>::empty(), b0, (b1 + (b2 + (b3 + (b4 + t5)))));
        lemma_seq_empty_left((b0 + (b1 + (b2 + (b3 + (b4 + t5))))));
        let p2 = Self::spec_encode_body_part2(m, ctx)->Ok_0;
        assert(p2 =~= Seq::<u8>::empty() + b5 + b6 + b7);
        lemma_seq_assoc(((Seq::<u8>::empty() + b5) + b6), b7, t8);
        lemma_seq_assoc((Seq::<u8>::empty() + b5), b6, (b7 + t8));
        lemma_seq_assoc(Seq::<u8>::empty(), b5, (b6 + (b7 + t8)));
        lemma_seq_empty_left((b5 + (b6 + (b7 + t8))));
        assert(e == Seq::<u8>::empty() + p1 + p2);
        lemma_seq_assoc((Seq::<u8>::empty() + p1), p2, t8);
        lemma_seq_assoc(Seq::<u8>::empty(), p1, (p2 + t8));
        lemma_seq_empty_left((p1 + (p2 + t8)));
        let s = pre + e + post;
        lemma_seq_assoc(pre, e, post);
        assert(s == pre + t0);
        let a0 = pre;
        assert(parse_i16(s, a0.len() as int) == Ok::<(i16, int), SerializationError>((m.error_code, a0.len() as int + b0.len()))) by {
            lemma_seq_assoc(a0, b0, t1);
            lemma_i16_roundtrip(a0, m.error_code, t1);
        }
        lemma_seq_assoc(a0, b0, t1);
        let a1 = a0 + b0;
        assert(parse_array::<ApiVersion>(s, a1.len() as int, Ctx { version: ctx.version, flexible: ctx.flexible, classic: false }) == Ok::<(Seq<<ApiVersion as DeepView>::V>, int), SerializationError>((m.api_keys, a1.len() as int + b1.len()))) by {
            assert(array_bytes::<ApiVersion>(m.api_keys, Ctx { version: ctx.version, flexible: ctx.flexible, classic: false }) is Ok);
            lemma_seq_assoc(a1, b1, t2);
            lemma_items_read_back::<ApiVersion>(m.api_keys, Ctx { version: ctx.version, flexible: ctx.flexible, classic: false });
            lemma_array_roundtrip::<ApiVersion>(a1, m.api_keys, t2, Ctx { version: ctx.version, flexible: ctx.flexible, classic: false });
        }
        lemma_seq_assoc(a1, b1, t2);
        let a2 = a1 + b1;
        if 1 <= ctx.version {
            assert(parse_i32(s, a2.len() as int) == Ok::<(i32, int), SerializationError>((m.throttle_time_ms, a2.len() as int + b2.len()))) by {
                lemma_seq_assoc(a2, b2, t3);
                lemma_i32_roundtrip(a2, m.throttle_time_ms, t3);
            }
        }
        lemma_seq_assoc(a2, b2, t3);
        let a3 = a2 + b2;
        if 3 <= ctx.version {
            assert(parse_array::<SupportedFeatureKey>(s, a3.len() as int, Ctx { version: ctx.version, flexible: ctx.flexible, classic: false }) == Ok::<(Seq<<SupportedFeatureKey as DeepView>::V>, int), SerializationError>((m.supported_features, a3.len() as int + b3.len()))) by {
                assert(array_bytes::<SupportedFeatureKey>(m.supported_features, Ctx { version: ctx.version, flexible: ctx.flexible, classic: false }) is Ok);
                lemma_seq_assoc(a3, b3, t4);
                lemma_items_read_back::<SupportedFeatureKey>(m.supported_features, Ctx { version: ctx.version, flexible: ctx.flexible, classic: false });
                lemma_array_roundtrip::<SupportedFeatureKey>(a3, m.supported_features, t4, Ctx { version: ctx.version, flexible: ctx.flexible, classic: false });
            }
        }
        lemma_seq_assoc(a3, b3, t4);
        let a4 = a3 + b3;
        if 3 <= ctx.version {
            assert(parse_i64(s, a4.len() as int) == Ok::<(i64, int), SerializationError>((m.finalized_features_epoch, a4.len() as int + b4.len()))) by {
                lemma_seq_assoc(a4, b4, t5);
                lemma_i64_roundtrip(a4, m.finalized_features_epoch, t5);
            }
        }
        lemma_seq_assoc(a4, b4, t5);
        let a5 = a4 + b4;
        if 3 <= ctx.version {
            assert(parse_array::<FinalizedFeatureKey>(s, a5.len() as int, Ctx { version: ctx.version, flexible: ctx.flexible, classic: false }) == Ok::<(Seq<<FinalizedFeatureKey as DeepView>::V>, int), SerializationError>((m.finalized_features, a5.len() as int + b5.len()))) by {
                assert(array_bytes::<FinalizedFeatureKey>(m.finalized_features, Ctx { version: ctx.version, flexible: ctx.flexible, classic: false }) is Ok);
                lemma_seq_assoc(a5, b5, t6);
                lemma_items_read_back::<FinalizedFeatureKey>(m.finalized_features, Ctx { version: ctx.version, flexible: ctx.flexible, classic: false });
                lemma_array_roundtrip::<FinalizedFeatureKey>(a5, m.finalized_features, t6, Ctx { version: ctx.version, flexible: ctx.flexible, classic: false });
            }
        }
        lemma_seq_assoc(a5, b5, t6);
        let a6 = a5 + b5;
        if 3 <= ctx.version {
            assert(parse_bool(s, a6.len() as int) == Ok::<(bool, int), SerializationError>((m.zk_migration_ready, a6.len() as int + b6.len()))) by {
                lemma_seq_assoc(a6, b6, t7);
                lemma_bool_roundtrip(a6, m.zk_migration_ready, t7);
            }
        }
        lemma_seq_assoc(a6, b6, t7);
        let a7 = a6 + b6;
        if ctx.flexible {
            assert(parse_uvarint(s, a7.len() as int) == Ok::<(u64, int), SerializationError>((0u64, a7.len() as int + b7.len()))) by {
                lemma_seq_assoc(a7, b7, t8);
                lemma_uvarint_roundtrip(a7, 0, t8);
            }
        }
    }

    /// The bytes written: the encoding of each field, in the order of the
    /// protocol's layout. Reading them back, wherever they stand, gives the value,
    /// with each field that the version leaves out at its default.
    #[verifier::spinoff_prover]
    pub proof fn lemma_body_layout(pre: Seq<u8>, m: ApiVersionsResponseModel, post: Seq<u8>, ctx: Ctx)
        requires
            Self::spec_encode_body(m, ctx) is Ok,
        ensures
            Self::spec_encode_body(m, ctx) == Ok::<Seq<u8>, SerializationError>((i16_bytes(m.error_code)) + ((array_bytes::<ApiVersion>(m.api_keys, Ctx { version: ctx.version, flexible: ctx.flexible, classic: false }))->Ok_0) + (if 1 <= ctx.version { i32_bytes(m.throttle_time_ms) } else { Seq::<u8>::empty() }) + (if 3 <= ctx.version { (array_bytes::<SupportedFeatureKey>(m.supported_features, Ctx { version: ctx.version, flexible: ctx.flexible, classic: false }))->Ok_0 } else { Seq::<u8>::empty() }) + (if 3 <= ctx.version { i64_bytes(m.finalized_features_epoch) } else { Seq::<u8>::empty() }) + (if 3 <= ctx.version { (array_bytes::<FinalizedFeatureKey>(m.finalized_features, Ctx { version: ctx.version, flexible: ctx.flexible, classic: false }))->Ok_0 } else { Seq::<u8>::empty() }) + (if 3 <= ctx.version { bool_bytes(m.zk_migration_ready) } else { Seq::<u8>::empty() }) + (if ctx.flexible { uvarint_bytes(0) } else { Seq::<u8>::empty() })),
            Self::reads_back_body(m, ctx) ==> Self::spec_decode_body(pre + ((i16_bytes(m.error_code)) + ((array_bytes::<ApiVersion>(m.api_keys, Ctx { version: ctx.version, flexible: ctx.flexible, classic: false }))->Ok_0) + (if 1 <= ctx.version { i32_bytes(m.throttle_time_ms) } else { Seq::<u8>::empty() }) + (if 3 <= ctx.version { (array_bytes::<SupportedFeatureKey>(m.supported_features, Ctx { version: ctx.version, flexible: ctx.flexible, classic: false }))->Ok_0 } else { Seq::<u8>::empty() }) + (if 3 <= ctx.version { i64_bytes(m.finalized_features_epoch) } else { Seq::<u8>::empty() }) + (if 3 <= ctx.version { (array_bytes::<FinalizedFeatureKey>(m.finalized_features, Ctx { version: ctx.version, flexible: ctx.flexible, classic: false }))->Ok_0 } else { Seq::<u8>::empty() }) + (if 3 <= ctx.version { bool_bytes(m.zk_migration_ready) } else { Seq::<u8>::empty() }) + (if ctx.flexible { uvarint_bytes(0) } else { Seq::<u8>::empty() })) + post, pre.len() as int, ctx) == Ok::<(ApiVersionsResponseModel, int), SerializationError>((ApiVersionsResponseModel { error_code: m.error_code, api_keys: m.api_keys, throttle_time_ms: if 1 <= ctx.version { m.throttle_time_ms } else { 0i32 }, supported_features: if 3 <= ctx.version { m.supported_features } else { Seq::<<SupportedFeatureKey as DeepView>::V>::empty() }, finalized_features_epoch: if 3 <= ctx.version { m.finalized_features_epoch } else { 0i64 }, finalized_features: if 3 <= ctx.version { m.finalized_features } else { Seq::<<FinalizedFeatureKey as DeepView>::V>::empty() }, zk_migration_ready: if 3 <= ctx.version { m.zk_migration_ready } else { false } }, pre.len() as int + ((i16_bytes(m.error_code)) + ((array_bytes::<ApiVersion>(m.api_keys, Ctx { version: ctx.version, flexible: ctx.flexible, classic: false }))->Ok_0) + (if 1 <= ctx.version { i32_bytes(m.throttle_time_ms) } else { Seq::<u8>::empty() }) + (if 3 <= ctx.version { (array_bytes::<SupportedFeatureKey>(m.supported_features, Ctx { version: ctx.version, flexible: ctx.flexible, classic: false }))->Ok_0 } else { Seq::<u8>::empty() }) + (if 3 <= ctx.version { i64_bytes(m.finalized_features_epoch) } else { Seq::<u8>::empty() }) + (if 3 <= ctx.version { (array_bytes::<FinalizedFeatureKey>(m.finalized_features, Ctx { version: ctx.version, flexible: ctx.flexible, classic: false }))->Ok_0 } else { Seq::<u8>::empty() }) + (if 3 <= ctx.version { bool_bytes(m.zk_migration_ready) } else { Seq::<u8>::empty() }) + (if ctx.flexible { uvarint_bytes(0) } else { Seq::<u8>::empty() })).len())),
    {
        let b0 = i16_bytes(m.error_code);
        let b1 = (array_bytes::<ApiVersion>(m.api_keys, Ctx { version: ctx.version, flexible: ctx.flexible, classic: false }))->Ok_0;
        let b2 = if 1 <= ctx.version { i32_bytes(m.throttle_time_ms) } else { Seq::<u8>::empty() };
        let b3 = if 3 <= ctx.version { (array_bytes::<SupportedFeatureKey>(m.supported_features, Ctx { version: ctx.version, flexible: ctx.flexible, classic: false }))->Ok_0 } else { Seq::<u8>::empty() };
        let b4 = if 3 <= ctx.version { i64_bytes(m.finalized_features_epoch) } else { Seq::<u8>::empty() };
        let b5 = if 3 <= ctx.version { (array_bytes::<FinalizedFeatureKey>(m.finalized_features, Ctx { version: ctx.version, flexible: ctx.flexible, classic: false }))->Ok_0 } else { Seq::<u8>::empty() };
        let b6 = if 3 <= ctx.version { bool_bytes(m.zk_migration_ready) } else { Seq::<u8>::empty() };
        let b7 = if ctx.flexible { uvarint_bytes(0) } else { Seq::<u8>::empty() };
        let e = Self::spec_encode_body(m, ctx)->Ok_0;
        let p1 = Self::spec_encode_body_part1(m, ctx)->Ok_0;
        assert(p1 =~= Seq::<u8>::empty() + b0 + b1 + b2 + b3 + b4);
        let p2 = Self::spec_encode_body_part2(m, ctx)->Ok_0;
        assert(p2 =~= Seq::<u8>::empty() + b5 + b6 + b7);
        assert(e == Seq::<u8>::empty() + p1 + p2);
        assert(e =~= b0 + b1 + b2 + b3 + b4 + b5 + b6 + b7);
        if Self::reads_back_body(m, ctx) {
            Self::lemma_body_read_back(pre, m, post, ctx);
            reveal(ApiVersionsResponse::spec_read_as);
        }
    }

    /// Writing succeeds exactly when every field that the version carries can be
    /// encoded and every field that it leaves out, where leaving it out is an
    /// error, holds its default.
    #[verifier::spinoff_prover]
    pub proof fn lemma_body_write_succeeds(m: ApiVersionsResponseModel, ctx: Ctx)
        ensures
            Self::spec_encode_body(m, ctx) is Ok <==> (array_bytes::<ApiVersion>(m.api_keys, Ctx { version: ctx.version, flexible: ctx.flexible, classic: false }) is Ok) && ((3 <= ctx.version) ==> array_bytes::<SupportedFeatureKey>(m.supported_features, Ctx { version: ctx.version, flexible: ctx.flexible, classic: false }) is Ok) && ((3 <= ctx.version) ==> array_bytes::<FinalizedFeatureKey>(m.finalized_features, Ctx { version: ctx.version, flexible: ctx.flexible, classic: false }) is Ok),
    {
    }

    /// Writes the structure for `version`, with the compact encodings when `is_flexible`.
    /// On failure the buffer is left as it was.
    pub fn encode(&self, buf: &mut Vec<u8>, version: ApiVer, is_flexible: bool) -> (r: Result<(), SerializationError>)
        ensures
            write_exact(r, old(buf)@, final(buf)@, Self::spec_encode_body(self.deep_view(), Ctx { version: version.0, flexible: is_flexible, classic: false })),
    {
        let start = buf.len();
        let r = self.encode_ctx(buf, Ctx::new(version, is_flexible));
        if r.is_err() {
            buf.truncate(start);
        }
        r
    }

    /// Reads the structure as written for `version`.
    /// On failure the reader is put back where it started.
    #[verifier::spinoff_prover]
    pub fn decode(buf: &mut Reader, version: ApiVer, is_flexible: bool) -> (r: Result<Self, SerializationError>)
        ensures
            final(buf).bytes() == old(buf).bytes(),
            read_view_exact(r, Self::spec_decode_body(old(buf).bytes(), old(buf).pos(), Ctx { version: version.0, flexible: is_flexible, classic: false }), old(buf).pos(), final(buf).pos()),
    {
        let start = buf.position();
        let r = Self::decode_ctx(buf, Ctx::new(version, is_flexible));
        if r.is_err() {
            buf.set_position(start);
        }
        r
    }
}

impl KafkaCodec for ApiVersionsResponse {
    open spec fn spec_encode(m: ApiVersionsResponseModel, ctx: Ctx) -> Result<Seq<u8>, SerializationError> {
        Self::spec_encode_body(m, ctx)
    }

    open spec fn spec_decode(s: Seq<u8>, pos: int, ctx: Ctx) -> Result<(ApiVersionsResponseModel, int), SerializationError> {
        Self::spec_decode_body(s, pos, ctx)
    }

    open spec fn reads_back(v: ApiVersionsResponseModel, ctx: Ctx) -> bool {
        Self::reads_back_body(v, ctx) && Self::spec_read_as(v, ctx) == v
    }

    proof fn lemma_read_back(pre: Seq<u8>, v: ApiVersionsResponseModel, post: Seq<u8>, ctx: Ctx) {
        Self::lemma_body_read_back(pre, v, post, ctx);
        assert(Self::spec_decode(pre + Self::spec_encode(v, ctx)->Ok_0 + post, pre.len() as int, ctx)
            == Self::spec_decode_body(pre + Self::spec_encode_body(v, ctx)->Ok_0 + post, pre.len() as int, ctx));
    }

    #[verifier::spinoff_prover]
    fn encode_ctx(&self, buf: &mut Vec<u8>, ctx: Ctx) -> (r: Result<(), SerializationError>) {
        let ghost mut w: Seq<u8> = Seq::empty();
        self.encode_body_part1(buf, ctx)?;
        proof {
            w = w + (Self::spec_encode_body_part1(self.deep_view(), ctx))->Ok_0;
        }
        assert(buf@ =~= old(buf)@ + w);
        self.encode_body_part2(buf, ctx)?;
        proof {
            w = w + (Self::spec_encode_body_part2(self.deep_view(), ctx))->Ok_0;
        }
        assert(buf@ =~= old(buf)@ + w);
        Ok(())
    }

    #[verifier::spinoff_prover]
    fn decode_ctx(buf: &mut Reader, ctx: Ctx) -> (r: Result<Self, SerializationError>) {
        let error_code = buf.get_i16()?;
        let api_keys = decode_array::<ApiVersion>(buf, Ctx { version: ctx.version, flexible: ctx.flexible, classic: false })?;
        let throttle_time_ms = if 1 <= ctx.version {
            buf.get_i32()?
        } else {
            0i32
        };
        let supported_features = if 3 <= ctx.version {
            decode_array::<SupportedFeatureKey>(buf, Ctx { version: ctx.version, flexible: ctx.flexible, classic: false })?
        } else {
            new_array::<SupportedFeatureKey>()
        };
        let finalized_features_epoch = if 3 <= ctx.version {
            buf.get_i64()?
        } else {
            0i64
        };
        let finalized_features = if 3 <= ctx.version {
            decode_array::<FinalizedFeatureKey>(buf, Ctx { version: ctx.version, flexible: ctx.flexible, classic: false })?
        } else {
            new_array::<FinalizedFeatureKey>()
        };
        let zk_migration_ready = if 3 <= ctx.version {
            buf.get_bool()?
        } else {
            false
        };
        if ctx.flexible {
            let (_tag_count, _) = decode_unsigned_varint(buf)?;
        }
        Ok(ApiVersionsResponse { error_code, api_keys, throttle_time_ms, supported_features, finalized_features_epoch, finalized_features, zk_migration_ready })
    }
}

impl ApiVersionsResponse {
    /// The API key of this message.
    pub fn get_api_key() -> (r: ApiKey)
        ensures
            r.0 == 18,
    {
        ApiKey::new(18)
    }

    /// The oldest version of this message.
    pub fn get_min_supported_version() -> (r: ApiVer)
        ensures
            r.0 == 0,
    {
        ApiVer::new(0)
    }

    /// The newest version of this message.
    pub fn get_max_supported_version() -> (r: ApiVer)
        ensures
            r.0 == 4,
    {
        ApiVer::new(4)
    }

    /// The first version of this message with the compact encodings.
    pub fn get_min_flexible_version() -> (r: ApiVer)
        ensures
            r.0 == 3,
    {
        ApiVer::new(3)
    }

    /// Fields 1 to 5 of the encoding.
    pub open spec fn spec_serialize_part1(m: ApiVersionsResponseModel, ctx: Ctx) -> Result<Seq<u8>, SerializationError> {
        let r = Ok(Seq::<u8>::empty());
        let r = then(r, Ok(i16_bytes(m.error_code)));
        let r = then(r, array_bytes::<ApiVersion>(m.api_keys, Ctx { version: ctx.version, flexible: ctx.flexible, classic: false }));
        let r = if 1 <= ctx.version { then(r, Ok(i32_bytes(m.throttle_time_ms))) } else if m.throttle_time_ms != 0 { then(r, Err(SerializationError::Encode("field 'ThrottleTimeMs' is not available in this version"))) } else { r };
        let r = if 3 <= ctx.version { then(r, array_bytes::<SupportedFeatureKey>(m.supported_features, Ctx { version: ctx.version, flexible: ctx.flexible, classic: false })) } else if m.supported_features.len() != 0 { then(r, Err(SerializationError::Encode("field 'SupportedFeatures' is not available in this version"))) } else { r };
        let r = if 3 <= ctx.version { then(r, Ok(i64_bytes(m.finalized_features_epoch))) } else if m.finalized_features_epoch != 0 { then(r, Err(SerializationError::Encode("field 'FinalizedFeaturesEpoch' is not available in this version"))) } else { r };
        r
    }

    #[verifier::spinoff_prover]
    fn serialize_part1(&self, buf: &mut Vec<u8>, ctx: Ctx) -> (r: Result<(), SerializationError>)
        ensures
            write_ok(r, old(buf)@, final(buf)@, Self::spec_serialize_part1(self.deep_view(), ctx)),
    {
        let ghost mut w: Seq<u8> = Seq::empty();
        put_i16(buf, self.error_code);
        proof {
            w = w + i16_bytes(self.error_code);
        }
        assert(buf@ =~= old(buf)@ + w);
        encode_array(&self.api_keys, buf, Ctx { version: ctx.version, flexible: ctx.flexible, classic: false })?;
        proof {
            w = w + (array_bytes::<ApiVersion>(self.api_keys.deep_view(), Ctx { version: ctx.version, flexible: ctx.flexible, classic: false }))->Ok_0;
        }
        assert(buf@ =~= old(buf)@ + w);
        if 1 <= ctx.version {
            put_i32(buf, self.throttle_time_ms);
            proof {
                w = w + i32_bytes(self.throttle_time_ms);
            }
            assert(buf@ =~= old(buf)@ + w);
        } else if self.throttle_time_ms != 0 {
            return Err(SerializationError::Encode("field 'ThrottleTimeMs' is not available in this version"));
        }
        if 3 <= ctx.version {
            encode_array(&self.supported_features, buf, Ctx { version: ctx.version, flexible: ctx.flexible, classic: false })?;
            proof {
                w = w + (array_bytes::<SupportedFeatureKey>(self.supported_features.deep_view(), Ctx { version: ctx.version, flexible: ctx.flexible, classic: false }))->Ok_0;
            }
            assert(buf@ =~= old(buf)@ + w);
        } else if self.supported_features.len() != 0 {
            return Err(SerializationError::Encode("field 'SupportedFeatures' is not available in this version"));
        }
        if 3 <= ctx.version {
            put_i64(buf, self.finalized_features_epoch);
            proof {
                w = w + i64_bytes(self.finalized_features_epoch);
            }
            assert(buf@ =~= old(buf)@ + w);
        } else if self.finalized_features_epoch != 0 {
            return Err(SerializationError::Encode("field 'FinalizedFeaturesEpoch' is not available in this version"));
        }
        Ok(())
    }

    /// Fields 6 to 8 of the encoding.
    pub open spec fn spec_serialize_part2(m: ApiVersionsResponseModel, ctx: Ctx) -> Result<Seq<u8>, SerializationError> {
        let r = Ok(Seq::<u8>::empty());
        let r = if 3 <= ctx.version { then(r, array_bytes::<FinalizedFeatureKey>(m.finalized_features, Ctx { version: ctx.version, flexible: ctx.flexible, classic: false })) } else if m.finalized_features.len() != 0 { then(r, Err(SerializationError::Encode("field 'FinalizedFeatures' is not available in this version"))) } else { r };
        let r = if 3 <= ctx.version { then(r, Ok(bool_bytes(m.zk_migration_ready))) } else if m.zk_migration_ready { then(r, Err(SerializationError::Encode("field 'ZkMigrationReady' is not available in this version"))) } else { r };
        let r = if ctx.flexible { then(r, Ok(uvarint_bytes(0))) } else { r };
        r
    }

    #[verifier::spinoff_prover]
    fn serialize_part2(&self, buf: &mut Vec<u8>, ctx: Ctx) -> (r: Result<(), SerializationError>)
        ensures
            write_ok(r, old(buf)@, final(buf)@, Self::spec_serialize_part2(self.deep_view(), ctx)),
    {
        let ghost mut w: Seq<u8> = Seq::empty();
        if 3 <= ctx.version {
            encode_array(&self.finalized_features, buf, Ctx { version: ctx.version, flexible: ctx.flexible, classic: false })?;
            proof {
                w = w + (array_bytes::<FinalizedFeatureKey>(self.finalized_features.deep_view(), Ctx { version: ctx.version, flexible: ctx.flexible, classic: false }))->Ok_0;
            }
            assert(buf@ =~= old(buf)@ + w);
        } else if self.finalized_features.len() != 0 {
            return Err(SerializationError::Encode("field 'FinalizedFeatures' is not available in this version"));
        }
        if 3 <= ctx.version {
            put_bool(buf, self.zk_migration_ready);
            proof {
                w = w + bool_bytes(self.zk_migration_ready);
            }
            assert(buf@ =~= old(buf)@ + w);
        } else if self.zk_migration_ready {
            return Err(SerializationError::Encode("field 'ZkMigrationReady' is not available in this version"));
        }
        if ctx.flexible {
            encode_unsigned_varint(0, buf);
            proof {
                w = w + uvarint_bytes(0);
            }
            assert(buf@ =~= old(buf)@ + w);
        }
        Ok(())
    }

    /// The encoding of a whole message body at `version`.
    pub open spec fn spec_serialize(m: ApiVersionsResponseModel, version: i16) -> Result<Seq<u8>, SerializationError> {
        let is_flexible = version >= 3;
        let ctx = Ctx { version, flexible: is_flexible, classic: false };
        let r = Ok(Seq::<u8>::empty());
        let r = then(r, Self::spec_serialize_part1(m, ctx));
        let r = then(r, Self::spec_serialize_part2(m, ctx));
        r
    }

    /// The message body read at `version`.
    pub open spec fn spec_deserialize(s: Seq<u8>, pos: int, version: i16) -> Result<(ApiVersionsResponseModel, int), SerializationError> {
        let is_flexible = version >= 3;
        let ctx = Ctx { version, flexible: is_flexible, classic: false };
        match parse_i16(s, pos) {
            Err(e) => Err(e),
            Ok((error_code, pos)) =>
            match parse_array::<ApiVersion>(s, pos, Ctx { version: ctx.version, flexible: ctx.flexible, classic: false }) {
                Err(e) => Err(e),
                Ok((api_keys, pos)) =>
                match (if 1 <= ctx.version { parse_i32(s, pos) } else { Ok((0i32, pos)) }) {
                    Err(e) => Err(e),
                    Ok((throttle_time_ms, pos)) =>
                    match (if 3 <= ctx.version { parse_array::<SupportedFeatureKey>(s, pos, Ctx { version: ctx.version, flexible: ctx.flexible, classic: false }) } else { Ok((Seq::<<SupportedFeatureKey as DeepView>::V>::empty(), pos)) }) {
                        Err(e) => Err(e),
                        Ok((supported_features, pos)) =>
                        match (if 3 <= ctx.version { parse_i64(s, pos) } else { Ok((0i64, pos)) }) {
                            Err(e) => Err(e),
                            Ok((finalized_features_epoch, pos)) =>
                            match (if 3 <= ctx.version { parse_array::<FinalizedFeatureKey>(s, pos, Ctx { version: ctx.version, flexible: ctx.flexible, classic: false }) } else { Ok((Seq::<<FinalizedFeatureKey as DeepView>::V>::empty(), pos)) }) {
                                Err(e) => Err(e),
                                Ok((finalized_features, pos)) =>
                                match (if 3 <= ctx.version { parse_bool(s, pos) } else { Ok((false, pos)) }) {
                                    Err(e) => Err(e),
                                    Ok((zk_migration_ready, pos)) =>
                                    Ok((ApiVersionsResponseModel { error_code, api_keys, throttle_time_ms, supported_features, finalized_features_epoch, finalized_features, zk_migration_ready }, pos))
                                }
                            }
                        }
                    }
                }
            }
        }
    }

    /// Message bodies that read back when written at `version`: nested values read
    /// back. A field that the version leaves out is read as its default.
    pub open spec fn reads_back_message(m: ApiVersionsResponseModel, version: i16) -> bool {
        let is_flexible = version >= 3;
        let ctx = Ctx { version, flexible: is_flexible, classic: false };
        &&& forall|i: int| 0 <= i < m.api_keys.len() ==> #[trigger] <ApiVersion as KafkaCodec>::reads_back(m.api_keys[i], Ctx { version: ctx.version, flexible: ctx.flexible, classic: false })
        &&& (3 <= ctx.version) ==> forall|i: int| 0 <= i < m.supported_features.len() ==> #[trigger] <SupportedFeatureKey as KafkaCodec>::reads_back(m.supported_features[i], Ctx { version: ctx.version, flexible: ctx.flexible, classic: false })
        &&& (3 <= ctx.version) ==> forall|i: int| 0 <= i < m.finalized_features.len() ==> #[trigger] <FinalizedFeatureKey as KafkaCodec>::reads_back(m.finalized_features[i], Ctx { version: ctx.version, flexible: ctx.flexible, classic: false })
    }

    /// A message body that can be written at `version` and reads back: reading a
    /// body at `version` from its bytes, wherever they stand, gives the same message,
    /// with each field that the version leaves out at its default.
    #[verifier::spinoff_prover]
    pub proof fn lemma_message_read_back(pre: Seq<u8>, m: ApiVersionsResponseModel, post: Seq<u8>, version: i16)
        requires
            Self::spec_serialize(m, version) is Ok,
            Self::reads_back_message(m, version),
        ensures
            Self::spec_deserialize(pre + Self::spec_serialize(m, version)->Ok_0 + post, pre.len() as int, version) == Ok::<(ApiVersionsResponseModel, int), SerializationError>((ApiVersionsResponseModel { error_code: m.error_code, api_keys: m.api_keys, throttle_time_ms: if 1 <= version { m.throttle_time_ms } else { 0i32 }, supported_features: if 3 <= version { m.supported_features } else { Seq::<<SupportedFeatureKey as DeepView>::V>::empty() }, finalized_features_epoch: if 3 <= version { m.finalized_features_epoch } else { 0i64 }, finalized_features: if 3 <= version { m.finalized_features } else { Seq::<<FinalizedFeatureKey as DeepView>::V>::empty() }, zk_migration_ready: if 3 <= version { m.zk_migration_ready } else { false } }, pre.len() as int + Self::spec_serialize(m, version)->Ok_0.len() - (if version >= 3 { 1int } else { 0int }))),
    {
        let is_flexible = version >= 3;
        let ctx = Ctx { version, flexible: is_flexible, classic: false };
        let b0 = i16_bytes(m.error_code);
        let b1 = (array_bytes::<ApiVersion>(m.api_keys, Ctx { version: ctx.version, flexible: ctx.flexible, classic: false }))->Ok_0;
        let b2 = if 1 <= ctx.version { i32_bytes(m.throttle_time_ms) } else { Seq::<u8>::empty() };
        let b3 = if 3 <= ctx.version { (array_bytes::<SupportedFeatureKey>(m.supported_features, Ctx { version: ctx.version, flexible: ctx.flexible, classic: false }))->Ok_0 } else { Seq::<u8>::empty() };
        let b4 = if 3 <= ctx.version { i64_bytes(m.finalized_features_epoch) } else { Seq::<u8>::empty() };
        let b5 = if 3 <= ctx.version { (array_bytes::<FinalizedFeatureKey>(m.finalized_features, Ctx { version: ctx.version, flexible: ctx.flexible, classic: false }))->Ok_0 } else { Seq::<u8>::empty() };
        let b6 = if 3 <= ctx.version { bool_bytes(m.zk_migration_ready) } else { Seq::<u8>::empty() };
        let b7 = if ctx.flexible { uvarint_bytes(0) } else { Seq::<u8>::empty() };
        let t8 = post;
        let t7 = b7 + t8;
        let t6 = b6 + t7;
        let t5 = b5 + t6;
        let t4 = b4 + t5;
        let t3 = b3 + t4;
        let t2 = b2 + t3;
        let t1 = b1 + t2;
        let t0 = b0 + t1;
        let e = Self::spec_serialize(m, version)->Ok_0;
        let p1 = Self::spec_serialize_part1(m, ctx)->Ok_0;
        assert(p1 =~= Seq::<u8>::empty() + b0 + b1 + b2 + b3 + b4);
        lemma_seq_assoc(((((Seq::<u8>::empty() + b0) + b1) + b2) + b3), b4, t5);
        lemma_seq_assoc((((Seq::<u8>::empty() + b0) + b1) + b2), b3, (b4 + t5));
        lemma_seq_assoc(((Seq::<u8>::empty() + b0) + b1), b2, (b3 + (b4 + t5)));
        lemma_seq_assoc((Seq::<u8>::empty() + b0), b1, (b2 + (b3 + (b4 + t5))));
        lemma_seq_assoc(Seq::<u8>::empty(), b0, (b1 + (b2 + (b3 + (b4 + t5)))));
        lemma_seq_empty_left((b0 + (b1 + (b2 + (b3 + (b4 + t5))))));
        let p2 = Self::spec_serialize_part2(m, ctx)->Ok_0;
        assert(p2 =~= Seq::<u8>::empty() + b5 + b6 + b7);
        lemma_seq_assoc(((Seq::<u8>::empty() + b5) + b6), b7, t8);
        lemma_seq_assoc((Seq::<u8>::empty() + b5), b6, (b7 + t8));
        lemma_seq_assoc(Seq::<u8>::empty(), b5, (b6 + (b7 + t8)));
        lemma_seq_empty_left((b5 + (b6 + (b7 + t8))));
        assert(e == Seq::<u8>::empty() + p1 + p2);
        lemma_seq_assoc((Seq::<u8>::empty() + p1), p2, t8);
        lemma_seq_assoc(Seq::<u8>::empty(), p1, (p2 + t8));
        lemma_seq_empty_left((p1 + (p2 + t8)));
        let s = pre + e + post;
        lemma_seq_assoc(pre, e, post);
        assert(s == pre + t0);
        let a0 = pre;
        assert(parse_i16(s, a0.len() as int) == Ok::<(i16, int), SerializationError>((m.error_code, a0.len() as int + b0.len()))) by {
            lemma_seq_assoc(a0, b0, t1);
            lemma_i16_roundtrip(a0, m.error_code, t1);
        }
        lemma_seq_assoc(a0, b0, t1);
        let a1 = a0 + b0;
        assert(parse_array::<ApiVersion>(s, a1.len() as int, Ctx { version: ctx.version, flexible: ctx.flexible, classic: false }) == Ok::<(Seq<<ApiVersion as DeepView>::V>, int), SerializationError>((m.api_keys, a1.len() as int + b1.len()))) by {
            assert(array_bytes::<ApiVersion>(m.api_keys, Ctx { version: ctx.version, flexible: ctx.flexible, classic: false }) is Ok);
            lemma_seq_assoc(a1, b1, t2);
            lemma_items_read_back::<ApiVersion>(m.api_keys, Ctx { version: ctx.version, flexible: ctx.flexible, classic: false });
            lemma_array_roundtrip::<ApiVersion>(a1, m.api_keys, t2, Ctx { version: ctx.version, flexible: ctx.flexible, classic: false });
        }
        lemma_seq_assoc(a1, b1, t2);
        let a2 = a1 + b1;
        if 1 <= ctx.version {
            assert(parse_i32(s, a2.len() as int) == Ok::<(i32, int), SerializationError>((m.throttle_time_ms, a2.len() as int + b2.len()))) by {
                lemma_seq_assoc(a2, b2, t3);
                lemma_i32_roundtrip(a2, m.throttle_time_ms, t3);
            }
        }
        lemma_seq_assoc(a2, b2, t3);
        let a3 = a2 + b2;
        if 3 <= ctx.version {
            assert(parse_array::<SupportedFeatureKey>(s, a3.len() as int, Ctx { version: ctx.version, flexible: ctx.flexible, classic: false }) == Ok::<(Seq<<SupportedFeatureKey as DeepView>::V>, int), SerializationError>((m.supported_features, a3.len() as int + b3.len()))) by {
                assert(array_bytes::<SupportedFeatureKey>(m.supported_features, Ctx { version: ctx.version, flexible: ctx.flexible, classic: false }) is Ok);
                lemma_seq_assoc(a3, b3, t4);
                lemma_items_read_back::<SupportedFeatureKey>(m.supported_features, Ctx { version: ctx.version, flexible: ctx.flexible, classic: false });
                lemma_array_roundtrip::<SupportedFeatureKey>(a3, m.supported_features, t4, Ctx { version: ctx.version, flexible: ctx.flexible, classic: false });
            }
        }
        lemma_seq_assoc(a3, b3, t4);
        let a4 = a3 + b3;
        if 3 <= ctx.version {
            assert(parse_i64(s, a4.len() as int) == Ok::<(i64, int), SerializationError>((m.finalized_features_epoch, a4.len() as int + b4.len()))) by {
                lemma_seq_assoc(a4, b4, t5);
                lemma_i64_roundtrip(a4, m.finalized_features_epoch, t5);
            }
        }
        lemma_seq_assoc(a4, b4, t5);
        let a5 = a4 + b4;
        if 3 <= ctx.version {
            assert(parse_array::<FinalizedFeatureKey>(s, a5.len() as int, Ctx { version: ctx.version, flexible: ctx.flexible, classic: false }) == Ok::<(Seq<<FinalizedFeatureKey as DeepView>::V>, int), SerializationError>((m.finalized_features, a5.len() as int + b5.len()))) by {
                assert(array_bytes::<FinalizedFeatureKey>(m.finalized_features, Ctx { version: ctx.version, flexible: ctx.flexible, classic: false }) is Ok);
                lemma_seq_assoc(a5, b5, t6);
                lemma_items_read_back::<FinalizedFeatureKey>(m.finalized_features, Ctx { version: ctx.version, flexible: ctx.flexible, classic: false });
                lemma_array_roundtrip::<FinalizedFeatureKey>(a5, m.finalized_features, t6, Ctx { version: ctx.version, flexible: ctx.flexible, classic: false });
            }
        }
        lemma_seq_assoc(a5, b5, t6);
        let a6 = a5 + b5;
        if 3 <= ctx.version {
            assert(parse_bool(s, a6.len() as int) == Ok::<(bool, int), SerializationError>((m.zk_migration_ready, a6.len() as int + b6.len()))) by {
                lemma_seq_assoc(a6, b6, t7);
                lemma_bool_roundtrip(a6, m.zk_migration_ready, t7);
            }
        }
        lemma_seq_assoc(a6, b6, t7);
        let a7 = a6 + b6;
    }

    /// The bytes written: the encoding of each field, in the order of the
    /// protocol's layout. Reading them back, wherever they stand, gives the value,
    /// with each field that the version leaves out at its default.
    #[verifier::spinoff_prover]
    pub proof fn lemma_message_layout(pre: Seq<u8>, m: ApiVersionsResponseModel, post: Seq<u8>, version: i16)
        requires
            Self::spec_serialize(m, version) is Ok,
        ensures
            Self::spec_serialize(m, version) == Ok::<Seq<u8>, SerializationError>((i16_bytes(m.error_code)) + ((array_bytes::<ApiVersion>(m.api_keys, Ctx { version: version, flexible: (version >= 3), classic: false }))->Ok_0) + (if 1 <= version { i32_bytes(m.throttle_time_ms) } else { Seq::<u8>::empty() }) + (if 3 <= version { (array_bytes::<SupportedFeatureKey>(m.supported_features, Ctx { version: version, flexible: (version >= 3), classic: false }))->Ok_0 } else { Seq::<u8>::empty() }) + (if 3 <= version { i64_bytes(m.finalized_features_epoch) } else { Seq::<u8>::empty() }) + (if 3 <= version { (array_bytes::<FinalizedFeatureKey>(m.finalized_features, Ctx { version: version, flexible: (version >= 3), classic: false }))->Ok_0 } else { Seq::<u8>::empty() }) + (if 3 <= version { bool_bytes(m.zk_migration_ready) } else { Seq::<u8>::empty() }) + (if (version >= 3) { uvarint_bytes(0) } else { Seq::<u8>::empty() })),
            Self::reads_back_message(m, version) ==> Self::spec_deserialize(pre + ((i16_bytes(m.error_code)) + ((array_bytes::<ApiVersion>(m.api_keys, Ctx { version: version, flexible: (version >= 3), classic: false }))->Ok_0) + (if 1 <= version { i32_bytes(m.throttle_time_ms) } else { Seq::<u8>::empty() }) + (if 3 <= version { (array_bytes::<SupportedFeatureKey>(m.supported_features, Ctx { version: version, flexible: (version >= 3), classic: false }))->Ok_0 } else { Seq::<u8>::empty() }) + (if 3 <= version { i64_bytes(m.finalized_features_epoch) } else { Seq::<u8>::empty() }) + (if 3 <= version { (array_bytes::<FinalizedFeatureKey>(m.finalized_features, Ctx { version: version, flexible: (version >= 3), classic: false }))->Ok_0 } else { Seq::<u8>::empty() }) + (if 3 <= version { bool_bytes(m.zk_migration_ready) } else { Seq::<u8>::empty() }) + (if (version >= 3) { uvarint_bytes(0) } else { Seq::<u8>::empty() })) + post, pre.len() as int, version) == Ok::<(ApiVersionsResponseModel, int), SerializationError>((ApiVersionsResponseModel { error_code: m.error_code, api_keys: m.api_keys, throttle_time_ms: if 1 <= version { m.throttle_time_ms } else { 0i32 }, supported_features: if 3 <= version { m.supported_features } else { Seq::<<SupportedFeatureKey as DeepView>::V>::empty() }, finalized_features_epoch: if 3 <= version { m.finalized_features_epoch } else { 0i64 }, finalized_features: if 3 <= version { m.finalized_features } else { Seq::<<FinalizedFeatureKey as DeepView>::V>::empty() }, zk_migration_ready: if 3 <= version { m.zk_migration_ready } else { false } }, pre.len() as int + ((i16_bytes(m.error_code)) + ((array_bytes::<ApiVersion>(m.api_keys, Ctx { version: version, flexible: (version >= 3), classic: false }))->Ok_0) + (if 1 <= version { i32_bytes(m.throttle_time_ms) } else { Seq::<u8>::empty() }) + (if 3 <= version { (array_bytes::<SupportedFeatureKey>(m.supported_features, Ctx { version: version, flexible: (version >= 3), classic: false }))->Ok_0 } else { Seq::<u8>::empty() }) + (if 3 <= version { i64_bytes(m.finalized_features_epoch) } else { Seq::<u8>::empty() }) + (if 3 <= version { (array_bytes::<FinalizedFeatureKey>(m.finalized_features, Ctx { version: version, flexible: (version >= 3), classic: false }))->Ok_0 } else { Seq::<u8>::empty() }) + (if 3 <= version { bool_bytes(m.zk_migration_ready) } else { Seq::<u8>::empty() }) + (if (version >= 3) { uvarint_bytes(0) } else { Seq::<u8>::empty() })).len() - (if version >= 3 { 1int } else { 0int }))),
    {
        let is_flexible = version >= 3;
        let ctx = Ctx { version, flexible: is_flexible, classic: false };
        let b0 = i16_bytes(m.error_code);
        let b1 = (array_bytes::<ApiVersion>(m.api_keys, Ctx { version: ctx.version, flexible: ctx.flexible, classic: false }))->Ok_0;
        let b2 = if 1 <= ctx.version { i32_bytes(m.throttle_time_ms) } else { Seq::<u8>::empty() };
        let b3 = if 3 <= ctx.version { (array_bytes::<SupportedFeatureKey>(m.supported_features, Ctx { version: ctx.version, flexible: ctx.flexible, classic: false }))->Ok_0 } else { Seq::<u8>::empty() };
        let b4 = if 3 <= ctx.version { i64_bytes(m.finalized_features_epoch) } else { Seq::<u8>::empty() };
        let b5 = if 3 <= ctx.version { (array_bytes::<FinalizedFeatureKey>(m.finalized_features, Ctx { version: ctx.version, flexible: ctx.flexible, classic: false }))->Ok_0 } else { Seq::<u8>::empty() };
        let b6 = if 3 <= ctx.version { bool_bytes(m.zk_migration_ready) } else { Seq::<u8>::empty() };
        let b7 = if ctx.flexible { uvarint_bytes(0) } else { Seq::<u8>::empty() };
        let e = Self::spec_serialize(m, version)->Ok_0;
        let p1 = Self::spec_serialize_part1(m, ctx)->Ok_0;
        assert(p1 =~= Seq::<u8>::empty() + b0 + b1 + b2 + b3 + b4);
        let p2 = Self::spec_serialize_part2(m, ctx)->Ok_0;
        assert(p2 =~= Seq::<u8>::empty() + b5 + b6 + b7);
        assert(e == Seq::<u8>::empty() + p1 + p2);
        assert(e =~= b0 + b1 + b2 + b3 + b4 + b5 + b6 + b7);
        if Self::reads_back_message(m, version) {
            Self::lemma_message_read_back(pre, m, post, version);
        }
    }

    /// Writing succeeds exactly when every field that the version carries can be
    /// encoded and every field that it leaves out, where leaving it out is an
    /// error, holds its default.
    #[verifier::spinoff_prover]
    pub proof fn lemma_message_write_succeeds(m: ApiVersionsResponseModel, version: i16)
        ensures
            Self::spec_serialize(m, version) is Ok <==> (array_bytes::<ApiVersion>(m.api_keys, Ctx { version: version, flexible: (version >= 3), classic: false }) is Ok) && (!(1 <= version) ==> !(m.throttle_time_ms != 0)) && ((3 <= version) ==> array_bytes::<SupportedFeatureKey>(m.supported_features, Ctx { version: version, flexible: (version >= 3), classic: false }) is Ok) && (!(3 <= version) ==> !(m.supported_features.len() != 0)) && (!(3 <= version) ==> !(m.finalized_features_epoch != 0)) && ((3 <= version) ==> array_bytes::<FinalizedFeatureKey>(m.finalized_features, Ctx { version: version, flexible: (version >= 3), classic: false }) is Ok) && (!(3 <= version) ==> !(m.finalized_features.len() != 0)) && (!(3 <= version) ==> !(m.zk_migration_ready)),
    {
        let is_flexible = version >= 3;
        let ctx = Ctx { version, flexible: is_flexible, classic: false };
    }

    /// Writes the message body for `version`, which must be a supported version.
    /// On failure the buffer is left as it was.
    pub fn serialize(&self, version: ApiVer, buf: &mut Vec<u8>) -> (r: Result<(), SerializationError>)
        requires
            0 <= version.0 <= 4,
        ensures
            write_exact(r, old(buf)@, final(buf)@, Self::spec_serialize(self.deep_view(), version.0)),
    {
        let start = buf.len();
        let r = self.write_body(version, buf);
        if r.is_err() {
            buf.truncate(start);
        }
        r
    }

    #[verifier::spinoff_prover]
    fn write_body(&self, version: ApiVer, buf: &mut Vec<u8>) -> (r: Result<(), SerializationError>)
        requires
            0 <= version.0 <= 4,
        ensures
            write_ok(r, old(buf)@, final(buf)@, Self::spec_serialize(self.deep_view(), version.0)),
    {
        let is_flexible = version.0 >= Self::get_min_flexible_version().0;
        let ctx = Ctx::new(version, is_flexible);
        let ghost mut w: Seq<u8> = Seq::empty();
        self.serialize_part1(buf, ctx)?;
        proof {
            w = w + (Self::spec_serialize_part1(self.deep_view(), ctx))->Ok_0;
        }
        assert(buf@ =~= old(buf)@ + w);
        self.serialize_part2(buf, ctx)?;
        proof {
            w = w + (Self::spec_serialize_part2(self.deep_view(), ctx))->Ok_0;
        }
        assert(buf@ =~= old(buf)@ + w);
        Ok(())
    }

    /// Reads a message body written for `version`.
    /// On failure the reader is put back where it started.
    #[verifier::spinoff_prover]
    pub fn deserialize(version: ApiVer, buf: &mut Reader) -> (r: Result<Self, SerializationError>)
        ensures
            final(buf).bytes() == old(buf).bytes(),
            read_view_exact(r, Self::spec_deserialize(old(buf).bytes(), old(buf).pos(), version.0), old(buf).pos(), final(buf).pos()),
    {
        let start = buf.position();
        let r = Self::read_body(version, buf);
        if r.is_err() {
            buf.set_position(start);
        }
        r
    }

    fn read_body(version: ApiVer, buf: &mut Reader) -> (r: Result<Self, SerializationError>)
        ensures
            final(buf).bytes() == old(buf).bytes(),
            read_view_ok(r, Self::spec_deserialize(old(buf).bytes(), old(buf).pos(), version.0), final(buf).pos()),
    {
        let is_flexible = version.0 >= Self::get_min_flexible_version().0;
        let ctx = Ctx::new(version, is_flexible);
        let error_code = buf.get_i16()?;
        let api_keys = decode_array::<ApiVersion>(buf, Ctx { version: ctx.version, flexible: ctx.flexible, classic: false })?;
        let throttle_time_ms = if 1 <= ctx.version {
            buf.get_i32()?
        } else {
            0i32
        };
        let supported_features = if 3 <= ctx.version {
            decode_array::<SupportedFeatureKey>(buf, Ctx { version: ctx.version, flexible: ctx.flexible, classic: false })?
        } else {
            new_array::<SupportedFeatureKey>()
        };
        let finalized_features_epoch = if 3 <= ctx.version {
            buf.get_i64()?
        } else {
            0i64
        };
        let finalized_features = if 3 <= ctx.version {
            decode_array::<FinalizedFeatureKey>(buf, Ctx { version: ctx.version, flexible: ctx.flexible, classic: false })?
        } else {
            new_array::<FinalizedFeatureKey>()
        };
        let zk_migration_ready = if 3 <= ctx.version {
            buf.get_bool()?
        } else {
            false
        };
        Ok(ApiVersionsResponse { error_code, api_keys, throttle_time_ms, supported_features, finalized_features_epoch, finalized_features, zk_migration_ready })
    }
}

// -------------------------------------------------------
// ApiVersion
// -------------------------------------------------------
#[derive(Clone, Debug, Default, PartialEq)]
pub struct ApiVersion {
    /// The API index.
    pub api_key: i16,
    /// The minimum supported version, inclusive.
    pub min_version: i16,
    /// The maximum supported version, inclusive.
    pub max_version: i16,
}

/// The contents of `ApiVersion`, with strings as characters and
/// nested values by their contents.
pub struct ApiVersionModel {
    pub api_key: i16,
    pub min_version: i16,
    pub max_version: i16,
}

impl DeepView for ApiVersion {
    type V = ApiVersionModel;

    open spec fn deep_view(&self) -> ApiVersionModel {
        ApiVersionModel {
            api_key: self.api_key,
            min_version: self.min_version,
            max_version: self.max_version,
        }
    }
}

impl ApiVersion {
    /// The encoding of the structure in context `ctx`.
    pub open spec fn spec_encode_body(m: ApiVersionModel, ctx: Ctx) -> Result<Seq<u8>, SerializationError> {
        let r = Ok(Seq::<u8>::empty());
        let r = then(r, Ok(i16_bytes(m.api_key)));
        let r = then(r, Ok(i16_bytes(m.min_version)));
        let r = then(r, Ok(i16_bytes(m.max_version)));
        let r = if ctx.flexible { then(r, Ok(uvarint_bytes(0))) } else { r };
        r
    }

    /// The structure read from `s` at `pos` in context `ctx`.
    pub open spec fn spec_decode_body(s: Seq<u8>, pos: int, ctx: Ctx) -> Result<(ApiVersionModel, int), SerializationError> {
        match parse_i16(s, pos) {
            Err(e) => Err(e),
            Ok((api_key, pos)) =>
            match parse_i16(s, pos) {
                Err(e) => Err(e),
                Ok((min_version, pos)) =>
                match parse_i16(s, pos) {
                    Err(e) => Err(e),
                    Ok((max_version, pos)) =>
                    match (if ctx.flexible { parse_uvarint(s, pos) } else { Ok((0u64, pos)) }) {
                        Err(e) => Err(e),
                        Ok((_tag_count, pos)) =>
                        Ok((ApiVersionModel { api_key, min_version, max_version }, pos))
                    }
                }
            }
        }
    }

    /// Values of the structure that read back from their encoding in `ctx`: every
    /// field that the version leaves out holds its default, and nested values
    /// read back.
    pub open spec fn reads_back_body(m: ApiVersionModel, ctx: Ctx) -> bool {
        true
    }

    /// A value that can be written in `ctx` and reads back: decoding its encoding,
    /// wherever it stands, gives the value and the position just after it.
    #[verifier::spinoff_prover]
    pub proof fn lemma_body_read_back(pre: Seq<u8>, m: ApiVersionModel, post: Seq<u8>, ctx: Ctx)
        requires
            Self::spec_encode_body(m, ctx) is Ok,
            Self::reads_back_body(m, ctx),
        ensures
            Self::spec_decode_body(pre + Self::spec_encode_body(m, ctx)->Ok_0 + post, pre.len() as int, ctx) == Ok::<(ApiVersionModel, int), SerializationError>((m, pre.len() as int + Self::spec_encode_body(m, ctx)->Ok_0.len())),
    {
        let b0 = i16_bytes(m.api_key);
        let b1 = i16_bytes(m.min_version);
        let b2 = i16_bytes(m.max_version);
        let b3 = if ctx.flexible { uvarint_bytes(0) } else { Seq::<u8>::empty() };
        let t4 = post;
        let t3 = b3 + t4;
        let t2 = b2 + t3;
        let t1 = b1 + t2;
        let t0 = b0 + t1;
        let e = Self::spec_encode_body(m, ctx)->Ok_0;
        assert(e =~= Seq::<u8>::empty() + b0 + b1 + b2 + b3);
        lemma_seq_assoc((((Seq::<u8>::empty() + b0) + b1) + b2), b3, post);
        lemma_seq_assoc(((Seq::<u8>::empty() + b0) + b1), b2, (b3 + post));
        lemma_seq_assoc((Seq::<u8>::empty() + b0), b1, (b2 + (b3 + post)));
        lemma_seq_assoc(Seq::<u8>::empty(), b0, (b1 + (b2 + (b3 + post))));
        lemma_seq_empty_left((b0 + (b1 + (b2 + (b3 + post)))));
        let s = pre + e + post;
        lemma_seq_assoc(pre, e, post);
        assert(s == pre + t0);
        let a0 = pre;
        assert(parse_i16(s, a0.len() as int) == Ok::<(i16, int), SerializationError>((m.api_key, a0.len() as int + b0.len()))) by {
            lemma_seq_assoc(a0, b0, t1);
            lemma_i16_roundtrip(a0, m.api_key, t1);
        }
        lemma_seq_assoc(a0, b0, t1);
        let a1 = a0 + b0;
        assert(parse_i16(s, a1.len() as int) == Ok::<(i16, int), SerializationError>((m.min_version, a1.len() as int + b1.len()))) by {
            lemma_seq_assoc(a1, b1, t2);
            lemma_i16_roundtrip(a1, m.min_version, t2);
        }
        lemma_seq_assoc(a1, b1, t2);
        let a2 = a1 + b1;
        assert(parse_i16(s, a2.len() as int) == Ok::<(i16, int), SerializationError>((m.max_version, a2.len() as int + b2.len()))) by {
            lemma_seq_assoc(a2, b2, t3);
            lemma_i16_roundtrip(a2, m.max_version, t3);
        }
        lemma_seq_assoc(a2, b2, t3);
        let a3 = a2 + b2;
        if ctx.flexible {
            assert(parse_uvarint(s, a3.len() as int) == Ok::<(u64, int), SerializationError>((0u64, a3.len() as int + b3.len()))) by {
                lemma_seq_assoc(a3, b3, t4);
                lemma_uvarint_roundtrip(a3, 0, t4);
            }
        }
    }

    /// The bytes written: the encoding of each field, in the order of the
    /// protocol's layout. Reading them back, wherever they stand, gives the value,
    /// with each field that the version leaves out at its default.
    #[verifier::spinoff_prover]
    pub proof fn lemma_body_layout(pre: Seq<u8>, m: ApiVersionModel, post: Seq<u8>, ctx: Ctx)
        requires
            Self::spec_encode_body(m, ctx) is Ok,
        ensures
            Self::spec_encode_body(m, ctx) == Ok::<Seq<u8>, SerializationError>((i16_bytes(m.api_key)) + (i16_bytes(m.min_version)) + (i16_bytes(m.max_version)) + (if ctx.flexible { uvarint_bytes(0) } else { Seq::<u8>::empty() })),
            Self::reads_back_body(m, ctx) ==> Self::spec_decode_body(pre + ((i16_bytes(m.api_key)) + (i16_bytes(m.min_version)) + (i16_bytes(m.max_version)) + (if ctx.flexible { uvarint_bytes(0) } else { Seq::<u8>::empty() })) + post, pre.len() as int, ctx) == Ok::<(ApiVersionModel, int), SerializationError>((m, pre.len() as int + ((i16_bytes(m.api_key)) + (i16_bytes(m.min_version)) + (i16_bytes(m.max_version)) + (if ctx.flexible { uvarint_bytes(0) } else { Seq::<u8>::empty() })).len())),
    {
        let b0 = i16_bytes(m.api_key);
        let b1 = i16_bytes(m.min_version);
        let b2 = i16_bytes(m.max_version);
        let b3 = if ctx.flexible { uvarint_bytes(0) } else { Seq::<u8>::empty() };
        let e = Self::spec_encode_body(m, ctx)->Ok_0;
        assert(e =~= Seq::<u8>::empty() + b0 + b1 + b2 + b3);
        assert(e =~= b0 + b1 + b2 + b3);
        if Self::reads_back_body(m, ctx) {
            Self::lemma_body_read_back(pre, m, post, ctx);
        }
    }

    /// Writing succeeds exactly when every field that the version carries can be
    /// encoded and every field that it leaves out, where leaving it out is an
    /// error, holds its default.
    #[verifier::spinoff_prover]
    pub proof fn lemma_body_write_succeeds(m: ApiVersionModel, ctx: Ctx)
        ensures
            Self::spec_encode_body(m, ctx) is Ok <==> true,
    {
    }

    /// Writes the structure for `version`, with the compact encodings when `is_flexible`.
    /// On failure the buffer is left as it was.
    pub fn encode(&self, buf: &mut Vec<u8>, version: ApiVer, is_flexible: bool) -> (r: Result<(), SerializationError>)
        ensures
            write_exact(r, old(buf)@, final(buf)@, Self::spec_encode_body(self.deep_view(), Ctx { version: version.0, flexible: is_flexible, classic: false })),
    {
        let start = buf.len();
        let r = self.encode_ctx(buf, Ctx::new(version, is_flexible));
        if r.is_err() {
            buf.truncate(start);
        }
        r
    }

    /// Reads the structure as written for `version`.
    /// On failure the reader is put back where it started.
    pub fn decode(buf: &mut Reader, version: ApiVer, is_flexible: bool) -> (r: Result<Self, SerializationError>)
        ensures
            final(buf).bytes() == old(buf).bytes(),
            read_view_exact(r, Self::spec_decode_body(old(buf).bytes(), old(buf).pos(), Ctx { version: version.0, flexible: is_flexible, classic: false }), old(buf).pos(), final(buf).pos()),
    {
        let start = buf.position();
        let r = Self::decode_ctx(buf, Ctx::new(version, is_flexible));
        if r.is_err() {
            buf.set_position(start);
        }
        r
    }
}

impl KafkaCodec for ApiVersion {
    open spec fn spec_encode(m: ApiVersionModel, ctx: Ctx) -> Result<Seq<u8>, SerializationError> {
        Self::spec_encode_body(m, ctx)
    }

    open spec fn spec_decode(s: Seq<u8>, pos: int, ctx: Ctx) -> Result<(ApiVersionModel, int), SerializationError> {
        Self::spec_decode_body(s, pos, ctx)
    }

    open spec fn reads_back(v: ApiVersionModel, ctx: Ctx) -> bool {
        Self::reads_back_body(v, ctx)
    }

    proof fn lemma_read_back(pre: Seq<u8>, v: ApiVersionModel, post: Seq<u8>, ctx: Ctx) {
        Self::lemma_body_read_back(pre, v, post, ctx);
        assert(Self::spec_decode(pre + Self::spec_encode(v, ctx)->Ok_0 + post, pre.len() as int, ctx)
            == Self::spec_decode_body(pre + Self::spec_encode_body(v, ctx)->Ok_0 + post, pre.len() as int, ctx));
    }

    fn encode_ctx(&self, buf: &mut Vec<u8>, ctx: Ctx) -> (r: Result<(), SerializationError>) {
        let ghost mut w: Seq<u8> = Seq::empty();
        put_i16(buf, self.api_key);
        proof {
            w = w + i16_bytes(self.api_key);
        }
        assert(buf@ =~= old(buf)@ + w);
        put_i16(buf, self.min_version);
        proof {
            w = w + i16_bytes(self.min_version);
        }
        assert(buf@ =~= old(buf)@ + w);
        put_i16(buf, self.max_version);
        proof {
            w = w + i16_bytes(self.max_version);
        }
        assert(buf@ =~= old(buf)@ + w);
        if ctx.flexible {
            encode_unsigned_varint(0, buf);
            proof {
                w = w + uvarint_bytes(0);
            }
            assert(buf@ =~= old(buf)@ + w);
        }
        Ok(())
    }

    fn decode_ctx(buf: &mut Reader, ctx: Ctx) -> (r: Result<Self, SerializationError>) {
        let api_key = buf.get_i16()?;
        let min_version = buf.get_i16()?;
        let max_version = buf.get_i16()?;
        if ctx.flexible {
            let (_tag_count, _) = decode_unsigned_varint(buf)?;
        }
        Ok(ApiVersion { api_key, min_version, max_version })
    }
}

// -------------------------------------------------------
// FinalizedFeatureKey
// -------------------------------------------------------
#[derive(Clone, Debug, Default, PartialEq)]
pub struct FinalizedFeatureKey {
    /// The name of the feature.
    /// Available in version 3+.
    pub name: String,
    /// The cluster-wide finalized max version level for the feature.
    /// Available in version 3+.
    pub max_version_level: i16,
    /// The cluster-wide finalized min version level for the feature.
    /// Available in version 3+.
    pub min_version_level: i16,
}

/// The contents of `FinalizedFeatureKey`, with strings as characters and
/// nested values by their contents.
pub struct FinalizedFeatureKeyModel {
    pub name: Seq<char>,
    pub max_version_level: i16,
    pub min_version_level: i16,
}

impl DeepView for FinalizedFeatureKey {
    type V = FinalizedFeatureKeyModel;

    open spec fn deep_view(&self) -> FinalizedFeatureKeyModel {
        FinalizedFeatureKeyModel {
            name: self.name.deep_view(),
            max_version_level: self.max_version_level,
            min_version_level: self.min_version_level,
        }
    }
}

impl FinalizedFeatureKey {
    /// The encoding of the structure in context `ctx`.
    pub open spec fn spec_encode_body(m: FinalizedFeatureKeyModel, ctx: Ctx) -> Result<Seq<u8>, SerializationError> {
        let r = Ok(Seq::<u8>::empty());
        let r = if 3 <= ctx.version { then(r, string_bytes(m.name, ctx.flexible)) } else { r };
        let r = if 3 <= ctx.version { then(r, Ok(i16_bytes(m.max_version_level))) } else { r };
        let r = if 3 <= ctx.version { then(r, Ok(i16_bytes(m.min_version_level))) } else { r };
        let r = if ctx.flexible { then(r, Ok(uvarint_bytes(0))) } else { r };
        r
    }

    /// The structure read from `s` at `pos` in context `ctx`.
    pub open spec fn spec_decode_body(s: Seq<u8>, pos: int, ctx: Ctx) -> Result<(FinalizedFeatureKeyModel, int), SerializationError> {
        match (if 3 <= ctx.version { parse_string(s, pos, ctx.flexible) } else { Ok((Seq::<char>::empty(), pos)) }) {
            Err(e) => Err(e),
            Ok((name, pos)) =>
            match (if 3 <= ctx.version { parse_i16(s, pos) } else { Ok((0i16, pos)) }) {
                Err(e) => Err(e),
                Ok((max_version_level, pos)) =>
                match (if 3 <= ctx.version { parse_i16(s, pos) } else { Ok((0i16, pos)) }) {
                    Err(e) => Err(e),
                    Ok((min_version_level, pos)) =>
                    match (if ctx.flexible { parse_uvarint(s, pos) } else { Ok((0u64, pos)) }) {
                        Err(e) => Err(e),
                        Ok((_tag_count, pos)) =>
                        Ok((FinalizedFeatureKeyModel { name, max_version_level, min_version_level }, pos))
                    }
                }
            }
        }
    }

    /// The structure as it reads back in context `ctx`: each field that the
    /// version leaves out is at its default.
    #[verifier::opaque]
    pub open spec fn spec_read_as(m: FinalizedFeatureKeyModel, ctx: Ctx) -> FinalizedFeatureKeyModel {
        FinalizedFeatureKeyModel { name: if 3 <= ctx.version { m.name } else { Seq::<char>::empty() }, max_version_level: if 3 <= ctx.version { m.max_version_level } else { 0i16 }, min_version_level: if 3 <= ctx.version { m.min_version_level } else { 0i16 } }
    }

    /// Values that read back in context `ctx`: nested values read back. A field
    /// that the version leaves out is read as its default.
    pub open spec fn reads_back_body(m: FinalizedFeatureKeyModel, ctx: Ctx) -> bool {
        true
    }

    /// A value that can be written in context `ctx` and reads back: decoding its
    /// encoding, wherever it stands, gives the value as `spec_read_as` gives it and
    /// the position just after it.
    #[verifier::spinoff_prover]
    pub proof fn lemma_body_read_back(pre: Seq<u8>, m: FinalizedFeatureKeyModel, post: Seq<u8>, ctx: Ctx)
        requires
            Self::spec_encode_body(m, ctx) is Ok,
            Self::reads_back_body(m, ctx),
        ensures
            Self::spec_decode_body(pre + Self::spec_encode_body(m, ctx)->Ok_0 + post, pre.len() as int, ctx) == Ok::<(FinalizedFeatureKeyModel, int), SerializationError>((Self::spec_read_as(m, ctx), pre.len() as int + Self::spec_encode_body(m, ctx)->Ok_0.len())),
    {
        reveal(FinalizedFeatureKey::spec_read_as);
        let b0 = if 3 <= ctx.version { (string_bytes(m.name, ctx.flexible))->Ok_0 } else { Seq::<u8>::empty() };
        let b1 = if 3 <= ctx.version { i16_bytes(m.max_version_level) } else { Seq::<u8>::empty() };
        let b2 = if 3 <= ctx.version { i16_bytes(m.min_version_level) } else { Seq::<u8>::empty() };
        let b3 = if ctx.flexible { uvarint_bytes(0) } else { Seq::<u8>::empty() };
        let t4 = post;
        let t3 = b3 + t4;
        let t2 = b2 + t3;
        let t1 = b1 + t2;
        let t0 = b0 + t1;
        let e = Self::spec_encode_body(m, ctx)->Ok_0;
        assert(e =~= Seq::<u8>::empty() + b0 + b1 + b2 + b3);
        lemma_seq_assoc((((Seq::<u8>::empty() + b0) + b1) + b2), b3, post);
        lemma_seq_assoc(((Seq::<u8>::empty() + b0) + b1), b2, (b3 + post));
        lemma_seq_assoc((Seq::<u8>::empty() + b0), b1, (b2 + (b3 + post)));
        lemma_seq_assoc(Seq::<u8>::empty(), b0, (b1 + (b2 + (b3 + post))));
        lemma_seq_empty_left((b0 + (b1 + (b2 + (b3 + post)))));
        let s = pre + e + post;
        lemma_seq_assoc(pre, e, post);
        assert(s == pre + t0);
        let a0 = pre;
        if 3 <= ctx.version {
            assert(parse_string(s, a0.len() as int, ctx.flexible) == Ok::<(Seq<char>, int), SerializationError>((m.name, a0.len() as int + b0.len()))) by {
                assert(string_bytes(m.name, ctx.flexible) is Ok);
                lemma_seq_assoc(a0, b0, t1);
                lemma_string_roundtrip(a0, m.name, t1, ctx.flexible);
            }
        }
        lemma_seq_assoc(a0, b0, t1);
        let a1 = a0 + b0;
        if 3 <= ctx.version {
            assert(parse_i16(s, a1.len() as int) == Ok::<(i16, int), SerializationError>((m.max_version_level, a1.len() as int + b1.len()))) by {
                lemma_seq_assoc(a1, b1, t2);
                lemma_i16_roundtrip(a1, m.max_version_level, t2);
            }
        }
        lemma_seq_assoc(a1, b1, t2);
        let a2 = a1 + b1;
        if 3 <= ctx.version {
            assert(parse_i16(s, a2.len() as int) == Ok::<(i16, int), SerializationError>((m.min_version_level, a2.len() as int + b2.len()))) by {
                lemma_seq_assoc(a2, b2, t3);
                lemma_i16_roundtrip(a2, m.min_version_level, t3);
            }
        }
        lemma_seq_assoc(a2, b2, t3);
        let a3 = a2 + b2;
        if ctx.flexible {
            assert(parse_uvarint(s, a3.len() as int) == Ok::<(u64, int), SerializationError>((0u64, a3.len() as int + b3.len()))) by {
                lemma_seq_assoc(a3, b3, t4);
                lemma_uvarint_roundtrip(a3, 0, t4);
            }
        }
    }

    /// The bytes written: the encoding of each field, in the order of the
    /// protocol's layout. Reading them back, wherever they stand, gives the value,
    /// with each field that the version leaves out at its default.
    #[verifier::spinoff_prover]
    pub proof fn lemma_body_layout(pre: Seq<u8>, m: FinalizedFeatureKeyModel, post: Seq<u8>, ctx: Ctx)
        requires
            Self::spec_encode_body(m, ctx) is Ok,
        ensures
            Self::spec_encode_body(m, ctx) == Ok::<Seq<u8>, SerializationError>((if 3 <= ctx.version { (string_bytes(m.name, ctx.flexible))->Ok_0 } else { Seq::<u8>::empty() }) + (if 3 <= ctx.version { i16_bytes(m.max_version_level) } else { Seq::<u8>::empty() }) + (if 3 <= ctx.version { i16_bytes(m.min_version_level) } else { Seq::<u8>::empty() }) + (if ctx.flexible { uvarint_bytes(0) } else { Seq::<u8>::empty() })),
            Self::reads_back_body(m, ctx) ==> Self::spec_decode_body(pre + ((if 3 <= ctx.version { (string_bytes(m.name, ctx.flexible))->Ok_0 } else { Seq::<u8>::empty() }) + (if 3 <= ctx.version { i16_bytes(m.max_version_level) } else { Seq::<u8>::empty() }) + (if 3 <= ctx.version { i16_bytes(m.min_version_level) } else { Seq::<u8>::empty() }) + (if ctx.flexible { uvarint_bytes(0) } else { Seq::<u8>::empty() })) + post, pre.len() as int, ctx) == Ok::<(FinalizedFeatureKeyModel, int), SerializationError>((FinalizedFeatureKeyModel { name: if 3 <= ctx.version { m.name } else { Seq::<char>::empty() }, max_version_level: if 3 <= ctx.version { m.max_version_level } else { 0i16 }, min_version_level: if 3 <= ctx.version { m.min_version_level } else { 0i16 } }, pre.len() as int + ((if 3 <= ctx.version { (string_bytes(m.name, ctx.flexible))->Ok_0 } else { Seq::<u8>::empty() }) + (if 3 <= ctx.version { i16_bytes(m.max_version_level) } else { Seq::<u8>::empty() }) + (if 3 <= ctx.version { i16_bytes(m.min_version_level) } else { Seq::<u8>::empty() }) + (if ctx.flexible { uvarint_bytes(0) } else { Seq::<u8>::empty() })).len())),
    {
        let b0 = if 3 <= ctx.version { (string_bytes(m.name, ctx.flexible))->Ok_0 } else { Seq::<u8>::empty() };
        let b1 = if 3 <= ctx.version { i16_bytes(m.max_version_level) } else { Seq::<u8>::empty() };
        let b2 = if 3 <= ctx.version { i16_bytes(m.min_version_level) } else { Seq::<u8>::empty() };
        let b3 = if ctx.flexible { uvarint_bytes(0) } else { Seq::<u8>::empty() };
        let e = Self::spec_encode_body(m, ctx)->Ok_0;
        assert(e =~= Seq::<u8>::empty() + b0 + b1 + b2 + b3);
        assert(e =~= b0 + b1 + b2 + b3);
        if Self::reads_back_body(m, ctx) {
            Self::lemma_body_read_back(pre, m, post, ctx);
            reveal(FinalizedFeatureKey::spec_read_as);
        }
    }

    /// Writing succeeds exactly when every field that the version carries can be
    /// encoded and every field that it leaves out, where leaving it out is an
    /// error, holds its default.
    #[verifier::spinoff_prover]
    pub proof fn lemma_body_write_succeeds(m: FinalizedFeatureKeyModel, ctx: Ctx)
        ensures
            Self::spec_encode_body(m, ctx) is Ok <==> ((3 <= ctx.version) ==> string_bytes(m.name, ctx.flexible) is Ok),
    {
    }

    /// Writes the structure for `version`, with the compact encodings when `is_flexible`.
    /// On failure the buffer is left as it was.
    pub fn encode(&self, buf: &mut Vec<u8>, version: ApiVer, is_flexible: bool) -> (r: Result<(), SerializationError>)
        ensures
            write_exact(r, old(buf)@, final(buf)@, Self::spec_encode_body(self.deep_view(), Ctx { version: version.0, flexible: is_flexible, classic: false })),
    {
        let start = buf.len();
        let r = self.encode_ctx(buf, Ctx::new(version, is_flexible));
        if r.is_err() {
            buf.truncate(start);
        }
        r
    }

    /// Reads the structure as written for `version`.
    /// On failure the reader is put back where it started.
    pub fn decode(buf: &mut Reader, version: ApiVer, is_flexible: bool) -> (r: Result<Self, SerializationError>)
        ensures
            final(buf).bytes() == old(buf).bytes(),
            read_view_exact(r, Self::spec_decode_body(old(buf).bytes(), old(buf).pos(), Ctx { version: version.0, flexible: is_flexible, classic: false }), old(buf).pos(), final(buf).pos()),
    {
        let start = buf.position();
        let r = Self::decode_ctx(buf, Ctx::new(version, is_flexible));
        if r.is_err() {
            buf.set_position(start);
        }
        r
    }
}

impl KafkaCodec for FinalizedFeatureKey {
    open spec fn spec_encode(m: FinalizedFeatureKeyModel, ctx: Ctx) -> Result<Seq<u8>, SerializationError> {
        Self::spec_encode_body(m, ctx)
    }

    open spec fn spec_decode(s: Seq<u8>, pos: int, ctx: Ctx) -> Result<(FinalizedFeatureKeyModel, int), SerializationError> {
        Self::spec_decode_body(s, pos, ctx)
    }

    open spec fn reads_back(v: FinalizedFeatureKeyModel, ctx: Ctx) -> bool {
        Self::reads_back_body(v, ctx) && Self::spec_read_as(v, ctx) == v
    }

    proof fn lemma_read_back(pre: Seq<u8>, v: FinalizedFeatureKeyModel, post: Seq<u8>, ctx: Ctx) {
        Self::lemma_body_read_back(pre, v, post, ctx);
        assert(Self::spec_decode(pre + Self::spec_encode(v, ctx)->Ok_0 + post, pre.len() as int, ctx)
            == Self::spec_decode_body(pre + Self::spec_encode_body(v, ctx)->Ok_0 + post, pre.len() as int, ctx));
    }

    fn encode_ctx(&self, buf: &mut Vec<u8>, ctx: Ctx) -> (r: Result<(), SerializationError>) {
        let ghost mut w: Seq<u8> = Seq::empty();
        if 3 <= ctx.version {
            encode_string(&self.name, buf, ctx.flexible)?;
            proof {
                w = w + (string_bytes(self.name.deep_view(), ctx.flexible))->Ok_0;
            }
            assert(buf@ =~= old(buf)@ + w);
        }
        if 3 <= ctx.version {
            put_i16(buf, self.max_version_level);
            proof {
                w = w + i16_bytes(self.max_version_level);
            }
            assert(buf@ =~= old(buf)@ + w);
        }
        if 3 <= ctx.version {
            put_i16(buf, self.min_version_level);
            proof {
                w = w + i16_bytes(self.min_version_level);
            }
            assert(buf@ =~= old(buf)@ + w);
        }
        if ctx.flexible {
            encode_unsigned_varint(0, buf);
            proof {
                w = w + uvarint_bytes(0);
            }
            assert(buf@ =~= old(buf)@ + w);
        }
        Ok(())
    }

    fn decode_ctx(buf: &mut Reader, ctx: Ctx) -> (r: Result<Self, SerializationError>) {
        let name = if 3 <= ctx.version {
            buf.get_string(ctx.flexible)?
        } else {
            String::new()
        };
        let max_version_level = if 3 <= ctx.version {
            buf.get_i16()?
        } else {
            0i16
        };
        let min_version_level = if 3 <= ctx.version {
            buf.get_i16()?
        } else {
            0i16
        };
        if ctx.flexible {
            let (_tag_count, _) = decode_unsigned_varint(buf)?;
        }
        Ok(FinalizedFeatureKey { name, max_version_level, min_version_level })
    }
}

// -------------------------------------------------------
// SupportedFeatureKey
// -------------------------------------------------------
#[derive(Clone, Debug, Default, PartialEq)]
pub struct SupportedFeatureKey {
    /// The name of the feature.
    /// Available in version 3+.
    pub name: String,
    /// The minimum supported version for the feature.
    /// Available in version 3+.
    pub min_version: i16,
    /// The maximum supported version for the feature.
    /// Available in version 3+.
    pub max_version: i16,
}

/// The contents of `SupportedFeatureKey`, with strings as characters and
/// nested values by their contents.
pub struct SupportedFeatureKeyModel {
    pub name: Seq<char>,
    pub min_version: i16,
    pub max_version: i16,
}

impl DeepView for SupportedFeatureKey {
    type V = SupportedFeatureKeyModel;

    open spec fn deep_view(&self) -> SupportedFeatureKeyModel {
        SupportedFeatureKeyModel {
            name: self.name.deep_view(),
            min_version: self.min_version,
            max_version: self.max_version,
        }
    }
}

impl SupportedFeatureKey {
    /// The encoding of the structure in context `ctx`.
    pub open spec fn spec_encode_body(m: SupportedFeatureKeyModel, ctx: Ctx) -> Result<Seq<u8>, SerializationError> {
        let r = Ok(Seq::<u8>::empty());
        let r = if 3 <= ctx.version { then(r, string_bytes(m.name, ctx.flexible)) } else { r };
        let r = if 3 <= ctx.version { then(r, Ok(i16_bytes(m.min_version))) } else { r };
        let r = if 3 <= ctx.version { then(r, Ok(i16_bytes(m.max_version))) } else { r };
        let r = if ctx.flexible { then(r, Ok(uvarint_bytes(0))) } else { r };
        r
    }

    /// The structure read from `s` at `pos` in context `ctx`.
    pub open spec fn spec_decode_body(s: Seq<u8>, pos: int, ctx: Ctx) -> Result<(SupportedFeatureKeyModel, int), SerializationError> {
        match (if 3 <= ctx.version { parse_string(s, pos, ctx.flexible) } else { Ok((Seq::<char>::empty(), pos)) }) {
            Err(e) => Err(e),
            Ok((name, pos)) =>
            match (if 3 <= ctx.version { parse_i16(s, pos) } else { Ok((0i16, pos)) }) {
                Err(e) => Err(e),
                Ok((min_version, pos)) =>
                match (if 3 <= ctx.version { parse_i16(s, pos) } else { Ok((0i16, pos)) }) {
                    Err(e) => Err(e),
                    Ok((max_version, pos)) =>
                    match (if ctx.flexible { parse_uvarint(s, pos) } else { Ok((0u64, pos)) }) {
                        Err(e) => Err(e),
                        Ok((_tag_count, pos)) =>
                        Ok((SupportedFeatureKeyModel { name, min_version, max_version }, pos))
                    }
                }
            }
        }
    }

    /// The structure as it reads back in context `ctx`: each field that the
    /// version leaves out is at its default.
    #[verifier::opaque]
    pub open spec fn spec_read_as(m: SupportedFeatureKeyModel, ctx: Ctx) -> SupportedFeatureKeyModel {
        SupportedFeatureKeyModel { name: if 3 <= ctx.version { m.name } else { Seq::<char>::empty() }, min_version: if 3 <= ctx.version { m.min_version } else { 0i16 }, max_version: if 3 <= ctx.version { m.max_version } else { 0i16 } }
    }

    /// Values that read back in context `ctx`: nested values read back. A field
    /// that the version leaves out is read as its default.
    pub open spec fn reads_back_body(m: SupportedFeatureKeyModel, ctx: Ctx) -> bool {
        true
    }

    /// A value that can be written in context `ctx` and reads back: decoding its
    /// encoding, wherever it stands, gives the value as `spec_read_as` gives it and
    /// the position just after it.
    #[verifier::spinoff_prover]
    pub proof fn lemma_body_read_back(pre: Seq<u8>, m: SupportedFeatureKeyModel, post: Seq<u8>, ctx: Ctx)
        requires
            Self::spec_encode_body(m, ctx) is Ok,
            Self::reads_back_body(m, ctx),
        ensures
            Self::spec_decode_body(pre + Self::spec_encode_body(m, ctx)->Ok_0 + post, pre.len() as int, ctx) == Ok::<(SupportedFeatureKeyModel, int), SerializationError>((Self::spec_read_as(m, ctx), pre.len() as int + Self::spec_encode_body(m, ctx)->Ok_0.len())),
    {
        reveal(SupportedFeatureKey::spec_read_as);
        let b0 = if 3 <= ctx.version { (string_bytes(m.name, ctx.flexible))->Ok_0 } else { Seq::<u8>::empty() };
        let b1 = if 3 <= ctx.version { i16_bytes(m.min_version) } else { Seq::<u8>::empty() };
        let b2 = if 3 <= ctx.version { i16_bytes(m.max_version) } else { Seq::<u8>::empty() };
        let b3 = if ctx.flexible { uvarint_bytes(0) } else { Seq::<u8>::empty() };
        let t4 = post;
        let t3 = b3 + t4;
        let t2 = b2 + t3;
        let t1 = b1 + t2;
        let t0 = b0 + t1;
        let e = Self::spec_encode_body(m, ctx)->Ok_0;
        assert(e =~= Seq::<u8>::empty() + b0 + b1 + b2 + b3);
        lemma_seq_assoc((((Seq::<u8>::empty() + b0) + b1) + b2), b3, post);
        lemma_seq_assoc(((Seq::<u8>::empty() + b0) + b1), b2, (b3 + post));
        lemma_seq_assoc((Seq::<u8>::empty() + b0), b1, (b2 + (b3 + post)));
        lemma_seq_assoc(Seq::<u8>::empty(), b0, (b1 + (b2 + (b3 + post))));
        lemma_seq_empty_left((b0 + (b1 + (b2 + (b3 + post)))));
        let s = pre + e + post;
        lemma_seq_assoc(pre, e, post);
        assert(s == pre + t0);
        let a0 = pre;
        if 3 <= ctx.version {
            assert(parse_string(s, a0.len() as int, ctx.flexible) == Ok::<(Seq<char>, int), SerializationError>((m.name, a0.len() as int + b0.len()))) by {
                assert(string_bytes(m.name, ctx.flexible) is Ok);
                lemma_seq_assoc(a0, b0, t1);
                lemma_string_roundtrip(a0, m.name, t1, ctx.flexible);
            }
        }
        lemma_seq_assoc(a0, b0, t1);
        let a1 = a0 + b0;
        if 3 <= ctx.version {
            assert(parse_i16(s, a1.len() as int) == Ok::<(i16, int), SerializationError>((m.min_version, a1.len() as int + b1.len()))) by {
                lemma_seq_assoc(a1, b1, t2);
                lemma_i16_roundtrip(a1, m.min_version, t2);
            }
        }
        lemma_seq_assoc(a1, b1, t2);
        let a2 = a1 + b1;
        if 3 <= ctx.version {
            assert(parse_i16(s, a2.len() as int) == Ok::<(i16, int), SerializationError>((m.max_version, a2.len() as int + b2.len()))) by {
                lemma_seq_assoc(a2, b2, t3);
                lemma_i16_roundtrip(a2, m.max_version, t3);
            }
        }
        lemma_seq_assoc(a2, b2, t3);
        let a3 = a2 + b2;
        if ctx.flexible {
            assert(parse_uvarint(s, a3.len() as int) == Ok::<(u64, int), SerializationError>((0u64, a3.len() as int + b3.len()))) by {
                lemma_seq_assoc(a3, b3, t4);
                lemma_uvarint_roundtrip(a3, 0, t4);
            }
        }
    }

    /// The bytes written: the encoding of each field, in the order of the
    /// protocol's layout. Reading them back, wherever they stand, gives the value,
    /// with each field that the version leaves out at its default.
    #[verifier::spinoff_prover]
    pub proof fn lemma_body_layout(pre: Seq<u8>, m: SupportedFeatureKeyModel, post: Seq<u8>, ctx: Ctx)
        requires
            Self::spec_encode_body(m, ctx) is Ok,
        ensures
            Self::spec_encode_body(m, ctx) == Ok::<Seq<u8>, SerializationError>((if 3 <= ctx.version { (string_bytes(m.name, ctx.flexible))->Ok_0 } else { Seq::<u8>::empty() }) + (if 3 <= ctx.version { i16_bytes(m.min_version) } else { Seq::<u8>::empty() }) + (if 3 <= ctx.version { i16_bytes(m.max_version) } else { Seq::<u8>::empty() }) + (if ctx.flexible { uvarint_bytes(0) } else { Seq::<u8>::empty() })),
            Self::reads_back_body(m, ctx) ==> Self::spec_decode_body(pre + ((if 3 <= ctx.version { (string_bytes(m.name, ctx.flexible))->Ok_0 } else { Seq::<u8>::empty() }) + (if 3 <= ctx.version { i16_bytes(m.min_version) } else { Seq::<u8>::empty() }) + (if 3 <= ctx.version { i16_bytes(m.max_version) } else { Seq::<u8>::empty() }) + (if ctx.flexible { uvarint_bytes(0) } else { Seq::<u8>::empty() })) + post, pre.len() as int, ctx) == Ok::<(SupportedFeatureKeyModel, int), SerializationError>((SupportedFeatureKeyModel { name: if 3 <= ctx.version { m.name } else { Seq::<char>::empty() }, min_version: if 3 <= ctx.version { m.min_version } else { 0i16 }, max_version: if 3 <= ctx.version { m.max_version } else { 0i16 } }, pre.len() as int + ((if 3 <= ctx.version { (string_bytes(m.name, ctx.flexible))->Ok_0 } else { Seq::<u8>::empty() }) + (if 3 <= ctx.version { i16_bytes(m.min_version) } else { Seq::<u8>::empty() }) + (if 3 <= ctx.version { i16_bytes(m.max_version) } else { Seq::<u8>::empty() }) + (if ctx.flexible { uvarint_bytes(0) } else { Seq::<u8>::empty() })).len())),
    {
        let b0 = if 3 <= ctx.version { (string_bytes(m.name, ctx.flexible))->Ok_0 } else { Seq::<u8>::empty() };
        let b1 = if 3 <= ctx.version { i16_bytes(m.min_version) } else { Seq::<u8>::empty() };
        let b2 = if 3 <= ctx.version { i16_bytes(m.max_version) } else { Seq::<u8>::empty() };
        let b3 = if ctx.flexible { uvarint_bytes(0) } else { Seq::<u8>::empty() };
        let e = Self::spec_encode_body(m, ctx)->Ok_0;
        assert(e =~= Seq::<u8>::empty() + b0 + b1 + b2 + b3);
        assert(e =~= b0 + b1 + b2 + b3);
        if Self::reads_back_body(m, ctx) {
            Self::lemma_body_read_back(pre, m, post, ctx);
            reveal(SupportedFeatureKey::spec_read_as);
        }
    }

    /// Writing succeeds exactly when every field that the version carries can be
    /// encoded and every field that it leaves out, where leaving it out is an
    /// error, holds its default.
    #[verifier::spinoff_prover]
    pub proof fn lemma_body_write_succeeds(m: SupportedFeatureKeyModel, ctx: Ctx)
        ensures
            Self::spec_encode_body(m, ctx) is Ok <==> ((3 <= ctx.version) ==> string_bytes(m.name, ctx.flexible) is Ok),
    {
    }

    /// Writes the structure for `version`, with the compact encodings when `is_flexible`.
    /// On failure the buffer is left as it was.
    pub fn encode(&self, buf: &mut Vec<u8>, version: ApiVer, is_flexible: bool) -> (r: Result<(), SerializationError>)
        ensures
            write_exact(r, old(buf)@, final(buf)@, Self::spec_encode_body(self.deep_view(), Ctx { version: version.0, flexible: is_flexible, classic: false })),
    {
        let start = buf.len();
        let r = self.encode_ctx(buf, Ctx::new(version, is_flexible));
        if r.is_err() {
            buf.truncate(start);
        }
        r
    }

    /// Reads the structure as written for `version`.
    /// On failure the reader is put back where it started.
    pub fn decode(buf: &mut Reader, version: ApiVer, is_flexible: bool) -> (r: Result<Self, SerializationError>)
        ensures
            final(buf).bytes() == old(buf).bytes(),
            read_view_exact(r, Self::spec_decode_body(old(buf).bytes(), old(buf).pos(), Ctx { version: version.0, flexible: is_flexible, classic: false }), old(buf).pos(), final(buf).pos()),
    {
        let start = buf.position();
        let r = Self::decode_ctx(buf, Ctx::new(version, is_flexible));
        if r.is_err() {
            buf.set_position(start);
        }
        r
    }
}

impl KafkaCodec for SupportedFeatureKey {
    open spec fn spec_encode(m: SupportedFeatureKeyModel, ctx: Ctx) -> Result<Seq<u8>, SerializationError> {
        Self::spec_encode_body(m, ctx)
    }

    open spec fn spec_decode(s: Seq<u8>, pos: int, ctx: Ctx) -> Result<(SupportedFeatureKeyModel, int), SerializationError> {
        Self::spec_decode_body(s, pos, ctx)
    }

    open spec fn reads_back(v: SupportedFeatureKeyModel, ctx: Ctx) -> bool {
        Self::reads_back_body(v, ctx) && Self::spec_read_as(v, ctx) == v
    }

    proof fn lemma_read_back(pre: Seq<u8>, v: SupportedFeatureKeyModel, post: Seq<u8>, ctx: Ctx) {
        Self::lemma_body_read_back(pre, v, post, ctx);
        assert(Self::spec_decode(pre + Self::spec_encode(v, ctx)->Ok_0 + post, pre.len() as int, ctx)
            == Self::spec_decode_body(pre + Self::spec_encode_body(v, ctx)->Ok_0 + post, pre.len() as int, ctx));
    }

    fn encode_ctx(&self, buf: &mut Vec<u8>, ctx: Ctx) -> (r: Result<(), SerializationError>) {
        let ghost mut w: Seq<u8> = Seq::empty();
        if 3 <= ctx.version {
            encode_string(&self.name, buf, ctx.flexible)?;
            proof {
                w = w + (string_bytes(self.name.deep_view(), ctx.flexible))->Ok_0;
            }
            assert(buf@ =~= old(buf)@ + w);
        }
        if 3 <= ctx.version {
            put_i16(buf, self.min_version);
            proof {
                w = w + i16_bytes(self.min_version);
            }
            assert(buf@ =~= old(buf)@ + w);
        }
        if 3 <= ctx.version {
            put_i16(buf, self.max_version);
            proof {
                w = w + i16_bytes(self.max_version);
            }
            assert(buf@ =~= old(buf)@ + w);
        }
        if ctx.flexible {
            encode_unsigned_varint(0, buf);
            proof {
                w = w + uvarint_bytes(0);
            }
            assert(buf@ =~= old(buf)@ + w);
        }
        Ok(())
    }

    fn decode_ctx(buf: &mut Reader, ctx: Ctx) -> (r: Result<Self, SerializationError>) {
        let name = if 3 <= ctx.version {
            buf.get_string(ctx.flexible)?
        } else {
            String::new()
        };
        let min_version = if 3 <= ctx.version {
            buf.get_i16()?
        } else {
            0i16
        };
        let max_version = if 3 <= ctx.version {
            buf.get_i16()?
        } else {
            0i16
        };
        if ctx.flexible {
            let (_tag_count, _) = decode_unsigned_varint(buf)?;
        }
        Ok(SupportedFeatureKey { name, min_version, max_version })
    }
}

} // verus!
