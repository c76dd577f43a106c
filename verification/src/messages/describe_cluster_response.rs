//! DescribeClusterResponse (API key 60).
use vstd::prelude::*;
use crate::roundtrip::{lemma_array_roundtrip, lemma_bool_roundtrip, lemma_i16_roundtrip,
    lemma_i32_roundtrip, lemma_i8_roundtrip, lemma_items_read_back,
    lemma_nullable_string_roundtrip, lemma_seq_assoc, lemma_seq_empty_left,
    lemma_string_roundtrip, lemma_uvarint_roundtrip};
use crate::serialization::{Ctx, KafkaCodec, Reader, SerializationError, array_bytes, bool_bytes,
    decode_array, decode_unsigned_varint, encode_array, encode_nullable_string, encode_string,
    encode_unsigned_varint, i16_bytes, i32_bytes, i8_bytes, lemma_array_bytes_agree,
    lemma_parse_array_agree, map_decode_err, map_encode_err, nullable_string_bytes, parse_array,
    parse_bool, parse_i16, parse_i32, parse_i8, parse_nullable_string, parse_string,
    parse_uvarint, put_bool, put_i16, put_i32, put_i8, read_view_exact, read_view_ok,
    string_bytes, then, uvarint_bytes, write_exact, write_ok};
use crate::{ApiKey, ApiVersion};

verus! {

// -------------------------------------------------------
// DescribeClusterResponse
// -------------------------------------------------------
#[derive(Clone, Debug, Default, PartialEq)]
pub struct DescribeClusterResponse {
    /// The duration in milliseconds for which the request was throttled due to a quota violation, or zero if the request did not violate any quota.
    pub throttle_time_ms: i32,
    /// The top-level error code, or 0 if there was no error.
    pub error_code: i16,
    /// The top-level error message, or null if there was no error.
    pub error_message: Option<String>,
    /// The endpoint type that was described. 1=brokers, 2=controllers.
    /// Available in version 1+.
    pub endpoint_type: i8,
    /// The cluster ID that responding broker belongs to.
    pub cluster_id: String,
    /// The ID of the controller broker.
    pub controller_id: i32,
    /// Each broker in the response.
    pub brokers: Vec<DescribeClusterBroker>,
    /// 32-bit bitfield to represent authorized operations for this cluster.
    pub cluster_authorized_operations: i32,
}

/// The contents of `DescribeClusterResponse`, with strings as characters and
/// nested values by their contents.
pub struct DescribeClusterResponseModel {
    pub throttle_time_ms: i32,
    pub error_code: i16,
    pub error_message: Option<Seq<char>>,
    pub endpoint_type: i8,
    pub cluster_id: Seq<char>,
    pub controller_id: i32,
    pub brokers: Seq<<DescribeClusterBroker as DeepView>::V>,
    pub cluster_authorized_operations: i32,
}

impl DeepView for DescribeClusterResponse {
    type V = DescribeClusterResponseModel;

    open spec fn deep_view(&self) -> DescribeClusterResponseModel {
        DescribeClusterResponseModel {
            throttle_time_ms: self.throttle_time_ms,
            error_code: self.error_code,
            error_message: self.error_message.deep_view(),
            endpoint_type: self.endpoint_type,
            cluster_id: self.cluster_id.deep_view(),
            controller_id: self.controller_id,
            brokers: self.brokers.deep_view(),
            cluster_authorized_operations: self.cluster_authorized_operations,
        }
    }
}

impl DescribeClusterResponse {
    /// Fields 1 to 5 of the encoding.
    pub open spec fn spec_encode_classic_part1(m: DescribeClusterResponseModel) -> Result<Seq<u8>, SerializationError> {
        let r = Ok(Seq::<u8>::empty());
        let r = then(r, map_encode_err(Ok(i32_bytes(m.throttle_time_ms)), SerializationError::ValueTooLarge { message: "failed to encode ThrottleTimeMs" }));
        let r = then(r, map_encode_err(Ok(i16_bytes(m.error_code)), SerializationError::ValueTooLarge { message: "failed to encode ErrorCode" }));
        let r = then(r, map_encode_err(nullable_string_bytes(m.error_message, false), SerializationError::ValueTooLarge { message: "failed to encode ErrorMessage" }));
        let r = then(r, map_encode_err(Ok(i8_bytes(m.endpoint_type)), SerializationError::ValueTooLarge { message: "failed to encode EndpointType" }));
        let r = then(r, map_encode_err(string_bytes(m.cluster_id, false), SerializationError::ValueTooLarge { message: "failed to encode ClusterId" }));
        r
    }

    #[verifier::spinoff_prover]
    fn encode_classic_part1(&self, buf: &mut Vec<u8>) -> (r: Result<(), SerializationError>)
        ensures
            write_ok(r, old(buf)@, final(buf)@, Self::spec_encode_classic_part1(self.deep_view())),
    {
        let ghost mut w: Seq<u8> = Seq::empty();
        put_i32(buf, self.throttle_time_ms);
        proof {
            w = w + (map_encode_err(Ok(i32_bytes(self.throttle_time_ms)), SerializationError::ValueTooLarge { message: "failed to encode ThrottleTimeMs" }))->Ok_0;
        }
        assert(buf@ =~= old(buf)@ + w);
        put_i16(buf, self.error_code);
        proof {
            w = w + (map_encode_err(Ok(i16_bytes(self.error_code)), SerializationError::ValueTooLarge { message: "failed to encode ErrorCode" }))->Ok_0;
        }
        assert(buf@ =~= old(buf)@ + w);
        match encode_nullable_string(&self.error_message, buf, false) {
            Ok(()) => {},
            Err(_) => {
                return Err(SerializationError::ValueTooLarge { message: "failed to encode ErrorMessage" });
            },
        }
        proof {
            w = w + (map_encode_err(nullable_string_bytes(self.error_message.deep_view(), false), SerializationError::ValueTooLarge { message: "failed to encode ErrorMessage" }))->Ok_0;
        }
        assert(buf@ =~= old(buf)@ + w);
        put_i8(buf, self.endpoint_type);
        proof {
            w = w + (map_encode_err(Ok(i8_bytes(self.endpoint_type)), SerializationError::ValueTooLarge { message: "failed to encode EndpointType" }))->Ok_0;
        }
        assert(buf@ =~= old(buf)@ + w);
        match encode_string(&self.cluster_id, buf, false) {
            Ok(()) => {},
            Err(_) => {
                return Err(SerializationError::ValueTooLarge { message: "failed to encode ClusterId" });
            },
        }
        proof {
            w = w + (map_encode_err(string_bytes(self.cluster_id.deep_view(), false), SerializationError::ValueTooLarge { message: "failed to encode ClusterId" }))->Ok_0;
        }
        assert(buf@ =~= old(buf)@ + w);
        Ok(())
    }

    /// Fields 6 to 8 of the encoding.
    pub open spec fn spec_encode_classic_part2(m: DescribeClusterResponseModel) -> Result<Seq<u8>, SerializationError> {
        let r = Ok(Seq::<u8>::empty());
        let r = then(r, map_encode_err(Ok(i32_bytes(m.controller_id)), SerializationError::ValueTooLarge { message: "failed to encode ControllerId" }));
        let r = then(r, map_encode_err(array_bytes::<DescribeClusterBroker>(m.brokers, Ctx { version: 0, flexible: false, classic: true }), SerializationError::ValueTooLarge { message: "failed to encode Brokers" }));
        let r = then(r, map_encode_err(Ok(i32_bytes(m.cluster_authorized_operations)), SerializationError::ValueTooLarge { message: "failed to encode ClusterAuthorizedOperations" }));
        r
    }

    #[verifier::spinoff_prover]
    fn encode_classic_part2(&self, buf: &mut Vec<u8>) -> (r: Result<(), SerializationError>)
        ensures
            write_ok(r, old(buf)@, final(buf)@, Self::spec_encode_classic_part2(self.deep_view())),
    {
        let ghost mut w: Seq<u8> = Seq::empty();
        put_i32(buf, self.controller_id);
        proof {
            w = w + (map_encode_err(Ok(i32_bytes(self.controller_id)), SerializationError::ValueTooLarge { message: "failed to encode ControllerId" }))->Ok_0;
        }
        assert(buf@ =~= old(buf)@ + w);
        match encode_array(&self.brokers, buf, Ctx { version: 0, flexible: false, classic: true }) {
            Ok(()) => {},
            Err(_) => {
                return Err(SerializationError::ValueTooLarge { message: "failed to encode Brokers" });
            },
        }
        proof {
            w = w + (map_encode_err(array_bytes::<DescribeClusterBroker>(self.brokers.deep_view(), Ctx { version: 0, flexible: false, classic: true }), SerializationError::ValueTooLarge { message: "failed to encode Brokers" }))->Ok_0;
        }
        assert(buf@ =~= old(buf)@ + w);
        put_i32(buf, self.cluster_authorized_operations);
        proof {
            w = w + (map_encode_err(Ok(i32_bytes(self.cluster_authorized_operations)), SerializationError::ValueTooLarge { message: "failed to encode ClusterAuthorizedOperations" }))->Ok_0;
        }
        assert(buf@ =~= old(buf)@ + w);
        Ok(())
    }

    /// The classic encoding of the structure.
    pub open spec fn spec_encode_classic(m: DescribeClusterResponseModel) -> Result<Seq<u8>, SerializationError> {
        let r = Ok(Seq::<u8>::empty());
        let r = then(r, Self::spec_encode_classic_part1(m));
        let r = then(r, Self::spec_encode_classic_part2(m));
        r
    }

    /// Fields 1 to 5 of the encoding.
    pub open spec fn spec_encode_flexible_part1(m: DescribeClusterResponseModel, is_flexible: bool) -> Result<Seq<u8>, SerializationError> {
        let r = Ok(Seq::<u8>::empty());
        let r = then(r, map_encode_err(Ok(i32_bytes(m.throttle_time_ms)), SerializationError::ValueTooLarge { message: "failed to encode ThrottleTimeMs" }));
        let r = then(r, map_encode_err(Ok(i16_bytes(m.error_code)), SerializationError::ValueTooLarge { message: "failed to encode ErrorCode" }));
        let r = if is_flexible { match m.error_message { Some(v) => then(then(r, Ok(uvarint_bytes(1))), map_encode_err(string_bytes(v, true), SerializationError::ValueTooLarge { message: "failed to encode ErrorMessage" })), None => then(r, Ok(uvarint_bytes(0))) } } else { then(r, map_encode_err(nullable_string_bytes(m.error_message, false), SerializationError::ValueTooLarge { message: "failed to encode ErrorMessage" })) };
        let r = then(r, map_encode_err(Ok(i8_bytes(m.endpoint_type)), SerializationError::ValueTooLarge { message: "failed to encode EndpointType" }));
        let r = then(r, map_encode_err(string_bytes(m.cluster_id, is_flexible), SerializationError::ValueTooLarge { message: "failed to encode ClusterId" }));
        r
    }

    #[verifier::spinoff_prover]
    fn encode_flexible_part1(&self, buf: &mut Vec<u8>, is_flexible: bool) -> (r: Result<(), SerializationError>)
        ensures
            write_ok(r, old(buf)@, final(buf)@, Self::spec_encode_flexible_part1(self.deep_view(), is_flexible)),
    {
        let ghost mut w: Seq<u8> = Seq::empty();
        put_i32(buf, self.throttle_time_ms);
        proof {
            w = w + (map_encode_err(Ok(i32_bytes(self.throttle_time_ms)), SerializationError::ValueTooLarge { message: "failed to encode ThrottleTimeMs" }))->Ok_0;
        }
        assert(buf@ =~= old(buf)@ + w);
        put_i16(buf, self.error_code);
        proof {
            w = w + (map_encode_err(Ok(i16_bytes(self.error_code)), SerializationError::ValueTooLarge { message: "failed to encode ErrorCode" }))->Ok_0;
        }
        assert(buf@ =~= old(buf)@ + w);
        if is_flexible {
            match &self.error_message {
                Some(v) => {
                    encode_unsigned_varint(1, buf);
                    proof {
                        w = w + uvarint_bytes(1);
                    }
                    match encode_string(&*v, buf, true) {
                        Ok(()) => {},
                        Err(_) => {
                            return Err(SerializationError::ValueTooLarge { message: "failed to encode ErrorMessage" });
                        },
                    }
                    proof {
                        w = w + (map_encode_err(string_bytes((*v).deep_view(), true), SerializationError::ValueTooLarge { message: "failed to encode ErrorMessage" }))->Ok_0;
                    }
                    assert(buf@ =~= old(buf)@ + w);
                },
                None => {
                    encode_unsigned_varint(0, buf);
                    proof {
                        w = w + uvarint_bytes(0);
                    }
                    assert(buf@ =~= old(buf)@ + w);
                },
            }
        } else {
            match encode_nullable_string(&self.error_message, buf, false) {
                Ok(()) => {},
                Err(_) => {
                    return Err(SerializationError::ValueTooLarge { message: "failed to encode ErrorMessage" });
                },
            }
            proof {
                w = w + (map_encode_err(nullable_string_bytes(self.error_message.deep_view(), false), SerializationError::ValueTooLarge { message: "failed to encode ErrorMessage" }))->Ok_0;
            }
            assert(buf@ =~= old(buf)@ + w);
        }
        put_i8(buf, self.endpoint_type);
        proof {
            w = w + (map_encode_err(Ok(i8_bytes(self.endpoint_type)), SerializationError::ValueTooLarge { message: "failed to encode EndpointType" }))->Ok_0;
        }
        assert(buf@ =~= old(buf)@ + w);
        match encode_string(&self.cluster_id, buf, is_flexible) {
            Ok(()) => {},
            Err(_) => {
                return Err(SerializationError::ValueTooLarge { message: "failed to encode ClusterId" });
            },
        }
        proof {
            w = w + (map_encode_err(string_bytes(self.cluster_id.deep_view(), is_flexible), SerializationError::ValueTooLarge { message: "failed to encode ClusterId" }))->Ok_0;
        }
        assert(buf@ =~= old(buf)@ + w);
        Ok(())
    }

    /// Fields 6 to 9 of the encoding.
    pub open spec fn spec_encode_flexible_part2(m: DescribeClusterResponseModel, is_flexible: bool) -> Result<Seq<u8>, SerializationError> {
        let r = Ok(Seq::<u8>::empty());
        let r = then(r, map_encode_err(Ok(i32_bytes(m.controller_id)), SerializationError::ValueTooLarge { message: "failed to encode ControllerId" }));
        let r = then(r, map_encode_err(array_bytes::<DescribeClusterBroker>(m.brokers, Ctx { version: 0, flexible: is_flexible, classic: false }), SerializationError::ValueTooLarge { message: "failed to encode Brokers" }));
        let r = then(r, map_encode_err(Ok(i32_bytes(m.cluster_authorized_operations)), SerializationError::ValueTooLarge { message: "failed to encode ClusterAuthorizedOperations" }));
        let r = if is_flexible { then(r, Ok(uvarint_bytes(0))) } else { r };
        r
    }

    #[verifier::spinoff_prover]
    fn encode_flexible_part2(&self, buf: &mut Vec<u8>, is_flexible: bool) -> (r: Result<(), SerializationError>)
        ensures
            write_ok(r, old(buf)@, final(buf)@, Self::spec_encode_flexible_part2(self.deep_view(), is_flexible)),
    {
        let ghost mut w: Seq<u8> = Seq::empty();
        put_i32(buf, self.controller_id);
        proof {
            w = w + (map_encode_err(Ok(i32_bytes(self.controller_id)), SerializationError::ValueTooLarge { message: "failed to encode ControllerId" }))->Ok_0;
        }
        assert(buf@ =~= old(buf)@ + w);
        match encode_array(&self.brokers, buf, Ctx { version: 0, flexible: is_flexible, classic: false }) {
            Ok(()) => {},
            Err(_) => {
                return Err(SerializationError::ValueTooLarge { message: "failed to encode Brokers" });
            },
        }
        proof {
            w = w + (map_encode_err(array_bytes::<DescribeClusterBroker>(self.brokers.deep_view(), Ctx { version: 0, flexible: is_flexible, classic: false }), SerializationError::ValueTooLarge { message: "failed to encode Brokers" }))->Ok_0;
        }
        assert(buf@ =~= old(buf)@ + w);
        put_i32(buf, self.cluster_authorized_operations);
        proof {
            w = w + (map_encode_err(Ok(i32_bytes(self.cluster_authorized_operations)), SerializationError::ValueTooLarge { message: "failed to encode ClusterAuthorizedOperations" }))->Ok_0;
        }
        assert(buf@ =~= old(buf)@ + w);
        if is_flexible {
            encode_unsigned_varint(0, buf);
            proof {
                w = w + uvarint_bytes(0);
            }
            assert(buf@ =~= old(buf)@ + w);
        }
        Ok(())
    }

    /// The flexible-aware encoding of the structure.
    pub open spec fn spec_encode_flexible(m: DescribeClusterResponseModel, is_flexible: bool) -> Result<Seq<u8>, SerializationError> {
        let r = Ok(Seq::<u8>::empty());
        let r = then(r, Self::spec_encode_flexible_part1(m, is_flexible));
        let r = then(r, Self::spec_encode_flexible_part2(m, is_flexible));
        r
    }

    /// The structure read by the classic decoder.
    pub open spec fn spec_decode_classic(s: Seq<u8>, pos: int) -> Result<(DescribeClusterResponseModel, int), SerializationError> {
        match map_decode_err(parse_i32(s, pos), SerializationError::Protocol { message: "failed to decode ThrottleTimeMs" }) {
            Err(e) => Err(e),
            Ok((throttle_time_ms, pos)) =>
            match map_decode_err(parse_i16(s, pos), SerializationError::Protocol { message: "failed to decode ErrorCode" }) {
                Err(e) => Err(e),
                Ok((error_code, pos)) =>
                match map_decode_err(parse_nullable_string(s, pos, false), SerializationError::Protocol { message: "failed to decode ErrorMessage" }) {
                    Err(e) => Err(e),
                    Ok((error_message, pos)) =>
                    match map_decode_err(parse_i8(s, pos), SerializationError::Protocol { message: "failed to decode EndpointType" }) {
                        Err(e) => Err(e),
                        Ok((endpoint_type, pos)) =>
                        match map_decode_err(parse_string(s, pos, false), SerializationError::Protocol { message: "failed to decode ClusterId" }) {
                            Err(e) => Err(e),
                            Ok((cluster_id, pos)) =>
                            match map_decode_err(parse_i32(s, pos), SerializationError::Protocol { message: "failed to decode ControllerId" }) {
                                Err(e) => Err(e),
                                Ok((controller_id, pos)) =>
                                match map_decode_err(parse_array::<DescribeClusterBroker>(s, pos, Ctx { version: 0, flexible: false, classic: true }), SerializationError::Protocol { message: "failed to decode Brokers" }) {
                                    Err(e) => Err(e),
                                    Ok((brokers, pos)) =>
                                    match map_decode_err(parse_i32(s, pos), SerializationError::Protocol { message: "failed to decode ClusterAuthorizedOperations" }) {
                                        Err(e) => Err(e),
                                        Ok((cluster_authorized_operations, pos)) =>
                                        Ok((DescribeClusterResponseModel { throttle_time_ms, error_code, error_message, endpoint_type, cluster_id, controller_id, brokers, cluster_authorized_operations }, pos))
                                    }
                                }
                            }
                        }
                    }
                }
            }
        }
    }

    /// The structure read by the flexible-aware decoder.
    pub open spec fn spec_decode_flexible(s: Seq<u8>, pos: int, is_flexible: bool) -> Result<(DescribeClusterResponseModel, int), SerializationError> {
        match map_decode_err(parse_i32(s, pos), SerializationError::Protocol { message: "failed to decode ThrottleTimeMs" }) {
            Err(e) => Err(e),
            Ok((throttle_time_ms, pos)) =>
            match map_decode_err(parse_i16(s, pos), SerializationError::Protocol { message: "failed to decode ErrorCode" }) {
                Err(e) => Err(e),
                Ok((error_code, pos)) =>
                match (if is_flexible { match parse_uvarint(s, pos) { Err(e) => Err(e), Ok((present, p)) => if present == 0 { Ok((None, p)) } else { match (map_decode_err(parse_string(s, p, true), SerializationError::Protocol { message: "failed to decode ErrorMessage" })) { Err(e) => Err(e), Ok((v, q)) => Ok((Some(v), q)) } } } } else { map_decode_err(parse_nullable_string(s, pos, false), SerializationError::Protocol { message: "failed to decode ErrorMessage" }) }) {
                    Err(e) => Err(e),
                    Ok((error_message, pos)) =>
                    match map_decode_err(parse_i8(s, pos), SerializationError::Protocol { message: "failed to decode EndpointType" }) {
                        Err(e) => Err(e),
                        Ok((endpoint_type, pos)) =>
                        match map_decode_err(parse_string(s, pos, is_flexible), SerializationError::Protocol { message: "failed to decode ClusterId" }) {
                            Err(e) => Err(e),
                            Ok((cluster_id, pos)) =>
                            match map_decode_err(parse_i32(s, pos), SerializationError::Protocol { message: "failed to decode ControllerId" }) {
                                Err(e) => Err(e),
                                Ok((controller_id, pos)) =>
                                match map_decode_err(parse_array::<DescribeClusterBroker>(s, pos, Ctx { version: 0, flexible: is_flexible, classic: false }), SerializationError::Protocol { message: "failed to decode Brokers" }) {
                                    Err(e) => Err(e),
                                    Ok((brokers, pos)) =>
                                    match map_decode_err(parse_i32(s, pos), SerializationError::Protocol { message: "failed to decode ClusterAuthorizedOperations" }) {
                                        Err(e) => Err(e),
                                        Ok((cluster_authorized_operations, pos)) =>
                                        match (if is_flexible { parse_uvarint(s, pos) } else { Ok((0u64, pos)) }) {
                                            Err(e) => Err(e),
                                            Ok((_tag_count, pos)) =>
                                            Ok((DescribeClusterResponseModel { throttle_time_ms, error_code, error_message, endpoint_type, cluster_id, controller_id, brokers, cluster_authorized_operations }, pos))
                                        }
                                    }
                                }
                            }
                        }
                    }
                }
            }
        }
    }

    /// Values of the structure that read back from their classic encoding:
    /// nested values read back.
    pub open spec fn reads_back_classic(m: DescribeClusterResponseModel) -> bool {
        &&& forall|i: int| 0 <= i < m.brokers.len() ==> #[trigger] <DescribeClusterBroker as KafkaCodec>::reads_back(m.brokers[i], Ctx { version: 0, flexible: false, classic: true })
    }

    /// A value that can be written and reads back: decoding its encoding, wherever
    /// it stands, gives the value and the position just after it.
    #[verifier::spinoff_prover]
    pub proof fn lemma_classic_read_back(pre: Seq<u8>, m: DescribeClusterResponseModel, post: Seq<u8>)
        requires
            Self::spec_encode_classic(m) is Ok,
            Self::reads_back_classic(m),
        ensures
            Self::spec_decode_classic(pre + Self::spec_encode_classic(m)->Ok_0 + post, pre.len() as int) == Ok::<(DescribeClusterResponseModel, int), SerializationError>((m, pre.len() as int + Self::spec_encode_classic(m)->Ok_0.len())),
    {
        let b0 = i32_bytes(m.throttle_time_ms);
        let b1 = i16_bytes(m.error_code);
        let b2 = (nullable_string_bytes(m.error_message, false))->Ok_0;
        let b3 = i8_bytes(m.endpoint_type);
        let b4 = (string_bytes(m.cluster_id, false))->Ok_0;
        let b5 = i32_bytes(m.controller_id);
        let b6 = (array_bytes::<DescribeClusterBroker>(m.brokers, Ctx { version: 0, flexible: false, classic: true }))->Ok_0;
        let b7 = i32_bytes(m.cluster_authorized_operations);
        let t8 = post;
        let t7 = b7 + t8;
        let t6 = b6 + t7;
        let t5 = b5 + t6;
        let t4 = b4 + t5;
        let t3 = b3 + t4;
        let t2 = b2 + t3;
        let t1 = b1 + t2;
        let t0 = b0 + t1;
        let e = Self::spec_encode_classic(m)->Ok_0;
        let p1 = Self::spec_encode_classic_part1(m)->Ok_0;
        assert(p1 =~= Seq::<u8>::empty() + b0 + b1 + b2 + b3 + b4);
        lemma_seq_assoc(((((Seq::<u8>::empty() + b0) + b1) + b2) + b3), b4, t5);
        lemma_seq_assoc((((Seq::<u8>::empty() + b0) + b1) + b2), b3, (b4 + t5));
        lemma_seq_assoc(((Seq::<u8>::empty() + b0) + b1), b2, (b3 + (b4 + t5)));
        lemma_seq_assoc((Seq::<u8>::empty() + b0), b1, (b2 + (b3 + (b4 + t5))));
        lemma_seq_assoc(Seq::<u8>::empty(), b0, (b1 + (b2 + (b3 + (b4 + t5)))));
        lemma_seq_empty_left((b0 + (b1 + (b2 + (b3 + (b4 + t5))))));
        let p2 = Self::spec_encode_classic_part2(m)->Ok_0;
        assert(p2 =~= Seq::<u8>::empty() + b5 + b6 + b7);
        lemma_seq_assoc(((Seq::<u8>::empty() + b5) + b6), b7, t8);
        lemma_seq_assoc((Seq::<u8>::empty() + b5), b6, (b7 + t8));
        lemma_seq_assoc(Seq::<u8>::empty(), b5, (b6 + (b7 + t8)));
        lemma_seq_empty_left((b5 + (b6 + (b7 + t8))));
        assert(e == Seq::<u8>::empty() + p1 + p2);
        lemma_seq_assoc((Seq::<u8>::empty() + p1), p2, t8);
        lemma_seq_assoc(Seq::<u8>::empty(), p1, (p2 + t8));
        lemma_seq_empty_left((p1 + (p2 + t8)));
        let s = pre + e + post;
        lemma_seq_assoc(pre, e, post);
        assert(s == pre + t0);
        let a0 = pre;
        assert(parse_i32(s, a0.len() as int) == Ok::<(i32, int), SerializationError>((m.throttle_time_ms, a0.len() as int + b0.len()))) by {
            lemma_seq_assoc(a0, b0, t1);
            lemma_i32_roundtrip(a0, m.throttle_time_ms, t1);
        }
        lemma_seq_assoc(a0, b0, t1);
        let a1 = a0 + b0;
        assert(parse_i16(s, a1.len() as int) == Ok::<(i16, int), SerializationError>((m.error_code, a1.len() as int + b1.len()))) by {
            lemma_seq_assoc(a1, b1, t2);
            lemma_i16_roundtrip(a1, m.error_code, t2);
        }
        lemma_seq_assoc(a1, b1, t2);
        let a2 = a1 + b1;
        assert(parse_nullable_string(s, a2.len() as int, false) == Ok::<(Option<Seq<char>>, int), SerializationError>((m.error_message, a2.len() as int + b2.len()))) by {
            assert(nullable_string_bytes(m.error_message, false) is Ok);
            lemma_seq_assoc(a2, b2, t3);
            lemma_nullable_string_roundtrip(a2, m.error_message, t3, false);
        }
        lemma_seq_assoc(a2, b2, t3);
        let a3 = a2 + b2;
        assert(parse_i8(s, a3.len() as int) == Ok::<(i8, int), SerializationError>((m.endpoint_type, a3.len() as int + b3.len()))) by {
            lemma_seq_assoc(a3, b3, t4);
            lemma_i8_roundtrip(a3, m.endpoint_type, t4);
        }
        lemma_seq_assoc(a3, b3, t4);
        let a4 = a3 + b3;
        assert(parse_string(s, a4.len() as int, false) == Ok::<(Seq<char>, int), SerializationError>((m.cluster_id, a4.len() as int + b4.len()))) by {
            assert(string_bytes(m.cluster_id, false) is Ok);
            lemma_seq_assoc(a4, b4, t5);
            lemma_string_roundtrip(a4, m.cluster_id, t5, false);
        }
        lemma_seq_assoc(a4, b4, t5);
        let a5 = a4 + b4;
        assert(parse_i32(s, a5.len() as int) == Ok::<(i32, int), SerializationError>((m.controller_id, a5.len() as int + b5.len()))) by {
            lemma_seq_assoc(a5, b5, t6);
            lemma_i32_roundtrip(a5, m.controller_id, t6);
        }
        lemma_seq_assoc(a5, b5, t6);
        let a6 = a5 + b5;
        assert(parse_array::<DescribeClusterBroker>(s, a6.len() as int, Ctx { version: 0, flexible: false, classic: true }) == Ok::<(Seq<<DescribeClusterBroker as DeepView>::V>, int), SerializationError>((m.brokers, a6.len() as int + b6.len()))) by {
            assert(array_bytes::<DescribeClusterBroker>(m.brokers, Ctx { version: 0, flexible: false, classic: true }) is Ok);
            lemma_seq_assoc(a6, b6, t7);
            lemma_items_read_back::<DescribeClusterBroker>(m.brokers, Ctx { version: 0, flexible: false, classic: true });
            lemma_array_roundtrip::<DescribeClusterBroker>(a6, m.brokers, t7, Ctx { version: 0, flexible: false, classic: true });
        }
        lemma_seq_assoc(a6, b6, t7);
        let a7 = a6 + b6;
        assert(parse_i32(s, a7.len() as int) == Ok::<(i32, int), SerializationError>((m.cluster_authorized_operations, a7.len() as int + b7.len()))) by {
            lemma_seq_assoc(a7, b7, t8);
            lemma_i32_roundtrip(a7, m.cluster_authorized_operations, t8);
        }
    }

    /// The bytes written: the encoding of each field, in the order of the
    /// protocol's layout. Reading them back, wherever they stand, gives the value,
    /// with each field that the version leaves out at its default.
    #[verifier::spinoff_prover]
    pub proof fn lemma_classic_layout(pre: Seq<u8>, m: DescribeClusterResponseModel, post: Seq<u8>)
        requires
            Self::spec_encode_classic(m) is Ok,
        ensures
            Self::spec_encode_classic(m) == Ok::<Seq<u8>, SerializationError>((i32_bytes(m.throttle_time_ms)) + (i16_bytes(m.error_code)) + ((nullable_string_bytes(m.error_message, false))->Ok_0) + (i8_bytes(m.endpoint_type)) + ((string_bytes(m.cluster_id, false))->Ok_0) + (i32_bytes(m.controller_id)) + ((array_bytes::<DescribeClusterBroker>(m.brokers, Ctx { version: 0, flexible: false, classic: true }))->Ok_0) + (i32_bytes(m.cluster_authorized_operations))),
            Self::reads_back_classic(m) ==> Self::spec_decode_classic(pre + ((i32_bytes(m.throttle_time_ms)) + (i16_bytes(m.error_code)) + ((nullable_string_bytes(m.error_message, false))->Ok_0) + (i8_bytes(m.endpoint_type)) + ((string_bytes(m.cluster_id, false))->Ok_0) + (i32_bytes(m.controller_id)) + ((array_bytes::<DescribeClusterBroker>(m.brokers, Ctx { version: 0, flexible: false, classic: true }))->Ok_0) + (i32_bytes(m.cluster_authorized_operations))) + post, pre.len() as int) == Ok::<(DescribeClusterResponseModel, int), SerializationError>((m, pre.len() as int + ((i32_bytes(m.throttle_time_ms)) + (i16_bytes(m.error_code)) + ((nullable_string_bytes(m.error_message, false))->Ok_0) + (i8_bytes(m.endpoint_type)) + ((string_bytes(m.cluster_id, false))->Ok_0) + (i32_bytes(m.controller_id)) + ((array_bytes::<DescribeClusterBroker>(m.brokers, Ctx { version: 0, flexible: false, classic: true }))->Ok_0) + (i32_bytes(m.cluster_authorized_operations))).len())),
    {
        let b0 = i32_bytes(m.throttle_time_ms);
        let b1 = i16_bytes(m.error_code);
        let b2 = (nullable_string_bytes(m.error_message, false))->Ok_0;
        let b3 = i8_bytes(m.endpoint_type);
        let b4 = (string_bytes(m.cluster_id, false))->Ok_0;
        let b5 = i32_bytes(m.controller_id);
        let b6 = (array_bytes::<DescribeClusterBroker>(m.brokers, Ctx { version: 0, flexible: false, classic: true }))->Ok_0;
        let b7 = i32_bytes(m.cluster_authorized_operations);
        let e = Self::spec_encode_classic(m)->Ok_0;
        let p1 = Self::spec_encode_classic_part1(m)->Ok_0;
        assert(p1 =~= Seq::<u8>::empty() + b0 + b1 + b2 + b3 + b4);
        let p2 = Self::spec_encode_classic_part2(m)->Ok_0;
        assert(p2 =~= Seq::<u8>::empty() + b5 + b6 + b7);
        assert(e == Seq::<u8>::empty() + p1 + p2);
        assert(e =~= b0 + b1 + b2 + b3 + b4 + b5 + b6 + b7);
        if Self::reads_back_classic(m) {
            Self::lemma_classic_read_back(pre, m, post);
        }
    }

    /// Writing succeeds exactly when every field that the version carries can be
    /// encoded and every field that it leaves out, where leaving it out is an
    /// error, holds its default.
    #[verifier::spinoff_prover]
    pub proof fn lemma_classic_write_succeeds(m: DescribeClusterResponseModel)
        ensures
            Self::spec_encode_classic(m) is Ok <==> (map_encode_err(Ok(i32_bytes(m.throttle_time_ms)), SerializationError::ValueTooLarge { message: "failed to encode ThrottleTimeMs" }) is Ok) && (map_encode_err(Ok(i16_bytes(m.error_code)), SerializationError::ValueTooLarge { message: "failed to encode ErrorCode" }) is Ok) && (map_encode_err(nullable_string_bytes(m.error_message, false), SerializationError::ValueTooLarge { message: "failed to encode ErrorMessage" }) is Ok) && (map_encode_err(Ok(i8_bytes(m.endpoint_type)), SerializationError::ValueTooLarge { message: "failed to encode EndpointType" }) is Ok) && (map_encode_err(string_bytes(m.cluster_id, false), SerializationError::ValueTooLarge { message: "failed to encode ClusterId" }) is Ok) && (map_encode_err(Ok(i32_bytes(m.controller_id)), SerializationError::ValueTooLarge { message: "failed to encode ControllerId" }) is Ok) && (map_encode_err(array_bytes::<DescribeClusterBroker>(m.brokers, Ctx { version: 0, flexible: false, classic: true }), SerializationError::ValueTooLarge { message: "failed to encode Brokers" }) is Ok) && (map_encode_err(Ok(i32_bytes(m.cluster_authorized_operations)), SerializationError::ValueTooLarge { message: "failed to encode ClusterAuthorizedOperations" }) is Ok),
    {
    }

    /// Values of the structure that read back from their flexible-aware encoding:
    /// nested values read back.
    pub open spec fn reads_back_flexible(m: DescribeClusterResponseModel, is_flexible: bool) -> bool {
        &&& forall|i: int| 0 <= i < m.brokers.len() ==> #[trigger] <DescribeClusterBroker as KafkaCodec>::reads_back(m.brokers[i], Ctx { version: 0, flexible: is_flexible, classic: false })
    }

    /// A value that can be written and reads back: decoding its encoding, wherever
    /// it stands, gives the value and the position just after it.
    #[verifier::spinoff_prover]
    pub proof fn lemma_flexible_read_back(pre: Seq<u8>, m: DescribeClusterResponseModel, post: Seq<u8>, is_flexible: bool)
        requires
            Self::spec_encode_flexible(m, is_flexible) is Ok,
            Self::reads_back_flexible(m, is_flexible),
        ensures
            Self::spec_decode_flexible(pre + Self::spec_encode_flexible(m, is_flexible)->Ok_0 + post, pre.len() as int, is_flexible) == Ok::<(DescribeClusterResponseModel, int), SerializationError>((m, pre.len() as int + Self::spec_encode_flexible(m, is_flexible)->Ok_0.len())),
    {
        let b0 = i32_bytes(m.throttle_time_ms);
        let b1 = i16_bytes(m.error_code);
        let b2 = if is_flexible { match m.error_message { Some(v) => uvarint_bytes(1) + (string_bytes(v, true))->Ok_0, None => uvarint_bytes(0) } } else { (nullable_string_bytes(m.error_message, false))->Ok_0 };
        let b3 = i8_bytes(m.endpoint_type);
        let b4 = (string_bytes(m.cluster_id, is_flexible))->Ok_0;
        let b5 = i32_bytes(m.controller_id);
        let b6 = (array_bytes::<DescribeClusterBroker>(m.brokers, Ctx { version: 0, flexible: is_flexible, classic: false }))->Ok_0;
        let b7 = i32_bytes(m.cluster_authorized_operations);
        let b8 = if is_flexible { uvarint_bytes(0) } else { Seq::<u8>::empty() };
        let t9 = post;
        let t8 = b8 + t9;
        let t7 = b7 + t8;
        let t6 = b6 + t7;
        let t5 = b5 + t6;
        let t4 = b4 + t5;
        let t3 = b3 + t4;
        let t2 = b2 + t3;
        let t1 = b1 + t2;
        let t0 = b0 + t1;
        let e = Self::spec_encode_flexible(m, is_flexible)->Ok_0;
        let p1 = Self::spec_encode_flexible_part1(m, is_flexible)->Ok_0;
        assert(p1 =~= Seq::<u8>::empty() + b0 + b1 + b2 + b3 + b4);
        lemma_seq_assoc(((((Seq::<u8>::empty() + b0) + b1) + b2) + b3), b4, t5);
        lemma_seq_assoc((((Seq::<u8>::empty() + b0) + b1) + b2), b3, (b4 + t5));
        lemma_seq_assoc(((Seq::<u8>::empty() + b0) + b1), b2, (b3 + (b4 + t5)));
        lemma_seq_assoc((Seq::<u8>::empty() + b0), b1, (b2 + (b3 + (b4 + t5))));
        lemma_seq_assoc(Seq::<u8>::empty(), b0, (b1 + (b2 + (b3 + (b4 + t5)))));
        lemma_seq_empty_left((b0 + (b1 + (b2 + (b3 + (b4 + t5))))));
        let p2 = Self::spec_encode_flexible_part2(m, is_flexible)->Ok_0;
        assert(p2 =~= Seq::<u8>::empty() + b5 + b6 + b7 + b8);
        lemma_seq_assoc((((Seq::<u8>::empty() + b5) + b6) + b7), b8, t9);
        lemma_seq_assoc(((Seq::<u8>::empty() + b5) + b6), b7, (b8 + t9));
        lemma_seq_assoc((Seq::<u8>::empty() + b5), b6, (b7 + (b8 + t9)));
        lemma_seq_assoc(Seq::<u8>::empty(), b5, (b6 + (b7 + (b8 + t9))));
        lemma_seq_empty_left((b5 + (b6 + (b7 + (b8 + t9)))));
        assert(e == Seq::<u8>::empty() + p1 + p2);
        lemma_seq_assoc((Seq::<u8>::empty() + p1), p2, t9);
        lemma_seq_assoc(Seq::<u8>::empty(), p1, (p2 + t9));
        lemma_seq_empty_left((p1 + (p2 + t9)));
        let s = pre + e + post;
        lemma_seq_assoc(pre, e, post);
        assert(s == pre + t0);
        let a0 = pre;
        assert(parse_i32(s, a0.len() as int) == Ok::<(i32, int), SerializationError>((m.throttle_time_ms, a0.len() as int + b0.len()))) by {
            lemma_seq_assoc(a0, b0, t1);
            lemma_i32_roundtrip(a0, m.throttle_time_ms, t1);
        }
        lemma_seq_assoc(a0, b0, t1);
        let a1 = a0 + b0;
        assert(parse_i16(s, a1.len() as int) == Ok::<(i16, int), SerializationError>((m.error_code, a1.len() as int + b1.len()))) by {
            lemma_seq_assoc(a1, b1, t2);
            lemma_i16_roundtrip(a1, m.error_code, t2);
        }
        lemma_seq_assoc(a1, b1, t2);
        let a2 = a1 + b1;
        if is_flexible {
            match m.error_message {
                Some(v) => {
                    let x = (string_bytes(v, true))->Ok_0;
                    assert(parse_uvarint(s, a2.len() as int) == Ok::<(u64, int), SerializationError>((1u64, a2.len() as int + 1))) by {
                        assert(s =~= a2 + uvarint_bytes(1) + (x + t3));
                        lemma_uvarint_roundtrip(a2, 1, x + t3);
                    }
                    let a1x = a2 + uvarint_bytes(1);
                    assert(parse_string(s, a1x.len() as int, true) == Ok::<(Seq<char>, int), SerializationError>((v, a1x.len() as int + x.len()))) by {
                        assert(s =~= a1x + x + t3);
                        lemma_string_roundtrip(a1x, v, t3, true);
                    }
                },
                None => {
                    assert(parse_uvarint(s, a2.len() as int) == Ok::<(u64, int), SerializationError>((0u64, a2.len() as int + 1))) by {
                        assert(s =~= a2 + b2 + t3);
                        lemma_uvarint_roundtrip(a2, 0, t3);
                    }
                },
            }
        } else {
            assert(parse_nullable_string(s, a2.len() as int, false) == Ok::<(Option<Seq<char>>, int), SerializationError>((m.error_message, a2.len() as int + b2.len()))) by {
                assert(nullable_string_bytes(m.error_message, false) is Ok);
                lemma_seq_assoc(a2, b2, t3);
                lemma_nullable_string_roundtrip(a2, m.error_message, t3, false);
            }
        }
        lemma_seq_assoc(a2, b2, t3);
        let a3 = a2 + b2;
        assert(parse_i8(s, a3.len() as int) == Ok::<(i8, int), SerializationError>((m.endpoint_type, a3.len() as int + b3.len()))) by {
            lemma_seq_assoc(a3, b3, t4);
            lemma_i8_roundtrip(a3, m.endpoint_type, t4);
        }
        lemma_seq_assoc(a3, b3, t4);
        let a4 = a3 + b3;
        assert(parse_string(s, a4.len() as int, is_flexible) == Ok::<(Seq<char>, int), SerializationError>((m.cluster_id, a4.len() as int + b4.len()))) by {
            assert(string_bytes(m.cluster_id, is_flexible) is Ok);
            lemma_seq_assoc(a4, b4, t5);
            lemma_string_roundtrip(a4, m.cluster_id, t5, is_flexible);
        }
        lemma_seq_assoc(a4, b4, t5);
        let a5 = a4 + b4;
        assert(parse_i32(s, a5.len() as int) == Ok::<(i32, int), SerializationError>((m.controller_id, a5.len() as int + b5.len()))) by {
            lemma_seq_assoc(a5, b5, t6);
            lemma_i32_roundtrip(a5, m.controller_id, t6);
        }
        lemma_seq_assoc(a5, b5, t6);
        let a6 = a5 + b5;
        assert(parse_array::<DescribeClusterBroker>(s, a6.len() as int, Ctx { version: 0, flexible: is_flexible, classic: false }) == Ok::<(Seq<<DescribeClusterBroker as DeepView>::V>, int), SerializationError>((m.brokers, a6.len() as int + b6.len()))) by {
            assert(array_bytes::<DescribeClusterBroker>(m.brokers, Ctx { version: 0, flexible: is_flexible, classic: false }) is Ok);
            lemma_seq_assoc(a6, b6, t7);
            lemma_items_read_back::<DescribeClusterBroker>(m.brokers, Ctx { version: 0, flexible: is_flexible, classic: false });
            lemma_array_roundtrip::<DescribeClusterBroker>(a6, m.brokers, t7, Ctx { version: 0, flexible: is_flexible, classic: false });
        }
        lemma_seq_assoc(a6, b6, t7);
        let a7 = a6 + b6;
        assert(parse_i32(s, a7.len() as int) == Ok::<(i32, int), SerializationError>((m.cluster_authorized_operations, a7.len() as int + b7.len()))) by {
            lemma_seq_assoc(a7, b7, t8);
            lemma_i32_roundtrip(a7, m.cluster_authorized_operations, t8);
        }
        lemma_seq_assoc(a7, b7, t8);
        let a8 = a7 + b7;
        if is_flexible {
            assert(parse_uvarint(s, a8.len() as int) == Ok::<(u64, int), SerializationError>((0u64, a8.len() as int + b8.len()))) by {
                lemma_seq_assoc(a8, b8, t9);
                lemma_uvarint_roundtrip(a8, 0, t9);
            }
        }
    }

    /// The bytes written: the encoding of each field, in the order of the
    /// protocol's layout. Reading them back, wherever they stand, gives the value,
    /// with each field that the version leaves out at its default.
    #[verifier::spinoff_prover]
    pub proof fn lemma_flexible_layout(pre: Seq<u8>, m: DescribeClusterResponseModel, post: Seq<u8>, is_flexible: bool)
        requires
            Self::spec_encode_flexible(m, is_flexible) is Ok,
        ensures
            Self::spec_encode_flexible(m, is_flexible) == Ok::<Seq<u8>, SerializationError>((i32_bytes(m.throttle_time_ms)) + (i16_bytes(m.error_code)) + (if is_flexible { match m.error_message { Some(v) => uvarint_bytes(1) + (string_bytes(v, true))->Ok_0, None => uvarint_bytes(0) } } else { (nullable_string_bytes(m.error_message, false))->Ok_0 }) + (i8_bytes(m.endpoint_type)) + ((string_bytes(m.cluster_id, is_flexible))->Ok_0) + (i32_bytes(m.controller_id)) + ((array_bytes::<DescribeClusterBroker>(m.brokers, Ctx { version: 0, flexible: is_flexible, classic: false }))->Ok_0) + (i32_bytes(m.cluster_authorized_operations)) + (if is_flexible { uvarint_bytes(0) } else { Seq::<u8>::empty() })),
            Self::reads_back_flexible(m, is_flexible) ==> Self::spec_decode_flexible(pre + ((i32_bytes(m.throttle_time_ms)) + (i16_bytes(m.error_code)) + (if is_flexible { match m.error_message { Some(v) => uvarint_bytes(1) + (string_bytes(v, true))->Ok_0, None => uvarint_bytes(0) } } else { (nullable_string_bytes(m.error_message, false))->Ok_0 }) + (i8_bytes(m.endpoint_type)) + ((string_bytes(m.cluster_id, is_flexible))->Ok_0) + (i32_bytes(m.controller_id)) + ((array_bytes::<DescribeClusterBroker>(m.brokers, Ctx { version: 0, flexible: is_flexible, classic: false }))->Ok_0) + (i32_bytes(m.cluster_authorized_operations)) + (if is_flexible { uvarint_bytes(0) } else { Seq::<u8>::empty() })) + post, pre.len() as int, is_flexible) == Ok::<(DescribeClusterResponseModel, int), SerializationError>((m, pre.len() as int + ((i32_bytes(m.throttle_time_ms)) + (i16_bytes(m.error_code)) + (if is_flexible { match m.error_message { Some(v) => uvarint_bytes(1) + (string_bytes(v, true))->Ok_0, None => uvarint_bytes(0) } } else { (nullable_string_bytes(m.error_message, false))->Ok_0 }) + (i8_bytes(m.endpoint_type)) + ((string_bytes(m.cluster_id, is_flexible))->Ok_0) + (i32_bytes(m.controller_id)) + ((array_bytes::<DescribeClusterBroker>(m.brokers, Ctx { version: 0, flexible: is_flexible, classic: false }))->Ok_0) + (i32_bytes(m.cluster_authorized_operations)) + (if is_flexible { uvarint_bytes(0) } else { Seq::<u8>::empty() })).len())),
    {
        let b0 = i32_bytes(m.throttle_time_ms);
        let b1 = i16_bytes(m.error_code);
        let b2 = if is_flexible { match m.error_message { Some(v) => uvarint_bytes(1) + (string_bytes(v, true))->Ok_0, None => uvarint_bytes(0) } } else { (nullable_string_bytes(m.error_message, false))->Ok_0 };
        let b3 = i8_bytes(m.endpoint_type);
        let b4 = (string_bytes(m.cluster_id, is_flexible))->Ok_0;
        let b5 = i32_bytes(m.controller_id);
        let b6 = (array_bytes::<DescribeClusterBroker>(m.brokers, Ctx { version: 0, flexible: is_flexible, classic: false }))->Ok_0;
        let b7 = i32_bytes(m.cluster_authorized_operations);
        let b8 = if is_flexible { uvarint_bytes(0) } else { Seq::<u8>::empty() };
        let e = Self::spec_encode_flexible(m, is_flexible)->Ok_0;
        let p1 = Self::spec_encode_flexible_part1(m, is_flexible)->Ok_0;
        assert(p1 =~= Seq::<u8>::empty() + b0 + b1 + b2 + b3 + b4);
        let p2 = Self::spec_encode_flexible_part2(m, is_flexible)->Ok_0;
        assert(p2 =~= Seq::<u8>::empty() + b5 + b6 + b7 + b8);
        assert(e == Seq::<u8>::empty() + p1 + p2);
        assert(e =~= b0 + b1 + b2 + b3 + b4 + b5 + b6 + b7 + b8);
        if Self::reads_back_flexible(m, is_flexible) {
            Self::lemma_flexible_read_back(pre, m, post, is_flexible);
        }
    }

    /// With the compact encodings off, the flexible-aware layout is the classic
    /// layout: both write the same bytes.
    pub proof fn lemma_flexible_off_writes_classic(m: DescribeClusterResponseModel)
        ensures
            Self::spec_encode_flexible(m, false) == Self::spec_encode_classic(m),
    {
        assert forall|i: int| 0 <= i < m.brokers.len() implies <DescribeClusterBroker as KafkaCodec>::spec_encode(#[trigger] m.brokers[i], Ctx { version: 0, flexible: false, classic: true }) == <DescribeClusterBroker as KafkaCodec>::spec_encode(m.brokers[i], Ctx { version: 0, flexible: false, classic: false }) by {
            DescribeClusterBroker::lemma_flexible_off_writes_classic(m.brokers[i]);
        }
        lemma_array_bytes_agree::<DescribeClusterBroker>(m.brokers, Ctx { version: 0, flexible: false, classic: true }, Ctx { version: 0, flexible: false, classic: false });
    }

    /// With the compact encodings off, the flexible-aware layout is the classic
    /// layout: both read the same bytes alike.
    pub proof fn lemma_flexible_off_reads_classic(s: Seq<u8>, pos: int)
        ensures
            Self::spec_decode_flexible(s, pos, false) == Self::spec_decode_classic(s, pos),
    {
        assert forall|p: int| #[trigger] <DescribeClusterBroker as KafkaCodec>::spec_decode(s, p, Ctx { version: 0, flexible: false, classic: true }) == <DescribeClusterBroker as KafkaCodec>::spec_decode(s, p, Ctx { version: 0, flexible: false, classic: false }) by {
            DescribeClusterBroker::lemma_flexible_off_reads_classic(s, p);
        }
        lemma_parse_array_agree::<DescribeClusterBroker>(s, Ctx { version: 0, flexible: false, classic: true }, Ctx { version: 0, flexible: false, classic: false });
    }

    /// Writes the structure in the classic layout.
    /// On failure the buffer is left as it was.
    pub fn encode(&self, buf: &mut Vec<u8>) -> (r: Result<(), SerializationError>)
        ensures
            write_exact(r, old(buf)@, final(buf)@, Self::spec_encode_classic(self.deep_view())),
    {
        let start = buf.len();
        let r = self.write_classic(buf);
        if r.is_err() {
            buf.truncate(start);
        }
        r
    }

    #[verifier::spinoff_prover]
    fn write_classic(&self, buf: &mut Vec<u8>) -> (r: Result<(), SerializationError>)
        ensures
            write_ok(r, old(buf)@, final(buf)@, Self::spec_encode_classic(self.deep_view())),
    {
        let ghost mut w: Seq<u8> = Seq::empty();
        self.encode_classic_part1(buf)?;
        proof {
            w = w + (Self::spec_encode_classic_part1(self.deep_view()))->Ok_0;
        }
        assert(buf@ =~= old(buf)@ + w);
        self.encode_classic_part2(buf)?;
        proof {
            w = w + (Self::spec_encode_classic_part2(self.deep_view()))->Ok_0;
        }
        assert(buf@ =~= old(buf)@ + w);
        Ok(())
    }

    /// Writes the structure, with the compact encodings when `is_flexible`.
    /// On failure the buffer is left as it was.
    pub fn encode_flexible(&self, buf: &mut Vec<u8>, is_flexible: bool) -> (r: Result<(), SerializationError>)
        ensures
            write_exact(r, old(buf)@, final(buf)@, Self::spec_encode_flexible(self.deep_view(), is_flexible)),
    {
        let start = buf.len();
        let r = self.write_flexible(buf, is_flexible);
        if r.is_err() {
            buf.truncate(start);
        }
        r
    }

    #[verifier::spinoff_prover]
    fn write_flexible(&self, buf: &mut Vec<u8>, is_flexible: bool) -> (r: Result<(), SerializationError>)
        ensures
            write_ok(r, old(buf)@, final(buf)@, Self::spec_encode_flexible(self.deep_view(), is_flexible)),
    {
        let ghost mut w: Seq<u8> = Seq::empty();
        self.encode_flexible_part1(buf, is_flexible)?;
        proof {
            w = w + (Self::spec_encode_flexible_part1(self.deep_view(), is_flexible))->Ok_0;
        }
        assert(buf@ =~= old(buf)@ + w);
        self.encode_flexible_part2(buf, is_flexible)?;
        proof {
            w = w + (Self::spec_encode_flexible_part2(self.deep_view(), is_flexible))->Ok_0;
        }
        assert(buf@ =~= old(buf)@ + w);
        Ok(())
    }

    /// Reads the structure in the classic layout.
    /// On failure the reader is put back where it started.
    #[verifier::spinoff_prover]
    pub fn decode(buf: &mut Reader) -> (r: Result<Self, SerializationError>)
        ensures
            final(buf).bytes() == old(buf).bytes(),
            read_view_exact(r, Self::spec_decode_classic(old(buf).bytes(), old(buf).pos()), old(buf).pos(), final(buf).pos()),
    {
        let start = buf.position();
        let r = Self::read_classic(buf);
        if r.is_err() {
            buf.set_position(start);
        }
        r
    }

    fn read_classic(buf: &mut Reader) -> (r: Result<Self, SerializationError>)
        ensures
            final(buf).bytes() == old(buf).bytes(),
            read_view_ok(r, Self::spec_decode_classic(old(buf).bytes(), old(buf).pos()), final(buf).pos()),
    {
        let throttle_time_ms = match buf.get_i32() { Ok(v) => v, Err(_) => { return Err(SerializationError::Protocol { message: "failed to decode ThrottleTimeMs" }); } };
        let error_code = match buf.get_i16() { Ok(v) => v, Err(_) => { return Err(SerializationError::Protocol { message: "failed to decode ErrorCode" }); } };
        let error_message = match buf.get_nullable_string(false) { Ok(v) => v, Err(_) => { return Err(SerializationError::Protocol { message: "failed to decode ErrorMessage" }); } };
        let endpoint_type = match buf.get_i8() { Ok(v) => v, Err(_) => { return Err(SerializationError::Protocol { message: "failed to decode EndpointType" }); } };
        let cluster_id = match buf.get_string(false) { Ok(v) => v, Err(_) => { return Err(SerializationError::Protocol { message: "failed to decode ClusterId" }); } };
        let controller_id = match buf.get_i32() { Ok(v) => v, Err(_) => { return Err(SerializationError::Protocol { message: "failed to decode ControllerId" }); } };
        let brokers = match decode_array::<DescribeClusterBroker>(buf, Ctx { version: 0, flexible: false, classic: true }) { Ok(v) => v, Err(_) => { return Err(SerializationError::Protocol { message: "failed to decode Brokers" }); } };
        let cluster_authorized_operations = match buf.get_i32() { Ok(v) => v, Err(_) => { return Err(SerializationError::Protocol { message: "failed to decode ClusterAuthorizedOperations" }); } };
        Ok(DescribeClusterResponse { throttle_time_ms, error_code, error_message, endpoint_type, cluster_id, controller_id, brokers, cluster_authorized_operations })
    }

    /// Reads the structure, with the compact encodings when `is_flexible`.
    /// On failure the reader is put back where it started.
    #[verifier::spinoff_prover]
    pub fn decode_flexible(buf: &mut Reader, is_flexible: bool) -> (r: Result<Self, SerializationError>)
        ensures
            final(buf).bytes() == old(buf).bytes(),
            read_view_exact(r, Self::spec_decode_flexible(old(buf).bytes(), old(buf).pos(), is_flexible), old(buf).pos(), final(buf).pos()),
    {
        let start = buf.position();
        let r = Self::read_flexible(buf, is_flexible);
        if r.is_err() {
            buf.set_position(start);
        }
        r
    }

    fn read_flexible(buf: &mut Reader, is_flexible: bool) -> (r: Result<Self, SerializationError>)
        ensures
            final(buf).bytes() == old(buf).bytes(),
            read_view_ok(r, Self::spec_decode_flexible(old(buf).bytes(), old(buf).pos(), is_flexible), final(buf).pos()),
    {
        let throttle_time_ms = match buf.get_i32() { Ok(v) => v, Err(_) => { return Err(SerializationError::Protocol { message: "failed to decode ThrottleTimeMs" }); } };
        let error_code = match buf.get_i16() { Ok(v) => v, Err(_) => { return Err(SerializationError::Protocol { message: "failed to decode ErrorCode" }); } };
        let error_message = if is_flexible {
            let (present, _) = decode_unsigned_varint(buf)?;
            if present == 0 {
                None
            } else {
                Some(match buf.get_string(true) { Ok(v) => v, Err(_) => { return Err(SerializationError::Protocol { message: "failed to decode ErrorMessage" }); } })
            }
        } else {
            match buf.get_nullable_string(false) { Ok(v) => v, Err(_) => { return Err(SerializationError::Protocol { message: "failed to decode ErrorMessage" }); } }
        };
        let endpoint_type = match buf.get_i8() { Ok(v) => v, Err(_) => { return Err(SerializationError::Protocol { message: "failed to decode EndpointType" }); } };
        let cluster_id = match buf.get_string(is_flexible) { Ok(v) => v, Err(_) => { return Err(SerializationError::Protocol { message: "failed to decode ClusterId" }); } };
        let controller_id = match buf.get_i32() { Ok(v) => v, Err(_) => { return Err(SerializationError::Protocol { message: "failed to decode ControllerId" }); } };
        let brokers = match decode_array::<DescribeClusterBroker>(buf, Ctx { version: 0, flexible: is_flexible, classic: false }) { Ok(v) => v, Err(_) => { return Err(SerializationError::Protocol { message: "failed to decode Brokers" }); } };
        let cluster_authorized_operations = match buf.get_i32() { Ok(v) => v, Err(_) => { return Err(SerializationError::Protocol { message: "failed to decode ClusterAuthorizedOperations" }); } };
        if is_flexible {
            let (_tag_count, _) = decode_unsigned_varint(buf)?;
        }
        Ok(DescribeClusterResponse { throttle_time_ms, error_code, error_message, endpoint_type, cluster_id, controller_id, brokers, cluster_authorized_operations })
    }
}

impl KafkaCodec for DescribeClusterResponse {
    open spec fn spec_encode(m: DescribeClusterResponseModel, ctx: Ctx) -> Result<Seq<u8>, SerializationError> {
        if ctx.classic {
            Self::spec_encode_classic(m)
        } else {
            Self::spec_encode_flexible(m, ctx.flexible)
        }
    }

    open spec fn reads_back(v: DescribeClusterResponseModel, ctx: Ctx) -> bool {
        if ctx.classic {
            Self::reads_back_classic(v)
        } else {
            Self::reads_back_flexible(v, ctx.flexible)
        }
    }

    proof fn lemma_read_back(pre: Seq<u8>, v: DescribeClusterResponseModel, post: Seq<u8>, ctx: Ctx) {
        if ctx.classic {
            Self::lemma_classic_read_back(pre, v, post);
            assert(Self::spec_decode(pre + Self::spec_encode(v, ctx)->Ok_0 + post, pre.len() as int, ctx)
                == Self::spec_decode_classic(pre + Self::spec_encode_classic(v)->Ok_0 + post, pre.len() as int));
        } else {
            Self::lemma_flexible_read_back(pre, v, post, ctx.flexible);
            assert(Self::spec_decode(pre + Self::spec_encode(v, ctx)->Ok_0 + post, pre.len() as int, ctx)
                == Self::spec_decode_flexible(pre + Self::spec_encode_flexible(v, ctx.flexible)->Ok_0 + post, pre.len() as int, ctx.flexible));
        }
    }

    open spec fn spec_decode(s: Seq<u8>, pos: int, ctx: Ctx) -> Result<(DescribeClusterResponseModel, int), SerializationError> {
        if ctx.classic {
            Self::spec_decode_classic(s, pos)
        } else {
            Self::spec_decode_flexible(s, pos, ctx.flexible)
        }
    }

    fn encode_ctx(&self, buf: &mut Vec<u8>, ctx: Ctx) -> (r: Result<(), SerializationError>) {
        if ctx.classic {
            self.write_classic(buf)
        } else {
            self.write_flexible(buf, ctx.flexible)
        }
    }

    #[verifier::spinoff_prover]
    fn decode_ctx(buf: &mut Reader, ctx: Ctx) -> (r: Result<Self, SerializationError>) {
        if ctx.classic {
            Self::read_classic(buf)
        } else {
            Self::read_flexible(buf, ctx.flexible)
        }
    }
}

impl DescribeClusterResponse {
    /// The API key of this message.
    pub fn get_api_key() -> (r: ApiKey)
        ensures
            r.0 == 60,
    {
        ApiKey::new(60)
    }

    /// The oldest version of this message.
    pub fn get_min_supported_version() -> (r: ApiVersion)
        ensures
            r.0 == 0,
    {
        ApiVersion::new(0)
    }

    /// The newest version of this message.
    pub fn get_max_supported_version() -> (r: ApiVersion)
        ensures
            r.0 == 2,
    {
        ApiVersion::new(2)
    }

    /// Fields 1 to 5 of the encoding.
    pub open spec fn spec_serialize_part1(m: DescribeClusterResponseModel, ctx: Ctx) -> Result<Seq<u8>, SerializationError> {
        let r = Ok(Seq::<u8>::empty());
        let r = then(r, map_encode_err(Ok(i32_bytes(m.throttle_time_ms)), SerializationError::Encode("failed to encode ThrottleTimeMs")));
        let r = then(r, map_encode_err(Ok(i16_bytes(m.error_code)), SerializationError::Encode("failed to encode ErrorCode")));
        let r = then(r, map_encode_err(nullable_string_bytes(m.error_message, ctx.flexible), SerializationError::Encode("failed to encode ErrorMessage")));
        let r = if 1 <= ctx.version { then(r, map_encode_err(Ok(i8_bytes(m.endpoint_type)), SerializationError::Encode("failed to encode EndpointType"))) } else { r };
        let r = then(r, map_encode_err(string_bytes(m.cluster_id, ctx.flexible), SerializationError::Encode("failed to encode ClusterId")));
        r
    }

    #[verifier::spinoff_prover]
    fn serialize_part1(&self, buf: &mut Vec<u8>, ctx: Ctx) -> (r: Result<(), SerializationError>)
        ensures
            write_ok(r, old(buf)@, final(buf)@, Self::spec_serialize_part1(self.deep_view(), ctx)),
    {
        let ghost mut w: Seq<u8> = Seq::empty();
        put_i32(buf, self.throttle_time_ms);
        proof {
            w = w + (map_encode_err(Ok(i32_bytes(self.throttle_time_ms)), SerializationError::Encode("failed to encode ThrottleTimeMs")))->Ok_0;
        }
        assert(buf@ =~= old(buf)@ + w);
        put_i16(buf, self.error_code);
        proof {
            w = w + (map_encode_err(Ok(i16_bytes(self.error_code)), SerializationError::Encode("failed to encode ErrorCode")))->Ok_0;
        }
        assert(buf@ =~= old(buf)@ + w);
        match encode_nullable_string(&self.error_message, buf, ctx.flexible) {
            Ok(()) => {},
            Err(_) => {
                return Err(SerializationError::Encode("failed to encode ErrorMessage"));
            },
        }
        proof {
            w = w + (map_encode_err(nullable_string_bytes(self.error_message.deep_view(), ctx.flexible), SerializationError::Encode("failed to encode ErrorMessage")))->Ok_0;
        }
        assert(buf@ =~= old(buf)@ + w);
        if 1 <= ctx.version {
            put_i8(buf, self.endpoint_type);
            proof {
                w = w + (map_encode_err(Ok(i8_bytes(self.endpoint_type)), SerializationError::Encode("failed to encode EndpointType")))->Ok_0;
            }
            assert(buf@ =~= old(buf)@ + w);
        }
        match encode_string(&self.cluster_id, buf, ctx.flexible) {
            Ok(()) => {},
            Err(_) => {
                return Err(SerializationError::Encode("failed to encode ClusterId"));
            },
        }
        proof {
            w = w + (map_encode_err(string_bytes(self.cluster_id.deep_view(), ctx.flexible), SerializationError::Encode("failed to encode ClusterId")))->Ok_0;
        }
        assert(buf@ =~= old(buf)@ + w);
        Ok(())
    }

    /// Fields 6 to 9 of the encoding.
    pub open spec fn spec_serialize_part2(m: DescribeClusterResponseModel, ctx: Ctx) -> Result<Seq<u8>, SerializationError> {
        let r = Ok(Seq::<u8>::empty());
        let r = then(r, map_encode_err(Ok(i32_bytes(m.controller_id)), SerializationError::Encode("failed to encode ControllerId")));
        let r = then(r, map_encode_err(array_bytes::<DescribeClusterBroker>(m.brokers, Ctx { version: ctx.version, flexible: ctx.flexible, classic: false }), SerializationError::Encode("failed to encode Brokers")));
        let r = then(r, map_encode_err(Ok(i32_bytes(m.cluster_authorized_operations)), SerializationError::Encode("failed to encode ClusterAuthorizedOperations")));
        let r = if ctx.flexible { then(r, Ok(uvarint_bytes(0))) } else { r };
        r
    }

    #[verifier::spinoff_prover]
    fn serialize_part2(&self, buf: &mut Vec<u8>, ctx: Ctx) -> (r: Result<(), SerializationError>)
        ensures
            write_ok(r, old(buf)@, final(buf)@, Self::spec_serialize_part2(self.deep_view(), ctx)),
    {
        let ghost mut w: Seq<u8> = Seq::empty();
        put_i32(buf, self.controller_id);
        proof {
            w = w + (map_encode_err(Ok(i32_bytes(self.controller_id)), SerializationError::Encode("failed to encode ControllerId")))->Ok_0;
        }
        assert(buf@ =~= old(buf)@ + w);
        match encode_array(&self.brokers, buf, Ctx { version: ctx.version, flexible: ctx.flexible, classic: false }) {
            Ok(()) => {},
            Err(_) => {
                return Err(SerializationError::Encode("failed to encode Brokers"));
            },
        }
        proof {
            w = w + (map_encode_err(array_bytes::<DescribeClusterBroker>(self.brokers.deep_view(), Ctx { version: ctx.version, flexible: ctx.flexible, classic: false }), SerializationError::Encode("failed to encode Brokers")))->Ok_0;
        }
        assert(buf@ =~= old(buf)@ + w);
        put_i32(buf, self.cluster_authorized_operations);
        proof {
            w = w + (map_encode_err(Ok(i32_bytes(self.cluster_authorized_operations)), SerializationError::Encode("failed to encode ClusterAuthorizedOperations")))->Ok_0;
        }
        assert(buf@ =~= old(buf)@ + w);
        if ctx.flexible {
            encode_unsigned_varint(0, buf);
            proof {
                w = w + uvarint_bytes(0);
            }
            assert(buf@ =~= old(buf)@ + w);
        }
        Ok(())
    }

    /// The encoding of a whole message body at `version`.
    pub open spec fn spec_serialize(m: DescribeClusterResponseModel, version: i16) -> Result<Seq<u8>, SerializationError> {
        let is_flexible = true;
        let ctx = Ctx { version, flexible: is_flexible, classic: false };
        let r = Ok(Seq::<u8>::empty());
        let r = then(r, Self::spec_serialize_part1(m, ctx));
        let r = then(r, Self::spec_serialize_part2(m, ctx));
        r
    }

    /// The message body read at `version`.
    pub open spec fn spec_deserialize(s: Seq<u8>, pos: int, version: i16) -> Result<(DescribeClusterResponseModel, int), SerializationError> {
        let is_flexible = true;
        let ctx = Ctx { version, flexible: is_flexible, classic: false };
        match map_decode_err(parse_i32(s, pos), SerializationError::Decode("failed to decode ThrottleTimeMs")) {
            Err(e) => Err(e),
            Ok((throttle_time_ms, pos)) =>
            match map_decode_err(parse_i16(s, pos), SerializationError::Decode("failed to decode ErrorCode")) {
                Err(e) => Err(e),
                Ok((error_code, pos)) =>
                match map_decode_err(parse_nullable_string(s, pos, ctx.flexible), SerializationError::Decode("failed to decode ErrorMessage")) {
                    Err(e) => Err(e),
                    Ok((error_message, pos)) =>
                    match (if 1 <= ctx.version { map_decode_err(parse_i8(s, pos), SerializationError::Decode("failed to decode EndpointType")) } else { Ok((0i8, pos)) }) {
                        Err(e) => Err(e),
                        Ok((endpoint_type, pos)) =>
                        match map_decode_err(parse_string(s, pos, ctx.flexible), SerializationError::Decode("failed to decode ClusterId")) {
                            Err(e) => Err(e),
                            Ok((cluster_id, pos)) =>
                            match map_decode_err(parse_i32(s, pos), SerializationError::Decode("failed to decode ControllerId")) {
                                Err(e) => Err(e),
                                Ok((controller_id, pos)) =>
                                match map_decode_err(parse_array::<DescribeClusterBroker>(s, pos, Ctx { version: ctx.version, flexible: ctx.flexible, classic: false }), SerializationError::Decode("failed to decode Brokers")) {
                                    Err(e) => Err(e),
                                    Ok((brokers, pos)) =>
                                    match map_decode_err(parse_i32(s, pos), SerializationError::Decode("failed to decode ClusterAuthorizedOperations")) {
                                        Err(e) => Err(e),
                                        Ok((cluster_authorized_operations, pos)) =>
                                        Ok((DescribeClusterResponseModel { throttle_time_ms, error_code, error_message, endpoint_type, cluster_id, controller_id, brokers, cluster_authorized_operations }, pos))
                                    }
                                }
                            }
                        }
                    }
                }
            }
        }
    }

    /// Message bodies that read back when written at `version`: nested values read
    /// back. A field that the version leaves out is read as its default.
    pub open spec fn reads_back_message(m: DescribeClusterResponseModel, version: i16) -> bool {
        let is_flexible = true;
        let ctx = Ctx { version, flexible: is_flexible, classic: false };
        &&& forall|i: int| 0 <= i < m.brokers.len() ==> #[trigger] <DescribeClusterBroker as KafkaCodec>::reads_back(m.brokers[i], Ctx { version: ctx.version, flexible: ctx.flexible, classic: false })
    }

    /// A message body that can be written at `version` and reads back: reading a
    /// body at `version` from its bytes, wherever they stand, gives the same message,
    /// with each field that the version leaves out at its default.
    #[verifier::spinoff_prover]
    pub proof fn lemma_message_read_back(pre: Seq<u8>, m: DescribeClusterResponseModel, post: Seq<u8>, version: i16)
        requires
            Self::spec_serialize(m, version) is Ok,
            Self::reads_back_message(m, version),
        ensures
            Self::spec_deserialize(pre + Self::spec_serialize(m, version)->Ok_0 + post, pre.len() as int, version) == Ok::<(DescribeClusterResponseModel, int), SerializationError>((DescribeClusterResponseModel { throttle_time_ms: m.throttle_time_ms, error_code: m.error_code, error_message: m.error_message, endpoint_type: if 1 <= version { m.endpoint_type } else { 0i8 }, cluster_id: m.cluster_id, controller_id: m.controller_id, brokers: m.brokers, cluster_authorized_operations: m.cluster_authorized_operations }, pre.len() as int + Self::spec_serialize(m, version)->Ok_0.len() - (if true { 1int } else { 0int }))),
    {
        let is_flexible = true;
        let ctx = Ctx { version, flexible: is_flexible, classic: false };
        let b0 = i32_bytes(m.throttle_time_ms);
        let b1 = i16_bytes(m.error_code);
        let b2 = (nullable_string_bytes(m.error_message, ctx.flexible))->Ok_0;
        let b3 = if 1 <= ctx.version { i8_bytes(m.endpoint_type) } else { Seq::<u8>::empty() };
        let b4 = (string_bytes(m.cluster_id, ctx.flexible))->Ok_0;
        let b5 = i32_bytes(m.controller_id);
        let b6 = (array_bytes::<DescribeClusterBroker>(m.brokers, Ctx { version: ctx.version, flexible: ctx.flexible, classic: false }))->Ok_0;
        let b7 = i32_bytes(m.cluster_authorized_operations);
        let b8 = if ctx.flexible { uvarint_bytes(0) } else { Seq::<u8>::empty() };
        let t9 = post;
        let t8 = b8 + t9;
        let t7 = b7 + t8;
        let t6 = b6 + t7;
        let t5 = b5 + t6;
        let t4 = b4 + t5;
        let t3 = b3 + t4;
        let t2 = b2 + t3;
        let t1 = b1 + t2;
        let t0 = b0 + t1;
        let e = Self::spec_serialize(m, version)->Ok_0;
        let p1 = Self::spec_serialize_part1(m, ctx)->Ok_0;
        assert(p1 =~= Seq::<u8>::empty() + b0 + b1 + b2 + b3 + b4);
        lemma_seq_assoc(((((Seq::<u8>::empty() + b0) + b1) + b2) + b3), b4, t5);
        lemma_seq_assoc((((Seq::<u8>::empty() + b0) + b1) + b2), b3, (b4 + t5));
        lemma_seq_assoc(((Seq::<u8>::empty() + b0) + b1), b2, (b3 + (b4 + t5)));
        lemma_seq_assoc((Seq::<u8>::empty() + b0), b1, (b2 + (b3 + (b4 + t5))));
        lemma_seq_assoc(Seq::<u8>::empty(), b0, (b1 + (b2 + (b3 + (b4 + t5)))));
        lemma_seq_empty_left((b0 + (b1 + (b2 + (b3 + (b4 + t5))))));
        let p2 = Self::spec_serialize_part2(m, ctx)->Ok_0;
        assert(p2 =~= Seq::<u8>::empty() + b5 + b6 + b7 + b8);
        lemma_seq_assoc((((Seq::<u8>::empty() + b5) + b6) + b7), b8, t9);
        lemma_seq_assoc(((Seq::<u8>::empty() + b5) + b6), b7, (b8 + t9));
        lemma_seq_assoc((Seq::<u8>::empty() + b5), b6, (b7 + (b8 + t9)));
        lemma_seq_assoc(Seq::<u8>::empty(), b5, (b6 + (b7 + (b8 + t9))));
        lemma_seq_empty_left((b5 + (b6 + (b7 + (b8 + t9)))));
        assert(e == Seq::<u8>::empty() + p1 + p2);
        lemma_seq_assoc((Seq::<u8>::empty() + p1), p2, t9);
        lemma_seq_assoc(Seq::<u8>::empty(), p1, (p2 + t9));
        lemma_seq_empty_left((p1 + (p2 + t9)));
        let s = pre + e + post;
        lemma_seq_assoc(pre, e, post);
        assert(s == pre + t0);
        let a0 = pre;
        assert(parse_i32(s, a0.len() as int) == Ok::<(i32, int), SerializationError>((m.throttle_time_ms, a0.len() as int + b0.len()))) by {
            lemma_seq_assoc(a0, b0, t1);
            lemma_i32_roundtrip(a0, m.throttle_time_ms, t1);
        }
        lemma_seq_assoc(a0, b0, t1);
        let a1 = a0 + b0;
        assert(parse_i16(s, a1.len() as int) == Ok::<(i16, int), SerializationError>((m.error_code, a1.len() as int + b1.len()))) by {
            lemma_seq_assoc(a1, b1, t2);
            lemma_i16_roundtrip(a1, m.error_code, t2);
        }
        lemma_seq_assoc(a1, b1, t2);
        let a2 = a1 + b1;
        assert(parse_nullable_string(s, a2.len() as int, ctx.flexible) == Ok::<(Option<Seq<char>>, int), SerializationError>((m.error_message, a2.len() as int + b2.len()))) by {
            assert(nullable_string_bytes(m.error_message, ctx.flexible) is Ok);
            lemma_seq_assoc(a2, b2, t3);
            lemma_nullable_string_roundtrip(a2, m.error_message, t3, ctx.flexible);
        }
        lemma_seq_assoc(a2, b2, t3);
        let a3 = a2 + b2;
        if 1 <= ctx.version {
            assert(parse_i8(s, a3.len() as int) == Ok::<(i8, int), SerializationError>((m.endpoint_type, a3.len() as int + b3.len()))) by {
                lemma_seq_assoc(a3, b3, t4);
                lemma_i8_roundtrip(a3, m.endpoint_type, t4);
            }
        }
        lemma_seq_assoc(a3, b3, t4);
        let a4 = a3 + b3;
        assert(parse_string(s, a4.len() as int, ctx.flexible) == Ok::<(Seq<char>, int), SerializationError>((m.cluster_id, a4.len() as int + b4.len()))) by {
            assert(string_bytes(m.cluster_id, ctx.flexible) is Ok);
            lemma_seq_assoc(a4, b4, t5);
            lemma_string_roundtrip(a4, m.cluster_id, t5, ctx.flexible);
        }
        lemma_seq_assoc(a4, b4, t5);
        let a5 = a4 + b4;
        assert(parse_i32(s, a5.len() as int) == Ok::<(i32, int), SerializationError>((m.controller_id, a5.len() as int + b5.len()))) by {
            lemma_seq_assoc(a5, b5, t6);
            lemma_i32_roundtrip(a5, m.controller_id, t6);
        }
        lemma_seq_assoc(a5, b5, t6);
        let a6 = a5 + b5;
        assert(parse_array::<DescribeClusterBroker>(s, a6.len() as int, Ctx { version: ctx.version, flexible: ctx.flexible, classic: false }) == Ok::<(Seq<<DescribeClusterBroker as DeepView>::V>, int), SerializationError>((m.brokers, a6.len() as int + b6.len()))) by {
            assert(array_bytes::<DescribeClusterBroker>(m.brokers, Ctx { version: ctx.version, flexible: ctx.flexible, classic: false }) is Ok);
            lemma_seq_assoc(a6, b6, t7);
            lemma_items_read_back::<DescribeClusterBroker>(m.brokers, Ctx { version: ctx.version, flexible: ctx.flexible, classic: false });
            lemma_array_roundtrip::<DescribeClusterBroker>(a6, m.brokers, t7, Ctx { version: ctx.version, flexible: ctx.flexible, classic: false });
        }
        lemma_seq_assoc(a6, b6, t7);
        let a7 = a6 + b6;
        assert(parse_i32(s, a7.len() as int) == Ok::<(i32, int), SerializationError>((m.cluster_authorized_operations, a7.len() as int + b7.len()))) by {
            lemma_seq_assoc(a7, b7, t8);
            lemma_i32_roundtrip(a7, m.cluster_authorized_operations, t8);
        }
        lemma_seq_assoc(a7, b7, t8);
        let a8 = a7 + b7;
    }

    /// The bytes written: the encoding of each field, in the order of the
    /// protocol's layout. Reading them back, wherever they stand, gives the value,
    /// with each field that the version leaves out at its default.
    #[verifier::spinoff_prover]
    pub proof fn lemma_message_layout(pre: Seq<u8>, m: DescribeClusterResponseModel, post: Seq<u8>, version: i16)
        requires
            Self::spec_serialize(m, version) is Ok,
        ensures
            Self::spec_serialize(m, version) == Ok::<Seq<u8>, SerializationError>((i32_bytes(m.throttle_time_ms)) + (i16_bytes(m.error_code)) + ((nullable_string_bytes(m.error_message, (true)))->Ok_0) + (if 1 <= version { i8_bytes(m.endpoint_type) } else { Seq::<u8>::empty() }) + ((string_bytes(m.cluster_id, (true)))->Ok_0) + (i32_bytes(m.controller_id)) + ((array_bytes::<DescribeClusterBroker>(m.brokers, Ctx { version: version, flexible: (true), classic: false }))->Ok_0) + (i32_bytes(m.cluster_authorized_operations)) + (if (true) { uvarint_bytes(0) } else { Seq::<u8>::empty() })),
            Self::reads_back_message(m, version) ==> Self::spec_deserialize(pre + ((i32_bytes(m.throttle_time_ms)) + (i16_bytes(m.error_code)) + ((nullable_string_bytes(m.error_message, (true)))->Ok_0) + (if 1 <= version { i8_bytes(m.endpoint_type) } else { Seq::<u8>::empty() }) + ((string_bytes(m.cluster_id, (true)))->Ok_0) + (i32_bytes(m.controller_id)) + ((array_bytes::<DescribeClusterBroker>(m.brokers, Ctx { version: version, flexible: (true), classic: false }))->Ok_0) + (i32_bytes(m.cluster_authorized_operations)) + (if (true) { uvarint_bytes(0) } else { Seq::<u8>::empty() })) + post, pre.len() as int, version) == Ok::<(DescribeClusterResponseModel, int), SerializationError>((DescribeClusterResponseModel { throttle_time_ms: m.throttle_time_ms, error_code: m.error_code, error_message: m.error_message, endpoint_type: if 1 <= version { m.endpoint_type } else { 0i8 }, cluster_id: m.cluster_id, controller_id: m.controller_id, brokers: m.brokers, cluster_authorized_operations: m.cluster_authorized_operations }, pre.len() as int + ((i32_bytes(m.throttle_time_ms)) + (i16_bytes(m.error_code)) + ((nullable_string_bytes(m.error_message, (true)))->Ok_0) + (if 1 <= version { i8_bytes(m.endpoint_type) } else { Seq::<u8>::empty() }) + ((string_bytes(m.cluster_id, (true)))->Ok_0) + (i32_bytes(m.controller_id)) + ((array_bytes::<DescribeClusterBroker>(m.brokers, Ctx { version: version, flexible: (true), classic: false }))->Ok_0) + (i32_bytes(m.cluster_authorized_operations)) + (if (true) { uvarint_bytes(0) } else { Seq::<u8>::empty() })).len() - (if true { 1int } else { 0int }))),
    {
        let is_flexible = true;
        let ctx = Ctx { version, flexible: is_flexible, classic: false };
        let b0 = i32_bytes(m.throttle_time_ms);
        let b1 = i16_bytes(m.error_code);
        let b2 = (nullable_string_bytes(m.error_message, ctx.flexible))->Ok_0;
        let b3 = if 1 <= ctx.version { i8_bytes(m.endpoint_type) } else { Seq::<u8>::empty() };
        let b4 = (string_bytes(m.cluster_id, ctx.flexible))->Ok_0;
        let b5 = i32_bytes(m.controller_id);
        let b6 = (array_bytes::<DescribeClusterBroker>(m.brokers, Ctx { version: ctx.version, flexible: ctx.flexible, classic: false }))->Ok_0;
        let b7 = i32_bytes(m.cluster_authorized_operations);
        let b8 = if ctx.flexible { uvarint_bytes(0) } else { Seq::<u8>::empty() };
        let e = Self::spec_serialize(m, version)->Ok_0;
        let p1 = Self::spec_serialize_part1(m, ctx)->Ok_0;
        assert(p1 =~= Seq::<u8>::empty() + b0 + b1 + b2 + b3 + b4);
        let p2 = Self::spec_serialize_part2(m, ctx)->Ok_0;
        assert(p2 =~= Seq::<u8>::empty() + b5 + b6 + b7 + b8);
        assert(e == Seq::<u8>::empty() + p1 + p2);
        assert(e =~= b0 + b1 + b2 + b3 + b4 + b5 + b6 + b7 + b8);
        if Self::reads_back_message(m, version) {
            Self::lemma_message_read_back(pre, m, post, version);
        }
    }

    /// Writing succeeds exactly when every field that the version carries can be
    /// encoded and every field that it leaves out, where leaving it out is an
    /// error, holds its default.
    #[verifier::spinoff_prover]
    pub proof fn lemma_message_write_succeeds(m: DescribeClusterResponseModel, version: i16)
        ensures
            Self::spec_serialize(m, version) is Ok <==> (map_encode_err(Ok(i32_bytes(m.throttle_time_ms)), SerializationError::Encode("failed to encode ThrottleTimeMs")) is Ok) && (map_encode_err(Ok(i16_bytes(m.error_code)), SerializationError::Encode("failed to encode ErrorCode")) is Ok) && (map_encode_err(nullable_string_bytes(m.error_message, (true)), SerializationError::Encode("failed to encode ErrorMessage")) is Ok) && ((1 <= version) ==> map_encode_err(Ok(i8_bytes(m.endpoint_type)), SerializationError::Encode("failed to encode EndpointType")) is Ok) && (map_encode_err(string_bytes(m.cluster_id, (true)), SerializationError::Encode("failed to encode ClusterId")) is Ok) && (map_encode_err(Ok(i32_bytes(m.controller_id)), SerializationError::Encode("failed to encode ControllerId")) is Ok) && (map_encode_err(array_bytes::<DescribeClusterBroker>(m.brokers, Ctx { version: version, flexible: (true), classic: false }), SerializationError::Encode("failed to encode Brokers")) is Ok) && (map_encode_err(Ok(i32_bytes(m.cluster_authorized_operations)), SerializationError::Encode("failed to encode ClusterAuthorizedOperations")) is Ok),
    {
        let is_flexible = true;
        let ctx = Ctx { version, flexible: is_flexible, classic: false };
    }

    /// Writes the message body for `version`, which must be a supported version.
    /// On failure the buffer is left as it was.
    pub fn serialize(&self, version: ApiVersion, buf: &mut Vec<u8>) -> (r: Result<(), SerializationError>)
        requires
            0 <= version.0 <= 2,
        ensures
            write_exact(r, old(buf)@, final(buf)@, Self::spec_serialize(self.deep_view(), version.0)),
    {
        let start = buf.len();
        let r = self.write_body(version, buf);
        if r.is_err() {
            buf.truncate(start);
        }
        r
    }

    #[verifier::spinoff_prover]
    fn write_body(&self, version: ApiVersion, buf: &mut Vec<u8>) -> (r: Result<(), SerializationError>)
        requires
            0 <= version.0 <= 2,
        ensures
            write_ok(r, old(buf)@, final(buf)@, Self::spec_serialize(self.deep_view(), version.0)),
    {
        let is_flexible = true;
        let ctx = Ctx::new(version, is_flexible);
        let ghost mut w: Seq<u8> = Seq::empty();
        self.serialize_part1(buf, ctx)?;
        proof {
            w = w + (Self::spec_serialize_part1(self.deep_view(), ctx))->Ok_0;
        }
        assert(buf@ =~= old(buf)@ + w);
        self.serialize_part2(buf, ctx)?;
        proof {
            w = w + (Self::spec_serialize_part2(self.deep_view(), ctx))->Ok_0;
        }
        assert(buf@ =~= old(buf)@ + w);
        Ok(())
    }

    /// Reads a message body written for `version`.
    /// On failure the reader is put back where it started.
    #[verifier::spinoff_prover]
    pub fn deserialize(version: ApiVersion, buf: &mut Reader) -> (r: Result<Self, SerializationError>)
        ensures
            final(buf).bytes() == old(buf).bytes(),
            read_view_exact(r, Self::spec_deserialize(old(buf).bytes(), old(buf).pos(), version.0), old(buf).pos(), final(buf).pos()),
    {
        let start = buf.position();
        let r = Self::read_body(version, buf);
        if r.is_err() {
            buf.set_position(start);
        }
        r
    }

    fn read_body(version: ApiVersion, buf: &mut Reader) -> (r: Result<Self, SerializationError>)
        ensures
            final(buf).bytes() == old(buf).bytes(),
            read_view_ok(r, Self::spec_deserialize(old(buf).bytes(), old(buf).pos(), version.0), final(buf).pos()),
    {
        let is_flexible = true;
        let ctx = Ctx::new(version, is_flexible);
        let throttle_time_ms = match buf.get_i32() { Ok(v) => v, Err(_) => { return Err(SerializationError::Decode("failed to decode ThrottleTimeMs")); } };
        let error_code = match buf.get_i16() { Ok(v) => v, Err(_) => { return Err(SerializationError::Decode("failed to decode ErrorCode")); } };
        let error_message = match buf.get_nullable_string(ctx.flexible) { Ok(v) => v, Err(_) => { return Err(SerializationError::Decode("failed to decode ErrorMessage")); } };
        let endpoint_type = if 1 <= ctx.version {
            match buf.get_i8() { Ok(v) => v, Err(_) => { return Err(SerializationError::Decode("failed to decode EndpointType")); } }
        } else {
            0i8
        };
        let cluster_id = match buf.get_string(ctx.flexible) { Ok(v) => v, Err(_) => { return Err(SerializationError::Decode("failed to decode ClusterId")); } };
        let controller_id = match buf.get_i32() { Ok(v) => v, Err(_) => { return Err(SerializationError::Decode("failed to decode ControllerId")); } };
        let brokers = match decode_array::<DescribeClusterBroker>(buf, Ctx { version: ctx.version, flexible: ctx.flexible, classic: false }) { Ok(v) => v, Err(_) => { return Err(SerializationError::Decode("failed to decode Brokers")); } };
        let cluster_authorized_operations = match buf.get_i32() { Ok(v) => v, Err(_) => { return Err(SerializationError::Decode("failed to decode ClusterAuthorizedOperations")); } };
        Ok(DescribeClusterResponse { throttle_time_ms, error_code, error_message, endpoint_type, cluster_id, controller_id, brokers, cluster_authorized_operations })
    }
}

// -------------------------------------------------------
// DescribeClusterBroker
// -------------------------------------------------------
#[derive(Clone, Debug, Default, PartialEq)]
pub struct DescribeClusterBroker {
    /// The broker ID.
    pub broker_id: i32,
    /// The broker hostname.
    pub host: String,
    /// The broker port.
    pub port: i32,
    /// The rack of the broker, or null if it has not been assigned to a rack.
    pub rack: Option<String>,
    /// Whether the broker is fenced
    /// Available in version 2+.
    pub is_fenced: bool,
}

/// The contents of `DescribeClusterBroker`, with strings as characters and
/// nested values by their contents.
pub struct DescribeClusterBrokerModel {
    pub broker_id: i32,
    pub host: Seq<char>,
    pub port: i32,
    pub rack: Option<Seq<char>>,
    pub is_fenced: bool,
}

impl DeepView for DescribeClusterBroker {
    type V = DescribeClusterBrokerModel;

    open spec fn deep_view(&self) -> DescribeClusterBrokerModel {
        DescribeClusterBrokerModel {
            broker_id: self.broker_id,
            host: self.host.deep_view(),
            port: self.port,
            rack: self.rack.deep_view(),
            is_fenced: self.is_fenced,
        }
    }
}

impl DescribeClusterBroker {
    /// The classic encoding of the structure.
    pub open spec fn spec_encode_classic(m: DescribeClusterBrokerModel) -> Result<Seq<u8>, SerializationError> {
        let r = Ok(Seq::<u8>::empty());
        let r = then(r, map_encode_err(Ok(i32_bytes(m.broker_id)), SerializationError::ValueTooLarge { message: "failed to encode BrokerId" }));
        let r = then(r, map_encode_err(string_bytes(m.host, false), SerializationError::ValueTooLarge { message: "failed to encode Host" }));
        let r = then(r, map_encode_err(Ok(i32_bytes(m.port)), SerializationError::ValueTooLarge { message: "failed to encode Port" }));
        let r = then(r, map_encode_err(nullable_string_bytes(m.rack, false), SerializationError::ValueTooLarge { message: "failed to encode Rack" }));
        let r = then(r, map_encode_err(Ok(bool_bytes(m.is_fenced)), SerializationError::ValueTooLarge { message: "failed to encode IsFenced" }));
        r
    }

    /// The flexible-aware encoding of the structure.
    pub open spec fn spec_encode_flexible(m: DescribeClusterBrokerModel, is_flexible: bool) -> Result<Seq<u8>, SerializationError> {
        let r = Ok(Seq::<u8>::empty());
        let r = then(r, map_encode_err(Ok(i32_bytes(m.broker_id)), SerializationError::ValueTooLarge { message: "failed to encode BrokerId" }));
        let r = then(r, map_encode_err(string_bytes(m.host, is_flexible), SerializationError::ValueTooLarge { message: "failed to encode Host" }));
        let r = then(r, map_encode_err(Ok(i32_bytes(m.port)), SerializationError::ValueTooLarge { message: "failed to encode Port" }));
        let r = if is_flexible { match m.rack { Some(v) => then(then(r, Ok(uvarint_bytes(1))), map_encode_err(string_bytes(v, true), SerializationError::ValueTooLarge { message: "failed to encode Rack" })), None => then(r, Ok(uvarint_bytes(0))) } } else { then(r, map_encode_err(nullable_string_bytes(m.rack, false), SerializationError::ValueTooLarge { message: "failed to encode Rack" })) };
        let r = then(r, map_encode_err(Ok(bool_bytes(m.is_fenced)), SerializationError::ValueTooLarge { message: "failed to encode IsFenced" }));
        let r = if is_flexible { then(r, Ok(uvarint_bytes(0))) } else { r };
        r
    }

    /// The structure read by the classic decoder.
    pub open spec fn spec_decode_classic(s: Seq<u8>, pos: int) -> Result<(DescribeClusterBrokerModel, int), SerializationError> {
        match map_decode_err(parse_i32(s, pos), SerializationError::Protocol { message: "failed to decode BrokerId" }) {
            Err(e) => Err(e),
            Ok((broker_id, pos)) =>
            match map_decode_err(parse_string(s, pos, false), SerializationError::Protocol { message: "failed to decode Host" }) {
                Err(e) => Err(e),
                Ok((host, pos)) =>
                match map_decode_err(parse_i32(s, pos), SerializationError::Protocol { message: "failed to decode Port" }) {
                    Err(e) => Err(e),
                    Ok((port, pos)) =>
                    match map_decode_err(parse_nullable_string(s, pos, false), SerializationError::Protocol { message: "failed to decode Rack" }) {
                        Err(e) => Err(e),
                        Ok((rack, pos)) =>
                        match map_decode_err(parse_bool(s, pos), SerializationError::Protocol { message: "failed to decode IsFenced" }) {
                            Err(e) => Err(e),
                            Ok((is_fenced, pos)) =>
                            Ok((DescribeClusterBrokerModel { broker_id, host, port, rack, is_fenced }, pos))
                        }
                    }
                }
            }
        }
    }

    /// The structure read by the flexible-aware decoder.
    pub open spec fn spec_decode_flexible(s: Seq<u8>, pos: int, is_flexible: bool) -> Result<(DescribeClusterBrokerModel, int), SerializationError> {
        match map_decode_err(parse_i32(s, pos), SerializationError::Protocol { message: "failed to decode BrokerId" }) {
            Err(e) => Err(e),
            Ok((broker_id, pos)) =>
            match map_decode_err(parse_string(s, pos, is_flexible), SerializationError::Protocol { message: "failed to decode Host" }) {
                Err(e) => Err(e),
                Ok((host, pos)) =>
                match map_decode_err(parse_i32(s, pos), SerializationError::Protocol { message: "failed to decode Port" }) {
                    Err(e) => Err(e),
                    Ok((port, pos)) =>
                    match (if is_flexible { match parse_uvarint(s, pos) { Err(e) => Err(e), Ok((present, p)) => if present == 0 { Ok((None, p)) } else { match (map_decode_err(parse_string(s, p, true), SerializationError::Protocol { message: "failed to decode Rack" })) { Err(e) => Err(e), Ok((v, q)) => Ok((Some(v), q)) } } } } else { map_decode_err(parse_nullable_string(s, pos, false), SerializationError::Protocol { message: "failed to decode Rack" }) }) {
                        Err(e) => Err(e),
                        Ok((rack, pos)) =>
                        match map_decode_err(parse_bool(s, pos), SerializationError::Protocol { message: "failed to decode IsFenced" }) {
                            Err(e) => Err(e),
                            Ok((is_fenced, pos)) =>
                            match (if is_flexible { parse_uvarint(s, pos) } else { Ok((0u64, pos)) }) {
                                Err(e) => Err(e),
                                Ok((_tag_count, pos)) =>
                                Ok((DescribeClusterBrokerModel { broker_id, host, port, rack, is_fenced }, pos))
                            }
                        }
                    }
                }
            }
        }
    }

    /// Values of the structure that read back from their classic encoding:
    /// nested values read back.
    pub open spec fn reads_back_classic(m: DescribeClusterBrokerModel) -> bool {
        true
    }

    /// A value that can be written and reads back: decoding its encoding, wherever
    /// it stands, gives the value and the position just after it.
    #[verifier::spinoff_prover]
    pub proof fn lemma_classic_read_back(pre: Seq<u8>, m: DescribeClusterBrokerModel, post: Seq<u8>)
        requires
            Self::spec_encode_classic(m) is Ok,
            Self::reads_back_classic(m),
        ensures
            Self::spec_decode_classic(pre + Self::spec_encode_classic(m)->Ok_0 + post, pre.len() as int) == Ok::<(DescribeClusterBrokerModel, int), SerializationError>((m, pre.len() as int + Self::spec_encode_classic(m)->Ok_0.len())),
    {
        let b0 = i32_bytes(m.broker_id);
        let b1 = (string_bytes(m.host, false))->Ok_0;
        let b2 = i32_bytes(m.port);
        let b3 = (nullable_string_bytes(m.rack, false))->Ok_0;
        let b4 = bool_bytes(m.is_fenced);
        let t5 = post;
        let t4 = b4 + t5;
        let t3 = b3 + t4;
        let t2 = b2 + t3;
        let t1 = b1 + t2;
        let t0 = b0 + t1;
        let e = Self::spec_encode_classic(m)->Ok_0;
        assert(e =~= Seq::<u8>::empty() + b0 + b1 + b2 + b3 + b4);
        lemma_seq_assoc(((((Seq::<u8>::empty() + b0) + b1) + b2) + b3), b4, post);
        lemma_seq_assoc((((Seq::<u8>::empty() + b0) + b1) + b2), b3, (b4 + post));
        lemma_seq_assoc(((Seq::<u8>::empty() + b0) + b1), b2, (b3 + (b4 + post)));
        lemma_seq_assoc((Seq::<u8>::empty() + b0), b1, (b2 + (b3 + (b4 + post))));
        lemma_seq_assoc(Seq::<u8>::empty(), b0, (b1 + (b2 + (b3 + (b4 + post)))));
        lemma_seq_empty_left((b0 + (b1 + (b2 + (b3 + (b4 + post))))));
        let s = pre + e + post;
        lemma_seq_assoc(pre, e, post);
        assert(s == pre + t0);
        let a0 = pre;
        assert(parse_i32(s, a0.len() as int) == Ok::<(i32, int), SerializationError>((m.broker_id, a0.len() as int + b0.len()))) by {
            lemma_seq_assoc(a0, b0, t1);
            lemma_i32_roundtrip(a0, m.broker_id, t1);
        }
        lemma_seq_assoc(a0, b0, t1);
        let a1 = a0 + b0;
        assert(parse_string(s, a1.len() as int, false) == Ok::<(Seq<char>, int), SerializationError>((m.host, a1.len() as int + b1.len()))) by {
            assert(string_bytes(m.host, false) is Ok);
            lemma_seq_assoc(a1, b1, t2);
            lemma_string_roundtrip(a1, m.host, t2, false);
        }
        lemma_seq_assoc(a1, b1, t2);
        let a2 = a1 + b1;
        assert(parse_i32(s, a2.len() as int) == Ok::<(i32, int), SerializationError>((m.port, a2.len() as int + b2.len()))) by {
            lemma_seq_assoc(a2, b2, t3);
            lemma_i32_roundtrip(a2, m.port, t3);
        }
        lemma_seq_assoc(a2, b2, t3);
        let a3 = a2 + b2;
        assert(parse_nullable_string(s, a3.len() as int, false) == Ok::<(Option<Seq<char>>, int), SerializationError>((m.rack, a3.len() as int + b3.len()))) by {
            assert(nullable_string_bytes(m.rack, false) is Ok);
            lemma_seq_assoc(a3, b3, t4);
            lemma_nullable_string_roundtrip(a3, m.rack, t4, false);
        }
        lemma_seq_assoc(a3, b3, t4);
        let a4 = a3 + b3;
        assert(parse_bool(s, a4.len() as int) == Ok::<(bool, int), SerializationError>((m.is_fenced, a4.len() as int + b4.len()))) by {
            lemma_seq_assoc(a4, b4, t5);
            lemma_bool_roundtrip(a4, m.is_fenced, t5);
        }
    }

    /// The bytes written: the encoding of each field, in the order of the
    /// protocol's layout. Reading them back, wherever they stand, gives the value,
    /// with each field that the version leaves out at its default.
    #[verifier::spinoff_prover]
    pub proof fn lemma_classic_layout(pre: Seq<u8>, m: DescribeClusterBrokerModel, post: Seq<u8>)
        requires
            Self::spec_encode_classic(m) is Ok,
        ensures
            Self::spec_encode_classic(m) == Ok::<Seq<u8>, SerializationError>((i32_bytes(m.broker_id)) + ((string_bytes(m.host, false))->Ok_0) + (i32_bytes(m.port)) + ((nullable_string_bytes(m.rack, false))->Ok_0) + (bool_bytes(m.is_fenced))),
            Self::reads_back_classic(m) ==> Self::spec_decode_classic(pre + ((i32_bytes(m.broker_id)) + ((string_bytes(m.host, false))->Ok_0) + (i32_bytes(m.port)) + ((nullable_string_bytes(m.rack, false))->Ok_0) + (bool_bytes(m.is_fenced))) + post, pre.len() as int) == Ok::<(DescribeClusterBrokerModel, int), SerializationError>((m, pre.len() as int + ((i32_bytes(m.broker_id)) + ((string_bytes(m.host, false))->Ok_0) + (i32_bytes(m.port)) + ((nullable_string_bytes(m.rack, false))->Ok_0) + (bool_bytes(m.is_fenced))).len())),
    {
        let b0 = i32_bytes(m.broker_id);
        let b1 = (string_bytes(m.host, false))->Ok_0;
        let b2 = i32_bytes(m.port);
        let b3 = (nullable_string_bytes(m.rack, false))->Ok_0;
        let b4 = bool_bytes(m.is_fenced);
        let e = Self::spec_encode_classic(m)->Ok_0;
        assert(e =~= Seq::<u8>::empty() + b0 + b1 + b2 + b3 + b4);
        assert(e =~= b0 + b1 + b2 + b3 + b4);
        if Self::reads_back_classic(m) {
            Self::lemma_classic_read_back(pre, m, post);
        }
    }

    /// Writing succeeds exactly when every field that the version carries can be
    /// encoded and every field that it leaves out, where leaving it out is an
    /// error, holds its default.
    #[verifier::spinoff_prover]
    pub proof fn lemma_classic_write_succeeds(m: DescribeClusterBrokerModel)
        ensures
            Self::spec_encode_classic(m) is Ok <==> (map_encode_err(Ok(i32_bytes(m.broker_id)), SerializationError::ValueTooLarge { message: "failed to encode BrokerId" }) is Ok) && (map_encode_err(string_bytes(m.host, false), SerializationError::ValueTooLarge { message: "failed to encode Host" }) is Ok) && (map_encode_err(Ok(i32_bytes(m.port)), SerializationError::ValueTooLarge { message: "failed to encode Port" }) is Ok) && (map_encode_err(nullable_string_bytes(m.rack, false), SerializationError::ValueTooLarge { message: "failed to encode Rack" }) is Ok) && (map_encode_err(Ok(bool_bytes(m.is_fenced)), SerializationError::ValueTooLarge { message: "failed to encode IsFenced" }) is Ok),
    {
    }

    /// Values of the structure that read back from their flexible-aware encoding:
    /// nested values read back.
    pub open spec fn reads_back_flexible(m: DescribeClusterBrokerModel, is_flexible: bool) -> bool {
        true
    }

    /// A value that can be written and reads back: decoding its encoding, wherever
    /// it stands, gives the value and the position just after it.
    #[verifier::spinoff_prover]
    pub proof fn lemma_flexible_read_back(pre: Seq<u8>, m: DescribeClusterBrokerModel, post: Seq<u8>, is_flexible: bool)
        requires
            Self::spec_encode_flexible(m, is_flexible) is Ok,
            Self::reads_back_flexible(m, is_flexible),
        ensures
            Self::spec_decode_flexible(pre + Self::spec_encode_flexible(m, is_flexible)->Ok_0 + post, pre.len() as int, is_flexible) == Ok::<(DescribeClusterBrokerModel, int), SerializationError>((m, pre.len() as int + Self::spec_encode_flexible(m, is_flexible)->Ok_0.len())),
    {
        let b0 = i32_bytes(m.broker_id);
        let b1 = (string_bytes(m.host, is_flexible))->Ok_0;
        let b2 = i32_bytes(m.port);
        let b3 = if is_flexible { match m.rack { Some(v) => uvarint_bytes(1) + (string_bytes(v, true))->Ok_0, None => uvarint_bytes(0) } } else { (nullable_string_bytes(m.rack, false))->Ok_0 };
        let b4 = bool_bytes(m.is_fenced);
        let b5 = if is_flexible { uvarint_bytes(0) } else { Seq::<u8>::empty() };
        let t6 = post;
        let t5 = b5 + t6;
        let t4 = b4 + t5;
        let t3 = b3 + t4;
        let t2 = b2 + t3;
        let t1 = b1 + t2;
        let t0 = b0 + t1;
        let e = Self::spec_encode_flexible(m, is_flexible)->Ok_0;
        assert(e =~= Seq::<u8>::empty() + b0 + b1 + b2 + b3 + b4 + b5);
        lemma_seq_assoc((((((Seq::<u8>::empty() + b0) + b1) + b2) + b3) + b4), b5, post);
        lemma_seq_assoc(((((Seq::<u8>::empty() + b0) + b1) + b2) + b3), b4, (b5 + post));
        lemma_seq_assoc((((Seq::<u8>::empty() + b0) + b1) + b2), b3, (b4 + (b5 + post)));
        lemma_seq_assoc(((Seq::<u8>::empty() + b0) + b1), b2, (b3 + (b4 + (b5 + post))));
        lemma_seq_assoc((Seq::<u8>::empty() + b0), b1, (b2 + (b3 + (b4 + (b5 + post)))));
        lemma_seq_assoc(Seq::<u8>::empty(), b0, (b1 + (b2 + (b3 + (b4 + (b5 + post))))));
        lemma_seq_empty_left((b0 + (b1 + (b2 + (b3 + (b4 + (b5 + post)))))));
        let s = pre + e + post;
        lemma_seq_assoc(pre, e, post);
        assert(s == pre + t0);
        let a0 = pre;
        assert(parse_i32(s, a0.len() as int) == Ok::<(i32, int), SerializationError>((m.broker_id, a0.len() as int + b0.len()))) by {
            lemma_seq_assoc(a0, b0, t1);
            lemma_i32_roundtrip(a0, m.broker_id, t1);
        }
        lemma_seq_assoc(a0, b0, t1);
        let a1 = a0 + b0;
        assert(parse_string(s, a1.len() as int, is_flexible) == Ok::<(Seq<char>, int), SerializationError>((m.host, a1.len() as int + b1.len()))) by {
            assert(string_bytes(m.host, is_flexible) is Ok);
            lemma_seq_assoc(a1, b1, t2);
            lemma_string_roundtrip(a1, m.host, t2, is_flexible);
        }
        lemma_seq_assoc(a1, b1, t2);
        let a2 = a1 + b1;
        assert(parse_i32(s, a2.len() as int) == Ok::<(i32, int), SerializationError>((m.port, a2.len() as int + b2.len()))) by {
            lemma_seq_assoc(a2, b2, t3);
            lemma_i32_roundtrip(a2, m.port, t3);
        }
        lemma_seq_assoc(a2, b2, t3);
        let a3 = a2 + b2;
        if is_flexible {
            match m.rack {
                Some(v) => {
                    let x = (string_bytes(v, true))->Ok_0;
                    assert(parse_uvarint(s, a3.len() as int) == Ok::<(u64, int), SerializationError>((1u64, a3.len() as int + 1))) by {
                        assert(s =~= a3 + uvarint_bytes(1) + (x + t4));
                        lemma_uvarint_roundtrip(a3, 1, x + t4);
                    }
                    let a1x = a3 + uvarint_bytes(1);
                    assert(parse_string(s, a1x.len() as int, true) == Ok::<(Seq<char>, int), SerializationError>((v, a1x.len() as int + x.len()))) by {
                        assert(s =~= a1x + x + t4);
                        lemma_string_roundtrip(a1x, v, t4, true);
                    }
                },
                None => {
                    assert(parse_uvarint(s, a3.len() as int) == Ok::<(u64, int), SerializationError>((0u64, a3.len() as int + 1))) by {
                        assert(s =~= a3 + b3 + t4);
                        lemma_uvarint_roundtrip(a3, 0, t4);
                    }
                },
            }
        } else {
            assert(parse_nullable_string(s, a3.len() as int, false) == Ok::<(Option<Seq<char>>, int), SerializationError>((m.rack, a3.len() as int + b3.len()))) by {
                assert(nullable_string_bytes(m.rack, false) is Ok);
                lemma_seq_assoc(a3, b3, t4);
                lemma_nullable_string_roundtrip(a3, m.rack, t4, false);
            }
        }
        lemma_seq_assoc(a3, b3, t4);
        let a4 = a3 + b3;
        assert(parse_bool(s, a4.len() as int) == Ok::<(bool, int), SerializationError>((m.is_fenced, a4.len() as int + b4.len()))) by {
            lemma_seq_assoc(a4, b4, t5);
            lemma_bool_roundtrip(a4, m.is_fenced, t5);
        }
        lemma_seq_assoc(a4, b4, t5);
        let a5 = a4 + b4;
        if is_flexible {
            assert(parse_uvarint(s, a5.len() as int) == Ok::<(u64, int), SerializationError>((0u64, a5.len() as int + b5.len()))) by {
                lemma_seq_assoc(a5, b5, t6);
                lemma_uvarint_roundtrip(a5, 0, t6);
            }
        }
    }

    /// The bytes written: the encoding of each field, in the order of the
    /// protocol's layout. Reading them back, wherever they stand, gives the value,
    /// with each field that the version leaves out at its default.
    #[verifier::spinoff_prover]
    pub proof fn lemma_flexible_layout(pre: Seq<u8>, m: DescribeClusterBrokerModel, post: Seq<u8>, is_flexible: bool)
        requires
            Self::spec_encode_flexible(m, is_flexible) is Ok,
        ensures
            Self::spec_encode_flexible(m, is_flexible) == Ok::<Seq<u8>, SerializationError>((i32_bytes(m.broker_id)) + ((string_bytes(m.host, is_flexible))->Ok_0) + (i32_bytes(m.port)) + (if is_flexible { match m.rack { Some(v) => uvarint_bytes(1) + (string_bytes(v, true))->Ok_0, None => uvarint_bytes(0) } } else { (nullable_string_bytes(m.rack, false))->Ok_0 }) + (bool_bytes(m.is_fenced)) + (if is_flexible { uvarint_bytes(0) } else { Seq::<u8>::empty() })),
            Self::reads_back_flexible(m, is_flexible) ==> Self::spec_decode_flexible(pre + ((i32_bytes(m.broker_id)) + ((string_bytes(m.host, is_flexible))->Ok_0) + (i32_bytes(m.port)) + (if is_flexible { match m.rack { Some(v) => uvarint_bytes(1) + (string_bytes(v, true))->Ok_0, None => uvarint_bytes(0) } } else { (nullable_string_bytes(m.rack, false))->Ok_0 }) + (bool_bytes(m.is_fenced)) + (if is_flexible { uvarint_bytes(0) } else { Seq::<u8>::empty() })) + post, pre.len() as int, is_flexible) == Ok::<(DescribeClusterBrokerModel, int), SerializationError>((m, pre.len() as int + ((i32_bytes(m.broker_id)) + ((string_bytes(m.host, is_flexible))->Ok_0) + (i32_bytes(m.port)) + (if is_flexible { match m.rack { Some(v) => uvarint_bytes(1) + (string_bytes(v, true))->Ok_0, None => uvarint_bytes(0) } } else { (nullable_string_bytes(m.rack, false))->Ok_0 }) + (bool_bytes(m.is_fenced)) + (if is_flexible { uvarint_bytes(0) } else { Seq::<u8>::empty() })).len())),
    {
        let b0 = i32_bytes(m.broker_id);
        let b1 = (string_bytes(m.host, is_flexible))->Ok_0;
        let b2 = i32_bytes(m.port);
        let b3 = if is_flexible { match m.rack { Some(v) => uvarint_bytes(1) + (string_bytes(v, true))->Ok_0, None => uvarint_bytes(0) } } else { (nullable_string_bytes(m.rack, false))->Ok_0 };
        let b4 = bool_bytes(m.is_fenced);
        let b5 = if is_flexible { uvarint_bytes(0) } else { Seq::<u8>::empty() };
        let e = Self::spec_encode_flexible(m, is_flexible)->Ok_0;
        assert(e =~= Seq::<u8>::empty() + b0 + b1 + b2 + b3 + b4 + b5);
        assert(e =~= b0 + b1 + b2 + b3 + b4 + b5);
        if Self::reads_back_flexible(m, is_flexible) {
            Self::lemma_flexible_read_back(pre, m, post, is_flexible);
        }
    }

    /// With the compact encodings off, the flexible-aware layout is the classic
    /// layout: both write the same bytes.
    pub proof fn lemma_flexible_off_writes_classic(m: DescribeClusterBrokerModel)
        ensures
            Self::spec_encode_flexible(m, false) == Self::spec_encode_classic(m),
    {
    }

    /// With the compact encodings off, the flexible-aware layout is the classic
    /// layout: both read the same bytes alike.
    pub proof fn lemma_flexible_off_reads_classic(s: Seq<u8>, pos: int)
        ensures
            Self::spec_decode_flexible(s, pos, false) == Self::spec_decode_classic(s, pos),
    {
    }

    /// Writes the structure in the classic layout.
    /// On failure the buffer is left as it was.
    pub fn encode(&self, buf: &mut Vec<u8>) -> (r: Result<(), SerializationError>)
        ensures
            write_exact(r, old(buf)@, final(buf)@, Self::spec_encode_classic(self.deep_view())),
    {
        let start = buf.len();
        let r = self.write_classic(buf);
        if r.is_err() {
            buf.truncate(start);
        }
        r
    }

    fn write_classic(&self, buf: &mut Vec<u8>) -> (r: Result<(), SerializationError>)
        ensures
            write_ok(r, old(buf)@, final(buf)@, Self::spec_encode_classic(self.deep_view())),
    {
        let ghost mut w: Seq<u8> = Seq::empty();
        put_i32(buf, self.broker_id);
        proof {
            w = w + (map_encode_err(Ok(i32_bytes(self.broker_id)), SerializationError::ValueTooLarge { message: "failed to encode BrokerId" }))->Ok_0;
        }
        assert(buf@ =~= old(buf)@ + w);
        match encode_string(&self.host, buf, false) {
            Ok(()) => {},
            Err(_) => {
                return Err(SerializationError::ValueTooLarge { message: "failed to encode Host" });
            },
        }
        proof {
            w = w + (map_encode_err(string_bytes(self.host.deep_view(), false), SerializationError::ValueTooLarge { message: "failed to encode Host" }))->Ok_0;
        }
        assert(buf@ =~= old(buf)@ + w);
        put_i32(buf, self.port);
        proof {
            w = w + (map_encode_err(Ok(i32_bytes(self.port)), SerializationError::ValueTooLarge { message: "failed to encode Port" }))->Ok_0;
        }
        assert(buf@ =~= old(buf)@ + w);
        match encode_nullable_string(&self.rack, buf, false) {
            Ok(()) => {},
            Err(_) => {
                return Err(SerializationError::ValueTooLarge { message: "failed to encode Rack" });
            },
        }
        proof {
            w = w + (map_encode_err(nullable_string_bytes(self.rack.deep_view(), false), SerializationError::ValueTooLarge { message: "failed to encode Rack" }))->Ok_0;
        }
        assert(buf@ =~= old(buf)@ + w);
        put_bool(buf, self.is_fenced);
        proof {
            w = w + (map_encode_err(Ok(bool_bytes(self.is_fenced)), SerializationError::ValueTooLarge { message: "failed to encode IsFenced" }))->Ok_0;
        }
        assert(buf@ =~= old(buf)@ + w);
        Ok(())
    }

    /// Writes the structure, with the compact encodings when `is_flexible`.
    /// On failure the buffer is left as it was.
    pub fn encode_flexible(&self, buf: &mut Vec<u8>, is_flexible: bool) -> (r: Result<(), SerializationError>)
        ensures
            write_exact(r, old(buf)@, final(buf)@, Self::spec_encode_flexible(self.deep_view(), is_flexible)),
    {
        let start = buf.len();
        let r = self.write_flexible(buf, is_flexible);
        if r.is_err() {
            buf.truncate(start);
        }
        r
    }

    fn write_flexible(&self, buf: &mut Vec<u8>, is_flexible: bool) -> (r: Result<(), SerializationError>)
        ensures
            write_ok(r, old(buf)@, final(buf)@, Self::spec_encode_flexible(self.deep_view(), is_flexible)),
    {
        let ghost mut w: Seq<u8> = Seq::empty();
        put_i32(buf, self.broker_id);
        proof {
            w = w + (map_encode_err(Ok(i32_bytes(self.broker_id)), SerializationError::ValueTooLarge { message: "failed to encode BrokerId" }))->Ok_0;
        }
        assert(buf@ =~= old(buf)@ + w);
        match encode_string(&self.host, buf, is_flexible) {
            Ok(()) => {},
            Err(_) => {
                return Err(SerializationError::ValueTooLarge { message: "failed to encode Host" });
            },
        }
        proof {
            w = w + (map_encode_err(string_bytes(self.host.deep_view(), is_flexible), SerializationError::ValueTooLarge { message: "failed to encode Host" }))->Ok_0;
        }
        assert(buf@ =~= old(buf)@ + w);
        put_i32(buf, self.port);
        proof {
            w = w + (map_encode_err(Ok(i32_bytes(self.port)), SerializationError::ValueTooLarge { message: "failed to encode Port" }))->Ok_0;
        }
        assert(buf@ =~= old(buf)@ + w);
        if is_flexible {
            match &self.rack {
                Some(v) => {
                    encode_unsigned_varint(1, buf);
                    proof {
                        w = w + uvarint_bytes(1);
                    }
                    match encode_string(&*v, buf, true) {
                        Ok(()) => {},
                        Err(_) => {
                            return Err(SerializationError::ValueTooLarge { message: "failed to encode Rack" });
                        },
                    }
                    proof {
                        w = w + (map_encode_err(string_bytes((*v).deep_view(), true), SerializationError::ValueTooLarge { message: "failed to encode Rack" }))->Ok_0;
                    }
                    assert(buf@ =~= old(buf)@ + w);
                },
                None => {
                    encode_unsigned_varint(0, buf);
                    proof {
                        w = w + uvarint_bytes(0);
                    }
                    assert(buf@ =~= old(buf)@ + w);
                },
            }
        } else {
            match encode_nullable_string(&self.rack, buf, false) {
                Ok(()) => {},
                Err(_) => {
                    return Err(SerializationError::ValueTooLarge { message: "failed to encode Rack" });
                },
            }
            proof {
                w = w + (map_encode_err(nullable_string_bytes(self.rack.deep_view(), false), SerializationError::ValueTooLarge { message: "failed to encode Rack" }))->Ok_0;
            }
            assert(buf@ =~= old(buf)@ + w);
        }
        put_bool(buf, self.is_fenced);
        proof {
            w = w + (map_encode_err(Ok(bool_bytes(self.is_fenced)), SerializationError::ValueTooLarge { message: "failed to encode IsFenced" }))->Ok_0;
        }
        assert(buf@ =~= old(buf)@ + w);
        if is_flexible {
            encode_unsigned_varint(0, buf);
            proof {
                w = w + uvarint_bytes(0);
            }
            assert(buf@ =~= old(buf)@ + w);
        }
        Ok(())
    }

    /// Reads the structure in the classic layout.
    /// On failure the reader is put back where it started.
    pub fn decode(buf: &mut Reader) -> (r: Result<Self, SerializationError>)
        ensures
            final(buf).bytes() == old(buf).bytes(),
            read_view_exact(r, Self::spec_decode_classic(old(buf).bytes(), old(buf).pos()), old(buf).pos(), final(buf).pos()),
    {
        let start = buf.position();
        let r = Self::read_classic(buf);
        if r.is_err() {
            buf.set_position(start);
        }
        r
    }

    fn read_classic(buf: &mut Reader) -> (r: Result<Self, SerializationError>)
        ensures
            final(buf).bytes() == old(buf).bytes(),
            read_view_ok(r, Self::spec_decode_classic(old(buf).bytes(), old(buf).pos()), final(buf).pos()),
    {
        let broker_id = match buf.get_i32() { Ok(v) => v, Err(_) => { return Err(SerializationError::Protocol { message: "failed to decode BrokerId" }); } };
        let host = match buf.get_string(false) { Ok(v) => v, Err(_) => { return Err(SerializationError::Protocol { message: "failed to decode Host" }); } };
        let port = match buf.get_i32() { Ok(v) => v, Err(_) => { return Err(SerializationError::Protocol { message: "failed to decode Port" }); } };
        let rack = match buf.get_nullable_string(false) { Ok(v) => v, Err(_) => { return Err(SerializationError::Protocol { message: "failed to decode Rack" }); } };
        let is_fenced = match buf.get_bool() { Ok(v) => v, Err(_) => { return Err(SerializationError::Protocol { message: "failed to decode IsFenced" }); } };
        Ok(DescribeClusterBroker { broker_id, host, port, rack, is_fenced })
    }

    /// Reads the structure, with the compact encodings when `is_flexible`.
    /// On failure the reader is put back where it started.
    pub fn decode_flexible(buf: &mut Reader, is_flexible: bool) -> (r: Result<Self, SerializationError>)
        ensures
            final(buf).bytes() == old(buf).bytes(),
            read_view_exact(r, Self::spec_decode_flexible(old(buf).bytes(), old(buf).pos(), is_flexible), old(buf).pos(), final(buf).pos()),
    {
        let start = buf.position();
        let r = Self::read_flexible(buf, is_flexible);
        if r.is_err() {
            buf.set_position(start);
        }
        r
    }

    fn read_flexible(buf: &mut Reader, is_flexible: bool) -> (r: Result<Self, SerializationError>)
        ensures
            final(buf).bytes() == old(buf).bytes(),
            read_view_ok(r, Self::spec_decode_flexible(old(buf).bytes(), old(buf).pos(), is_flexible), final(buf).pos()),
    {
        let broker_id = match buf.get_i32() { Ok(v) => v, Err(_) => { return Err(SerializationError::Protocol { message: "failed to decode BrokerId" }); } };
        let host = match buf.get_string(is_flexible) { Ok(v) => v, Err(_) => { return Err(SerializationError::Protocol { message: "failed to decode Host" }); } };
        let port = match buf.get_i32() { Ok(v) => v, Err(_) => { return Err(SerializationError::Protocol { message: "failed to decode Port" }); } };
        let rack = if is_flexible {
            let (present, _) = decode_unsigned_varint(buf)?;
            if present == 0 {
                None
            } else {
                Some(match buf.get_string(true) { Ok(v) => v, Err(_) => { return Err(SerializationError::Protocol { message: "failed to decode Rack" }); } })
            }
        } else {
            match buf.get_nullable_string(false) { Ok(v) => v, Err(_) => { return Err(SerializationError::Protocol { message: "failed to decode Rack" }); } }
        };
        let is_fenced = match buf.get_bool() { Ok(v) => v, Err(_) => { return Err(SerializationError::Protocol { message: "failed to decode IsFenced" }); } };
        if is_flexible {
            let (_tag_count, _) = decode_unsigned_varint(buf)?;
        }
        Ok(DescribeClusterBroker { broker_id, host, port, rack, is_fenced })
    }
}

impl KafkaCodec for DescribeClusterBroker {
    open spec fn spec_encode(m: DescribeClusterBrokerModel, ctx: Ctx) -> Result<Seq<u8>, SerializationError> {
        if ctx.classic {
            Self::spec_encode_classic(m)
        } else {
            Self::spec_encode_flexible(m, ctx.flexible)
        }
    }

    open spec fn reads_back(v: DescribeClusterBrokerModel, ctx: Ctx) -> bool {
        if ctx.classic {
            Self::reads_back_classic(v)
        } else {
            Self::reads_back_flexible(v, ctx.flexible)
        }
    }

    proof fn lemma_read_back(pre: Seq<u8>, v: DescribeClusterBrokerModel, post: Seq<u8>, ctx: Ctx) {
        if ctx.classic {
            Self::lemma_classic_read_back(pre, v, post);
            assert(Self::spec_decode(pre + Self::spec_encode(v, ctx)->Ok_0 + post, pre.len() as int, ctx)
                == Self::spec_decode_classic(pre + Self::spec_encode_classic(v)->Ok_0 + post, pre.len() as int));
        } else {
            Self::lemma_flexible_read_back(pre, v, post, ctx.flexible);
            assert(Self::spec_decode(pre + Self::spec_encode(v, ctx)->Ok_0 + post, pre.len() as int, ctx)
                == Self::spec_decode_flexible(pre + Self::spec_encode_flexible(v, ctx.flexible)->Ok_0 + post, pre.len() as int, ctx.flexible));
        }
    }

    open spec fn spec_decode(s: Seq<u8>, pos: int, ctx: Ctx) -> Result<(DescribeClusterBrokerModel, int), SerializationError> {
        if ctx.classic {
            Self::spec_decode_classic(s, pos)
        } else {
            Self::spec_decode_flexible(s, pos, ctx.flexible)
        }
    }

    fn encode_ctx(&self, buf: &mut Vec<u8>, ctx: Ctx) -> (r: Result<(), SerializationError>) {
        if ctx.classic {
            self.write_classic(buf)
        } else {
            self.write_flexible(buf, ctx.flexible)
        }
    }

    fn decode_ctx(buf: &mut Reader, ctx: Ctx) -> (r: Result<Self, SerializationError>) {
        if ctx.classic {
            Self::read_classic(buf)
        } else {
            Self::read_flexible(buf, ctx.flexible)
        }
    }
}

} // verus!
