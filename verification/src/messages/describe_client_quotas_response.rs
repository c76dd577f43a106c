//! DescribeClientQuotasResponse (API key 48).
use vstd::prelude::*;
use crate::roundtrip::{lemma_array_roundtrip, lemma_i16_roundtrip, lemma_i32_roundtrip,
    lemma_items_read_back, lemma_nullable_array_roundtrip, lemma_nullable_string_roundtrip,
    lemma_seq_assoc, lemma_seq_empty_left, lemma_string_roundtrip, lemma_u64_roundtrip,
    lemma_uvarint_roundtrip};
use crate::serialization::{Ctx, KafkaCodec, Reader, SerializationError, array_bytes, decode_array,
    decode_nullable_array, decode_unsigned_varint, encode_array, encode_nullable_array,
    encode_nullable_string, encode_string, encode_unsigned_varint, i16_bytes, i32_bytes,
    lemma_array_bytes_agree, lemma_parse_array_agree, map_decode_err, map_encode_err,
    nullable_array_bytes, nullable_string_bytes, parse_array, parse_i16, parse_i32,
    parse_nullable_array, parse_nullable_string, parse_string, parse_u64, parse_uvarint, put_i16,
    put_i32, put_u64, read_view_exact, read_view_ok, string_bytes, then, u64_bytes, uvarint_bytes,
    write_exact, write_ok};
use crate::{ApiKey, ApiVersion};

verus! {

// -------------------------------------------------------
// DescribeClientQuotasResponse
// -------------------------------------------------------
#[derive(Clone, Debug, Default, PartialEq)]
pub struct DescribeClientQuotasResponse {
    /// The duration in milliseconds for which the request was throttled due to a quota violation, or zero if the request did not violate any quota.
    pub throttle_time_ms: i32,
    /// The error code, or `0` if the quota description succeeded.
    pub error_code: i16,
    /// The error message, or `null` if the quota description succeeded.
    pub error_message: Option<String>,
    /// A result entry.
    pub entries: Option<Vec<EntryData>>,
}

/// The contents of `DescribeClientQuotasResponse`, with strings as characters and
/// nested values by their contents.
pub struct DescribeClientQuotasResponseModel {
    pub throttle_time_ms: i32,
    pub error_code: i16,
    pub error_message: Option<Seq<char>>,
    pub entries: Option<Seq<<EntryData as DeepView>::V>>,
}

impl DeepView for DescribeClientQuotasResponse {
    type V = DescribeClientQuotasResponseModel;

    open spec fn deep_view(&self) -> DescribeClientQuotasResponseModel {
        DescribeClientQuotasResponseModel {
            throttle_time_ms: self.throttle_time_ms,
            error_code: self.error_code,
            error_message: self.error_message.deep_view(),
            entries: self.entries.deep_view(),
        }
    }
}

impl DescribeClientQuotasResponse {
    /// The classic encoding of the structure.
    pub open spec fn spec_encode_classic(m: DescribeClientQuotasResponseModel) -> Result<Seq<u8>, SerializationError> {
        let r = Ok(Seq::<u8>::empty());
        let r = then(r, map_encode_err(Ok(i32_bytes(m.throttle_time_ms)), SerializationError::ValueTooLarge { message: "failed to encode ThrottleTimeMs" }));
        let r = then(r, map_encode_err(Ok(i16_bytes(m.error_code)), SerializationError::ValueTooLarge { message: "failed to encode ErrorCode" }));
        let r = then(r, map_encode_err(nullable_string_bytes(m.error_message, false), SerializationError::ValueTooLarge { message: "failed to encode ErrorMessage" }));
        let r = then(r, map_encode_err(nullable_array_bytes::<EntryData>(m.entries, Ctx { version: 0, flexible: false, classic: true }), SerializationError::ValueTooLarge { message: "failed to encode Entries" }));
        r
    }

    /// The flexible-aware encoding of the structure.
    pub open spec fn spec_encode_flexible(m: DescribeClientQuotasResponseModel, is_flexible: bool) -> Result<Seq<u8>, SerializationError> {
        let r = Ok(Seq::<u8>::empty());
        let r = then(r, map_encode_err(Ok(i32_bytes(m.throttle_time_ms)), SerializationError::ValueTooLarge { message: "failed to encode ThrottleTimeMs" }));
        let r = then(r, map_encode_err(Ok(i16_bytes(m.error_code)), SerializationError::ValueTooLarge { message: "failed to encode ErrorCode" }));
        let r = if is_flexible { match m.error_message { Some(v) => then(then(r, Ok(uvarint_bytes(1))), map_encode_err(string_bytes(v, true), SerializationError::ValueTooLarge { message: "failed to encode ErrorMessage" })), None => then(r, Ok(uvarint_bytes(0))) } } else { then(r, map_encode_err(nullable_string_bytes(m.error_message, false), SerializationError::ValueTooLarge { message: "failed to encode ErrorMessage" })) };
        let r = if is_flexible { match m.entries { Some(v) => then(then(r, Ok(uvarint_bytes(1))), map_encode_err(array_bytes::<EntryData>(v, Ctx { version: 0, flexible: true, classic: false }), SerializationError::ValueTooLarge { message: "failed to encode Entries" })), None => then(r, Ok(uvarint_bytes(0))) } } else { then(r, map_encode_err(nullable_array_bytes::<EntryData>(m.entries, Ctx { version: 0, flexible: false, classic: true }), SerializationError::ValueTooLarge { message: "failed to encode Entries" })) };
        let r = if is_flexible { then(r, Ok(uvarint_bytes(0))) } else { r };
        r
    }

    /// The structure read by the classic decoder.
    pub open spec fn spec_decode_classic(s: Seq<u8>, pos: int) -> Result<(DescribeClientQuotasResponseModel, int), SerializationError> {
        match map_decode_err(parse_i32(s, pos), SerializationError::Protocol { message: "failed to decode ThrottleTimeMs" }) {
            Err(e) => Err(e),
            Ok((throttle_time_ms, pos)) =>
            match map_decode_err(parse_i16(s, pos), SerializationError::Protocol { message: "failed to decode ErrorCode" }) {
                Err(e) => Err(e),
                Ok((error_code, pos)) =>
                match map_decode_err(parse_nullable_string(s, pos, false), SerializationError::Protocol { message: "failed to decode ErrorMessage" }) {
                    Err(e) => Err(e),
                    Ok((error_message, pos)) =>
                    match map_decode_err(parse_nullable_array::<EntryData>(s, pos, Ctx { version: 0, flexible: false, classic: true }), SerializationError::Protocol { message: "failed to decode Entries" }) {
                        Err(e) => Err(e),
                        Ok((entries, pos)) =>
                        Ok((DescribeClientQuotasResponseModel { throttle_time_ms, error_code, error_message, entries }, pos))
                    }
                }
            }
        }
    }

    /// The structure read by the flexible-aware decoder.
    pub open spec fn spec_decode_flexible(s: Seq<u8>, pos: int, is_flexible: bool) -> Result<(DescribeClientQuotasResponseModel, int), SerializationError> {
        match map_decode_err(parse_i32(s, pos), SerializationError::Protocol { message: "failed to decode ThrottleTimeMs" }) {
            Err(e) => Err(e),
            Ok((throttle_time_ms, pos)) =>
            match map_decode_err(parse_i16(s, pos), SerializationError::Protocol { message: "failed to decode ErrorCode" }) {
                Err(e) => Err(e),
                Ok((error_code, pos)) =>
                match (if is_flexible { map_decode_err(parse_nullable_string(s, pos, true), SerializationError::Protocol { message: "failed to decode ErrorMessage" }) } else { map_decode_err(parse_nullable_string(s, pos, false), SerializationError::Protocol { message: "failed to decode ErrorMessage" }) }) {
                    Err(e) => Err(e),
                    Ok((error_message, pos)) =>
                    match (if is_flexible { map_decode_err(parse_nullable_array::<EntryData>(s, pos, Ctx { version: 0, flexible: true, classic: false }), SerializationError::Protocol { message: "failed to decode Entries" }) } else { map_decode_err(parse_nullable_array::<EntryData>(s, pos, Ctx { version: 0, flexible: false, classic: true }), SerializationError::Protocol { message: "failed to decode Entries" }) }) {
                        Err(e) => Err(e),
                        Ok((entries, pos)) =>
                        match (if is_flexible { parse_uvarint(s, pos) } else { Ok((0u64, pos)) }) {
                            Err(e) => Err(e),
                            Ok((_tag_count, pos)) =>
                            Ok((DescribeClientQuotasResponseModel { throttle_time_ms, error_code, error_message, entries }, pos))
                        }
                    }
                }
            }
        }
    }

    /// Values of the structure that read back from their classic encoding:
    /// nested values read back.
    pub open spec fn reads_back_classic(m: DescribeClientQuotasResponseModel) -> bool {
        &&& (m.entries matches Some(items) ==> forall|i: int| 0 <= i < items.len() ==> #[trigger] <EntryData as KafkaCodec>::reads_back(items[i], Ctx { version: 0, flexible: false, classic: true }))
    }

    /// A value that can be written and reads back: decoding its encoding, wherever
    /// it stands, gives the value and the position just after it.
    #[verifier::spinoff_prover]
    pub proof fn lemma_classic_read_back(pre: Seq<u8>, m: DescribeClientQuotasResponseModel, post: Seq<u8>)
        requires
            Self::spec_encode_classic(m) is Ok,
            Self::reads_back_classic(m),
        ensures
            Self::spec_decode_classic(pre + Self::spec_encode_classic(m)->Ok_0 + post, pre.len() as int) == Ok::<(DescribeClientQuotasResponseModel, int), SerializationError>((m, pre.len() as int + Self::spec_encode_classic(m)->Ok_0.len())),
    {
        let b0 = i32_bytes(m.throttle_time_ms);
        let b1 = i16_bytes(m.error_code);
        let b2 = (nullable_string_bytes(m.error_message, false))->Ok_0;
        let b3 = (nullable_array_bytes::<EntryData>(m.entries, Ctx { version: 0, flexible: false, classic: true }))->Ok_0;
        let t4 = post;
        let t3 = b3 + t4;
        let t2 = b2 + t3;
        let t1 = b1 + t2;
        let t0 = b0 + t1;
        let e = Self::spec_encode_classic(m)->Ok_0;
        assert(e =~= Seq::<u8>::empty() + b0 + b1 + b2 + b3);
        lemma_seq_assoc((((Seq::<u8>::empty() + b0) + b1) + b2), b3, post);
        lemma_seq_assoc(((Seq::<u8>::empty() + b0) + b1), b2, (b3 + post));
        lemma_seq_assoc((Seq::<u8>::empty() + b0), b1, (b2 + (b3 + post)));
        lemma_seq_assoc(Seq::<u8>::empty(), b0, (b1 + (b2 + (b3 + post))));
        lemma_seq_empty_left((b0 + (b1 + (b2 + (b3 + post)))));
        let s = pre + e + post;
        lemma_seq_assoc(pre, e, post);
        assert(s == pre + t0);
        let a0 = pre;
        assert(parse_i32(s, a0.len() as int) == Ok::<(i32, int), SerializationError>((m.throttle_time_ms, a0.len() as int + b0.len()))) by {
            lemma_seq_assoc(a0, b0, t1);
            lemma_i32_roundtrip(a0, m.throttle_time_ms, t1);
        }
        lemma_seq_assoc(a0, b0, t1);
        let a1 = a0 + b0;
        assert(parse_i16(s, a1.len() as int) == Ok::<(i16, int), SerializationError>((m.error_code, a1.len() as int + b1.len()))) by {
            lemma_seq_assoc(a1, b1, t2);
            lemma_i16_roundtrip(a1, m.error_code, t2);
        }
        lemma_seq_assoc(a1, b1, t2);
        let a2 = a1 + b1;
        assert(parse_nullable_string(s, a2.len() as int, false) == Ok::<(Option<Seq<char>>, int), SerializationError>((m.error_message, a2.len() as int + b2.len()))) by {
            assert(nullable_string_bytes(m.error_message, false) is Ok);
            lemma_seq_assoc(a2, b2, t3);
            lemma_nullable_string_roundtrip(a2, m.error_message, t3, false);
        }
        lemma_seq_assoc(a2, b2, t3);
        let a3 = a2 + b2;
        assert(parse_nullable_array::<EntryData>(s, a3.len() as int, Ctx { version: 0, flexible: false, classic: true }) == Ok::<(Option<Seq<<EntryData as DeepView>::V>>, int), SerializationError>((m.entries, a3.len() as int + b3.len()))) by {
            assert(nullable_array_bytes::<EntryData>(m.entries, Ctx { version: 0, flexible: false, classic: true }) is Ok);
            lemma_seq_assoc(a3, b3, t4);
            if let Some(items) = m.entries {
                lemma_items_read_back::<EntryData>(items, Ctx { version: 0, flexible: false, classic: true });
            }
            lemma_nullable_array_roundtrip::<EntryData>(a3, m.entries, t4, Ctx { version: 0, flexible: false, classic: true });
        }
    }

    /// The bytes written: the encoding of each field, in the order of the
    /// protocol's layout. Reading them back, wherever they stand, gives the value,
    /// with each field that the version leaves out at its default.
    #[verifier::spinoff_prover]
    pub proof fn lemma_classic_layout(pre: Seq<u8>, m: DescribeClientQuotasResponseModel, post: Seq<u8>)
        requires
            Self::spec_encode_classic(m) is Ok,
        ensures
            Self::spec_encode_classic(m) == Ok::<Seq<u8>, SerializationError>((i32_bytes(m.throttle_time_ms)) + (i16_bytes(m.error_code)) + ((nullable_string_bytes(m.error_message, false))->Ok_0) + ((nullable_array_bytes::<EntryData>(m.entries, Ctx { version: 0, flexible: false, classic: true }))->Ok_0)),
            Self::reads_back_classic(m) ==> Self::spec_decode_classic(pre + ((i32_bytes(m.throttle_time_ms)) + (i16_bytes(m.error_code)) + ((nullable_string_bytes(m.error_message, false))->Ok_0) + ((nullable_array_bytes::<EntryData>(m.entries, Ctx { version: 0, flexible: false, classic: true }))->Ok_0)) + post, pre.len() as int) == Ok::<(DescribeClientQuotasResponseModel, int), SerializationError>((m, pre.len() as int + ((i32_bytes(m.throttle_time_ms)) + (i16_bytes(m.error_code)) + ((nullable_string_bytes(m.error_message, false))->Ok_0) + ((nullable_array_bytes::<EntryData>(m.entries, Ctx { version: 0, flexible: false, classic: true }))->Ok_0)).len())),
    {
        let b0 = i32_bytes(m.throttle_time_ms);
        let b1 = i16_bytes(m.error_code);
        let b2 = (nullable_string_bytes(m.error_message, false))->Ok_0;
        let b3 = (nullable_array_bytes::<EntryData>(m.entries, Ctx { version: 0, flexible: false, classic: true }))->Ok_0;
        let e = Self::spec_encode_classic(m)->Ok_0;
        assert(e =~= Seq::<u8>::empty() + b0 + b1 + b2 + b3);
        assert(e =~= b0 + b1 + b2 + b3);
        if Self::reads_back_classic(m) {
            Self::lemma_classic_read_back(pre, m, post);
        }
    }

    /// Writing succeeds exactly when every field that the version carries can be
    /// encoded and every field that it leaves out, where leaving it out is an
    /// error, holds its default.
    #[verifier::spinoff_prover]
    pub proof fn lemma_classic_write_succeeds(m: DescribeClientQuotasResponseModel)
        ensures
            Self::spec_encode_classic(m) is Ok <==> (map_encode_err(Ok(i32_bytes(m.throttle_time_ms)), SerializationError::ValueTooLarge { message: "failed to encode ThrottleTimeMs" }) is Ok) && (map_encode_err(Ok(i16_bytes(m.error_code)), SerializationError::ValueTooLarge { message: "failed to encode ErrorCode" }) is Ok) && (map_encode_err(nullable_string_bytes(m.error_message, false), SerializationError::ValueTooLarge { message: "failed to encode ErrorMessage" }) is Ok) && (map_encode_err(nullable_array_bytes::<EntryData>(m.entries, Ctx { version: 0, flexible: false, classic: true }), SerializationError::ValueTooLarge { message: "failed to encode Entries" }) is Ok),
    {
    }

    /// Values of the structure that read back from their flexible-aware encoding:
    /// nested values read back.
    /// In compact mode a present optional value is written after a presence marker
    /// that the decoder does not read, so only absent ones read back.
    pub open spec fn reads_back_flexible(m: DescribeClientQuotasResponseModel, is_flexible: bool) -> bool {
        &&& is_flexible ==> m.error_message is None
        &&& is_flexible ==> m.entries is None
        &&& !is_flexible ==> (m.entries matches Some(items) ==> forall|i: int| 0 <= i < items.len() ==> #[trigger] <EntryData as KafkaCodec>::reads_back(items[i], Ctx { version: 0, flexible: false, classic: true }))
    }

    /// A value that can be written and reads back: decoding its encoding, wherever
    /// it stands, gives the value and the position just after it.
    #[verifier::spinoff_prover]
    pub proof fn lemma_flexible_read_back(pre: Seq<u8>, m: DescribeClientQuotasResponseModel, post: Seq<u8>, is_flexible: bool)
        requires
            Self::spec_encode_flexible(m, is_flexible) is Ok,
            Self::reads_back_flexible(m, is_flexible),
        ensures
            Self::spec_decode_flexible(pre + Self::spec_encode_flexible(m, is_flexible)->Ok_0 + post, pre.len() as int, is_flexible) == Ok::<(DescribeClientQuotasResponseModel, int), SerializationError>((m, pre.len() as int + Self::spec_encode_flexible(m, is_flexible)->Ok_0.len())),
    {
        let b0 = i32_bytes(m.throttle_time_ms);
        let b1 = i16_bytes(m.error_code);
        let b2 = if is_flexible { match m.error_message { Some(v) => uvarint_bytes(1) + (string_bytes(v, true))->Ok_0, None => uvarint_bytes(0) } } else { (nullable_string_bytes(m.error_message, false))->Ok_0 };
        let b3 = if is_flexible { match m.entries { Some(v) => uvarint_bytes(1) + (array_bytes::<EntryData>(v, Ctx { version: 0, flexible: true, classic: false }))->Ok_0, None => uvarint_bytes(0) } } else { (nullable_array_bytes::<EntryData>(m.entries, Ctx { version: 0, flexible: false, classic: true }))->Ok_0 };
        let b4 = if is_flexible { uvarint_bytes(0) } else { Seq::<u8>::empty() };
        let t5 = post;
        let t4 = b4 + t5;
        let t3 = b3 + t4;
        let t2 = b2 + t3;
        let t1 = b1 + t2;
        let t0 = b0 + t1;
        let e = Self::spec_encode_flexible(m, is_flexible)->Ok_0;
        assert(e =~= Seq::<u8>::empty() + b0 + b1 + b2 + b3 + b4);
        lemma_seq_assoc(((((Seq::<u8>::empty() + b0) + b1) + b2) + b3), b4, post);
        lemma_seq_assoc((((Seq::<u8>::empty() + b0) + b1) + b2), b3, (b4 + post));
        lemma_seq_assoc(((Seq::<u8>::empty() + b0) + b1), b2, (b3 + (b4 + post)));
        lemma_seq_assoc((Seq::<u8>::empty() + b0), b1, (b2 + (b3 + (b4 + post))));
        lemma_seq_assoc(Seq::<u8>::empty(), b0, (b1 + (b2 + (b3 + (b4 + post)))));
        lemma_seq_empty_left((b0 + (b1 + (b2 + (b3 + (b4 + post))))));
        let s = pre + e + post;
        lemma_seq_assoc(pre, e, post);
        assert(s == pre + t0);
        let a0 = pre;
        assert(parse_i32(s, a0.len() as int) == Ok::<(i32, int), SerializationError>((m.throttle_time_ms, a0.len() as int + b0.len()))) by {
            lemma_seq_assoc(a0, b0, t1);
            lemma_i32_roundtrip(a0, m.throttle_time_ms, t1);
        }
        lemma_seq_assoc(a0, b0, t1);
        let a1 = a0 + b0;
        assert(parse_i16(s, a1.len() as int) == Ok::<(i16, int), SerializationError>((m.error_code, a1.len() as int + b1.len()))) by {
            lemma_seq_assoc(a1, b1, t2);
            lemma_i16_roundtrip(a1, m.error_code, t2);
        }
        lemma_seq_assoc(a1, b1, t2);
        let a2 = a1 + b1;
        if is_flexible {
            match m.error_message {
                Some(v) => {
                    let x = (string_bytes(v, true))->Ok_0;
                    assert(parse_uvarint(s, a2.len() as int) == Ok::<(u64, int), SerializationError>((1u64, a2.len() as int + 1))) by {
                        assert(s =~= a2 + uvarint_bytes(1) + (x + t3));
                        lemma_uvarint_roundtrip(a2, 1, x + t3);
                    }
                    let a1x = a2 + uvarint_bytes(1);
                    assert(parse_string(s, a1x.len() as int, true) == Ok::<(Seq<char>, int), SerializationError>((v, a1x.len() as int + x.len()))) by {
                        assert(s =~= a1x + x + t3);
                        lemma_string_roundtrip(a1x, v, t3, true);
                    }
                },
                None => {
                    assert(parse_nullable_string(s, a2.len() as int, true) == Ok::<(Option<Seq<char>>, int), SerializationError>((None::<Seq<char>>, a2.len() as int + 1))) by {
                        reveal(nullable_string_bytes);
                        assert(s =~= a2 + b2 + t3);
                        lemma_nullable_string_roundtrip(a2, m.error_message, t3, true);
                    }
                },
            }
        } else {
            assert(parse_nullable_string(s, a2.len() as int, false) == Ok::<(Option<Seq<char>>, int), SerializationError>((m.error_message, a2.len() as int + b2.len()))) by {
                assert(nullable_string_bytes(m.error_message, false) is Ok);
                lemma_seq_assoc(a2, b2, t3);
                lemma_nullable_string_roundtrip(a2, m.error_message, t3, false);
            }
        }
        lemma_seq_assoc(a2, b2, t3);
        let a3 = a2 + b2;
        if is_flexible {
            match m.entries {
                Some(v) => {
                    let x = (array_bytes::<EntryData>(v, Ctx { version: 0, flexible: true, classic: false }))->Ok_0;
                    assert(parse_uvarint(s, a3.len() as int) == Ok::<(u64, int), SerializationError>((1u64, a3.len() as int + 1))) by {
                        assert(s =~= a3 + uvarint_bytes(1) + (x + t4));
                        lemma_uvarint_roundtrip(a3, 1, x + t4);
                    }
                    let a1x = a3 + uvarint_bytes(1);
                    assert(parse_array::<EntryData>(s, a1x.len() as int, Ctx { version: 0, flexible: true, classic: false }) == Ok::<(Seq<<EntryData as DeepView>::V>, int), SerializationError>((v, a1x.len() as int + x.len()))) by {
                        assert(s =~= a1x + x + t4);
                        lemma_items_read_back::<EntryData>(v, Ctx { version: 0, flexible: true, classic: false });
                        lemma_array_roundtrip::<EntryData>(a1x, v, t4, Ctx { version: 0, flexible: true, classic: false });
                    }
                },
                None => {
                    assert(parse_nullable_array::<EntryData>(s, a3.len() as int, Ctx { version: 0, flexible: true, classic: false }) == Ok::<(Option<Seq<<EntryData as DeepView>::V>>, int), SerializationError>((None::<Seq<<EntryData as DeepView>::V>>, a3.len() as int + 1))) by {
                        reveal(nullable_array_bytes);
                        assert(s =~= a3 + b3 + t4);
                        if let Some(items) = m.entries {
                            lemma_items_read_back::<EntryData>(items, Ctx { version: 0, flexible: true, classic: false });
                        }
                        lemma_nullable_array_roundtrip::<EntryData>(a3, m.entries, t4, Ctx { version: 0, flexible: true, classic: false });
                    }
                },
            }
        } else {
            assert(parse_nullable_array::<EntryData>(s, a3.len() as int, Ctx { version: 0, flexible: false, classic: true }) == Ok::<(Option<Seq<<EntryData as DeepView>::V>>, int), SerializationError>((m.entries, a3.len() as int + b3.len()))) by {
                assert(nullable_array_bytes::<EntryData>(m.entries, Ctx { version: 0, flexible: false, classic: true }) is Ok);
                lemma_seq_assoc(a3, b3, t4);
                if let Some(items) = m.entries {
                    lemma_items_read_back::<EntryData>(items, Ctx { version: 0, flexible: false, classic: true });
                }
                lemma_nullable_array_roundtrip::<EntryData>(a3, m.entries, t4, Ctx { version: 0, flexible: false, classic: true });
            }
        }
        lemma_seq_assoc(a3, b3, t4);
        let a4 = a3 + b3;
        if is_flexible {
            assert(parse_uvarint(s, a4.len() as int) == Ok::<(u64, int), SerializationError>((0u64, a4.len() as int + b4.len()))) by {
                lemma_seq_assoc(a4, b4, t5);
                lemma_uvarint_roundtrip(a4, 0, t5);
            }
        }
    }

    /// The bytes written: the encoding of each field, in the order of the
    /// protocol's layout. Reading them back, wherever they stand, gives the value,
    /// with each field that the version leaves out at its default.
    #[verifier::spinoff_prover]
    pub proof fn lemma_flexible_layout(pre: Seq<u8>, m: DescribeClientQuotasResponseModel, post: Seq<u8>, is_flexible: bool)
        requires
            Self::spec_encode_flexible(m, is_flexible) is Ok,
        ensures
            Self::spec_encode_flexible(m, is_flexible) == Ok::<Seq<u8>, SerializationError>((i32_bytes(m.throttle_time_ms)) + (i16_bytes(m.error_code)) + (if is_flexible { match m.error_message { Some(v) => uvarint_bytes(1) + (string_bytes(v, true))->Ok_0, None => uvarint_bytes(0) } } else { (nullable_string_bytes(m.error_message, false))->Ok_0 }) + (if is_flexible { match m.entries { Some(v) => uvarint_bytes(1) + (array_bytes::<EntryData>(v, Ctx { version: 0, flexible: true, classic: false }))->Ok_0, None => uvarint_bytes(0) } } else { (nullable_array_bytes::<EntryData>(m.entries, Ctx { version: 0, flexible: false, classic: true }))->Ok_0 }) + (if is_flexible { uvarint_bytes(0) } else { Seq::<u8>::empty() })),
            Self::reads_back_flexible(m, is_flexible) ==> Self::spec_decode_flexible(pre + ((i32_bytes(m.throttle_time_ms)) + (i16_bytes(m.error_code)) + (if is_flexible { match m.error_message { Some(v) => uvarint_bytes(1) + (string_bytes(v, true))->Ok_0, None => uvarint_bytes(0) } } else { (nullable_string_bytes(m.error_message, false))->Ok_0 }) + (if is_flexible { match m.entries { Some(v) => uvarint_bytes(1) + (array_bytes::<EntryData>(v, Ctx { version: 0, flexible: true, classic: false }))->Ok_0, None => uvarint_bytes(0) } } else { (nullable_array_bytes::<EntryData>(m.entries, Ctx { version: 0, flexible: false, classic: true }))->Ok_0 }) + (if is_flexible { uvarint_bytes(0) } else { Seq::<u8>::empty() })) + post, pre.len() as int, is_flexible) == Ok::<(DescribeClientQuotasResponseModel, int), SerializationError>((m, pre.len() as int + ((i32_bytes(m.throttle_time_ms)) + (i16_bytes(m.error_code)) + (if is_flexible { match m.error_message { Some(v) => uvarint_bytes(1) + (string_bytes(v, true))->Ok_0, None => uvarint_bytes(0) } } else { (nullable_string_bytes(m.error_message, false))->Ok_0 }) + (if is_flexible { match m.entries { Some(v) => uvarint_bytes(1) + (array_bytes::<EntryData>(v, Ctx { version: 0, flexible: true, classic: false }))->Ok_0, None => uvarint_bytes(0) } } else { (nullable_array_bytes::<EntryData>(m.entries, Ctx { version: 0, flexible: false, classic: true }))->Ok_0 }) + (if is_flexible { uvarint_bytes(0) } else { Seq::<u8>::empty() })).len())),
    {
        let b0 = i32_bytes(m.throttle_time_ms);
        let b1 = i16_bytes(m.error_code);
        let b2 = if is_flexible { match m.error_message { Some(v) => uvarint_bytes(1) + (string_bytes(v, true))->Ok_0, None => uvarint_bytes(0) } } else { (nullable_string_bytes(m.error_message, false))->Ok_0 };
        let b3 = if is_flexible { match m.entries { Some(v) => uvarint_bytes(1) + (array_bytes::<EntryData>(v, Ctx { version: 0, flexible: true, classic: false }))->Ok_0, None => uvarint_bytes(0) } } else { (nullable_array_bytes::<EntryData>(m.entries, Ctx { version: 0, flexible: false, classic: true }))->Ok_0 };
        let b4 = if is_flexible { uvarint_bytes(0) } else { Seq::<u8>::empty() };
        let e = Self::spec_encode_flexible(m, is_flexible)->Ok_0;
        assert(e =~= Seq::<u8>::empty() + b0 + b1 + b2 + b3 + b4);
        assert(e =~= b0 + b1 + b2 + b3 + b4);
        if Self::reads_back_flexible(m, is_flexible) {
            Self::lemma_flexible_read_back(pre, m, post, is_flexible);
        }
    }

    /// With the compact encodings off, the flexible-aware layout is the classic
    /// layout: both write the same bytes.
    pub proof fn lemma_flexible_off_writes_classic(m: DescribeClientQuotasResponseModel)
        ensures
            Self::spec_encode_flexible(m, false) == Self::spec_encode_classic(m),
    {
        if let Some(v) = m.entries {
            assert forall|i: int| 0 <= i < v.len() implies <EntryData as KafkaCodec>::spec_encode(#[trigger] v[i], Ctx { version: 0, flexible: false, classic: true }) == <EntryData as KafkaCodec>::spec_encode(v[i], Ctx { version: 0, flexible: false, classic: false }) by {
                EntryData::lemma_flexible_off_writes_classic(v[i]);
            }
            lemma_array_bytes_agree::<EntryData>(v, Ctx { version: 0, flexible: false, classic: true }, Ctx { version: 0, flexible: false, classic: false });
        } else {
            lemma_array_bytes_agree::<EntryData>(Seq::empty(), Ctx { version: 0, flexible: false, classic: true }, Ctx { version: 0, flexible: false, classic: false });
        }
    }

    /// With the compact encodings off, the flexible-aware layout is the classic
    /// layout: both read the same bytes alike.
    pub proof fn lemma_flexible_off_reads_classic(s: Seq<u8>, pos: int)
        ensures
            Self::spec_decode_flexible(s, pos, false) == Self::spec_decode_classic(s, pos),
    {
        assert forall|p: int| #[trigger] <EntryData as KafkaCodec>::spec_decode(s, p, Ctx { version: 0, flexible: false, classic: true }) == <EntryData as KafkaCodec>::spec_decode(s, p, Ctx { version: 0, flexible: false, classic: false }) by {
            EntryData::lemma_flexible_off_reads_classic(s, p);
        }
        lemma_parse_array_agree::<EntryData>(s, Ctx { version: 0, flexible: false, classic: true }, Ctx { version: 0, flexible: false, classic: false });
    }

    /// Writes the structure in the classic layout.
    /// On failure the buffer is left as it was.
    pub fn encode(&self, buf: &mut Vec<u8>) -> (r: Result<(), SerializationError>)
        ensures
            write_exact(r, old(buf)@, final(buf)@, Self::spec_encode_classic(self.deep_view())),
    {
        let start = buf.len();
        let r = self.write_classic(buf);
        if r.is_err() {
            buf.truncate(start);
        }
        r
    }

    fn write_classic(&self, buf: &mut Vec<u8>) -> (r: Result<(), SerializationError>)
        ensures
            write_ok(r, old(buf)@, final(buf)@, Self::spec_encode_classic(self.deep_view())),
    {
        let ghost mut w: Seq<u8> = Seq::empty();
        put_i32(buf, self.throttle_time_ms);
        proof {
            w = w + (map_encode_err(Ok(i32_bytes(self.throttle_time_ms)), SerializationError::ValueTooLarge { message: "failed to encode ThrottleTimeMs" }))->Ok_0;
        }
        assert(buf@ =~= old(buf)@ + w);
        put_i16(buf, self.error_code);
        proof {
            w = w + (map_encode_err(Ok(i16_bytes(self.error_code)), SerializationError::ValueTooLarge { message: "failed to encode ErrorCode" }))->Ok_0;
        }
        assert(buf@ =~= old(buf)@ + w);
        match encode_nullable_string(&self.error_message, buf, false) {
            Ok(()) => {},
            Err(_) => {
                return Err(SerializationError::ValueTooLarge { message: "failed to encode ErrorMessage" });
            },
        }
        proof {
            w = w + (map_encode_err(nullable_string_bytes(self.error_message.deep_view(), false), SerializationError::ValueTooLarge { message: "failed to encode ErrorMessage" }))->Ok_0;
        }
        assert(buf@ =~= old(buf)@ + w);
        match encode_nullable_array(&self.entries, buf, Ctx { version: 0, flexible: false, classic: true }) {
            Ok(()) => {},
            Err(_) => {
                return Err(SerializationError::ValueTooLarge { message: "failed to encode Entries" });
            },
        }
        proof {
            w = w + (map_encode_err(nullable_array_bytes::<EntryData>(self.entries.deep_view(), Ctx { version: 0, flexible: false, classic: true }), SerializationError::ValueTooLarge { message: "failed to encode Entries" }))->Ok_0;
        }
        assert(buf@ =~= old(buf)@ + w);
        Ok(())
    }

    /// Writes the structure, with the compact encodings when `is_flexible`.
    /// On failure the buffer is left as it was.
    pub fn encode_flexible(&self, buf: &mut Vec<u8>, is_flexible: bool) -> (r: Result<(), SerializationError>)
        ensures
            write_exact(r, old(buf)@, final(buf)@, Self::spec_encode_flexible(self.deep_view(), is_flexible)),
    {
        let start = buf.len();
        let r = self.write_flexible(buf, is_flexible);
        if r.is_err() {
            buf.truncate(start);
        }
        r
    }

    fn write_flexible(&self, buf: &mut Vec<u8>, is_flexible: bool) -> (r: Result<(), SerializationError>)
        ensures
            write_ok(r, old(buf)@, final(buf)@, Self::spec_encode_flexible(self.deep_view(), is_flexible)),
    {
        let ghost mut w: Seq<u8> = Seq::empty();
        put_i32(buf, self.throttle_time_ms);
        proof {
            w = w + (map_encode_err(Ok(i32_bytes(self.throttle_time_ms)), SerializationError::ValueTooLarge { message: "failed to encode ThrottleTimeMs" }))->Ok_0;
        }
        assert(buf@ =~= old(buf)@ + w);
        put_i16(buf, self.error_code);
        proof {
            w = w + (map_encode_err(Ok(i16_bytes(self.error_code)), SerializationError::ValueTooLarge { message: "failed to encode ErrorCode" }))->Ok_0;
        }
        assert(buf@ =~= old(buf)@ + w);
        if is_flexible {
            match &self.error_message {
                Some(v) => {
                    encode_unsigned_varint(1, buf);
                    proof {
                        w = w + uvarint_bytes(1);
                    }
                    match encode_string(&*v, buf, true) {
                        Ok(()) => {},
                        Err(_) => {
                            return Err(SerializationError::ValueTooLarge { message: "failed to encode ErrorMessage" });
                        },
                    }
                    proof {
                        w = w + (map_encode_err(string_bytes((*v).deep_view(), true), SerializationError::ValueTooLarge { message: "failed to encode ErrorMessage" }))->Ok_0;
                    }
                    assert(buf@ =~= old(buf)@ + w);
                },
                None => {
                    encode_unsigned_varint(0, buf);
                    proof {
                        w = w + uvarint_bytes(0);
                    }
                    assert(buf@ =~= old(buf)@ + w);
                },
            }
        } else {
            match encode_nullable_string(&self.error_message, buf, false) {
                Ok(()) => {},
                Err(_) => {
                    return Err(SerializationError::ValueTooLarge { message: "failed to encode ErrorMessage" });
                },
            }
            proof {
                w = w + (map_encode_err(nullable_string_bytes(self.error_message.deep_view(), false), SerializationError::ValueTooLarge { message: "failed to encode ErrorMessage" }))->Ok_0;
            }
            assert(buf@ =~= old(buf)@ + w);
        }
        if is_flexible {
            match &self.entries {
                Some(v) => {
                    encode_unsigned_varint(1, buf);
                    proof {
                        w = w + uvarint_bytes(1);
                    }
                    match encode_array(&*v, buf, Ctx { version: 0, flexible: true, classic: false }) {
                        Ok(()) => {},
                        Err(_) => {
                            return Err(SerializationError::ValueTooLarge { message: "failed to encode Entries" });
                        },
                    }
                    proof {
                        w = w + (map_encode_err(array_bytes::<EntryData>((*v).deep_view(), Ctx { version: 0, flexible: true, classic: false }), SerializationError::ValueTooLarge { message: "failed to encode Entries" }))->Ok_0;
                    }
                    assert(buf@ =~= old(buf)@ + w);
                },
                None => {
                    encode_unsigned_varint(0, buf);
                    proof {
                        w = w + uvarint_bytes(0);
                    }
                    assert(buf@ =~= old(buf)@ + w);
                },
            }
        } else {
            match encode_nullable_array(&self.entries, buf, Ctx { version: 0, flexible: false, classic: true }) {
                Ok(()) => {},
                Err(_) => {
                    return Err(SerializationError::ValueTooLarge { message: "failed to encode Entries" });
                },
            }
            proof {
                w = w + (map_encode_err(nullable_array_bytes::<EntryData>(self.entries.deep_view(), Ctx { version: 0, flexible: false, classic: true }), SerializationError::ValueTooLarge { message: "failed to encode Entries" }))->Ok_0;
            }
            assert(buf@ =~= old(buf)@ + w);
        }
        if is_flexible {
            encode_unsigned_varint(0, buf);
            proof {
                w = w + uvarint_bytes(0);
            }
            assert(buf@ =~= old(buf)@ + w);
        }
        Ok(())
    }

    /// Reads the structure in the classic layout.
    /// On failure the reader is put back where it started.
    pub fn decode(buf: &mut Reader) -> (r: Result<Self, SerializationError>)
        ensures
            final(buf).bytes() == old(buf).bytes(),
            read_view_exact(r, Self::spec_decode_classic(old(buf).bytes(), old(buf).pos()), old(buf).pos(), final(buf).pos()),
    {
        let start = buf.position();
        let r = Self::read_classic(buf);
        if r.is_err() {
            buf.set_position(start);
        }
        r
    }

    fn read_classic(buf: &mut Reader) -> (r: Result<Self, SerializationError>)
        ensures
            final(buf).bytes() == old(buf).bytes(),
            read_view_ok(r, Self::spec_decode_classic(old(buf).bytes(), old(buf).pos()), final(buf).pos()),
    {
        let throttle_time_ms = match buf.get_i32() { Ok(v) => v, Err(_) => { return Err(SerializationError::Protocol { message: "failed to decode ThrottleTimeMs" }); } };
        let error_code = match buf.get_i16() { Ok(v) => v, Err(_) => { return Err(SerializationError::Protocol { message: "failed to decode ErrorCode" }); } };
        let error_message = match buf.get_nullable_string(false) { Ok(v) => v, Err(_) => { return Err(SerializationError::Protocol { message: "failed to decode ErrorMessage" }); } };
        let entries = match decode_nullable_array::<EntryData>(buf, Ctx { version: 0, flexible: false, classic: true }) { Ok(v) => v, Err(_) => { return Err(SerializationError::Protocol { message: "failed to decode Entries" }); } };
        Ok(DescribeClientQuotasResponse { throttle_time_ms, error_code, error_message, entries })
    }

    /// Reads the structure, with the compact encodings when `is_flexible`.
    /// On failure the reader is put back where it started.
    pub fn decode_flexible(buf: &mut Reader, is_flexible: bool) -> (r: Result<Self, SerializationError>)
        ensures
            final(buf).bytes() == old(buf).bytes(),
            read_view_exact(r, Self::spec_decode_flexible(old(buf).bytes(), old(buf).pos(), is_flexible), old(buf).pos(), final(buf).pos()),
    {
        let start = buf.position();
        let r = Self::read_flexible(buf, is_flexible);
        if r.is_err() {
            buf.set_position(start);
        }
        r
    }

    fn read_flexible(buf: &mut Reader, is_flexible: bool) -> (r: Result<Self, SerializationError>)
        ensures
            final(buf).bytes() == old(buf).bytes(),
            read_view_ok(r, Self::spec_decode_flexible(old(buf).bytes(), old(buf).pos(), is_flexible), final(buf).pos()),
    {
        let throttle_time_ms = match buf.get_i32() { Ok(v) => v, Err(_) => { return Err(SerializationError::Protocol { message: "failed to decode ThrottleTimeMs" }); } };
        let error_code = match buf.get_i16() { Ok(v) => v, Err(_) => { return Err(SerializationError::Protocol { message: "failed to decode ErrorCode" }); } };
        let error_message = if is_flexible {
            match buf.get_nullable_string(true) { Ok(v) => v, Err(_) => { return Err(SerializationError::Protocol { message: "failed to decode ErrorMessage" }); } }
        } else {
            match buf.get_nullable_string(false) { Ok(v) => v, Err(_) => { return Err(SerializationError::Protocol { message: "failed to decode ErrorMessage" }); } }
        };
        let entries = if is_flexible {
            match decode_nullable_array::<EntryData>(buf, Ctx { version: 0, flexible: true, classic: false }) { Ok(v) => v, Err(_) => { return Err(SerializationError::Protocol { message: "failed to decode Entries" }); } }
        } else {
            match decode_nullable_array::<EntryData>(buf, Ctx { version: 0, flexible: false, classic: true }) { Ok(v) => v, Err(_) => { return Err(SerializationError::Protocol { message: "failed to decode Entries" }); } }
        };
        if is_flexible {
            let (_tag_count, _) = decode_unsigned_varint(buf)?;
        }
        Ok(DescribeClientQuotasResponse { throttle_time_ms, error_code, error_message, entries })
    }
}

impl KafkaCodec for DescribeClientQuotasResponse {
    open spec fn spec_encode(m: DescribeClientQuotasResponseModel, ctx: Ctx) -> Result<Seq<u8>, SerializationError> {
        if ctx.classic {
            Self::spec_encode_classic(m)
        } else {
            Self::spec_encode_flexible(m, ctx.flexible)
        }
    }

    open spec fn reads_back(v: DescribeClientQuotasResponseModel, ctx: Ctx) -> bool {
        if ctx.classic {
            Self::reads_back_classic(v)
        } else {
            Self::reads_back_flexible(v, ctx.flexible)
        }
    }

    proof fn lemma_read_back(pre: Seq<u8>, v: DescribeClientQuotasResponseModel, post: Seq<u8>, ctx: Ctx) {
        if ctx.classic {
            Self::lemma_classic_read_back(pre, v, post);
            assert(Self::spec_decode(pre + Self::spec_encode(v, ctx)->Ok_0 + post, pre.len() as int, ctx)
                == Self::spec_decode_classic(pre + Self::spec_encode_classic(v)->Ok_0 + post, pre.len() as int));
        } else {
            Self::lemma_flexible_read_back(pre, v, post, ctx.flexible);
            assert(Self::spec_decode(pre + Self::spec_encode(v, ctx)->Ok_0 + post, pre.len() as int, ctx)
                == Self::spec_decode_flexible(pre + Self::spec_encode_flexible(v, ctx.flexible)->Ok_0 + post, pre.len() as int, ctx.flexible));
        }
    }

    open spec fn spec_decode(s: Seq<u8>, pos: int, ctx: Ctx) -> Result<(DescribeClientQuotasResponseModel, int), SerializationError> {
        if ctx.classic {
            Self::spec_decode_classic(s, pos)
        } else {
            Self::spec_decode_flexible(s, pos, ctx.flexible)
        }
    }

    fn encode_ctx(&self, buf: &mut Vec<u8>, ctx: Ctx) -> (r: Result<(), SerializationError>) {
        if ctx.classic {
            self.write_classic(buf)
        } else {
            self.write_flexible(buf, ctx.flexible)
        }
    }

    fn decode_ctx(buf: &mut Reader, ctx: Ctx) -> (r: Result<Self, SerializationError>) {
        if ctx.classic {
            Self::read_classic(buf)
        } else {
            Self::read_flexible(buf, ctx.flexible)
        }
    }
}

impl DescribeClientQuotasResponse {
    /// The API key of this message.
    pub fn get_api_key() -> (r: ApiKey)
        ensures
            r.0 == 48,
    {
        ApiKey::new(48)
    }

    /// The oldest version of this message.
    pub fn get_min_supported_version() -> (r: ApiVersion)
        ensures
            r.0 == 0,
    {
        ApiVersion::new(0)
    }

    /// The newest version of this message.
    pub fn get_max_supported_version() -> (r: ApiVersion)
        ensures
            r.0 == 1,
    {
        ApiVersion::new(1)
    }

    /// The encoding of a whole message body at `version`.
    pub open spec fn spec_serialize(m: DescribeClientQuotasResponseModel, version: i16) -> Result<Seq<u8>, SerializationError> {
        let is_flexible = 1 <= version;
        let ctx = Ctx { version, flexible: is_flexible, classic: false };
        let r = Ok(Seq::<u8>::empty());
        let r = then(r, map_encode_err(Ok(i32_bytes(m.throttle_time_ms)), SerializationError::Encode("failed to encode ThrottleTimeMs")));
        let r = then(r, map_encode_err(Ok(i16_bytes(m.error_code)), SerializationError::Encode("failed to encode ErrorCode")));
        let r = then(r, map_encode_err(nullable_string_bytes(m.error_message, ctx.flexible), SerializationError::Encode("failed to encode ErrorMessage")));
        let r = then(r, map_encode_err(nullable_array_bytes::<EntryData>(m.entries, Ctx { version: ctx.version, flexible: ctx.flexible, classic: false }), SerializationError::Encode("failed to encode Entries")));
        let r = if ctx.flexible { then(r, Ok(uvarint_bytes(0))) } else { r };
        r
    }

    /// The message body read at `version`.
    pub open spec fn spec_deserialize(s: Seq<u8>, pos: int, version: i16) -> Result<(DescribeClientQuotasResponseModel, int), SerializationError> {
        let is_flexible = 1 <= version;
        let ctx = Ctx { version, flexible: is_flexible, classic: false };
        match map_decode_err(parse_i32(s, pos), SerializationError::Decode("failed to decode ThrottleTimeMs")) {
            Err(e) => Err(e),
            Ok((throttle_time_ms, pos)) =>
            match map_decode_err(parse_i16(s, pos), SerializationError::Decode("failed to decode ErrorCode")) {
                Err(e) => Err(e),
                Ok((error_code, pos)) =>
                match map_decode_err(parse_nullable_string(s, pos, ctx.flexible), SerializationError::Decode("failed to decode ErrorMessage")) {
                    Err(e) => Err(e),
                    Ok((error_message, pos)) =>
                    match map_decode_err(parse_nullable_array::<EntryData>(s, pos, Ctx { version: ctx.version, flexible: ctx.flexible, classic: false }), SerializationError::Decode("failed to decode Entries")) {
                        Err(e) => Err(e),
                        Ok((entries, pos)) =>
                        Ok((DescribeClientQuotasResponseModel { throttle_time_ms, error_code, error_message, entries }, pos))
                    }
                }
            }
        }
    }

    /// Message bodies that read back when written at `version`: every field that
    /// the version leaves out holds its default, and nested values read back.
    pub open spec fn reads_back_message(m: DescribeClientQuotasResponseModel, version: i16) -> bool {
        let is_flexible = 1 <= version;
        let ctx = Ctx { version, flexible: is_flexible, classic: false };
        &&& (m.entries matches Some(items) ==> forall|i: int| 0 <= i < items.len() ==> #[trigger] <EntryData as KafkaCodec>::reads_back(items[i], Ctx { version: ctx.version, flexible: ctx.flexible, classic: false }))
    }

    /// A message body that can be written at `version` and reads back: reading a
    /// body at `version` from its bytes, wherever they stand, gives the same message.
    #[verifier::spinoff_prover]
    pub proof fn lemma_message_read_back(pre: Seq<u8>, m: DescribeClientQuotasResponseModel, post: Seq<u8>, version: i16)
        requires
            Self::spec_serialize(m, version) is Ok,
            Self::reads_back_message(m, version),
        ensures
            Self::spec_deserialize(pre + Self::spec_serialize(m, version)->Ok_0 + post, pre.len() as int, version) == Ok::<(DescribeClientQuotasResponseModel, int), SerializationError>((m, pre.len() as int + Self::spec_serialize(m, version)->Ok_0.len() - (if 1 <= version { 1int } else { 0int }))),
    {
        let is_flexible = 1 <= version;
        let ctx = Ctx { version, flexible: is_flexible, classic: false };
        let b0 = i32_bytes(m.throttle_time_ms);
        let b1 = i16_bytes(m.error_code);
        let b2 = (nullable_string_bytes(m.error_message, ctx.flexible))->Ok_0;
        let b3 = (nullable_array_bytes::<EntryData>(m.entries, Ctx { version: ctx.version, flexible: ctx.flexible, classic: false }))->Ok_0;
        let b4 = if ctx.flexible { uvarint_bytes(0) } else { Seq::<u8>::empty() };
        let t5 = post;
        let t4 = b4 + t5;
        let t3 = b3 + t4;
        let t2 = b2 + t3;
        let t1 = b1 + t2;
        let t0 = b0 + t1;
        let e = Self::spec_serialize(m, version)->Ok_0;
        assert(e =~= Seq::<u8>::empty() + b0 + b1 + b2 + b3 + b4);
        lemma_seq_assoc(((((Seq::<u8>::empty() + b0) + b1) + b2) + b3), b4, post);
        lemma_seq_assoc((((Seq::<u8>::empty() + b0) + b1) + b2), b3, (b4 + post));
        lemma_seq_assoc(((Seq::<u8>::empty() + b0) + b1), b2, (b3 + (b4 + post)));
        lemma_seq_assoc((Seq::<u8>::empty() + b0), b1, (b2 + (b3 + (b4 + post))));
        lemma_seq_assoc(Seq::<u8>::empty(), b0, (b1 + (b2 + (b3 + (b4 + post)))));
        lemma_seq_empty_left((b0 + (b1 + (b2 + (b3 + (b4 + post))))));
        let s = pre + e + post;
        lemma_seq_assoc(pre, e, post);
        assert(s == pre + t0);
        let a0 = pre;
        assert(parse_i32(s, a0.len() as int) == Ok::<(i32, int), SerializationError>((m.throttle_time_ms, a0.len() as int + b0.len()))) by {
            lemma_seq_assoc(a0, b0, t1);
            lemma_i32_roundtrip(a0, m.throttle_time_ms, t1);
        }
        lemma_seq_assoc(a0, b0, t1);
        let a1 = a0 + b0;
        assert(parse_i16(s, a1.len() as int) == Ok::<(i16, int), SerializationError>((m.error_code, a1.len() as int + b1.len()))) by {
            lemma_seq_assoc(a1, b1, t2);
            lemma_i16_roundtrip(a1, m.error_code, t2);
        }
        lemma_seq_assoc(a1, b1, t2);
        let a2 = a1 + b1;
        assert(parse_nullable_string(s, a2.len() as int, ctx.flexible) == Ok::<(Option<Seq<char>>, int), SerializationError>((m.error_message, a2.len() as int + b2.len()))) by {
            assert(nullable_string_bytes(m.error_message, ctx.flexible) is Ok);
            lemma_seq_assoc(a2, b2, t3);
            lemma_nullable_string_roundtrip(a2, m.error_message, t3, ctx.flexible);
        }
        lemma_seq_assoc(a2, b2, t3);
        let a3 = a2 + b2;
        assert(parse_nullable_array::<EntryData>(s, a3.len() as int, Ctx { version: ctx.version, flexible: ctx.flexible, classic: false }) == Ok::<(Option<Seq<<EntryData as DeepView>::V>>, int), SerializationError>((m.entries, a3.len() as int + b3.len()))) by {
            assert(nullable_array_bytes::<EntryData>(m.entries, Ctx { version: ctx.version, flexible: ctx.flexible, classic: false }) is Ok);
            lemma_seq_assoc(a3, b3, t4);
            if let Some(items) = m.entries {
                lemma_items_read_back::<EntryData>(items, Ctx { version: ctx.version, flexible: ctx.flexible, classic: false });
            }
            lemma_nullable_array_roundtrip::<EntryData>(a3, m.entries, t4, Ctx { version: ctx.version, flexible: ctx.flexible, classic: false });
        }
        lemma_seq_assoc(a3, b3, t4);
        let a4 = a3 + b3;
    }

    /// The bytes written: the encoding of each field, in the order of the
    /// protocol's layout. Reading them back, wherever they stand, gives the value,
    /// with each field that the version leaves out at its default.
    #[verifier::spinoff_prover]
    pub proof fn lemma_message_layout(pre: Seq<u8>, m: DescribeClientQuotasResponseModel, post: Seq<u8>, version: i16)
        requires
            Self::spec_serialize(m, version) is Ok,
        ensures
            Self::spec_serialize(m, version) == Ok::<Seq<u8>, SerializationError>((i32_bytes(m.throttle_time_ms)) + (i16_bytes(m.error_code)) + ((nullable_string_bytes(m.error_message, (1 <= version)))->Ok_0) + ((nullable_array_bytes::<EntryData>(m.entries, Ctx { version: version, flexible: (1 <= version), classic: false }))->Ok_0) + (if (1 <= version) { uvarint_bytes(0) } else { Seq::<u8>::empty() })),
            Self::reads_back_message(m, version) ==> Self::spec_deserialize(pre + ((i32_bytes(m.throttle_time_ms)) + (i16_bytes(m.error_code)) + ((nullable_string_bytes(m.error_message, (1 <= version)))->Ok_0) + ((nullable_array_bytes::<EntryData>(m.entries, Ctx { version: version, flexible: (1 <= version), classic: false }))->Ok_0) + (if (1 <= version) { uvarint_bytes(0) } else { Seq::<u8>::empty() })) + post, pre.len() as int, version) == Ok::<(DescribeClientQuotasResponseModel, int), SerializationError>((m, pre.len() as int + ((i32_bytes(m.throttle_time_ms)) + (i16_bytes(m.error_code)) + ((nullable_string_bytes(m.error_message, (1 <= version)))->Ok_0) + ((nullable_array_bytes::<EntryData>(m.entries, Ctx { version: version, flexible: (1 <= version), classic: false }))->Ok_0) + (if (1 <= version) { uvarint_bytes(0) } else { Seq::<u8>::empty() })).len() - (if 1 <= version { 1int } else { 0int }))),
    {
        let is_flexible = 1 <= version;
        let ctx = Ctx { version, flexible: is_flexible, classic: false };
        let b0 = i32_bytes(m.throttle_time_ms);
        let b1 = i16_bytes(m.error_code);
        let b2 = (nullable_string_bytes(m.error_message, ctx.flexible))->Ok_0;
        let b3 = (nullable_array_bytes::<EntryData>(m.entries, Ctx { version: ctx.version, flexible: ctx.flexible, classic: false }))->Ok_0;
        let b4 = if ctx.flexible { uvarint_bytes(0) } else { Seq::<u8>::empty() };
        let e = Self::spec_serialize(m, version)->Ok_0;
        assert(e =~= Seq::<u8>::empty() + b0 + b1 + b2 + b3 + b4);
        assert(e =~= b0 + b1 + b2 + b3 + b4);
        if Self::reads_back_message(m, version) {
            Self::lemma_message_read_back(pre, m, post, version);
        }
    }

    /// Writing succeeds exactly when every field that the version carries can be
    /// encoded and every field that it leaves out, where leaving it out is an
    /// error, holds its default.
    #[verifier::spinoff_prover]
    pub proof fn lemma_message_write_succeeds(m: DescribeClientQuotasResponseModel, version: i16)
        ensures
            Self::spec_serialize(m, version) is Ok <==> (map_encode_err(Ok(i32_bytes(m.throttle_time_ms)), SerializationError::Encode("failed to encode ThrottleTimeMs")) is Ok) && (map_encode_err(Ok(i16_bytes(m.error_code)), SerializationError::Encode("failed to encode ErrorCode")) is Ok) && (map_encode_err(nullable_string_bytes(m.error_message, (1 <= version)), SerializationError::Encode("failed to encode ErrorMessage")) is Ok) && (map_encode_err(nullable_array_bytes::<EntryData>(m.entries, Ctx { version: version, flexible: (1 <= version), classic: false }), SerializationError::Encode("failed to encode Entries")) is Ok),
    {
        let is_flexible = 1 <= version;
        let ctx = Ctx { version, flexible: is_flexible, classic: false };
    }

    /// Writes the message body for `version`, which must be a supported version.
    /// On failure the buffer is left as it was.
    pub fn serialize(&self, version: ApiVersion, buf: &mut Vec<u8>) -> (r: Result<(), SerializationError>)
        requires
            0 <= version.0 <= 1,
        ensures
            write_exact(r, old(buf)@, final(buf)@, Self::spec_serialize(self.deep_view(), version.0)),
    {
        let start = buf.len();
        let r = self.write_body(version, buf);
        if r.is_err() {
            buf.truncate(start);
        }
        r
    }

    fn write_body(&self, version: ApiVersion, buf: &mut Vec<u8>) -> (r: Result<(), SerializationError>)
        requires
            0 <= version.0 <= 1,
        ensures
            write_ok(r, old(buf)@, final(buf)@, Self::spec_serialize(self.deep_view(), version.0)),
    {
        let is_flexible = 1 <= version.0;
        let ctx = Ctx::new(version, is_flexible);
        let ghost mut w: Seq<u8> = Seq::empty();
        put_i32(buf, self.throttle_time_ms);
        proof {
            w = w + (map_encode_err(Ok(i32_bytes(self.throttle_time_ms)), SerializationError::Encode("failed to encode ThrottleTimeMs")))->Ok_0;
        }
        assert(buf@ =~= old(buf)@ + w);
        put_i16(buf, self.error_code);
        proof {
            w = w + (map_encode_err(Ok(i16_bytes(self.error_code)), SerializationError::Encode("failed to encode ErrorCode")))->Ok_0;
        }
        assert(buf@ =~= old(buf)@ + w);
        match encode_nullable_string(&self.error_message, buf, ctx.flexible) {
            Ok(()) => {},
            Err(_) => {
                return Err(SerializationError::Encode("failed to encode ErrorMessage"));
            },
        }
        proof {
            w = w + (map_encode_err(nullable_string_bytes(self.error_message.deep_view(), ctx.flexible), SerializationError::Encode("failed to encode ErrorMessage")))->Ok_0;
        }
        assert(buf@ =~= old(buf)@ + w);
        match encode_nullable_array(&self.entries, buf, Ctx { version: ctx.version, flexible: ctx.flexible, classic: false }) {
            Ok(()) => {},
            Err(_) => {
                return Err(SerializationError::Encode("failed to encode Entries"));
            },
        }
        proof {
            w = w + (map_encode_err(nullable_array_bytes::<EntryData>(self.entries.deep_view(), Ctx { version: ctx.version, flexible: ctx.flexible, classic: false }), SerializationError::Encode("failed to encode Entries")))->Ok_0;
        }
        assert(buf@ =~= old(buf)@ + w);
        if ctx.flexible {
            encode_unsigned_varint(0, buf);
            proof {
                w = w + uvarint_bytes(0);
            }
            assert(buf@ =~= old(buf)@ + w);
        }
        Ok(())
    }

    /// Reads a message body written for `version`.
    /// On failure the reader is put back where it started.
    pub fn deserialize(version: ApiVersion, buf: &mut Reader) -> (r: Result<Self, SerializationError>)
        ensures
            final(buf).bytes() == old(buf).bytes(),
            read_view_exact(r, Self::spec_deserialize(old(buf).bytes(), old(buf).pos(), version.0), old(buf).pos(), final(buf).pos()),
    {
        let start = buf.position();
        let r = Self::read_body(version, buf);
        if r.is_err() {
            buf.set_position(start);
        }
        r
    }

    fn read_body(version: ApiVersion, buf: &mut Reader) -> (r: Result<Self, SerializationError>)
        ensures
            final(buf).bytes() == old(buf).bytes(),
            read_view_ok(r, Self::spec_deserialize(old(buf).bytes(), old(buf).pos(), version.0), final(buf).pos()),
    {
        let is_flexible = 1 <= version.0;
        let ctx = Ctx::new(version, is_flexible);
        let throttle_time_ms = match buf.get_i32() { Ok(v) => v, Err(_) => { return Err(SerializationError::Decode("failed to decode ThrottleTimeMs")); } };
        let error_code = match buf.get_i16() { Ok(v) => v, Err(_) => { return Err(SerializationError::Decode("failed to decode ErrorCode")); } };
        let error_message = match buf.get_nullable_string(ctx.flexible) { Ok(v) => v, Err(_) => { return Err(SerializationError::Decode("failed to decode ErrorMessage")); } };
        let entries = match decode_nullable_array::<EntryData>(buf, Ctx { version: ctx.version, flexible: ctx.flexible, classic: false }) { Ok(v) => v, Err(_) => { return Err(SerializationError::Decode("failed to decode Entries")); } };
        Ok(DescribeClientQuotasResponse { throttle_time_ms, error_code, error_message, entries })
    }
}

// -------------------------------------------------------
// EntityData
// -------------------------------------------------------
#[derive(Clone, Debug, Default, PartialEq)]
pub struct EntityData {
    /// The entity type.
    pub entity_type: String,
    /// The entity name, or null if the default.
    pub entity_name: Option<String>,
}

/// The contents of `EntityData`, with strings as characters and
/// nested values by their contents.
pub struct EntityDataModel {
    pub entity_type: Seq<char>,
    pub entity_name: Option<Seq<char>>,
}

impl DeepView for EntityData {
    type V = EntityDataModel;

    open spec fn deep_view(&self) -> EntityDataModel {
        EntityDataModel {
            entity_type: self.entity_type.deep_view(),
            entity_name: self.entity_name.deep_view(),
        }
    }
}

impl EntityData {
    /// The classic encoding of the structure.
    pub open spec fn spec_encode_classic(m: EntityDataModel) -> Result<Seq<u8>, SerializationError> {
        let r = Ok(Seq::<u8>::empty());
        let r = then(r, map_encode_err(string_bytes(m.entity_type, false), SerializationError::ValueTooLarge { message: "failed to encode EntityType" }));
        let r = then(r, map_encode_err(nullable_string_bytes(m.entity_name, false), SerializationError::ValueTooLarge { message: "failed to encode EntityName" }));
        r
    }

    /// The flexible-aware encoding of the structure.
    pub open spec fn spec_encode_flexible(m: EntityDataModel, is_flexible: bool) -> Result<Seq<u8>, SerializationError> {
        let r = Ok(Seq::<u8>::empty());
        let r = then(r, map_encode_err(string_bytes(m.entity_type, is_flexible), SerializationError::ValueTooLarge { message: "failed to encode EntityType" }));
        let r = if is_flexible { match m.entity_name { Some(v) => then(then(r, Ok(uvarint_bytes(1))), map_encode_err(string_bytes(v, true), SerializationError::ValueTooLarge { message: "failed to encode EntityName" })), None => then(r, Ok(uvarint_bytes(0))) } } else { then(r, map_encode_err(nullable_string_bytes(m.entity_name, false), SerializationError::ValueTooLarge { message: "failed to encode EntityName" })) };
        let r = if is_flexible { then(r, Ok(uvarint_bytes(0))) } else { r };
        r
    }

    /// The structure read by the classic decoder.
    pub open spec fn spec_decode_classic(s: Seq<u8>, pos: int) -> Result<(EntityDataModel, int), SerializationError> {
        match map_decode_err(parse_string(s, pos, false), SerializationError::Protocol { message: "failed to decode EntityType" }) {
            Err(e) => Err(e),
            Ok((entity_type, pos)) =>
            match map_decode_err(parse_nullable_string(s, pos, false), SerializationError::Protocol { message: "failed to decode EntityName" }) {
                Err(e) => Err(e),
                Ok((entity_name, pos)) =>
                Ok((EntityDataModel { entity_type, entity_name }, pos))
            }
        }
    }

    /// The structure read by the flexible-aware decoder.
    pub open spec fn spec_decode_flexible(s: Seq<u8>, pos: int, is_flexible: bool) -> Result<(EntityDataModel, int), SerializationError> {
        match map_decode_err(parse_string(s, pos, is_flexible), SerializationError::Protocol { message: "failed to decode EntityType" }) {
            Err(e) => Err(e),
            Ok((entity_type, pos)) =>
            match (if is_flexible { map_decode_err(parse_nullable_string(s, pos, true), SerializationError::Protocol { message: "failed to decode EntityName" }) } else { map_decode_err(parse_nullable_string(s, pos, false), SerializationError::Protocol { message: "failed to decode EntityName" }) }) {
                Err(e) => Err(e),
                Ok((entity_name, pos)) =>
                match (if is_flexible { parse_uvarint(s, pos) } else { Ok((0u64, pos)) }) {
                    Err(e) => Err(e),
                    Ok((_tag_count, pos)) =>
                    Ok((EntityDataModel { entity_type, entity_name }, pos))
                }
            }
        }
    }

    /// Values of the structure that read back from their classic encoding:
    /// nested values read back.
    pub open spec fn reads_back_classic(m: EntityDataModel) -> bool {
        true
    }

    /// A value that can be written and reads back: decoding its encoding, wherever
    /// it stands, gives the value and the position just after it.
    #[verifier::spinoff_prover]
    pub proof fn lemma_classic_read_back(pre: Seq<u8>, m: EntityDataModel, post: Seq<u8>)
        requires
            Self::spec_encode_classic(m) is Ok,
            Self::reads_back_classic(m),
        ensures
            Self::spec_decode_classic(pre + Self::spec_encode_classic(m)->Ok_0 + post, pre.len() as int) == Ok::<(EntityDataModel, int), SerializationError>((m, pre.len() as int + Self::spec_encode_classic(m)->Ok_0.len())),
    {
        let b0 = (string_bytes(m.entity_type, false))->Ok_0;
        let b1 = (nullable_string_bytes(m.entity_name, false))->Ok_0;
        let t2 = post;
        let t1 = b1 + t2;
        let t0 = b0 + t1;
        let e = Self::spec_encode_classic(m)->Ok_0;
        assert(e =~= Seq::<u8>::empty() + b0 + b1);
        lemma_seq_assoc((Seq::<u8>::empty() + b0), b1, post);
        lemma_seq_assoc(Seq::<u8>::empty(), b0, (b1 + post));
        lemma_seq_empty_left((b0 + (b1 + post)));
        let s = pre + e + post;
        lemma_seq_assoc(pre, e, post);
        assert(s == pre + t0);
        let a0 = pre;
        assert(parse_string(s, a0.len() as int, false) == Ok::<(Seq<char>, int), SerializationError>((m.entity_type, a0.len() as int + b0.len()))) by {
            assert(string_bytes(m.entity_type, false) is Ok);
            lemma_seq_assoc(a0, b0, t1);
            lemma_string_roundtrip(a0, m.entity_type, t1, false);
        }
        lemma_seq_assoc(a0, b0, t1);
        let a1 = a0 + b0;
        assert(parse_nullable_string(s, a1.len() as int, false) == Ok::<(Option<Seq<char>>, int), SerializationError>((m.entity_name, a1.len() as int + b1.len()))) by {
            assert(nullable_string_bytes(m.entity_name, false) is Ok);
            lemma_seq_assoc(a1, b1, t2);
            lemma_nullable_string_roundtrip(a1, m.entity_name, t2, false);
        }
    }

    /// The bytes written: the encoding of each field, in the order of the
    /// protocol's layout. Reading them back, wherever they stand, gives the value,
    /// with each field that the version leaves out at its default.
    #[verifier::spinoff_prover]
    pub proof fn lemma_classic_layout(pre: Seq<u8>, m: EntityDataModel, post: Seq<u8>)
        requires
            Self::spec_encode_classic(m) is Ok,
        ensures
            Self::spec_encode_classic(m) == Ok::<Seq<u8>, SerializationError>(((string_bytes(m.entity_type, false))->Ok_0) + ((nullable_string_bytes(m.entity_name, false))->Ok_0)),
            Self::reads_back_classic(m) ==> Self::spec_decode_classic(pre + (((string_bytes(m.entity_type, false))->Ok_0) + ((nullable_string_bytes(m.entity_name, false))->Ok_0)) + post, pre.len() as int) == Ok::<(EntityDataModel, int), SerializationError>((m, pre.len() as int + (((string_bytes(m.entity_type, false))->Ok_0) + ((nullable_string_bytes(m.entity_name, false))->Ok_0)).len())),
    {
        let b0 = (string_bytes(m.entity_type, false))->Ok_0;
        let b1 = (nullable_string_bytes(m.entity_name, false))->Ok_0;
        let e = Self::spec_encode_classic(m)->Ok_0;
        assert(e =~= Seq::<u8>::empty() + b0 + b1);
        assert(e =~= b0 + b1);
        if Self::reads_back_classic(m) {
            Self::lemma_classic_read_back(pre, m, post);
        }
    }

    /// Writing succeeds exactly when every field that the version carries can be
    /// encoded and every field that it leaves out, where leaving it out is an
    /// error, holds its default.
    #[verifier::spinoff_prover]
    pub proof fn lemma_classic_write_succeeds(m: EntityDataModel)
        ensures
            Self::spec_encode_classic(m) is Ok <==> (map_encode_err(string_bytes(m.entity_type, false), SerializationError::ValueTooLarge { message: "failed to encode EntityType" }) is Ok) && (map_encode_err(nullable_string_bytes(m.entity_name, false), SerializationError::ValueTooLarge { message: "failed to encode EntityName" }) is Ok),
    {
    }

    /// Values of the structure that read back from their flexible-aware encoding:
    /// nested values read back.
    /// In compact mode a present optional value is written after a presence marker
    /// that the decoder does not read, so only absent ones read back.
    pub open spec fn reads_back_flexible(m: EntityDataModel, is_flexible: bool) -> bool {
        &&& is_flexible ==> m.entity_name is None
    }

    /// A value that can be written and reads back: decoding its encoding, wherever
    /// it stands, gives the value and the position just after it.
    #[verifier::spinoff_prover]
    pub proof fn lemma_flexible_read_back(pre: Seq<u8>, m: EntityDataModel, post: Seq<u8>, is_flexible: bool)
        requires
            Self::spec_encode_flexible(m, is_flexible) is Ok,
            Self::reads_back_flexible(m, is_flexible),
        ensures
            Self::spec_decode_flexible(pre + Self::spec_encode_flexible(m, is_flexible)->Ok_0 + post, pre.len() as int, is_flexible) == Ok::<(EntityDataModel, int), SerializationError>((m, pre.len() as int + Self::spec_encode_flexible(m, is_flexible)->Ok_0.len())),
    {
        let b0 = (string_bytes(m.entity_type, is_flexible))->Ok_0;
        let b1 = if is_flexible { match m.entity_name { Some(v) => uvarint_bytes(1) + (string_bytes(v, true))->Ok_0, None => uvarint_bytes(0) } } else { (nullable_string_bytes(m.entity_name, false))->Ok_0 };
        let b2 = if is_flexible { uvarint_bytes(0) } else { Seq::<u8>::empty() };
        let t3 = post;
        let t2 = b2 + t3;
        let t1 = b1 + t2;
        let t0 = b0 + t1;
        let e = Self::spec_encode_flexible(m, is_flexible)->Ok_0;
        assert(e =~= Seq::<u8>::empty() + b0 + b1 + b2);
        lemma_seq_assoc(((Seq::<u8>::empty() + b0) + b1), b2, post);
        lemma_seq_assoc((Seq::<u8>::empty() + b0), b1, (b2 + post));
        lemma_seq_assoc(Seq::<u8>::empty(), b0, (b1 + (b2 + post)));
        lemma_seq_empty_left((b0 + (b1 + (b2 + post))));
        let s = pre + e + post;
        lemma_seq_assoc(pre, e, post);
        assert(s == pre + t0);
        let a0 = pre;
        assert(parse_string(s, a0.len() as int, is_flexible) == Ok::<(Seq<char>, int), SerializationError>((m.entity_type, a0.len() as int + b0.len()))) by {
            assert(string_bytes(m.entity_type, is_flexible) is Ok);
            lemma_seq_assoc(a0, b0, t1);
            lemma_string_roundtrip(a0, m.entity_type, t1, is_flexible);
        }
        lemma_seq_assoc(a0, b0, t1);
        let a1 = a0 + b0;
        if is_flexible {
            match m.entity_name {
                Some(v) => {
                    let x = (string_bytes(v, true))->Ok_0;
                    assert(parse_uvarint(s, a1.len() as int) == Ok::<(u64, int), SerializationError>((1u64, a1.len() as int + 1))) by {
                        assert(s =~= a1 + uvarint_bytes(1) + (x + t2));
                        lemma_uvarint_roundtrip(a1, 1, x + t2);
                    }
                    let a1x = a1 + uvarint_bytes(1);
                    assert(parse_string(s, a1x.len() as int, true) == Ok::<(Seq<char>, int), SerializationError>((v, a1x.len() as int + x.len()))) by {
                        assert(s =~= a1x + x + t2);
                        lemma_string_roundtrip(a1x, v, t2, true);
                    }
                },
                None => {
                    assert(parse_nullable_string(s, a1.len() as int, true) == Ok::<(Option<Seq<char>>, int), SerializationError>((None::<Seq<char>>, a1.len() as int + 1))) by {
                        reveal(nullable_string_bytes);
                        assert(s =~= a1 + b1 + t2);
                        lemma_nullable_string_roundtrip(a1, m.entity_name, t2, true);
                    }
                },
            }
        } else {
            assert(parse_nullable_string(s, a1.len() as int, false) == Ok::<(Option<Seq<char>>, int), SerializationError>((m.entity_name, a1.len() as int + b1.len()))) by {
                assert(nullable_string_bytes(m.entity_name, false) is Ok);
                lemma_seq_assoc(a1, b1, t2);
                lemma_nullable_string_roundtrip(a1, m.entity_name, t2, false);
            }
        }
        lemma_seq_assoc(a1, b1, t2);
        let a2 = a1 + b1;
        if is_flexible {
            assert(parse_uvarint(s, a2.len() as int) == Ok::<(u64, int), SerializationError>((0u64, a2.len() as int + b2.len()))) by {
                lemma_seq_assoc(a2, b2, t3);
                lemma_uvarint_roundtrip(a2, 0, t3);
            }
        }
    }

    /// The bytes written: the encoding of each field, in the order of the
    /// protocol's layout. Reading them back, wherever they stand, gives the value,
    /// with each field that the version leaves out at its default.
    #[verifier::spinoff_prover]
    pub proof fn lemma_flexible_layout(pre: Seq<u8>, m: EntityDataModel, post: Seq<u8>, is_flexible: bool)
        requires
            Self::spec_encode_flexible(m, is_flexible) is Ok,
        ensures
            Self::spec_encode_flexible(m, is_flexible) == Ok::<Seq<u8>, SerializationError>(((string_bytes(m.entity_type, is_flexible))->Ok_0) + (if is_flexible { match m.entity_name { Some(v) => uvarint_bytes(1) + (string_bytes(v, true))->Ok_0, None => uvarint_bytes(0) } } else { (nullable_string_bytes(m.entity_name, false))->Ok_0 }) + (if is_flexible { uvarint_bytes(0) } else { Seq::<u8>::empty() })),
            Self::reads_back_flexible(m, is_flexible) ==> Self::spec_decode_flexible(pre + (((string_bytes(m.entity_type, is_flexible))->Ok_0) + (if is_flexible { match m.entity_name { Some(v) => uvarint_bytes(1) + (string_bytes(v, true))->Ok_0, None => uvarint_bytes(0) } } else { (nullable_string_bytes(m.entity_name, false))->Ok_0 }) + (if is_flexible { uvarint_bytes(0) } else { Seq::<u8>::empty() })) + post, pre.len() as int, is_flexible) == Ok::<(EntityDataModel, int), SerializationError>((m, pre.len() as int + (((string_bytes(m.entity_type, is_flexible))->Ok_0) + (if is_flexible { match m.entity_name { Some(v) => uvarint_bytes(1) + (string_bytes(v, true))->Ok_0, None => uvarint_bytes(0) } } else { (nullable_string_bytes(m.entity_name, false))->Ok_0 }) + (if is_flexible { uvarint_bytes(0) } else { Seq::<u8>::empty() })).len())),
    {
        let b0 = (string_bytes(m.entity_type, is_flexible))->Ok_0;
        let b1 = if is_flexible { match m.entity_name { Some(v) => uvarint_bytes(1) + (string_bytes(v, true))->Ok_0, None => uvarint_bytes(0) } } else { (nullable_string_bytes(m.entity_name, false))->Ok_0 };
        let b2 = if is_flexible { uvarint_bytes(0) } else { Seq::<u8>::empty() };
        let e = Self::spec_encode_flexible(m, is_flexible)->Ok_0;
        assert(e =~= Seq::<u8>::empty() + b0 + b1 + b2);
        assert(e =~= b0 + b1 + b2);
        if Self::reads_back_flexible(m, is_flexible) {
            Self::lemma_flexible_read_back(pre, m, post, is_flexible);
        }
    }

    /// With the compact encodings off, the flexible-aware layout is the classic
    /// layout: both write the same bytes.
    pub proof fn lemma_flexible_off_writes_classic(m: EntityDataModel)
        ensures
            Self::spec_encode_flexible(m, false) == Self::spec_encode_classic(m),
    {
    }

    /// With the compact encodings off, the flexible-aware layout is the classic
    /// layout: both read the same bytes alike.
    pub proof fn lemma_flexible_off_reads_classic(s: Seq<u8>, pos: int)
        ensures
            Self::spec_decode_flexible(s, pos, false) == Self::spec_decode_classic(s, pos),
    {
    }

    /// Writes the structure in the classic layout.
    /// On failure the buffer is left as it was.
    pub fn encode(&self, buf: &mut Vec<u8>) -> (r: Result<(), SerializationError>)
        ensures
            write_exact(r, old(buf)@, final(buf)@, Self::spec_encode_classic(self.deep_view())),
    {
        let start = buf.len();
        let r = self.write_classic(buf);
        if r.is_err() {
            buf.truncate(start);
        }
        r
    }

    fn write_classic(&self, buf: &mut Vec<u8>) -> (r: Result<(), SerializationError>)
        ensures
            write_ok(r, old(buf)@, final(buf)@, Self::spec_encode_classic(self.deep_view())),
    {
        let ghost mut w: Seq<u8> = Seq::empty();
        match encode_string(&self.entity_type, buf, false) {
            Ok(()) => {},
            Err(_) => {
                return Err(SerializationError::ValueTooLarge { message: "failed to encode EntityType" });
            },
        }
        proof {
            w = w + (map_encode_err(string_bytes(self.entity_type.deep_view(), false), SerializationError::ValueTooLarge { message: "failed to encode EntityType" }))->Ok_0;
        }
        assert(buf@ =~= old(buf)@ + w);
        match encode_nullable_string(&self.entity_name, buf, false) {
            Ok(()) => {},
            Err(_) => {
                return Err(SerializationError::ValueTooLarge { message: "failed to encode EntityName" });
            },
        }
        proof {
            w = w + (map_encode_err(nullable_string_bytes(self.entity_name.deep_view(), false), SerializationError::ValueTooLarge { message: "failed to encode EntityName" }))->Ok_0;
        }
        assert(buf@ =~= old(buf)@ + w);
        Ok(())
    }

    /// Writes the structure, with the compact encodings when `is_flexible`.
    /// On failure the buffer is left as it was.
    pub fn encode_flexible(&self, buf: &mut Vec<u8>, is_flexible: bool) -> (r: Result<(), SerializationError>)
        ensures
            write_exact(r, old(buf)@, final(buf)@, Self::spec_encode_flexible(self.deep_view(), is_flexible)),
    {
        let start = buf.len();
        let r = self.write_flexible(buf, is_flexible);
        if r.is_err() {
            buf.truncate(start);
        }
        r
    }

    fn write_flexible(&self, buf: &mut Vec<u8>, is_flexible: bool) -> (r: Result<(), SerializationError>)
        ensures
            write_ok(r, old(buf)@, final(buf)@, Self::spec_encode_flexible(self.deep_view(), is_flexible)),
    {
        let ghost mut w: Seq<u8> = Seq::empty();
        match encode_string(&self.entity_type, buf, is_flexible) {
            Ok(()) => {},
            Err(_) => {
                return Err(SerializationError::ValueTooLarge { message: "failed to encode EntityType" });
            },
        }
        proof {
            w = w + (map_encode_err(string_bytes(self.entity_type.deep_view(), is_flexible), SerializationError::ValueTooLarge { message: "failed to encode EntityType" }))->Ok_0;
        }
        assert(buf@ =~= old(buf)@ + w);
        if is_flexible {
            match &self.entity_name {
                Some(v) => {
                    encode_unsigned_varint(1, buf);
                    proof {
                        w = w + uvarint_bytes(1);
                    }
                    match encode_string(&*v, buf, true) {
                        Ok(()) => {},
                        Err(_) => {
                            return Err(SerializationError::ValueTooLarge { message: "failed to encode EntityName" });
                        },
                    }
                    proof {
                        w = w + (map_encode_err(string_bytes((*v).deep_view(), true), SerializationError::ValueTooLarge { message: "failed to encode EntityName" }))->Ok_0;
                    }
                    assert(buf@ =~= old(buf)@ + w);
                },
                None => {
                    encode_unsigned_varint(0, buf);
                    proof {
                        w = w + uvarint_bytes(0);
                    }
                    assert(buf@ =~= old(buf)@ + w);
                },
            }
        } else {
            match encode_nullable_string(&self.entity_name, buf, false) {
                Ok(()) => {},
                Err(_) => {
                    return Err(SerializationError::ValueTooLarge { message: "failed to encode EntityName" });
                },
            }
            proof {
                w = w + (map_encode_err(nullable_string_bytes(self.entity_name.deep_view(), false), SerializationError::ValueTooLarge { message: "failed to encode EntityName" }))->Ok_0;
            }
            assert(buf@ =~= old(buf)@ + w);
        }
        if is_flexible {
            encode_unsigned_varint(0, buf);
            proof {
                w = w + uvarint_bytes(0);
            }
            assert(buf@ =~= old(buf)@ + w);
        }
        Ok(())
    }

    /// Reads the structure in the classic layout.
    /// On failure the reader is put back where it started.
    pub fn decode(buf: &mut Reader) -> (r: Result<Self, SerializationError>)
        ensures
            final(buf).bytes() == old(buf).bytes(),
            read_view_exact(r, Self::spec_decode_classic(old(buf).bytes(), old(buf).pos()), old(buf).pos(), final(buf).pos()),
    {
        let start = buf.position();
        let r = Self::read_classic(buf);
        if r.is_err() {
            buf.set_position(start);
        }
        r
    }

    fn read_classic(buf: &mut Reader) -> (r: Result<Self, SerializationError>)
        ensures
            final(buf).bytes() == old(buf).bytes(),
            read_view_ok(r, Self::spec_decode_classic(old(buf).bytes(), old(buf).pos()), final(buf).pos()),
    {
        let entity_type = match buf.get_string(false) { Ok(v) => v, Err(_) => { return Err(SerializationError::Protocol { message: "failed to decode EntityType" }); } };
        let entity_name = match buf.get_nullable_string(false) { Ok(v) => v, Err(_) => { return Err(SerializationError::Protocol { message: "failed to decode EntityName" }); } };
        Ok(EntityData { entity_type, entity_name })
    }

    /// Reads the structure, with the compact encodings when `is_flexible`.
    /// On failure the reader is put back where it started.
    pub fn decode_flexible(buf: &mut Reader, is_flexible: bool) -> (r: Result<Self, SerializationError>)
        ensures
            final(buf).bytes() == old(buf).bytes(),
            read_view_exact(r, Self::spec_decode_flexible(old(buf).bytes(), old(buf).pos(), is_flexible), old(buf).pos(), final(buf).pos()),
    {
        let start = buf.position();
        let r = Self::read_flexible(buf, is_flexible);
        if r.is_err() {
            buf.set_position(start);
        }
        r
    }

    fn read_flexible(buf: &mut Reader, is_flexible: bool) -> (r: Result<Self, SerializationError>)
        ensures
            final(buf).bytes() == old(buf).bytes(),
            read_view_ok(r, Self::spec_decode_flexible(old(buf).bytes(), old(buf).pos(), is_flexible), final(buf).pos()),
    {
        let entity_type = match buf.get_string(is_flexible) { Ok(v) => v, Err(_) => { return Err(SerializationError::Protocol { message: "failed to decode EntityType" }); } };
        let entity_name = if is_flexible {
            match buf.get_nullable_string(true) { Ok(v) => v, Err(_) => { return Err(SerializationError::Protocol { message: "failed to decode EntityName" }); } }
        } else {
            match buf.get_nullable_string(false) { Ok(v) => v, Err(_) => { return Err(SerializationError::Protocol { message: "failed to decode EntityName" }); } }
        };
        if is_flexible {
            let (_tag_count, _) = decode_unsigned_varint(buf)?;
        }
        Ok(EntityData { entity_type, entity_name })
    }
}

impl KafkaCodec for EntityData {
    open spec fn spec_encode(m: EntityDataModel, ctx: Ctx) -> Result<Seq<u8>, SerializationError> {
        if ctx.classic {
            Self::spec_encode_classic(m)
        } else {
            Self::spec_encode_flexible(m, ctx.flexible)
        }
    }

    open spec fn reads_back(v: EntityDataModel, ctx: Ctx) -> bool {
        if ctx.classic {
            Self::reads_back_classic(v)
        } else {
            Self::reads_back_flexible(v, ctx.flexible)
        }
    }

    proof fn lemma_read_back(pre: Seq<u8>, v: EntityDataModel, post: Seq<u8>, ctx: Ctx) {
        if ctx.classic {
            Self::lemma_classic_read_back(pre, v, post);
            assert(Self::spec_decode(pre + Self::spec_encode(v, ctx)->Ok_0 + post, pre.len() as int, ctx)
                == Self::spec_decode_classic(pre + Self::spec_encode_classic(v)->Ok_0 + post, pre.len() as int));
        } else {
            Self::lemma_flexible_read_back(pre, v, post, ctx.flexible);
            assert(Self::spec_decode(pre + Self::spec_encode(v, ctx)->Ok_0 + post, pre.len() as int, ctx)
                == Self::spec_decode_flexible(pre + Self::spec_encode_flexible(v, ctx.flexible)->Ok_0 + post, pre.len() as int, ctx.flexible));
        }
    }

    open spec fn spec_decode(s: Seq<u8>, pos: int, ctx: Ctx) -> Result<(EntityDataModel, int), SerializationError> {
        if ctx.classic {
            Self::spec_decode_classic(s, pos)
        } else {
            Self::spec_decode_flexible(s, pos, ctx.flexible)
        }
    }

    fn encode_ctx(&self, buf: &mut Vec<u8>, ctx: Ctx) -> (r: Result<(), SerializationError>) {
        if ctx.classic {
            self.write_classic(buf)
        } else {
            self.write_flexible(buf, ctx.flexible)
        }
    }

    fn decode_ctx(buf: &mut Reader, ctx: Ctx) -> (r: Result<Self, SerializationError>) {
        if ctx.classic {
            Self::read_classic(buf)
        } else {
            Self::read_flexible(buf, ctx.flexible)
        }
    }
}

// -------------------------------------------------------
// EntryData
// -------------------------------------------------------
#[derive(Clone, Debug, Default, PartialEq)]
pub struct EntryData {
    /// The quota entity description.
    pub entity: Vec<EntityData>,
    /// The quota values for the entity.
    pub values: Vec<ValueData>,
}

/// The contents of `EntryData`, with strings as characters and
/// nested values by their contents.
pub struct EntryDataModel {
    pub entity: Seq<<EntityData as DeepView>::V>,
    pub values: Seq<<ValueData as DeepView>::V>,
}

impl DeepView for EntryData {
    type V = EntryDataModel;

    open spec fn deep_view(&self) -> EntryDataModel {
        EntryDataModel {
            entity: self.entity.deep_view(),
            values: self.values.deep_view(),
        }
    }
}

impl EntryData {
    /// The classic encoding of the structure.
    pub open spec fn spec_encode_classic(m: EntryDataModel) -> Result<Seq<u8>, SerializationError> {
        let r = Ok(Seq::<u8>::empty());
        let r = then(r, map_encode_err(array_bytes::<EntityData>(m.entity, Ctx { version: 0, flexible: false, classic: true }), SerializationError::ValueTooLarge { message: "failed to encode Entity" }));
        let r = then(r, map_encode_err(array_bytes::<ValueData>(m.values, Ctx { version: 0, flexible: false, classic: true }), SerializationError::ValueTooLarge { message: "failed to encode Values" }));
        r
    }

    /// The flexible-aware encoding of the structure.
    pub open spec fn spec_encode_flexible(m: EntryDataModel, is_flexible: bool) -> Result<Seq<u8>, SerializationError> {
        let r = Ok(Seq::<u8>::empty());
        let r = then(r, map_encode_err(array_bytes::<EntityData>(m.entity, Ctx { version: 0, flexible: is_flexible, classic: false }), SerializationError::ValueTooLarge { message: "failed to encode Entity" }));
        let r = then(r, map_encode_err(array_bytes::<ValueData>(m.values, Ctx { version: 0, flexible: is_flexible, classic: false }), SerializationError::ValueTooLarge { message: "failed to encode Values" }));
        let r = if is_flexible { then(r, Ok(uvarint_bytes(0))) } else { r };
        r
    }

    /// The structure read by the classic decoder.
    pub open spec fn spec_decode_classic(s: Seq<u8>, pos: int) -> Result<(EntryDataModel, int), SerializationError> {
        match map_decode_err(parse_array::<EntityData>(s, pos, Ctx { version: 0, flexible: false, classic: true }), SerializationError::Protocol { message: "failed to decode Entity" }) {
            Err(e) => Err(e),
            Ok((entity, pos)) =>
            match map_decode_err(parse_array::<ValueData>(s, pos, Ctx { version: 0, flexible: false, classic: true }), SerializationError::Protocol { message: "failed to decode Values" }) {
                Err(e) => Err(e),
                Ok((values, pos)) =>
                Ok((EntryDataModel { entity, values }, pos))
            }
        }
    }

    /// The structure read by the flexible-aware decoder.
    pub open spec fn spec_decode_flexible(s: Seq<u8>, pos: int, is_flexible: bool) -> Result<(EntryDataModel, int), SerializationError> {
        match map_decode_err(parse_array::<EntityData>(s, pos, Ctx { version: 0, flexible: is_flexible, classic: false }), SerializationError::Protocol { message: "failed to decode Entity" }) {
            Err(e) => Err(e),
            Ok((entity, pos)) =>
            match map_decode_err(parse_array::<ValueData>(s, pos, Ctx { version: 0, flexible: is_flexible, classic: false }), SerializationError::Protocol { message: "failed to decode Values" }) {
                Err(e) => Err(e),
                Ok((values, pos)) =>
                match (if is_flexible { parse_uvarint(s, pos) } else { Ok((0u64, pos)) }) {
                    Err(e) => Err(e),
                    Ok((_tag_count, pos)) =>
                    Ok((EntryDataModel { entity, values }, pos))
                }
            }
        }
    }

    /// Values of the structure that read back from their classic encoding:
    /// nested values read back.
    pub open spec fn reads_back_classic(m: EntryDataModel) -> bool {
        &&& forall|i: int| 0 <= i < m.entity.len() ==> #[trigger] <EntityData as KafkaCodec>::reads_back(m.entity[i], Ctx { version: 0, flexible: false, classic: true })
        &&& forall|i: int| 0 <= i < m.values.len() ==> #[trigger] <ValueData as KafkaCodec>::reads_back(m.values[i], Ctx { version: 0, flexible: false, classic: true })
    }

    /// A value that can be written and reads back: decoding its encoding, wherever
    /// it stands, gives the value and the position just after it.
    #[verifier::spinoff_prover]
    pub proof fn lemma_classic_read_back(pre: Seq<u8>, m: EntryDataModel, post: Seq<u8>)
        requires
            Self::spec_encode_classic(m) is Ok,
            Self::reads_back_classic(m),
        ensures
            Self::spec_decode_classic(pre + Self::spec_encode_classic(m)->Ok_0 + post, pre.len() as int) == Ok::<(EntryDataModel, int), SerializationError>((m, pre.len() as int + Self::spec_encode_classic(m)->Ok_0.len())),
    {
        let b0 = (array_bytes::<EntityData>(m.entity, Ctx { version: 0, flexible: false, classic: true }))->Ok_0;
        let b1 = (array_bytes::<ValueData>(m.values, Ctx { version: 0, flexible: false, classic: true }))->Ok_0;
        let t2 = post;
        let t1 = b1 + t2;
        let t0 = b0 + t1;
        let e = Self::spec_encode_classic(m)->Ok_0;
        assert(e =~= Seq::<u8>::empty() + b0 + b1);
        lemma_seq_assoc((Seq::<u8>::empty() + b0), b1, post);
        lemma_seq_assoc(Seq::<u8>::empty(), b0, (b1 + post));
        lemma_seq_empty_left((b0 + (b1 + post)));
        let s = pre + e + post;
        lemma_seq_assoc(pre, e, post);
        assert(s == pre + t0);
        let a0 = pre;
        assert(parse_array::<EntityData>(s, a0.len() as int, Ctx { version: 0, flexible: false, classic: true }) == Ok::<(Seq<<EntityData as DeepView>::V>, int), SerializationError>((m.entity, a0.len() as int + b0.len()))) by {
            assert(array_bytes::<EntityData>(m.entity, Ctx { version: 0, flexible: false, classic: true }) is Ok);
            lemma_seq_assoc(a0, b0, t1);
            lemma_items_read_back::<EntityData>(m.entity, Ctx { version: 0, flexible: false, classic: true });
            lemma_array_roundtrip::<EntityData>(a0, m.entity, t1, Ctx { version: 0, flexible: false, classic: true });
        }
        lemma_seq_assoc(a0, b0, t1);
        let a1 = a0 + b0;
        assert(parse_array::<ValueData>(s, a1.len() as int, Ctx { version: 0, flexible: false, classic: true }) == Ok::<(Seq<<ValueData as DeepView>::V>, int), SerializationError>((m.values, a1.len() as int + b1.len()))) by {
            assert(array_bytes::<ValueData>(m.values, Ctx { version: 0, flexible: false, classic: true }) is Ok);
            lemma_seq_assoc(a1, b1, t2);
            lemma_items_read_back::<ValueData>(m.values, Ctx { version: 0, flexible: false, classic: true });
            lemma_array_roundtrip::<ValueData>(a1, m.values, t2, Ctx { version: 0, flexible: false, classic: true });
        }
    }

    /// The bytes written: the encoding of each field, in the order of the
    /// protocol's layout. Reading them back, wherever they stand, gives the value,
    /// with each field that the version leaves out at its default.
    #[verifier::spinoff_prover]
    pub proof fn lemma_classic_layout(pre: Seq<u8>, m: EntryDataModel, post: Seq<u8>)
        requires
            Self::spec_encode_classic(m) is Ok,
        ensures
            Self::spec_encode_classic(m) == Ok::<Seq<u8>, SerializationError>(((array_bytes::<EntityData>(m.entity, Ctx { version: 0, flexible: false, classic: true }))->Ok_0) + ((array_bytes::<ValueData>(m.values, Ctx { version: 0, flexible: false, classic: true }))->Ok_0)),
            Self::reads_back_classic(m) ==> Self::spec_decode_classic(pre + (((array_bytes::<EntityData>(m.entity, Ctx { version: 0, flexible: false, classic: true }))->Ok_0) + ((array_bytes::<ValueData>(m.values, Ctx { version: 0, flexible: false, classic: true }))->Ok_0)) + post, pre.len() as int) == Ok::<(EntryDataModel, int), SerializationError>((m, pre.len() as int + (((array_bytes::<EntityData>(m.entity, Ctx { version: 0, flexible: false, classic: true }))->Ok_0) + ((array_bytes::<ValueData>(m.values, Ctx { version: 0, flexible: false, classic: true }))->Ok_0)).len())),
    {
        let b0 = (array_bytes::<EntityData>(m.entity, Ctx { version: 0, flexible: false, classic: true }))->Ok_0;
        let b1 = (array_bytes::<ValueData>(m.values, Ctx { version: 0, flexible: false, classic: true }))->Ok_0;
        let e = Self::spec_encode_classic(m)->Ok_0;
        assert(e =~= Seq::<u8>::empty() + b0 + b1);
        assert(e =~= b0 + b1);
        if Self::reads_back_classic(m) {
            Self::lemma_classic_read_back(pre, m, post);
        }
    }

    /// Writing succeeds exactly when every field that the version carries can be
    /// encoded and every field that it leaves out, where leaving it out is an
    /// error, holds its default.
    #[verifier::spinoff_prover]
    pub proof fn lemma_classic_write_succeeds(m: EntryDataModel)
        ensures
            Self::spec_encode_classic(m) is Ok <==> (map_encode_err(array_bytes::<EntityData>(m.entity, Ctx { version: 0, flexible: false, classic: true }), SerializationError::ValueTooLarge { message: "failed to encode Entity" }) is Ok) && (map_encode_err(array_bytes::<ValueData>(m.values, Ctx { version: 0, flexible: false, classic: true }), SerializationError::ValueTooLarge { message: "failed to encode Values" }) is Ok),
    {
    }

    /// Values of the structure that read back from their flexible-aware encoding:
    /// nested values read back.
    pub open spec fn reads_back_flexible(m: EntryDataModel, is_flexible: bool) -> bool {
        &&& forall|i: int| 0 <= i < m.entity.len() ==> #[trigger] <EntityData as KafkaCodec>::reads_back(m.entity[i], Ctx { version: 0, flexible: is_flexible, classic: false })
        &&& forall|i: int| 0 <= i < m.values.len() ==> #[trigger] <ValueData as KafkaCodec>::reads_back(m.values[i], Ctx { version: 0, flexible: is_flexible, classic: false })
    }

    /// A value that can be written and reads back: decoding its encoding, wherever
    /// it stands, gives the value and the position just after it.
    #[verifier::spinoff_prover]
    pub proof fn lemma_flexible_read_back(pre: Seq<u8>, m: EntryDataModel, post: Seq<u8>, is_flexible: bool)
        requires
            Self::spec_encode_flexible(m, is_flexible) is Ok,
            Self::reads_back_flexible(m, is_flexible),
        ensures
            Self::spec_decode_flexible(pre + Self::spec_encode_flexible(m, is_flexible)->Ok_0 + post, pre.len() as int, is_flexible) == Ok::<(EntryDataModel, int), SerializationError>((m, pre.len() as int + Self::spec_encode_flexible(m, is_flexible)->Ok_0.len())),
    {
        let b0 = (array_bytes::<EntityData>(m.entity, Ctx { version: 0, flexible: is_flexible, classic: false }))->Ok_0;
        let b1 = (array_bytes::<ValueData>(m.values, Ctx { version: 0, flexible: is_flexible, classic: false }))->Ok_0;
        let b2 = if is_flexible { uvarint_bytes(0) } else { Seq::<u8>::empty() };
        let t3 = post;
        let t2 = b2 + t3;
        let t1 = b1 + t2;
        let t0 = b0 + t1;
        let e = Self::spec_encode_flexible(m, is_flexible)->Ok_0;
        assert(e =~= Seq::<u8>::empty() + b0 + b1 + b2);
        lemma_seq_assoc(((Seq::<u8>::empty() + b0) + b1), b2, post);
        lemma_seq_assoc((Seq::<u8>::empty() + b0), b1, (b2 + post));
        lemma_seq_assoc(Seq::<u8>::empty(), b0, (b1 + (b2 + post)));
        lemma_seq_empty_left((b0 + (b1 + (b2 + post))));
        let s = pre + e + post;
        lemma_seq_assoc(pre, e, post);
        assert(s == pre + t0);
        let a0 = pre;
        assert(parse_array::<EntityData>(s, a0.len() as int, Ctx { version: 0, flexible: is_flexible, classic: false }) == Ok::<(Seq<<EntityData as DeepView>::V>, int), SerializationError>((m.entity, a0.len() as int + b0.len()))) by {
            assert(array_bytes::<EntityData>(m.entity, Ctx { version: 0, flexible: is_flexible, classic: false }) is Ok);
            lemma_seq_assoc(a0, b0, t1);
            lemma_items_read_back::<EntityData>(m.entity, Ctx { version: 0, flexible: is_flexible, classic: false });
            lemma_array_roundtrip::<EntityData>(a0, m.entity, t1, Ctx { version: 0, flexible: is_flexible, classic: false });
        }
        lemma_seq_assoc(a0, b0, t1);
        let a1 = a0 + b0;
        assert(parse_array::<ValueData>(s, a1.len() as int, Ctx { version: 0, flexible: is_flexible, classic: false }) == Ok::<(Seq<<ValueData as DeepView>::V>, int), SerializationError>((m.values, a1.len() as int + b1.len()))) by {
            assert(array_bytes::<ValueData>(m.values, Ctx { version: 0, flexible: is_flexible, classic: false }) is Ok);
            lemma_seq_assoc(a1, b1, t2);
            lemma_items_read_back::<ValueData>(m.values, Ctx { version: 0, flexible: is_flexible, classic: false });
            lemma_array_roundtrip::<ValueData>(a1, m.values, t2, Ctx { version: 0, flexible: is_flexible, classic: false });
        }
        lemma_seq_assoc(a1, b1, t2);
        let a2 = a1 + b1;
        if is_flexible {
            assert(parse_uvarint(s, a2.len() as int) == Ok::<(u64, int), SerializationError>((0u64, a2.len() as int + b2.len()))) by {
                lemma_seq_assoc(a2, b2, t3);
                lemma_uvarint_roundtrip(a2, 0, t3);
            }
        }
    }

    /// The bytes written: the encoding of each field, in the order of the
    /// protocol's layout. Reading them back, wherever they stand, gives the value,
    /// with each field that the version leaves out at its default.
    #[verifier::spinoff_prover]
    pub proof fn lemma_flexible_layout(pre: Seq<u8>, m: EntryDataModel, post: Seq<u8>, is_flexible: bool)
        requires
            Self::spec_encode_flexible(m, is_flexible) is Ok,
        ensures
            Self::spec_encode_flexible(m, is_flexible) == Ok::<Seq<u8>, SerializationError>(((array_bytes::<EntityData>(m.entity, Ctx { version: 0, flexible: is_flexible, classic: false }))->Ok_0) + ((array_bytes::<ValueData>(m.values, Ctx { version: 0, flexible: is_flexible, classic: false }))->Ok_0) + (if is_flexible { uvarint_bytes(0) } else { Seq::<u8>::empty() })),
            Self::reads_back_flexible(m, is_flexible) ==> Self::spec_decode_flexible(pre + (((array_bytes::<EntityData>(m.entity, Ctx { version: 0, flexible: is_flexible, classic: false }))->Ok_0) + ((array_bytes::<ValueData>(m.values, Ctx { version: 0, flexible: is_flexible, classic: false }))->Ok_0) + (if is_flexible { uvarint_bytes(0) } else { Seq::<u8>::empty() })) + post, pre.len() as int, is_flexible) == Ok::<(EntryDataModel, int), SerializationError>((m, pre.len() as int + (((array_bytes::<EntityData>(m.entity, Ctx { version: 0, flexible: is_flexible, classic: false }))->Ok_0) + ((array_bytes::<ValueData>(m.values, Ctx { version: 0, flexible: is_flexible, classic: false }))->Ok_0) + (if is_flexible { uvarint_bytes(0) } else { Seq::<u8>::empty() })).len())),
    {
        let b0 = (array_bytes::<EntityData>(m.entity, Ctx { version: 0, flexible: is_flexible, classic: false }))->Ok_0;
        let b1 = (array_bytes::<ValueData>(m.values, Ctx { version: 0, flexible: is_flexible, classic: false }))->Ok_0;
        let b2 = if is_flexible { uvarint_bytes(0) } else { Seq::<u8>::empty() };
        let e = Self::spec_encode_flexible(m, is_flexible)->Ok_0;
        assert(e =~= Seq::<u8>::empty() + b0 + b1 + b2);
        assert(e =~= b0 + b1 + b2);
        if Self::reads_back_flexible(m, is_flexible) {
            Self::lemma_flexible_read_back(pre, m, post, is_flexible);
        }
    }

    /// Writing succeeds exactly when every field that the version carries can be
    /// encoded and every field that it leaves out, where leaving it out is an
    /// error, holds its default.
    #[verifier::spinoff_prover]
    pub proof fn lemma_flexible_write_succeeds(m: EntryDataModel, is_flexible: bool)
        ensures
            Self::spec_encode_flexible(m, is_flexible) is Ok <==> (map_encode_err(array_bytes::<EntityData>(m.entity, Ctx { version: 0, flexible: is_flexible, classic: false }), SerializationError::ValueTooLarge { message: "failed to encode Entity" }) is Ok) && (map_encode_err(array_bytes::<ValueData>(m.values, Ctx { version: 0, flexible: is_flexible, classic: false }), SerializationError::ValueTooLarge { message: "failed to encode Values" }) is Ok),
    {
    }

    /// With the compact encodings off, the flexible-aware layout is the classic
    /// layout: both write the same bytes.
    pub proof fn lemma_flexible_off_writes_classic(m: EntryDataModel)
        ensures
            Self::spec_encode_flexible(m, false) == Self::spec_encode_classic(m),
    {
        assert forall|i: int| 0 <= i < m.entity.len() implies <EntityData as KafkaCodec>::spec_encode(#[trigger] m.entity[i], Ctx { version: 0, flexible: false, classic: true }) == <EntityData as KafkaCodec>::spec_encode(m.entity[i], Ctx { version: 0, flexible: false, classic: false }) by {
            EntityData::lemma_flexible_off_writes_classic(m.entity[i]);
        }
        lemma_array_bytes_agree::<EntityData>(m.entity, Ctx { version: 0, flexible: false, classic: true }, Ctx { version: 0, flexible: false, classic: false });
        assert forall|i: int| 0 <= i < m.values.len() implies <ValueData as KafkaCodec>::spec_encode(#[trigger] m.values[i], Ctx { version: 0, flexible: false, classic: true }) == <ValueData as KafkaCodec>::spec_encode(m.values[i], Ctx { version: 0, flexible: false, classic: false }) by {
            ValueData::lemma_flexible_off_writes_classic(m.values[i]);
        }
        lemma_array_bytes_agree::<ValueData>(m.values, Ctx { version: 0, flexible: false, classic: true }, Ctx { version: 0, flexible: false, classic: false });
    }

    /// With the compact encodings off, the flexible-aware layout is the classic
    /// layout: both read the same bytes alike.
    pub proof fn lemma_flexible_off_reads_classic(s: Seq<u8>, pos: int)
        ensures
            Self::spec_decode_flexible(s, pos, false) == Self::spec_decode_classic(s, pos),
    {
        assert forall|p: int| #[trigger] <EntityData as KafkaCodec>::spec_decode(s, p, Ctx { version: 0, flexible: false, classic: true }) == <EntityData as KafkaCodec>::spec_decode(s, p, Ctx { version: 0, flexible: false, classic: false }) by {
            EntityData::lemma_flexible_off_reads_classic(s, p);
        }
        lemma_parse_array_agree::<EntityData>(s, Ctx { version: 0, flexible: false, classic: true }, Ctx { version: 0, flexible: false, classic: false });
        assert forall|p: int| #[trigger] <ValueData as KafkaCodec>::spec_decode(s, p, Ctx { version: 0, flexible: false, classic: true }) == <ValueData as KafkaCodec>::spec_decode(s, p, Ctx { version: 0, flexible: false, classic: false }) by {
            ValueData::lemma_flexible_off_reads_classic(s, p);
        }
        lemma_parse_array_agree::<ValueData>(s, Ctx { version: 0, flexible: false, classic: true }, Ctx { version: 0, flexible: false, classic: false });
    }

    /// Writes the structure in the classic layout.
    /// On failure the buffer is left as it was.
    pub fn encode(&self, buf: &mut Vec<u8>) -> (r: Result<(), SerializationError>)
        ensures
            write_exact(r, old(buf)@, final(buf)@, Self::spec_encode_classic(self.deep_view())),
    {
        let start = buf.len();
        let r = self.write_classic(buf);
        if r.is_err() {
            buf.truncate(start);
        }
        r
    }

    fn write_classic(&self, buf: &mut Vec<u8>) -> (r: Result<(), SerializationError>)
        ensures
            write_ok(r, old(buf)@, final(buf)@, Self::spec_encode_classic(self.deep_view())),
    {
        let ghost mut w: Seq<u8> = Seq::empty();
        match encode_array(&self.entity, buf, Ctx { version: 0, flexible: false, classic: true }) {
            Ok(()) => {},
            Err(_) => {
                return Err(SerializationError::ValueTooLarge { message: "failed to encode Entity" });
            },
        }
        proof {
            w = w + (map_encode_err(array_bytes::<EntityData>(self.entity.deep_view(), Ctx { version: 0, flexible: false, classic: true }), SerializationError::ValueTooLarge { message: "failed to encode Entity" }))->Ok_0;
        }
        assert(buf@ =~= old(buf)@ + w);
        match encode_array(&self.values, buf, Ctx { version: 0, flexible: false, classic: true }) {
            Ok(()) => {},
            Err(_) => {
                return Err(SerializationError::ValueTooLarge { message: "failed to encode Values" });
            },
        }
        proof {
            w = w + (map_encode_err(array_bytes::<ValueData>(self.values.deep_view(), Ctx { version: 0, flexible: false, classic: true }), SerializationError::ValueTooLarge { message: "failed to encode Values" }))->Ok_0;
        }
        assert(buf@ =~= old(buf)@ + w);
        Ok(())
    }

    /// Writes the structure, with the compact encodings when `is_flexible`.
    /// On failure the buffer is left as it was.
    pub fn encode_flexible(&self, buf: &mut Vec<u8>, is_flexible: bool) -> (r: Result<(), SerializationError>)
        ensures
            write_exact(r, old(buf)@, final(buf)@, Self::spec_encode_flexible(self.deep_view(), is_flexible)),
    {
        let start = buf.len();
        let r = self.write_flexible(buf, is_flexible);
        if r.is_err() {
            buf.truncate(start);
        }
        r
    }

    fn write_flexible(&self, buf: &mut Vec<u8>, is_flexible: bool) -> (r: Result<(), SerializationError>)
        ensures
            write_ok(r, old(buf)@, final(buf)@, Self::spec_encode_flexible(self.deep_view(), is_flexible)),
    {
        let ghost mut w: Seq<u8> = Seq::empty();
        match encode_array(&self.entity, buf, Ctx { version: 0, flexible: is_flexible, classic: false }) {
            Ok(()) => {},
            Err(_) => {
                return Err(SerializationError::ValueTooLarge { message: "failed to encode Entity" });
            },
        }
        proof {
            w = w + (map_encode_err(array_bytes::<EntityData>(self.entity.deep_view(), Ctx { version: 0, flexible: is_flexible, classic: false }), SerializationError::ValueTooLarge { message: "failed to encode Entity" }))->Ok_0;
        }
        assert(buf@ =~= old(buf)@ + w);
        match encode_array(&self.values, buf, Ctx { version: 0, flexible: is_flexible, classic: false }) {
            Ok(()) => {},
            Err(_) => {
                return Err(SerializationError::ValueTooLarge { message: "failed to encode Values" });
            },
        }
        proof {
            w = w + (map_encode_err(array_bytes::<ValueData>(self.values.deep_view(), Ctx { version: 0, flexible: is_flexible, classic: false }), SerializationError::ValueTooLarge { message: "failed to encode Values" }))->Ok_0;
        }
        assert(buf@ =~= old(buf)@ + w);
        if is_flexible {
            encode_unsigned_varint(0, buf);
            proof {
                w = w + uvarint_bytes(0);
            }
            assert(buf@ =~= old(buf)@ + w);
        }
        Ok(())
    }

    /// Reads the structure in the classic layout.
    /// On failure the reader is put back where it started.
    pub fn decode(buf: &mut Reader) -> (r: Result<Self, SerializationError>)
        ensures
            final(buf).bytes() == old(buf).bytes(),
            read_view_exact(r, Self::spec_decode_classic(old(buf).bytes(), old(buf).pos()), old(buf).pos(), final(buf).pos()),
    {
        let start = buf.position();
        let r = Self::read_classic(buf);
        if r.is_err() {
            buf.set_position(start);
        }
        r
    }

    fn read_classic(buf: &mut Reader) -> (r: Result<Self, SerializationError>)
        ensures
            final(buf).bytes() == old(buf).bytes(),
            read_view_ok(r, Self::spec_decode_classic(old(buf).bytes(), old(buf).pos()), final(buf).pos()),
    {
        let entity = match decode_array::<EntityData>(buf, Ctx { version: 0, flexible: false, classic: true }) { Ok(v) => v, Err(_) => { return Err(SerializationError::Protocol { message: "failed to decode Entity" }); } };
        let values = match decode_array::<ValueData>(buf, Ctx { version: 0, flexible: false, classic: true }) { Ok(v) => v, Err(_) => { return Err(SerializationError::Protocol { message: "failed to decode Values" }); } };
        Ok(EntryData { entity, values })
    }

    /// Reads the structure, with the compact encodings when `is_flexible`.
    /// On failure the reader is put back where it started.
    pub fn decode_flexible(buf: &mut Reader, is_flexible: bool) -> (r: Result<Self, SerializationError>)
        ensures
            final(buf).bytes() == old(buf).bytes(),
            read_view_exact(r, Self::spec_decode_flexible(old(buf).bytes(), old(buf).pos(), is_flexible), old(buf).pos(), final(buf).pos()),
    {
        let start = buf.position();
        let r = Self::read_flexible(buf, is_flexible);
        if r.is_err() {
            buf.set_position(start);
        }
        r
    }

    fn read_flexible(buf: &mut Reader, is_flexible: bool) -> (r: Result<Self, SerializationError>)
        ensures
            final(buf).bytes() == old(buf).bytes(),
            read_view_ok(r, Self::spec_decode_flexible(old(buf).bytes(), old(buf).pos(), is_flexible), final(buf).pos()),
    {
        let entity = match decode_array::<EntityData>(buf, Ctx { version: 0, flexible: is_flexible, classic: false }) { Ok(v) => v, Err(_) => { return Err(SerializationError::Protocol { message: "failed to decode Entity" }); } };
        let values = match decode_array::<ValueData>(buf, Ctx { version: 0, flexible: is_flexible, classic: false }) { Ok(v) => v, Err(_) => { return Err(SerializationError::Protocol { message: "failed to decode Values" }); } };
        if is_flexible {
            let (_tag_count, _) = decode_unsigned_varint(buf)?;
        }
        Ok(EntryData { entity, values })
    }
}

impl KafkaCodec for EntryData {
    open spec fn spec_encode(m: EntryDataModel, ctx: Ctx) -> Result<Seq<u8>, SerializationError> {
        if ctx.classic {
            Self::spec_encode_classic(m)
        } else {
            Self::spec_encode_flexible(m, ctx.flexible)
        }
    }

    open spec fn reads_back(v: EntryDataModel, ctx: Ctx) -> bool {
        if ctx.classic {
            Self::reads_back_classic(v)
        } else {
            Self::reads_back_flexible(v, ctx.flexible)
        }
    }

    proof fn lemma_read_back(pre: Seq<u8>, v: EntryDataModel, post: Seq<u8>, ctx: Ctx) {
        if ctx.classic {
            Self::lemma_classic_read_back(pre, v, post);
            assert(Self::spec_decode(pre + Self::spec_encode(v, ctx)->Ok_0 + post, pre.len() as int, ctx)
                == Self::spec_decode_classic(pre + Self::spec_encode_classic(v)->Ok_0 + post, pre.len() as int));
        } else {
            Self::lemma_flexible_read_back(pre, v, post, ctx.flexible);
            assert(Self::spec_decode(pre + Self::spec_encode(v, ctx)->Ok_0 + post, pre.len() as int, ctx)
                == Self::spec_decode_flexible(pre + Self::spec_encode_flexible(v, ctx.flexible)->Ok_0 + post, pre.len() as int, ctx.flexible));
        }
    }

    open spec fn spec_decode(s: Seq<u8>, pos: int, ctx: Ctx) -> Result<(EntryDataModel, int), SerializationError> {
        if ctx.classic {
            Self::spec_decode_classic(s, pos)
        } else {
            Self::spec_decode_flexible(s, pos, ctx.flexible)
        }
    }

    fn encode_ctx(&self, buf: &mut Vec<u8>, ctx: Ctx) -> (r: Result<(), SerializationError>) {
        if ctx.classic {
            self.write_classic(buf)
        } else {
            self.write_flexible(buf, ctx.flexible)
        }
    }

    fn decode_ctx(buf: &mut Reader, ctx: Ctx) -> (r: Result<Self, SerializationError>) {
        if ctx.classic {
            Self::read_classic(buf)
        } else {
            Self::read_flexible(buf, ctx.flexible)
        }
    }
}

// -------------------------------------------------------
// ValueData
// -------------------------------------------------------
#[derive(Clone, Debug, Default, PartialEq)]
pub struct ValueData {
    /// The quota configuration key.
    pub key: String,
    /// The quota configuration value.
    /// Held as the bit pattern of the IEEE 754 double that the protocol carries.
    pub value: u64,
}

/// The contents of `ValueData`, with strings as characters and
/// nested values by their contents.
pub struct ValueDataModel {
    pub key: Seq<char>,
    pub value: u64,
}

impl DeepView for ValueData {
    type V = ValueDataModel;

    open spec fn deep_view(&self) -> ValueDataModel {
        ValueDataModel {
            key: self.key.deep_view(),
            value: self.value,
        }
    }
}

impl ValueData {
    /// The classic encoding of the structure.
    pub open spec fn spec_encode_classic(m: ValueDataModel) -> Result<Seq<u8>, SerializationError> {
        let r = Ok(Seq::<u8>::empty());
        let r = then(r, map_encode_err(string_bytes(m.key, false), SerializationError::ValueTooLarge { message: "failed to encode Key" }));
        let r = then(r, map_encode_err(Ok(u64_bytes(m.value)), SerializationError::ValueTooLarge { message: "failed to encode Value" }));
        r
    }

    /// The flexible-aware encoding of the structure.
    pub open spec fn spec_encode_flexible(m: ValueDataModel, is_flexible: bool) -> Result<Seq<u8>, SerializationError> {
        let r = Ok(Seq::<u8>::empty());
        let r = then(r, map_encode_err(string_bytes(m.key, is_flexible), SerializationError::ValueTooLarge { message: "failed to encode Key" }));
        let r = then(r, map_encode_err(Ok(u64_bytes(m.value)), SerializationError::ValueTooLarge { message: "failed to encode Value" }));
        let r = if is_flexible { then(r, Ok(uvarint_bytes(0))) } else { r };
        r
    }

    /// The structure read by the classic decoder.
    pub open spec fn spec_decode_classic(s: Seq<u8>, pos: int) -> Result<(ValueDataModel, int), SerializationError> {
        match map_decode_err(parse_string(s, pos, false), SerializationError::Protocol { message: "failed to decode Key" }) {
            Err(e) => Err(e),
            Ok((key, pos)) =>
            match map_decode_err(parse_u64(s, pos), SerializationError::Protocol { message: "failed to decode Value" }) {
                Err(e) => Err(e),
                Ok((value, pos)) =>
                Ok((ValueDataModel { key, value }, pos))
            }
        }
    }

    /// The structure read by the flexible-aware decoder.
    pub open spec fn spec_decode_flexible(s: Seq<u8>, pos: int, is_flexible: bool) -> Result<(ValueDataModel, int), SerializationError> {
        match map_decode_err(parse_string(s, pos, is_flexible), SerializationError::Protocol { message: "failed to decode Key" }) {
            Err(e) => Err(e),
            Ok((key, pos)) =>
            match map_decode_err(parse_u64(s, pos), SerializationError::Protocol { message: "failed to decode Value" }) {
                Err(e) => Err(e),
                Ok((value, pos)) =>
                match (if is_flexible { parse_uvarint(s, pos) } else { Ok((0u64, pos)) }) {
                    Err(e) => Err(e),
                    Ok((_tag_count, pos)) =>
                    Ok((ValueDataModel { key, value }, pos))
                }
            }
        }
    }

    /// Values of the structure that read back from their classic encoding:
    /// nested values read back.
    pub open spec fn reads_back_classic(m: ValueDataModel) -> bool {
        true
    }

    /// A value that can be written and reads back: decoding its encoding, wherever
    /// it stands, gives the value and the position just after it.
    #[verifier::spinoff_prover]
    pub proof fn lemma_classic_read_back(pre: Seq<u8>, m: ValueDataModel, post: Seq<u8>)
        requires
            Self::spec_encode_classic(m) is Ok,
            Self::reads_back_classic(m),
        ensures
            Self::spec_decode_classic(pre + Self::spec_encode_classic(m)->Ok_0 + post, pre.len() as int) == Ok::<(ValueDataModel, int), SerializationError>((m, pre.len() as int + Self::spec_encode_classic(m)->Ok_0.len())),
    {
        let b0 = (string_bytes(m.key, false))->Ok_0;
        let b1 = u64_bytes(m.value);
        let t2 = post;
        let t1 = b1 + t2;
        let t0 = b0 + t1;
        let e = Self::spec_encode_classic(m)->Ok_0;
        assert(e =~= Seq::<u8>::empty() + b0 + b1);
        lemma_seq_assoc((Seq::<u8>::empty() + b0), b1, post);
        lemma_seq_assoc(Seq::<u8>::empty(), b0, (b1 + post));
        lemma_seq_empty_left((b0 + (b1 + post)));
        let s = pre + e + post;
        lemma_seq_assoc(pre, e, post);
        assert(s == pre + t0);
        let a0 = pre;
        assert(parse_string(s, a0.len() as int, false) == Ok::<(Seq<char>, int), SerializationError>((m.key, a0.len() as int + b0.len()))) by {
            assert(string_bytes(m.key, false) is Ok);
            lemma_seq_assoc(a0, b0, t1);
            lemma_string_roundtrip(a0, m.key, t1, false);
        }
        lemma_seq_assoc(a0, b0, t1);
        let a1 = a0 + b0;
        assert(parse_u64(s, a1.len() as int) == Ok::<(u64, int), SerializationError>((m.value, a1.len() as int + b1.len()))) by {
            lemma_seq_assoc(a1, b1, t2);
            lemma_u64_roundtrip(a1, m.value, t2);
        }
    }

    /// The bytes written: the encoding of each field, in the order of the
    /// protocol's layout. Reading them back, wherever they stand, gives the value,
    /// with each field that the version leaves out at its default.
    #[verifier::spinoff_prover]
    pub proof fn lemma_classic_layout(pre: Seq<u8>, m: ValueDataModel, post: Seq<u8>)
        requires
            Self::spec_encode_classic(m) is Ok,
        ensures
            Self::spec_encode_classic(m) == Ok::<Seq<u8>, SerializationError>(((string_bytes(m.key, false))->Ok_0) + (u64_bytes(m.value))),
            Self::reads_back_classic(m) ==> Self::spec_decode_classic(pre + (((string_bytes(m.key, false))->Ok_0) + (u64_bytes(m.value))) + post, pre.len() as int) == Ok::<(ValueDataModel, int), SerializationError>((m, pre.len() as int + (((string_bytes(m.key, false))->Ok_0) + (u64_bytes(m.value))).len())),
    {
        let b0 = (string_bytes(m.key, false))->Ok_0;
        let b1 = u64_bytes(m.value);
        let e = Self::spec_encode_classic(m)->Ok_0;
        assert(e =~= Seq::<u8>::empty() + b0 + b1);
        assert(e =~= b0 + b1);
        if Self::reads_back_classic(m) {
            Self::lemma_classic_read_back(pre, m, post);
        }
    }

    /// Writing succeeds exactly when every field that the version carries can be
    /// encoded and every field that it leaves out, where leaving it out is an
    /// error, holds its default.
    #[verifier::spinoff_prover]
    pub proof fn lemma_classic_write_succeeds(m: ValueDataModel)
        ensures
            Self::spec_encode_classic(m) is Ok <==> (map_encode_err(string_bytes(m.key, false), SerializationError::ValueTooLarge { message: "failed to encode Key" }) is Ok) && (map_encode_err(Ok(u64_bytes(m.value)), SerializationError::ValueTooLarge { message: "failed to encode Value" }) is Ok),
    {
    }

    /// Values of the structure that read back from their flexible-aware encoding:
    /// nested values read back.
    pub open spec fn reads_back_flexible(m: ValueDataModel, is_flexible: bool) -> bool {
        true
    }

    /// A value that can be written and reads back: decoding its encoding, wherever
    /// it stands, gives the value and the position just after it.
    #[verifier::spinoff_prover]
    pub proof fn lemma_flexible_read_back(pre: Seq<u8>, m: ValueDataModel, post: Seq<u8>, is_flexible: bool)
        requires
            Self::spec_encode_flexible(m, is_flexible) is Ok,
            Self::reads_back_flexible(m, is_flexible),
        ensures
            Self::spec_decode_flexible(pre + Self::spec_encode_flexible(m, is_flexible)->Ok_0 + post, pre.len() as int, is_flexible) == Ok::<(ValueDataModel, int), SerializationError>((m, pre.len() as int + Self::spec_encode_flexible(m, is_flexible)->Ok_0.len())),
    {
        let b0 = (string_bytes(m.key, is_flexible))->Ok_0;
        let b1 = u64_bytes(m.value);
        let b2 = if is_flexible { uvarint_bytes(0) } else { Seq::<u8>::empty() };
        let t3 = post;
        let t2 = b2 + t3;
        let t1 = b1 + t2;
        let t0 = b0 + t1;
        let e = Self::spec_encode_flexible(m, is_flexible)->Ok_0;
        assert(e =~= Seq::<u8>::empty() + b0 + b1 + b2);
        lemma_seq_assoc(((Seq::<u8>::empty() + b0) + b1), b2, post);
        lemma_seq_assoc((Seq::<u8>::empty() + b0), b1, (b2 + post));
        lemma_seq_assoc(Seq::<u8>::empty(), b0, (b1 + (b2 + post)));
        lemma_seq_empty_left((b0 + (b1 + (b2 + post))));
        let s = pre + e + post;
        lemma_seq_assoc(pre, e, post);
        assert(s == pre + t0);
        let a0 = pre;
        assert(parse_string(s, a0.len() as int, is_flexible) == Ok::<(Seq<char>, int), SerializationError>((m.key, a0.len() as int + b0.len()))) by {
            assert(string_bytes(m.key, is_flexible) is Ok);
            lemma_seq_assoc(a0, b0, t1);
            lemma_string_roundtrip(a0, m.key, t1, is_flexible);
        }
        lemma_seq_assoc(a0, b0, t1);
        let a1 = a0 + b0;
        assert(parse_u64(s, a1.len() as int) == Ok::<(u64, int), SerializationError>((m.value, a1.len() as int + b1.len()))) by {
            lemma_seq_assoc(a1, b1, t2);
            lemma_u64_roundtrip(a1, m.value, t2);
        }
        lemma_seq_assoc(a1, b1, t2);
        let a2 = a1 + b1;
        if is_flexible {
            assert(parse_uvarint(s, a2.len() as int) == Ok::<(u64, int), SerializationError>((0u64, a2.len() as int + b2.len()))) by {
                lemma_seq_assoc(a2, b2, t3);
                lemma_uvarint_roundtrip(a2, 0, t3);
            }
        }
    }

    /// The bytes written: the encoding of each field, in the order of the
    /// protocol's layout. Reading them back, wherever they stand, gives the value,
    /// with each field that the version leaves out at its default.
    #[verifier::spinoff_prover]
    pub proof fn lemma_flexible_layout(pre: Seq<u8>, m: ValueDataModel, post: Seq<u8>, is_flexible: bool)
        requires
            Self::spec_encode_flexible(m, is_flexible) is Ok,
        ensures
            Self::spec_encode_flexible(m, is_flexible) == Ok::<Seq<u8>, SerializationError>(((string_bytes(m.key, is_flexible))->Ok_0) + (u64_bytes(m.value)) + (if is_flexible { uvarint_bytes(0) } else { Seq::<u8>::empty() })),
            Self::reads_back_flexible(m, is_flexible) ==> Self::spec_decode_flexible(pre + (((string_bytes(m.key, is_flexible))->Ok_0) + (u64_bytes(m.value)) + (if is_flexible { uvarint_bytes(0) } else { Seq::<u8>::empty() })) + post, pre.len() as int, is_flexible) == Ok::<(ValueDataModel, int), SerializationError>((m, pre.len() as int + (((string_bytes(m.key, is_flexible))->Ok_0) + (u64_bytes(m.value)) + (if is_flexible { uvarint_bytes(0) } else { Seq::<u8>::empty() })).len())),
    {
        let b0 = (string_bytes(m.key, is_flexible))->Ok_0;
        let b1 = u64_bytes(m.value);
        let b2 = if is_flexible { uvarint_bytes(0) } else { Seq::<u8>::empty() };
        let e = Self::spec_encode_flexible(m, is_flexible)->Ok_0;
        assert(e =~= Seq::<u8>::empty() + b0 + b1 + b2);
        assert(e =~= b0 + b1 + b2);
        if Self::reads_back_flexible(m, is_flexible) {
            Self::lemma_flexible_read_back(pre, m, post, is_flexible);
        }
    }

    /// Writing succeeds exactly when every field that the version carries can be
    /// encoded and every field that it leaves out, where leaving it out is an
    /// error, holds its default.
    #[verifier::spinoff_prover]
    pub proof fn lemma_flexible_write_succeeds(m: ValueDataModel, is_flexible: bool)
        ensures
            Self::spec_encode_flexible(m, is_flexible) is Ok <==> (map_encode_err(string_bytes(m.key, is_flexible), SerializationError::ValueTooLarge { message: "failed to encode Key" }) is Ok) && (map_encode_err(Ok(u64_bytes(m.value)), SerializationError::ValueTooLarge { message: "failed to encode Value" }) is Ok),
    {
    }

    /// With the compact encodings off, the flexible-aware layout is the classic
    /// layout: both write the same bytes.
    pub proof fn lemma_flexible_off_writes_classic(m: ValueDataModel)
        ensures
            Self::spec_encode_flexible(m, false) == Self::spec_encode_classic(m),
    {
    }

    /// With the compact encodings off, the flexible-aware layout is the classic
    /// layout: both read the same bytes alike.
    pub proof fn lemma_flexible_off_reads_classic(s: Seq<u8>, pos: int)
        ensures
            Self::spec_decode_flexible(s, pos, false) == Self::spec_decode_classic(s, pos),
    {
    }

    /// Writes the structure in the classic layout.
    /// On failure the buffer is left as it was.
    pub fn encode(&self, buf: &mut Vec<u8>) -> (r: Result<(), SerializationError>)
        ensures
            write_exact(r, old(buf)@, final(buf)@, Self::spec_encode_classic(self.deep_view())),
    {
        let start = buf.len();
        let r = self.write_classic(buf);
        if r.is_err() {
            buf.truncate(start);
        }
        r
    }

    fn write_classic(&self, buf: &mut Vec<u8>) -> (r: Result<(), SerializationError>)
        ensures
            write_ok(r, old(buf)@, final(buf)@, Self::spec_encode_classic(self.deep_view())),
    {
        let ghost mut w: Seq<u8> = Seq::empty();
        match encode_string(&self.key, buf, false) {
            Ok(()) => {},
            Err(_) => {
                return Err(SerializationError::ValueTooLarge { message: "failed to encode Key" });
            },
        }
        proof {
            w = w + (map_encode_err(string_bytes(self.key.deep_view(), false), SerializationError::ValueTooLarge { message: "failed to encode Key" }))->Ok_0;
        }
        assert(buf@ =~= old(buf)@ + w);
        put_u64(buf, self.value);
        proof {
            w = w + (map_encode_err(Ok(u64_bytes(self.value)), SerializationError::ValueTooLarge { message: "failed to encode Value" }))->Ok_0;
        }
        assert(buf@ =~= old(buf)@ + w);
        Ok(())
    }

    /// Writes the structure, with the compact encodings when `is_flexible`.
    /// On failure the buffer is left as it was.
    pub fn encode_flexible(&self, buf: &mut Vec<u8>, is_flexible: bool) -> (r: Result<(), SerializationError>)
        ensures
            write_exact(r, old(buf)@, final(buf)@, Self::spec_encode_flexible(self.deep_view(), is_flexible)),
    {
        let start = buf.len();
        let r = self.write_flexible(buf, is_flexible);
        if r.is_err() {
            buf.truncate(start);
        }
        r
    }

    fn write_flexible(&self, buf: &mut Vec<u8>, is_flexible: bool) -> (r: Result<(), SerializationError>)
        ensures
            write_ok(r, old(buf)@, final(buf)@, Self::spec_encode_flexible(self.deep_view(), is_flexible)),
    {
        let ghost mut w: Seq<u8> = Seq::empty();
        match encode_string(&self.key, buf, is_flexible) {
            Ok(()) => {},
            Err(_) => {
                return Err(SerializationError::ValueTooLarge { message: "failed to encode Key" });
            },
        }
        proof {
            w = w + (map_encode_err(string_bytes(self.key.deep_view(), is_flexible), SerializationError::ValueTooLarge { message: "failed to encode Key" }))->Ok_0;
        }
        assert(buf@ =~= old(buf)@ + w);
        put_u64(buf, self.value);
        proof {
            w = w + (map_encode_err(Ok(u64_bytes(self.value)), SerializationError::ValueTooLarge { message: "failed to encode Value" }))->Ok_0;
        }
        assert(buf@ =~= old(buf)@ + w);
        if is_flexible {
            encode_unsigned_varint(0, buf);
            proof {
                w = w + uvarint_bytes(0);
            }
            assert(buf@ =~= old(buf)@ + w);
        }
        Ok(())
    }

    /// Reads the structure in the classic layout.
    /// On failure the reader is put back where it started.
    pub fn decode(buf: &mut Reader) -> (r: Result<Self, SerializationError>)
        ensures
            final(buf).bytes() == old(buf).bytes(),
            read_view_exact(r, Self::spec_decode_classic(old(buf).bytes(), old(buf).pos()), old(buf).pos(), final(buf).pos()),
    {
        let start = buf.position();
        let r = Self::read_classic(buf);
        if r.is_err() {
            buf.set_position(start);
        }
        r
    }

    fn read_classic(buf: &mut Reader) -> (r: Result<Self, SerializationError>)
        ensures
            final(buf).bytes() == old(buf).bytes(),
            read_view_ok(r, Self::spec_decode_classic(old(buf).bytes(), old(buf).pos()), final(buf).pos()),
    {
        let key = match buf.get_string(false) { Ok(v) => v, Err(_) => { return Err(SerializationError::Protocol { message: "failed to decode Key" }); } };
        let value = match buf.get_u64() { Ok(v) => v, Err(_) => { return Err(SerializationError::Protocol { message: "failed to decode Value" }); } };
        Ok(ValueData { key, value })
    }

    /// Reads the structure, with the compact encodings when `is_flexible`.
    /// On failure the reader is put back where it started.
    pub fn decode_flexible(buf: &mut Reader, is_flexible: bool) -> (r: Result<Self, SerializationError>)
        ensures
            final(buf).bytes() == old(buf).bytes(),
            read_view_exact(r, Self::spec_decode_flexible(old(buf).bytes(), old(buf).pos(), is_flexible), old(buf).pos(), final(buf).pos()),
    {
        let start = buf.position();
        let r = Self::read_flexible(buf, is_flexible);
        if r.is_err() {
            buf.set_position(start);
        }
        r
    }

    fn read_flexible(buf: &mut Reader, is_flexible: bool) -> (r: Result<Self, SerializationError>)
        ensures
            final(buf).bytes() == old(buf).bytes(),
            read_view_ok(r, Self::spec_decode_flexible(old(buf).bytes(), old(buf).pos(), is_flexible), final(buf).pos()),
    {
        let key = match buf.get_string(is_flexible) { Ok(v) => v, Err(_) => { return Err(SerializationError::Protocol { message: "failed to decode Key" }); } };
        let value = match buf.get_u64() { Ok(v) => v, Err(_) => { return Err(SerializationError::Protocol { message: "failed to decode Value" }); } };
        if is_flexible {
            let (_tag_count, _) = decode_unsigned_varint(buf)?;
        }
        Ok(ValueData { key, value })
    }
}

impl KafkaCodec for ValueData {
    open spec fn spec_encode(m: ValueDataModel, ctx: Ctx) -> Result<Seq<u8>, SerializationError> {
        if ctx.classic {
            Self::spec_encode_classic(m)
        } else {
            Self::spec_encode_flexible(m, ctx.flexible)
        }
    }

    open spec fn reads_back(v: ValueDataModel, ctx: Ctx) -> bool {
        if ctx.classic {
            Self::reads_back_classic(v)
        } else {
            Self::reads_back_flexible(v, ctx.flexible)
        }
    }

    proof fn lemma_read_back(pre: Seq<u8>, v: ValueDataModel, post: Seq<u8>, ctx: Ctx) {
        if ctx.classic {
            Self::lemma_classic_read_back(pre, v, post);
            assert(Self::spec_decode(pre + Self::spec_encode(v, ctx)->Ok_0 + post, pre.len() as int, ctx)
                == Self::spec_decode_classic(pre + Self::spec_encode_classic(v)->Ok_0 + post, pre.len() as int));
        } else {
            Self::lemma_flexible_read_back(pre, v, post, ctx.flexible);
            assert(Self::spec_decode(pre + Self::spec_encode(v, ctx)->Ok_0 + post, pre.len() as int, ctx)
                == Self::spec_decode_flexible(pre + Self::spec_encode_flexible(v, ctx.flexible)->Ok_0 + post, pre.len() as int, ctx.flexible));
        }
    }

    open spec fn spec_decode(s: Seq<u8>, pos: int, ctx: Ctx) -> Result<(ValueDataModel, int), SerializationError> {
        if ctx.classic {
            Self::spec_decode_classic(s, pos)
        } else {
            Self::spec_decode_flexible(s, pos, ctx.flexible)
        }
    }

    fn encode_ctx(&self, buf: &mut Vec<u8>, ctx: Ctx) -> (r: Result<(), SerializationError>) {
        if ctx.classic {
            self.write_classic(buf)
        } else {
            self.write_flexible(buf, ctx.flexible)
        }
    }

    fn decode_ctx(buf: &mut Reader, ctx: Ctx) -> (r: Result<Self, SerializationError>) {
        if ctx.classic {
            Self::read_classic(buf)
        } else {
            Self::read_flexible(buf, ctx.flexible)
        }
    }
}

} // verus!
