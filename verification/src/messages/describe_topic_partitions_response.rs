//! DescribeTopicPartitionsResponse (API key 75).
use vstd::prelude::*;
use crate::roundtrip::{lemma_array_roundtrip, lemma_bool_roundtrip, lemma_i16_roundtrip,
    lemma_i32_roundtrip, lemma_items_read_back, lemma_nullable_array_roundtrip,
    lemma_nullable_string_roundtrip, lemma_seq_assoc, lemma_seq_empty_left,
    lemma_string_roundtrip, lemma_uuid_roundtrip, lemma_uvarint_roundtrip};
use crate::serialization::{Ctx, KafkaCodec, Reader, SerializationError, array_bytes, bool_bytes,
    decode_array, decode_nullable_array, decode_unsigned_varint, encode_array,
    encode_nullable_array, encode_nullable_string, encode_string, encode_unsigned_varint,
    encode_uuid, i16_bytes, i32_bytes, map_decode_err, map_encode_err, nullable_array_bytes,
    nullable_string_bytes, parse_array, parse_bool, parse_i16, parse_i32, parse_nullable_array,
    parse_nullable_string, parse_raw, parse_string, parse_uvarint, put_bool, put_i16, put_i32,
    read_view_exact, read_view_ok, string_bytes, then, uvarint_bytes, write_exact, write_ok};
use crate::{ApiKey, ApiVersion};

verus! {

// -------------------------------------------------------
// DescribeTopicPartitionsResponse
// -------------------------------------------------------
#[derive(Clone, Debug, Default, PartialEq)]
pub struct DescribeTopicPartitionsResponse {
    /// The duration in milliseconds for which the request was throttled due to a quota violation, or zero if the request did not violate any quota.
    pub throttle_time_ms: i32,
    /// Each topic in the response.
    pub topics: Vec<DescribeTopicPartitionsResponseTopic>,
    /// The next topic and partition index to fetch details for.
    pub next_cursor: Option<Cursor>,
}

/// The contents of `DescribeTopicPartitionsResponse`, with strings as characters and
/// nested values by their contents.
pub struct DescribeTopicPartitionsResponseModel {
    pub throttle_time_ms: i32,
    pub topics: Seq<<DescribeTopicPartitionsResponseTopic as DeepView>::V>,
    pub next_cursor: Option<CursorModel>,
}

impl DeepView for DescribeTopicPartitionsResponse {
    type V = DescribeTopicPartitionsResponseModel;

    open spec fn deep_view(&self) -> DescribeTopicPartitionsResponseModel {
        DescribeTopicPartitionsResponseModel {
            throttle_time_ms: self.throttle_time_ms,
            topics: self.topics.deep_view(),
            next_cursor: self.next_cursor.deep_view(),
        }
    }
}

impl DescribeTopicPartitionsResponse {
    /// The encoding of the structure in context `ctx`.
    pub open spec fn spec_encode_body(m: DescribeTopicPartitionsResponseModel, ctx: Ctx) -> Result<Seq<u8>, SerializationError> {
        let r = Ok(Seq::<u8>::empty());
        let r = then(r, map_encode_err(Ok(i32_bytes(m.throttle_time_ms)), SerializationError::ValueTooLarge { message: "failed to encode ThrottleTimeMs" }));
        let r = then(r, map_encode_err(array_bytes::<DescribeTopicPartitionsResponseTopic>(m.topics, Ctx { version: ctx.version, flexible: ctx.flexible, classic: false }), SerializationError::ValueTooLarge { message: "failed to encode Topics" }));
        let r = if ctx.flexible { match m.next_cursor { Some(v) => then(then(r, Ok(uvarint_bytes(1))), map_encode_err(<Cursor as KafkaCodec>::spec_encode(v, Ctx { version: ctx.version, flexible: true, classic: false }), SerializationError::ValueTooLarge { message: "failed to encode NextCursor" })), None => then(r, Ok(uvarint_bytes(0))) } } else { match m.next_cursor { Some(v) => then(r, map_encode_err(<Cursor as KafkaCodec>::spec_encode(v, Ctx { version: ctx.version, flexible: false, classic: false }), SerializationError::ValueTooLarge { message: "failed to encode NextCursor" })), None => r } };
        let r = if ctx.flexible { then(r, Ok(uvarint_bytes(0))) } else { r };
        r
    }

    /// The structure read from `s` at `pos` in context `ctx`.
    pub open spec fn spec_decode_body(s: Seq<u8>, pos: int, ctx: Ctx) -> Result<(DescribeTopicPartitionsResponseModel, int), SerializationError> {
        match map_decode_err(parse_i32(s, pos), SerializationError::Protocol { message: "failed to decode ThrottleTimeMs" }) {
            Err(e) => Err(e),
            Ok((throttle_time_ms, pos)) =>
            match map_decode_err(parse_array::<DescribeTopicPartitionsResponseTopic>(s, pos, Ctx { version: ctx.version, flexible: ctx.flexible, classic: false }), SerializationError::Protocol { message: "failed to decode Topics" }) {
                Err(e) => Err(e),
                Ok((topics, pos)) =>
                match (if ctx.flexible { match parse_uvarint(s, pos) { Err(e) => Err(e), Ok((present, p)) => if present == 0 { Ok((None, p)) } else { match (map_decode_err(<Cursor as KafkaCodec>::spec_decode(s, p, Ctx { version: ctx.version, flexible: true, classic: false }), SerializationError::Protocol { message: "failed to decode NextCursor" })) { Err(e) => Err(e), Ok((v, q)) => Ok((Some(v), q)) } } } } else { match map_decode_err(<Cursor as KafkaCodec>::spec_decode(s, pos, Ctx { version: ctx.version, flexible: false, classic: false }), SerializationError::Protocol { message: "failed to decode NextCursor" }) { Err(e) => Err(e), Ok((v, q)) => Ok((Some(v), q)) } }) {
                    Err(e) => Err(e),
                    Ok((next_cursor, pos)) =>
                    match (if ctx.flexible { parse_uvarint(s, pos) } else { Ok((0u64, pos)) }) {
                        Err(e) => Err(e),
                        Ok((_tag_count, pos)) =>
                        Ok((DescribeTopicPartitionsResponseModel { throttle_time_ms, topics, next_cursor }, pos))
                    }
                }
            }
        }
    }

    /// Values of the structure that read back from their encoding in `ctx`: every
    /// field that the version leaves out holds its default, and nested values
    /// read back.
    pub open spec fn reads_back_body(m: DescribeTopicPartitionsResponseModel, ctx: Ctx) -> bool {
        &&& forall|i: int| 0 <= i < m.topics.len() ==> #[trigger] <DescribeTopicPartitionsResponseTopic as KafkaCodec>::reads_back(m.topics[i], Ctx { version: ctx.version, flexible: ctx.flexible, classic: false })
        &&& ctx.flexible ==> (m.next_cursor matches Some(v) ==> <Cursor as KafkaCodec>::reads_back(v, Ctx { version: ctx.version, flexible: true, classic: false }))
        &&& !ctx.flexible ==> (m.next_cursor matches Some(v) && <Cursor as KafkaCodec>::reads_back(v, Ctx { version: ctx.version, flexible: false, classic: false }))
    }

    /// A value that can be written in `ctx` and reads back: decoding its encoding,
    /// wherever it stands, gives the value and the position just after it.
    #[verifier::spinoff_prover]
    pub proof fn lemma_body_read_back(pre: Seq<u8>, m: DescribeTopicPartitionsResponseModel, post: Seq<u8>, ctx: Ctx)
        requires
            Self::spec_encode_body(m, ctx) is Ok,
            Self::reads_back_body(m, ctx),
        ensures
            Self::spec_decode_body(pre + Self::spec_encode_body(m, ctx)->Ok_0 + post, pre.len() as int, ctx) == Ok::<(DescribeTopicPartitionsResponseModel, int), SerializationError>((m, pre.len() as int + Self::spec_encode_body(m, ctx)->Ok_0.len())),
    {
        let b0 = i32_bytes(m.throttle_time_ms);
        let b1 = (array_bytes::<DescribeTopicPartitionsResponseTopic>(m.topics, Ctx { version: ctx.version, flexible: ctx.flexible, classic: false }))->Ok_0;
        let b2 = if ctx.flexible { match m.next_cursor { Some(v) => uvarint_bytes(1) + (<Cursor as KafkaCodec>::spec_encode(v, Ctx { version: ctx.version, flexible: true, classic: false }))->Ok_0, None => uvarint_bytes(0) } } else { match m.next_cursor { Some(v) => (<Cursor as KafkaCodec>::spec_encode(v, Ctx { version: ctx.version, flexible: false, classic: false }))->Ok_0, None => Seq::<u8>::empty() } };
        let b3 = if ctx.flexible { uvarint_bytes(0) } else { Seq::<u8>::empty() };
        let t4 = post;
        let t3 = b3 + t4;
        let t2 = b2 + t3;
        let t1 = b1 + t2;
        let t0 = b0 + t1;
        let e = Self::spec_encode_body(m, ctx)->Ok_0;
        assert(e =~= Seq::<u8>::empty() + b0 + b1 + b2 + b3);
        lemma_seq_assoc((((Seq::<u8>::empty() + b0) + b1) + b2), b3, post);
        lemma_seq_assoc(((Seq::<u8>::empty() + b0) + b1), b2, (b3 + post));
        lemma_seq_assoc((Seq::<u8>::empty() + b0), b1, (b2 + (b3 + post)));
        lemma_seq_assoc(Seq::<u8>::empty(), b0, (b1 + (b2 + (b3 + post))));
        lemma_seq_empty_left((b0 + (b1 + (b2 + (b3 + post)))));
        let s = pre + e + post;
        lemma_seq_assoc(pre, e, post);
        assert(s == pre + t0);
        let a0 = pre;
        assert(parse_i32(s, a0.len() as int) == Ok::<(i32, int), SerializationError>((m.throttle_time_ms, a0.len() as int + b0.len()))) by {
            lemma_seq_assoc(a0, b0, t1);
            lemma_i32_roundtrip(a0, m.throttle_time_ms, t1);
        }
        lemma_seq_assoc(a0, b0, t1);
        let a1 = a0 + b0;
        assert(parse_array::<DescribeTopicPartitionsResponseTopic>(s, a1.len() as int, Ctx { version: ctx.version, flexible: ctx.flexible, classic: false }) == Ok::<(Seq<<DescribeTopicPartitionsResponseTopic as DeepView>::V>, int), SerializationError>((m.topics, a1.len() as int + b1.len()))) by {
            assert(array_bytes::<DescribeTopicPartitionsResponseTopic>(m.topics, Ctx { version: ctx.version, flexible: ctx.flexible, classic: false }) is Ok);
            lemma_seq_assoc(a1, b1, t2);
            lemma_items_read_back::<DescribeTopicPartitionsResponseTopic>(m.topics, Ctx { version: ctx.version, flexible: ctx.flexible, classic: false });
            lemma_array_roundtrip::<DescribeTopicPartitionsResponseTopic>(a1, m.topics, t2, Ctx { version: ctx.version, flexible: ctx.flexible, classic: false });
        }
        lemma_seq_assoc(a1, b1, t2);
        let a2 = a1 + b1;
        if ctx.flexible {
            match m.next_cursor {
                Some(v) => {
                    let x = (<Cursor as KafkaCodec>::spec_encode(v, Ctx { version: ctx.version, flexible: true, classic: false }))->Ok_0;
                    assert(parse_uvarint(s, a2.len() as int) == Ok::<(u64, int), SerializationError>((1u64, a2.len() as int + 1))) by {
                        assert(s =~= a2 + uvarint_bytes(1) + (x + t3));
                        lemma_uvarint_roundtrip(a2, 1, x + t3);
                    }
                    let a1x = a2 + uvarint_bytes(1);
                    assert(<Cursor as KafkaCodec>::spec_decode(s, a1x.len() as int, Ctx { version: ctx.version, flexible: true, classic: false }) == Ok::<(CursorModel, int), SerializationError>((v, a1x.len() as int + x.len()))) by {
                        assert(s =~= a1x + x + t3);
                        <Cursor as KafkaCodec>::lemma_read_back(a1x, v, t3, Ctx { version: ctx.version, flexible: true, classic: false });
                    }
                },
                None => {
                    assert(parse_uvarint(s, a2.len() as int) == Ok::<(u64, int), SerializationError>((0u64, a2.len() as int + 1))) by {
                        assert(s =~= a2 + b2 + t3);
                        lemma_uvarint_roundtrip(a2, 0, t3);
                    }
                },
            }
        } else {
            if let Some(v) = m.next_cursor {
                assert(<Cursor as KafkaCodec>::spec_decode(s, a2.len() as int, Ctx { version: ctx.version, flexible: false, classic: false }) == Ok::<(CursorModel, int), SerializationError>((v, a2.len() as int + b2.len()))) by {
                    assert(s =~= a2 + b2 + t3);
                    <Cursor as KafkaCodec>::lemma_read_back(a2, v, t3, Ctx { version: ctx.version, flexible: false, classic: false });
                }
            }
        }
        lemma_seq_assoc(a2, b2, t3);
        let a3 = a2 + b2;
        if ctx.flexible {
            assert(parse_uvarint(s, a3.len() as int) == Ok::<(u64, int), SerializationError>((0u64, a3.len() as int + b3.len()))) by {
                lemma_seq_assoc(a3, b3, t4);
                lemma_uvarint_roundtrip(a3, 0, t4);
            }
        }
    }

    /// The bytes written: the encoding of each field, in the order of the
    /// protocol's layout. Reading them back, wherever they stand, gives the value,
    /// with each field that the version leaves out at its default.
    #[verifier::spinoff_prover]
    pub proof fn lemma_body_layout(pre: Seq<u8>, m: DescribeTopicPartitionsResponseModel, post: Seq<u8>, ctx: Ctx)
        requires
            Self::spec_encode_body(m, ctx) is Ok,
        ensures
            Self::spec_encode_body(m, ctx) == Ok::<Seq<u8>, SerializationError>((i32_bytes(m.throttle_time_ms)) + ((array_bytes::<DescribeTopicPartitionsResponseTopic>(m.topics, Ctx { version: ctx.version, flexible: ctx.flexible, classic: false }))->Ok_0) + (if ctx.flexible { match m.next_cursor { Some(v) => uvarint_bytes(1) + (<Cursor as KafkaCodec>::spec_encode(v, Ctx { version: ctx.version, flexible: true, classic: false }))->Ok_0, None => uvarint_bytes(0) } } else { match m.next_cursor { Some(v) => (<Cursor as KafkaCodec>::spec_encode(v, Ctx { version: ctx.version, flexible: false, classic: false }))->Ok_0, None => Seq::<u8>::empty() } }) + (if ctx.flexible { uvarint_bytes(0) } else { Seq::<u8>::empty() })),
            Self::reads_back_body(m, ctx) ==> Self::spec_decode_body(pre + ((i32_bytes(m.throttle_time_ms)) + ((array_bytes::<DescribeTopicPartitionsResponseTopic>(m.topics, Ctx { version: ctx.version, flexible: ctx.flexible, classic: false }))->Ok_0) + (if ctx.flexible { match m.next_cursor { Some(v) => uvarint_bytes(1) + (<Cursor as KafkaCodec>::spec_encode(v, Ctx { version: ctx.version, flexible: true, classic: false }))->Ok_0, None => uvarint_bytes(0) } } else { match m.next_cursor { Some(v) => (<Cursor as KafkaCodec>::spec_encode(v, Ctx { version: ctx.version, flexible: false, classic: false }))->Ok_0, None => Seq::<u8>::empty() } }) + (if ctx.flexible { uvarint_bytes(0) } else { Seq::<u8>::empty() })) + post, pre.len() as int, ctx) == Ok::<(DescribeTopicPartitionsResponseModel, int), SerializationError>((m, pre.len() as int + ((i32_bytes(m.throttle_time_ms)) + ((array_bytes::<DescribeTopicPartitionsResponseTopic>(m.topics, Ctx { version: ctx.version, flexible: ctx.flexible, classic: false }))->Ok_0) + (if ctx.flexible { match m.next_cursor { Some(v) => uvarint_bytes(1) + (<Cursor as KafkaCodec>::spec_encode(v, Ctx { version: ctx.version, flexible: true, classic: false }))->Ok_0, None => uvarint_bytes(0) } } else { match m.next_cursor { Some(v) => (<Cursor as KafkaCodec>::spec_encode(v, Ctx { version: ctx.version, flexible: false, classic: false }))->Ok_0, None => Seq::<u8>::empty() } }) + (if ctx.flexible { uvarint_bytes(0) } else { Seq::<u8>::empty() })).len())),
    {
        let b0 = i32_bytes(m.throttle_time_ms);
        let b1 = (array_bytes::<DescribeTopicPartitionsResponseTopic>(m.topics, Ctx { version: ctx.version, flexible: ctx.flexible, classic: false }))->Ok_0;
        let b2 = if ctx.flexible { match m.next_cursor { Some(v) => uvarint_bytes(1) + (<Cursor as KafkaCodec>::spec_encode(v, Ctx { version: ctx.version, flexible: true, classic: false }))->Ok_0, None => uvarint_bytes(0) } } else { match m.next_cursor { Some(v) => (<Cursor as KafkaCodec>::spec_encode(v, Ctx { version: ctx.version, flexible: false, classic: false }))->Ok_0, None => Seq::<u8>::empty() } };
        let b3 = if ctx.flexible { uvarint_bytes(0) } else { Seq::<u8>::empty() };
        let e = Self::spec_encode_body(m, ctx)->Ok_0;
        assert(e =~= Seq::<u8>::empty() + b0 + b1 + b2 + b3);
        assert(e =~= b0 + b1 + b2 + b3);
        if Self::reads_back_body(m, ctx) {
            Self::lemma_body_read_back(pre, m, post, ctx);
        }
    }

    /// Writes the structure for `version`, with the compact encodings when `is_flexible`.
    /// On failure the buffer is left as it was.
    pub fn encode(&self, buf: &mut Vec<u8>, version: ApiVersion, is_flexible: bool) -> (r: Result<(), SerializationError>)
        ensures
            write_exact(r, old(buf)@, final(buf)@, Self::spec_encode_body(self.deep_view(), Ctx { version: version.0, flexible: is_flexible, classic: false })),
    {
        let start = buf.len();
        let r = self.encode_ctx(buf, Ctx::new(version, is_flexible));
        if r.is_err() {
            buf.truncate(start);
        }
        r
    }

    /// Reads the structure as written for `version`.
    /// On failure the reader is put back where it started.
    pub fn decode(buf: &mut Reader, version: ApiVersion, is_flexible: bool) -> (r: Result<Self, SerializationError>)
        ensures
            final(buf).bytes() == old(buf).bytes(),
            read_view_exact(r, Self::spec_decode_body(old(buf).bytes(), old(buf).pos(), Ctx { version: version.0, flexible: is_flexible, classic: false }), old(buf).pos(), final(buf).pos()),
    {
        let start = buf.position();
        let r = Self::decode_ctx(buf, Ctx::new(version, is_flexible));
        if r.is_err() {
            buf.set_position(start);
        }
        r
    }
}

impl KafkaCodec for DescribeTopicPartitionsResponse {
    open spec fn spec_encode(m: DescribeTopicPartitionsResponseModel, ctx: Ctx) -> Result<Seq<u8>, SerializationError> {
        Self::spec_encode_body(m, ctx)
    }

    open spec fn spec_decode(s: Seq<u8>, pos: int, ctx: Ctx) -> Result<(DescribeTopicPartitionsResponseModel, int), SerializationError> {
        Self::spec_decode_body(s, pos, ctx)
    }

    open spec fn reads_back(v: DescribeTopicPartitionsResponseModel, ctx: Ctx) -> bool {
        Self::reads_back_body(v, ctx)
    }

    proof fn lemma_read_back(pre: Seq<u8>, v: DescribeTopicPartitionsResponseModel, post: Seq<u8>, ctx: Ctx) {
        Self::lemma_body_read_back(pre, v, post, ctx);
        assert(Self::spec_decode(pre + Self::spec_encode(v, ctx)->Ok_0 + post, pre.len() as int, ctx)
            == Self::spec_decode_body(pre + Self::spec_encode_body(v, ctx)->Ok_0 + post, pre.len() as int, ctx));
    }

    fn encode_ctx(&self, buf: &mut Vec<u8>, ctx: Ctx) -> (r: Result<(), SerializationError>) {
        let ghost mut w: Seq<u8> = Seq::empty();
        put_i32(buf, self.throttle_time_ms);
        proof {
            w = w + (map_encode_err(Ok(i32_bytes(self.throttle_time_ms)), SerializationError::ValueTooLarge { message: "failed to encode ThrottleTimeMs" }))->Ok_0;
        }
        assert(buf@ =~= old(buf)@ + w);
        match encode_array(&self.topics, buf, Ctx { version: ctx.version, flexible: ctx.flexible, classic: false }) {
            Ok(()) => {},
            Err(_) => {
                return Err(SerializationError::ValueTooLarge { message: "failed to encode Topics" });
            },
        }
        proof {
            w = w + (map_encode_err(array_bytes::<DescribeTopicPartitionsResponseTopic>(self.topics.deep_view(), Ctx { version: ctx.version, flexible: ctx.flexible, classic: false }), SerializationError::ValueTooLarge { message: "failed to encode Topics" }))->Ok_0;
        }
        assert(buf@ =~= old(buf)@ + w);
        if ctx.flexible {
            match &self.next_cursor {
                Some(v) => {
                    encode_unsigned_varint(1, buf);
                    proof {
                        w = w + uvarint_bytes(1);
                    }
                    match (*v).encode_ctx(buf, Ctx { version: ctx.version, flexible: true, classic: false }) {
                        Ok(()) => {},
                        Err(_) => {
                            return Err(SerializationError::ValueTooLarge { message: "failed to encode NextCursor" });
                        },
                    }
                    proof {
                        w = w + (map_encode_err(<Cursor as KafkaCodec>::spec_encode((*v).deep_view(), Ctx { version: ctx.version, flexible: true, classic: false }), SerializationError::ValueTooLarge { message: "failed to encode NextCursor" }))->Ok_0;
                    }
                    assert(buf@ =~= old(buf)@ + w);
                },
                None => {
                    encode_unsigned_varint(0, buf);
                    proof {
                        w = w + uvarint_bytes(0);
                    }
                    assert(buf@ =~= old(buf)@ + w);
                },
            }
        } else {
            match &self.next_cursor {
                Some(v) => {
                    match (*v).encode_ctx(buf, Ctx { version: ctx.version, flexible: false, classic: false }) {
                        Ok(()) => {},
                        Err(_) => {
                            return Err(SerializationError::ValueTooLarge { message: "failed to encode NextCursor" });
                        },
                    }
                    proof {
                        w = w + (map_encode_err(<Cursor as KafkaCodec>::spec_encode((*v).deep_view(), Ctx { version: ctx.version, flexible: false, classic: false }), SerializationError::ValueTooLarge { message: "failed to encode NextCursor" }))->Ok_0;
                    }
                    assert(buf@ =~= old(buf)@ + w);
                },
                None => {},
            }
        }
        if ctx.flexible {
            encode_unsigned_varint(0, buf);
            proof {
                w = w + uvarint_bytes(0);
            }
            assert(buf@ =~= old(buf)@ + w);
        }
        Ok(())
    }

    fn decode_ctx(buf: &mut Reader, ctx: Ctx) -> (r: Result<Self, SerializationError>) {
        let throttle_time_ms = match buf.get_i32() { Ok(v) => v, Err(_) => { return Err(SerializationError::Protocol { message: "failed to decode ThrottleTimeMs" }); } };
        let topics = match decode_array::<DescribeTopicPartitionsResponseTopic>(buf, Ctx { version: ctx.version, flexible: ctx.flexible, classic: false }) { Ok(v) => v, Err(_) => { return Err(SerializationError::Protocol { message: "failed to decode Topics" }); } };
        let next_cursor = if ctx.flexible {
            let (present, _) = decode_unsigned_varint(buf)?;
            if present == 0 {
                None
            } else {
                Some(match <Cursor as KafkaCodec>::decode_ctx(buf, Ctx { version: ctx.version, flexible: true, classic: false }) { Ok(v) => v, Err(_) => { return Err(SerializationError::Protocol { message: "failed to decode NextCursor" }); } })
            }
        } else {
            Some(match <Cursor as KafkaCodec>::decode_ctx(buf, Ctx { version: ctx.version, flexible: false, classic: false }) { Ok(v) => v, Err(_) => { return Err(SerializationError::Protocol { message: "failed to decode NextCursor" }); } })
        };
        if ctx.flexible {
            let (_tag_count, _) = decode_unsigned_varint(buf)?;
        }
        Ok(DescribeTopicPartitionsResponse { throttle_time_ms, topics, next_cursor })
    }
}

impl DescribeTopicPartitionsResponse {
    /// The API key of this message.
    pub fn get_api_key() -> (r: ApiKey)
        ensures
            r.0 == 75,
    {
        ApiKey::new(75)
    }

    /// The oldest version of this message.
    pub fn get_min_supported_version() -> (r: ApiVersion)
        ensures
            r.0 == 0,
    {
        ApiVersion::new(0)
    }

    /// The newest version of this message.
    pub fn get_max_supported_version() -> (r: ApiVersion)
        ensures
            r.0 == 0,
    {
        ApiVersion::new(0)
    }

    /// The first version of this message with the compact encodings.
    pub fn get_min_flexible_version() -> (r: ApiVersion)
        ensures
            r.0 == 0,
    {
        ApiVersion::new(0)
    }

    /// The encoding of a whole message body at `version`.
    pub open spec fn spec_serialize(m: DescribeTopicPartitionsResponseModel, version: i16) -> Result<Seq<u8>, SerializationError> {
        let is_flexible = version >= 0;
        let ctx = Ctx { version, flexible: is_flexible, classic: false };
        let r = Ok(Seq::<u8>::empty());
        let r = then(r, map_encode_err(Ok(i32_bytes(m.throttle_time_ms)), SerializationError::Encode("failed to encode ThrottleTimeMs")));
        let r = then(r, map_encode_err(array_bytes::<DescribeTopicPartitionsResponseTopic>(m.topics, Ctx { version: ctx.version, flexible: ctx.flexible, classic: false }), SerializationError::Encode("failed to encode Topics")));
        let r = if ctx.flexible { match m.next_cursor { Some(v) => then(then(r, Ok(uvarint_bytes(1))), map_encode_err(<Cursor as KafkaCodec>::spec_encode(v, Ctx { version: ctx.version, flexible: true, classic: false }), SerializationError::Encode("failed to encode NextCursor"))), None => then(r, Ok(uvarint_bytes(0))) } } else { match m.next_cursor { Some(v) => then(r, map_encode_err(<Cursor as KafkaCodec>::spec_encode(v, Ctx { version: ctx.version, flexible: false, classic: false }), SerializationError::Encode("failed to encode NextCursor"))), None => r } };
        let r = if ctx.flexible { then(r, Ok(uvarint_bytes(0))) } else { r };
        r
    }

    /// The message body read at `version`.
    pub open spec fn spec_deserialize(s: Seq<u8>, pos: int, version: i16) -> Result<(DescribeTopicPartitionsResponseModel, int), SerializationError> {
        let is_flexible = version >= 0;
        let ctx = Ctx { version, flexible: is_flexible, classic: false };
        match map_decode_err(parse_i32(s, pos), SerializationError::Decode("failed to decode ThrottleTimeMs")) {
            Err(e) => Err(e),
            Ok((throttle_time_ms, pos)) =>
            match map_decode_err(parse_array::<DescribeTopicPartitionsResponseTopic>(s, pos, Ctx { version: ctx.version, flexible: ctx.flexible, classic: false }), SerializationError::Decode("failed to decode Topics")) {
                Err(e) => Err(e),
                Ok((topics, pos)) =>
                match (if ctx.flexible { match map_decode_err(parse_uvarint(s, pos), SerializationError::Decode("tagged field error")) { Err(e) => Err(e), Ok((present, p)) => if present == 0 { Ok((None, p)) } else { match (map_decode_err(<Cursor as KafkaCodec>::spec_decode(s, p, Ctx { version: ctx.version, flexible: true, classic: false }), SerializationError::Decode("failed to decode NextCursor"))) { Err(e) => Err(e), Ok((v, q)) => Ok((Some(v), q)) } } } } else { match map_decode_err(<Cursor as KafkaCodec>::spec_decode(s, pos, Ctx { version: ctx.version, flexible: false, classic: false }), SerializationError::Decode("failed to decode NextCursor")) { Err(e) => Err(e), Ok((v, q)) => Ok((Some(v), q)) } }) {
                    Err(e) => Err(e),
                    Ok((next_cursor, pos)) =>
                    Ok((DescribeTopicPartitionsResponseModel { throttle_time_ms, topics, next_cursor }, pos))
                }
            }
        }
    }

    /// Message bodies that read back when written at `version`: every field that
    /// the version leaves out holds its default, and nested values read back.
    pub open spec fn reads_back_message(m: DescribeTopicPartitionsResponseModel, version: i16) -> bool {
        let is_flexible = version >= 0;
        let ctx = Ctx { version, flexible: is_flexible, classic: false };
        &&& forall|i: int| 0 <= i < m.topics.len() ==> #[trigger] <DescribeTopicPartitionsResponseTopic as KafkaCodec>::reads_back(m.topics[i], Ctx { version: ctx.version, flexible: ctx.flexible, classic: false })
        &&& ctx.flexible ==> (m.next_cursor matches Some(v) ==> <Cursor as KafkaCodec>::reads_back(v, Ctx { version: ctx.version, flexible: true, classic: false }))
        &&& !ctx.flexible ==> (m.next_cursor matches Some(v) && <Cursor as KafkaCodec>::reads_back(v, Ctx { version: ctx.version, flexible: false, classic: false }))
    }

    /// A message body that can be written at `version` and reads back: reading a
    /// body at `version` from its bytes, wherever they stand, gives the same message.
    #[verifier::spinoff_prover]
    pub proof fn lemma_message_read_back(pre: Seq<u8>, m: DescribeTopicPartitionsResponseModel, post: Seq<u8>, version: i16)
        requires
            Self::spec_serialize(m, version) is Ok,
            Self::reads_back_message(m, version),
        ensures
            Self::spec_deserialize(pre + Self::spec_serialize(m, version)->Ok_0 + post, pre.len() as int, version) == Ok::<(DescribeTopicPartitionsResponseModel, int), SerializationError>((m, pre.len() as int + Self::spec_serialize(m, version)->Ok_0.len() - (if version >= 0 { 1int } else { 0int }))),
    {
        let is_flexible = version >= 0;
        let ctx = Ctx { version, flexible: is_flexible, classic: false };
        let b0 = i32_bytes(m.throttle_time_ms);
        let b1 = (array_bytes::<DescribeTopicPartitionsResponseTopic>(m.topics, Ctx { version: ctx.version, flexible: ctx.flexible, classic: false }))->Ok_0;
        let b2 = if ctx.flexible { match m.next_cursor { Some(v) => uvarint_bytes(1) + (<Cursor as KafkaCodec>::spec_encode(v, Ctx { version: ctx.version, flexible: true, classic: false }))->Ok_0, None => uvarint_bytes(0) } } else { match m.next_cursor { Some(v) => (<Cursor as KafkaCodec>::spec_encode(v, Ctx { version: ctx.version, flexible: false, classic: false }))->Ok_0, None => Seq::<u8>::empty() } };
        let b3 = if ctx.flexible { uvarint_bytes(0) } else { Seq::<u8>::empty() };
        let t4 = post;
        let t3 = b3 + t4;
        let t2 = b2 + t3;
        let t1 = b1 + t2;
        let t0 = b0 + t1;
        let e = Self::spec_serialize(m, version)->Ok_0;
        assert(e =~= Seq::<u8>::empty() + b0 + b1 + b2 + b3);
        lemma_seq_assoc((((Seq::<u8>::empty() + b0) + b1) + b2), b3, post);
        lemma_seq_assoc(((Seq::<u8>::empty() + b0) + b1), b2, (b3 + post));
        lemma_seq_assoc((Seq::<u8>::empty() + b0), b1, (b2 + (b3 + post)));
        lemma_seq_assoc(Seq::<u8>::empty(), b0, (b1 + (b2 + (b3 + post))));
        lemma_seq_empty_left((b0 + (b1 + (b2 + (b3 + post)))));
        let s = pre + e + post;
        lemma_seq_assoc(pre, e, post);
        assert(s == pre + t0);
        let a0 = pre;
        assert(parse_i32(s, a0.len() as int) == Ok::<(i32, int), SerializationError>((m.throttle_time_ms, a0.len() as int + b0.len()))) by {
            lemma_seq_assoc(a0, b0, t1);
            lemma_i32_roundtrip(a0, m.throttle_time_ms, t1);
        }
        lemma_seq_assoc(a0, b0, t1);
        let a1 = a0 + b0;
        assert(parse_array::<DescribeTopicPartitionsResponseTopic>(s, a1.len() as int, Ctx { version: ctx.version, flexible: ctx.flexible, classic: false }) == Ok::<(Seq<<DescribeTopicPartitionsResponseTopic as DeepView>::V>, int), SerializationError>((m.topics, a1.len() as int + b1.len()))) by {
            assert(array_bytes::<DescribeTopicPartitionsResponseTopic>(m.topics, Ctx { version: ctx.version, flexible: ctx.flexible, classic: false }) is Ok);
            lemma_seq_assoc(a1, b1, t2);
            lemma_items_read_back::<DescribeTopicPartitionsResponseTopic>(m.topics, Ctx { version: ctx.version, flexible: ctx.flexible, classic: false });
            lemma_array_roundtrip::<DescribeTopicPartitionsResponseTopic>(a1, m.topics, t2, Ctx { version: ctx.version, flexible: ctx.flexible, classic: false });
        }
        lemma_seq_assoc(a1, b1, t2);
        let a2 = a1 + b1;
        if ctx.flexible {
            match m.next_cursor {
                Some(v) => {
                    let x = (<Cursor as KafkaCodec>::spec_encode(v, Ctx { version: ctx.version, flexible: true, classic: false }))->Ok_0;
                    assert(parse_uvarint(s, a2.len() as int) == Ok::<(u64, int), SerializationError>((1u64, a2.len() as int + 1))) by {
                        assert(s =~= a2 + uvarint_bytes(1) + (x + t3));
                        lemma_uvarint_roundtrip(a2, 1, x + t3);
                    }
                    let a1x = a2 + uvarint_bytes(1);
                    assert(<Cursor as KafkaCodec>::spec_decode(s, a1x.len() as int, Ctx { version: ctx.version, flexible: true, classic: false }) == Ok::<(CursorModel, int), SerializationError>((v, a1x.len() as int + x.len()))) by {
                        assert(s =~= a1x + x + t3);
                        <Cursor as KafkaCodec>::lemma_read_back(a1x, v, t3, Ctx { version: ctx.version, flexible: true, classic: false });
                    }
                },
                None => {
                    assert(parse_uvarint(s, a2.len() as int) == Ok::<(u64, int), SerializationError>((0u64, a2.len() as int + 1))) by {
                        assert(s =~= a2 + b2 + t3);
                        lemma_uvarint_roundtrip(a2, 0, t3);
                    }
                },
            }
        } else {
            if let Some(v) = m.next_cursor {
                assert(<Cursor as KafkaCodec>::spec_decode(s, a2.len() as int, Ctx { version: ctx.version, flexible: false, classic: false }) == Ok::<(CursorModel, int), SerializationError>((v, a2.len() as int + b2.len()))) by {
                    assert(s =~= a2 + b2 + t3);
                    <Cursor as KafkaCodec>::lemma_read_back(a2, v, t3, Ctx { version: ctx.version, flexible: false, classic: false });
                }
            }
        }
        lemma_seq_assoc(a2, b2, t3);
        let a3 = a2 + b2;
    }

    /// The bytes written: the encoding of each field, in the order of the
    /// protocol's layout. Reading them back, wherever they stand, gives the value,
    /// with each field that the version leaves out at its default.
    #[verifier::spinoff_prover]
    pub proof fn lemma_message_layout(pre: Seq<u8>, m: DescribeTopicPartitionsResponseModel, post: Seq<u8>, version: i16)
        requires
            Self::spec_serialize(m, version) is Ok,
        ensures
            Self::spec_serialize(m, version) == Ok::<Seq<u8>, SerializationError>((i32_bytes(m.throttle_time_ms)) + ((array_bytes::<DescribeTopicPartitionsResponseTopic>(m.topics, Ctx { version: version, flexible: (version >= 0), classic: false }))->Ok_0) + (if (version >= 0) { match m.next_cursor { Some(v) => uvarint_bytes(1) + (<Cursor as KafkaCodec>::spec_encode(v, Ctx { version: version, flexible: true, classic: false }))->Ok_0, None => uvarint_bytes(0) } } else { match m.next_cursor { Some(v) => (<Cursor as KafkaCodec>::spec_encode(v, Ctx { version: version, flexible: false, classic: false }))->Ok_0, None => Seq::<u8>::empty() } }) + (if (version >= 0) { uvarint_bytes(0) } else { Seq::<u8>::empty() })),
            Self::reads_back_message(m, version) ==> Self::spec_deserialize(pre + ((i32_bytes(m.throttle_time_ms)) + ((array_bytes::<DescribeTopicPartitionsResponseTopic>(m.topics, Ctx { version: version, flexible: (version >= 0), classic: false }))->Ok_0) + (if (version >= 0) { match m.next_cursor { Some(v) => uvarint_bytes(1) + (<Cursor as KafkaCodec>::spec_encode(v, Ctx { version: version, flexible: true, classic: false }))->Ok_0, None => uvarint_bytes(0) } } else { match m.next_cursor { Some(v) => (<Cursor as KafkaCodec>::spec_encode(v, Ctx { version: version, flexible: false, classic: false }))->Ok_0, None => Seq::<u8>::empty() } }) + (if (version >= 0) { uvarint_bytes(0) } else { Seq::<u8>::empty() })) + post, pre.len() as int, version) == Ok::<(DescribeTopicPartitionsResponseModel, int), SerializationError>((m, pre.len() as int + ((i32_bytes(m.throttle_time_ms)) + ((array_bytes::<DescribeTopicPartitionsResponseTopic>(m.topics, Ctx { version: version, flexible: (version >= 0), classic: false }))->Ok_0) + (if (version >= 0) { match m.next_cursor { Some(v) => uvarint_bytes(1) + (<Cursor as KafkaCodec>::spec_encode(v, Ctx { version: version, flexible: true, classic: false }))->Ok_0, None => uvarint_bytes(0) } } else { match m.next_cursor { Some(v) => (<Cursor as KafkaCodec>::spec_encode(v, Ctx { version: version, flexible: false, classic: false }))->Ok_0, None => Seq::<u8>::empty() } }) + (if (version >= 0) { uvarint_bytes(0) } else { Seq::<u8>::empty() })).len() - (if version >= 0 { 1int } else { 0int }))),
    {
        let is_flexible = version >= 0;
        let ctx = Ctx { version, flexible: is_flexible, classic: false };
        let b0 = i32_bytes(m.throttle_time_ms);
        let b1 = (array_bytes::<DescribeTopicPartitionsResponseTopic>(m.topics, Ctx { version: ctx.version, flexible: ctx.flexible, classic: false }))->Ok_0;
        let b2 = if ctx.flexible { match m.next_cursor { Some(v) => uvarint_bytes(1) + (<Cursor as KafkaCodec>::spec_encode(v, Ctx { version: ctx.version, flexible: true, classic: false }))->Ok_0, None => uvarint_bytes(0) } } else { match m.next_cursor { Some(v) => (<Cursor as KafkaCodec>::spec_encode(v, Ctx { version: ctx.version, flexible: false, classic: false }))->Ok_0, None => Seq::<u8>::empty() } };
        let b3 = if ctx.flexible { uvarint_bytes(0) } else { Seq::<u8>::empty() };
        let e = Self::spec_serialize(m, version)->Ok_0;
        assert(e =~= Seq::<u8>::empty() + b0 + b1 + b2 + b3);
        assert(e =~= b0 + b1 + b2 + b3);
        if Self::reads_back_message(m, version) {
            Self::lemma_message_read_back(pre, m, post, version);
        }
    }

    /// Writes the message body for `version`, which must be a supported version.
    /// On failure the buffer is left as it was.
    pub fn serialize(&self, version: ApiVersion, buf: &mut Vec<u8>) -> (r: Result<(), SerializationError>)
        requires
            0 <= version.0 <= 0,
        ensures
            write_exact(r, old(buf)@, final(buf)@, Self::spec_serialize(self.deep_view(), version.0)),
    {
        let start = buf.len();
        let r = self.write_body(version, buf);
        if r.is_err() {
            buf.truncate(start);
        }
        r
    }

    fn write_body(&self, version: ApiVersion, buf: &mut Vec<u8>) -> (r: Result<(), SerializationError>)
        requires
            0 <= version.0 <= 0,
        ensures
            write_ok(r, old(buf)@, final(buf)@, Self::spec_serialize(self.deep_view(), version.0)),
    {
        let is_flexible = version.0 >= Self::get_min_flexible_version().0;
        let ctx = Ctx::new(version, is_flexible);
        let ghost mut w: Seq<u8> = Seq::empty();
        put_i32(buf, self.throttle_time_ms);
        proof {
            w = w + (map_encode_err(Ok(i32_bytes(self.throttle_time_ms)), SerializationError::Encode("failed to encode ThrottleTimeMs")))->Ok_0;
        }
        assert(buf@ =~= old(buf)@ + w);
        match encode_array(&self.topics, buf, Ctx { version: ctx.version, flexible: ctx.flexible, classic: false }) {
            Ok(()) => {},
            Err(_) => {
                return Err(SerializationError::Encode("failed to encode Topics"));
            },
        }
        proof {
            w = w + (map_encode_err(array_bytes::<DescribeTopicPartitionsResponseTopic>(self.topics.deep_view(), Ctx { version: ctx.version, flexible: ctx.flexible, classic: false }), SerializationError::Encode("failed to encode Topics")))->Ok_0;
        }
        assert(buf@ =~= old(buf)@ + w);
        if ctx.flexible {
            match &self.next_cursor {
                Some(v) => {
                    encode_unsigned_varint(1, buf);
                    proof {
                        w = w + uvarint_bytes(1);
                    }
                    match (*v).encode_ctx(buf, Ctx { version: ctx.version, flexible: true, classic: false }) {
                        Ok(()) => {},
                        Err(_) => {
                            return Err(SerializationError::Encode("failed to encode NextCursor"));
                        },
                    }
                    proof {
                        w = w + (map_encode_err(<Cursor as KafkaCodec>::spec_encode((*v).deep_view(), Ctx { version: ctx.version, flexible: true, classic: false }), SerializationError::Encode("failed to encode NextCursor")))->Ok_0;
                    }
                    assert(buf@ =~= old(buf)@ + w);
                },
                None => {
                    encode_unsigned_varint(0, buf);
                    proof {
                        w = w + uvarint_bytes(0);
                    }
                    assert(buf@ =~= old(buf)@ + w);
                },
            }
        } else {
            match &self.next_cursor {
                Some(v) => {
                    match (*v).encode_ctx(buf, Ctx { version: ctx.version, flexible: false, classic: false }) {
                        Ok(()) => {},
                        Err(_) => {
                            return Err(SerializationError::Encode("failed to encode NextCursor"));
                        },
                    }
                    proof {
                        w = w + (map_encode_err(<Cursor as KafkaCodec>::spec_encode((*v).deep_view(), Ctx { version: ctx.version, flexible: false, classic: false }), SerializationError::Encode("failed to encode NextCursor")))->Ok_0;
                    }
                    assert(buf@ =~= old(buf)@ + w);
                },
                None => {},
            }
        }
        if ctx.flexible {
            encode_unsigned_varint(0, buf);
            proof {
                w = w + uvarint_bytes(0);
            }
            assert(buf@ =~= old(buf)@ + w);
        }
        Ok(())
    }

    /// Reads a message body written for `version`.
    /// On failure the reader is put back where it started.
    pub fn deserialize(version: ApiVersion, buf: &mut Reader) -> (r: Result<Self, SerializationError>)
        ensures
            final(buf).bytes() == old(buf).bytes(),
            read_view_exact(r, Self::spec_deserialize(old(buf).bytes(), old(buf).pos(), version.0), old(buf).pos(), final(buf).pos()),
    {
        let start = buf.position();
        let r = Self::read_body(version, buf);
        if r.is_err() {
            buf.set_position(start);
        }
        r
    }

    fn read_body(version: ApiVersion, buf: &mut Reader) -> (r: Result<Self, SerializationError>)
        ensures
            final(buf).bytes() == old(buf).bytes(),
            read_view_ok(r, Self::spec_deserialize(old(buf).bytes(), old(buf).pos(), version.0), final(buf).pos()),
    {
        let is_flexible = version.0 >= Self::get_min_flexible_version().0;
        let ctx = Ctx::new(version, is_flexible);
        let throttle_time_ms = match buf.get_i32() { Ok(v) => v, Err(_) => { return Err(SerializationError::Decode("failed to decode ThrottleTimeMs")); } };
        let topics = match decode_array::<DescribeTopicPartitionsResponseTopic>(buf, Ctx { version: ctx.version, flexible: ctx.flexible, classic: false }) { Ok(v) => v, Err(_) => { return Err(SerializationError::Decode("failed to decode Topics")); } };
        let next_cursor = if ctx.flexible {
            let present = match decode_unsigned_varint(buf) {
                Ok((n, _)) => n,
                Err(_) => {
                    return Err(SerializationError::Decode("tagged field error"));
                },
            };
            if present == 0 {
                None
            } else {
                Some(match <Cursor as KafkaCodec>::decode_ctx(buf, Ctx { version: ctx.version, flexible: true, classic: false }) { Ok(v) => v, Err(_) => { return Err(SerializationError::Decode("failed to decode NextCursor")); } })
            }
        } else {
            Some(match <Cursor as KafkaCodec>::decode_ctx(buf, Ctx { version: ctx.version, flexible: false, classic: false }) { Ok(v) => v, Err(_) => { return Err(SerializationError::Decode("failed to decode NextCursor")); } })
        };
        Ok(DescribeTopicPartitionsResponse { throttle_time_ms, topics, next_cursor })
    }
}

// -------------------------------------------------------
// Cursor
// -------------------------------------------------------
#[derive(Clone, Debug, Default, PartialEq)]
pub struct Cursor {
    /// The name for the first topic to process.
    pub topic_name: String,
    /// The partition index to start with.
    pub partition_index: i32,
}

/// The contents of `Cursor`, with strings as characters and
/// nested values by their contents.
pub struct CursorModel {
    pub topic_name: Seq<char>,
    pub partition_index: i32,
}

impl DeepView for Cursor {
    type V = CursorModel;

    open spec fn deep_view(&self) -> CursorModel {
        CursorModel {
            topic_name: self.topic_name.deep_view(),
            partition_index: self.partition_index,
        }
    }
}

impl Cursor {
    /// The encoding of the structure in context `ctx`.
    pub open spec fn spec_encode_body(m: CursorModel, ctx: Ctx) -> Result<Seq<u8>, SerializationError> {
        let r = Ok(Seq::<u8>::empty());
        let r = then(r, map_encode_err(string_bytes(m.topic_name, ctx.flexible), SerializationError::ValueTooLarge { message: "failed to encode TopicName" }));
        let r = then(r, map_encode_err(Ok(i32_bytes(m.partition_index)), SerializationError::ValueTooLarge { message: "failed to encode PartitionIndex" }));
        let r = if ctx.flexible { then(r, Ok(uvarint_bytes(0))) } else { r };
        r
    }

    /// The structure read from `s` at `pos` in context `ctx`.
    pub open spec fn spec_decode_body(s: Seq<u8>, pos: int, ctx: Ctx) -> Result<(CursorModel, int), SerializationError> {
        match map_decode_err(parse_string(s, pos, ctx.flexible), SerializationError::Protocol { message: "failed to decode TopicName" }) {
            Err(e) => Err(e),
            Ok((topic_name, pos)) =>
            match map_decode_err(parse_i32(s, pos), SerializationError::Protocol { message: "failed to decode PartitionIndex" }) {
                Err(e) => Err(e),
                Ok((partition_index, pos)) =>
                match (if ctx.flexible { parse_uvarint(s, pos) } else { Ok((0u64, pos)) }) {
                    Err(e) => Err(e),
                    Ok((_tag_count, pos)) =>
                    Ok((CursorModel { topic_name, partition_index }, pos))
                }
            }
        }
    }

    /// Values of the structure that read back from their encoding in `ctx`: every
    /// field that the version leaves out holds its default, and nested values
    /// read back.
    pub open spec fn reads_back_body(m: CursorModel, ctx: Ctx) -> bool {
        true
    }

    /// A value that can be written in `ctx` and reads back: decoding its encoding,
    /// wherever it stands, gives the value and the position just after it.
    #[verifier::spinoff_prover]
    pub proof fn lemma_body_read_back(pre: Seq<u8>, m: CursorModel, post: Seq<u8>, ctx: Ctx)
        requires
            Self::spec_encode_body(m, ctx) is Ok,
            Self::reads_back_body(m, ctx),
        ensures
            Self::spec_decode_body(pre + Self::spec_encode_body(m, ctx)->Ok_0 + post, pre.len() as int, ctx) == Ok::<(CursorModel, int), SerializationError>((m, pre.len() as int + Self::spec_encode_body(m, ctx)->Ok_0.len())),
    {
        let b0 = (string_bytes(m.topic_name, ctx.flexible))->Ok_0;
        let b1 = i32_bytes(m.partition_index);
        let b2 = if ctx.flexible { uvarint_bytes(0) } else { Seq::<u8>::empty() };
        let t3 = post;
        let t2 = b2 + t3;
        let t1 = b1 + t2;
        let t0 = b0 + t1;
        let e = Self::spec_encode_body(m, ctx)->Ok_0;
        assert(e =~= Seq::<u8>::empty() + b0 + b1 + b2);
        lemma_seq_assoc(((Seq::<u8>::empty() + b0) + b1), b2, post);
        lemma_seq_assoc((Seq::<u8>::empty() + b0), b1, (b2 + post));
        lemma_seq_assoc(Seq::<u8>::empty(), b0, (b1 + (b2 + post)));
        lemma_seq_empty_left((b0 + (b1 + (b2 + post))));
        let s = pre + e + post;
        lemma_seq_assoc(pre, e, post);
        assert(s == pre + t0);
        let a0 = pre;
        assert(parse_string(s, a0.len() as int, ctx.flexible) == Ok::<(Seq<char>, int), SerializationError>((m.topic_name, a0.len() as int + b0.len()))) by {
            assert(string_bytes(m.topic_name, ctx.flexible) is Ok);
            lemma_seq_assoc(a0, b0, t1);
            lemma_string_roundtrip(a0, m.topic_name, t1, ctx.flexible);
        }
        lemma_seq_assoc(a0, b0, t1);
        let a1 = a0 + b0;
        assert(parse_i32(s, a1.len() as int) == Ok::<(i32, int), SerializationError>((m.partition_index, a1.len() as int + b1.len()))) by {
            lemma_seq_assoc(a1, b1, t2);
            lemma_i32_roundtrip(a1, m.partition_index, t2);
        }
        lemma_seq_assoc(a1, b1, t2);
        let a2 = a1 + b1;
        if ctx.flexible {
            assert(parse_uvarint(s, a2.len() as int) == Ok::<(u64, int), SerializationError>((0u64, a2.len() as int + b2.len()))) by {
                lemma_seq_assoc(a2, b2, t3);
                lemma_uvarint_roundtrip(a2, 0, t3);
            }
        }
    }

    /// The bytes written: the encoding of each field, in the order of the
    /// protocol's layout. Reading them back, wherever they stand, gives the value,
    /// with each field that the version leaves out at its default.
    #[verifier::spinoff_prover]
    pub proof fn lemma_body_layout(pre: Seq<u8>, m: CursorModel, post: Seq<u8>, ctx: Ctx)
        requires
            Self::spec_encode_body(m, ctx) is Ok,
        ensures
            Self::spec_encode_body(m, ctx) == Ok::<Seq<u8>, SerializationError>(((string_bytes(m.topic_name, ctx.flexible))->Ok_0) + (i32_bytes(m.partition_index)) + (if ctx.flexible { uvarint_bytes(0) } else { Seq::<u8>::empty() })),
            Self::reads_back_body(m, ctx) ==> Self::spec_decode_body(pre + (((string_bytes(m.topic_name, ctx.flexible))->Ok_0) + (i32_bytes(m.partition_index)) + (if ctx.flexible { uvarint_bytes(0) } else { Seq::<u8>::empty() })) + post, pre.len() as int, ctx) == Ok::<(CursorModel, int), SerializationError>((m, pre.len() as int + (((string_bytes(m.topic_name, ctx.flexible))->Ok_0) + (i32_bytes(m.partition_index)) + (if ctx.flexible { uvarint_bytes(0) } else { Seq::<u8>::empty() })).len())),
    {
        let b0 = (string_bytes(m.topic_name, ctx.flexible))->Ok_0;
        let b1 = i32_bytes(m.partition_index);
        let b2 = if ctx.flexible { uvarint_bytes(0) } else { Seq::<u8>::empty() };
        let e = Self::spec_encode_body(m, ctx)->Ok_0;
        assert(e =~= Seq::<u8>::empty() + b0 + b1 + b2);
        assert(e =~= b0 + b1 + b2);
        if Self::reads_back_body(m, ctx) {
            Self::lemma_body_read_back(pre, m, post, ctx);
        }
    }

    /// Writing succeeds exactly when every field that the version carries can be
    /// encoded and every field that it leaves out, where leaving it out is an
    /// error, holds its default.
    #[verifier::spinoff_prover]
    pub proof fn lemma_body_write_succeeds(m: CursorModel, ctx: Ctx)
        ensures
            Self::spec_encode_body(m, ctx) is Ok <==> (map_encode_err(string_bytes(m.topic_name, ctx.flexible), SerializationError::ValueTooLarge { message: "failed to encode TopicName" }) is Ok) && (map_encode_err(Ok(i32_bytes(m.partition_index)), SerializationError::ValueTooLarge { message: "failed to encode PartitionIndex" }) is Ok),
    {
    }

    /// Writes the structure for `version`, with the compact encodings when `is_flexible`.
    /// On failure the buffer is left as it was.
    pub fn encode(&self, buf: &mut Vec<u8>, version: ApiVersion, is_flexible: bool) -> (r: Result<(), SerializationError>)
        ensures
            write_exact(r, old(buf)@, final(buf)@, Self::spec_encode_body(self.deep_view(), Ctx { version: version.0, flexible: is_flexible, classic: false })),
    {
        let start = buf.len();
        let r = self.encode_ctx(buf, Ctx::new(version, is_flexible));
        if r.is_err() {
            buf.truncate(start);
        }
        r
    }

    /// Reads the structure as written for `version`.
    /// On failure the reader is put back where it started.
    pub fn decode(buf: &mut Reader, version: ApiVersion, is_flexible: bool) -> (r: Result<Self, SerializationError>)
        ensures
            final(buf).bytes() == old(buf).bytes(),
            read_view_exact(r, Self::spec_decode_body(old(buf).bytes(), old(buf).pos(), Ctx { version: version.0, flexible: is_flexible, classic: false }), old(buf).pos(), final(buf).pos()),
    {
        let start = buf.position();
        let r = Self::decode_ctx(buf, Ctx::new(version, is_flexible));
        if r.is_err() {
            buf.set_position(start);
        }
        r
    }
}

impl KafkaCodec for Cursor {
    open spec fn spec_encode(m: CursorModel, ctx: Ctx) -> Result<Seq<u8>, SerializationError> {
        Self::spec_encode_body(m, ctx)
    }

    open spec fn spec_decode(s: Seq<u8>, pos: int, ctx: Ctx) -> Result<(CursorModel, int), SerializationError> {
        Self::spec_decode_body(s, pos, ctx)
    }

    open spec fn reads_back(v: CursorModel, ctx: Ctx) -> bool {
        Self::reads_back_body(v, ctx)
    }

    proof fn lemma_read_back(pre: Seq<u8>, v: CursorModel, post: Seq<u8>, ctx: Ctx) {
        Self::lemma_body_read_back(pre, v, post, ctx);
        assert(Self::spec_decode(pre + Self::spec_encode(v, ctx)->Ok_0 + post, pre.len() as int, ctx)
            == Self::spec_decode_body(pre + Self::spec_encode_body(v, ctx)->Ok_0 + post, pre.len() as int, ctx));
    }

    fn encode_ctx(&self, buf: &mut Vec<u8>, ctx: Ctx) -> (r: Result<(), SerializationError>) {
        let ghost mut w: Seq<u8> = Seq::empty();
        match encode_string(&self.topic_name, buf, ctx.flexible) {
            Ok(()) => {},
            Err(_) => {
                return Err(SerializationError::ValueTooLarge { message: "failed to encode TopicName" });
            },
        }
        proof {
            w = w + (map_encode_err(string_bytes(self.topic_name.deep_view(), ctx.flexible), SerializationError::ValueTooLarge { message: "failed to encode TopicName" }))->Ok_0;
        }
        assert(buf@ =~= old(buf)@ + w);
        put_i32(buf, self.partition_index);
        proof {
            w = w + (map_encode_err(Ok(i32_bytes(self.partition_index)), SerializationError::ValueTooLarge { message: "failed to encode PartitionIndex" }))->Ok_0;
        }
        assert(buf@ =~= old(buf)@ + w);
        if ctx.flexible {
            encode_unsigned_varint(0, buf);
            proof {
                w = w + uvarint_bytes(0);
            }
            assert(buf@ =~= old(buf)@ + w);
        }
        Ok(())
    }

    fn decode_ctx(buf: &mut Reader, ctx: Ctx) -> (r: Result<Self, SerializationError>) {
        let topic_name = match buf.get_string(ctx.flexible) { Ok(v) => v, Err(_) => { return Err(SerializationError::Protocol { message: "failed to decode TopicName" }); } };
        let partition_index = match buf.get_i32() { Ok(v) => v, Err(_) => { return Err(SerializationError::Protocol { message: "failed to decode PartitionIndex" }); } };
        if ctx.flexible {
            let (_tag_count, _) = decode_unsigned_varint(buf)?;
        }
        Ok(Cursor { topic_name, partition_index })
    }
}

// -------------------------------------------------------
// DescribeTopicPartitionsResponsePartition
// -------------------------------------------------------
#[derive(Clone, Debug, Default, PartialEq)]
pub struct DescribeTopicPartitionsResponsePartition {
    /// The partition error, or 0 if there was no error.
    pub error_code: i16,
    /// The partition index.
    pub partition_index: i32,
    /// The ID of the leader broker.
    pub leader_id: i32,
    /// The leader epoch of this partition.
    pub leader_epoch: i32,
    /// The set of all nodes that host this partition.
    pub replica_nodes: Vec<i32>,
    /// The set of nodes that are in sync with the leader for this partition.
    pub isr_nodes: Vec<i32>,
    /// The new eligible leader replicas otherwise.
    pub eligible_leader_replicas: Option<Vec<i32>>,
    /// The last known ELR.
    pub last_known_elr: Option<Vec<i32>>,
    /// The set of offline replicas of this partition.
    pub offline_replicas: Vec<i32>,
}

/// The contents of `DescribeTopicPartitionsResponsePartition`, with strings as characters and
/// nested values by their contents.
pub struct DescribeTopicPartitionsResponsePartitionModel {
    pub error_code: i16,
    pub partition_index: i32,
    pub leader_id: i32,
    pub leader_epoch: i32,
    pub replica_nodes: Seq<<i32 as DeepView>::V>,
    pub isr_nodes: Seq<<i32 as DeepView>::V>,
    pub eligible_leader_replicas: Option<Seq<<i32 as DeepView>::V>>,
    pub last_known_elr: Option<Seq<<i32 as DeepView>::V>>,
    pub offline_replicas: Seq<<i32 as DeepView>::V>,
}

impl DeepView for DescribeTopicPartitionsResponsePartition {
    type V = DescribeTopicPartitionsResponsePartitionModel;

    open spec fn deep_view(&self) -> DescribeTopicPartitionsResponsePartitionModel {
        DescribeTopicPartitionsResponsePartitionModel {
            error_code: self.error_code,
            partition_index: self.partition_index,
            leader_id: self.leader_id,
            leader_epoch: self.leader_epoch,
            replica_nodes: self.replica_nodes.deep_view(),
            isr_nodes: self.isr_nodes.deep_view(),
            eligible_leader_replicas: self.eligible_leader_replicas.deep_view(),
            last_known_elr: self.last_known_elr.deep_view(),
            offline_replicas: self.offline_replicas.deep_view(),
        }
    }
}

impl DescribeTopicPartitionsResponsePartition {
    /// Fields 1 to 5 of the encoding.
    pub open spec fn spec_encode_body_part1(m: DescribeTopicPartitionsResponsePartitionModel, ctx: Ctx) -> Result<Seq<u8>, SerializationError> {
        let r = Ok(Seq::<u8>::empty());
        let r = then(r, map_encode_err(Ok(i16_bytes(m.error_code)), SerializationError::ValueTooLarge { message: "failed to encode ErrorCode" }));
        let r = then(r, map_encode_err(Ok(i32_bytes(m.partition_index)), SerializationError::ValueTooLarge { message: "failed to encode PartitionIndex" }));
        let r = then(r, map_encode_err(Ok(i32_bytes(m.leader_id)), SerializationError::ValueTooLarge { message: "failed to encode LeaderId" }));
        let r = then(r, map_encode_err(Ok(i32_bytes(m.leader_epoch)), SerializationError::ValueTooLarge { message: "failed to encode LeaderEpoch" }));
        let r = then(r, map_encode_err(array_bytes::<i32>(m.replica_nodes, Ctx { version: ctx.version, flexible: ctx.flexible, classic: false }), SerializationError::ValueTooLarge { message: "failed to encode ReplicaNodes" }));
        r
    }

    #[verifier::spinoff_prover]
    fn encode_body_part1(&self, buf: &mut Vec<u8>, ctx: Ctx) -> (r: Result<(), SerializationError>)
        ensures
            write_ok(r, old(buf)@, final(buf)@, Self::spec_encode_body_part1(self.deep_view(), ctx)),
    {
        let ghost mut w: Seq<u8> = Seq::empty();
        put_i16(buf, self.error_code);
        proof {
            w = w + (map_encode_err(Ok(i16_bytes(self.error_code)), SerializationError::ValueTooLarge { message: "failed to encode ErrorCode" }))->Ok_0;
        }
        assert(buf@ =~= old(buf)@ + w);
        put_i32(buf, self.partition_index);
        proof {
            w = w + (map_encode_err(Ok(i32_bytes(self.partition_index)), SerializationError::ValueTooLarge { message: "failed to encode PartitionIndex" }))->Ok_0;
        }
        assert(buf@ =~= old(buf)@ + w);
        put_i32(buf, self.leader_id);
        proof {
            w = w + (map_encode_err(Ok(i32_bytes(self.leader_id)), SerializationError::ValueTooLarge { message: "failed to encode LeaderId" }))->Ok_0;
        }
        assert(buf@ =~= old(buf)@ + w);
        put_i32(buf, self.leader_epoch);
        proof {
            w = w + (map_encode_err(Ok(i32_bytes(self.leader_epoch)), SerializationError::ValueTooLarge { message: "failed to encode LeaderEpoch" }))->Ok_0;
        }
        assert(buf@ =~= old(buf)@ + w);
        match encode_array(&self.replica_nodes, buf, Ctx { version: ctx.version, flexible: ctx.flexible, classic: false }) {
            Ok(()) => {},
            Err(_) => {
                return Err(SerializationError::ValueTooLarge { message: "failed to encode ReplicaNodes" });
            },
        }
        proof {
            w = w + (map_encode_err(array_bytes::<i32>(self.replica_nodes.deep_view(), Ctx { version: ctx.version, flexible: ctx.flexible, classic: false }), SerializationError::ValueTooLarge { message: "failed to encode ReplicaNodes" }))->Ok_0;
        }
        assert(buf@ =~= old(buf)@ + w);
        Ok(())
    }

    /// Fields 6 to 10 of the encoding.
    pub open spec fn spec_encode_body_part2(m: DescribeTopicPartitionsResponsePartitionModel, ctx: Ctx) -> Result<Seq<u8>, SerializationError> {
        let r = Ok(Seq::<u8>::empty());
        let r = then(r, map_encode_err(array_bytes::<i32>(m.isr_nodes, Ctx { version: ctx.version, flexible: ctx.flexible, classic: false }), SerializationError::ValueTooLarge { message: "failed to encode IsrNodes" }));
        let r = then(r, map_encode_err(nullable_array_bytes::<i32>(m.eligible_leader_replicas, Ctx { version: ctx.version, flexible: ctx.flexible, classic: false }), SerializationError::ValueTooLarge { message: "failed to encode EligibleLeaderReplicas" }));
        let r = then(r, map_encode_err(nullable_array_bytes::<i32>(m.last_known_elr, Ctx { version: ctx.version, flexible: ctx.flexible, classic: false }), SerializationError::ValueTooLarge { message: "failed to encode LastKnownElr" }));
        let r = then(r, map_encode_err(array_bytes::<i32>(m.offline_replicas, Ctx { version: ctx.version, flexible: ctx.flexible, classic: false }), SerializationError::ValueTooLarge { message: "failed to encode OfflineReplicas" }));
        let r = if ctx.flexible { then(r, Ok(uvarint_bytes(0))) } else { r };
        r
    }

    #[verifier::spinoff_prover]
    fn encode_body_part2(&self, buf: &mut Vec<u8>, ctx: Ctx) -> (r: Result<(), SerializationError>)
        ensures
            write_ok(r, old(buf)@, final(buf)@, Self::spec_encode_body_part2(self.deep_view(), ctx)),
    {
        let ghost mut w: Seq<u8> = Seq::empty();
        match encode_array(&self.isr_nodes, buf, Ctx { version: ctx.version, flexible: ctx.flexible, classic: false }) {
            Ok(()) => {},
            Err(_) => {
                return Err(SerializationError::ValueTooLarge { message: "failed to encode IsrNodes" });
            },
        }
        proof {
            w = w + (map_encode_err(array_bytes::<i32>(self.isr_nodes.deep_view(), Ctx { version: ctx.version, flexible: ctx.flexible, classic: false }), SerializationError::ValueTooLarge { message: "failed to encode IsrNodes" }))->Ok_0;
        }
        assert(buf@ =~= old(buf)@ + w);
        match encode_nullable_array(&self.eligible_leader_replicas, buf, Ctx { version: ctx.version, flexible: ctx.flexible, classic: false }) {
            Ok(()) => {},
            Err(_) => {
                return Err(SerializationError::ValueTooLarge { message: "failed to encode EligibleLeaderReplicas" });
            },
        }
        proof {
            w = w + (map_encode_err(nullable_array_bytes::<i32>(self.eligible_leader_replicas.deep_view(), Ctx { version: ctx.version, flexible: ctx.flexible, classic: false }), SerializationError::ValueTooLarge { message: "failed to encode EligibleLeaderReplicas" }))->Ok_0;
        }
        assert(buf@ =~= old(buf)@ + w);
        match encode_nullable_array(&self.last_known_elr, buf, Ctx { version: ctx.version, flexible: ctx.flexible, classic: false }) {
            Ok(()) => {},
            Err(_) => {
                return Err(SerializationError::ValueTooLarge { message: "failed to encode LastKnownElr" });
            },
        }
        proof {
            w = w + (map_encode_err(nullable_array_bytes::<i32>(self.last_known_elr.deep_view(), Ctx { version: ctx.version, flexible: ctx.flexible, classic: false }), SerializationError::ValueTooLarge { message: "failed to encode LastKnownElr" }))->Ok_0;
        }
        assert(buf@ =~= old(buf)@ + w);
        match encode_array(&self.offline_replicas, buf, Ctx { version: ctx.version, flexible: ctx.flexible, classic: false }) {
            Ok(()) => {},
            Err(_) => {
                return Err(SerializationError::ValueTooLarge { message: "failed to encode OfflineReplicas" });
            },
        }
        proof {
            w = w + (map_encode_err(array_bytes::<i32>(self.offline_replicas.deep_view(), Ctx { version: ctx.version, flexible: ctx.flexible, classic: false }), SerializationError::ValueTooLarge { message: "failed to encode OfflineReplicas" }))->Ok_0;
        }
        assert(buf@ =~= old(buf)@ + w);
        if ctx.flexible {
            encode_unsigned_varint(0, buf);
            proof {
                w = w + uvarint_bytes(0);
            }
            assert(buf@ =~= old(buf)@ + w);
        }
        Ok(())
    }

    /// The encoding of the structure in context `ctx`.
    pub open spec fn spec_encode_body(m: DescribeTopicPartitionsResponsePartitionModel, ctx: Ctx) -> Result<Seq<u8>, SerializationError> {
        let r = Ok(Seq::<u8>::empty());
        let r = then(r, Self::spec_encode_body_part1(m, ctx));
        let r = then(r, Self::spec_encode_body_part2(m, ctx));
        r
    }

    /// The structure read from `s` at `pos` in context `ctx`.
    pub open spec fn spec_decode_body(s: Seq<u8>, pos: int, ctx: Ctx) -> Result<(DescribeTopicPartitionsResponsePartitionModel, int), SerializationError> {
        match map_decode_err(parse_i16(s, pos), SerializationError::Protocol { message: "failed to decode ErrorCode" }) {
            Err(e) => Err(e),
            Ok((error_code, pos)) =>
            match map_decode_err(parse_i32(s, pos), SerializationError::Protocol { message: "failed to decode PartitionIndex" }) {
                Err(e) => Err(e),
                Ok((partition_index, pos)) =>
                match map_decode_err(parse_i32(s, pos), SerializationError::Protocol { message: "failed to decode LeaderId" }) {
                    Err(e) => Err(e),
                    Ok((leader_id, pos)) =>
                    match map_decode_err(parse_i32(s, pos), SerializationError::Protocol { message: "failed to decode LeaderEpoch" }) {
                        Err(e) => Err(e),
                        Ok((leader_epoch, pos)) =>
                        match map_decode_err(parse_array::<i32>(s, pos, Ctx { version: ctx.version, flexible: ctx.flexible, classic: false }), SerializationError::Protocol { message: "failed to decode ReplicaNodes" }) {
                            Err(e) => Err(e),
                            Ok((replica_nodes, pos)) =>
                            match map_decode_err(parse_array::<i32>(s, pos, Ctx { version: ctx.version, flexible: ctx.flexible, classic: false }), SerializationError::Protocol { message: "failed to decode IsrNodes" }) {
                                Err(e) => Err(e),
                                Ok((isr_nodes, pos)) =>
                                match map_decode_err(parse_nullable_array::<i32>(s, pos, Ctx { version: ctx.version, flexible: ctx.flexible, classic: false }), SerializationError::Protocol { message: "failed to decode EligibleLeaderReplicas" }) {
                                    Err(e) => Err(e),
                                    Ok((eligible_leader_replicas, pos)) =>
                                    match map_decode_err(parse_nullable_array::<i32>(s, pos, Ctx { version: ctx.version, flexible: ctx.flexible, classic: false }), SerializationError::Protocol { message: "failed to decode LastKnownElr" }) {
                                        Err(e) => Err(e),
                                        Ok((last_known_elr, pos)) =>
                                        match map_decode_err(parse_array::<i32>(s, pos, Ctx { version: ctx.version, flexible: ctx.flexible, classic: false }), SerializationError::Protocol { message: "failed to decode OfflineReplicas" }) {
                                            Err(e) => Err(e),
                                            Ok((offline_replicas, pos)) =>
                                            match (if ctx.flexible { parse_uvarint(s, pos) } else { Ok((0u64, pos)) }) {
                                                Err(e) => Err(e),
                                                Ok((_tag_count, pos)) =>
                                                Ok((DescribeTopicPartitionsResponsePartitionModel { error_code, partition_index, leader_id, leader_epoch, replica_nodes, isr_nodes, eligible_leader_replicas, last_known_elr, offline_replicas }, pos))
                                            }
                                        }
                                    }
                                }
                            }
                        }
                    }
                }
            }
        }
    }

    /// Values of the structure that read back from their encoding in `ctx`: every
    /// field that the version leaves out holds its default, and nested values
    /// read back.
    pub open spec fn reads_back_body(m: DescribeTopicPartitionsResponsePartitionModel, ctx: Ctx) -> bool {
        &&& forall|i: int| 0 <= i < m.replica_nodes.len() ==> #[trigger] <i32 as KafkaCodec>::reads_back(m.replica_nodes[i], Ctx { version: ctx.version, flexible: ctx.flexible, classic: false })
        &&& forall|i: int| 0 <= i < m.isr_nodes.len() ==> #[trigger] <i32 as KafkaCodec>::reads_back(m.isr_nodes[i], Ctx { version: ctx.version, flexible: ctx.flexible, classic: false })
        &&& (m.eligible_leader_replicas matches Some(items) ==> forall|i: int| 0 <= i < items.len() ==> #[trigger] <i32 as KafkaCodec>::reads_back(items[i], Ctx { version: ctx.version, flexible: ctx.flexible, classic: false }))
        &&& (m.last_known_elr matches Some(items) ==> forall|i: int| 0 <= i < items.len() ==> #[trigger] <i32 as KafkaCodec>::reads_back(items[i], Ctx { version: ctx.version, flexible: ctx.flexible, classic: false }))
        &&& forall|i: int| 0 <= i < m.offline_replicas.len() ==> #[trigger] <i32 as KafkaCodec>::reads_back(m.offline_replicas[i], Ctx { version: ctx.version, flexible: ctx.flexible, classic: false })
    }

    /// A value that can be written in `ctx` and reads back: decoding its encoding,
    /// wherever it stands, gives the value and the position just after it.
    #[verifier::spinoff_prover]
    pub proof fn lemma_body_read_back(pre: Seq<u8>, m: DescribeTopicPartitionsResponsePartitionModel, post: Seq<u8>, ctx: Ctx)
        requires
            Self::spec_encode_body(m, ctx) is Ok,
            Self::reads_back_body(m, ctx),
        ensures
            Self::spec_decode_body(pre + Self::spec_encode_body(m, ctx)->Ok_0 + post, pre.len() as int, ctx) == Ok::<(DescribeTopicPartitionsResponsePartitionModel, int), SerializationError>((m, pre.len() as int + Self::spec_encode_body(m, ctx)->Ok_0.len())),
    {
        let b0 = i16_bytes(m.error_code);
        let b1 = i32_bytes(m.partition_index);
        let b2 = i32_bytes(m.leader_id);
        let b3 = i32_bytes(m.leader_epoch);
        let b4 = (array_bytes::<i32>(m.replica_nodes, Ctx { version: ctx.version, flexible: ctx.flexible, classic: false }))->Ok_0;
        let b5 = (array_bytes::<i32>(m.isr_nodes, Ctx { version: ctx.version, flexible: ctx.flexible, classic: false }))->Ok_0;
        let b6 = (nullable_array_bytes::<i32>(m.eligible_leader_replicas, Ctx { version: ctx.version, flexible: ctx.flexible, classic: false }))->Ok_0;
        let b7 = (nullable_array_bytes::<i32>(m.last_known_elr, Ctx { version: ctx.version, flexible: ctx.flexible, classic: false }))->Ok_0;
        let b8 = (array_bytes::<i32>(m.offline_replicas, Ctx { version: ctx.version, flexible: ctx.flexible, classic: false }))->Ok_0;
        let b9 = if ctx.flexible { uvarint_bytes(0) } else { Seq::<u8>::empty() };
        let t10 = post;
        let t9 = b9 + t10;
        let t8 = b8 + t9;
        let t7 = b7 + t8;
        let t6 = b6 + t7;
        let t5 = b5 + t6;
        let t4 = b4 + t5;
        let t3 = b3 + t4;
        let t2 = b2 + t3;
        let t1 = b1 + t2;
        let t0 = b0 + t1;
        let e = Self::spec_encode_body(m, ctx)->Ok_0;
        let p1 = Self::spec_encode_body_part1(m, ctx)->Ok_0;
        assert(p1 =~= Seq::<u8>::empty() + b0 + b1 + b2 + b3 + b4);
        lemma_seq_assoc(((((Seq::<u8>::empty() + b0) + b1) + b2) + b3), b4, t5);
        lemma_seq_assoc((((Seq::<u8>::empty() + b0) + b1) + b2), b3, (b4 + t5));
        lemma_seq_assoc(((Seq::<u8>::empty() + b0) + b1), b2, (b3 + (b4 + t5)));
        lemma_seq_assoc((Seq::<u8>::empty() + b0), b1, (b2 + (b3 + (b4 + t5))));
        lemma_seq_assoc(Seq::<u8>::empty(), b0, (b1 + (b2 + (b3 + (b4 + t5)))));
        lemma_seq_empty_left((b0 + (b1 + (b2 + (b3 + (b4 + t5))))));
        let p2 = Self::spec_encode_body_part2(m, ctx)->Ok_0;
        assert(p2 =~= Seq::<u8>::empty() + b5 + b6 + b7 + b8 + b9);
        lemma_seq_assoc(((((Seq::<u8>::empty() + b5) + b6) + b7) + b8), b9, t10);
        lemma_seq_assoc((((Seq::<u8>::empty() + b5) + b6) + b7), b8, (b9 + t10));
        lemma_seq_assoc(((Seq::<u8>::empty() + b5) + b6), b7, (b8 + (b9 + t10)));
        lemma_seq_assoc((Seq::<u8>::empty() + b5), b6, (b7 + (b8 + (b9 + t10))));
        lemma_seq_assoc(Seq::<u8>::empty(), b5, (b6 + (b7 + (b8 + (b9 + t10)))));
        lemma_seq_empty_left((b5 + (b6 + (b7 + (b8 + (b9 + t10))))));
        assert(e == Seq::<u8>::empty() + p1 + p2);
        lemma_seq_assoc((Seq::<u8>::empty() + p1), p2, t10);
        lemma_seq_assoc(Seq::<u8>::empty(), p1, (p2 + t10));
        lemma_seq_empty_left((p1 + (p2 + t10)));
        let s = pre + e + post;
        lemma_seq_assoc(pre, e, post);
        assert(s == pre + t0);
        let a0 = pre;
        assert(parse_i16(s, a0.len() as int) == Ok::<(i16, int), SerializationError>((m.error_code, a0.len() as int + b0.len()))) by {
            lemma_seq_assoc(a0, b0, t1);
            lemma_i16_roundtrip(a0, m.error_code, t1);
        }
        lemma_seq_assoc(a0, b0, t1);
        let a1 = a0 + b0;
        assert(parse_i32(s, a1.len() as int) == Ok::<(i32, int), SerializationError>((m.partition_index, a1.len() as int + b1.len()))) by {
            lemma_seq_assoc(a1, b1, t2);
            lemma_i32_roundtrip(a1, m.partition_index, t2);
        }
        lemma_seq_assoc(a1, b1, t2);
        let a2 = a1 + b1;
        assert(parse_i32(s, a2.len() as int) == Ok::<(i32, int), SerializationError>((m.leader_id, a2.len() as int + b2.len()))) by {
            lemma_seq_assoc(a2, b2, t3);
            lemma_i32_roundtrip(a2, m.leader_id, t3);
        }
        lemma_seq_assoc(a2, b2, t3);
        let a3 = a2 + b2;
        assert(parse_i32(s, a3.len() as int) == Ok::<(i32, int), SerializationError>((m.leader_epoch, a3.len() as int + b3.len()))) by {
            lemma_seq_assoc(a3, b3, t4);
            lemma_i32_roundtrip(a3, m.leader_epoch, t4);
        }
        lemma_seq_assoc(a3, b3, t4);
        let a4 = a3 + b3;
        assert(parse_array::<i32>(s, a4.len() as int, Ctx { version: ctx.version, flexible: ctx.flexible, classic: false }) == Ok::<(Seq<<i32 as DeepView>::V>, int), SerializationError>((m.replica_nodes, a4.len() as int + b4.len()))) by {
            assert(array_bytes::<i32>(m.replica_nodes, Ctx { version: ctx.version, flexible: ctx.flexible, classic: false }) is Ok);
            lemma_seq_assoc(a4, b4, t5);
            lemma_items_read_back::<i32>(m.replica_nodes, Ctx { version: ctx.version, flexible: ctx.flexible, classic: false });
            lemma_array_roundtrip::<i32>(a4, m.replica_nodes, t5, Ctx { version: ctx.version, flexible: ctx.flexible, classic: false });
        }
        lemma_seq_assoc(a4, b4, t5);
        let a5 = a4 + b4;
        assert(parse_array::<i32>(s, a5.len() as int, Ctx { version: ctx.version, flexible: ctx.flexible, classic: false }) == Ok::<(Seq<<i32 as DeepView>::V>, int), SerializationError>((m.isr_nodes, a5.len() as int + b5.len()))) by {
            assert(array_bytes::<i32>(m.isr_nodes, Ctx { version: ctx.version, flexible: ctx.flexible, classic: false }) is Ok);
            lemma_seq_assoc(a5, b5, t6);
            lemma_items_read_back::<i32>(m.isr_nodes, Ctx { version: ctx.version, flexible: ctx.flexible, classic: false });
            lemma_array_roundtrip::<i32>(a5, m.isr_nodes, t6, Ctx { version: ctx.version, flexible: ctx.flexible, classic: false });
        }
        lemma_seq_assoc(a5, b5, t6);
        let a6 = a5 + b5;
        assert(parse_nullable_array::<i32>(s, a6.len() as int, Ctx { version: ctx.version, flexible: ctx.flexible, classic: false }) == Ok::<(Option<Seq<<i32 as DeepView>::V>>, int), SerializationError>((m.eligible_leader_replicas, a6.len() as int + b6.len()))) by {
            assert(nullable_array_bytes::<i32>(m.eligible_leader_replicas, Ctx { version: ctx.version, flexible: ctx.flexible, classic: false }) is Ok);
            lemma_seq_assoc(a6, b6, t7);
            if let Some(items) = m.eligible_leader_replicas {
                lemma_items_read_back::<i32>(items, Ctx { version: ctx.version, flexible: ctx.flexible, classic: false });
            }
            lemma_nullable_array_roundtrip::<i32>(a6, m.eligible_leader_replicas, t7, Ctx { version: ctx.version, flexible: ctx.flexible, classic: false });
        }
        lemma_seq_assoc(a6, b6, t7);
        let a7 = a6 + b6;
        assert(parse_nullable_array::<i32>(s, a7.len() as int, Ctx { version: ctx.version, flexible: ctx.flexible, classic: false }) == Ok::<(Option<Seq<<i32 as DeepView>::V>>, int), SerializationError>((m.last_known_elr, a7.len() as int + b7.len()))) by {
            assert(nullable_array_bytes::<i32>(m.last_known_elr, Ctx { version: ctx.version, flexible: ctx.flexible, classic: false }) is Ok);
            lemma_seq_assoc(a7, b7, t8);
            if let Some(items) = m.last_known_elr {
                lemma_items_read_back::<i32>(items, Ctx { version: ctx.version, flexible: ctx.flexible, classic: false });
            }
            lemma_nullable_array_roundtrip::<i32>(a7, m.last_known_elr, t8, Ctx { version: ctx.version, flexible: ctx.flexible, classic: false });
        }
        lemma_seq_assoc(a7, b7, t8);
        let a8 = a7 + b7;
        assert(parse_array::<i32>(s, a8.len() as int, Ctx { version: ctx.version, flexible: ctx.flexible, classic: false }) == Ok::<(Seq<<i32 as DeepView>::V>, int), SerializationError>((m.offline_replicas, a8.len() as int + b8.len()))) by {
            assert(array_bytes::<i32>(m.offline_replicas, Ctx { version: ctx.version, flexible: ctx.flexible, classic: false }) is Ok);
            lemma_seq_assoc(a8, b8, t9);
            lemma_items_read_back::<i32>(m.offline_replicas, Ctx { version: ctx.version, flexible: ctx.flexible, classic: false });
            lemma_array_roundtrip::<i32>(a8, m.offline_replicas, t9, Ctx { version: ctx.version, flexible: ctx.flexible, classic: false });
        }
        lemma_seq_assoc(a8, b8, t9);
        let a9 = a8 + b8;
        if ctx.flexible {
            assert(parse_uvarint(s, a9.len() as int) == Ok::<(u64, int), SerializationError>((0u64, a9.len() as int + b9.len()))) by {
                lemma_seq_assoc(a9, b9, t10);
                lemma_uvarint_roundtrip(a9, 0, t10);
            }
        }
    }

    /// The bytes written: the encoding of each field, in the order of the
    /// protocol's layout. Reading them back, wherever they stand, gives the value,
    /// with each field that the version leaves out at its default.
    #[verifier::spinoff_prover]
    pub proof fn lemma_body_layout(pre: Seq<u8>, m: DescribeTopicPartitionsResponsePartitionModel, post: Seq<u8>, ctx: Ctx)
        requires
            Self::spec_encode_body(m, ctx) is Ok,
        ensures
            Self::spec_encode_body(m, ctx) == Ok::<Seq<u8>, SerializationError>((i16_bytes(m.error_code)) + (i32_bytes(m.partition_index)) + (i32_bytes(m.leader_id)) + (i32_bytes(m.leader_epoch)) + ((array_bytes::<i32>(m.replica_nodes, Ctx { version: ctx.version, flexible: ctx.flexible, classic: false }))->Ok_0) + ((array_bytes::<i32>(m.isr_nodes, Ctx { version: ctx.version, flexible: ctx.flexible, classic: false }))->Ok_0) + ((nullable_array_bytes::<i32>(m.eligible_leader_replicas, Ctx { version: ctx.version, flexible: ctx.flexible, classic: false }))->Ok_0) + ((nullable_array_bytes::<i32>(m.last_known_elr, Ctx { version: ctx.version, flexible: ctx.flexible, classic: false }))->Ok_0) + ((array_bytes::<i32>(m.offline_replicas, Ctx { version: ctx.version, flexible: ctx.flexible, classic: false }))->Ok_0) + (if ctx.flexible { uvarint_bytes(0) } else { Seq::<u8>::empty() })),
            Self::reads_back_body(m, ctx) ==> Self::spec_decode_body(pre + ((i16_bytes(m.error_code)) + (i32_bytes(m.partition_index)) + (i32_bytes(m.leader_id)) + (i32_bytes(m.leader_epoch)) + ((array_bytes::<i32>(m.replica_nodes, Ctx { version: ctx.version, flexible: ctx.flexible, classic: false }))->Ok_0) + ((array_bytes::<i32>(m.isr_nodes, Ctx { version: ctx.version, flexible: ctx.flexible, classic: false }))->Ok_0) + ((nullable_array_bytes::<i32>(m.eligible_leader_replicas, Ctx { version: ctx.version, flexible: ctx.flexible, classic: false }))->Ok_0) + ((nullable_array_bytes::<i32>(m.last_known_elr, Ctx { version: ctx.version, flexible: ctx.flexible, classic: false }))->Ok_0) + ((array_bytes::<i32>(m.offline_replicas, Ctx { version: ctx.version, flexible: ctx.flexible, classic: false }))->Ok_0) + (if ctx.flexible { uvarint_bytes(0) } else { Seq::<u8>::empty() })) + post, pre.len() as int, ctx) == Ok::<(DescribeTopicPartitionsResponsePartitionModel, int), SerializationError>((m, pre.len() as int + ((i16_bytes(m.error_code)) + (i32_bytes(m.partition_index)) + (i32_bytes(m.leader_id)) + (i32_bytes(m.leader_epoch)) + ((array_bytes::<i32>(m.replica_nodes, Ctx { version: ctx.version, flexible: ctx.flexible, classic: false }))->Ok_0) + ((array_bytes::<i32>(m.isr_nodes, Ctx { version: ctx.version, flexible: ctx.flexible, classic: false }))->Ok_0) + ((nullable_array_bytes::<i32>(m.eligible_leader_replicas, Ctx { version: ctx.version, flexible: ctx.flexible, classic: false }))->Ok_0) + ((nullable_array_bytes::<i32>(m.last_known_elr, Ctx { version: ctx.version, flexible: ctx.flexible, classic: false }))->Ok_0) + ((array_bytes::<i32>(m.offline_replicas, Ctx { version: ctx.version, flexible: ctx.flexible, classic: false }))->Ok_0) + (if ctx.flexible { uvarint_bytes(0) } else { Seq::<u8>::empty() })).len())),
    {
        let b0 = i16_bytes(m.error_code);
        let b1 = i32_bytes(m.partition_index);
        let b2 = i32_bytes(m.leader_id);
        let b3 = i32_bytes(m.leader_epoch);
        let b4 = (array_bytes::<i32>(m.replica_nodes, Ctx { version: ctx.version, flexible: ctx.flexible, classic: false }))->Ok_0;
        let b5 = (array_bytes::<i32>(m.isr_nodes, Ctx { version: ctx.version, flexible: ctx.flexible, classic: false }))->Ok_0;
        let b6 = (nullable_array_bytes::<i32>(m.eligible_leader_replicas, Ctx { version: ctx.version, flexible: ctx.flexible, classic: false }))->Ok_0;
        let b7 = (nullable_array_bytes::<i32>(m.last_known_elr, Ctx { version: ctx.version, flexible: ctx.flexible, classic: false }))->Ok_0;
        let b8 = (array_bytes::<i32>(m.offline_replicas, Ctx { version: ctx.version, flexible: ctx.flexible, classic: false }))->Ok_0;
        let b9 = if ctx.flexible { uvarint_bytes(0) } else { Seq::<u8>::empty() };
        let e = Self::spec_encode_body(m, ctx)->Ok_0;
        let p1 = Self::spec_encode_body_part1(m, ctx)->Ok_0;
        assert(p1 =~= Seq::<u8>::empty() + b0 + b1 + b2 + b3 + b4);
        let p2 = Self::spec_encode_body_part2(m, ctx)->Ok_0;
        assert(p2 =~= Seq::<u8>::empty() + b5 + b6 + b7 + b8 + b9);
        assert(e == Seq::<u8>::empty() + p1 + p2);
        assert(e =~= b0 + b1 + b2 + b3 + b4 + b5 + b6 + b7 + b8 + b9);
        if Self::reads_back_body(m, ctx) {
            Self::lemma_body_read_back(pre, m, post, ctx);
        }
    }

    /// Writing succeeds exactly when every field that the version carries can be
    /// encoded and every field that it leaves out, where leaving it out is an
    /// error, holds its default.
    #[verifier::spinoff_prover]
    pub proof fn lemma_body_write_succeeds(m: DescribeTopicPartitionsResponsePartitionModel, ctx: Ctx)
        ensures
            Self::spec_encode_body(m, ctx) is Ok <==> (map_encode_err(Ok(i16_bytes(m.error_code)), SerializationError::ValueTooLarge { message: "failed to encode ErrorCode" }) is Ok) && (map_encode_err(Ok(i32_bytes(m.partition_index)), SerializationError::ValueTooLarge { message: "failed to encode PartitionIndex" }) is Ok) && (map_encode_err(Ok(i32_bytes(m.leader_id)), SerializationError::ValueTooLarge { message: "failed to encode LeaderId" }) is Ok) && (map_encode_err(Ok(i32_bytes(m.leader_epoch)), SerializationError::ValueTooLarge { message: "failed to encode LeaderEpoch" }) is Ok) && (map_encode_err(array_bytes::<i32>(m.replica_nodes, Ctx { version: ctx.version, flexible: ctx.flexible, classic: false }), SerializationError::ValueTooLarge { message: "failed to encode ReplicaNodes" }) is Ok) && (map_encode_err(array_bytes::<i32>(m.isr_nodes, Ctx { version: ctx.version, flexible: ctx.flexible, classic: false }), SerializationError::ValueTooLarge { message: "failed to encode IsrNodes" }) is Ok) && (map_encode_err(nullable_array_bytes::<i32>(m.eligible_leader_replicas, Ctx { version: ctx.version, flexible: ctx.flexible, classic: false }), SerializationError::ValueTooLarge { message: "failed to encode EligibleLeaderReplicas" }) is Ok) && (map_encode_err(nullable_array_bytes::<i32>(m.last_known_elr, Ctx { version: ctx.version, flexible: ctx.flexible, classic: false }), SerializationError::ValueTooLarge { message: "failed to encode LastKnownElr" }) is Ok) && (map_encode_err(array_bytes::<i32>(m.offline_replicas, Ctx { version: ctx.version, flexible: ctx.flexible, classic: false }), SerializationError::ValueTooLarge { message: "failed to encode OfflineReplicas" }) is Ok),
    {
    }

    /// Writes the structure for `version`, with the compact encodings when `is_flexible`.
    /// On failure the buffer is left as it was.
    pub fn encode(&self, buf: &mut Vec<u8>, version: ApiVersion, is_flexible: bool) -> (r: Result<(), SerializationError>)
        ensures
            write_exact(r, old(buf)@, final(buf)@, Self::spec_encode_body(self.deep_view(), Ctx { version: version.0, flexible: is_flexible, classic: false })),
    {
        let start = buf.len();
        let r = self.encode_ctx(buf, Ctx::new(version, is_flexible));
        if r.is_err() {
            buf.truncate(start);
        }
        r
    }

    /// Reads the structure as written for `version`.
    /// On failure the reader is put back where it started.
    #[verifier::spinoff_prover]
    pub fn decode(buf: &mut Reader, version: ApiVersion, is_flexible: bool) -> (r: Result<Self, SerializationError>)
        ensures
            final(buf).bytes() == old(buf).bytes(),
            read_view_exact(r, Self::spec_decode_body(old(buf).bytes(), old(buf).pos(), Ctx { version: version.0, flexible: is_flexible, classic: false }), old(buf).pos(), final(buf).pos()),
    {
        let start = buf.position();
        let r = Self::decode_ctx(buf, Ctx::new(version, is_flexible));
        if r.is_err() {
            buf.set_position(start);
        }
        r
    }
}

impl KafkaCodec for DescribeTopicPartitionsResponsePartition {
    open spec fn spec_encode(m: DescribeTopicPartitionsResponsePartitionModel, ctx: Ctx) -> Result<Seq<u8>, SerializationError> {
        Self::spec_encode_body(m, ctx)
    }

    open spec fn spec_decode(s: Seq<u8>, pos: int, ctx: Ctx) -> Result<(DescribeTopicPartitionsResponsePartitionModel, int), SerializationError> {
        Self::spec_decode_body(s, pos, ctx)
    }

    open spec fn reads_back(v: DescribeTopicPartitionsResponsePartitionModel, ctx: Ctx) -> bool {
        Self::reads_back_body(v, ctx)
    }

    proof fn lemma_read_back(pre: Seq<u8>, v: DescribeTopicPartitionsResponsePartitionModel, post: Seq<u8>, ctx: Ctx) {
        Self::lemma_body_read_back(pre, v, post, ctx);
        assert(Self::spec_decode(pre + Self::spec_encode(v, ctx)->Ok_0 + post, pre.len() as int, ctx)
            == Self::spec_decode_body(pre + Self::spec_encode_body(v, ctx)->Ok_0 + post, pre.len() as int, ctx));
    }

    #[verifier::spinoff_prover]
    fn encode_ctx(&self, buf: &mut Vec<u8>, ctx: Ctx) -> (r: Result<(), SerializationError>) {
        let ghost mut w: Seq<u8> = Seq::empty();
        self.encode_body_part1(buf, ctx)?;
        proof {
            w = w + (Self::spec_encode_body_part1(self.deep_view(), ctx))->Ok_0;
        }
        assert(buf@ =~= old(buf)@ + w);
        self.encode_body_part2(buf, ctx)?;
        proof {
            w = w + (Self::spec_encode_body_part2(self.deep_view(), ctx))->Ok_0;
        }
        assert(buf@ =~= old(buf)@ + w);
        Ok(())
    }

    #[verifier::spinoff_prover]
    fn decode_ctx(buf: &mut Reader, ctx: Ctx) -> (r: Result<Self, SerializationError>) {
        let error_code = match buf.get_i16() { Ok(v) => v, Err(_) => { return Err(SerializationError::Protocol { message: "failed to decode ErrorCode" }); } };
        let partition_index = match buf.get_i32() { Ok(v) => v, Err(_) => { return Err(SerializationError::Protocol { message: "failed to decode PartitionIndex" }); } };
        let leader_id = match buf.get_i32() { Ok(v) => v, Err(_) => { return Err(SerializationError::Protocol { message: "failed to decode LeaderId" }); } };
        let leader_epoch = match buf.get_i32() { Ok(v) => v, Err(_) => { return Err(SerializationError::Protocol { message: "failed to decode LeaderEpoch" }); } };
        let replica_nodes = match decode_array::<i32>(buf, Ctx { version: ctx.version, flexible: ctx.flexible, classic: false }) { Ok(v) => v, Err(_) => { return Err(SerializationError::Protocol { message: "failed to decode ReplicaNodes" }); } };
        let isr_nodes = match decode_array::<i32>(buf, Ctx { version: ctx.version, flexible: ctx.flexible, classic: false }) { Ok(v) => v, Err(_) => { return Err(SerializationError::Protocol { message: "failed to decode IsrNodes" }); } };
        let eligible_leader_replicas = match decode_nullable_array::<i32>(buf, Ctx { version: ctx.version, flexible: ctx.flexible, classic: false }) { Ok(v) => v, Err(_) => { return Err(SerializationError::Protocol { message: "failed to decode EligibleLeaderReplicas" }); } };
        let last_known_elr = match decode_nullable_array::<i32>(buf, Ctx { version: ctx.version, flexible: ctx.flexible, classic: false }) { Ok(v) => v, Err(_) => { return Err(SerializationError::Protocol { message: "failed to decode LastKnownElr" }); } };
        let offline_replicas = match decode_array::<i32>(buf, Ctx { version: ctx.version, flexible: ctx.flexible, classic: false }) { Ok(v) => v, Err(_) => { return Err(SerializationError::Protocol { message: "failed to decode OfflineReplicas" }); } };
        if ctx.flexible {
            let (_tag_count, _) = decode_unsigned_varint(buf)?;
        }
        Ok(DescribeTopicPartitionsResponsePartition { error_code, partition_index, leader_id, leader_epoch, replica_nodes, isr_nodes, eligible_leader_replicas, last_known_elr, offline_replicas })
    }
}

// -------------------------------------------------------
// DescribeTopicPartitionsResponseTopic
// -------------------------------------------------------
#[derive(Clone, Debug, Default, PartialEq)]
pub struct DescribeTopicPartitionsResponseTopic {
    /// The topic error, or 0 if there was no error.
    pub error_code: i16,
    /// The topic name.
    pub name: Option<String>,
    /// The topic id.
    pub topic_id: [u8; 16],
    /// True if the topic is internal.
    pub is_internal: bool,
    /// Each partition in the topic.
    pub partitions: Vec<DescribeTopicPartitionsResponsePartition>,
    /// 32-bit bitfield to represent authorized operations for this topic.
    pub topic_authorized_operations: i32,
}

/// The contents of `DescribeTopicPartitionsResponseTopic`, with strings as characters and
/// nested values by their contents.
pub struct DescribeTopicPartitionsResponseTopicModel {
    pub error_code: i16,
    pub name: Option<Seq<char>>,
    pub topic_id: Seq<u8>,
    pub is_internal: bool,
    pub partitions: Seq<<DescribeTopicPartitionsResponsePartition as DeepView>::V>,
    pub topic_authorized_operations: i32,
}

impl DeepView for DescribeTopicPartitionsResponseTopic {
    type V = DescribeTopicPartitionsResponseTopicModel;

    open spec fn deep_view(&self) -> DescribeTopicPartitionsResponseTopicModel {
        DescribeTopicPartitionsResponseTopicModel {
            error_code: self.error_code,
            name: self.name.deep_view(),
            topic_id: self.topic_id@,
            is_internal: self.is_internal,
            partitions: self.partitions.deep_view(),
            topic_authorized_operations: self.topic_authorized_operations,
        }
    }
}

impl DescribeTopicPartitionsResponseTopic {
    /// Fields 1 to 7 of the encoding.
    pub open spec fn spec_encode_body_part1(m: DescribeTopicPartitionsResponseTopicModel, ctx: Ctx) -> Result<Seq<u8>, SerializationError> {
        let r = Ok(Seq::<u8>::empty());
        let r = then(r, map_encode_err(Ok(i16_bytes(m.error_code)), SerializationError::ValueTooLarge { message: "failed to encode ErrorCode" }));
        let r = then(r, map_encode_err(nullable_string_bytes(m.name, ctx.flexible), SerializationError::ValueTooLarge { message: "failed to encode Name" }));
        let r = then(r, map_encode_err(Ok(m.topic_id), SerializationError::ValueTooLarge { message: "failed to encode TopicId" }));
        let r = then(r, map_encode_err(Ok(bool_bytes(m.is_internal)), SerializationError::ValueTooLarge { message: "failed to encode IsInternal" }));
        let r = then(r, map_encode_err(array_bytes::<DescribeTopicPartitionsResponsePartition>(m.partitions, Ctx { version: ctx.version, flexible: ctx.flexible, classic: false }), SerializationError::ValueTooLarge { message: "failed to encode Partitions" }));
        let r = then(r, map_encode_err(Ok(i32_bytes(m.topic_authorized_operations)), SerializationError::ValueTooLarge { message: "failed to encode TopicAuthorizedOperations" }));
        let r = if ctx.flexible { then(r, Ok(uvarint_bytes(0))) } else { r };
        r
    }

    #[verifier::spinoff_prover]
    fn encode_body_part1(&self, buf: &mut Vec<u8>, ctx: Ctx) -> (r: Result<(), SerializationError>)
        ensures
            write_ok(r, old(buf)@, final(buf)@, Self::spec_encode_body_part1(self.deep_view(), ctx)),
    {
        let ghost mut w: Seq<u8> = Seq::empty();
        put_i16(buf, self.error_code);
        proof {
            w = w + (map_encode_err(Ok(i16_bytes(self.error_code)), SerializationError::ValueTooLarge { message: "failed to encode ErrorCode" }))->Ok_0;
        }
        assert(buf@ =~= old(buf)@ + w);
        match encode_nullable_string(&self.name, buf, ctx.flexible) {
            Ok(()) => {},
            Err(_) => {
                return Err(SerializationError::ValueTooLarge { message: "failed to encode Name" });
            },
        }
        proof {
            w = w + (map_encode_err(nullable_string_bytes(self.name.deep_view(), ctx.flexible), SerializationError::ValueTooLarge { message: "failed to encode Name" }))->Ok_0;
        }
        assert(buf@ =~= old(buf)@ + w);
        encode_uuid(&self.topic_id, buf);
        proof {
            w = w + (map_encode_err(Ok(self.topic_id@), SerializationError::ValueTooLarge { message: "failed to encode TopicId" }))->Ok_0;
        }
        assert(buf@ =~= old(buf)@ + w);
        put_bool(buf, self.is_internal);
        proof {
            w = w + (map_encode_err(Ok(bool_bytes(self.is_internal)), SerializationError::ValueTooLarge { message: "failed to encode IsInternal" }))->Ok_0;
        }
        assert(buf@ =~= old(buf)@ + w);
        match encode_array(&self.partitions, buf, Ctx { version: ctx.version, flexible: ctx.flexible, classic: false }) {
            Ok(()) => {},
            Err(_) => {
                return Err(SerializationError::ValueTooLarge { message: "failed to encode Partitions" });
            },
        }
        proof {
            w = w + (map_encode_err(array_bytes::<DescribeTopicPartitionsResponsePartition>(self.partitions.deep_view(), Ctx { version: ctx.version, flexible: ctx.flexible, classic: false }), SerializationError::ValueTooLarge { message: "failed to encode Partitions" }))->Ok_0;
        }
        assert(buf@ =~= old(buf)@ + w);
        put_i32(buf, self.topic_authorized_operations);
        proof {
            w = w + (map_encode_err(Ok(i32_bytes(self.topic_authorized_operations)), SerializationError::ValueTooLarge { message: "failed to encode TopicAuthorizedOperations" }))->Ok_0;
        }
        assert(buf@ =~= old(buf)@ + w);
        if ctx.flexible {
            encode_unsigned_varint(0, buf);
            proof {
                w = w + uvarint_bytes(0);
            }
            assert(buf@ =~= old(buf)@ + w);
        }
        Ok(())
    }

    /// The encoding of the structure in context `ctx`.
    pub open spec fn spec_encode_body(m: DescribeTopicPartitionsResponseTopicModel, ctx: Ctx) -> Result<Seq<u8>, SerializationError> {
        let r = Ok(Seq::<u8>::empty());
        let r = then(r, Self::spec_encode_body_part1(m, ctx));
        r
    }

    /// The structure read from `s` at `pos` in context `ctx`.
    pub open spec fn spec_decode_body(s: Seq<u8>, pos: int, ctx: Ctx) -> Result<(DescribeTopicPartitionsResponseTopicModel, int), SerializationError> {
        match map_decode_err(parse_i16(s, pos), SerializationError::Protocol { message: "failed to decode ErrorCode" }) {
            Err(e) => Err(e),
            Ok((error_code, pos)) =>
            match map_decode_err(parse_nullable_string(s, pos, ctx.flexible), SerializationError::Protocol { message: "failed to decode Name" }) {
                Err(e) => Err(e),
                Ok((name, pos)) =>
                match map_decode_err(parse_raw(s, pos, 16), SerializationError::Protocol { message: "failed to decode TopicId" }) {
                    Err(e) => Err(e),
                    Ok((topic_id, pos)) =>
                    match map_decode_err(parse_bool(s, pos), SerializationError::Protocol { message: "failed to decode IsInternal" }) {
                        Err(e) => Err(e),
                        Ok((is_internal, pos)) =>
                        match map_decode_err(parse_array::<DescribeTopicPartitionsResponsePartition>(s, pos, Ctx { version: ctx.version, flexible: ctx.flexible, classic: false }), SerializationError::Protocol { message: "failed to decode Partitions" }) {
                            Err(e) => Err(e),
                            Ok((partitions, pos)) =>
                            match map_decode_err(parse_i32(s, pos), SerializationError::Protocol { message: "failed to decode TopicAuthorizedOperations" }) {
                                Err(e) => Err(e),
                                Ok((topic_authorized_operations, pos)) =>
                                match (if ctx.flexible { parse_uvarint(s, pos) } else { Ok((0u64, pos)) }) {
                                    Err(e) => Err(e),
                                    Ok((_tag_count, pos)) =>
                                    Ok((DescribeTopicPartitionsResponseTopicModel { error_code, name, topic_id, is_internal, partitions, topic_authorized_operations }, pos))
                                }
                            }
                        }
                    }
                }
            }
        }
    }

    /// Values of the structure that read back from their encoding in `ctx`: every
    /// field that the version leaves out holds its default, and nested values
    /// read back.
    pub open spec fn reads_back_body(m: DescribeTopicPartitionsResponseTopicModel, ctx: Ctx) -> bool {
        &&& m.topic_id.len() == 16
        &&& forall|i: int| 0 <= i < m.partitions.len() ==> #[trigger] <DescribeTopicPartitionsResponsePartition as KafkaCodec>::reads_back(m.partitions[i], Ctx { version: ctx.version, flexible: ctx.flexible, classic: false })
    }

    /// A value that can be written in `ctx` and reads back: decoding its encoding,
    /// wherever it stands, gives the value and the position just after it.
    #[verifier::spinoff_prover]
    pub proof fn lemma_body_read_back(pre: Seq<u8>, m: DescribeTopicPartitionsResponseTopicModel, post: Seq<u8>, ctx: Ctx)
        requires
            Self::spec_encode_body(m, ctx) is Ok,
            Self::reads_back_body(m, ctx),
        ensures
            Self::spec_decode_body(pre + Self::spec_encode_body(m, ctx)->Ok_0 + post, pre.len() as int, ctx) == Ok::<(DescribeTopicPartitionsResponseTopicModel, int), SerializationError>((m, pre.len() as int + Self::spec_encode_body(m, ctx)->Ok_0.len())),
    {
        let b0 = i16_bytes(m.error_code);
        let b1 = (nullable_string_bytes(m.name, ctx.flexible))->Ok_0;
        let b2 = m.topic_id;
        let b3 = bool_bytes(m.is_internal);
        let b4 = (array_bytes::<DescribeTopicPartitionsResponsePartition>(m.partitions, Ctx { version: ctx.version, flexible: ctx.flexible, classic: false }))->Ok_0;
        let b5 = i32_bytes(m.topic_authorized_operations);
        let b6 = if ctx.flexible { uvarint_bytes(0) } else { Seq::<u8>::empty() };
        let t7 = post;
        let t6 = b6 + t7;
        let t5 = b5 + t6;
        let t4 = b4 + t5;
        let t3 = b3 + t4;
        let t2 = b2 + t3;
        let t1 = b1 + t2;
        let t0 = b0 + t1;
        let e = Self::spec_encode_body(m, ctx)->Ok_0;
        let p1 = Self::spec_encode_body_part1(m, ctx)->Ok_0;
        assert(p1 =~= Seq::<u8>::empty() + b0 + b1 + b2 + b3 + b4 + b5 + b6);
        lemma_seq_assoc(((((((Seq::<u8>::empty() + b0) + b1) + b2) + b3) + b4) + b5), b6, t7);
        lemma_seq_assoc((((((Seq::<u8>::empty() + b0) + b1) + b2) + b3) + b4), b5, (b6 + t7));
        lemma_seq_assoc(((((Seq::<u8>::empty() + b0) + b1) + b2) + b3), b4, (b5 + (b6 + t7)));
        lemma_seq_assoc((((Seq::<u8>::empty() + b0) + b1) + b2), b3, (b4 + (b5 + (b6 + t7))));
        lemma_seq_assoc(((Seq::<u8>::empty() + b0) + b1), b2, (b3 + (b4 + (b5 + (b6 + t7)))));
        lemma_seq_assoc((Seq::<u8>::empty() + b0), b1, (b2 + (b3 + (b4 + (b5 + (b6 + t7))))));
        lemma_seq_assoc(Seq::<u8>::empty(), b0, (b1 + (b2 + (b3 + (b4 + (b5 + (b6 + t7)))))));
        lemma_seq_empty_left((b0 + (b1 + (b2 + (b3 + (b4 + (b5 + (b6 + t7))))))));
        assert(e == Seq::<u8>::empty() + p1);
        lemma_seq_assoc(Seq::<u8>::empty(), p1, t7);
        lemma_seq_empty_left((p1 + t7));
        let s = pre + e + post;
        lemma_seq_assoc(pre, e, post);
        assert(s == pre + t0);
        let a0 = pre;
        assert(parse_i16(s, a0.len() as int) == Ok::<(i16, int), SerializationError>((m.error_code, a0.len() as int + b0.len()))) by {
            lemma_seq_assoc(a0, b0, t1);
            lemma_i16_roundtrip(a0, m.error_code, t1);
        }
        lemma_seq_assoc(a0, b0, t1);
        let a1 = a0 + b0;
        assert(parse_nullable_string(s, a1.len() as int, ctx.flexible) == Ok::<(Option<Seq<char>>, int), SerializationError>((m.name, a1.len() as int + b1.len()))) by {
            assert(nullable_string_bytes(m.name, ctx.flexible) is Ok);
            lemma_seq_assoc(a1, b1, t2);
            lemma_nullable_string_roundtrip(a1, m.name, t2, ctx.flexible);
        }
        lemma_seq_assoc(a1, b1, t2);
        let a2 = a1 + b1;
        assert(parse_raw(s, a2.len() as int, 16) == Ok::<(Seq<u8>, int), SerializationError>((m.topic_id, a2.len() as int + b2.len()))) by {
            lemma_seq_assoc(a2, b2, t3);
            lemma_uuid_roundtrip(a2, m.topic_id, t3);
        }
        lemma_seq_assoc(a2, b2, t3);
        let a3 = a2 + b2;
        assert(parse_bool(s, a3.len() as int) == Ok::<(bool, int), SerializationError>((m.is_internal, a3.len() as int + b3.len()))) by {
            lemma_seq_assoc(a3, b3, t4);
            lemma_bool_roundtrip(a3, m.is_internal, t4);
        }
        lemma_seq_assoc(a3, b3, t4);
        let a4 = a3 + b3;
        assert(parse_array::<DescribeTopicPartitionsResponsePartition>(s, a4.len() as int, Ctx { version: ctx.version, flexible: ctx.flexible, classic: false }) == Ok::<(Seq<<DescribeTopicPartitionsResponsePartition as DeepView>::V>, int), SerializationError>((m.partitions, a4.len() as int + b4.len()))) by {
            assert(array_bytes::<DescribeTopicPartitionsResponsePartition>(m.partitions, Ctx { version: ctx.version, flexible: ctx.flexible, classic: false }) is Ok);
            lemma_seq_assoc(a4, b4, t5);
            lemma_items_read_back::<DescribeTopicPartitionsResponsePartition>(m.partitions, Ctx { version: ctx.version, flexible: ctx.flexible, classic: false });
            lemma_array_roundtrip::<DescribeTopicPartitionsResponsePartition>(a4, m.partitions, t5, Ctx { version: ctx.version, flexible: ctx.flexible, classic: false });
        }
        lemma_seq_assoc(a4, b4, t5);
        let a5 = a4 + b4;
        assert(parse_i32(s, a5.len() as int) == Ok::<(i32, int), SerializationError>((m.topic_authorized_operations, a5.len() as int + b5.len()))) by {
            lemma_seq_assoc(a5, b5, t6);
            lemma_i32_roundtrip(a5, m.topic_authorized_operations, t6);
        }
        lemma_seq_assoc(a5, b5, t6);
        let a6 = a5 + b5;
        if ctx.flexible {
            assert(parse_uvarint(s, a6.len() as int) == Ok::<(u64, int), SerializationError>((0u64, a6.len() as int + b6.len()))) by {
                lemma_seq_assoc(a6, b6, t7);
                lemma_uvarint_roundtrip(a6, 0, t7);
            }
        }
    }

    /// The bytes written: the encoding of each field, in the order of the
    /// protocol's layout. Reading them back, wherever they stand, gives the value,
    /// with each field that the version leaves out at its default.
    #[verifier::spinoff_prover]
    pub proof fn lemma_body_layout(pre: Seq<u8>, m: DescribeTopicPartitionsResponseTopicModel, post: Seq<u8>, ctx: Ctx)
        requires
            Self::spec_encode_body(m, ctx) is Ok,
        ensures
            Self::spec_encode_body(m, ctx) == Ok::<Seq<u8>, SerializationError>((i16_bytes(m.error_code)) + ((nullable_string_bytes(m.name, ctx.flexible))->Ok_0) + (m.topic_id) + (bool_bytes(m.is_internal)) + ((array_bytes::<DescribeTopicPartitionsResponsePartition>(m.partitions, Ctx { version: ctx.version, flexible: ctx.flexible, classic: false }))->Ok_0) + (i32_bytes(m.topic_authorized_operations)) + (if ctx.flexible { uvarint_bytes(0) } else { Seq::<u8>::empty() })),
            Self::reads_back_body(m, ctx) ==> Self::spec_decode_body(pre + ((i16_bytes(m.error_code)) + ((nullable_string_bytes(m.name, ctx.flexible))->Ok_0) + (m.topic_id) + (bool_bytes(m.is_internal)) + ((array_bytes::<DescribeTopicPartitionsResponsePartition>(m.partitions, Ctx { version: ctx.version, flexible: ctx.flexible, classic: false }))->Ok_0) + (i32_bytes(m.topic_authorized_operations)) + (if ctx.flexible { uvarint_bytes(0) } else { Seq::<u8>::empty() })) + post, pre.len() as int, ctx) == Ok::<(DescribeTopicPartitionsResponseTopicModel, int), SerializationError>((m, pre.len() as int + ((i16_bytes(m.error_code)) + ((nullable_string_bytes(m.name, ctx.flexible))->Ok_0) + (m.topic_id) + (bool_bytes(m.is_internal)) + ((array_bytes::<DescribeTopicPartitionsResponsePartition>(m.partitions, Ctx { version: ctx.version, flexible: ctx.flexible, classic: false }))->Ok_0) + (i32_bytes(m.topic_authorized_operations)) + (if ctx.flexible { uvarint_bytes(0) } else { Seq::<u8>::empty() })).len())),
    {
        let b0 = i16_bytes(m.error_code);
        let b1 = (nullable_string_bytes(m.name, ctx.flexible))->Ok_0;
        let b2 = m.topic_id;
        let b3 = bool_bytes(m.is_internal);
        let b4 = (array_bytes::<DescribeTopicPartitionsResponsePartition>(m.partitions, Ctx { version: ctx.version, flexible: ctx.flexible, classic: false }))->Ok_0;
        let b5 = i32_bytes(m.topic_authorized_operations);
        let b6 = if ctx.flexible { uvarint_bytes(0) } else { Seq::<u8>::empty() };
        let e = Self::spec_encode_body(m, ctx)->Ok_0;
        let p1 = Self::spec_encode_body_part1(m, ctx)->Ok_0;
        assert(p1 =~= Seq::<u8>::empty() + b0 + b1 + b2 + b3 + b4 + b5 + b6);
        assert(e == Seq::<u8>::empty() + p1);
        assert(e =~= b0 + b1 + b2 + b3 + b4 + b5 + b6);
        if Self::reads_back_body(m, ctx) {
            Self::lemma_body_read_back(pre, m, post, ctx);
        }
    }

    /// Writing succeeds exactly when every field that the version carries can be
    /// encoded and every field that it leaves out, where leaving it out is an
    /// error, holds its default.
    #[verifier::spinoff_prover]
    pub proof fn lemma_body_write_succeeds(m: DescribeTopicPartitionsResponseTopicModel, ctx: Ctx)
        ensures
            Self::spec_encode_body(m, ctx) is Ok <==> (map_encode_err(Ok(i16_bytes(m.error_code)), SerializationError::ValueTooLarge { message: "failed to encode ErrorCode" }) is Ok) && (map_encode_err(nullable_string_bytes(m.name, ctx.flexible), SerializationError::ValueTooLarge { message: "failed to encode Name" }) is Ok) && (map_encode_err(Ok(m.topic_id), SerializationError::ValueTooLarge { message: "failed to encode TopicId" }) is Ok) && (map_encode_err(Ok(bool_bytes(m.is_internal)), SerializationError::ValueTooLarge { message: "failed to encode IsInternal" }) is Ok) && (map_encode_err(array_bytes::<DescribeTopicPartitionsResponsePartition>(m.partitions, Ctx { version: ctx.version, flexible: ctx.flexible, classic: false }), SerializationError::ValueTooLarge { message: "failed to encode Partitions" }) is Ok) && (map_encode_err(Ok(i32_bytes(m.topic_authorized_operations)), SerializationError::ValueTooLarge { message: "failed to encode TopicAuthorizedOperations" }) is Ok),
    {
    }

    /// Writes the structure for `version`, with the compact encodings when `is_flexible`.
    /// On failure the buffer is left as it was.
    pub fn encode(&self, buf: &mut Vec<u8>, version: ApiVersion, is_flexible: bool) -> (r: Result<(), SerializationError>)
        ensures
            write_exact(r, old(buf)@, final(buf)@, Self::spec_encode_body(self.deep_view(), Ctx { version: version.0, flexible: is_flexible, classic: false })),
    {
        let start = buf.len();
        let r = self.encode_ctx(buf, Ctx::new(version, is_flexible));
        if r.is_err() {
            buf.truncate(start);
        }
        r
    }

    /// Reads the structure as written for `version`.
    /// On failure the reader is put back where it started.
    #[verifier::spinoff_prover]
    pub fn decode(buf: &mut Reader, version: ApiVersion, is_flexible: bool) -> (r: Result<Self, SerializationError>)
        ensures
            final(buf).bytes() == old(buf).bytes(),
            read_view_exact(r, Self::spec_decode_body(old(buf).bytes(), old(buf).pos(), Ctx { version: version.0, flexible: is_flexible, classic: false }), old(buf).pos(), final(buf).pos()),
    {
        let start = buf.position();
        let r = Self::decode_ctx(buf, Ctx::new(version, is_flexible));
        if r.is_err() {
            buf.set_position(start);
        }
        r
    }
}

impl KafkaCodec for DescribeTopicPartitionsResponseTopic {
    open spec fn spec_encode(m: DescribeTopicPartitionsResponseTopicModel, ctx: Ctx) -> Result<Seq<u8>, SerializationError> {
        Self::spec_encode_body(m, ctx)
    }

    open spec fn spec_decode(s: Seq<u8>, pos: int, ctx: Ctx) -> Result<(DescribeTopicPartitionsResponseTopicModel, int), SerializationError> {
        Self::spec_decode_body(s, pos, ctx)
    }

    open spec fn reads_back(v: DescribeTopicPartitionsResponseTopicModel, ctx: Ctx) -> bool {
        Self::reads_back_body(v, ctx)
    }

    proof fn lemma_read_back(pre: Seq<u8>, v: DescribeTopicPartitionsResponseTopicModel, post: Seq<u8>, ctx: Ctx) {
        Self::lemma_body_read_back(pre, v, post, ctx);
        assert(Self::spec_decode(pre + Self::spec_encode(v, ctx)->Ok_0 + post, pre.len() as int, ctx)
            == Self::spec_decode_body(pre + Self::spec_encode_body(v, ctx)->Ok_0 + post, pre.len() as int, ctx));
    }

    #[verifier::spinoff_prover]
    fn encode_ctx(&self, buf: &mut Vec<u8>, ctx: Ctx) -> (r: Result<(), SerializationError>) {
        let ghost mut w: Seq<u8> = Seq::empty();
        self.encode_body_part1(buf, ctx)?;
        proof {
            w = w + (Self::spec_encode_body_part1(self.deep_view(), ctx))->Ok_0;
        }
        assert(buf@ =~= old(buf)@ + w);
        Ok(())
    }

    #[verifier::spinoff_prover]
    fn decode_ctx(buf: &mut Reader, ctx: Ctx) -> (r: Result<Self, SerializationError>) {
        let error_code = match buf.get_i16() { Ok(v) => v, Err(_) => { return Err(SerializationError::Protocol { message: "failed to decode ErrorCode" }); } };
        let name = match buf.get_nullable_string(ctx.flexible) { Ok(v) => v, Err(_) => { return Err(SerializationError::Protocol { message: "failed to decode Name" }); } };
        let topic_id = match buf.get_uuid() { Ok(v) => v, Err(_) => { return Err(SerializationError::Protocol { message: "failed to decode TopicId" }); } };
        let is_internal = match buf.get_bool() { Ok(v) => v, Err(_) => { return Err(SerializationError::Protocol { message: "failed to decode IsInternal" }); } };
        let partitions = match decode_array::<DescribeTopicPartitionsResponsePartition>(buf, Ctx { version: ctx.version, flexible: ctx.flexible, classic: false }) { Ok(v) => v, Err(_) => { return Err(SerializationError::Protocol { message: "failed to decode Partitions" }); } };
        let topic_authorized_operations = match buf.get_i32() { Ok(v) => v, Err(_) => { return Err(SerializationError::Protocol { message: "failed to decode TopicAuthorizedOperations" }); } };
        if ctx.flexible {
            let (_tag_count, _) = decode_unsigned_varint(buf)?;
        }
        Ok(DescribeTopicPartitionsResponseTopic { error_code, name, topic_id, is_internal, partitions, topic_authorized_operations })
    }
}

} // verus!
