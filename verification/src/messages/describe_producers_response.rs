//! DescribeProducersResponse (API key 61).
use vstd::prelude::*;
use crate::roundtrip::{lemma_array_roundtrip, lemma_i16_roundtrip, lemma_i32_roundtrip,
    lemma_i64_roundtrip, lemma_items_read_back, lemma_nullable_string_roundtrip, lemma_seq_assoc,
    lemma_seq_empty_left, lemma_string_roundtrip, lemma_uvarint_roundtrip};
use crate::serialization::{Ctx, KafkaCodec, Reader, SerializationError, array_bytes, decode_array,
    decode_unsigned_varint, encode_array, encode_nullable_string, encode_string,
    encode_unsigned_varint, i16_bytes, i32_bytes, i64_bytes, lemma_array_bytes_agree,
    lemma_parse_array_agree, map_decode_err, map_encode_err, nullable_string_bytes, parse_array,
    parse_i16, parse_i32, parse_i64, parse_nullable_string, parse_string, parse_uvarint, put_i16,
    put_i32, put_i64, read_view_exact, read_view_ok, string_bytes, then, uvarint_bytes,
    write_exact, write_ok};
use crate::{ApiKey, ApiVersion};

verus! {

// -------------------------------------------------------
// DescribeProducersResponse
// -------------------------------------------------------
#[derive(Clone, Debug, Default, PartialEq)]
pub struct DescribeProducersResponse {
    /// The duration in milliseconds for which the request was throttled due to a quota violation, or zero if the request did not violate any quota.
    pub throttle_time_ms: i32,
    /// Each topic in the response.
    pub topics: Vec<TopicResponse>,
}

/// The contents of `DescribeProducersResponse`, with strings as characters and
/// nested values by their contents.
pub struct DescribeProducersResponseModel {
    pub throttle_time_ms: i32,
    pub topics: Seq<<TopicResponse as DeepView>::V>,
}

impl DeepView for DescribeProducersResponse {
    type V = DescribeProducersResponseModel;

    open spec fn deep_view(&self) -> DescribeProducersResponseModel {
        DescribeProducersResponseModel {
            throttle_time_ms: self.throttle_time_ms,
            topics: self.topics.deep_view(),
        }
    }
}

impl DescribeProducersResponse {
    /// The classic encoding of the structure.
    pub open spec fn spec_encode_classic(m: DescribeProducersResponseModel) -> Result<Seq<u8>, SerializationError> {
        let r = Ok(Seq::<u8>::empty());
        let r = then(r, map_encode_err(Ok(i32_bytes(m.throttle_time_ms)), SerializationError::ValueTooLarge { message: "failed to encode ThrottleTimeMs" }));
        let r = then(r, map_encode_err(array_bytes::<TopicResponse>(m.topics, Ctx { version: 0, flexible: false, classic: true }), SerializationError::ValueTooLarge { message: "failed to encode Topics" }));
        r
    }

    /// The flexible-aware encoding of the structure.
    pub open spec fn spec_encode_flexible(m: DescribeProducersResponseModel, is_flexible: bool) -> Result<Seq<u8>, SerializationError> {
        let r = Ok(Seq::<u8>::empty());
        let r = then(r, map_encode_err(Ok(i32_bytes(m.throttle_time_ms)), SerializationError::ValueTooLarge { message: "failed to encode ThrottleTimeMs" }));
        let r = then(r, map_encode_err(array_bytes::<TopicResponse>(m.topics, Ctx { version: 0, flexible: is_flexible, classic: false }), SerializationError::ValueTooLarge { message: "failed to encode Topics" }));
        let r = if is_flexible { then(r, Ok(uvarint_bytes(0))) } else { r };
        r
    }

    /// The structure read by the classic decoder.
    pub open spec fn spec_decode_classic(s: Seq<u8>, pos: int) -> Result<(DescribeProducersResponseModel, int), SerializationError> {
        match map_decode_err(parse_i32(s, pos), SerializationError::Protocol { message: "failed to decode ThrottleTimeMs" }) {
            Err(e) => Err(e),
            Ok((throttle_time_ms, pos)) =>
            match map_decode_err(parse_array::<TopicResponse>(s, pos, Ctx { version: 0, flexible: false, classic: true }), SerializationError::Protocol { message: "failed to decode Topics" }) {
                Err(e) => Err(e),
                Ok((topics, pos)) =>
                Ok((DescribeProducersResponseModel { throttle_time_ms, topics }, pos))
            }
        }
    }

    /// The structure read by the flexible-aware decoder.
    pub open spec fn spec_decode_flexible(s: Seq<u8>, pos: int, is_flexible: bool) -> Result<(DescribeProducersResponseModel, int), SerializationError> {
        match map_decode_err(parse_i32(s, pos), SerializationError::Protocol { message: "failed to decode ThrottleTimeMs" }) {
            Err(e) => Err(e),
            Ok((throttle_time_ms, pos)) =>
            match map_decode_err(parse_array::<TopicResponse>(s, pos, Ctx { version: 0, flexible: is_flexible, classic: false }), SerializationError::Protocol { message: "failed to decode Topics" }) {
                Err(e) => Err(e),
                Ok((topics, pos)) =>
                match (if is_flexible { parse_uvarint(s, pos) } else { Ok((0u64, pos)) }) {
                    Err(e) => Err(e),
                    Ok((_tag_count, pos)) =>
                    Ok((DescribeProducersResponseModel { throttle_time_ms, topics }, pos))
                }
            }
        }
    }

    /// Values of the structure that read back from their classic encoding:
    /// nested values read back.
    pub open spec fn reads_back_classic(m: DescribeProducersResponseModel) -> bool {
        &&& forall|i: int| 0 <= i < m.topics.len() ==> #[trigger] <TopicResponse as KafkaCodec>::reads_back(m.topics[i], Ctx { version: 0, flexible: false, classic: true })
    }

    /// A value that can be written and reads back: decoding its encoding, wherever
    /// it stands, gives the value and the position just after it.
    #[verifier::spinoff_prover]
    pub proof fn lemma_classic_read_back(pre: Seq<u8>, m: DescribeProducersResponseModel, post: Seq<u8>)
        requires
            Self::spec_encode_classic(m) is Ok,
            Self::reads_back_classic(m),
        ensures
            Self::spec_decode_classic(pre + Self::spec_encode_classic(m)->Ok_0 + post, pre.len() as int) == Ok::<(DescribeProducersResponseModel, int), SerializationError>((m, pre.len() as int + Self::spec_encode_classic(m)->Ok_0.len())),
    {
        let b0 = i32_bytes(m.throttle_time_ms);
        let b1 = (array_bytes::<TopicResponse>(m.topics, Ctx { version: 0, flexible: false, classic: true }))->Ok_0;
        let t2 = post;
        let t1 = b1 + t2;
        let t0 = b0 + t1;
        let e = Self::spec_encode_classic(m)->Ok_0;
        assert(e =~= Seq::<u8>::empty() + b0 + b1);
        lemma_seq_assoc((Seq::<u8>::empty() + b0), b1, post);
        lemma_seq_assoc(Seq::<u8>::empty(), b0, (b1 + post));
        lemma_seq_empty_left((b0 + (b1 + post)));
        let s = pre + e + post;
        lemma_seq_assoc(pre, e, post);
        assert(s == pre + t0);
        let a0 = pre;
        assert(parse_i32(s, a0.len() as int) == Ok::<(i32, int), SerializationError>((m.throttle_time_ms, a0.len() as int + b0.len()))) by {
            lemma_seq_assoc(a0, b0, t1);
            lemma_i32_roundtrip(a0, m.throttle_time_ms, t1);
        }
        lemma_seq_assoc(a0, b0, t1);
        let a1 = a0 + b0;
        assert(parse_array::<TopicResponse>(s, a1.len() as int, Ctx { version: 0, flexible: false, classic: true }) == Ok::<(Seq<<TopicResponse as DeepView>::V>, int), SerializationError>((m.topics, a1.len() as int + b1.len()))) by {
            assert(array_bytes::<TopicResponse>(m.topics, Ctx { version: 0, flexible: false, classic: true }) is Ok);
            lemma_seq_assoc(a1, b1, t2);
            lemma_items_read_back::<TopicResponse>(m.topics, Ctx { version: 0, flexible: false, classic: true });
            lemma_array_roundtrip::<TopicResponse>(a1, m.topics, t2, Ctx { version: 0, flexible: false, classic: true });
        }
    }

    /// The bytes written: the encoding of each field, in the order of the
    /// protocol's layout. Reading them back, wherever they stand, gives the value,
    /// with each field that the version leaves out at its default.
    #[verifier::spinoff_prover]
    pub proof fn lemma_classic_layout(pre: Seq<u8>, m: DescribeProducersResponseModel, post: Seq<u8>)
        requires
            Self::spec_encode_classic(m) is Ok,
        ensures
            Self::spec_encode_classic(m) == Ok::<Seq<u8>, SerializationError>((i32_bytes(m.throttle_time_ms)) + ((array_bytes::<TopicResponse>(m.topics, Ctx { version: 0, flexible: false, classic: true }))->Ok_0)),
            Self::reads_back_classic(m) ==> Self::spec_decode_classic(pre + ((i32_bytes(m.throttle_time_ms)) + ((array_bytes::<TopicResponse>(m.topics, Ctx { version: 0, flexible: false, classic: true }))->Ok_0)) + post, pre.len() as int) == Ok::<(DescribeProducersResponseModel, int), SerializationError>((m, pre.len() as int + ((i32_bytes(m.throttle_time_ms)) + ((array_bytes::<TopicResponse>(m.topics, Ctx { version: 0, flexible: false, classic: true }))->Ok_0)).len())),
    {
        let b0 = i32_bytes(m.throttle_time_ms);
        let b1 = (array_bytes::<TopicResponse>(m.topics, Ctx { version: 0, flexible: false, classic: true }))->Ok_0;
        let e = Self::spec_encode_classic(m)->Ok_0;
        assert(e =~= Seq::<u8>::empty() + b0 + b1);
        assert(e =~= b0 + b1);
        if Self::reads_back_classic(m) {
            Self::lemma_classic_read_back(pre, m, post);
        }
    }

    /// Writing succeeds exactly when every field that the version carries can be
    /// encoded and every field that it leaves out, where leaving it out is an
    /// error, holds its default.
    #[verifier::spinoff_prover]
    pub proof fn lemma_classic_write_succeeds(m: DescribeProducersResponseModel)
        ensures
            Self::spec_encode_classic(m) is Ok <==> (map_encode_err(Ok(i32_bytes(m.throttle_time_ms)), SerializationError::ValueTooLarge { message: "failed to encode ThrottleTimeMs" }) is Ok) && (map_encode_err(array_bytes::<TopicResponse>(m.topics, Ctx { version: 0, flexible: false, classic: true }), SerializationError::ValueTooLarge { message: "failed to encode Topics" }) is Ok),
    {
    }

    /// Values of the structure that read back from their flexible-aware encoding:
    /// nested values read back.
    pub open spec fn reads_back_flexible(m: DescribeProducersResponseModel, is_flexible: bool) -> bool {
        &&& forall|i: int| 0 <= i < m.topics.len() ==> #[trigger] <TopicResponse as KafkaCodec>::reads_back(m.topics[i], Ctx { version: 0, flexible: is_flexible, classic: false })
    }

    /// A value that can be written and reads back: decoding its encoding, wherever
    /// it stands, gives the value and the position just after it.
    #[verifier::spinoff_prover]
    pub proof fn lemma_flexible_read_back(pre: Seq<u8>, m: DescribeProducersResponseModel, post: Seq<u8>, is_flexible: bool)
        requires
            Self::spec_encode_flexible(m, is_flexible) is Ok,
            Self::reads_back_flexible(m, is_flexible),
        ensures
            Self::spec_decode_flexible(pre + Self::spec_encode_flexible(m, is_flexible)->Ok_0 + post, pre.len() as int, is_flexible) == Ok::<(DescribeProducersResponseModel, int), SerializationError>((m, pre.len() as int + Self::spec_encode_flexible(m, is_flexible)->Ok_0.len())),
    {
        let b0 = i32_bytes(m.throttle_time_ms);
        let b1 = (array_bytes::<TopicResponse>(m.topics, Ctx { version: 0, flexible: is_flexible, classic: false }))->Ok_0;
        let b2 = if is_flexible { uvarint_bytes(0) } else { Seq::<u8>::empty() };
        let t3 = post;
        let t2 = b2 + t3;
        let t1 = b1 + t2;
        let t0 = b0 + t1;
        let e = Self::spec_encode_flexible(m, is_flexible)->Ok_0;
        assert(e =~= Seq::<u8>::empty() + b0 + b1 + b2);
        lemma_seq_assoc(((Seq::<u8>::empty() + b0) + b1), b2, post);
        lemma_seq_assoc((Seq::<u8>::empty() + b0), b1, (b2 + post));
        lemma_seq_assoc(Seq::<u8>::empty(), b0, (b1 + (b2 + post)));
        lemma_seq_empty_left((b0 + (b1 + (b2 + post))));
        let s = pre + e + post;
        lemma_seq_assoc(pre, e, post);
        assert(s == pre + t0);
        let a0 = pre;
        assert(parse_i32(s, a0.len() as int) == Ok::<(i32, int), SerializationError>((m.throttle_time_ms, a0.len() as int + b0.len()))) by {
            lemma_seq_assoc(a0, b0, t1);
            lemma_i32_roundtrip(a0, m.throttle_time_ms, t1);
        }
        lemma_seq_assoc(a0, b0, t1);
        let a1 = a0 + b0;
        assert(parse_array::<TopicResponse>(s, a1.len() as int, Ctx { version: 0, flexible: is_flexible, classic: false }) == Ok::<(Seq<<TopicResponse as DeepView>::V>, int), SerializationError>((m.topics, a1.len() as int + b1.len()))) by {
            assert(array_bytes::<TopicResponse>(m.topics, Ctx { version: 0, flexible: is_flexible, classic: false }) is Ok);
            lemma_seq_assoc(a1, b1, t2);
            lemma_items_read_back::<TopicResponse>(m.topics, Ctx { version: 0, flexible: is_flexible, classic: false });
            lemma_array_roundtrip::<TopicResponse>(a1, m.topics, t2, Ctx { version: 0, flexible: is_flexible, classic: false });
        }
        lemma_seq_assoc(a1, b1, t2);
        let a2 = a1 + b1;
        if is_flexible {
            assert(parse_uvarint(s, a2.len() as int) == Ok::<(u64, int), SerializationError>((0u64, a2.len() as int + b2.len()))) by {
                lemma_seq_assoc(a2, b2, t3);
                lemma_uvarint_roundtrip(a2, 0, t3);
            }
        }
    }

    /// The bytes written: the encoding of each field, in the order of the
    /// protocol's layout. Reading them back, wherever they stand, gives the value,
    /// with each field that the version leaves out at its default.
    #[verifier::spinoff_prover]
    pub proof fn lemma_flexible_layout(pre: Seq<u8>, m: DescribeProducersResponseModel, post: Seq<u8>, is_flexible: bool)
        requires
            Self::spec_encode_flexible(m, is_flexible) is Ok,
        ensures
            Self::spec_encode_flexible(m, is_flexible) == Ok::<Seq<u8>, SerializationError>((i32_bytes(m.throttle_time_ms)) + ((array_bytes::<TopicResponse>(m.topics, Ctx { version: 0, flexible: is_flexible, classic: false }))->Ok_0) + (if is_flexible { uvarint_bytes(0) } else { Seq::<u8>::empty() })),
            Self::reads_back_flexible(m, is_flexible) ==> Self::spec_decode_flexible(pre + ((i32_bytes(m.throttle_time_ms)) + ((array_bytes::<TopicResponse>(m.topics, Ctx { version: 0, flexible: is_flexible, classic: false }))->Ok_0) + (if is_flexible { uvarint_bytes(0) } else { Seq::<u8>::empty() })) + post, pre.len() as int, is_flexible) == Ok::<(DescribeProducersResponseModel, int), SerializationError>((m, pre.len() as int + ((i32_bytes(m.throttle_time_ms)) + ((array_bytes::<TopicResponse>(m.topics, Ctx { version: 0, flexible: is_flexible, classic: false }))->Ok_0) + (if is_flexible { uvarint_bytes(0) } else { Seq::<u8>::empty() })).len())),
    {
        let b0 = i32_bytes(m.throttle_time_ms);
        let b1 = (array_bytes::<TopicResponse>(m.topics, Ctx { version: 0, flexible: is_flexible, classic: false }))->Ok_0;
        let b2 = if is_flexible { uvarint_bytes(0) } else { Seq::<u8>::empty() };
        let e = Self::spec_encode_flexible(m, is_flexible)->Ok_0;
        assert(e =~= Seq::<u8>::empty() + b0 + b1 + b2);
        assert(e =~= b0 + b1 + b2);
        if Self::reads_back_flexible(m, is_flexible) {
            Self::lemma_flexible_read_back(pre, m, post, is_flexible);
        }
    }

    /// Writing succeeds exactly when every field that the version carries can be
    /// encoded and every field that it leaves out, where leaving it out is an
    /// error, holds its default.
    #[verifier::spinoff_prover]
    pub proof fn lemma_flexible_write_succeeds(m: DescribeProducersResponseModel, is_flexible: bool)
        ensures
            Self::spec_encode_flexible(m, is_flexible) is Ok <==> (map_encode_err(Ok(i32_bytes(m.throttle_time_ms)), SerializationError::ValueTooLarge { message: "failed to encode ThrottleTimeMs" }) is Ok) && (map_encode_err(array_bytes::<TopicResponse>(m.topics, Ctx { version: 0, flexible: is_flexible, classic: false }), SerializationError::ValueTooLarge { message: "failed to encode Topics" }) is Ok),
    {
    }

    /// With the compact encodings off, the flexible-aware layout is the classic
    /// layout: both write the same bytes.
    pub proof fn lemma_flexible_off_writes_classic(m: DescribeProducersResponseModel)
        ensures
            Self::spec_encode_flexible(m, false) == Self::spec_encode_classic(m),
    {
        assert forall|i: int| 0 <= i < m.topics.len() implies <TopicResponse as KafkaCodec>::spec_encode(#[trigger] m.topics[i], Ctx { version: 0, flexible: false, classic: true }) == <TopicResponse as KafkaCodec>::spec_encode(m.topics[i], Ctx { version: 0, flexible: false, classic: false }) by {
            TopicResponse::lemma_flexible_off_writes_classic(m.topics[i]);
        }
        lemma_array_bytes_agree::<TopicResponse>(m.topics, Ctx { version: 0, flexible: false, classic: true }, Ctx { version: 0, flexible: false, classic: false });
    }

    /// With the compact encodings off, the flexible-aware layout is the classic
    /// layout: both read the same bytes alike.
    pub proof fn lemma_flexible_off_reads_classic(s: Seq<u8>, pos: int)
        ensures
            Self::spec_decode_flexible(s, pos, false) == Self::spec_decode_classic(s, pos),
    {
        assert forall|p: int| #[trigger] <TopicResponse as KafkaCodec>::spec_decode(s, p, Ctx { version: 0, flexible: false, classic: true }) == <TopicResponse as KafkaCodec>::spec_decode(s, p, Ctx { version: 0, flexible: false, classic: false }) by {
            TopicResponse::lemma_flexible_off_reads_classic(s, p);
        }
        lemma_parse_array_agree::<TopicResponse>(s, Ctx { version: 0, flexible: false, classic: true }, Ctx { version: 0, flexible: false, classic: false });
    }

    /// Writes the structure in the classic layout.
    /// On failure the buffer is left as it was.
    pub fn encode(&self, buf: &mut Vec<u8>) -> (r: Result<(), SerializationError>)
        ensures
            write_exact(r, old(buf)@, final(buf)@, Self::spec_encode_classic(self.deep_view())),
    {
        let start = buf.len();
        let r = self.write_classic(buf);
        if r.is_err() {
            buf.truncate(start);
        }
        r
    }

    fn write_classic(&self, buf: &mut Vec<u8>) -> (r: Result<(), SerializationError>)
        ensures
            write_ok(r, old(buf)@, final(buf)@, Self::spec_encode_classic(self.deep_view())),
    {
        let ghost mut w: Seq<u8> = Seq::empty();
        put_i32(buf, self.throttle_time_ms);
        proof {
            w = w + (map_encode_err(Ok(i32_bytes(self.throttle_time_ms)), SerializationError::ValueTooLarge { message: "failed to encode ThrottleTimeMs" }))->Ok_0;
        }
        assert(buf@ =~= old(buf)@ + w);
        match encode_array(&self.topics, buf, Ctx { version: 0, flexible: false, classic: true }) {
            Ok(()) => {},
            Err(_) => {
                return Err(SerializationError::ValueTooLarge { message: "failed to encode Topics" });
            },
        }
        proof {
            w = w + (map_encode_err(array_bytes::<TopicResponse>(self.topics.deep_view(), Ctx { version: 0, flexible: false, classic: true }), SerializationError::ValueTooLarge { message: "failed to encode Topics" }))->Ok_0;
        }
        assert(buf@ =~= old(buf)@ + w);
        Ok(())
    }

    /// Writes the structure, with the compact encodings when `is_flexible`.
    /// On failure the buffer is left as it was.
    pub fn encode_flexible(&self, buf: &mut Vec<u8>, is_flexible: bool) -> (r: Result<(), SerializationError>)
        ensures
            write_exact(r, old(buf)@, final(buf)@, Self::spec_encode_flexible(self.deep_view(), is_flexible)),
    {
        let start = buf.len();
        let r = self.write_flexible(buf, is_flexible);
        if r.is_err() {
            buf.truncate(start);
        }
        r
    }

    fn write_flexible(&self, buf: &mut Vec<u8>, is_flexible: bool) -> (r: Result<(), SerializationError>)
        ensures
            write_ok(r, old(buf)@, final(buf)@, Self::spec_encode_flexible(self.deep_view(), is_flexible)),
    {
        let ghost mut w: Seq<u8> = Seq::empty();
        put_i32(buf, self.throttle_time_ms);
        proof {
            w = w + (map_encode_err(Ok(i32_bytes(self.throttle_time_ms)), SerializationError::ValueTooLarge { message: "failed to encode ThrottleTimeMs" }))->Ok_0;
        }
        assert(buf@ =~= old(buf)@ + w);
        match encode_array(&self.topics, buf, Ctx { version: 0, flexible: is_flexible, classic: false }) {
            Ok(()) => {},
            Err(_) => {
                return Err(SerializationError::ValueTooLarge { message: "failed to encode Topics" });
            },
        }
        proof {
            w = w + (map_encode_err(array_bytes::<TopicResponse>(self.topics.deep_view(), Ctx { version: 0, flexible: is_flexible, classic: false }), SerializationError::ValueTooLarge { message: "failed to encode Topics" }))->Ok_0;
        }
        assert(buf@ =~= old(buf)@ + w);
        if is_flexible {
            encode_unsigned_varint(0, buf);
            proof {
                w = w + uvarint_bytes(0);
            }
            assert(buf@ =~= old(buf)@ + w);
        }
        Ok(())
    }

    /// Reads the structure in the classic layout.
    /// On failure the reader is put back where it started.
    pub fn decode(buf: &mut Reader) -> (r: Result<Self, SerializationError>)
        ensures
            final(buf).bytes() == old(buf).bytes(),
            read_view_exact(r, Self::spec_decode_classic(old(buf).bytes(), old(buf).pos()), old(buf).pos(), final(buf).pos()),
    {
        let start = buf.position();
        let r = Self::read_classic(buf);
        if r.is_err() {
            buf.set_position(start);
        }
        r
    }

    fn read_classic(buf: &mut Reader) -> (r: Result<Self, SerializationError>)
        ensures
            final(buf).bytes() == old(buf).bytes(),
            read_view_ok(r, Self::spec_decode_classic(old(buf).bytes(), old(buf).pos()), final(buf).pos()),
    {
        let throttle_time_ms = match buf.get_i32() { Ok(v) => v, Err(_) => { return Err(SerializationError::Protocol { message: "failed to decode ThrottleTimeMs" }); } };
        let topics = match decode_array::<TopicResponse>(buf, Ctx { version: 0, flexible: false, classic: true }) { Ok(v) => v, Err(_) => { return Err(SerializationError::Protocol { message: "failed to decode Topics" }); } };
        Ok(DescribeProducersResponse { throttle_time_ms, topics })
    }

    /// Reads the structure, with the compact encodings when `is_flexible`.
    /// On failure the reader is put back where it started.
    pub fn decode_flexible(buf: &mut Reader, is_flexible: bool) -> (r: Result<Self, SerializationError>)
        ensures
            final(buf).bytes() == old(buf).bytes(),
            read_view_exact(r, Self::spec_decode_flexible(old(buf).bytes(), old(buf).pos(), is_flexible), old(buf).pos(), final(buf).pos()),
    {
        let start = buf.position();
        let r = Self::read_flexible(buf, is_flexible);
        if r.is_err() {
            buf.set_position(start);
        }
        r
    }

    fn read_flexible(buf: &mut Reader, is_flexible: bool) -> (r: Result<Self, SerializationError>)
        ensures
            final(buf).bytes() == old(buf).bytes(),
            read_view_ok(r, Self::spec_decode_flexible(old(buf).bytes(), old(buf).pos(), is_flexible), final(buf).pos()),
    {
        let throttle_time_ms = match buf.get_i32() { Ok(v) => v, Err(_) => { return Err(SerializationError::Protocol { message: "failed to decode ThrottleTimeMs" }); } };
        let topics = match decode_array::<TopicResponse>(buf, Ctx { version: 0, flexible: is_flexible, classic: false }) { Ok(v) => v, Err(_) => { return Err(SerializationError::Protocol { message: "failed to decode Topics" }); } };
        if is_flexible {
            let (_tag_count, _) = decode_unsigned_varint(buf)?;
        }
        Ok(DescribeProducersResponse { throttle_time_ms, topics })
    }
}

impl KafkaCodec for DescribeProducersResponse {
    open spec fn spec_encode(m: DescribeProducersResponseModel, ctx: Ctx) -> Result<Seq<u8>, SerializationError> {
        if ctx.classic {
            Self::spec_encode_classic(m)
        } else {
            Self::spec_encode_flexible(m, ctx.flexible)
        }
    }

    open spec fn reads_back(v: DescribeProducersResponseModel, ctx: Ctx) -> bool {
        if ctx.classic {
            Self::reads_back_classic(v)
        } else {
            Self::reads_back_flexible(v, ctx.flexible)
        }
    }

    proof fn lemma_read_back(pre: Seq<u8>, v: DescribeProducersResponseModel, post: Seq<u8>, ctx: Ctx) {
        if ctx.classic {
            Self::lemma_classic_read_back(pre, v, post);
            assert(Self::spec_decode(pre + Self::spec_encode(v, ctx)->Ok_0 + post, pre.len() as int, ctx)
                == Self::spec_decode_classic(pre + Self::spec_encode_classic(v)->Ok_0 + post, pre.len() as int));
        } else {
            Self::lemma_flexible_read_back(pre, v, post, ctx.flexible);
            assert(Self::spec_decode(pre + Self::spec_encode(v, ctx)->Ok_0 + post, pre.len() as int, ctx)
                == Self::spec_decode_flexible(pre + Self::spec_encode_flexible(v, ctx.flexible)->Ok_0 + post, pre.len() as int, ctx.flexible));
        }
    }

    open spec fn spec_decode(s: Seq<u8>, pos: int, ctx: Ctx) -> Result<(DescribeProducersResponseModel, int), SerializationError> {
        if ctx.classic {
            Self::spec_decode_classic(s, pos)
        } else {
            Self::spec_decode_flexible(s, pos, ctx.flexible)
        }
    }

    fn encode_ctx(&self, buf: &mut Vec<u8>, ctx: Ctx) -> (r: Result<(), SerializationError>) {
        if ctx.classic {
            self.write_classic(buf)
        } else {
            self.write_flexible(buf, ctx.flexible)
        }
    }

    fn decode_ctx(buf: &mut Reader, ctx: Ctx) -> (r: Result<Self, SerializationError>) {
        if ctx.classic {
            Self::read_classic(buf)
        } else {
            Self::read_flexible(buf, ctx.flexible)
        }
    }
}

impl DescribeProducersResponse {
    /// The API key of this message.
    pub fn get_api_key() -> (r: ApiKey)
        ensures
            r.0 == 61,
    {
        ApiKey::new(61)
    }

    /// The oldest version of this message.
    pub fn get_min_supported_version() -> (r: ApiVersion)
        ensures
            r.0 == 0,
    {
        ApiVersion::new(0)
    }

    /// The newest version of this message.
    pub fn get_max_supported_version() -> (r: ApiVersion)
        ensures
            r.0 == 0,
    {
        ApiVersion::new(0)
    }

    /// The encoding of a whole message body at `version`.
    pub open spec fn spec_serialize(m: DescribeProducersResponseModel, version: i16) -> Result<Seq<u8>, SerializationError> {
        let is_flexible = true;
        let ctx = Ctx { version, flexible: is_flexible, classic: false };
        let r = Ok(Seq::<u8>::empty());
        let r = then(r, map_encode_err(Ok(i32_bytes(m.throttle_time_ms)), SerializationError::Encode("failed to encode ThrottleTimeMs")));
        let r = then(r, map_encode_err(array_bytes::<TopicResponse>(m.topics, Ctx { version: ctx.version, flexible: ctx.flexible, classic: false }), SerializationError::Encode("failed to encode Topics")));
        let r = if ctx.flexible { then(r, Ok(uvarint_bytes(0))) } else { r };
        r
    }

    /// The message body read at `version`.
    pub open spec fn spec_deserialize(s: Seq<u8>, pos: int, version: i16) -> Result<(DescribeProducersResponseModel, int), SerializationError> {
        let is_flexible = true;
        let ctx = Ctx { version, flexible: is_flexible, classic: false };
        match map_decode_err(parse_i32(s, pos), SerializationError::Decode("failed to decode ThrottleTimeMs")) {
            Err(e) => Err(e),
            Ok((throttle_time_ms, pos)) =>
            match map_decode_err(parse_array::<TopicResponse>(s, pos, Ctx { version: ctx.version, flexible: ctx.flexible, classic: false }), SerializationError::Decode("failed to decode Topics")) {
                Err(e) => Err(e),
                Ok((topics, pos)) =>
                Ok((DescribeProducersResponseModel { throttle_time_ms, topics }, pos))
            }
        }
    }

    /// Message bodies that read back when written at `version`: every field that
    /// the version leaves out holds its default, and nested values read back.
    pub open spec fn reads_back_message(m: DescribeProducersResponseModel, version: i16) -> bool {
        let is_flexible = true;
        let ctx = Ctx { version, flexible: is_flexible, classic: false };
        &&& forall|i: int| 0 <= i < m.topics.len() ==> #[trigger] <TopicResponse as KafkaCodec>::reads_back(m.topics[i], Ctx { version: ctx.version, flexible: ctx.flexible, classic: false })
    }

    /// A message body that can be written at `version` and reads back: reading a
    /// body at `version` from its bytes, wherever they stand, gives the same message.
    #[verifier::spinoff_prover]
    pub proof fn lemma_message_read_back(pre: Seq<u8>, m: DescribeProducersResponseModel, post: Seq<u8>, version: i16)
        requires
            Self::spec_serialize(m, version) is Ok,
            Self::reads_back_message(m, version),
        ensures
            Self::spec_deserialize(pre + Self::spec_serialize(m, version)->Ok_0 + post, pre.len() as int, version) == Ok::<(DescribeProducersResponseModel, int), SerializationError>((m, pre.len() as int + Self::spec_serialize(m, version)->Ok_0.len() - (if true { 1int } else { 0int }))),
    {
        let is_flexible = true;
        let ctx = Ctx { version, flexible: is_flexible, classic: false };
        let b0 = i32_bytes(m.throttle_time_ms);
        let b1 = (array_bytes::<TopicResponse>(m.topics, Ctx { version: ctx.version, flexible: ctx.flexible, classic: false }))->Ok_0;
        let b2 = if ctx.flexible { uvarint_bytes(0) } else { Seq::<u8>::empty() };
        let t3 = post;
        let t2 = b2 + t3;
        let t1 = b1 + t2;
        let t0 = b0 + t1;
        let e = Self::spec_serialize(m, version)->Ok_0;
        assert(e =~= Seq::<u8>::empty() + b0 + b1 + b2);
        lemma_seq_assoc(((Seq::<u8>::empty() + b0) + b1), b2, post);
        lemma_seq_assoc((Seq::<u8>::empty() + b0), b1, (b2 + post));
        lemma_seq_assoc(Seq::<u8>::empty(), b0, (b1 + (b2 + post)));
        lemma_seq_empty_left((b0 + (b1 + (b2 + post))));
        let s = pre + e + post;
        lemma_seq_assoc(pre, e, post);
        assert(s == pre + t0);
        let a0 = pre;
        assert(parse_i32(s, a0.len() as int) == Ok::<(i32, int), SerializationError>((m.throttle_time_ms, a0.len() as int + b0.len()))) by {
            lemma_seq_assoc(a0, b0, t1);
            lemma_i32_roundtrip(a0, m.throttle_time_ms, t1);
        }
        lemma_seq_assoc(a0, b0, t1);
        let a1 = a0 + b0;
        assert(parse_array::<TopicResponse>(s, a1.len() as int, Ctx { version: ctx.version, flexible: ctx.flexible, classic: false }) == Ok::<(Seq<<TopicResponse as DeepView>::V>, int), SerializationError>((m.topics, a1.len() as int + b1.len()))) by {
            assert(array_bytes::<TopicResponse>(m.topics, Ctx { version: ctx.version, flexible: ctx.flexible, classic: false }) is Ok);
            lemma_seq_assoc(a1, b1, t2);
            lemma_items_read_back::<TopicResponse>(m.topics, Ctx { version: ctx.version, flexible: ctx.flexible, classic: false });
            lemma_array_roundtrip::<TopicResponse>(a1, m.topics, t2, Ctx { version: ctx.version, flexible: ctx.flexible, classic: false });
        }
        lemma_seq_assoc(a1, b1, t2);
        let a2 = a1 + b1;
    }

    /// The bytes written: the encoding of each field, in the order of the
    /// protocol's layout. Reading them back, wherever they stand, gives the value,
    /// with each field that the version leaves out at its default.
    #[verifier::spinoff_prover]
    pub proof fn lemma_message_layout(pre: Seq<u8>, m: DescribeProducersResponseModel, post: Seq<u8>, version: i16)
        requires
            Self::spec_serialize(m, version) is Ok,
        ensures
            Self::spec_serialize(m, version) == Ok::<Seq<u8>, SerializationError>((i32_bytes(m.throttle_time_ms)) + ((array_bytes::<TopicResponse>(m.topics, Ctx { version: version, flexible: (true), classic: false }))->Ok_0) + (if (true) { uvarint_bytes(0) } else { Seq::<u8>::empty() })),
            Self::reads_back_message(m, version) ==> Self::spec_deserialize(pre + ((i32_bytes(m.throttle_time_ms)) + ((array_bytes::<TopicResponse>(m.topics, Ctx { version: version, flexible: (true), classic: false }))->Ok_0) + (if (true) { uvarint_bytes(0) } else { Seq::<u8>::empty() })) + post, pre.len() as int, version) == Ok::<(DescribeProducersResponseModel, int), SerializationError>((m, pre.len() as int + ((i32_bytes(m.throttle_time_ms)) + ((array_bytes::<TopicResponse>(m.topics, Ctx { version: version, flexible: (true), classic: false }))->Ok_0) + (if (true) { uvarint_bytes(0) } else { Seq::<u8>::empty() })).len() - (if true { 1int } else { 0int }))),
    {
        let is_flexible = true;
        let ctx = Ctx { version, flexible: is_flexible, classic: false };
        let b0 = i32_bytes(m.throttle_time_ms);
        let b1 = (array_bytes::<TopicResponse>(m.topics, Ctx { version: ctx.version, flexible: ctx.flexible, classic: false }))->Ok_0;
        let b2 = if ctx.flexible { uvarint_bytes(0) } else { Seq::<u8>::empty() };
        let e = Self::spec_serialize(m, version)->Ok_0;
        assert(e =~= Seq::<u8>::empty() + b0 + b1 + b2);
        assert(e =~= b0 + b1 + b2);
        if Self::reads_back_message(m, version) {
            Self::lemma_message_read_back(pre, m, post, version);
        }
    }

    /// Writing succeeds exactly when every field that the version carries can be
    /// encoded and every field that it leaves out, where leaving it out is an
    /// error, holds its default.
    #[verifier::spinoff_prover]
    pub proof fn lemma_message_write_succeeds(m: DescribeProducersResponseModel, version: i16)
        ensures
            Self::spec_serialize(m, version) is Ok <==> (map_encode_err(Ok(i32_bytes(m.throttle_time_ms)), SerializationError::Encode("failed to encode ThrottleTimeMs")) is Ok) && (map_encode_err(array_bytes::<TopicResponse>(m.topics, Ctx { version: version, flexible: (true), classic: false }), SerializationError::Encode("failed to encode Topics")) is Ok),
    {
        let is_flexible = true;
        let ctx = Ctx { version, flexible: is_flexible, classic: false };
    }

    /// Writes the message body for `version`, which must be a supported version.
    /// On failure the buffer is left as it was.
    pub fn serialize(&self, version: ApiVersion, buf: &mut Vec<u8>) -> (r: Result<(), SerializationError>)
        requires
            0 <= version.0 <= 0,
        ensures
            write_exact(r, old(buf)@, final(buf)@, Self::spec_serialize(self.deep_view(), version.0)),
    {
        let start = buf.len();
        let r = self.write_body(version, buf);
        if r.is_err() {
            buf.truncate(start);
        }
        r
    }

    fn write_body(&self, version: ApiVersion, buf: &mut Vec<u8>) -> (r: Result<(), SerializationError>)
        requires
            0 <= version.0 <= 0,
        ensures
            write_ok(r, old(buf)@, final(buf)@, Self::spec_serialize(self.deep_view(), version.0)),
    {
        let is_flexible = true;
        let ctx = Ctx::new(version, is_flexible);
        let ghost mut w: Seq<u8> = Seq::empty();
        put_i32(buf, self.throttle_time_ms);
        proof {
            w = w + (map_encode_err(Ok(i32_bytes(self.throttle_time_ms)), SerializationError::Encode("failed to encode ThrottleTimeMs")))->Ok_0;
        }
        assert(buf@ =~= old(buf)@ + w);
        match encode_array(&self.topics, buf, Ctx { version: ctx.version, flexible: ctx.flexible, classic: false }) {
            Ok(()) => {},
            Err(_) => {
                return Err(SerializationError::Encode("failed to encode Topics"));
            },
        }
        proof {
            w = w + (map_encode_err(array_bytes::<TopicResponse>(self.topics.deep_view(), Ctx { version: ctx.version, flexible: ctx.flexible, classic: false }), SerializationError::Encode("failed to encode Topics")))->Ok_0;
        }
        assert(buf@ =~= old(buf)@ + w);
        if ctx.flexible {
            encode_unsigned_varint(0, buf);
            proof {
                w = w + uvarint_bytes(0);
            }
            assert(buf@ =~= old(buf)@ + w);
        }
        Ok(())
    }

    /// Reads a message body written for `version`.
    /// On failure the reader is put back where it started.
    pub fn deserialize(version: ApiVersion, buf: &mut Reader) -> (r: Result<Self, SerializationError>)
        ensures
            final(buf).bytes() == old(buf).bytes(),
            read_view_exact(r, Self::spec_deserialize(old(buf).bytes(), old(buf).pos(), version.0), old(buf).pos(), final(buf).pos()),
    {
        let start = buf.position();
        let r = Self::read_body(version, buf);
        if r.is_err() {
            buf.set_position(start);
        }
        r
    }

    fn read_body(version: ApiVersion, buf: &mut Reader) -> (r: Result<Self, SerializationError>)
        ensures
            final(buf).bytes() == old(buf).bytes(),
            read_view_ok(r, Self::spec_deserialize(old(buf).bytes(), old(buf).pos(), version.0), final(buf).pos()),
    {
        let is_flexible = true;
        let ctx = Ctx::new(version, is_flexible);
        let throttle_time_ms = match buf.get_i32() { Ok(v) => v, Err(_) => { return Err(SerializationError::Decode("failed to decode ThrottleTimeMs")); } };
        let topics = match decode_array::<TopicResponse>(buf, Ctx { version: ctx.version, flexible: ctx.flexible, classic: false }) { Ok(v) => v, Err(_) => { return Err(SerializationError::Decode("failed to decode Topics")); } };
        Ok(DescribeProducersResponse { throttle_time_ms, topics })
    }
}

// -------------------------------------------------------
// PartitionResponse
// -------------------------------------------------------
#[derive(Clone, Debug, Default, PartialEq)]
pub struct PartitionResponse {
    /// The partition index.
    pub partition_index: i32,
    /// The partition error code, or 0 if there was no error.
    pub error_code: i16,
    /// The partition error message, which may be null if no additional details are available.
    pub error_message: Option<String>,
    /// The active producers for the partition.
    pub active_producers: Vec<ProducerState>,
}

/// The contents of `PartitionResponse`, with strings as characters and
/// nested values by their contents.
pub struct PartitionResponseModel {
    pub partition_index: i32,
    pub error_code: i16,
    pub error_message: Option<Seq<char>>,
    pub active_producers: Seq<<ProducerState as DeepView>::V>,
}

impl DeepView for PartitionResponse {
    type V = PartitionResponseModel;

    open spec fn deep_view(&self) -> PartitionResponseModel {
        PartitionResponseModel {
            partition_index: self.partition_index,
            error_code: self.error_code,
            error_message: self.error_message.deep_view(),
            active_producers: self.active_producers.deep_view(),
        }
    }
}

impl PartitionResponse {
    /// The classic encoding of the structure.
    pub open spec fn spec_encode_classic(m: PartitionResponseModel) -> Result<Seq<u8>, SerializationError> {
        let r = Ok(Seq::<u8>::empty());
        let r = then(r, map_encode_err(Ok(i32_bytes(m.partition_index)), SerializationError::ValueTooLarge { message: "failed to encode PartitionIndex" }));
        let r = then(r, map_encode_err(Ok(i16_bytes(m.error_code)), SerializationError::ValueTooLarge { message: "failed to encode ErrorCode" }));
        let r = then(r, map_encode_err(nullable_string_bytes(m.error_message, false), SerializationError::ValueTooLarge { message: "failed to encode ErrorMessage" }));
        let r = then(r, map_encode_err(array_bytes::<ProducerState>(m.active_producers, Ctx { version: 0, flexible: false, classic: true }), SerializationError::ValueTooLarge { message: "failed to encode ActiveProducers" }));
        r
    }

    /// The flexible-aware encoding of the structure.
    pub open spec fn spec_encode_flexible(m: PartitionResponseModel, is_flexible: bool) -> Result<Seq<u8>, SerializationError> {
        let r = Ok(Seq::<u8>::empty());
        let r = then(r, map_encode_err(Ok(i32_bytes(m.partition_index)), SerializationError::ValueTooLarge { message: "failed to encode PartitionIndex" }));
        let r = then(r, map_encode_err(Ok(i16_bytes(m.error_code)), SerializationError::ValueTooLarge { message: "failed to encode ErrorCode" }));
        let r = if is_flexible { match m.error_message { Some(v) => then(then(r, Ok(uvarint_bytes(1))), map_encode_err(string_bytes(v, true), SerializationError::ValueTooLarge { message: "failed to encode ErrorMessage" })), None => then(r, Ok(uvarint_bytes(0))) } } else { then(r, map_encode_err(nullable_string_bytes(m.error_message, false), SerializationError::ValueTooLarge { message: "failed to encode ErrorMessage" })) };
        let r = then(r, map_encode_err(array_bytes::<ProducerState>(m.active_producers, Ctx { version: 0, flexible: is_flexible, classic: false }), SerializationError::ValueTooLarge { message: "failed to encode ActiveProducers" }));
        let r = if is_flexible { then(r, Ok(uvarint_bytes(0))) } else { r };
        r
    }

    /// The structure read by the classic decoder.
    pub open spec fn spec_decode_classic(s: Seq<u8>, pos: int) -> Result<(PartitionResponseModel, int), SerializationError> {
        match map_decode_err(parse_i32(s, pos), SerializationError::Protocol { message: "failed to decode PartitionIndex" }) {
            Err(e) => Err(e),
            Ok((partition_index, pos)) =>
            match map_decode_err(parse_i16(s, pos), SerializationError::Protocol { message: "failed to decode ErrorCode" }) {
                Err(e) => Err(e),
                Ok((error_code, pos)) =>
                match map_decode_err(parse_nullable_string(s, pos, false), SerializationError::Protocol { message: "failed to decode ErrorMessage" }) {
                    Err(e) => Err(e),
                    Ok((error_message, pos)) =>
                    match map_decode_err(parse_array::<ProducerState>(s, pos, Ctx { version: 0, flexible: false, classic: true }), SerializationError::Protocol { message: "failed to decode ActiveProducers" }) {
                        Err(e) => Err(e),
                        Ok((active_producers, pos)) =>
                        Ok((PartitionResponseModel { partition_index, error_code, error_message, active_producers }, pos))
                    }
                }
            }
        }
    }

    /// The structure read by the flexible-aware decoder.
    pub open spec fn spec_decode_flexible(s: Seq<u8>, pos: int, is_flexible: bool) -> Result<(PartitionResponseModel, int), SerializationError> {
        match map_decode_err(parse_i32(s, pos), SerializationError::Protocol { message: "failed to decode PartitionIndex" }) {
            Err(e) => Err(e),
            Ok((partition_index, pos)) =>
            match map_decode_err(parse_i16(s, pos), SerializationError::Protocol { message: "failed to decode ErrorCode" }) {
                Err(e) => Err(e),
                Ok((error_code, pos)) =>
                match (if is_flexible { map_decode_err(parse_nullable_string(s, pos, true), SerializationError::Protocol { message: "failed to decode ErrorMessage" }) } else { map_decode_err(parse_nullable_string(s, pos, false), SerializationError::Protocol { message: "failed to decode ErrorMessage" }) }) {
                    Err(e) => Err(e),
                    Ok((error_message, pos)) =>
                    match map_decode_err(parse_array::<ProducerState>(s, pos, Ctx { version: 0, flexible: is_flexible, classic: false }), SerializationError::Protocol { message: "failed to decode ActiveProducers" }) {
                        Err(e) => Err(e),
                        Ok((active_producers, pos)) =>
                        match (if is_flexible { parse_uvarint(s, pos) } else { Ok((0u64, pos)) }) {
                            Err(e) => Err(e),
                            Ok((_tag_count, pos)) =>
                            Ok((PartitionResponseModel { partition_index, error_code, error_message, active_producers }, pos))
                        }
                    }
                }
            }
        }
    }

    /// Values of the structure that read back from their classic encoding:
    /// nested values read back.
    pub open spec fn reads_back_classic(m: PartitionResponseModel) -> bool {
        &&& forall|i: int| 0 <= i < m.active_producers.len() ==> #[trigger] <ProducerState as KafkaCodec>::reads_back(m.active_producers[i], Ctx { version: 0, flexible: false, classic: true })
    }

    /// A value that can be written and reads back: decoding its encoding, wherever
    /// it stands, gives the value and the position just after it.
    #[verifier::spinoff_prover]
    pub proof fn lemma_classic_read_back(pre: Seq<u8>, m: PartitionResponseModel, post: Seq<u8>)
        requires
            Self::spec_encode_classic(m) is Ok,
            Self::reads_back_classic(m),
        ensures
            Self::spec_decode_classic(pre + Self::spec_encode_classic(m)->Ok_0 + post, pre.len() as int) == Ok::<(PartitionResponseModel, int), SerializationError>((m, pre.len() as int + Self::spec_encode_classic(m)->Ok_0.len())),
    {
        let b0 = i32_bytes(m.partition_index);
        let b1 = i16_bytes(m.error_code);
        let b2 = (nullable_string_bytes(m.error_message, false))->Ok_0;
        let b3 = (array_bytes::<ProducerState>(m.active_producers, Ctx { version: 0, flexible: false, classic: true }))->Ok_0;
        let t4 = post;
        let t3 = b3 + t4;
        let t2 = b2 + t3;
        let t1 = b1 + t2;
        let t0 = b0 + t1;
        let e = Self::spec_encode_classic(m)->Ok_0;
        assert(e =~= Seq::<u8>::empty() + b0 + b1 + b2 + b3);
        lemma_seq_assoc((((Seq::<u8>::empty() + b0) + b1) + b2), b3, post);
        lemma_seq_assoc(((Seq::<u8>::empty() + b0) + b1), b2, (b3 + post));
        lemma_seq_assoc((Seq::<u8>::empty() + b0), b1, (b2 + (b3 + post)));
        lemma_seq_assoc(Seq::<u8>::empty(), b0, (b1 + (b2 + (b3 + post))));
        lemma_seq_empty_left((b0 + (b1 + (b2 + (b3 + post)))));
        let s = pre + e + post;
        lemma_seq_assoc(pre, e, post);
        assert(s == pre + t0);
        let a0 = pre;
        assert(parse_i32(s, a0.len() as int) == Ok::<(i32, int), SerializationError>((m.partition_index, a0.len() as int + b0.len()))) by {
            lemma_seq_assoc(a0, b0, t1);
            lemma_i32_roundtrip(a0, m.partition_index, t1);
        }
        lemma_seq_assoc(a0, b0, t1);
        let a1 = a0 + b0;
        assert(parse_i16(s, a1.len() as int) == Ok::<(i16, int), SerializationError>((m.error_code, a1.len() as int + b1.len()))) by {
            lemma_seq_assoc(a1, b1, t2);
            lemma_i16_roundtrip(a1, m.error_code, t2);
        }
        lemma_seq_assoc(a1, b1, t2);
        let a2 = a1 + b1;
        assert(parse_nullable_string(s, a2.len() as int, false) == Ok::<(Option<Seq<char>>, int), SerializationError>((m.error_message, a2.len() as int + b2.len()))) by {
            assert(nullable_string_bytes(m.error_message, false) is Ok);
            lemma_seq_assoc(a2, b2, t3);
            lemma_nullable_string_roundtrip(a2, m.error_message, t3, false);
        }
        lemma_seq_assoc(a2, b2, t3);
        let a3 = a2 + b2;
        assert(parse_array::<ProducerState>(s, a3.len() as int, Ctx { version: 0, flexible: false, classic: true }) == Ok::<(Seq<<ProducerState as DeepView>::V>, int), SerializationError>((m.active_producers, a3.len() as int + b3.len()))) by {
            assert(array_bytes::<ProducerState>(m.active_producers, Ctx { version: 0, flexible: false, classic: true }) is Ok);
            lemma_seq_assoc(a3, b3, t4);
            lemma_items_read_back::<ProducerState>(m.active_producers, Ctx { version: 0, flexible: false, classic: true });
            lemma_array_roundtrip::<ProducerState>(a3, m.active_producers, t4, Ctx { version: 0, flexible: false, classic: true });
        }
    }

    /// The bytes written: the encoding of each field, in the order of the
    /// protocol's layout. Reading them back, wherever they stand, gives the value,
    /// with each field that the version leaves out at its default.
    #[verifier::spinoff_prover]
    pub proof fn lemma_classic_layout(pre: Seq<u8>, m: PartitionResponseModel, post: Seq<u8>)
        requires
            Self::spec_encode_classic(m) is Ok,
        ensures
            Self::spec_encode_classic(m) == Ok::<Seq<u8>, SerializationError>((i32_bytes(m.partition_index)) + (i16_bytes(m.error_code)) + ((nullable_string_bytes(m.error_message, false))->Ok_0) + ((array_bytes::<ProducerState>(m.active_producers, Ctx { version: 0, flexible: false, classic: true }))->Ok_0)),
            Self::reads_back_classic(m) ==> Self::spec_decode_classic(pre + ((i32_bytes(m.partition_index)) + (i16_bytes(m.error_code)) + ((nullable_string_bytes(m.error_message, false))->Ok_0) + ((array_bytes::<ProducerState>(m.active_producers, Ctx { version: 0, flexible: false, classic: true }))->Ok_0)) + post, pre.len() as int) == Ok::<(PartitionResponseModel, int), SerializationError>((m, pre.len() as int + ((i32_bytes(m.partition_index)) + (i16_bytes(m.error_code)) + ((nullable_string_bytes(m.error_message, false))->Ok_0) + ((array_bytes::<ProducerState>(m.active_producers, Ctx { version: 0, flexible: false, classic: true }))->Ok_0)).len())),
    {
        let b0 = i32_bytes(m.partition_index);
        let b1 = i16_bytes(m.error_code);
        let b2 = (nullable_string_bytes(m.error_message, false))->Ok_0;
        let b3 = (array_bytes::<ProducerState>(m.active_producers, Ctx { version: 0, flexible: false, classic: true }))->Ok_0;
        let e = Self::spec_encode_classic(m)->Ok_0;
        assert(e =~= Seq::<u8>::empty() + b0 + b1 + b2 + b3);
        assert(e =~= b0 + b1 + b2 + b3);
        if Self::reads_back_classic(m) {
            Self::lemma_classic_read_back(pre, m, post);
        }
    }

    /// Writing succeeds exactly when every field that the version carries can be
    /// encoded and every field that it leaves out, where leaving it out is an
    /// error, holds its default.
    #[verifier::spinoff_prover]
    pub proof fn lemma_classic_write_succeeds(m: PartitionResponseModel)
        ensures
            Self::spec_encode_classic(m) is Ok <==> (map_encode_err(Ok(i32_bytes(m.partition_index)), SerializationError::ValueTooLarge { message: "failed to encode PartitionIndex" }) is Ok) && (map_encode_err(Ok(i16_bytes(m.error_code)), SerializationError::ValueTooLarge { message: "failed to encode ErrorCode" }) is Ok) && (map_encode_err(nullable_string_bytes(m.error_message, false), SerializationError::ValueTooLarge { message: "failed to encode ErrorMessage" }) is Ok) && (map_encode_err(array_bytes::<ProducerState>(m.active_producers, Ctx { version: 0, flexible: false, classic: true }), SerializationError::ValueTooLarge { message: "failed to encode ActiveProducers" }) is Ok),
    {
    }

    /// Values of the structure that read back from their flexible-aware encoding:
    /// nested values read back.
    /// In compact mode a present optional value is written after a presence marker
    /// that the decoder does not read, so only absent ones read back.
    pub open spec fn reads_back_flexible(m: PartitionResponseModel, is_flexible: bool) -> bool {
        &&& is_flexible ==> m.error_message is None
        &&& forall|i: int| 0 <= i < m.active_producers.len() ==> #[trigger] <ProducerState as KafkaCodec>::reads_back(m.active_producers[i], Ctx { version: 0, flexible: is_flexible, classic: false })
    }

    /// A value that can be written and reads back: decoding its encoding, wherever
    /// it stands, gives the value and the position just after it.
    #[verifier::spinoff_prover]
    pub proof fn lemma_flexible_read_back(pre: Seq<u8>, m: PartitionResponseModel, post: Seq<u8>, is_flexible: bool)
        requires
            Self::spec_encode_flexible(m, is_flexible) is Ok,
            Self::reads_back_flexible(m, is_flexible),
        ensures
            Self::spec_decode_flexible(pre + Self::spec_encode_flexible(m, is_flexible)->Ok_0 + post, pre.len() as int, is_flexible) == Ok::<(PartitionResponseModel, int), SerializationError>((m, pre.len() as int + Self::spec_encode_flexible(m, is_flexible)->Ok_0.len())),
    {
        let b0 = i32_bytes(m.partition_index);
        let b1 = i16_bytes(m.error_code);
        let b2 = if is_flexible { match m.error_message { Some(v) => uvarint_bytes(1) + (string_bytes(v, true))->Ok_0, None => uvarint_bytes(0) } } else { (nullable_string_bytes(m.error_message, false))->Ok_0 };
        let b3 = (array_bytes::<ProducerState>(m.active_producers, Ctx { version: 0, flexible: is_flexible, classic: false }))->Ok_0;
        let b4 = if is_flexible { uvarint_bytes(0) } else { Seq::<u8>::empty() };
        let t5 = post;
        let t4 = b4 + t5;
        let t3 = b3 + t4;
        let t2 = b2 + t3;
        let t1 = b1 + t2;
        let t0 = b0 + t1;
        let e = Self::spec_encode_flexible(m, is_flexible)->Ok_0;
        assert(e =~= Seq::<u8>::empty() + b0 + b1 + b2 + b3 + b4);
        lemma_seq_assoc(((((Seq::<u8>::empty() + b0) + b1) + b2) + b3), b4, post);
        lemma_seq_assoc((((Seq::<u8>::empty() + b0) + b1) + b2), b3, (b4 + post));
        lemma_seq_assoc(((Seq::<u8>::empty() + b0) + b1), b2, (b3 + (b4 + post)));
        lemma_seq_assoc((Seq::<u8>::empty() + b0), b1, (b2 + (b3 + (b4 + post))));
        lemma_seq_assoc(Seq::<u8>::empty(), b0, (b1 + (b2 + (b3 + (b4 + post)))));
        lemma_seq_empty_left((b0 + (b1 + (b2 + (b3 + (b4 + post))))));
        let s = pre + e + post;
        lemma_seq_assoc(pre, e, post);
        assert(s == pre + t0);
        let a0 = pre;
        assert(parse_i32(s, a0.len() as int) == Ok::<(i32, int), SerializationError>((m.partition_index, a0.len() as int + b0.len()))) by {
            lemma_seq_assoc(a0, b0, t1);
            lemma_i32_roundtrip(a0, m.partition_index, t1);
        }
        lemma_seq_assoc(a0, b0, t1);
        let a1 = a0 + b0;
        assert(parse_i16(s, a1.len() as int) == Ok::<(i16, int), SerializationError>((m.error_code, a1.len() as int + b1.len()))) by {
            lemma_seq_assoc(a1, b1, t2);
            lemma_i16_roundtrip(a1, m.error_code, t2);
        }
        lemma_seq_assoc(a1, b1, t2);
        let a2 = a1 + b1;
        if is_flexible {
            match m.error_message {
                Some(v) => {
                    let x = (string_bytes(v, true))->Ok_0;
                    assert(parse_uvarint(s, a2.len() as int) == Ok::<(u64, int), SerializationError>((1u64, a2.len() as int + 1))) by {
                        assert(s =~= a2 + uvarint_bytes(1) + (x + t3));
                        lemma_uvarint_roundtrip(a2, 1, x + t3);
                    }
                    let a1x = a2 + uvarint_bytes(1);
                    assert(parse_string(s, a1x.len() as int, true) == Ok::<(Seq<char>, int), SerializationError>((v, a1x.len() as int + x.len()))) by {
                        assert(s =~= a1x + x + t3);
                        lemma_string_roundtrip(a1x, v, t3, true);
                    }
                },
                None => {
                    assert(parse_nullable_string(s, a2.len() as int, true) == Ok::<(Option<Seq<char>>, int), SerializationError>((None::<Seq<char>>, a2.len() as int + 1))) by {
                        reveal(nullable_string_bytes);
                        assert(s =~= a2 + b2 + t3);
                        lemma_nullable_string_roundtrip(a2, m.error_message, t3, true);
                    }
                },
            }
        } else {
            assert(parse_nullable_string(s, a2.len() as int, false) == Ok::<(Option<Seq<char>>, int), SerializationError>((m.error_message, a2.len() as int + b2.len()))) by {
                assert(nullable_string_bytes(m.error_message, false) is Ok);
                lemma_seq_assoc(a2, b2, t3);
                lemma_nullable_string_roundtrip(a2, m.error_message, t3, false);
            }
        }
        lemma_seq_assoc(a2, b2, t3);
        let a3 = a2 + b2;
        assert(parse_array::<ProducerState>(s, a3.len() as int, Ctx { version: 0, flexible: is_flexible, classic: false }) == Ok::<(Seq<<ProducerState as DeepView>::V>, int), SerializationError>((m.active_producers, a3.len() as int + b3.len()))) by {
            assert(array_bytes::<ProducerState>(m.active_producers, Ctx { version: 0, flexible: is_flexible, classic: false }) is Ok);
            lemma_seq_assoc(a3, b3, t4);
            lemma_items_read_back::<ProducerState>(m.active_producers, Ctx { version: 0, flexible: is_flexible, classic: false });
            lemma_array_roundtrip::<ProducerState>(a3, m.active_producers, t4, Ctx { version: 0, flexible: is_flexible, classic: false });
        }
        lemma_seq_assoc(a3, b3, t4);
        let a4 = a3 + b3;
        if is_flexible {
            assert(parse_uvarint(s, a4.len() as int) == Ok::<(u64, int), SerializationError>((0u64, a4.len() as int + b4.len()))) by {
                lemma_seq_assoc(a4, b4, t5);
                lemma_uvarint_roundtrip(a4, 0, t5);
            }
        }
    }

    /// The bytes written: the encoding of each field, in the order of the
    /// protocol's layout. Reading them back, wherever they stand, gives the value,
    /// with each field that the version leaves out at its default.
    #[verifier::spinoff_prover]
    pub proof fn lemma_flexible_layout(pre: Seq<u8>, m: PartitionResponseModel, post: Seq<u8>, is_flexible: bool)
        requires
            Self::spec_encode_flexible(m, is_flexible) is Ok,
        ensures
            Self::spec_encode_flexible(m, is_flexible) == Ok::<Seq<u8>, SerializationError>((i32_bytes(m.partition_index)) + (i16_bytes(m.error_code)) + (if is_flexible { match m.error_message { Some(v) => uvarint_bytes(1) + (string_bytes(v, true))->Ok_0, None => uvarint_bytes(0) } } else { (nullable_string_bytes(m.error_message, false))->Ok_0 }) + ((array_bytes::<ProducerState>(m.active_producers, Ctx { version: 0, flexible: is_flexible, classic: false }))->Ok_0) + (if is_flexible { uvarint_bytes(0) } else { Seq::<u8>::empty() })),
            Self::reads_back_flexible(m, is_flexible) ==> Self::spec_decode_flexible(pre + ((i32_bytes(m.partition_index)) + (i16_bytes(m.error_code)) + (if is_flexible { match m.error_message { Some(v) => uvarint_bytes(1) + (string_bytes(v, true))->Ok_0, None => uvarint_bytes(0) } } else { (nullable_string_bytes(m.error_message, false))->Ok_0 }) + ((array_bytes::<ProducerState>(m.active_producers, Ctx { version: 0, flexible: is_flexible, classic: false }))->Ok_0) + (if is_flexible { uvarint_bytes(0) } else { Seq::<u8>::empty() })) + post, pre.len() as int, is_flexible) == Ok::<(PartitionResponseModel, int), SerializationError>((m, pre.len() as int + ((i32_bytes(m.partition_index)) + (i16_bytes(m.error_code)) + (if is_flexible { match m.error_message { Some(v) => uvarint_bytes(1) + (string_bytes(v, true))->Ok_0, None => uvarint_bytes(0) } } else { (nullable_string_bytes(m.error_message, false))->Ok_0 }) + ((array_bytes::<ProducerState>(m.active_producers, Ctx { version: 0, flexible: is_flexible, classic: false }))->Ok_0) + (if is_flexible { uvarint_bytes(0) } else { Seq::<u8>::empty() })).len())),
    {
        let b0 = i32_bytes(m.partition_index);
        let b1 = i16_bytes(m.error_code);
        let b2 = if is_flexible { match m.error_message { Some(v) => uvarint_bytes(1) + (string_bytes(v, true))->Ok_0, None => uvarint_bytes(0) } } else { (nullable_string_bytes(m.error_message, false))->Ok_0 };
        let b3 = (array_bytes::<ProducerState>(m.active_producers, Ctx { version: 0, flexible: is_flexible, classic: false }))->Ok_0;
        let b4 = if is_flexible { uvarint_bytes(0) } else { Seq::<u8>::empty() };
        let e = Self::spec_encode_flexible(m, is_flexible)->Ok_0;
        assert(e =~= Seq::<u8>::empty() + b0 + b1 + b2 + b3 + b4);
        assert(e =~= b0 + b1 + b2 + b3 + b4);
        if Self::reads_back_flexible(m, is_flexible) {
            Self::lemma_flexible_read_back(pre, m, post, is_flexible);
        }
    }

    /// With the compact encodings off, the flexible-aware layout is the classic
    /// layout: both write the same bytes.
    pub proof fn lemma_flexible_off_writes_classic(m: PartitionResponseModel)
        ensures
            Self::spec_encode_flexible(m, false) == Self::spec_encode_classic(m),
    {
        assert forall|i: int| 0 <= i < m.active_producers.len() implies <ProducerState as KafkaCodec>::spec_encode(#[trigger] m.active_producers[i], Ctx { version: 0, flexible: false, classic: true }) == <ProducerState as KafkaCodec>::spec_encode(m.active_producers[i], Ctx { version: 0, flexible: false, classic: false }) by {
            ProducerState::lemma_flexible_off_writes_classic(m.active_producers[i]);
        }
        lemma_array_bytes_agree::<ProducerState>(m.active_producers, Ctx { version: 0, flexible: false, classic: true }, Ctx { version: 0, flexible: false, classic: false });
    }

    /// With the compact encodings off, the flexible-aware layout is the classic
    /// layout: both read the same bytes alike.
    pub proof fn lemma_flexible_off_reads_classic(s: Seq<u8>, pos: int)
        ensures
            Self::spec_decode_flexible(s, pos, false) == Self::spec_decode_classic(s, pos),
    {
        assert forall|p: int| #[trigger] <ProducerState as KafkaCodec>::spec_decode(s, p, Ctx { version: 0, flexible: false, classic: true }) == <ProducerState as KafkaCodec>::spec_decode(s, p, Ctx { version: 0, flexible: false, classic: false }) by {
            ProducerState::lemma_flexible_off_reads_classic(s, p);
        }
        lemma_parse_array_agree::<ProducerState>(s, Ctx { version: 0, flexible: false, classic: true }, Ctx { version: 0, flexible: false, classic: false });
    }

    /// Writes the structure in the classic layout.
    /// On failure the buffer is left as it was.
    pub fn encode(&self, buf: &mut Vec<u8>) -> (r: Result<(), SerializationError>)
        ensures
            write_exact(r, old(buf)@, final(buf)@, Self::spec_encode_classic(self.deep_view())),
    {
        let start = buf.len();
        let r = self.write_classic(buf);
        if r.is_err() {
            buf.truncate(start);
        }
        r
    }

    fn write_classic(&self, buf: &mut Vec<u8>) -> (r: Result<(), SerializationError>)
        ensures
            write_ok(r, old(buf)@, final(buf)@, Self::spec_encode_classic(self.deep_view())),
    {
        let ghost mut w: Seq<u8> = Seq::empty();
        put_i32(buf, self.partition_index);
        proof {
            w = w + (map_encode_err(Ok(i32_bytes(self.partition_index)), SerializationError::ValueTooLarge { message: "failed to encode PartitionIndex" }))->Ok_0;
        }
        assert(buf@ =~= old(buf)@ + w);
        put_i16(buf, self.error_code);
        proof {
            w = w + (map_encode_err(Ok(i16_bytes(self.error_code)), SerializationError::ValueTooLarge { message: "failed to encode ErrorCode" }))->Ok_0;
        }
        assert(buf@ =~= old(buf)@ + w);
        match encode_nullable_string(&self.error_message, buf, false) {
            Ok(()) => {},
            Err(_) => {
                return Err(SerializationError::ValueTooLarge { message: "failed to encode ErrorMessage" });
            },
        }
        proof {
            w = w + (map_encode_err(nullable_string_bytes(self.error_message.deep_view(), false), SerializationError::ValueTooLarge { message: "failed to encode ErrorMessage" }))->Ok_0;
        }
        assert(buf@ =~= old(buf)@ + w);
        match encode_array(&self.active_producers, buf, Ctx { version: 0, flexible: false, classic: true }) {
            Ok(()) => {},
            Err(_) => {
                return Err(SerializationError::ValueTooLarge { message: "failed to encode ActiveProducers" });
            },
        }
        proof {
            w = w + (map_encode_err(array_bytes::<ProducerState>(self.active_producers.deep_view(), Ctx { version: 0, flexible: false, classic: true }), SerializationError::ValueTooLarge { message: "failed to encode ActiveProducers" }))->Ok_0;
        }
        assert(buf@ =~= old(buf)@ + w);
        Ok(())
    }

    /// Writes the structure, with the compact encodings when `is_flexible`.
    /// On failure the buffer is left as it was.
    pub fn encode_flexible(&self, buf: &mut Vec<u8>, is_flexible: bool) -> (r: Result<(), SerializationError>)
        ensures
            write_exact(r, old(buf)@, final(buf)@, Self::spec_encode_flexible(self.deep_view(), is_flexible)),
    {
        let start = buf.len();
        let r = self.write_flexible(buf, is_flexible);
        if r.is_err() {
            buf.truncate(start);
        }
        r
    }

    fn write_flexible(&self, buf: &mut Vec<u8>, is_flexible: bool) -> (r: Result<(), SerializationError>)
        ensures
            write_ok(r, old(buf)@, final(buf)@, Self::spec_encode_flexible(self.deep_view(), is_flexible)),
    {
        let ghost mut w: Seq<u8> = Seq::empty();
        put_i32(buf, self.partition_index);
        proof {
            w = w + (map_encode_err(Ok(i32_bytes(self.partition_index)), SerializationError::ValueTooLarge { message: "failed to encode PartitionIndex" }))->Ok_0;
        }
        assert(buf@ =~= old(buf)@ + w);
        put_i16(buf, self.error_code);
        proof {
            w = w + (map_encode_err(Ok(i16_bytes(self.error_code)), SerializationError::ValueTooLarge { message: "failed to encode ErrorCode" }))->Ok_0;
        }
        assert(buf@ =~= old(buf)@ + w);
        if is_flexible {
            match &self.error_message {
                Some(v) => {
                    encode_unsigned_varint(1, buf);
                    proof {
                        w = w + uvarint_bytes(1);
                    }
                    match encode_string(&*v, buf, true) {
                        Ok(()) => {},
                        Err(_) => {
                            return Err(SerializationError::ValueTooLarge { message: "failed to encode ErrorMessage" });
                        },
                    }
                    proof {
                        w = w + (map_encode_err(string_bytes((*v).deep_view(), true), SerializationError::ValueTooLarge { message: "failed to encode ErrorMessage" }))->Ok_0;
                    }
                    assert(buf@ =~= old(buf)@ + w);
                },
                None => {
                    encode_unsigned_varint(0, buf);
                    proof {
                        w = w + uvarint_bytes(0);
                    }
                    assert(buf@ =~= old(buf)@ + w);
                },
            }
        } else {
            match encode_nullable_string(&self.error_message, buf, false) {
                Ok(()) => {},
                Err(_) => {
                    return Err(SerializationError::ValueTooLarge { message: "failed to encode ErrorMessage" });
                },
            }
            proof {
                w = w + (map_encode_err(nullable_string_bytes(self.error_message.deep_view(), false), SerializationError::ValueTooLarge { message: "failed to encode ErrorMessage" }))->Ok_0;
            }
            assert(buf@ =~= old(buf)@ + w);
        }
        match encode_array(&self.active_producers, buf, Ctx { version: 0, flexible: is_flexible, classic: false }) {
            Ok(()) => {},
            Err(_) => {
                return Err(SerializationError::ValueTooLarge { message: "failed to encode ActiveProducers" });
            },
        }
        proof {
            w = w + (map_encode_err(array_bytes::<ProducerState>(self.active_producers.deep_view(), Ctx { version: 0, flexible: is_flexible, classic: false }), SerializationError::ValueTooLarge { message: "failed to encode ActiveProducers" }))->Ok_0;
        }
        assert(buf@ =~= old(buf)@ + w);
        if is_flexible {
            encode_unsigned_varint(0, buf);
            proof {
                w = w + uvarint_bytes(0);
            }
            assert(buf@ =~= old(buf)@ + w);
        }
        Ok(())
    }

    /// Reads the structure in the classic layout.
    /// On failure the reader is put back where it started.
    pub fn decode(buf: &mut Reader) -> (r: Result<Self, SerializationError>)
        ensures
            final(buf).bytes() == old(buf).bytes(),
            read_view_exact(r, Self::spec_decode_classic(old(buf).bytes(), old(buf).pos()), old(buf).pos(), final(buf).pos()),
    {
        let start = buf.position();
        let r = Self::read_classic(buf);
        if r.is_err() {
            buf.set_position(start);
        }
        r
    }

    fn read_classic(buf: &mut Reader) -> (r: Result<Self, SerializationError>)
        ensures
            final(buf).bytes() == old(buf).bytes(),
            read_view_ok(r, Self::spec_decode_classic(old(buf).bytes(), old(buf).pos()), final(buf).pos()),
    {
        let partition_index = match buf.get_i32() { Ok(v) => v, Err(_) => { return Err(SerializationError::Protocol { message: "failed to decode PartitionIndex" }); } };
        let error_code = match buf.get_i16() { Ok(v) => v, Err(_) => { return Err(SerializationError::Protocol { message: "failed to decode ErrorCode" }); } };
        let error_message = match buf.get_nullable_string(false) { Ok(v) => v, Err(_) => { return Err(SerializationError::Protocol { message: "failed to decode ErrorMessage" }); } };
        let active_producers = match decode_array::<ProducerState>(buf, Ctx { version: 0, flexible: false, classic: true }) { Ok(v) => v, Err(_) => { return Err(SerializationError::Protocol { message: "failed to decode ActiveProducers" }); } };
        Ok(PartitionResponse { partition_index, error_code, error_message, active_producers })
    }

    /// Reads the structure, with the compact encodings when `is_flexible`.
    /// On failure the reader is put back where it started.
    pub fn decode_flexible(buf: &mut Reader, is_flexible: bool) -> (r: Result<Self, SerializationError>)
        ensures
            final(buf).bytes() == old(buf).bytes(),
            read_view_exact(r, Self::spec_decode_flexible(old(buf).bytes(), old(buf).pos(), is_flexible), old(buf).pos(), final(buf).pos()),
    {
        let start = buf.position();
        let r = Self::read_flexible(buf, is_flexible);
        if r.is_err() {
            buf.set_position(start);
        }
        r
    }

    fn read_flexible(buf: &mut Reader, is_flexible: bool) -> (r: Result<Self, SerializationError>)
        ensures
            final(buf).bytes() == old(buf).bytes(),
            read_view_ok(r, Self::spec_decode_flexible(old(buf).bytes(), old(buf).pos(), is_flexible), final(buf).pos()),
    {
        let partition_index = match buf.get_i32() { Ok(v) => v, Err(_) => { return Err(SerializationError::Protocol { message: "failed to decode PartitionIndex" }); } };
        let error_code = match buf.get_i16() { Ok(v) => v, Err(_) => { return Err(SerializationError::Protocol { message: "failed to decode ErrorCode" }); } };
        let error_message = if is_flexible {
            match buf.get_nullable_string(true) { Ok(v) => v, Err(_) => { return Err(SerializationError::Protocol { message: "failed to decode ErrorMessage" }); } }
        } else {
            match buf.get_nullable_string(false) { Ok(v) => v, Err(_) => { return Err(SerializationError::Protocol { message: "failed to decode ErrorMessage" }); } }
        };
        let active_producers = match decode_array::<ProducerState>(buf, Ctx { version: 0, flexible: is_flexible, classic: false }) { Ok(v) => v, Err(_) => { return Err(SerializationError::Protocol { message: "failed to decode ActiveProducers" }); } };
        if is_flexible {
            let (_tag_count, _) = decode_unsigned_varint(buf)?;
        }
        Ok(PartitionResponse { partition_index, error_code, error_message, active_producers })
    }
}

impl KafkaCodec for PartitionResponse {
    open spec fn spec_encode(m: PartitionResponseModel, ctx: Ctx) -> Result<Seq<u8>, SerializationError> {
        if ctx.classic {
            Self::spec_encode_classic(m)
        } else {
            Self::spec_encode_flexible(m, ctx.flexible)
        }
    }

    open spec fn reads_back(v: PartitionResponseModel, ctx: Ctx) -> bool {
        if ctx.classic {
            Self::reads_back_classic(v)
        } else {
            Self::reads_back_flexible(v, ctx.flexible)
        }
    }

    proof fn lemma_read_back(pre: Seq<u8>, v: PartitionResponseModel, post: Seq<u8>, ctx: Ctx) {
        if ctx.classic {
            Self::lemma_classic_read_back(pre, v, post);
            assert(Self::spec_decode(pre + Self::spec_encode(v, ctx)->Ok_0 + post, pre.len() as int, ctx)
                == Self::spec_decode_classic(pre + Self::spec_encode_classic(v)->Ok_0 + post, pre.len() as int));
        } else {
            Self::lemma_flexible_read_back(pre, v, post, ctx.flexible);
            assert(Self::spec_decode(pre + Self::spec_encode(v, ctx)->Ok_0 + post, pre.len() as int, ctx)
                == Self::spec_decode_flexible(pre + Self::spec_encode_flexible(v, ctx.flexible)->Ok_0 + post, pre.len() as int, ctx.flexible));
        }
    }

    open spec fn spec_decode(s: Seq<u8>, pos: int, ctx: Ctx) -> Result<(PartitionResponseModel, int), SerializationError> {
        if ctx.classic {
            Self::spec_decode_classic(s, pos)
        } else {
            Self::spec_decode_flexible(s, pos, ctx.flexible)
        }
    }

    fn encode_ctx(&self, buf: &mut Vec<u8>, ctx: Ctx) -> (r: Result<(), SerializationError>) {
        if ctx.classic {
            self.write_classic(buf)
        } else {
            self.write_flexible(buf, ctx.flexible)
        }
    }

    fn decode_ctx(buf: &mut Reader, ctx: Ctx) -> (r: Result<Self, SerializationError>) {
        if ctx.classic {
            Self::read_classic(buf)
        } else {
            Self::read_flexible(buf, ctx.flexible)
        }
    }
}

// -------------------------------------------------------
// ProducerState
// -------------------------------------------------------
#[derive(Clone, Debug, Default, PartialEq)]
pub struct ProducerState {
    /// The producer id.
    pub producer_id: i64,
    /// The producer epoch.
    pub producer_epoch: i32,
    /// The last sequence number sent by the producer.
    pub last_sequence: i32,
    /// The last timestamp sent by the producer.
    pub last_timestamp: i64,
    /// The current epoch of the producer group.
    pub coordinator_epoch: i32,
    /// The current transaction start offset of the producer.
    pub current_txn_start_offset: i64,
}

/// The contents of `ProducerState`, with strings as characters and
/// nested values by their contents.
pub struct ProducerStateModel {
    pub producer_id: i64,
    pub producer_epoch: i32,
    pub last_sequence: i32,
    pub last_timestamp: i64,
    pub coordinator_epoch: i32,
    pub current_txn_start_offset: i64,
}

impl DeepView for ProducerState {
    type V = ProducerStateModel;

    open spec fn deep_view(&self) -> ProducerStateModel {
        ProducerStateModel {
            producer_id: self.producer_id,
            producer_epoch: self.producer_epoch,
            last_sequence: self.last_sequence,
            last_timestamp: self.last_timestamp,
            coordinator_epoch: self.coordinator_epoch,
            current_txn_start_offset: self.current_txn_start_offset,
        }
    }
}

impl ProducerState {
    /// Fields 1 to 6 of the encoding.
    pub open spec fn spec_encode_classic_part1(m: ProducerStateModel) -> Result<Seq<u8>, SerializationError> {
        let r = Ok(Seq::<u8>::empty());
        let r = then(r, map_encode_err(Ok(i64_bytes(m.producer_id)), SerializationError::ValueTooLarge { message: "failed to encode ProducerId" }));
        let r = then(r, map_encode_err(Ok(i32_bytes(m.producer_epoch)), SerializationError::ValueTooLarge { message: "failed to encode ProducerEpoch" }));
        let r = then(r, map_encode_err(Ok(i32_bytes(m.last_sequence)), SerializationError::ValueTooLarge { message: "failed to encode LastSequence" }));
        let r = then(r, map_encode_err(Ok(i64_bytes(m.last_timestamp)), SerializationError::ValueTooLarge { message: "failed to encode LastTimestamp" }));
        let r = then(r, map_encode_err(Ok(i32_bytes(m.coordinator_epoch)), SerializationError::ValueTooLarge { message: "failed to encode CoordinatorEpoch" }));
        let r = then(r, map_encode_err(Ok(i64_bytes(m.current_txn_start_offset)), SerializationError::ValueTooLarge { message: "failed to encode CurrentTxnStartOffset" }));
        r
    }

    #[verifier::spinoff_prover]
    fn encode_classic_part1(&self, buf: &mut Vec<u8>) -> (r: Result<(), SerializationError>)
        ensures
            write_ok(r, old(buf)@, final(buf)@, Self::spec_encode_classic_part1(self.deep_view())),
    {
        let ghost mut w: Seq<u8> = Seq::empty();
        put_i64(buf, self.producer_id);
        proof {
            w = w + (map_encode_err(Ok(i64_bytes(self.producer_id)), SerializationError::ValueTooLarge { message: "failed to encode ProducerId" }))->Ok_0;
        }
        assert(buf@ =~= old(buf)@ + w);
        put_i32(buf, self.producer_epoch);
        proof {
            w = w + (map_encode_err(Ok(i32_bytes(self.producer_epoch)), SerializationError::ValueTooLarge { message: "failed to encode ProducerEpoch" }))->Ok_0;
        }
        assert(buf@ =~= old(buf)@ + w);
        put_i32(buf, self.last_sequence);
        proof {
            w = w + (map_encode_err(Ok(i32_bytes(self.last_sequence)), SerializationError::ValueTooLarge { message: "failed to encode LastSequence" }))->Ok_0;
        }
        assert(buf@ =~= old(buf)@ + w);
        put_i64(buf, self.last_timestamp);
        proof {
            w = w + (map_encode_err(Ok(i64_bytes(self.last_timestamp)), SerializationError::ValueTooLarge { message: "failed to encode LastTimestamp" }))->Ok_0;
        }
        assert(buf@ =~= old(buf)@ + w);
        put_i32(buf, self.coordinator_epoch);
        proof {
            w = w + (map_encode_err(Ok(i32_bytes(self.coordinator_epoch)), SerializationError::ValueTooLarge { message: "failed to encode CoordinatorEpoch" }))->Ok_0;
        }
        assert(buf@ =~= old(buf)@ + w);
        put_i64(buf, self.current_txn_start_offset);
        proof {
            w = w + (map_encode_err(Ok(i64_bytes(self.current_txn_start_offset)), SerializationError::ValueTooLarge { message: "failed to encode CurrentTxnStartOffset" }))->Ok_0;
        }
        assert(buf@ =~= old(buf)@ + w);
        Ok(())
    }

    /// The classic encoding of the structure.
    pub open spec fn spec_encode_classic(m: ProducerStateModel) -> Result<Seq<u8>, SerializationError> {
        let r = Ok(Seq::<u8>::empty());
        let r = then(r, Self::spec_encode_classic_part1(m));
        r
    }

    /// Fields 1 to 7 of the encoding.
    pub open spec fn spec_encode_flexible_part1(m: ProducerStateModel, is_flexible: bool) -> Result<Seq<u8>, SerializationError> {
        let r = Ok(Seq::<u8>::empty());
        let r = then(r, map_encode_err(Ok(i64_bytes(m.producer_id)), SerializationError::ValueTooLarge { message: "failed to encode ProducerId" }));
        let r = then(r, map_encode_err(Ok(i32_bytes(m.producer_epoch)), SerializationError::ValueTooLarge { message: "failed to encode ProducerEpoch" }));
        let r = then(r, map_encode_err(Ok(i32_bytes(m.last_sequence)), SerializationError::ValueTooLarge { message: "failed to encode LastSequence" }));
        let r = then(r, map_encode_err(Ok(i64_bytes(m.last_timestamp)), SerializationError::ValueTooLarge { message: "failed to encode LastTimestamp" }));
        let r = then(r, map_encode_err(Ok(i32_bytes(m.coordinator_epoch)), SerializationError::ValueTooLarge { message: "failed to encode CoordinatorEpoch" }));
        let r = then(r, map_encode_err(Ok(i64_bytes(m.current_txn_start_offset)), SerializationError::ValueTooLarge { message: "failed to encode CurrentTxnStartOffset" }));
        let r = if is_flexible { then(r, Ok(uvarint_bytes(0))) } else { r };
        r
    }

    #[verifier::spinoff_prover]
    fn encode_flexible_part1(&self, buf: &mut Vec<u8>, is_flexible: bool) -> (r: Result<(), SerializationError>)
        ensures
            write_ok(r, old(buf)@, final(buf)@, Self::spec_encode_flexible_part1(self.deep_view(), is_flexible)),
    {
        let ghost mut w: Seq<u8> = Seq::empty();
        put_i64(buf, self.producer_id);
        proof {
            w = w + (map_encode_err(Ok(i64_bytes(self.producer_id)), SerializationError::ValueTooLarge { message: "failed to encode ProducerId" }))->Ok_0;
        }
        assert(buf@ =~= old(buf)@ + w);
        put_i32(buf, self.producer_epoch);
        proof {
            w = w + (map_encode_err(Ok(i32_bytes(self.producer_epoch)), SerializationError::ValueTooLarge { message: "failed to encode ProducerEpoch" }))->Ok_0;
        }
        assert(buf@ =~= old(buf)@ + w);
        put_i32(buf, self.last_sequence);
        proof {
            w = w + (map_encode_err(Ok(i32_bytes(self.last_sequence)), SerializationError::ValueTooLarge { message: "failed to encode LastSequence" }))->Ok_0;
        }
        assert(buf@ =~= old(buf)@ + w);
        put_i64(buf, self.last_timestamp);
        proof {
            w = w + (map_encode_err(Ok(i64_bytes(self.last_timestamp)), SerializationError::ValueTooLarge { message: "failed to encode LastTimestamp" }))->Ok_0;
        }
        assert(buf@ =~= old(buf)@ + w);
        put_i32(buf, self.coordinator_epoch);
        proof {
            w = w + (map_encode_err(Ok(i32_bytes(self.coordinator_epoch)), SerializationError::ValueTooLarge { message: "failed to encode CoordinatorEpoch" }))->Ok_0;
        }
        assert(buf@ =~= old(buf)@ + w);
        put_i64(buf, self.current_txn_start_offset);
        proof {
            w = w + (map_encode_err(Ok(i64_bytes(self.current_txn_start_offset)), SerializationError::ValueTooLarge { message: "failed to encode CurrentTxnStartOffset" }))->Ok_0;
        }
        assert(buf@ =~= old(buf)@ + w);
        if is_flexible {
            encode_unsigned_varint(0, buf);
            proof {
                w = w + uvarint_bytes(0);
            }
            assert(buf@ =~= old(buf)@ + w);
        }
        Ok(())
    }

    /// The flexible-aware encoding of the structure.
    pub open spec fn spec_encode_flexible(m: ProducerStateModel, is_flexible: bool) -> Result<Seq<u8>, SerializationError> {
        let r = Ok(Seq::<u8>::empty());
        let r = then(r, Self::spec_encode_flexible_part1(m, is_flexible));
        r
    }

    /// The structure read by the classic decoder.
    pub open spec fn spec_decode_classic(s: Seq<u8>, pos: int) -> Result<(ProducerStateModel, int), SerializationError> {
        match map_decode_err(parse_i64(s, pos), SerializationError::Protocol { message: "failed to decode ProducerId" }) {
            Err(e) => Err(e),
            Ok((producer_id, pos)) =>
            match map_decode_err(parse_i32(s, pos), SerializationError::Protocol { message: "failed to decode ProducerEpoch" }) {
                Err(e) => Err(e),
                Ok((producer_epoch, pos)) =>
                match map_decode_err(parse_i32(s, pos), SerializationError::Protocol { message: "failed to decode LastSequence" }) {
                    Err(e) => Err(e),
                    Ok((last_sequence, pos)) =>
                    match map_decode_err(parse_i64(s, pos), SerializationError::Protocol { message: "failed to decode LastTimestamp" }) {
                        Err(e) => Err(e),
                        Ok((last_timestamp, pos)) =>
                        match map_decode_err(parse_i32(s, pos), SerializationError::Protocol { message: "failed to decode CoordinatorEpoch" }) {
                            Err(e) => Err(e),
                            Ok((coordinator_epoch, pos)) =>
                            match map_decode_err(parse_i64(s, pos), SerializationError::Protocol { message: "failed to decode CurrentTxnStartOffset" }) {
                                Err(e) => Err(e),
                                Ok((current_txn_start_offset, pos)) =>
                                Ok((ProducerStateModel { producer_id, producer_epoch, last_sequence, last_timestamp, coordinator_epoch, current_txn_start_offset }, pos))
                            }
                        }
                    }
                }
            }
        }
    }

    /// The structure read by the flexible-aware decoder.
    pub open spec fn spec_decode_flexible(s: Seq<u8>, pos: int, is_flexible: bool) -> Result<(ProducerStateModel, int), SerializationError> {
        match map_decode_err(parse_i64(s, pos), SerializationError::Protocol { message: "failed to decode ProducerId" }) {
            Err(e) => Err(e),
            Ok((producer_id, pos)) =>
            match map_decode_err(parse_i32(s, pos), SerializationError::Protocol { message: "failed to decode ProducerEpoch" }) {
                Err(e) => Err(e),
                Ok((producer_epoch, pos)) =>
                match map_decode_err(parse_i32(s, pos), SerializationError::Protocol { message: "failed to decode LastSequence" }) {
                    Err(e) => Err(e),
                    Ok((last_sequence, pos)) =>
                    match map_decode_err(parse_i64(s, pos), SerializationError::Protocol { message: "failed to decode LastTimestamp" }) {
                        Err(e) => Err(e),
                        Ok((last_timestamp, pos)) =>
                        match map_decode_err(parse_i32(s, pos), SerializationError::Protocol { message: "failed to decode CoordinatorEpoch" }) {
                            Err(e) => Err(e),
                            Ok((coordinator_epoch, pos)) =>
                            match map_decode_err(parse_i64(s, pos), SerializationError::Protocol { message: "failed to decode CurrentTxnStartOffset" }) {
                                Err(e) => Err(e),
                                Ok((current_txn_start_offset, pos)) =>
                                match (if is_flexible { parse_uvarint(s, pos) } else { Ok((0u64, pos)) }) {
                                    Err(e) => Err(e),
                                    Ok((_tag_count, pos)) =>
                                    Ok((ProducerStateModel { producer_id, producer_epoch, last_sequence, last_timestamp, coordinator_epoch, current_txn_start_offset }, pos))
                                }
                            }
                        }
                    }
                }
            }
        }
    }

    /// Values of the structure that read back from their classic encoding:
    /// nested values read back.
    pub open spec fn reads_back_classic(m: ProducerStateModel) -> bool {
        true
    }

    /// A value that can be written and reads back: decoding its encoding, wherever
    /// it stands, gives the value and the position just after it.
    #[verifier::spinoff_prover]
    pub proof fn lemma_classic_read_back(pre: Seq<u8>, m: ProducerStateModel, post: Seq<u8>)
        requires
            Self::spec_encode_classic(m) is Ok,
            Self::reads_back_classic(m),
        ensures
            Self::spec_decode_classic(pre + Self::spec_encode_classic(m)->Ok_0 + post, pre.len() as int) == Ok::<(ProducerStateModel, int), SerializationError>((m, pre.len() as int + Self::spec_encode_classic(m)->Ok_0.len())),
    {
        let b0 = i64_bytes(m.producer_id);
        let b1 = i32_bytes(m.producer_epoch);
        let b2 = i32_bytes(m.last_sequence);
        let b3 = i64_bytes(m.last_timestamp);
        let b4 = i32_bytes(m.coordinator_epoch);
        let b5 = i64_bytes(m.current_txn_start_offset);
        let t6 = post;
        let t5 = b5 + t6;
        let t4 = b4 + t5;
        let t3 = b3 + t4;
        let t2 = b2 + t3;
        let t1 = b1 + t2;
        let t0 = b0 + t1;
        let e = Self::spec_encode_classic(m)->Ok_0;
        let p1 = Self::spec_encode_classic_part1(m)->Ok_0;
        assert(p1 =~= Seq::<u8>::empty() + b0 + b1 + b2 + b3 + b4 + b5);
        lemma_seq_assoc((((((Seq::<u8>::empty() + b0) + b1) + b2) + b3) + b4), b5, t6);
        lemma_seq_assoc(((((Seq::<u8>::empty() + b0) + b1) + b2) + b3), b4, (b5 + t6));
        lemma_seq_assoc((((Seq::<u8>::empty() + b0) + b1) + b2), b3, (b4 + (b5 + t6)));
        lemma_seq_assoc(((Seq::<u8>::empty() + b0) + b1), b2, (b3 + (b4 + (b5 + t6))));
        lemma_seq_assoc((Seq::<u8>::empty() + b0), b1, (b2 + (b3 + (b4 + (b5 + t6)))));
        lemma_seq_assoc(Seq::<u8>::empty(), b0, (b1 + (b2 + (b3 + (b4 + (b5 + t6))))));
        lemma_seq_empty_left((b0 + (b1 + (b2 + (b3 + (b4 + (b5 + t6)))))));
        assert(e == Seq::<u8>::empty() + p1);
        lemma_seq_assoc(Seq::<u8>::empty(), p1, t6);
        lemma_seq_empty_left((p1 + t6));
        let s = pre + e + post;
        lemma_seq_assoc(pre, e, post);
        assert(s == pre + t0);
        let a0 = pre;
        assert(parse_i64(s, a0.len() as int) == Ok::<(i64, int), SerializationError>((m.producer_id, a0.len() as int + b0.len()))) by {
            lemma_seq_assoc(a0, b0, t1);
            lemma_i64_roundtrip(a0, m.producer_id, t1);
        }
        lemma_seq_assoc(a0, b0, t1);
        let a1 = a0 + b0;
        assert(parse_i32(s, a1.len() as int) == Ok::<(i32, int), SerializationError>((m.producer_epoch, a1.len() as int + b1.len()))) by {
            lemma_seq_assoc(a1, b1, t2);
            lemma_i32_roundtrip(a1, m.producer_epoch, t2);
        }
        lemma_seq_assoc(a1, b1, t2);
        let a2 = a1 + b1;
        assert(parse_i32(s, a2.len() as int) == Ok::<(i32, int), SerializationError>((m.last_sequence, a2.len() as int + b2.len()))) by {
            lemma_seq_assoc(a2, b2, t3);
            lemma_i32_roundtrip(a2, m.last_sequence, t3);
        }
        lemma_seq_assoc(a2, b2, t3);
        let a3 = a2 + b2;
        assert(parse_i64(s, a3.len() as int) == Ok::<(i64, int), SerializationError>((m.last_timestamp, a3.len() as int + b3.len()))) by {
            lemma_seq_assoc(a3, b3, t4);
            lemma_i64_roundtrip(a3, m.last_timestamp, t4);
        }
        lemma_seq_assoc(a3, b3, t4);
        let a4 = a3 + b3;
        assert(parse_i32(s, a4.len() as int) == Ok::<(i32, int), SerializationError>((m.coordinator_epoch, a4.len() as int + b4.len()))) by {
            lemma_seq_assoc(a4, b4, t5);
            lemma_i32_roundtrip(a4, m.coordinator_epoch, t5);
        }
        lemma_seq_assoc(a4, b4, t5);
        let a5 = a4 + b4;
        assert(parse_i64(s, a5.len() as int) == Ok::<(i64, int), SerializationError>((m.current_txn_start_offset, a5.len() as int + b5.len()))) by {
            lemma_seq_assoc(a5, b5, t6);
            lemma_i64_roundtrip(a5, m.current_txn_start_offset, t6);
        }
    }

    /// The bytes written: the encoding of each field, in the order of the
    /// protocol's layout. Reading them back, wherever they stand, gives the value,
    /// with each field that the version leaves out at its default.
    #[verifier::spinoff_prover]
    pub proof fn lemma_classic_layout(pre: Seq<u8>, m: ProducerStateModel, post: Seq<u8>)
        requires
            Self::spec_encode_classic(m) is Ok,
        ensures
            Self::spec_encode_classic(m) == Ok::<Seq<u8>, SerializationError>((i64_bytes(m.producer_id)) + (i32_bytes(m.producer_epoch)) + (i32_bytes(m.last_sequence)) + (i64_bytes(m.last_timestamp)) + (i32_bytes(m.coordinator_epoch)) + (i64_bytes(m.current_txn_start_offset))),
            Self::reads_back_classic(m) ==> Self::spec_decode_classic(pre + ((i64_bytes(m.producer_id)) + (i32_bytes(m.producer_epoch)) + (i32_bytes(m.last_sequence)) + (i64_bytes(m.last_timestamp)) + (i32_bytes(m.coordinator_epoch)) + (i64_bytes(m.current_txn_start_offset))) + post, pre.len() as int) == Ok::<(ProducerStateModel, int), SerializationError>((m, pre.len() as int + ((i64_bytes(m.producer_id)) + (i32_bytes(m.producer_epoch)) + (i32_bytes(m.last_sequence)) + (i64_bytes(m.last_timestamp)) + (i32_bytes(m.coordinator_epoch)) + (i64_bytes(m.current_txn_start_offset))).len())),
    {
        let b0 = i64_bytes(m.producer_id);
        let b1 = i32_bytes(m.producer_epoch);
        let b2 = i32_bytes(m.last_sequence);
        let b3 = i64_bytes(m.last_timestamp);
        let b4 = i32_bytes(m.coordinator_epoch);
        let b5 = i64_bytes(m.current_txn_start_offset);
        let e = Self::spec_encode_classic(m)->Ok_0;
        let p1 = Self::spec_encode_classic_part1(m)->Ok_0;
        assert(p1 =~= Seq::<u8>::empty() + b0 + b1 + b2 + b3 + b4 + b5);
        assert(e == Seq::<u8>::empty() + p1);
        assert(e =~= b0 + b1 + b2 + b3 + b4 + b5);
        if Self::reads_back_classic(m) {
            Self::lemma_classic_read_back(pre, m, post);
        }
    }

    /// Writing succeeds exactly when every field that the version carries can be
    /// encoded and every field that it leaves out, where leaving it out is an
    /// error, holds its default.
    #[verifier::spinoff_prover]
    pub proof fn lemma_classic_write_succeeds(m: ProducerStateModel)
        ensures
            Self::spec_encode_classic(m) is Ok <==> (map_encode_err(Ok(i64_bytes(m.producer_id)), SerializationError::ValueTooLarge { message: "failed to encode ProducerId" }) is Ok) && (map_encode_err(Ok(i32_bytes(m.producer_epoch)), SerializationError::ValueTooLarge { message: "failed to encode ProducerEpoch" }) is Ok) && (map_encode_err(Ok(i32_bytes(m.last_sequence)), SerializationError::ValueTooLarge { message: "failed to encode LastSequence" }) is Ok) && (map_encode_err(Ok(i64_bytes(m.last_timestamp)), SerializationError::ValueTooLarge { message: "failed to encode LastTimestamp" }) is Ok) && (map_encode_err(Ok(i32_bytes(m.coordinator_epoch)), SerializationError::ValueTooLarge { message: "failed to encode CoordinatorEpoch" }) is Ok) && (map_encode_err(Ok(i64_bytes(m.current_txn_start_offset)), SerializationError::ValueTooLarge { message: "failed to encode CurrentTxnStartOffset" }) is Ok),
    {
    }

    /// Values of the structure that read back from their flexible-aware encoding:
    /// nested values read back.
    pub open spec fn reads_back_flexible(m: ProducerStateModel, is_flexible: bool) -> bool {
        true
    }

    /// A value that can be written and reads back: decoding its encoding, wherever
    /// it stands, gives the value and the position just after it.
    #[verifier::spinoff_prover]
    pub proof fn lemma_flexible_read_back(pre: Seq<u8>, m: ProducerStateModel, post: Seq<u8>, is_flexible: bool)
        requires
            Self::spec_encode_flexible(m, is_flexible) is Ok,
            Self::reads_back_flexible(m, is_flexible),
        ensures
            Self::spec_decode_flexible(pre + Self::spec_encode_flexible(m, is_flexible)->Ok_0 + post, pre.len() as int, is_flexible) == Ok::<(ProducerStateModel, int), SerializationError>((m, pre.len() as int + Self::spec_encode_flexible(m, is_flexible)->Ok_0.len())),
    {
        let b0 = i64_bytes(m.producer_id);
        let b1 = i32_bytes(m.producer_epoch);
        let b2 = i32_bytes(m.last_sequence);
        let b3 = i64_bytes(m.last_timestamp);
        let b4 = i32_bytes(m.coordinator_epoch);
        let b5 = i64_bytes(m.current_txn_start_offset);
        let b6 = if is_flexible { uvarint_bytes(0) } else { Seq::<u8>::empty() };
        let t7 = post;
        let t6 = b6 + t7;
        let t5 = b5 + t6;
        let t4 = b4 + t5;
        let t3 = b3 + t4;
        let t2 = b2 + t3;
        let t1 = b1 + t2;
        let t0 = b0 + t1;
        let e = Self::spec_encode_flexible(m, is_flexible)->Ok_0;
        let p1 = Self::spec_encode_flexible_part1(m, is_flexible)->Ok_0;
        assert(p1 =~= Seq::<u8>::empty() + b0 + b1 + b2 + b3 + b4 + b5 + b6);
        lemma_seq_assoc(((((((Seq::<u8>::empty() + b0) + b1) + b2) + b3) + b4) + b5), b6, t7);
        lemma_seq_assoc((((((Seq::<u8>::empty() + b0) + b1) + b2) + b3) + b4), b5, (b6 + t7));
        lemma_seq_assoc(((((Seq::<u8>::empty() + b0) + b1) + b2) + b3), b4, (b5 + (b6 + t7)));
        lemma_seq_assoc((((Seq::<u8>::empty() + b0) + b1) + b2), b3, (b4 + (b5 + (b6 + t7))));
        lemma_seq_assoc(((Seq::<u8>::empty() + b0) + b1), b2, (b3 + (b4 + (b5 + (b6 + t7)))));
        lemma_seq_assoc((Seq::<u8>::empty() + b0), b1, (b2 + (b3 + (b4 + (b5 + (b6 + t7))))));
        lemma_seq_assoc(Seq::<u8>::empty(), b0, (b1 + (b2 + (b3 + (b4 + (b5 + (b6 + t7)))))));
        lemma_seq_empty_left((b0 + (b1 + (b2 + (b3 + (b4 + (b5 + (b6 + t7))))))));
        assert(e == Seq::<u8>::empty() + p1);
        lemma_seq_assoc(Seq::<u8>::empty(), p1, t7);
        lemma_seq_empty_left((p1 + t7));
        let s = pre + e + post;
        lemma_seq_assoc(pre, e, post);
        assert(s == pre + t0);
        let a0 = pre;
        assert(parse_i64(s, a0.len() as int) == Ok::<(i64, int), SerializationError>((m.producer_id, a0.len() as int + b0.len()))) by {
            lemma_seq_assoc(a0, b0, t1);
            lemma_i64_roundtrip(a0, m.producer_id, t1);
        }
        lemma_seq_assoc(a0, b0, t1);
        let a1 = a0 + b0;
        assert(parse_i32(s, a1.len() as int) == Ok::<(i32, int), SerializationError>((m.producer_epoch, a1.len() as int + b1.len()))) by {
            lemma_seq_assoc(a1, b1, t2);
            lemma_i32_roundtrip(a1, m.producer_epoch, t2);
        }
        lemma_seq_assoc(a1, b1, t2);
        let a2 = a1 + b1;
        assert(parse_i32(s, a2.len() as int) == Ok::<(i32, int), SerializationError>((m.last_sequence, a2.len() as int + b2.len()))) by {
            lemma_seq_assoc(a2, b2, t3);
            lemma_i32_roundtrip(a2, m.last_sequence, t3);
        }
        lemma_seq_assoc(a2, b2, t3);
        let a3 = a2 + b2;
        assert(parse_i64(s, a3.len() as int) == Ok::<(i64, int), SerializationError>((m.last_timestamp, a3.len() as int + b3.len()))) by {
            lemma_seq_assoc(a3, b3, t4);
            lemma_i64_roundtrip(a3, m.last_timestamp, t4);
        }
        lemma_seq_assoc(a3, b3, t4);
        let a4 = a3 + b3;
        assert(parse_i32(s, a4.len() as int) == Ok::<(i32, int), SerializationError>((m.coordinator_epoch, a4.len() as int + b4.len()))) by {
            lemma_seq_assoc(a4, b4, t5);
            lemma_i32_roundtrip(a4, m.coordinator_epoch, t5);
        }
        lemma_seq_assoc(a4, b4, t5);
        let a5 = a4 + b4;
        assert(parse_i64(s, a5.len() as int) == Ok::<(i64, int), SerializationError>((m.current_txn_start_offset, a5.len() as int + b5.len()))) by {
            lemma_seq_assoc(a5, b5, t6);
            lemma_i64_roundtrip(a5, m.current_txn_start_offset, t6);
        }
        lemma_seq_assoc(a5, b5, t6);
        let a6 = a5 + b5;
        if is_flexible {
            assert(parse_uvarint(s, a6.len() as int) == Ok::<(u64, int), SerializationError>((0u64, a6.len() as int + b6.len()))) by {
                lemma_seq_assoc(a6, b6, t7);
                lemma_uvarint_roundtrip(a6, 0, t7);
            }
        }
    }

    /// The bytes written: the encoding of each field, in the order of the
    /// protocol's layout. Reading them back, wherever they stand, gives the value,
    /// with each field that the version leaves out at its default.
    #[verifier::spinoff_prover]
    pub proof fn lemma_flexible_layout(pre: Seq<u8>, m: ProducerStateModel, post: Seq<u8>, is_flexible: bool)
        requires
            Self::spec_encode_flexible(m, is_flexible) is Ok,
        ensures
            Self::spec_encode_flexible(m, is_flexible) == Ok::<Seq<u8>, SerializationError>((i64_bytes(m.producer_id)) + (i32_bytes(m.producer_epoch)) + (i32_bytes(m.last_sequence)) + (i64_bytes(m.last_timestamp)) + (i32_bytes(m.coordinator_epoch)) + (i64_bytes(m.current_txn_start_offset)) + (if is_flexible { uvarint_bytes(0) } else { Seq::<u8>::empty() })),
            Self::reads_back_flexible(m, is_flexible) ==> Self::spec_decode_flexible(pre + ((i64_bytes(m.producer_id)) + (i32_bytes(m.producer_epoch)) + (i32_bytes(m.last_sequence)) + (i64_bytes(m.last_timestamp)) + (i32_bytes(m.coordinator_epoch)) + (i64_bytes(m.current_txn_start_offset)) + (if is_flexible { uvarint_bytes(0) } else { Seq::<u8>::empty() })) + post, pre.len() as int, is_flexible) == Ok::<(ProducerStateModel, int), SerializationError>((m, pre.len() as int + ((i64_bytes(m.producer_id)) + (i32_bytes(m.producer_epoch)) + (i32_bytes(m.last_sequence)) + (i64_bytes(m.last_timestamp)) + (i32_bytes(m.coordinator_epoch)) + (i64_bytes(m.current_txn_start_offset)) + (if is_flexible { uvarint_bytes(0) } else { Seq::<u8>::empty() })).len())),
    {
        let b0 = i64_bytes(m.producer_id);
        let b1 = i32_bytes(m.producer_epoch);
        let b2 = i32_bytes(m.last_sequence);
        let b3 = i64_bytes(m.last_timestamp);
        let b4 = i32_bytes(m.coordinator_epoch);
        let b5 = i64_bytes(m.current_txn_start_offset);
        let b6 = if is_flexible { uvarint_bytes(0) } else { Seq::<u8>::empty() };
        let e = Self::spec_encode_flexible(m, is_flexible)->Ok_0;
        let p1 = Self::spec_encode_flexible_part1(m, is_flexible)->Ok_0;
        assert(p1 =~= Seq::<u8>::empty() + b0 + b1 + b2 + b3 + b4 + b5 + b6);
        assert(e == Seq::<u8>::empty() + p1);
        assert(e =~= b0 + b1 + b2 + b3 + b4 + b5 + b6);
        if Self::reads_back_flexible(m, is_flexible) {
            Self::lemma_flexible_read_back(pre, m, post, is_flexible);
        }
    }

    /// Writing succeeds exactly when every field that the version carries can be
    /// encoded and every field that it leaves out, where leaving it out is an
    /// error, holds its default.
    #[verifier::spinoff_prover]
    pub proof fn lemma_flexible_write_succeeds(m: ProducerStateModel, is_flexible: bool)
        ensures
            Self::spec_encode_flexible(m, is_flexible) is Ok <==> (map_encode_err(Ok(i64_bytes(m.producer_id)), SerializationError::ValueTooLarge { message: "failed to encode ProducerId" }) is Ok) && (map_encode_err(Ok(i32_bytes(m.producer_epoch)), SerializationError::ValueTooLarge { message: "failed to encode ProducerEpoch" }) is Ok) && (map_encode_err(Ok(i32_bytes(m.last_sequence)), SerializationError::ValueTooLarge { message: "failed to encode LastSequence" }) is Ok) && (map_encode_err(Ok(i64_bytes(m.last_timestamp)), SerializationError::ValueTooLarge { message: "failed to encode LastTimestamp" }) is Ok) && (map_encode_err(Ok(i32_bytes(m.coordinator_epoch)), SerializationError::ValueTooLarge { message: "failed to encode CoordinatorEpoch" }) is Ok) && (map_encode_err(Ok(i64_bytes(m.current_txn_start_offset)), SerializationError::ValueTooLarge { message: "failed to encode CurrentTxnStartOffset" }) is Ok),
    {
    }

    /// With the compact encodings off, the flexible-aware layout is the classic
    /// layout: both write the same bytes.
    pub proof fn lemma_flexible_off_writes_classic(m: ProducerStateModel)
        ensures
            Self::spec_encode_flexible(m, false) == Self::spec_encode_classic(m),
    {
    }

    /// With the compact encodings off, the flexible-aware layout is the classic
    /// layout: both read the same bytes alike.
    pub proof fn lemma_flexible_off_reads_classic(s: Seq<u8>, pos: int)
        ensures
            Self::spec_decode_flexible(s, pos, false) == Self::spec_decode_classic(s, pos),
    {
    }

    /// Writes the structure in the classic layout.
    /// On failure the buffer is left as it was.
    pub fn encode(&self, buf: &mut Vec<u8>) -> (r: Result<(), SerializationError>)
        ensures
            write_exact(r, old(buf)@, final(buf)@, Self::spec_encode_classic(self.deep_view())),
    {
        let start = buf.len();
        let r = self.write_classic(buf);
        if r.is_err() {
            buf.truncate(start);
        }
        r
    }

    #[verifier::spinoff_prover]
    fn write_classic(&self, buf: &mut Vec<u8>) -> (r: Result<(), SerializationError>)
        ensures
            write_ok(r, old(buf)@, final(buf)@, Self::spec_encode_classic(self.deep_view())),
    {
        let ghost mut w: Seq<u8> = Seq::empty();
        self.encode_classic_part1(buf)?;
        proof {
            w = w + (Self::spec_encode_classic_part1(self.deep_view()))->Ok_0;
        }
        assert(buf@ =~= old(buf)@ + w);
        Ok(())
    }

    /// Writes the structure, with the compact encodings when `is_flexible`.
    /// On failure the buffer is left as it was.
    pub fn encode_flexible(&self, buf: &mut Vec<u8>, is_flexible: bool) -> (r: Result<(), SerializationError>)
        ensures
            write_exact(r, old(buf)@, final(buf)@, Self::spec_encode_flexible(self.deep_view(), is_flexible)),
    {
        let start = buf.len();
        let r = self.write_flexible(buf, is_flexible);
        if r.is_err() {
            buf.truncate(start);
        }
        r
    }

    #[verifier::spinoff_prover]
    fn write_flexible(&self, buf: &mut Vec<u8>, is_flexible: bool) -> (r: Result<(), SerializationError>)
        ensures
            write_ok(r, old(buf)@, final(buf)@, Self::spec_encode_flexible(self.deep_view(), is_flexible)),
    {
        let ghost mut w: Seq<u8> = Seq::empty();
        self.encode_flexible_part1(buf, is_flexible)?;
        proof {
            w = w + (Self::spec_encode_flexible_part1(self.deep_view(), is_flexible))->Ok_0;
        }
        assert(buf@ =~= old(buf)@ + w);
        Ok(())
    }

    /// Reads the structure in the classic layout.
    /// On failure the reader is put back where it started.
    #[verifier::spinoff_prover]
    pub fn decode(buf: &mut Reader) -> (r: Result<Self, SerializationError>)
        ensures
            final(buf).bytes() == old(buf).bytes(),
            read_view_exact(r, Self::spec_decode_classic(old(buf).bytes(), old(buf).pos()), old(buf).pos(), final(buf).pos()),
    {
        let start = buf.position();
        let r = Self::read_classic(buf);
        if r.is_err() {
            buf.set_position(start);
        }
        r
    }

    fn read_classic(buf: &mut Reader) -> (r: Result<Self, SerializationError>)
        ensures
            final(buf).bytes() == old(buf).bytes(),
            read_view_ok(r, Self::spec_decode_classic(old(buf).bytes(), old(buf).pos()), final(buf).pos()),
    {
        let producer_id = match buf.get_i64() { Ok(v) => v, Err(_) => { return Err(SerializationError::Protocol { message: "failed to decode ProducerId" }); } };
        let producer_epoch = match buf.get_i32() { Ok(v) => v, Err(_) => { return Err(SerializationError::Protocol { message: "failed to decode ProducerEpoch" }); } };
        let last_sequence = match buf.get_i32() { Ok(v) => v, Err(_) => { return Err(SerializationError::Protocol { message: "failed to decode LastSequence" }); } };
        let last_timestamp = match buf.get_i64() { Ok(v) => v, Err(_) => { return Err(SerializationError::Protocol { message: "failed to decode LastTimestamp" }); } };
        let coordinator_epoch = match buf.get_i32() { Ok(v) => v, Err(_) => { return Err(SerializationError::Protocol { message: "failed to decode CoordinatorEpoch" }); } };
        let current_txn_start_offset = match buf.get_i64() { Ok(v) => v, Err(_) => { return Err(SerializationError::Protocol { message: "failed to decode CurrentTxnStartOffset" }); } };
        Ok(ProducerState { producer_id, producer_epoch, last_sequence, last_timestamp, coordinator_epoch, current_txn_start_offset })
    }

    /// Reads the structure, with the compact encodings when `is_flexible`.
    /// On failure the reader is put back where it started.
    #[verifier::spinoff_prover]
    pub fn decode_flexible(buf: &mut Reader, is_flexible: bool) -> (r: Result<Self, SerializationError>)
        ensures
            final(buf).bytes() == old(buf).bytes(),
            read_view_exact(r, Self::spec_decode_flexible(old(buf).bytes(), old(buf).pos(), is_flexible), old(buf).pos(), final(buf).pos()),
    {
        let start = buf.position();
        let r = Self::read_flexible(buf, is_flexible);
        if r.is_err() {
            buf.set_position(start);
        }
        r
    }

    fn read_flexible(buf: &mut Reader, is_flexible: bool) -> (r: Result<Self, SerializationError>)
        ensures
            final(buf).bytes() == old(buf).bytes(),
            read_view_ok(r, Self::spec_decode_flexible(old(buf).bytes(), old(buf).pos(), is_flexible), final(buf).pos()),
    {
        let producer_id = match buf.get_i64() { Ok(v) => v, Err(_) => { return Err(SerializationError::Protocol { message: "failed to decode ProducerId" }); } };
        let producer_epoch = match buf.get_i32() { Ok(v) => v, Err(_) => { return Err(SerializationError::Protocol { message: "failed to decode ProducerEpoch" }); } };
        let last_sequence = match buf.get_i32() { Ok(v) => v, Err(_) => { return Err(SerializationError::Protocol { message: "failed to decode LastSequence" }); } };
        let last_timestamp = match buf.get_i64() { Ok(v) => v, Err(_) => { return Err(SerializationError::Protocol { message: "failed to decode LastTimestamp" }); } };
        let coordinator_epoch = match buf.get_i32() { Ok(v) => v, Err(_) => { return Err(SerializationError::Protocol { message: "failed to decode CoordinatorEpoch" }); } };
        let current_txn_start_offset = match buf.get_i64() { Ok(v) => v, Err(_) => { return Err(SerializationError::Protocol { message: "failed to decode CurrentTxnStartOffset" }); } };
        if is_flexible {
            let (_tag_count, _) = decode_unsigned_varint(buf)?;
        }
        Ok(ProducerState { producer_id, producer_epoch, last_sequence, last_timestamp, coordinator_epoch, current_txn_start_offset })
    }
}

impl KafkaCodec for ProducerState {
    open spec fn spec_encode(m: ProducerStateModel, ctx: Ctx) -> Result<Seq<u8>, SerializationError> {
        if ctx.classic {
            Self::spec_encode_classic(m)
        } else {
            Self::spec_encode_flexible(m, ctx.flexible)
        }
    }

    open spec fn reads_back(v: ProducerStateModel, ctx: Ctx) -> bool {
        if ctx.classic {
            Self::reads_back_classic(v)
        } else {
            Self::reads_back_flexible(v, ctx.flexible)
        }
    }

    proof fn lemma_read_back(pre: Seq<u8>, v: ProducerStateModel, post: Seq<u8>, ctx: Ctx) {
        if ctx.classic {
            Self::lemma_classic_read_back(pre, v, post);
            assert(Self::spec_decode(pre + Self::spec_encode(v, ctx)->Ok_0 + post, pre.len() as int, ctx)
                == Self::spec_decode_classic(pre + Self::spec_encode_classic(v)->Ok_0 + post, pre.len() as int));
        } else {
            Self::lemma_flexible_read_back(pre, v, post, ctx.flexible);
            assert(Self::spec_decode(pre + Self::spec_encode(v, ctx)->Ok_0 + post, pre.len() as int, ctx)
                == Self::spec_decode_flexible(pre + Self::spec_encode_flexible(v, ctx.flexible)->Ok_0 + post, pre.len() as int, ctx.flexible));
        }
    }

    open spec fn spec_decode(s: Seq<u8>, pos: int, ctx: Ctx) -> Result<(ProducerStateModel, int), SerializationError> {
        if ctx.classic {
            Self::spec_decode_classic(s, pos)
        } else {
            Self::spec_decode_flexible(s, pos, ctx.flexible)
        }
    }

    fn encode_ctx(&self, buf: &mut Vec<u8>, ctx: Ctx) -> (r: Result<(), SerializationError>) {
        if ctx.classic {
            self.write_classic(buf)
        } else {
            self.write_flexible(buf, ctx.flexible)
        }
    }

    #[verifier::spinoff_prover]
    fn decode_ctx(buf: &mut Reader, ctx: Ctx) -> (r: Result<Self, SerializationError>) {
        if ctx.classic {
            Self::read_classic(buf)
        } else {
            Self::read_flexible(buf, ctx.flexible)
        }
    }
}

// -------------------------------------------------------
// TopicResponse
// -------------------------------------------------------
#[derive(Clone, Debug, Default, PartialEq)]
pub struct TopicResponse {
    /// The topic name.
    pub name: String,
    /// Each partition in the response.
    pub partitions: Vec<PartitionResponse>,
}

/// The contents of `TopicResponse`, with strings as characters and
/// nested values by their contents.
pub struct TopicResponseModel {
    pub name: Seq<char>,
    pub partitions: Seq<<PartitionResponse as DeepView>::V>,
}

impl DeepView for TopicResponse {
    type V = TopicResponseModel;

    open spec fn deep_view(&self) -> TopicResponseModel {
        TopicResponseModel {
            name: self.name.deep_view(),
            partitions: self.partitions.deep_view(),
        }
    }
}

impl TopicResponse {
    /// The classic encoding of the structure.
    pub open spec fn spec_encode_classic(m: TopicResponseModel) -> Result<Seq<u8>, SerializationError> {
        let r = Ok(Seq::<u8>::empty());
        let r = then(r, map_encode_err(string_bytes(m.name, false), SerializationError::ValueTooLarge { message: "failed to encode Name" }));
        let r = then(r, map_encode_err(array_bytes::<PartitionResponse>(m.partitions, Ctx { version: 0, flexible: false, classic: true }), SerializationError::ValueTooLarge { message: "failed to encode Partitions" }));
        r
    }

    /// The flexible-aware encoding of the structure.
    pub open spec fn spec_encode_flexible(m: TopicResponseModel, is_flexible: bool) -> Result<Seq<u8>, SerializationError> {
        let r = Ok(Seq::<u8>::empty());
        let r = then(r, map_encode_err(string_bytes(m.name, is_flexible), SerializationError::ValueTooLarge { message: "failed to encode Name" }));
        let r = then(r, map_encode_err(array_bytes::<PartitionResponse>(m.partitions, Ctx { version: 0, flexible: is_flexible, classic: false }), SerializationError::ValueTooLarge { message: "failed to encode Partitions" }));
        let r = if is_flexible { then(r, Ok(uvarint_bytes(0))) } else { r };
        r
    }

    /// The structure read by the classic decoder.
    pub open spec fn spec_decode_classic(s: Seq<u8>, pos: int) -> Result<(TopicResponseModel, int), SerializationError> {
        match map_decode_err(parse_string(s, pos, false), SerializationError::Protocol { message: "failed to decode Name" }) {
            Err(e) => Err(e),
            Ok((name, pos)) =>
            match map_decode_err(parse_array::<PartitionResponse>(s, pos, Ctx { version: 0, flexible: false, classic: true }), SerializationError::Protocol { message: "failed to decode Partitions" }) {
                Err(e) => Err(e),
                Ok((partitions, pos)) =>
                Ok((TopicResponseModel { name, partitions }, pos))
            }
        }
    }

    /// The structure read by the flexible-aware decoder.
    pub open spec fn spec_decode_flexible(s: Seq<u8>, pos: int, is_flexible: bool) -> Result<(TopicResponseModel, int), SerializationError> {
        match map_decode_err(parse_string(s, pos, is_flexible), SerializationError::Protocol { message: "failed to decode Name" }) {
            Err(e) => Err(e),
            Ok((name, pos)) =>
            match map_decode_err(parse_array::<PartitionResponse>(s, pos, Ctx { version: 0, flexible: is_flexible, classic: false }), SerializationError::Protocol { message: "failed to decode Partitions" }) {
                Err(e) => Err(e),
                Ok((partitions, pos)) =>
                match (if is_flexible { parse_uvarint(s, pos) } else { Ok((0u64, pos)) }) {
                    Err(e) => Err(e),
                    Ok((_tag_count, pos)) =>
                    Ok((TopicResponseModel { name, partitions }, pos))
                }
            }
        }
    }

    /// Values of the structure that read back from their classic encoding:
    /// nested values read back.
    pub open spec fn reads_back_classic(m: TopicResponseModel) -> bool {
        &&& forall|i: int| 0 <= i < m.partitions.len() ==> #[trigger] <PartitionResponse as KafkaCodec>::reads_back(m.partitions[i], Ctx { version: 0, flexible: false, classic: true })
    }

    /// A value that can be written and reads back: decoding its encoding, wherever
    /// it stands, gives the value and the position just after it.
    #[verifier::spinoff_prover]
    pub proof fn lemma_classic_read_back(pre: Seq<u8>, m: TopicResponseModel, post: Seq<u8>)
        requires
            Self::spec_encode_classic(m) is Ok,
            Self::reads_back_classic(m),
        ensures
            Self::spec_decode_classic(pre + Self::spec_encode_classic(m)->Ok_0 + post, pre.len() as int) == Ok::<(TopicResponseModel, int), SerializationError>((m, pre.len() as int + Self::spec_encode_classic(m)->Ok_0.len())),
    {
        let b0 = (string_bytes(m.name, false))->Ok_0;
        let b1 = (array_bytes::<PartitionResponse>(m.partitions, Ctx { version: 0, flexible: false, classic: true }))->Ok_0;
        let t2 = post;
        let t1 = b1 + t2;
        let t0 = b0 + t1;
        let e = Self::spec_encode_classic(m)->Ok_0;
        assert(e =~= Seq::<u8>::empty() + b0 + b1);
        lemma_seq_assoc((Seq::<u8>::empty() + b0), b1, post);
        lemma_seq_assoc(Seq::<u8>::empty(), b0, (b1 + post));
        lemma_seq_empty_left((b0 + (b1 + post)));
        let s = pre + e + post;
        lemma_seq_assoc(pre, e, post);
        assert(s == pre + t0);
        let a0 = pre;
        assert(parse_string(s, a0.len() as int, false) == Ok::<(Seq<char>, int), SerializationError>((m.name, a0.len() as int + b0.len()))) by {
            assert(string_bytes(m.name, false) is Ok);
            lemma_seq_assoc(a0, b0, t1);
            lemma_string_roundtrip(a0, m.name, t1, false);
        }
        lemma_seq_assoc(a0, b0, t1);
        let a1 = a0 + b0;
        assert(parse_array::<PartitionResponse>(s, a1.len() as int, Ctx { version: 0, flexible: false, classic: true }) == Ok::<(Seq<<PartitionResponse as DeepView>::V>, int), SerializationError>((m.partitions, a1.len() as int + b1.len()))) by {
            assert(array_bytes::<PartitionResponse>(m.partitions, Ctx { version: 0, flexible: false, classic: true }) is Ok);
            lemma_seq_assoc(a1, b1, t2);
            lemma_items_read_back::<PartitionResponse>(m.partitions, Ctx { version: 0, flexible: false, classic: true });
            lemma_array_roundtrip::<PartitionResponse>(a1, m.partitions, t2, Ctx { version: 0, flexible: false, classic: true });
        }
    }

    /// The bytes written: the encoding of each field, in the order of the
    /// protocol's layout. Reading them back, wherever they stand, gives the value,
    /// with each field that the version leaves out at its default.
    #[verifier::spinoff_prover]
    pub proof fn lemma_classic_layout(pre: Seq<u8>, m: TopicResponseModel, post: Seq<u8>)
        requires
            Self::spec_encode_classic(m) is Ok,
        ensures
            Self::spec_encode_classic(m) == Ok::<Seq<u8>, SerializationError>(((string_bytes(m.name, false))->Ok_0) + ((array_bytes::<PartitionResponse>(m.partitions, Ctx { version: 0, flexible: false, classic: true }))->Ok_0)),
            Self::reads_back_classic(m) ==> Self::spec_decode_classic(pre + (((string_bytes(m.name, false))->Ok_0) + ((array_bytes::<PartitionResponse>(m.partitions, Ctx { version: 0, flexible: false, classic: true }))->Ok_0)) + post, pre.len() as int) == Ok::<(TopicResponseModel, int), SerializationError>((m, pre.len() as int + (((string_bytes(m.name, false))->Ok_0) + ((array_bytes::<PartitionResponse>(m.partitions, Ctx { version: 0, flexible: false, classic: true }))->Ok_0)).len())),
    {
        let b0 = (string_bytes(m.name, false))->Ok_0;
        let b1 = (array_bytes::<PartitionResponse>(m.partitions, Ctx { version: 0, flexible: false, classic: true }))->Ok_0;
        let e = Self::spec_encode_classic(m)->Ok_0;
        assert(e =~= Seq::<u8>::empty() + b0 + b1);
        assert(e =~= b0 + b1);
        if Self::reads_back_classic(m) {
            Self::lemma_classic_read_back(pre, m, post);
        }
    }

    /// Writing succeeds exactly when every field that the version carries can be
    /// encoded and every field that it leaves out, where leaving it out is an
    /// error, holds its default.
    #[verifier::spinoff_prover]
    pub proof fn lemma_classic_write_succeeds(m: TopicResponseModel)
        ensures
            Self::spec_encode_classic(m) is Ok <==> (map_encode_err(string_bytes(m.name, false), SerializationError::ValueTooLarge { message: "failed to encode Name" }) is Ok) && (map_encode_err(array_bytes::<PartitionResponse>(m.partitions, Ctx { version: 0, flexible: false, classic: true }), SerializationError::ValueTooLarge { message: "failed to encode Partitions" }) is Ok),
    {
    }

    /// Values of the structure that read back from their flexible-aware encoding:
    /// nested values read back.
    pub open spec fn reads_back_flexible(m: TopicResponseModel, is_flexible: bool) -> bool {
        &&& forall|i: int| 0 <= i < m.partitions.len() ==> #[trigger] <PartitionResponse as KafkaCodec>::reads_back(m.partitions[i], Ctx { version: 0, flexible: is_flexible, classic: false })
    }

    /// A value that can be written and reads back: decoding its encoding, wherever
    /// it stands, gives the value and the position just after it.
    #[verifier::spinoff_prover]
    pub proof fn lemma_flexible_read_back(pre: Seq<u8>, m: TopicResponseModel, post: Seq<u8>, is_flexible: bool)
        requires
            Self::spec_encode_flexible(m, is_flexible) is Ok,
            Self::reads_back_flexible(m, is_flexible),
        ensures
            Self::spec_decode_flexible(pre + Self::spec_encode_flexible(m, is_flexible)->Ok_0 + post, pre.len() as int, is_flexible) == Ok::<(TopicResponseModel, int), SerializationError>((m, pre.len() as int + Self::spec_encode_flexible(m, is_flexible)->Ok_0.len())),
    {
        let b0 = (string_bytes(m.name, is_flexible))->Ok_0;
        let b1 = (array_bytes::<PartitionResponse>(m.partitions, Ctx { version: 0, flexible: is_flexible, classic: false }))->Ok_0;
        let b2 = if is_flexible { uvarint_bytes(0) } else { Seq::<u8>::empty() };
        let t3 = post;
        let t2 = b2 + t3;
        let t1 = b1 + t2;
        let t0 = b0 + t1;
        let e = Self::spec_encode_flexible(m, is_flexible)->Ok_0;
        assert(e =~= Seq::<u8>::empty() + b0 + b1 + b2);
        lemma_seq_assoc(((Seq::<u8>::empty() + b0) + b1), b2, post);
        lemma_seq_assoc((Seq::<u8>::empty() + b0), b1, (b2 + post));
        lemma_seq_assoc(Seq::<u8>::empty(), b0, (b1 + (b2 + post)));
        lemma_seq_empty_left((b0 + (b1 + (b2 + post))));
        let s = pre + e + post;
        lemma_seq_assoc(pre, e, post);
        assert(s == pre + t0);
        let a0 = pre;
        assert(parse_string(s, a0.len() as int, is_flexible) == Ok::<(Seq<char>, int), SerializationError>((m.name, a0.len() as int + b0.len()))) by {
            assert(string_bytes(m.name, is_flexible) is Ok);
            lemma_seq_assoc(a0, b0, t1);
            lemma_string_roundtrip(a0, m.name, t1, is_flexible);
        }
        lemma_seq_assoc(a0, b0, t1);
        let a1 = a0 + b0;
        assert(parse_array::<PartitionResponse>(s, a1.len() as int, Ctx { version: 0, flexible: is_flexible, classic: false }) == Ok::<(Seq<<PartitionResponse as DeepView>::V>, int), SerializationError>((m.partitions, a1.len() as int + b1.len()))) by {
            assert(array_bytes::<PartitionResponse>(m.partitions, Ctx { version: 0, flexible: is_flexible, classic: false }) is Ok);
            lemma_seq_assoc(a1, b1, t2);
            lemma_items_read_back::<PartitionResponse>(m.partitions, Ctx { version: 0, flexible: is_flexible, classic: false });
            lemma_array_roundtrip::<PartitionResponse>(a1, m.partitions, t2, Ctx { version: 0, flexible: is_flexible, classic: false });
        }
        lemma_seq_assoc(a1, b1, t2);
        let a2 = a1 + b1;
        if is_flexible {
            assert(parse_uvarint(s, a2.len() as int) == Ok::<(u64, int), SerializationError>((0u64, a2.len() as int + b2.len()))) by {
                lemma_seq_assoc(a2, b2, t3);
                lemma_uvarint_roundtrip(a2, 0, t3);
            }
        }
    }

    /// The bytes written: the encoding of each field, in the order of the
    /// protocol's layout. Reading them back, wherever they stand, gives the value,
    /// with each field that the version leaves out at its default.
    #[verifier::spinoff_prover]
    pub proof fn lemma_flexible_layout(pre: Seq<u8>, m: TopicResponseModel, post: Seq<u8>, is_flexible: bool)
        requires
            Self::spec_encode_flexible(m, is_flexible) is Ok,
        ensures
            Self::spec_encode_flexible(m, is_flexible) == Ok::<Seq<u8>, SerializationError>(((string_bytes(m.name, is_flexible))->Ok_0) + ((array_bytes::<PartitionResponse>(m.partitions, Ctx { version: 0, flexible: is_flexible, classic: false }))->Ok_0) + (if is_flexible { uvarint_bytes(0) } else { Seq::<u8>::empty() })),
            Self::reads_back_flexible(m, is_flexible) ==> Self::spec_decode_flexible(pre + (((string_bytes(m.name, is_flexible))->Ok_0) + ((array_bytes::<PartitionResponse>(m.partitions, Ctx { version: 0, flexible: is_flexible, classic: false }))->Ok_0) + (if is_flexible { uvarint_bytes(0) } else { Seq::<u8>::empty() })) + post, pre.len() as int, is_flexible) == Ok::<(TopicResponseModel, int), SerializationError>((m, pre.len() as int + (((string_bytes(m.name, is_flexible))->Ok_0) + ((array_bytes::<PartitionResponse>(m.partitions, Ctx { version: 0, flexible: is_flexible, classic: false }))->Ok_0) + (if is_flexible { uvarint_bytes(0) } else { Seq::<u8>::empty() })).len())),
    {
        let b0 = (string_bytes(m.name, is_flexible))->Ok_0;
        let b1 = (array_bytes::<PartitionResponse>(m.partitions, Ctx { version: 0, flexible: is_flexible, classic: false }))->Ok_0;
        let b2 = if is_flexible { uvarint_bytes(0) } else { Seq::<u8>::empty() };
        let e = Self::spec_encode_flexible(m, is_flexible)->Ok_0;
        assert(e =~= Seq::<u8>::empty() + b0 + b1 + b2);
        assert(e =~= b0 + b1 + b2);
        if Self::reads_back_flexible(m, is_flexible) {
            Self::lemma_flexible_read_back(pre, m, post, is_flexible);
        }
    }

    /// Writing succeeds exactly when every field that the version carries can be
    /// encoded and every field that it leaves out, where leaving it out is an
    /// error, holds its default.
    #[verifier::spinoff_prover]
    pub proof fn lemma_flexible_write_succeeds(m: TopicResponseModel, is_flexible: bool)
        ensures
            Self::spec_encode_flexible(m, is_flexible) is Ok <==> (map_encode_err(string_bytes(m.name, is_flexible), SerializationError::ValueTooLarge { message: "failed to encode Name" }) is Ok) && (map_encode_err(array_bytes::<PartitionResponse>(m.partitions, Ctx { version: 0, flexible: is_flexible, classic: false }), SerializationError::ValueTooLarge { message: "failed to encode Partitions" }) is Ok),
    {
    }

    /// With the compact encodings off, the flexible-aware layout is the classic
    /// layout: both write the same bytes.
    pub proof fn lemma_flexible_off_writes_classic(m: TopicResponseModel)
        ensures
            Self::spec_encode_flexible(m, false) == Self::spec_encode_classic(m),
    {
        assert forall|i: int| 0 <= i < m.partitions.len() implies <PartitionResponse as KafkaCodec>::spec_encode(#[trigger] m.partitions[i], Ctx { version: 0, flexible: false, classic: true }) == <PartitionResponse as KafkaCodec>::spec_encode(m.partitions[i], Ctx { version: 0, flexible: false, classic: false }) by {
            PartitionResponse::lemma_flexible_off_writes_classic(m.partitions[i]);
        }
        lemma_array_bytes_agree::<PartitionResponse>(m.partitions, Ctx { version: 0, flexible: false, classic: true }, Ctx { version: 0, flexible: false, classic: false });
    }

    /// With the compact encodings off, the flexible-aware layout is the classic
    /// layout: both read the same bytes alike.
    pub proof fn lemma_flexible_off_reads_classic(s: Seq<u8>, pos: int)
        ensures
            Self::spec_decode_flexible(s, pos, false) == Self::spec_decode_classic(s, pos),
    {
        assert forall|p: int| #[trigger] <PartitionResponse as KafkaCodec>::spec_decode(s, p, Ctx { version: 0, flexible: false, classic: true }) == <PartitionResponse as KafkaCodec>::spec_decode(s, p, Ctx { version: 0, flexible: false, classic: false }) by {
            PartitionResponse::lemma_flexible_off_reads_classic(s, p);
        }
        lemma_parse_array_agree::<PartitionResponse>(s, Ctx { version: 0, flexible: false, classic: true }, Ctx { version: 0, flexible: false, classic: false });
    }

    /// Writes the structure in the classic layout.
    /// On failure the buffer is left as it was.
    pub fn encode(&self, buf: &mut Vec<u8>) -> (r: Result<(), SerializationError>)
        ensures
            write_exact(r, old(buf)@, final(buf)@, Self::spec_encode_classic(self.deep_view())),
    {
        let start = buf.len();
        let r = self.write_classic(buf);
        if r.is_err() {
            buf.truncate(start);
        }
        r
    }

    fn write_classic(&self, buf: &mut Vec<u8>) -> (r: Result<(), SerializationError>)
        ensures
            write_ok(r, old(buf)@, final(buf)@, Self::spec_encode_classic(self.deep_view())),
    {
        let ghost mut w: Seq<u8> = Seq::empty();
        match encode_string(&self.name, buf, false) {
            Ok(()) => {},
            Err(_) => {
                return Err(SerializationError::ValueTooLarge { message: "failed to encode Name" });
            },
        }
        proof {
            w = w + (map_encode_err(string_bytes(self.name.deep_view(), false), SerializationError::ValueTooLarge { message: "failed to encode Name" }))->Ok_0;
        }
        assert(buf@ =~= old(buf)@ + w);
        match encode_array(&self.partitions, buf, Ctx { version: 0, flexible: false, classic: true }) {
            Ok(()) => {},
            Err(_) => {
                return Err(SerializationError::ValueTooLarge { message: "failed to encode Partitions" });
            },
        }
        proof {
            w = w + (map_encode_err(array_bytes::<PartitionResponse>(self.partitions.deep_view(), Ctx { version: 0, flexible: false, classic: true }), SerializationError::ValueTooLarge { message: "failed to encode Partitions" }))->Ok_0;
        }
        assert(buf@ =~= old(buf)@ + w);
        Ok(())
    }

    /// Writes the structure, with the compact encodings when `is_flexible`.
    /// On failure the buffer is left as it was.
    pub fn encode_flexible(&self, buf: &mut Vec<u8>, is_flexible: bool) -> (r: Result<(), SerializationError>)
        ensures
            write_exact(r, old(buf)@, final(buf)@, Self::spec_encode_flexible(self.deep_view(), is_flexible)),
    {
        let start = buf.len();
        let r = self.write_flexible(buf, is_flexible);
        if r.is_err() {
            buf.truncate(start);
        }
        r
    }

    fn write_flexible(&self, buf: &mut Vec<u8>, is_flexible: bool) -> (r: Result<(), SerializationError>)
        ensures
            write_ok(r, old(buf)@, final(buf)@, Self::spec_encode_flexible(self.deep_view(), is_flexible)),
    {
        let ghost mut w: Seq<u8> = Seq::empty();
        match encode_string(&self.name, buf, is_flexible) {
            Ok(()) => {},
            Err(_) => {
                return Err(SerializationError::ValueTooLarge { message: "failed to encode Name" });
            },
        }
        proof {
            w = w + (map_encode_err(string_bytes(self.name.deep_view(), is_flexible), SerializationError::ValueTooLarge { message: "failed to encode Name" }))->Ok_0;
        }
        assert(buf@ =~= old(buf)@ + w);
        match encode_array(&self.partitions, buf, Ctx { version: 0, flexible: is_flexible, classic: false }) {
            Ok(()) => {},
            Err(_) => {
                return Err(SerializationError::ValueTooLarge { message: "failed to encode Partitions" });
            },
        }
        proof {
            w = w + (map_encode_err(array_bytes::<PartitionResponse>(self.partitions.deep_view(), Ctx { version: 0, flexible: is_flexible, classic: false }), SerializationError::ValueTooLarge { message: "failed to encode Partitions" }))->Ok_0;
        }
        assert(buf@ =~= old(buf)@ + w);
        if is_flexible {
            encode_unsigned_varint(0, buf);
            proof {
                w = w + uvarint_bytes(0);
            }
            assert(buf@ =~= old(buf)@ + w);
        }
        Ok(())
    }

    /// Reads the structure in the classic layout.
    /// On failure the reader is put back where it started.
    pub fn decode(buf: &mut Reader) -> (r: Result<Self, SerializationError>)
        ensures
            final(buf).bytes() == old(buf).bytes(),
            read_view_exact(r, Self::spec_decode_classic(old(buf).bytes(), old(buf).pos()), old(buf).pos(), final(buf).pos()),
    {
        let start = buf.position();
        let r = Self::read_classic(buf);
        if r.is_err() {
            buf.set_position(start);
        }
        r
    }

    fn read_classic(buf: &mut Reader) -> (r: Result<Self, SerializationError>)
        ensures
            final(buf).bytes() == old(buf).bytes(),
            read_view_ok(r, Self::spec_decode_classic(old(buf).bytes(), old(buf).pos()), final(buf).pos()),
    {
        let name = match buf.get_string(false) { Ok(v) => v, Err(_) => { return Err(SerializationError::Protocol { message: "failed to decode Name" }); } };
        let partitions = match decode_array::<PartitionResponse>(buf, Ctx { version: 0, flexible: false, classic: true }) { Ok(v) => v, Err(_) => { return Err(SerializationError::Protocol { message: "failed to decode Partitions" }); } };
        Ok(TopicResponse { name, partitions })
    }

    /// Reads the structure, with the compact encodings when `is_flexible`.
    /// On failure the reader is put back where it started.
    pub fn decode_flexible(buf: &mut Reader, is_flexible: bool) -> (r: Result<Self, SerializationError>)
        ensures
            final(buf).bytes() == old(buf).bytes(),
            read_view_exact(r, Self::spec_decode_flexible(old(buf).bytes(), old(buf).pos(), is_flexible), old(buf).pos(), final(buf).pos()),
    {
        let start = buf.position();
        let r = Self::read_flexible(buf, is_flexible);
        if r.is_err() {
            buf.set_position(start);
        }
        r
    }

    fn read_flexible(buf: &mut Reader, is_flexible: bool) -> (r: Result<Self, SerializationError>)
        ensures
            final(buf).bytes() == old(buf).bytes(),
            read_view_ok(r, Self::spec_decode_flexible(old(buf).bytes(), old(buf).pos(), is_flexible), final(buf).pos()),
    {
        let name = match buf.get_string(is_flexible) { Ok(v) => v, Err(_) => { return Err(SerializationError::Protocol { message: "failed to decode Name" }); } };
        let partitions = match decode_array::<PartitionResponse>(buf, Ctx { version: 0, flexible: is_flexible, classic: false }) { Ok(v) => v, Err(_) => { return Err(SerializationError::Protocol { message: "failed to decode Partitions" }); } };
        if is_flexible {
            let (_tag_count, _) = decode_unsigned_varint(buf)?;
        }
        Ok(TopicResponse { name, partitions })
    }
}

impl KafkaCodec for TopicResponse {
    open spec fn spec_encode(m: TopicResponseModel, ctx: Ctx) -> Result<Seq<u8>, SerializationError> {
        if ctx.classic {
            Self::spec_encode_classic(m)
        } else {
            Self::spec_encode_flexible(m, ctx.flexible)
        }
    }

    open spec fn reads_back(v: TopicResponseModel, ctx: Ctx) -> bool {
        if ctx.classic {
            Self::reads_back_classic(v)
        } else {
            Self::reads_back_flexible(v, ctx.flexible)
        }
    }

    proof fn lemma_read_back(pre: Seq<u8>, v: TopicResponseModel, post: Seq<u8>, ctx: Ctx) {
        if ctx.classic {
            Self::lemma_classic_read_back(pre, v, post);
            assert(Self::spec_decode(pre + Self::spec_encode(v, ctx)->Ok_0 + post, pre.len() as int, ctx)
                == Self::spec_decode_classic(pre + Self::spec_encode_classic(v)->Ok_0 + post, pre.len() as int));
        } else {
            Self::lemma_flexible_read_back(pre, v, post, ctx.flexible);
            assert(Self::spec_decode(pre + Self::spec_encode(v, ctx)->Ok_0 + post, pre.len() as int, ctx)
                == Self::spec_decode_flexible(pre + Self::spec_encode_flexible(v, ctx.flexible)->Ok_0 + post, pre.len() as int, ctx.flexible));
        }
    }

    open spec fn spec_decode(s: Seq<u8>, pos: int, ctx: Ctx) -> Result<(TopicResponseModel, int), SerializationError> {
        if ctx.classic {
            Self::spec_decode_classic(s, pos)
        } else {
            Self::spec_decode_flexible(s, pos, ctx.flexible)
        }
    }

    fn encode_ctx(&self, buf: &mut Vec<u8>, ctx: Ctx) -> (r: Result<(), SerializationError>) {
        if ctx.classic {
            self.write_classic(buf)
        } else {
            self.write_flexible(buf, ctx.flexible)
        }
    }

    fn decode_ctx(buf: &mut Reader, ctx: Ctx) -> (r: Result<Self, SerializationError>) {
        if ctx.classic {
            Self::read_classic(buf)
        } else {
            Self::read_flexible(buf, ctx.flexible)
        }
    }
}

} // verus!
