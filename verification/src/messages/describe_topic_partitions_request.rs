//! DescribeTopicPartitionsRequest (API key 75).
use vstd::prelude::*;
use crate::roundtrip::{lemma_array_roundtrip, lemma_i32_roundtrip, lemma_items_read_back,
    lemma_seq_assoc, lemma_seq_empty_left, lemma_string_roundtrip, lemma_uvarint_roundtrip};
use crate::serialization::{Ctx, KafkaCodec, Reader, SerializationError, array_bytes, decode_array,
    decode_unsigned_varint, encode_array, encode_string, encode_unsigned_varint, i32_bytes,
    parse_array, parse_i32, parse_string, parse_uvarint, put_i32, read_view_exact, read_view_ok,
    string_bytes, then, uvarint_bytes, write_exact, write_ok};
use crate::{ApiKey, ApiVersion};

verus! {

// -------------------------------------------------------
// DescribeTopicPartitionsRequest
// -------------------------------------------------------
#[derive(Clone, Debug, Default, PartialEq)]
pub struct DescribeTopicPartitionsRequest {
    /// The topics to fetch details for.
    pub topics: Vec<TopicRequest>,
    /// The maximum number of partitions included in the response.
    pub response_partition_limit: i32,
    /// The first topic and partition index to fetch details for.
    pub cursor: Option<Cursor>,
}

/// The contents of `DescribeTopicPartitionsRequest`, with strings as characters and
/// nested values by their contents.
pub struct DescribeTopicPartitionsRequestModel {
    pub topics: Seq<<TopicRequest as DeepView>::V>,
    pub response_partition_limit: i32,
    pub cursor: Option<CursorModel>,
}

impl DeepView for DescribeTopicPartitionsRequest {
    type V = DescribeTopicPartitionsRequestModel;

    open spec fn deep_view(&self) -> DescribeTopicPartitionsRequestModel {
        DescribeTopicPartitionsRequestModel {
            topics: self.topics.deep_view(),
            response_partition_limit: self.response_partition_limit,
            cursor: self.cursor.deep_view(),
        }
    }
}

impl DescribeTopicPartitionsRequest {
    /// The encoding of the structure in context `ctx`.
    pub open spec fn spec_encode_body(m: DescribeTopicPartitionsRequestModel, ctx: Ctx) -> Result<Seq<u8>, SerializationError> {
        let r = Ok(Seq::<u8>::empty());
        let r = then(r, array_bytes::<TopicRequest>(m.topics, Ctx { version: ctx.version, flexible: ctx.flexible, classic: false }));
        let r = then(r, Ok(i32_bytes(m.response_partition_limit)));
        let r = if ctx.flexible { match m.cursor { Some(v) => then(then(r, Ok(uvarint_bytes(1))), <Cursor as KafkaCodec>::spec_encode(v, Ctx { version: ctx.version, flexible: true, classic: false })), None => then(r, Ok(uvarint_bytes(0))) } } else { match m.cursor { Some(v) => then(r, <Cursor as KafkaCodec>::spec_encode(v, Ctx { version: ctx.version, flexible: false, classic: false })), None => r } };
        let r = if ctx.flexible { then(r, Ok(uvarint_bytes(0))) } else { r };
        r
    }

    /// The structure read from `s` at `pos` in context `ctx`.
    pub open spec fn spec_decode_body(s: Seq<u8>, pos: int, ctx: Ctx) -> Result<(DescribeTopicPartitionsRequestModel, int), SerializationError> {
        match parse_array::<TopicRequest>(s, pos, Ctx { version: ctx.version, flexible: ctx.flexible, classic: false }) {
            Err(e) => Err(e),
            Ok((topics, pos)) =>
            match parse_i32(s, pos) {
                Err(e) => Err(e),
                Ok((response_partition_limit, pos)) =>
                match (if ctx.flexible { match parse_uvarint(s, pos) { Err(e) => Err(e), Ok((present, p)) => if present == 0 { Ok((None, p)) } else { match (<Cursor as KafkaCodec>::spec_decode(s, p, Ctx { version: ctx.version, flexible: true, classic: false })) { Err(e) => Err(e), Ok((v, q)) => Ok((Some(v), q)) } } } } else { match <Cursor as KafkaCodec>::spec_decode(s, pos, Ctx { version: ctx.version, flexible: false, classic: false }) { Err(e) => Err(e), Ok((v, q)) => Ok((Some(v), q)) } }) {
                    Err(e) => Err(e),
                    Ok((cursor, pos)) =>
                    match (if ctx.flexible { parse_uvarint(s, pos) } else { Ok((0u64, pos)) }) {
                        Err(e) => Err(e),
                        Ok((_tag_count, pos)) =>
                        Ok((DescribeTopicPartitionsRequestModel { topics, response_partition_limit, cursor }, pos))
                    }
                }
            }
        }
    }

    /// Values of the structure that read back from their encoding in `ctx`: every
    /// field that the version leaves out holds its default, and nested values
    /// read back.
    pub open spec fn reads_back_body(m: DescribeTopicPartitionsRequestModel, ctx: Ctx) -> bool {
        &&& forall|i: int| 0 <= i < m.topics.len() ==> #[trigger] <TopicRequest as KafkaCodec>::reads_back(m.topics[i], Ctx { version: ctx.version, flexible: ctx.flexible, classic: false })
        &&& ctx.flexible ==> (m.cursor matches Some(v) ==> <Cursor as KafkaCodec>::reads_back(v, Ctx { version: ctx.version, flexible: true, classic: false }))
        &&& !ctx.flexible ==> (m.cursor matches Some(v) && <Cursor as KafkaCodec>::reads_back(v, Ctx { version: ctx.version, flexible: false, classic: false }))
    }

    /// A value that can be written in `ctx` and reads back: decoding its encoding,
    /// wherever it stands, gives the value and the position just after it.
    #[verifier::spinoff_prover]
    pub proof fn lemma_body_read_back(pre: Seq<u8>, m: DescribeTopicPartitionsRequestModel, post: Seq<u8>, ctx: Ctx)
        requires
            Self::spec_encode_body(m, ctx) is Ok,
            Self::reads_back_body(m, ctx),
        ensures
            Self::spec_decode_body(pre + Self::spec_encode_body(m, ctx)->Ok_0 + post, pre.len() as int, ctx) == Ok::<(DescribeTopicPartitionsRequestModel, int), SerializationError>((m, pre.len() as int + Self::spec_encode_body(m, ctx)->Ok_0.len())),
    {
        let b0 = (array_bytes::<TopicRequest>(m.topics, Ctx { version: ctx.version, flexible: ctx.flexible, classic: false }))->Ok_0;
        let b1 = i32_bytes(m.response_partition_limit);
        let b2 = if ctx.flexible { match m.cursor { Some(v) => uvarint_bytes(1) + (<Cursor as KafkaCodec>::spec_encode(v, Ctx { version: ctx.version, flexible: true, classic: false }))->Ok_0, None => uvarint_bytes(0) } } else { match m.cursor { Some(v) => (<Cursor as KafkaCodec>::spec_encode(v, Ctx { version: ctx.version, flexible: false, classic: false }))->Ok_0, None => Seq::<u8>::empty() } };
        let b3 = if ctx.flexible { uvarint_bytes(0) } else { Seq::<u8>::empty() };
        let t4 = post;
        let t3 = b3 + t4;
        let t2 = b2 + t3;
        let t1 = b1 + t2;
        let t0 = b0 + t1;
        let e = Self::spec_encode_body(m, ctx)->Ok_0;
        assert(e =~= Seq::<u8>::empty() + b0 + b1 + b2 + b3);
        lemma_seq_assoc((((Seq::<u8>::empty() + b0) + b1) + b2), b3, post);
        lemma_seq_assoc(((Seq::<u8>::empty() + b0) + b1), b2, (b3 + post));
        lemma_seq_assoc((Seq::<u8>::empty() + b0), b1, (b2 + (b3 + post)));
        lemma_seq_assoc(Seq::<u8>::empty(), b0, (b1 + (b2 + (b3 + post))));
        lemma_seq_empty_left((b0 + (b1 + (b2 + (b3 + post)))));
        let s = pre + e + post;
        lemma_seq_assoc(pre, e, post);
        assert(s == pre + t0);
        let a0 = pre;
        assert(parse_array::<TopicRequest>(s, a0.len() as int, Ctx { version: ctx.version, flexible: ctx.flexible, classic: false }) == Ok::<(Seq<<TopicRequest as DeepView>::V>, int), SerializationError>((m.topics, a0.len() as int + b0.len()))) by {
            assert(array_bytes::<TopicRequest>(m.topics, Ctx { version: ctx.version, flexible: ctx.flexible, classic: false }) is Ok);
            lemma_seq_assoc(a0, b0, t1);
            lemma_items_read_back::<TopicRequest>(m.topics, Ctx { version: ctx.version, flexible: ctx.flexible, classic: false });
            lemma_array_roundtrip::<TopicRequest>(a0, m.topics, t1, Ctx { version: ctx.version, flexible: ctx.flexible, classic: false });
        }
        lemma_seq_assoc(a0, b0, t1);
        let a1 = a0 + b0;
        assert(parse_i32(s, a1.len() as int) == Ok::<(i32, int), SerializationError>((m.response_partition_limit, a1.len() as int + b1.len()))) by {
            lemma_seq_assoc(a1, b1, t2);
            lemma_i32_roundtrip(a1, m.response_partition_limit, t2);
        }
        lemma_seq_assoc(a1, b1, t2);
        let a2 = a1 + b1;
        if ctx.flexible {
            match m.cursor {
                Some(v) => {
                    let x = (<Cursor as KafkaCodec>::spec_encode(v, Ctx { version: ctx.version, flexible: true, classic: false }))->Ok_0;
                    assert(parse_uvarint(s, a2.len() as int) == Ok::<(u64, int), SerializationError>((1u64, a2.len() as int + 1))) by {
                        assert(s =~= a2 + uvarint_bytes(1) + (x + t3));
                        lemma_uvarint_roundtrip(a2, 1, x + t3);
                    }
                    let a1x = a2 + uvarint_bytes(1);
                    assert(<Cursor as KafkaCodec>::spec_decode(s, a1x.len() as int, Ctx { version: ctx.version, flexible: true, classic: false }) == Ok::<(CursorModel, int), SerializationError>((v, a1x.len() as int + x.len()))) by {
                        assert(s =~= a1x + x + t3);
                        <Cursor as KafkaCodec>::lemma_read_back(a1x, v, t3, Ctx { version: ctx.version, flexible: true, classic: false });
                    }
                },
                None => {
                    assert(parse_uvarint(s, a2.len() as int) == Ok::<(u64, int), SerializationError>((0u64, a2.len() as int + 1))) by {
                        assert(s =~= a2 + b2 + t3);
                        lemma_uvarint_roundtrip(a2, 0, t3);
                    }
                },
            }
        } else {
            if let Some(v) = m.cursor {
                assert(<Cursor as KafkaCodec>::spec_decode(s, a2.len() as int, Ctx { version: ctx.version, flexible: false, classic: false }) == Ok::<(CursorModel, int), SerializationError>((v, a2.len() as int + b2.len()))) by {
                    assert(s =~= a2 + b2 + t3);
                    <Cursor as KafkaCodec>::lemma_read_back(a2, v, t3, Ctx { version: ctx.version, flexible: false, classic: false });
                }
            }
        }
        lemma_seq_assoc(a2, b2, t3);
        let a3 = a2 + b2;
        if ctx.flexible {
            assert(parse_uvarint(s, a3.len() as int) == Ok::<(u64, int), SerializationError>((0u64, a3.len() as int + b3.len()))) by {
                lemma_seq_assoc(a3, b3, t4);
                lemma_uvarint_roundtrip(a3, 0, t4);
            }
        }
    }

    /// The bytes written: the encoding of each field, in the order of the
    /// protocol's layout. Reading them back, wherever they stand, gives the value,
    /// with each field that the version leaves out at its default.
    #[verifier::spinoff_prover]
    pub proof fn lemma_body_layout(pre: Seq<u8>, m: DescribeTopicPartitionsRequestModel, post: Seq<u8>, ctx: Ctx)
        requires
            Self::spec_encode_body(m, ctx) is Ok,
        ensures
            Self::spec_encode_body(m, ctx) == Ok::<Seq<u8>, SerializationError>(((array_bytes::<TopicRequest>(m.topics, Ctx { version: ctx.version, flexible: ctx.flexible, classic: false }))->Ok_0) + (i32_bytes(m.response_partition_limit)) + (if ctx.flexible { match m.cursor { Some(v) => uvarint_bytes(1) + (<Cursor as KafkaCodec>::spec_encode(v, Ctx { version: ctx.version, flexible: true, classic: false }))->Ok_0, None => uvarint_bytes(0) } } else { match m.cursor { Some(v) => (<Cursor as KafkaCodec>::spec_encode(v, Ctx { version: ctx.version, flexible: false, classic: false }))->Ok_0, None => Seq::<u8>::empty() } }) + (if ctx.flexible { uvarint_bytes(0) } else { Seq::<u8>::empty() })),
            Self::reads_back_body(m, ctx) ==> Self::spec_decode_body(pre + (((array_bytes::<TopicRequest>(m.topics, Ctx { version: ctx.version, flexible: ctx.flexible, classic: false }))->Ok_0) + (i32_bytes(m.response_partition_limit)) + (if ctx.flexible { match m.cursor { Some(v) => uvarint_bytes(1) + (<Cursor as KafkaCodec>::spec_encode(v, Ctx { version: ctx.version, flexible: true, classic: false }))->Ok_0, None => uvarint_bytes(0) } } else { match m.cursor { Some(v) => (<Cursor as KafkaCodec>::spec_encode(v, Ctx { version: ctx.version, flexible: false, classic: false }))->Ok_0, None => Seq::<u8>::empty() } }) + (if ctx.flexible { uvarint_bytes(0) } else { Seq::<u8>::empty() })) + post, pre.len() as int, ctx) == Ok::<(DescribeTopicPartitionsRequestModel, int), SerializationError>((m, pre.len() as int + (((array_bytes::<TopicRequest>(m.topics, Ctx { version: ctx.version, flexible: ctx.flexible, classic: false }))->Ok_0) + (i32_bytes(m.response_partition_limit)) + (if ctx.flexible { match m.cursor { Some(v) => uvarint_bytes(1) + (<Cursor as KafkaCodec>::spec_encode(v, Ctx { version: ctx.version, flexible: true, classic: false }))->Ok_0, None => uvarint_bytes(0) } } else { match m.cursor { Some(v) => (<Cursor as KafkaCodec>::spec_encode(v, Ctx { version: ctx.version, flexible: false, classic: false }))->Ok_0, None => Seq::<u8>::empty() } }) + (if ctx.flexible { uvarint_bytes(0) } else { Seq::<u8>::empty() })).len())),
    {
        let b0 = (array_bytes::<TopicRequest>(m.topics, Ctx { version: ctx.version, flexible: ctx.flexible, classic: false }))->Ok_0;
        let b1 = i32_bytes(m.response_partition_limit);
        let b2 = if ctx.flexible { match m.cursor { Some(v) => uvarint_bytes(1) + (<Cursor as KafkaCodec>::spec_encode(v, Ctx { version: ctx.version, flexible: true, classic: false }))->Ok_0, None => uvarint_bytes(0) } } else { match m.cursor { Some(v) => (<Cursor as KafkaCodec>::spec_encode(v, Ctx { version: ctx.version, flexible: false, classic: false }))->Ok_0, None => Seq::<u8>::empty() } };
        let b3 = if ctx.flexible { uvarint_bytes(0) } else { Seq::<u8>::empty() };
        let e = Self::spec_encode_body(m, ctx)->Ok_0;
        assert(e =~= Seq::<u8>::empty() + b0 + b1 + b2 + b3);
        assert(e =~= b0 + b1 + b2 + b3);
        if Self::reads_back_body(m, ctx) {
            Self::lemma_body_read_back(pre, m, post, ctx);
        }
    }

    /// Writes the structure for `version`, with the compact encodings when `is_flexible`.
    /// On failure the buffer is left as it was.
    pub fn encode(&self, buf: &mut Vec<u8>, version: ApiVersion, is_flexible: bool) -> (r: Result<(), SerializationError>)
        ensures
            write_exact(r, old(buf)@, final(buf)@, Self::spec_encode_body(self.deep_view(), Ctx { version: version.0, flexible: is_flexible, classic: false })),
    {
        let start = buf.len();
        let r = self.encode_ctx(buf, Ctx::new(version, is_flexible));
        if r.is_err() {
            buf.truncate(start);
        }
        r
    }

    /// Reads the structure as written for `version`.
    /// On failure the reader is put back where it started.
    pub fn decode(buf: &mut Reader, version: ApiVersion, is_flexible: bool) -> (r: Result<Self, SerializationError>)
        ensures
            final(buf).bytes() == old(buf).bytes(),
            read_view_exact(r, Self::spec_decode_body(old(buf).bytes(), old(buf).pos(), Ctx { version: version.0, flexible: is_flexible, classic: false }), old(buf).pos(), final(buf).pos()),
    {
        let start = buf.position();
        let r = Self::decode_ctx(buf, Ctx::new(version, is_flexible));
        if r.is_err() {
            buf.set_position(start);
        }
        r
    }
}

impl KafkaCodec for DescribeTopicPartitionsRequest {
    open spec fn spec_encode(m: DescribeTopicPartitionsRequestModel, ctx: Ctx) -> Result<Seq<u8>, SerializationError> {
        Self::spec_encode_body(m, ctx)
    }

    open spec fn spec_decode(s: Seq<u8>, pos: int, ctx: Ctx) -> Result<(DescribeTopicPartitionsRequestModel, int), SerializationError> {
        Self::spec_decode_body(s, pos, ctx)
    }

    open spec fn reads_back(v: DescribeTopicPartitionsRequestModel, ctx: Ctx) -> bool {
        Self::reads_back_body(v, ctx)
    }

    proof fn lemma_read_back(pre: Seq<u8>, v: DescribeTopicPartitionsRequestModel, post: Seq<u8>, ctx: Ctx) {
        Self::lemma_body_read_back(pre, v, post, ctx);
        assert(Self::spec_decode(pre + Self::spec_encode(v, ctx)->Ok_0 + post, pre.len() as int, ctx)
            == Self::spec_decode_body(pre + Self::spec_encode_body(v, ctx)->Ok_0 + post, pre.len() as int, ctx));
    }

    fn encode_ctx(&self, buf: &mut Vec<u8>, ctx: Ctx) -> (r: Result<(), SerializationError>) {
        let ghost mut w: Seq<u8> = Seq::empty();
        encode_array(&self.topics, buf, Ctx { version: ctx.version, flexible: ctx.flexible, classic: false })?;
        proof {
            w = w + (array_bytes::<TopicRequest>(self.topics.deep_view(), Ctx { version: ctx.version, flexible: ctx.flexible, classic: false }))->Ok_0;
        }
        assert(buf@ =~= old(buf)@ + w);
        put_i32(buf, self.response_partition_limit);
        proof {
            w = w + i32_bytes(self.response_partition_limit);
        }
        assert(buf@ =~= old(buf)@ + w);
        if ctx.flexible {
            match &self.cursor {
                Some(v) => {
                    encode_unsigned_varint(1, buf);
                    proof {
                        w = w + uvarint_bytes(1);
                    }
                    (*v).encode_ctx(buf, Ctx { version: ctx.version, flexible: true, classic: false })?;
                    proof {
                        w = w + (<Cursor as KafkaCodec>::spec_encode((*v).deep_view(), Ctx { version: ctx.version, flexible: true, classic: false }))->Ok_0;
                    }
                    assert(buf@ =~= old(buf)@ + w);
                },
                None => {
                    encode_unsigned_varint(0, buf);
                    proof {
                        w = w + uvarint_bytes(0);
                    }
                    assert(buf@ =~= old(buf)@ + w);
                },
            }
        } else {
            match &self.cursor {
                Some(v) => {
                    (*v).encode_ctx(buf, Ctx { version: ctx.version, flexible: false, classic: false })?;
                    proof {
                        w = w + (<Cursor as KafkaCodec>::spec_encode((*v).deep_view(), Ctx { version: ctx.version, flexible: false, classic: false }))->Ok_0;
                    }
                    assert(buf@ =~= old(buf)@ + w);
                },
                None => {},
            }
        }
        if ctx.flexible {
            encode_unsigned_varint(0, buf);
            proof {
                w = w + uvarint_bytes(0);
            }
            assert(buf@ =~= old(buf)@ + w);
        }
        Ok(())
    }

    fn decode_ctx(buf: &mut Reader, ctx: Ctx) -> (r: Result<Self, SerializationError>) {
        let topics = decode_array::<TopicRequest>(buf, Ctx { version: ctx.version, flexible: ctx.flexible, classic: false })?;
        let response_partition_limit = buf.get_i32()?;
        let cursor = if ctx.flexible {
            let (present, _) = decode_unsigned_varint(buf)?;
            if present == 0 {
                None
            } else {
                Some(<Cursor as KafkaCodec>::decode_ctx(buf, Ctx { version: ctx.version, flexible: true, classic: false })?)
            }
        } else {
            Some(<Cursor as KafkaCodec>::decode_ctx(buf, Ctx { version: ctx.version, flexible: false, classic: false })?)
        };
        if ctx.flexible {
            let (_tag_count, _) = decode_unsigned_varint(buf)?;
        }
        Ok(DescribeTopicPartitionsRequest { topics, response_partition_limit, cursor })
    }
}

impl DescribeTopicPartitionsRequest {
    /// The API key of this message.
    pub fn get_api_key() -> (r: ApiKey)
        ensures
            r.0 == 75,
    {
        ApiKey::new(75)
    }

    /// The oldest version of this message.
    pub fn get_min_supported_version() -> (r: ApiVersion)
        ensures
            r.0 == 0,
    {
        ApiVersion::new(0)
    }

    /// The newest version of this message.
    pub fn get_max_supported_version() -> (r: ApiVersion)
        ensures
            r.0 == 0,
    {
        ApiVersion::new(0)
    }

    /// The first version of this message with the compact encodings.
    pub fn get_min_flexible_version() -> (r: ApiVersion)
        ensures
            r.0 == 0,
    {
        ApiVersion::new(0)
    }

    /// The encoding of a whole message body at `version`.
    pub open spec fn spec_serialize(m: DescribeTopicPartitionsRequestModel, version: i16) -> Result<Seq<u8>, SerializationError> {
        let is_flexible = version >= 0;
        let ctx = Ctx { version, flexible: is_flexible, classic: false };
        let r = Ok(Seq::<u8>::empty());
        let r = then(r, array_bytes::<TopicRequest>(m.topics, Ctx { version: ctx.version, flexible: ctx.flexible, classic: false }));
        let r = then(r, Ok(i32_bytes(m.response_partition_limit)));
        let r = if ctx.flexible { match m.cursor { Some(v) => then(then(r, Ok(uvarint_bytes(1))), <Cursor as KafkaCodec>::spec_encode(v, Ctx { version: ctx.version, flexible: true, classic: false })), None => then(r, Ok(uvarint_bytes(0))) } } else { match m.cursor { Some(v) => then(r, <Cursor as KafkaCodec>::spec_encode(v, Ctx { version: ctx.version, flexible: false, classic: false })), None => r } };
        let r = if ctx.flexible { then(r, Ok(uvarint_bytes(0))) } else { r };
        r
    }

    /// The message body read at `version`.
    pub open spec fn spec_deserialize(s: Seq<u8>, pos: int, version: i16) -> Result<(DescribeTopicPartitionsRequestModel, int), SerializationError> {
        let is_flexible = version >= 0;
        let ctx = Ctx { version, flexible: is_flexible, classic: false };
        match parse_array::<TopicRequest>(s, pos, Ctx { version: ctx.version, flexible: ctx.flexible, classic: false }) {
            Err(e) => Err(e),
            Ok((topics, pos)) =>
            match parse_i32(s, pos) {
                Err(e) => Err(e),
                Ok((response_partition_limit, pos)) =>
                match (if ctx.flexible { match parse_uvarint(s, pos) { Err(e) => Err(e), Ok((present, p)) => if present == 0 { Ok((None, p)) } else { match (<Cursor as KafkaCodec>::spec_decode(s, p, Ctx { version: ctx.version, flexible: true, classic: false })) { Err(e) => Err(e), Ok((v, q)) => Ok((Some(v), q)) } } } } else { match <Cursor as KafkaCodec>::spec_decode(s, pos, Ctx { version: ctx.version, flexible: false, classic: false }) { Err(e) => Err(e), Ok((v, q)) => Ok((Some(v), q)) } }) {
                    Err(e) => Err(e),
                    Ok((cursor, pos)) =>
                    match (if ctx.flexible { parse_uvarint(s, pos) } else { Ok((0u64, pos)) }) {
                        Err(e) => Err(e),
                        Ok((_tag_count, pos)) =>
                        Ok((DescribeTopicPartitionsRequestModel { topics, response_partition_limit, cursor }, pos))
                    }
                }
            }
        }
    }

    /// Message bodies that read back when written at `version`: every field that
    /// the version leaves out holds its default, and nested values read back.
    pub open spec fn reads_back_message(m: DescribeTopicPartitionsRequestModel, version: i16) -> bool {
        let is_flexible = version >= 0;
        let ctx = Ctx { version, flexible: is_flexible, classic: false };
        &&& forall|i: int| 0 <= i < m.topics.len() ==> #[trigger] <TopicRequest as KafkaCodec>::reads_back(m.topics[i], Ctx { version: ctx.version, flexible: ctx.flexible, classic: false })
        &&& ctx.flexible ==> (m.cursor matches Some(v) ==> <Cursor as KafkaCodec>::reads_back(v, Ctx { version: ctx.version, flexible: true, classic: false }))
        &&& !ctx.flexible ==> (m.cursor matches Some(v) && <Cursor as KafkaCodec>::reads_back(v, Ctx { version: ctx.version, flexible: false, classic: false }))
    }

    /// A message body that can be written at `version` and reads back: reading a
    /// body at `version` from its bytes, wherever they stand, gives the same message.
    #[verifier::spinoff_prover]
    pub proof fn lemma_message_read_back(pre: Seq<u8>, m: DescribeTopicPartitionsRequestModel, post: Seq<u8>, version: i16)
        requires
            Self::spec_serialize(m, version) is Ok,
            Self::reads_back_message(m, version),
        ensures
            Self::spec_deserialize(pre + Self::spec_serialize(m, version)->Ok_0 + post, pre.len() as int, version) == Ok::<(DescribeTopicPartitionsRequestModel, int), SerializationError>((m, pre.len() as int + Self::spec_serialize(m, version)->Ok_0.len())),
    {
        let is_flexible = version >= 0;
        let ctx = Ctx { version, flexible: is_flexible, classic: false };
        let b0 = (array_bytes::<TopicRequest>(m.topics, Ctx { version: ctx.version, flexible: ctx.flexible, classic: false }))->Ok_0;
        let b1 = i32_bytes(m.response_partition_limit);
        let b2 = if ctx.flexible { match m.cursor { Some(v) => uvarint_bytes(1) + (<Cursor as KafkaCodec>::spec_encode(v, Ctx { version: ctx.version, flexible: true, classic: false }))->Ok_0, None => uvarint_bytes(0) } } else { match m.cursor { Some(v) => (<Cursor as KafkaCodec>::spec_encode(v, Ctx { version: ctx.version, flexible: false, classic: false }))->Ok_0, None => Seq::<u8>::empty() } };
        let b3 = if ctx.flexible { uvarint_bytes(0) } else { Seq::<u8>::empty() };
        let t4 = post;
        let t3 = b3 + t4;
        let t2 = b2 + t3;
        let t1 = b1 + t2;
        let t0 = b0 + t1;
        let e = Self::spec_serialize(m, version)->Ok_0;
        assert(e =~= Seq::<u8>::empty() + b0 + b1 + b2 + b3);
        lemma_seq_assoc((((Seq::<u8>::empty() + b0) + b1) + b2), b3, post);
        lemma_seq_assoc(((Seq::<u8>::empty() + b0) + b1), b2, (b3 + post));
        lemma_seq_assoc((Seq::<u8>::empty() + b0), b1, (b2 + (b3 + post)));
        lemma_seq_assoc(Seq::<u8>::empty(), b0, (b1 + (b2 + (b3 + post))));
        lemma_seq_empty_left((b0 + (b1 + (b2 + (b3 + post)))));
        let s = pre + e + post;
        lemma_seq_assoc(pre, e, post);
        assert(s == pre + t0);
        let a0 = pre;
        assert(parse_array::<TopicRequest>(s, a0.len() as int, Ctx { version: ctx.version, flexible: ctx.flexible, classic: false }) == Ok::<(Seq<<TopicRequest as DeepView>::V>, int), SerializationError>((m.topics, a0.len() as int + b0.len()))) by {
            assert(array_bytes::<TopicRequest>(m.topics, Ctx { version: ctx.version, flexible: ctx.flexible, classic: false }) is Ok);
            lemma_seq_assoc(a0, b0, t1);
            lemma_items_read_back::<TopicRequest>(m.topics, Ctx { version: ctx.version, flexible: ctx.flexible, classic: false });
            lemma_array_roundtrip::<TopicRequest>(a0, m.topics, t1, Ctx { version: ctx.version, flexible: ctx.flexible, classic: false });
        }
        lemma_seq_assoc(a0, b0, t1);
        let a1 = a0 + b0;
        assert(parse_i32(s, a1.len() as int) == Ok::<(i32, int), SerializationError>((m.response_partition_limit, a1.len() as int + b1.len()))) by {
            lemma_seq_assoc(a1, b1, t2);
            lemma_i32_roundtrip(a1, m.response_partition_limit, t2);
        }
        lemma_seq_assoc(a1, b1, t2);
        let a2 = a1 + b1;
        if ctx.flexible {
            match m.cursor {
                Some(v) => {
                    let x = (<Cursor as KafkaCodec>::spec_encode(v, Ctx { version: ctx.version, flexible: true, classic: false }))->Ok_0;
                    assert(parse_uvarint(s, a2.len() as int) == Ok::<(u64, int), SerializationError>((1u64, a2.len() as int + 1))) by {
                        assert(s =~= a2 + uvarint_bytes(1) + (x + t3));
                        lemma_uvarint_roundtrip(a2, 1, x + t3);
                    }
                    let a1x = a2 + uvarint_bytes(1);
                    assert(<Cursor as KafkaCodec>::spec_decode(s, a1x.len() as int, Ctx { version: ctx.version, flexible: true, classic: false }) == Ok::<(CursorModel, int), SerializationError>((v, a1x.len() as int + x.len()))) by {
                        assert(s =~= a1x + x + t3);
                        <Cursor as KafkaCodec>::lemma_read_back(a1x, v, t3, Ctx { version: ctx.version, flexible: true, classic: false });
                    }
                },
                None => {
                    assert(parse_uvarint(s, a2.len() as int) == Ok::<(u64, int), SerializationError>((0u64, a2.len() as int + 1))) by {
                        assert(s =~= a2 + b2 + t3);
                        lemma_uvarint_roundtrip(a2, 0, t3);
                    }
                },
            }
        } else {
            if let Some(v) = m.cursor {
                assert(<Cursor as KafkaCodec>::spec_decode(s, a2.len() as int, Ctx { version: ctx.version, flexible: false, classic: false }) == Ok::<(CursorModel, int), SerializationError>((v, a2.len() as int + b2.len()))) by {
                    assert(s =~= a2 + b2 + t3);
                    <Cursor as KafkaCodec>::lemma_read_back(a2, v, t3, Ctx { version: ctx.version, flexible: false, classic: false });
                }
            }
        }
        lemma_seq_assoc(a2, b2, t3);
        let a3 = a2 + b2;
        if ctx.flexible {
            assert(parse_uvarint(s, a3.len() as int) == Ok::<(u64, int), SerializationError>((0u64, a3.len() as int + b3.len()))) by {
                lemma_seq_assoc(a3, b3, t4);
                lemma_uvarint_roundtrip(a3, 0, t4);
            }
        }
    }

    /// The bytes written: the encoding of each field, in the order of the
    /// protocol's layout. Reading them back, wherever they stand, gives the value,
    /// with each field that the version leaves out at its default.
    #[verifier::spinoff_prover]
    pub proof fn lemma_message_layout(pre: Seq<u8>, m: DescribeTopicPartitionsRequestModel, post: Seq<u8>, version: i16)
        requires
            Self::spec_serialize(m, version) is Ok,
        ensures
            Self::spec_serialize(m, version) == Ok::<Seq<u8>, SerializationError>(((array_bytes::<TopicRequest>(m.topics, Ctx { version: version, flexible: (version >= 0), classic: false }))->Ok_0) + (i32_bytes(m.response_partition_limit)) + (if (version >= 0) { match m.cursor { Some(v) => uvarint_bytes(1) + (<Cursor as KafkaCodec>::spec_encode(v, Ctx { version: version, flexible: true, classic: false }))->Ok_0, None => uvarint_bytes(0) } } else { match m.cursor { Some(v) => (<Cursor as KafkaCodec>::spec_encode(v, Ctx { version: version, flexible: false, classic: false }))->Ok_0, None => Seq::<u8>::empty() } }) + (if (version >= 0) { uvarint_bytes(0) } else { Seq::<u8>::empty() })),
            Self::reads_back_message(m, version) ==> Self::spec_deserialize(pre + (((array_bytes::<TopicRequest>(m.topics, Ctx { version: version, flexible: (version >= 0), classic: false }))->Ok_0) + (i32_bytes(m.response_partition_limit)) + (if (version >= 0) { match m.cursor { Some(v) => uvarint_bytes(1) + (<Cursor as KafkaCodec>::spec_encode(v, Ctx { version: version, flexible: true, classic: false }))->Ok_0, None => uvarint_bytes(0) } } else { match m.cursor { Some(v) => (<Cursor as KafkaCodec>::spec_encode(v, Ctx { version: version, flexible: false, classic: false }))->Ok_0, None => Seq::<u8>::empty() } }) + (if (version >= 0) { uvarint_bytes(0) } else { Seq::<u8>::empty() })) + post, pre.len() as int, version) == Ok::<(DescribeTopicPartitionsRequestModel, int), SerializationError>((m, pre.len() as int + (((array_bytes::<TopicRequest>(m.topics, Ctx { version: version, flexible: (version >= 0), classic: false }))->Ok_0) + (i32_bytes(m.response_partition_limit)) + (if (version >= 0) { match m.cursor { Some(v) => uvarint_bytes(1) + (<Cursor as KafkaCodec>::spec_encode(v, Ctx { version: version, flexible: true, classic: false }))->Ok_0, None => uvarint_bytes(0) } } else { match m.cursor { Some(v) => (<Cursor as KafkaCodec>::spec_encode(v, Ctx { version: version, flexible: false, classic: false }))->Ok_0, None => Seq::<u8>::empty() } }) + (if (version >= 0) { uvarint_bytes(0) } else { Seq::<u8>::empty() })).len())),
    {
        let is_flexible = version >= 0;
        let ctx = Ctx { version, flexible: is_flexible, classic: false };
        let b0 = (array_bytes::<TopicRequest>(m.topics, Ctx { version: ctx.version, flexible: ctx.flexible, classic: false }))->Ok_0;
        let b1 = i32_bytes(m.response_partition_limit);
        let b2 = if ctx.flexible { match m.cursor { Some(v) => uvarint_bytes(1) + (<Cursor as KafkaCodec>::spec_encode(v, Ctx { version: ctx.version, flexible: true, classic: false }))->Ok_0, None => uvarint_bytes(0) } } else { match m.cursor { Some(v) => (<Cursor as KafkaCodec>::spec_encode(v, Ctx { version: ctx.version, flexible: false, classic: false }))->Ok_0, None => Seq::<u8>::empty() } };
        let b3 = if ctx.flexible { uvarint_bytes(0) } else { Seq::<u8>::empty() };
        let e = Self::spec_serialize(m, version)->Ok_0;
        assert(e =~= Seq::<u8>::empty() + b0 + b1 + b2 + b3);
        assert(e =~= b0 + b1 + b2 + b3);
        if Self::reads_back_message(m, version) {
            Self::lemma_message_read_back(pre, m, post, version);
        }
    }

    /// Writes the message body for `version`, which must be a supported version.
    /// On failure the buffer is left as it was.
    pub fn serialize(&self, version: ApiVersion, buf: &mut Vec<u8>) -> (r: Result<(), SerializationError>)
        requires
            0 <= version.0 <= 0,
        ensures
            write_exact(r, old(buf)@, final(buf)@, Self::spec_serialize(self.deep_view(), version.0)),
    {
        let start = buf.len();
        let r = self.write_body(version, buf);
        if r.is_err() {
            buf.truncate(start);
        }
        r
    }

    fn write_body(&self, version: ApiVersion, buf: &mut Vec<u8>) -> (r: Result<(), SerializationError>)
        requires
            0 <= version.0 <= 0,
        ensures
            write_ok(r, old(buf)@, final(buf)@, Self::spec_serialize(self.deep_view(), version.0)),
    {
        let is_flexible = version.0 >= Self::get_min_flexible_version().0;
        let ctx = Ctx::new(version, is_flexible);
        let ghost mut w: Seq<u8> = Seq::empty();
        encode_array(&self.topics, buf, Ctx { version: ctx.version, flexible: ctx.flexible, classic: false })?;
        proof {
            w = w + (array_bytes::<TopicRequest>(self.topics.deep_view(), Ctx { version: ctx.version, flexible: ctx.flexible, classic: false }))->Ok_0;
        }
        assert(buf@ =~= old(buf)@ + w);
        put_i32(buf, self.response_partition_limit);
        proof {
            w = w + i32_bytes(self.response_partition_limit);
        }
        assert(buf@ =~= old(buf)@ + w);
        if ctx.flexible {
            match &self.cursor {
                Some(v) => {
                    encode_unsigned_varint(1, buf);
                    proof {
                        w = w + uvarint_bytes(1);
                    }
                    (*v).encode_ctx(buf, Ctx { version: ctx.version, flexible: true, classic: false })?;
                    proof {
                        w = w + (<Cursor as KafkaCodec>::spec_encode((*v).deep_view(), Ctx { version: ctx.version, flexible: true, classic: false }))->Ok_0;
                    }
                    assert(buf@ =~= old(buf)@ + w);
                },
                None => {
                    encode_unsigned_varint(0, buf);
                    proof {
                        w = w + uvarint_bytes(0);
                    }
                    assert(buf@ =~= old(buf)@ + w);
                },
            }
        } else {
            match &self.cursor {
                Some(v) => {
                    (*v).encode_ctx(buf, Ctx { version: ctx.version, flexible: false, classic: false })?;
                    proof {
                        w = w + (<Cursor as KafkaCodec>::spec_encode((*v).deep_view(), Ctx { version: ctx.version, flexible: false, classic: false }))->Ok_0;
                    }
                    assert(buf@ =~= old(buf)@ + w);
                },
                None => {},
            }
        }
        if ctx.flexible {
            encode_unsigned_varint(0, buf);
            proof {
                w = w + uvarint_bytes(0);
            }
            assert(buf@ =~= old(buf)@ + w);
        }
        Ok(())
    }

    /// Reads a message body written for `version`.
    /// On failure the reader is put back where it started.
    pub fn deserialize(version: ApiVersion, buf: &mut Reader) -> (r: Result<Self, SerializationError>)
        ensures
            final(buf).bytes() == old(buf).bytes(),
            read_view_exact(r, Self::spec_deserialize(old(buf).bytes(), old(buf).pos(), version.0), old(buf).pos(), final(buf).pos()),
    {
        let start = buf.position();
        let r = Self::read_body(version, buf);
        if r.is_err() {
            buf.set_position(start);
        }
        r
    }

    fn read_body(version: ApiVersion, buf: &mut Reader) -> (r: Result<Self, SerializationError>)
        ensures
            final(buf).bytes() == old(buf).bytes(),
            read_view_ok(r, Self::spec_deserialize(old(buf).bytes(), old(buf).pos(), version.0), final(buf).pos()),
    {
        let is_flexible = version.0 >= Self::get_min_flexible_version().0;
        let ctx = Ctx::new(version, is_flexible);
        let topics = decode_array::<TopicRequest>(buf, Ctx { version: ctx.version, flexible: ctx.flexible, classic: false })?;
        let response_partition_limit = buf.get_i32()?;
        let cursor = if ctx.flexible {
            let (present, _) = decode_unsigned_varint(buf)?;
            if present == 0 {
                None
            } else {
                Some(<Cursor as KafkaCodec>::decode_ctx(buf, Ctx { version: ctx.version, flexible: true, classic: false })?)
            }
        } else {
            Some(<Cursor as KafkaCodec>::decode_ctx(buf, Ctx { version: ctx.version, flexible: false, classic: false })?)
        };
        if ctx.flexible {
            let (_tag_count, _) = decode_unsigned_varint(buf)?;
        }
        Ok(DescribeTopicPartitionsRequest { topics, response_partition_limit, cursor })
    }
}

// -------------------------------------------------------
// Cursor
// -------------------------------------------------------
#[derive(Clone, Debug, Default, PartialEq)]
pub struct Cursor {
    /// The name for the first topic to process.
    pub topic_name: String,
    /// The partition index to start with.
    pub partition_index: i32,
}

/// The contents of `Cursor`, with strings as characters and
/// nested values by their contents.
pub struct CursorModel {
    pub topic_name: Seq<char>,
    pub partition_index: i32,
}

impl DeepView for Cursor {
    type V = CursorModel;

    open spec fn deep_view(&self) -> CursorModel {
        CursorModel {
            topic_name: self.topic_name.deep_view(),
            partition_index: self.partition_index,
        }
    }
}

impl Cursor {
    /// The encoding of the structure in context `ctx`.
    pub open spec fn spec_encode_body(m: CursorModel, ctx: Ctx) -> Result<Seq<u8>, SerializationError> {
        let r = Ok(Seq::<u8>::empty());
        let r = then(r, string_bytes(m.topic_name, ctx.flexible));
        let r = then(r, Ok(i32_bytes(m.partition_index)));
        let r = if ctx.flexible { then(r, Ok(uvarint_bytes(0))) } else { r };
        r
    }

    /// The structure read from `s` at `pos` in context `ctx`.
    pub open spec fn spec_decode_body(s: Seq<u8>, pos: int, ctx: Ctx) -> Result<(CursorModel, int), SerializationError> {
        match parse_string(s, pos, ctx.flexible) {
            Err(e) => Err(e),
            Ok((topic_name, pos)) =>
            match parse_i32(s, pos) {
                Err(e) => Err(e),
                Ok((partition_index, pos)) =>
                match (if ctx.flexible { parse_uvarint(s, pos) } else { Ok((0u64, pos)) }) {
                    Err(e) => Err(e),
                    Ok((_tag_count, pos)) =>
                    Ok((CursorModel { topic_name, partition_index }, pos))
                }
            }
        }
    }

    /// Values of the structure that read back from their encoding in `ctx`: every
    /// field that the version leaves out holds its default, and nested values
    /// read back.
    pub open spec fn reads_back_body(m: CursorModel, ctx: Ctx) -> bool {
        true
    }

    /// A value that can be written in `ctx` and reads back: decoding its encoding,
    /// wherever it stands, gives the value and the position just after it.
    #[verifier::spinoff_prover]
    pub proof fn lemma_body_read_back(pre: Seq<u8>, m: CursorModel, post: Seq<u8>, ctx: Ctx)
        requires
            Self::spec_encode_body(m, ctx) is Ok,
            Self::reads_back_body(m, ctx),
        ensures
            Self::spec_decode_body(pre + Self::spec_encode_body(m, ctx)->Ok_0 + post, pre.len() as int, ctx) == Ok::<(CursorModel, int), SerializationError>((m, pre.len() as int + Self::spec_encode_body(m, ctx)->Ok_0.len())),
    {
        let b0 = (string_bytes(m.topic_name, ctx.flexible))->Ok_0;
        let b1 = i32_bytes(m.partition_index);
        let b2 = if ctx.flexible { uvarint_bytes(0) } else { Seq::<u8>::empty() };
        let t3 = post;
        let t2 = b2 + t3;
        let t1 = b1 + t2;
        let t0 = b0 + t1;
        let e = Self::spec_encode_body(m, ctx)->Ok_0;
        assert(e =~= Seq::<u8>::empty() + b0 + b1 + b2);
        lemma_seq_assoc(((Seq::<u8>::empty() + b0) + b1), b2, post);
        lemma_seq_assoc((Seq::<u8>::empty() + b0), b1, (b2 + post));
        lemma_seq_assoc(Seq::<u8>::empty(), b0, (b1 + (b2 + post)));
        lemma_seq_empty_left((b0 + (b1 + (b2 + post))));
        let s = pre + e + post;
        lemma_seq_assoc(pre, e, post);
        assert(s == pre + t0);
        let a0 = pre;
        assert(parse_string(s, a0.len() as int, ctx.flexible) == Ok::<(Seq<char>, int), SerializationError>((m.topic_name, a0.len() as int + b0.len()))) by {
            assert(string_bytes(m.topic_name, ctx.flexible) is Ok);
            lemma_seq_assoc(a0, b0, t1);
            lemma_string_roundtrip(a0, m.topic_name, t1, ctx.flexible);
        }
        lemma_seq_assoc(a0, b0, t1);
        let a1 = a0 + b0;
        assert(parse_i32(s, a1.len() as int) == Ok::<(i32, int), SerializationError>((m.partition_index, a1.len() as int + b1.len()))) by {
            lemma_seq_assoc(a1, b1, t2);
            lemma_i32_roundtrip(a1, m.partition_index, t2);
        }
        lemma_seq_assoc(a1, b1, t2);
        let a2 = a1 + b1;
        if ctx.flexible {
            assert(parse_uvarint(s, a2.len() as int) == Ok::<(u64, int), SerializationError>((0u64, a2.len() as int + b2.len()))) by {
                lemma_seq_assoc(a2, b2, t3);
                lemma_uvarint_roundtrip(a2, 0, t3);
            }
        }
    }

    /// The bytes written: the encoding of each field, in the order of the
    /// protocol's layout. Reading them back, wherever they stand, gives the value,
    /// with each field that the version leaves out at its default.
    #[verifier::spinoff_prover]
    pub proof fn lemma_body_layout(pre: Seq<u8>, m: CursorModel, post: Seq<u8>, ctx: Ctx)
        requires
            Self::spec_encode_body(m, ctx) is Ok,
        ensures
            Self::spec_encode_body(m, ctx) == Ok::<Seq<u8>, SerializationError>(((string_bytes(m.topic_name, ctx.flexible))->Ok_0) + (i32_bytes(m.partition_index)) + (if ctx.flexible { uvarint_bytes(0) } else { Seq::<u8>::empty() })),
            Self::reads_back_body(m, ctx) ==> Self::spec_decode_body(pre + (((string_bytes(m.topic_name, ctx.flexible))->Ok_0) + (i32_bytes(m.partition_index)) + (if ctx.flexible { uvarint_bytes(0) } else { Seq::<u8>::empty() })) + post, pre.len() as int, ctx) == Ok::<(CursorModel, int), SerializationError>((m, pre.len() as int + (((string_bytes(m.topic_name, ctx.flexible))->Ok_0) + (i32_bytes(m.partition_index)) + (if ctx.flexible { uvarint_bytes(0) } else { Seq::<u8>::empty() })).len())),
    {
        let b0 = (string_bytes(m.topic_name, ctx.flexible))->Ok_0;
        let b1 = i32_bytes(m.partition_index);
        let b2 = if ctx.flexible { uvarint_bytes(0) } else { Seq::<u8>::empty() };
        let e = Self::spec_encode_body(m, ctx)->Ok_0;
        assert(e =~= Seq::<u8>::empty() + b0 + b1 + b2);
        assert(e =~= b0 + b1 + b2);
        if Self::reads_back_body(m, ctx) {
            Self::lemma_body_read_back(pre, m, post, ctx);
        }
    }

    /// Writing succeeds exactly when every field that the version carries can be
    /// encoded and every field that it leaves out, where leaving it out is an
    /// error, holds its default.
    #[verifier::spinoff_prover]
    pub proof fn lemma_body_write_succeeds(m: CursorModel, ctx: Ctx)
        ensures
            Self::spec_encode_body(m, ctx) is Ok <==> (string_bytes(m.topic_name, ctx.flexible) is Ok),
    {
    }

    /// Writes the structure for `version`, with the compact encodings when `is_flexible`.
    /// On failure the buffer is left as it was.
    pub fn encode(&self, buf: &mut Vec<u8>, version: ApiVersion, is_flexible: bool) -> (r: Result<(), SerializationError>)
        ensures
            write_exact(r, old(buf)@, final(buf)@, Self::spec_encode_body(self.deep_view(), Ctx { version: version.0, flexible: is_flexible, classic: false })),
    {
        let start = buf.len();
        let r = self.encode_ctx(buf, Ctx::new(version, is_flexible));
        if r.is_err() {
            buf.truncate(start);
        }
        r
    }

    /// Reads the structure as written for `version`.
    /// On failure the reader is put back where it started.
    pub fn decode(buf: &mut Reader, version: ApiVersion, is_flexible: bool) -> (r: Result<Self, SerializationError>)
        ensures
            final(buf).bytes() == old(buf).bytes(),
            read_view_exact(r, Self::spec_decode_body(old(buf).bytes(), old(buf).pos(), Ctx { version: version.0, flexible: is_flexible, classic: false }), old(buf).pos(), final(buf).pos()),
    {
        let start = buf.position();
        let r = Self::decode_ctx(buf, Ctx::new(version, is_flexible));
        if r.is_err() {
            buf.set_position(start);
        }
        r
    }
}

impl KafkaCodec for Cursor {
    open spec fn spec_encode(m: CursorModel, ctx: Ctx) -> Result<Seq<u8>, SerializationError> {
        Self::spec_encode_body(m, ctx)
    }

    open spec fn spec_decode(s: Seq<u8>, pos: int, ctx: Ctx) -> Result<(CursorModel, int), SerializationError> {
        Self::spec_decode_body(s, pos, ctx)
    }

    open spec fn reads_back(v: CursorModel, ctx: Ctx) -> bool {
        Self::reads_back_body(v, ctx)
    }

    proof fn lemma_read_back(pre: Seq<u8>, v: CursorModel, post: Seq<u8>, ctx: Ctx) {
        Self::lemma_body_read_back(pre, v, post, ctx);
        assert(Self::spec_decode(pre + Self::spec_encode(v, ctx)->Ok_0 + post, pre.len() as int, ctx)
            == Self::spec_decode_body(pre + Self::spec_encode_body(v, ctx)->Ok_0 + post, pre.len() as int, ctx));
    }

    fn encode_ctx(&self, buf: &mut Vec<u8>, ctx: Ctx) -> (r: Result<(), SerializationError>) {
        let ghost mut w: Seq<u8> = Seq::empty();
        encode_string(&self.topic_name, buf, ctx.flexible)?;
        proof {
            w = w + (string_bytes(self.topic_name.deep_view(), ctx.flexible))->Ok_0;
        }
        assert(buf@ =~= old(buf)@ + w);
        put_i32(buf, self.partition_index);
        proof {
            w = w + i32_bytes(self.partition_index);
        }
        assert(buf@ =~= old(buf)@ + w);
        if ctx.flexible {
            encode_unsigned_varint(0, buf);
            proof {
                w = w + uvarint_bytes(0);
            }
            assert(buf@ =~= old(buf)@ + w);
        }
        Ok(())
    }

    fn decode_ctx(buf: &mut Reader, ctx: Ctx) -> (r: Result<Self, SerializationError>) {
        let topic_name = buf.get_string(ctx.flexible)?;
        let partition_index = buf.get_i32()?;
        if ctx.flexible {
            let (_tag_count, _) = decode_unsigned_varint(buf)?;
        }
        Ok(Cursor { topic_name, partition_index })
    }
}

// -------------------------------------------------------
// TopicRequest
// -------------------------------------------------------
#[derive(Clone, Debug, Default, PartialEq)]
pub struct TopicRequest {
    /// The topic name.
    pub name: String,
}

/// The contents of `TopicRequest`, with strings as characters and
/// nested values by their contents.
pub struct TopicRequestModel {
    pub name: Seq<char>,
}

impl DeepView for TopicRequest {
    type V = TopicRequestModel;

    open spec fn deep_view(&self) -> TopicRequestModel {
        TopicRequestModel {
            name: self.name.deep_view(),
        }
    }
}

impl TopicRequest {
    /// The encoding of the structure in context `ctx`.
    pub open spec fn spec_encode_body(m: TopicRequestModel, ctx: Ctx) -> Result<Seq<u8>, SerializationError> {
        let r = Ok(Seq::<u8>::empty());
        let r = then(r, string_bytes(m.name, ctx.flexible));
        let r = if ctx.flexible { then(r, Ok(uvarint_bytes(0))) } else { r };
        r
    }

    /// The structure read from `s` at `pos` in context `ctx`.
    pub open spec fn spec_decode_body(s: Seq<u8>, pos: int, ctx: Ctx) -> Result<(TopicRequestModel, int), SerializationError> {
        match parse_string(s, pos, ctx.flexible) {
            Err(e) => Err(e),
            Ok((name, pos)) =>
            match (if ctx.flexible { parse_uvarint(s, pos) } else { Ok((0u64, pos)) }) {
                Err(e) => Err(e),
                Ok((_tag_count, pos)) =>
                Ok((TopicRequestModel { name }, pos))
            }
        }
    }

    /// Values of the structure that read back from their encoding in `ctx`: every
    /// field that the version leaves out holds its default, and nested values
    /// read back.
    pub open spec fn reads_back_body(m: TopicRequestModel, ctx: Ctx) -> bool {
        true
    }

    /// A value that can be written in `ctx` and reads back: decoding its encoding,
    /// wherever it stands, gives the value and the position just after it.
    #[verifier::spinoff_prover]
    pub proof fn lemma_body_read_back(pre: Seq<u8>, m: TopicRequestModel, post: Seq<u8>, ctx: Ctx)
        requires
            Self::spec_encode_body(m, ctx) is Ok,
            Self::reads_back_body(m, ctx),
        ensures
            Self::spec_decode_body(pre + Self::spec_encode_body(m, ctx)->Ok_0 + post, pre.len() as int, ctx) == Ok::<(TopicRequestModel, int), SerializationError>((m, pre.len() as int + Self::spec_encode_body(m, ctx)->Ok_0.len())),
    {
        let b0 = (string_bytes(m.name, ctx.flexible))->Ok_0;
        let b1 = if ctx.flexible { uvarint_bytes(0) } else { Seq::<u8>::empty() };
        let t2 = post;
        let t1 = b1 + t2;
        let t0 = b0 + t1;
        let e = Self::spec_encode_body(m, ctx)->Ok_0;
        assert(e =~= Seq::<u8>::empty() + b0 + b1);
        lemma_seq_assoc((Seq::<u8>::empty() + b0), b1, post);
        lemma_seq_assoc(Seq::<u8>::empty(), b0, (b1 + post));
        lemma_seq_empty_left((b0 + (b1 + post)));
        let s = pre + e + post;
        lemma_seq_assoc(pre, e, post);
        assert(s == pre + t0);
        let a0 = pre;
        assert(parse_string(s, a0.len() as int, ctx.flexible) == Ok::<(Seq<char>, int), SerializationError>((m.name, a0.len() as int + b0.len()))) by {
            assert(string_bytes(m.name, ctx.flexible) is Ok);
            lemma_seq_assoc(a0, b0, t1);
            lemma_string_roundtrip(a0, m.name, t1, ctx.flexible);
        }
        lemma_seq_assoc(a0, b0, t1);
        let a1 = a0 + b0;
        if ctx.flexible {
            assert(parse_uvarint(s, a1.len() as int) == Ok::<(u64, int), SerializationError>((0u64, a1.len() as int + b1.len()))) by {
                lemma_seq_assoc(a1, b1, t2);
                lemma_uvarint_roundtrip(a1, 0, t2);
            }
        }
    }

    /// The bytes written: the encoding of each field, in the order of the
    /// protocol's layout. Reading them back, wherever they stand, gives the value,
    /// with each field that the version leaves out at its default.
    #[verifier::spinoff_prover]
    pub proof fn lemma_body_layout(pre: Seq<u8>, m: TopicRequestModel, post: Seq<u8>, ctx: Ctx)
        requires
            Self::spec_encode_body(m, ctx) is Ok,
        ensures
            Self::spec_encode_body(m, ctx) == Ok::<Seq<u8>, SerializationError>(((string_bytes(m.name, ctx.flexible))->Ok_0) + (if ctx.flexible { uvarint_bytes(0) } else { Seq::<u8>::empty() })),
            Self::reads_back_body(m, ctx) ==> Self::spec_decode_body(pre + (((string_bytes(m.name, ctx.flexible))->Ok_0) + (if ctx.flexible { uvarint_bytes(0) } else { Seq::<u8>::empty() })) + post, pre.len() as int, ctx) == Ok::<(TopicRequestModel, int), SerializationError>((m, pre.len() as int + (((string_bytes(m.name, ctx.flexible))->Ok_0) + (if ctx.flexible { uvarint_bytes(0) } else { Seq::<u8>::empty() })).len())),
    {
        let b0 = (string_bytes(m.name, ctx.flexible))->Ok_0;
        let b1 = if ctx.flexible { uvarint_bytes(0) } else { Seq::<u8>::empty() };
        let e = Self::spec_encode_body(m, ctx)->Ok_0;
        assert(e =~= Seq::<u8>::empty() + b0 + b1);
        assert(e =~= b0 + b1);
        if Self::reads_back_body(m, ctx) {
            Self::lemma_body_read_back(pre, m, post, ctx);
        }
    }

    /// Writing succeeds exactly when every field that the version carries can be
    /// encoded and every field that it leaves out, where leaving it out is an
    /// error, holds its default.
    #[verifier::spinoff_prover]
    pub proof fn lemma_body_write_succeeds(m: TopicRequestModel, ctx: Ctx)
        ensures
            Self::spec_encode_body(m, ctx) is Ok <==> (string_bytes(m.name, ctx.flexible) is Ok),
    {
    }

    /// Writes the structure for `version`, with the compact encodings when `is_flexible`.
    /// On failure the buffer is left as it was.
    pub fn encode(&self, buf: &mut Vec<u8>, version: ApiVersion, is_flexible: bool) -> (r: Result<(), SerializationError>)
        ensures
            write_exact(r, old(buf)@, final(buf)@, Self::spec_encode_body(self.deep_view(), Ctx { version: version.0, flexible: is_flexible, classic: false })),
    {
        let start = buf.len();
        let r = self.encode_ctx(buf, Ctx::new(version, is_flexible));
        if r.is_err() {
            buf.truncate(start);
        }
        r
    }

    /// Reads the structure as written for `version`.
    /// On failure the reader is put back where it started.
    pub fn decode(buf: &mut Reader, version: ApiVersion, is_flexible: bool) -> (r: Result<Self, SerializationError>)
        ensures
            final(buf).bytes() == old(buf).bytes(),
            read_view_exact(r, Self::spec_decode_body(old(buf).bytes(), old(buf).pos(), Ctx { version: version.0, flexible: is_flexible, classic: false }), old(buf).pos(), final(buf).pos()),
    {
        let start = buf.position();
        let r = Self::decode_ctx(buf, Ctx::new(version, is_flexible));
        if r.is_err() {
            buf.set_position(start);
        }
        r
    }
}

impl KafkaCodec for TopicRequest {
    open spec fn spec_encode(m: TopicRequestModel, ctx: Ctx) -> Result<Seq<u8>, SerializationError> {
        Self::spec_encode_body(m, ctx)
    }

    open spec fn spec_decode(s: Seq<u8>, pos: int, ctx: Ctx) -> Result<(TopicRequestModel, int), SerializationError> {
        Self::spec_decode_body(s, pos, ctx)
    }

    open spec fn reads_back(v: TopicRequestModel, ctx: Ctx) -> bool {
        Self::reads_back_body(v, ctx)
    }

    proof fn lemma_read_back(pre: Seq<u8>, v: TopicRequestModel, post: Seq<u8>, ctx: Ctx) {
        Self::lemma_body_read_back(pre, v, post, ctx);
        assert(Self::spec_decode(pre + Self::spec_encode(v, ctx)->Ok_0 + post, pre.len() as int, ctx)
            == Self::spec_decode_body(pre + Self::spec_encode_body(v, ctx)->Ok_0 + post, pre.len() as int, ctx));
    }

    fn encode_ctx(&self, buf: &mut Vec<u8>, ctx: Ctx) -> (r: Result<(), SerializationError>) {
        let ghost mut w: Seq<u8> = Seq::empty();
        encode_string(&self.name, buf, ctx.flexible)?;
        proof {
            w = w + (string_bytes(self.name.deep_view(), ctx.flexible))->Ok_0;
        }
        assert(buf@ =~= old(buf)@ + w);
        if ctx.flexible {
            encode_unsigned_varint(0, buf);
            proof {
                w = w + uvarint_bytes(0);
            }
            assert(buf@ =~= old(buf)@ + w);
        }
        Ok(())
    }

    fn decode_ctx(buf: &mut Reader, ctx: Ctx) -> (r: Result<Self, SerializationError>) {
        let name = buf.get_string(ctx.flexible)?;
        if ctx.flexible {
            let (_tag_count, _) = decode_unsigned_varint(buf)?;
        }
        Ok(TopicRequest { name })
    }
}

} // verus!
