//! ConsumerProtocolSubscription.
use vstd::prelude::*;
use crate::roundtrip::{lemma_array_roundtrip, lemma_i32_roundtrip, lemma_items_read_back,
    lemma_nullable_bytes_roundtrip, lemma_nullable_string_roundtrip, lemma_seq_assoc,
    lemma_seq_empty_left, lemma_string_roundtrip, lemma_uvarint_roundtrip};
use crate::serialization::{Ctx, KafkaCodec, Reader, SerializationError, array_bytes, decode_array,
    decode_unsigned_varint, encode_array, encode_nullable_bytes, encode_nullable_string,
    encode_string, encode_unsigned_varint, i32_bytes, new_array, nullable_bytes_bytes,
    nullable_string_bytes, opt_bytes_view, parse_array, parse_i32, parse_nullable_bytes,
    parse_nullable_string, parse_string, parse_uvarint, put_i32, read_view_exact, string_bytes,
    then, uvarint_bytes, write_exact};
use crate::ApiVersion;

verus! {

// -------------------------------------------------------
// ConsumerProtocolSubscription
// -------------------------------------------------------
#[derive(Clone, Debug, Default, PartialEq)]
pub struct ConsumerProtocolSubscription {
    /// The topics that the member wants to consume.
    pub topics: Vec<String>,
    /// User data that will be passed back to the consumer.
    pub user_data: Option<Vec<u8>>,
    /// The partitions that the member owns.
    /// Available in version 1+.
    pub owned_partitions: Vec<TopicPartition>,
    /// The generation id of the member.
    /// Available in version 2+.
    pub generation_id: i32,
    /// The rack id of the member.
    /// Available in version 3+.
    pub rack_id: Option<String>,
}

/// The contents of `ConsumerProtocolSubscription`, with strings as characters and
/// nested values by their contents.
pub struct ConsumerProtocolSubscriptionModel {
    pub topics: Seq<<String as DeepView>::V>,
    pub user_data: Option<Seq<u8>>,
    pub owned_partitions: Seq<<TopicPartition as DeepView>::V>,
    pub generation_id: i32,
    pub rack_id: Option<Seq<char>>,
}

impl DeepView for ConsumerProtocolSubscription {
    type V = ConsumerProtocolSubscriptionModel;

    open spec fn deep_view(&self) -> ConsumerProtocolSubscriptionModel {
        ConsumerProtocolSubscriptionModel {
            topics: self.topics.deep_view(),
            user_data: opt_bytes_view(&self.user_data),
            owned_partitions: self.owned_partitions.deep_view(),
            generation_id: self.generation_id,
            rack_id: self.rack_id.deep_view(),
        }
    }
}

impl ConsumerProtocolSubscription {
    /// The encoding of the structure in context `ctx`.
    pub open spec fn spec_encode_body(m: ConsumerProtocolSubscriptionModel, ctx: Ctx) -> Result<Seq<u8>, SerializationError> {
        let r = Ok(Seq::<u8>::empty());
        let r = then(r, array_bytes::<String>(m.topics, Ctx { version: ctx.version, flexible: ctx.flexible, classic: false }));
        let r = then(r, nullable_bytes_bytes(m.user_data, ctx.flexible));
        let r = if 1 <= ctx.version { then(r, array_bytes::<TopicPartition>(m.owned_partitions, Ctx { version: ctx.version, flexible: ctx.flexible, classic: false })) } else { r };
        let r = if 2 <= ctx.version { then(r, Ok(i32_bytes(m.generation_id))) } else { r };
        let r = if 3 <= ctx.version { then(r, nullable_string_bytes(m.rack_id, ctx.flexible)) } else { r };
        let r = if ctx.flexible { then(r, Ok(uvarint_bytes(0))) } else { r };
        r
    }

    /// The structure read from `s` at `pos` in context `ctx`.
    pub open spec fn spec_decode_body(s: Seq<u8>, pos: int, ctx: Ctx) -> Result<(ConsumerProtocolSubscriptionModel, int), SerializationError> {
        match parse_array::<String>(s, pos, Ctx { version: ctx.version, flexible: ctx.flexible, classic: false }) {
            Err(e) => Err(e),
            Ok((topics, pos)) =>
            match parse_nullable_bytes(s, pos, ctx.flexible) {
                Err(e) => Err(e),
                Ok((user_data, pos)) =>
                match (if 1 <= ctx.version { parse_array::<TopicPartition>(s, pos, Ctx { version: ctx.version, flexible: ctx.flexible, classic: false }) } else { Ok((Seq::<<TopicPartition as DeepView>::V>::empty(), pos)) }) {
                    Err(e) => Err(e),
                    Ok((owned_partitions, pos)) =>
                    match (if 2 <= ctx.version { parse_i32(s, pos) } else { Ok((0i32, pos)) }) {
                        Err(e) => Err(e),
                        Ok((generation_id, pos)) =>
                        match (if 3 <= ctx.version { parse_nullable_string(s, pos, ctx.flexible) } else { Ok((None, pos)) }) {
                            Err(e) => Err(e),
                            Ok((rack_id, pos)) =>
                            match (if ctx.flexible { parse_uvarint(s, pos) } else { Ok((0u64, pos)) }) {
                                Err(e) => Err(e),
                                Ok((_tag_count, pos)) =>
                                Ok((ConsumerProtocolSubscriptionModel { topics, user_data, owned_partitions, generation_id, rack_id }, pos))
                            }
                        }
                    }
                }
            }
        }
    }

    /// The structure as it reads back in context `ctx`: each field that the
    /// version leaves out is at its default.
    #[verifier::opaque]
    pub open spec fn spec_read_as(m: ConsumerProtocolSubscriptionModel, ctx: Ctx) -> ConsumerProtocolSubscriptionModel {
        ConsumerProtocolSubscriptionModel { topics: m.topics, user_data: m.user_data, owned_partitions: if 1 <= ctx.version { m.owned_partitions } else { Seq::<<TopicPartition as DeepView>::V>::empty() }, generation_id: if 2 <= ctx.version { m.generation_id } else { 0i32 }, rack_id: if 3 <= ctx.version { m.rack_id } else { None } }
    }

    /// Values that read back in context `ctx`: nested values read back. A field
    /// that the version leaves out is read as its default.
    pub open spec fn reads_back_body(m: ConsumerProtocolSubscriptionModel, ctx: Ctx) -> bool {
        &&& forall|i: int| 0 <= i < m.topics.len() ==> #[trigger] <String as KafkaCodec>::reads_back(m.topics[i], Ctx { version: ctx.version, flexible: ctx.flexible, classic: false })
        &&& (1 <= ctx.version) ==> forall|i: int| 0 <= i < m.owned_partitions.len() ==> #[trigger] <TopicPartition as KafkaCodec>::reads_back(m.owned_partitions[i], Ctx { version: ctx.version, flexible: ctx.flexible, classic: false })
    }

    /// A value that can be written in context `ctx` and reads back: decoding its
    /// encoding, wherever it stands, gives the value as `spec_read_as` gives it and
    /// the position just after it.
    #[verifier::spinoff_prover]
    pub proof fn lemma_body_read_back(pre: Seq<u8>, m: ConsumerProtocolSubscriptionModel, post: Seq<u8>, ctx: Ctx)
        requires
            Self::spec_encode_body(m, ctx) is Ok,
            Self::reads_back_body(m, ctx),
        ensures
            Self::spec_decode_body(pre + Self::spec_encode_body(m, ctx)->Ok_0 + post, pre.len() as int, ctx) == Ok::<(ConsumerProtocolSubscriptionModel, int), SerializationError>((Self::spec_read_as(m, ctx), pre.len() as int + Self::spec_encode_body(m, ctx)->Ok_0.len())),
    {
        reveal(ConsumerProtocolSubscription::spec_read_as);
        let b0 = (array_bytes::<String>(m.topics, Ctx { version: ctx.version, flexible: ctx.flexible, classic: false }))->Ok_0;
        let b1 = (nullable_bytes_bytes(m.user_data, ctx.flexible))->Ok_0;
        let b2 = if 1 <= ctx.version { (array_bytes::<TopicPartition>(m.owned_partitions, Ctx { version: ctx.version, flexible: ctx.flexible, classic: false }))->Ok_0 } else { Seq::<u8>::empty() };
        let b3 = if 2 <= ctx.version { i32_bytes(m.generation_id) } else { Seq::<u8>::empty() };
        let b4 = if 3 <= ctx.version { (nullable_string_bytes(m.rack_id, ctx.flexible))->Ok_0 } else { Seq::<u8>::empty() };
        let b5 = if ctx.flexible { uvarint_bytes(0) } else { Seq::<u8>::empty() };
        let t6 = post;
        let t5 = b5 + t6;
        let t4 = b4 + t5;
        let t3 = b3 + t4;
        let t2 = b2 + t3;
        let t1 = b1 + t2;
        let t0 = b0 + t1;
        let e = Self::spec_encode_body(m, ctx)->Ok_0;
        assert(e =~= Seq::<u8>::empty() + b0 + b1 + b2 + b3 + b4 + b5);
        lemma_seq_assoc((((((Seq::<u8>::empty() + b0) + b1) + b2) + b3) + b4), b5, post);
        lemma_seq_assoc(((((Seq::<u8>::empty() + b0) + b1) + b2) + b3), b4, (b5 + post));
        lemma_seq_assoc((((Seq::<u8>::empty() + b0) + b1) + b2), b3, (b4 + (b5 + post)));
        lemma_seq_assoc(((Seq::<u8>::empty() + b0) + b1), b2, (b3 + (b4 + (b5 + post))));
        lemma_seq_assoc((Seq::<u8>::empty() + b0), b1, (b2 + (b3 + (b4 + (b5 + post)))));
        lemma_seq_assoc(Seq::<u8>::empty(), b0, (b1 + (b2 + (b3 + (b4 + (b5 + post))))));
        lemma_seq_empty_left((b0 + (b1 + (b2 + (b3 + (b4 + (b5 + post)))))));
        let s = pre + e + post;
        lemma_seq_assoc(pre, e, post);
        assert(s == pre + t0);
        let a0 = pre;
        assert(parse_array::<String>(s, a0.len() as int, Ctx { version: ctx.version, flexible: ctx.flexible, classic: false }) == Ok::<(Seq<<String as DeepView>::V>, int), SerializationError>((m.topics, a0.len() as int + b0.len()))) by {
            assert(array_bytes::<String>(m.topics, Ctx { version: ctx.version, flexible: ctx.flexible, classic: false }) is Ok);
            lemma_seq_assoc(a0, b0, t1);
            lemma_items_read_back::<String>(m.topics, Ctx { version: ctx.version, flexible: ctx.flexible, classic: false });
            lemma_array_roundtrip::<String>(a0, m.topics, t1, Ctx { version: ctx.version, flexible: ctx.flexible, classic: false });
        }
        lemma_seq_assoc(a0, b0, t1);
        let a1 = a0 + b0;
        assert(parse_nullable_bytes(s, a1.len() as int, ctx.flexible) == Ok::<(Option<Seq<u8>>, int), SerializationError>((m.user_data, a1.len() as int + b1.len()))) by {
            assert(nullable_bytes_bytes(m.user_data, ctx.flexible) is Ok);
            lemma_seq_assoc(a1, b1, t2);
            lemma_nullable_bytes_roundtrip(a1, m.user_data, t2, ctx.flexible);
        }
        lemma_seq_assoc(a1, b1, t2);
        let a2 = a1 + b1;
        if 1 <= ctx.version {
            assert(parse_array::<TopicPartition>(s, a2.len() as int, Ctx { version: ctx.version, flexible: ctx.flexible, classic: false }) == Ok::<(Seq<<TopicPartition as DeepView>::V>, int), SerializationError>((m.owned_partitions, a2.len() as int + b2.len()))) by {
                assert(array_bytes::<TopicPartition>(m.owned_partitions, Ctx { version: ctx.version, flexible: ctx.flexible, classic: false }) is Ok);
                lemma_seq_assoc(a2, b2, t3);
                lemma_items_read_back::<TopicPartition>(m.owned_partitions, Ctx { version: ctx.version, flexible: ctx.flexible, classic: false });
                lemma_array_roundtrip::<TopicPartition>(a2, m.owned_partitions, t3, Ctx { version: ctx.version, flexible: ctx.flexible, classic: false });
            }
        }
        lemma_seq_assoc(a2, b2, t3);
        let a3 = a2 + b2;
        if 2 <= ctx.version {
            assert(parse_i32(s, a3.len() as int) == Ok::<(i32, int), SerializationError>((m.generation_id, a3.len() as int + b3.len()))) by {
                lemma_seq_assoc(a3, b3, t4);
                lemma_i32_roundtrip(a3, m.generation_id, t4);
            }
        }
        lemma_seq_assoc(a3, b3, t4);
        let a4 = a3 + b3;
        if 3 <= ctx.version {
            assert(parse_nullable_string(s, a4.len() as int, ctx.flexible) == Ok::<(Option<Seq<char>>, int), SerializationError>((m.rack_id, a4.len() as int + b4.len()))) by {
                assert(nullable_string_bytes(m.rack_id, ctx.flexible) is Ok);
                lemma_seq_assoc(a4, b4, t5);
                lemma_nullable_string_roundtrip(a4, m.rack_id, t5, ctx.flexible);
            }
        }
        lemma_seq_assoc(a4, b4, t5);
        let a5 = a4 + b4;
        if ctx.flexible {
            assert(parse_uvarint(s, a5.len() as int) == Ok::<(u64, int), SerializationError>((0u64, a5.len() as int + b5.len()))) by {
                lemma_seq_assoc(a5, b5, t6);
                lemma_uvarint_roundtrip(a5, 0, t6);
            }
        }
    }

    /// The bytes written: the encoding of each field, in the order of the
    /// protocol's layout. Reading them back, wherever they stand, gives the value,
    /// with each field that the version leaves out at its default.
    #[verifier::spinoff_prover]
    pub proof fn lemma_body_layout(pre: Seq<u8>, m: ConsumerProtocolSubscriptionModel, post: Seq<u8>, ctx: Ctx)
        requires
            Self::spec_encode_body(m, ctx) is Ok,
        ensures
            Self::spec_encode_body(m, ctx) == Ok::<Seq<u8>, SerializationError>(((array_bytes::<String>(m.topics, Ctx { version: ctx.version, flexible: ctx.flexible, classic: false }))->Ok_0) + ((nullable_bytes_bytes(m.user_data, ctx.flexible))->Ok_0) + (if 1 <= ctx.version { (array_bytes::<TopicPartition>(m.owned_partitions, Ctx { version: ctx.version, flexible: ctx.flexible, classic: false }))->Ok_0 } else { Seq::<u8>::empty() }) + (if 2 <= ctx.version { i32_bytes(m.generation_id) } else { Seq::<u8>::empty() }) + (if 3 <= ctx.version { (nullable_string_bytes(m.rack_id, ctx.flexible))->Ok_0 } else { Seq::<u8>::empty() }) + (if ctx.flexible { uvarint_bytes(0) } else { Seq::<u8>::empty() })),
            Self::reads_back_body(m, ctx) ==> Self::spec_decode_body(pre + (((array_bytes::<String>(m.topics, Ctx { version: ctx.version, flexible: ctx.flexible, classic: false }))->Ok_0) + ((nullable_bytes_bytes(m.user_data, ctx.flexible))->Ok_0) + (if 1 <= ctx.version { (array_bytes::<TopicPartition>(m.owned_partitions, Ctx { version: ctx.version, flexible: ctx.flexible, classic: false }))->Ok_0 } else { Seq::<u8>::empty() }) + (if 2 <= ctx.version { i32_bytes(m.generation_id) } else { Seq::<u8>::empty() }) + (if 3 <= ctx.version { (nullable_string_bytes(m.rack_id, ctx.flexible))->Ok_0 } else { Seq::<u8>::empty() }) + (if ctx.flexible { uvarint_bytes(0) } else { Seq::<u8>::empty() })) + post, pre.len() as int, ctx) == Ok::<(ConsumerProtocolSubscriptionModel, int), SerializationError>((ConsumerProtocolSubscriptionModel { topics: m.topics, user_data: m.user_data, owned_partitions: if 1 <= ctx.version { m.owned_partitions } else { Seq::<<TopicPartition as DeepView>::V>::empty() }, generation_id: if 2 <= ctx.version { m.generation_id } else { 0i32 }, rack_id: if 3 <= ctx.version { m.rack_id } else { None } }, pre.len() as int + (((array_bytes::<String>(m.topics, Ctx { version: ctx.version, flexible: ctx.flexible, classic: false }))->Ok_0) + ((nullable_bytes_bytes(m.user_data, ctx.flexible))->Ok_0) + (if 1 <= ctx.version { (array_bytes::<TopicPartition>(m.owned_partitions, Ctx { version: ctx.version, flexible: ctx.flexible, classic: false }))->Ok_0 } else { Seq::<u8>::empty() }) + (if 2 <= ctx.version { i32_bytes(m.generation_id) } else { Seq::<u8>::empty() }) + (if 3 <= ctx.version { (nullable_string_bytes(m.rack_id, ctx.flexible))->Ok_0 } else { Seq::<u8>::empty() }) + (if ctx.flexible { uvarint_bytes(0) } else { Seq::<u8>::empty() })).len())),
    {
        let b0 = (array_bytes::<String>(m.topics, Ctx { version: ctx.version, flexible: ctx.flexible, classic: false }))->Ok_0;
        let b1 = (nullable_bytes_bytes(m.user_data, ctx.flexible))->Ok_0;
        let b2 = if 1 <= ctx.version { (array_bytes::<TopicPartition>(m.owned_partitions, Ctx { version: ctx.version, flexible: ctx.flexible, classic: false }))->Ok_0 } else { Seq::<u8>::empty() };
        let b3 = if 2 <= ctx.version { i32_bytes(m.generation_id) } else { Seq::<u8>::empty() };
        let b4 = if 3 <= ctx.version { (nullable_string_bytes(m.rack_id, ctx.flexible))->Ok_0 } else { Seq::<u8>::empty() };
        let b5 = if ctx.flexible { uvarint_bytes(0) } else { Seq::<u8>::empty() };
        let e = Self::spec_encode_body(m, ctx)->Ok_0;
        assert(e =~= Seq::<u8>::empty() + b0 + b1 + b2 + b3 + b4 + b5);
        assert(e =~= b0 + b1 + b2 + b3 + b4 + b5);
        if Self::reads_back_body(m, ctx) {
            Self::lemma_body_read_back(pre, m, post, ctx);
            reveal(ConsumerProtocolSubscription::spec_read_as);
        }
    }

    /// Writing succeeds exactly when every field that the version carries can be
    /// encoded and every field that it leaves out, where leaving it out is an
    /// error, holds its default.
    #[verifier::spinoff_prover]
    pub proof fn lemma_body_write_succeeds(m: ConsumerProtocolSubscriptionModel, ctx: Ctx)
        ensures
            Self::spec_encode_body(m, ctx) is Ok <==> (array_bytes::<String>(m.topics, Ctx { version: ctx.version, flexible: ctx.flexible, classic: false }) is Ok) && (nullable_bytes_bytes(m.user_data, ctx.flexible) is Ok) && ((1 <= ctx.version) ==> array_bytes::<TopicPartition>(m.owned_partitions, Ctx { version: ctx.version, flexible: ctx.flexible, classic: false }) is Ok) && ((3 <= ctx.version) ==> nullable_string_bytes(m.rack_id, ctx.flexible) is Ok),
    {
    }

    /// Writes the structure for `version`, with the compact encodings when `is_flexible`.
    /// On failure the buffer is left as it was.
    pub fn encode(&self, buf: &mut Vec<u8>, version: ApiVersion, is_flexible: bool) -> (r: Result<(), SerializationError>)
        ensures
            write_exact(r, old(buf)@, final(buf)@, Self::spec_encode_body(self.deep_view(), Ctx { version: version.0, flexible: is_flexible, classic: false })),
    {
        let start = buf.len();
        let r = self.encode_ctx(buf, Ctx::new(version, is_flexible));
        if r.is_err() {
            buf.truncate(start);
        }
        r
    }

    /// Reads the structure as written for `version`.
    /// On failure the reader is put back where it started.
    pub fn decode(buf: &mut Reader, version: ApiVersion, is_flexible: bool) -> (r: Result<Self, SerializationError>)
        ensures
            final(buf).bytes() == old(buf).bytes(),
            read_view_exact(r, Self::spec_decode_body(old(buf).bytes(), old(buf).pos(), Ctx { version: version.0, flexible: is_flexible, classic: false }), old(buf).pos(), final(buf).pos()),
    {
        let start = buf.position();
        let r = Self::decode_ctx(buf, Ctx::new(version, is_flexible));
        if r.is_err() {
            buf.set_position(start);
        }
        r
    }
}

impl KafkaCodec for ConsumerProtocolSubscription {
    open spec fn spec_encode(m: ConsumerProtocolSubscriptionModel, ctx: Ctx) -> Result<Seq<u8>, SerializationError> {
        Self::spec_encode_body(m, ctx)
    }

    open spec fn spec_decode(s: Seq<u8>, pos: int, ctx: Ctx) -> Result<(ConsumerProtocolSubscriptionModel, int), SerializationError> {
        Self::spec_decode_body(s, pos, ctx)
    }

    open spec fn reads_back(v: ConsumerProtocolSubscriptionModel, ctx: Ctx) -> bool {
        Self::reads_back_body(v, ctx) && Self::spec_read_as(v, ctx) == v
    }

    proof fn lemma_read_back(pre: Seq<u8>, v: ConsumerProtocolSubscriptionModel, post: Seq<u8>, ctx: Ctx) {
        Self::lemma_body_read_back(pre, v, post, ctx);
        assert(Self::spec_decode(pre + Self::spec_encode(v, ctx)->Ok_0 + post, pre.len() as int, ctx)
            == Self::spec_decode_body(pre + Self::spec_encode_body(v, ctx)->Ok_0 + post, pre.len() as int, ctx));
    }

    fn encode_ctx(&self, buf: &mut Vec<u8>, ctx: Ctx) -> (r: Result<(), SerializationError>) {
        let ghost mut w: Seq<u8> = Seq::empty();
        encode_array(&self.topics, buf, Ctx { version: ctx.version, flexible: ctx.flexible, classic: false })?;
        proof {
            w = w + (array_bytes::<String>(self.topics.deep_view(), Ctx { version: ctx.version, flexible: ctx.flexible, classic: false }))->Ok_0;
        }
        assert(buf@ =~= old(buf)@ + w);
        encode_nullable_bytes(&self.user_data, buf, ctx.flexible)?;
        proof {
            w = w + (nullable_bytes_bytes(opt_bytes_view(&self.user_data), ctx.flexible))->Ok_0;
        }
        assert(buf@ =~= old(buf)@ + w);
        if 1 <= ctx.version {
            encode_array(&self.owned_partitions, buf, Ctx { version: ctx.version, flexible: ctx.flexible, classic: false })?;
            proof {
                w = w + (array_bytes::<TopicPartition>(self.owned_partitions.deep_view(), Ctx { version: ctx.version, flexible: ctx.flexible, classic: false }))->Ok_0;
            }
            assert(buf@ =~= old(buf)@ + w);
        }
        if 2 <= ctx.version {
            put_i32(buf, self.generation_id);
            proof {
                w = w + i32_bytes(self.generation_id);
            }
            assert(buf@ =~= old(buf)@ + w);
        }
        if 3 <= ctx.version {
            encode_nullable_string(&self.rack_id, buf, ctx.flexible)?;
            proof {
                w = w + (nullable_string_bytes(self.rack_id.deep_view(), ctx.flexible))->Ok_0;
            }
            assert(buf@ =~= old(buf)@ + w);
        }
        if ctx.flexible {
            encode_unsigned_varint(0, buf);
            proof {
                w = w + uvarint_bytes(0);
            }
            assert(buf@ =~= old(buf)@ + w);
        }
        Ok(())
    }

    fn decode_ctx(buf: &mut Reader, ctx: Ctx) -> (r: Result<Self, SerializationError>) {
        let topics = decode_array::<String>(buf, Ctx { version: ctx.version, flexible: ctx.flexible, classic: false })?;
        let user_data = buf.get_nullable_bytes(ctx.flexible)?;
        let owned_partitions = if 1 <= ctx.version {
            decode_array::<TopicPartition>(buf, Ctx { version: ctx.version, flexible: ctx.flexible, classic: false })?
        } else {
            new_array::<TopicPartition>()
        };
        let generation_id = if 2 <= ctx.version {
            buf.get_i32()?
        } else {
            0i32
        };
        let rack_id = if 3 <= ctx.version {
            buf.get_nullable_string(ctx.flexible)?
        } else {
            None
        };
        if ctx.flexible {
            let (_tag_count, _) = decode_unsigned_varint(buf)?;
        }
        Ok(ConsumerProtocolSubscription { topics, user_data, owned_partitions, generation_id, rack_id })
    }
}

// -------------------------------------------------------
// TopicPartition
// -------------------------------------------------------
#[derive(Clone, Debug, Default, PartialEq)]
pub struct TopicPartition {
    /// The topic name.
    /// Available in version 1+.
    pub topic: String,
    /// The partition ids.
    /// Available in version 1+.
    pub partitions: Vec<i32>,
}

/// The contents of `TopicPartition`, with strings as characters and
/// nested values by their contents.
pub struct TopicPartitionModel {
    pub topic: Seq<char>,
    pub partitions: Seq<<i32 as DeepView>::V>,
}

impl DeepView for TopicPartition {
    type V = TopicPartitionModel;

    open spec fn deep_view(&self) -> TopicPartitionModel {
        TopicPartitionModel {
            topic: self.topic.deep_view(),
            partitions: self.partitions.deep_view(),
        }
    }
}

impl TopicPartition {
    /// The encoding of the structure in context `ctx`.
    pub open spec fn spec_encode_body(m: TopicPartitionModel, ctx: Ctx) -> Result<Seq<u8>, SerializationError> {
        let r = Ok(Seq::<u8>::empty());
        let r = if 1 <= ctx.version { then(r, string_bytes(m.topic, ctx.flexible)) } else { r };
        let r = if 1 <= ctx.version { then(r, array_bytes::<i32>(m.partitions, Ctx { version: ctx.version, flexible: ctx.flexible, classic: false })) } else { r };
        let r = if ctx.flexible { then(r, Ok(uvarint_bytes(0))) } else { r };
        r
    }

    /// The structure read from `s` at `pos` in context `ctx`.
    pub open spec fn spec_decode_body(s: Seq<u8>, pos: int, ctx: Ctx) -> Result<(TopicPartitionModel, int), SerializationError> {
        match (if 1 <= ctx.version { parse_string(s, pos, ctx.flexible) } else { Ok((Seq::<char>::empty(), pos)) }) {
            Err(e) => Err(e),
            Ok((topic, pos)) =>
            match (if 1 <= ctx.version { parse_array::<i32>(s, pos, Ctx { version: ctx.version, flexible: ctx.flexible, classic: false }) } else { Ok((Seq::<<i32 as DeepView>::V>::empty(), pos)) }) {
                Err(e) => Err(e),
                Ok((partitions, pos)) =>
                match (if ctx.flexible { parse_uvarint(s, pos) } else { Ok((0u64, pos)) }) {
                    Err(e) => Err(e),
                    Ok((_tag_count, pos)) =>
                    Ok((TopicPartitionModel { topic, partitions }, pos))
                }
            }
        }
    }

    /// The structure as it reads back in context `ctx`: each field that the
    /// version leaves out is at its default.
    #[verifier::opaque]
    pub open spec fn spec_read_as(m: TopicPartitionModel, ctx: Ctx) -> TopicPartitionModel {
        TopicPartitionModel { topic: if 1 <= ctx.version { m.topic } else { Seq::<char>::empty() }, partitions: if 1 <= ctx.version { m.partitions } else { Seq::<<i32 as DeepView>::V>::empty() } }
    }

    /// Values that read back in context `ctx`: nested values read back. A field
    /// that the version leaves out is read as its default.
    pub open spec fn reads_back_body(m: TopicPartitionModel, ctx: Ctx) -> bool {
        &&& (1 <= ctx.version) ==> forall|i: int| 0 <= i < m.partitions.len() ==> #[trigger] <i32 as KafkaCodec>::reads_back(m.partitions[i], Ctx { version: ctx.version, flexible: ctx.flexible, classic: false })
    }

    /// A value that can be written in context `ctx` and reads back: decoding its
    /// encoding, wherever it stands, gives the value as `spec_read_as` gives it and
    /// the position just after it.
    #[verifier::spinoff_prover]
    pub proof fn lemma_body_read_back(pre: Seq<u8>, m: TopicPartitionModel, post: Seq<u8>, ctx: Ctx)
        requires
            Self::spec_encode_body(m, ctx) is Ok,
            Self::reads_back_body(m, ctx),
        ensures
            Self::spec_decode_body(pre + Self::spec_encode_body(m, ctx)->Ok_0 + post, pre.len() as int, ctx) == Ok::<(TopicPartitionModel, int), SerializationError>((Self::spec_read_as(m, ctx), pre.len() as int + Self::spec_encode_body(m, ctx)->Ok_0.len())),
    {
        reveal(TopicPartition::spec_read_as);
        let b0 = if 1 <= ctx.version { (string_bytes(m.topic, ctx.flexible))->Ok_0 } else { Seq::<u8>::empty() };
        let b1 = if 1 <= ctx.version { (array_bytes::<i32>(m.partitions, Ctx { version: ctx.version, flexible: ctx.flexible, classic: false }))->Ok_0 } else { Seq::<u8>::empty() };
        let b2 = if ctx.flexible { uvarint_bytes(0) } else { Seq::<u8>::empty() };
        let t3 = post;
        let t2 = b2 + t3;
        let t1 = b1 + t2;
        let t0 = b0 + t1;
        let e = Self::spec_encode_body(m, ctx)->Ok_0;
        assert(e =~= Seq::<u8>::empty() + b0 + b1 + b2);
        lemma_seq_assoc(((Seq::<u8>::empty() + b0) + b1), b2, post);
        lemma_seq_assoc((Seq::<u8>::empty() + b0), b1, (b2 + post));
        lemma_seq_assoc(Seq::<u8>::empty(), b0, (b1 + (b2 + post)));
        lemma_seq_empty_left((b0 + (b1 + (b2 + post))));
        let s = pre + e + post;
        lemma_seq_assoc(pre, e, post);
        assert(s == pre + t0);
        let a0 = pre;
        if 1 <= ctx.version {
            assert(parse_string(s, a0.len() as int, ctx.flexible) == Ok::<(Seq<char>, int), SerializationError>((m.topic, a0.len() as int + b0.len()))) by {
                assert(string_bytes(m.topic, ctx.flexible) is Ok);
                lemma_seq_assoc(a0, b0, t1);
                lemma_string_roundtrip(a0, m.topic, t1, ctx.flexible);
            }
        }
        lemma_seq_assoc(a0, b0, t1);
        let a1 = a0 + b0;
        if 1 <= ctx.version {
            assert(parse_array::<i32>(s, a1.len() as int, Ctx { version: ctx.version, flexible: ctx.flexible, classic: false }) == Ok::<(Seq<<i32 as DeepView>::V>, int), SerializationError>((m.partitions, a1.len() as int + b1.len()))) by {
                assert(array_bytes::<i32>(m.partitions, Ctx { version: ctx.version, flexible: ctx.flexible, classic: false }) is Ok);
                lemma_seq_assoc(a1, b1, t2);
                lemma_items_read_back::<i32>(m.partitions, Ctx { version: ctx.version, flexible: ctx.flexible, classic: false });
                lemma_array_roundtrip::<i32>(a1, m.partitions, t2, Ctx { version: ctx.version, flexible: ctx.flexible, classic: false });
            }
        }
        lemma_seq_assoc(a1, b1, t2);
        let a2 = a1 + b1;
        if ctx.flexible {
            assert(parse_uvarint(s, a2.len() as int) == Ok::<(u64, int), SerializationError>((0u64, a2.len() as int + b2.len()))) by {
                lemma_seq_assoc(a2, b2, t3);
                lemma_uvarint_roundtrip(a2, 0, t3);
            }
        }
    }

    /// The bytes written: the encoding of each field, in the order of the
    /// protocol's layout. Reading them back, wherever they stand, gives the value,
    /// with each field that the version leaves out at its default.
    #[verifier::spinoff_prover]
    pub proof fn lemma_body_layout(pre: Seq<u8>, m: TopicPartitionModel, post: Seq<u8>, ctx: Ctx)
        requires
            Self::spec_encode_body(m, ctx) is Ok,
        ensures
            Self::spec_encode_body(m, ctx) == Ok::<Seq<u8>, SerializationError>((if 1 <= ctx.version { (string_bytes(m.topic, ctx.flexible))->Ok_0 } else { Seq::<u8>::empty() }) + (if 1 <= ctx.version { (array_bytes::<i32>(m.partitions, Ctx { version: ctx.version, flexible: ctx.flexible, classic: false }))->Ok_0 } else { Seq::<u8>::empty() }) + (if ctx.flexible { uvarint_bytes(0) } else { Seq::<u8>::empty() })),
            Self::reads_back_body(m, ctx) ==> Self::spec_decode_body(pre + ((if 1 <= ctx.version { (string_bytes(m.topic, ctx.flexible))->Ok_0 } else { Seq::<u8>::empty() }) + (if 1 <= ctx.version { (array_bytes::<i32>(m.partitions, Ctx { version: ctx.version, flexible: ctx.flexible, classic: false }))->Ok_0 } else { Seq::<u8>::empty() }) + (if ctx.flexible { uvarint_bytes(0) } else { Seq::<u8>::empty() })) + post, pre.len() as int, ctx) == Ok::<(TopicPartitionModel, int), SerializationError>((TopicPartitionModel { topic: if 1 <= ctx.version { m.topic } else { Seq::<char>::empty() }, partitions: if 1 <= ctx.version { m.partitions } else { Seq::<<i32 as DeepView>::V>::empty() } }, pre.len() as int + ((if 1 <= ctx.version { (string_bytes(m.topic, ctx.flexible))->Ok_0 } else { Seq::<u8>::empty() }) + (if 1 <= ctx.version { (array_bytes::<i32>(m.partitions, Ctx { version: ctx.version, flexible: ctx.flexible, classic: false }))->Ok_0 } else { Seq::<u8>::empty() }) + (if ctx.flexible { uvarint_bytes(0) } else { Seq::<u8>::empty() })).len())),
    {
        let b0 = if 1 <= ctx.version { (string_bytes(m.topic, ctx.flexible))->Ok_0 } else { Seq::<u8>::empty() };
        let b1 = if 1 <= ctx.version { (array_bytes::<i32>(m.partitions, Ctx { version: ctx.version, flexible: ctx.flexible, classic: false }))->Ok_0 } else { Seq::<u8>::empty() };
        let b2 = if ctx.flexible { uvarint_bytes(0) } else { Seq::<u8>::empty() };
        let e = Self::spec_encode_body(m, ctx)->Ok_0;
        assert(e =~= Seq::<u8>::empty() + b0 + b1 + b2);
        assert(e =~= b0 + b1 + b2);
        if Self::reads_back_body(m, ctx) {
            Self::lemma_body_read_back(pre, m, post, ctx);
            reveal(TopicPartition::spec_read_as);
        }
    }

    /// Writing succeeds exactly when every field that the version carries can be
    /// encoded and every field that it leaves out, where leaving it out is an
    /// error, holds its default.
    #[verifier::spinoff_prover]
    pub proof fn lemma_body_write_succeeds(m: TopicPartitionModel, ctx: Ctx)
        ensures
            Self::spec_encode_body(m, ctx) is Ok <==> ((1 <= ctx.version) ==> string_bytes(m.topic, ctx.flexible) is Ok) && ((1 <= ctx.version) ==> array_bytes::<i32>(m.partitions, Ctx { version: ctx.version, flexible: ctx.flexible, classic: false }) is Ok),
    {
    }

    /// Writes the structure for `version`, with the compact encodings when `is_flexible`.
    /// On failure the buffer is left as it was.
    pub fn encode(&self, buf: &mut Vec<u8>, version: ApiVersion, is_flexible: bool) -> (r: Result<(), SerializationError>)
        ensures
            write_exact(r, old(buf)@, final(buf)@, Self::spec_encode_body(self.deep_view(), Ctx { version: version.0, flexible: is_flexible, classic: false })),
    {
        let start = buf.len();
        let r = self.encode_ctx(buf, Ctx::new(version, is_flexible));
        if r.is_err() {
            buf.truncate(start);
        }
        r
    }

    /// Reads the structure as written for `version`.
    /// On failure the reader is put back where it started.
    pub fn decode(buf: &mut Reader, version: ApiVersion, is_flexible: bool) -> (r: Result<Self, SerializationError>)
        ensures
            final(buf).bytes() == old(buf).bytes(),
            read_view_exact(r, Self::spec_decode_body(old(buf).bytes(), old(buf).pos(), Ctx { version: version.0, flexible: is_flexible, classic: false }), old(buf).pos(), final(buf).pos()),
    {
        let start = buf.position();
        let r = Self::decode_ctx(buf, Ctx::new(version, is_flexible));
        if r.is_err() {
            buf.set_position(start);
        }
        r
    }
}

impl KafkaCodec for TopicPartition {
    open spec fn spec_encode(m: TopicPartitionModel, ctx: Ctx) -> Result<Seq<u8>, SerializationError> {
        Self::spec_encode_body(m, ctx)
    }

    open spec fn spec_decode(s: Seq<u8>, pos: int, ctx: Ctx) -> Result<(TopicPartitionModel, int), SerializationError> {
        Self::spec_decode_body(s, pos, ctx)
    }

    open spec fn reads_back(v: TopicPartitionModel, ctx: Ctx) -> bool {
        Self::reads_back_body(v, ctx) && Self::spec_read_as(v, ctx) == v
    }

    proof fn lemma_read_back(pre: Seq<u8>, v: TopicPartitionModel, post: Seq<u8>, ctx: Ctx) {
        Self::lemma_body_read_back(pre, v, post, ctx);
        assert(Self::spec_decode(pre + Self::spec_encode(v, ctx)->Ok_0 + post, pre.len() as int, ctx)
            == Self::spec_decode_body(pre + Self::spec_encode_body(v, ctx)->Ok_0 + post, pre.len() as int, ctx));
    }

    fn encode_ctx(&self, buf: &mut Vec<u8>, ctx: Ctx) -> (r: Result<(), SerializationError>) {
        let ghost mut w: Seq<u8> = Seq::empty();
        if 1 <= ctx.version {
            encode_string(&self.topic, buf, ctx.flexible)?;
            proof {
                w = w + (string_bytes(self.topic.deep_view(), ctx.flexible))->Ok_0;
            }
            assert(buf@ =~= old(buf)@ + w);
        }
        if 1 <= ctx.version {
            encode_array(&self.partitions, buf, Ctx { version: ctx.version, flexible: ctx.flexible, classic: false })?;
            proof {
                w = w + (array_bytes::<i32>(self.partitions.deep_view(), Ctx { version: ctx.version, flexible: ctx.flexible, classic: false }))->Ok_0;
            }
            assert(buf@ =~= old(buf)@ + w);
        }
        if ctx.flexible {
            encode_unsigned_varint(0, buf);
            proof {
                w = w + uvarint_bytes(0);
            }
            assert(buf@ =~= old(buf)@ + w);
        }
        Ok(())
    }

    fn decode_ctx(buf: &mut Reader, ctx: Ctx) -> (r: Result<Self, SerializationError>) {
        let topic = if 1 <= ctx.version {
            buf.get_string(ctx.flexible)?
        } else {
            String::new()
        };
        let partitions = if 1 <= ctx.version {
            decode_array::<i32>(buf, Ctx { version: ctx.version, flexible: ctx.flexible, classic: false })?
        } else {
            new_array::<i32>()
        };
        if ctx.flexible {
            let (_tag_count, _) = decode_unsigned_varint(buf)?;
        }
        Ok(TopicPartition { topic, partitions })
    }
}

} // verus!
