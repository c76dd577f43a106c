//! AddPartitionsToTxnRequest (API key 24).
use vstd::prelude::*;
use crate::roundtrip::{lemma_array_roundtrip, lemma_bool_roundtrip, lemma_i16_roundtrip,
    lemma_i64_roundtrip, lemma_items_read_back, lemma_seq_assoc, lemma_seq_empty_left,
    lemma_string_roundtrip, lemma_uvarint_roundtrip};
use crate::serialization::{Ctx, KafkaCodec, Reader, SerializationError, array_bytes, bool_bytes,
    decode_array, decode_unsigned_varint, encode_array, encode_string, encode_unsigned_varint,
    i16_bytes, i64_bytes, new_array, parse_array, parse_bool, parse_i16, parse_i64, parse_string,
    parse_uvarint, put_bool, put_i16, put_i64, read_view_exact, read_view_ok, string_bytes, then,
    uvarint_bytes, write_exact, write_ok};
use crate::{ApiKey, ApiVersion};

verus! {

// -------------------------------------------------------
// AddPartitionsToTxnRequest
// -------------------------------------------------------
#[derive(Clone, Debug, Default, PartialEq)]
pub struct AddPartitionsToTxnRequest {
    /// List of transactions to add partitions to.
    /// Available in version 4+.
    pub transactions: Vec<AddPartitionsToTxnTransaction>,
    /// The transactional id corresponding to the transaction.
    /// Available in version 0-3.
    pub v3_and_below_transactional_id: String,
    /// Current producer id in use by the transactional id.
    /// Available in version 0-3.
    pub v3_and_below_producer_id: i64,
    /// Current epoch associated with the producer id.
    /// Available in version 0-3.
    pub v3_and_below_producer_epoch: i16,
    /// The partitions to add to the transaction.
    /// Available in version 0-3.
    pub v3_and_below_topics: Vec<AddPartitionsToTxnTopic>,
}

/// The contents of `AddPartitionsToTxnRequest`, with strings as characters and
/// nested values by their contents.
pub struct AddPartitionsToTxnRequestModel {
    pub transactions: Seq<<AddPartitionsToTxnTransaction as DeepView>::V>,
    pub v3_and_below_transactional_id: Seq<char>,
    pub v3_and_below_producer_id: i64,
    pub v3_and_below_producer_epoch: i16,
    pub v3_and_below_topics: Seq<<AddPartitionsToTxnTopic as DeepView>::V>,
}

impl DeepView for AddPartitionsToTxnRequest {
    type V = AddPartitionsToTxnRequestModel;

    open spec fn deep_view(&self) -> AddPartitionsToTxnRequestModel {
        AddPartitionsToTxnRequestModel {
            transactions: self.transactions.deep_view(),
            v3_and_below_transactional_id: self.v3_and_below_transactional_id.deep_view(),
            v3_and_below_producer_id: self.v3_and_below_producer_id,
            v3_and_below_producer_epoch: self.v3_and_below_producer_epoch,
            v3_and_below_topics: self.v3_and_below_topics.deep_view(),
        }
    }
}

impl AddPartitionsToTxnRequest {
    /// The encoding of the structure in context `ctx`.
    pub open spec fn spec_encode_body(m: AddPartitionsToTxnRequestModel, ctx: Ctx) -> Result<Seq<u8>, SerializationError> {
        let r = Ok(Seq::<u8>::empty());
        let r = if 4 <= ctx.version { then(r, array_bytes::<AddPartitionsToTxnTransaction>(m.transactions, Ctx { version: ctx.version, flexible: ctx.flexible, classic: false })) } else { r };
        let r = if 0 <= ctx.version && ctx.version <= 3 { then(r, string_bytes(m.v3_and_below_transactional_id, ctx.flexible)) } else { r };
        let r = if 0 <= ctx.version && ctx.version <= 3 { then(r, Ok(i64_bytes(m.v3_and_below_producer_id))) } else { r };
        let r = if 0 <= ctx.version && ctx.version <= 3 { then(r, Ok(i16_bytes(m.v3_and_below_producer_epoch))) } else { r };
        let r = if 0 <= ctx.version && ctx.version <= 3 { then(r, array_bytes::<AddPartitionsToTxnTopic>(m.v3_and_below_topics, Ctx { version: ctx.version, flexible: ctx.flexible, classic: false })) } else { r };
        let r = if ctx.flexible { then(r, Ok(uvarint_bytes(0))) } else { r };
        r
    }

    /// The structure read from `s` at `pos` in context `ctx`.
    pub open spec fn spec_decode_body(s: Seq<u8>, pos: int, ctx: Ctx) -> Result<(AddPartitionsToTxnRequestModel, int), SerializationError> {
        match (if 4 <= ctx.version { parse_array::<AddPartitionsToTxnTransaction>(s, pos, Ctx { version: ctx.version, flexible: ctx.flexible, classic: false }) } else { Ok((Seq::<<AddPartitionsToTxnTransaction as DeepView>::V>::empty(), pos)) }) {
            Err(e) => Err(e),
            Ok((transactions, pos)) =>
            match (if 0 <= ctx.version && ctx.version <= 3 { parse_string(s, pos, ctx.flexible) } else { Ok((Seq::<char>::empty(), pos)) }) {
                Err(e) => Err(e),
                Ok((v3_and_below_transactional_id, pos)) =>
                match (if 0 <= ctx.version && ctx.version <= 3 { parse_i64(s, pos) } else { Ok((0i64, pos)) }) {
                    Err(e) => Err(e),
                    Ok((v3_and_below_producer_id, pos)) =>
                    match (if 0 <= ctx.version && ctx.version <= 3 { parse_i16(s, pos) } else { Ok((0i16, pos)) }) {
                        Err(e) => Err(e),
                        Ok((v3_and_below_producer_epoch, pos)) =>
                        match (if 0 <= ctx.version && ctx.version <= 3 { parse_array::<AddPartitionsToTxnTopic>(s, pos, Ctx { version: ctx.version, flexible: ctx.flexible, classic: false }) } else { Ok((Seq::<<AddPartitionsToTxnTopic as DeepView>::V>::empty(), pos)) }) {
                            Err(e) => Err(e),
                            Ok((v3_and_below_topics, pos)) =>
                            match (if ctx.flexible { parse_uvarint(s, pos) } else { Ok((0u64, pos)) }) {
                                Err(e) => Err(e),
                                Ok((_tag_count, pos)) =>
                                Ok((AddPartitionsToTxnRequestModel { transactions, v3_and_below_transactional_id, v3_and_below_producer_id, v3_and_below_producer_epoch, v3_and_below_topics }, pos))
                            }
                        }
                    }
                }
            }
        }
    }

    /// The structure as it reads back in context `ctx`: each field that the
    /// version leaves out is at its default.
    #[verifier::opaque]
    pub open spec fn spec_read_as(m: AddPartitionsToTxnRequestModel, ctx: Ctx) -> AddPartitionsToTxnRequestModel {
        AddPartitionsToTxnRequestModel { transactions: if 4 <= ctx.version { m.transactions } else { Seq::<<AddPartitionsToTxnTransaction as DeepView>::V>::empty() }, v3_and_below_transactional_id: if 0 <= ctx.version && ctx.version <= 3 { m.v3_and_below_transactional_id } else { Seq::<char>::empty() }, v3_and_below_producer_id: if 0 <= ctx.version && ctx.version <= 3 { m.v3_and_below_producer_id } else { 0i64 }, v3_and_below_producer_epoch: if 0 <= ctx.version && ctx.version <= 3 { m.v3_and_below_producer_epoch } else { 0i16 }, v3_and_below_topics: if 0 <= ctx.version && ctx.version <= 3 { m.v3_and_below_topics } else { Seq::<<AddPartitionsToTxnTopic as DeepView>::V>::empty() } }
    }

    /// Values that read back in context `ctx`: nested values read back. A field
    /// that the version leaves out is read as its default.
    pub open spec fn reads_back_body(m: AddPartitionsToTxnRequestModel, ctx: Ctx) -> bool {
        &&& (4 <= ctx.version) ==> forall|i: int| 0 <= i < m.transactions.len() ==> #[trigger] <AddPartitionsToTxnTransaction as KafkaCodec>::reads_back(m.transactions[i], Ctx { version: ctx.version, flexible: ctx.flexible, classic: false })
        &&& (0 <= ctx.version && ctx.version <= 3) ==> forall|i: int| 0 <= i < m.v3_and_below_topics.len() ==> #[trigger] <AddPartitionsToTxnTopic as KafkaCodec>::reads_back(m.v3_and_below_topics[i], Ctx { version: ctx.version, flexible: ctx.flexible, classic: false })
    }

    /// A value that can be written in context `ctx` and reads back: decoding its
    /// encoding, wherever it stands, gives the value as `spec_read_as` gives it and
    /// the position just after it.
    #[verifier::spinoff_prover]
    pub proof fn lemma_body_read_back(pre: Seq<u8>, m: AddPartitionsToTxnRequestModel, post: Seq<u8>, ctx: Ctx)
        requires
            Self::spec_encode_body(m, ctx) is Ok,
            Self::reads_back_body(m, ctx),
        ensures
            Self::spec_decode_body(pre + Self::spec_encode_body(m, ctx)->Ok_0 + post, pre.len() as int, ctx) == Ok::<(AddPartitionsToTxnRequestModel, int), SerializationError>((Self::spec_read_as(m, ctx), pre.len() as int + Self::spec_encode_body(m, ctx)->Ok_0.len())),
    {
        reveal(AddPartitionsToTxnRequest::spec_read_as);
        let b0 = if 4 <= ctx.version { (array_bytes::<AddPartitionsToTxnTransaction>(m.transactions, Ctx { version: ctx.version, flexible: ctx.flexible, classic: false }))->Ok_0 } else { Seq::<u8>::empty() };
        let b1 = if 0 <= ctx.version && ctx.version <= 3 { (string_bytes(m.v3_and_below_transactional_id, ctx.flexible))->Ok_0 } else { Seq::<u8>::empty() };
        let b2 = if 0 <= ctx.version && ctx.version <= 3 { i64_bytes(m.v3_and_below_producer_id) } else { Seq::<u8>::empty() };
        let b3 = if 0 <= ctx.version && ctx.version <= 3 { i16_bytes(m.v3_and_below_producer_epoch) } else { Seq::<u8>::empty() };
        let b4 = if 0 <= ctx.version && ctx.version <= 3 { (array_bytes::<AddPartitionsToTxnTopic>(m.v3_and_below_topics, Ctx { version: ctx.version, flexible: ctx.flexible, classic: false }))->Ok_0 } else { Seq::<u8>::empty() };
        let b5 = if ctx.flexible { uvarint_bytes(0) } else { Seq::<u8>::empty() };
        let t6 = post;
        let t5 = b5 + t6;
        let t4 = b4 + t5;
        let t3 = b3 + t4;
        let t2 = b2 + t3;
        let t1 = b1 + t2;
        let t0 = b0 + t1;
        let e = Self::spec_encode_body(m, ctx)->Ok_0;
        assert(e =~= Seq::<u8>::empty() + b0 + b1 + b2 + b3 + b4 + b5);
        lemma_seq_assoc((((((Seq::<u8>::empty() + b0) + b1) + b2) + b3) + b4), b5, post);
        lemma_seq_assoc(((((Seq::<u8>::empty() + b0) + b1) + b2) + b3), b4, (b5 + post));
        lemma_seq_assoc((((Seq::<u8>::empty() + b0) + b1) + b2), b3, (b4 + (b5 + post)));
        lemma_seq_assoc(((Seq::<u8>::empty() + b0) + b1), b2, (b3 + (b4 + (b5 + post))));
        lemma_seq_assoc((Seq::<u8>::empty() + b0), b1, (b2 + (b3 + (b4 + (b5 + post)))));
        lemma_seq_assoc(Seq::<u8>::empty(), b0, (b1 + (b2 + (b3 + (b4 + (b5 + post))))));
        lemma_seq_empty_left((b0 + (b1 + (b2 + (b3 + (b4 + (b5 + post)))))));
        let s = pre + e + post;
        lemma_seq_assoc(pre, e, post);
        assert(s == pre + t0);
        let a0 = pre;
        if 4 <= ctx.version {
            assert(parse_array::<AddPartitionsToTxnTransaction>(s, a0.len() as int, Ctx { version: ctx.version, flexible: ctx.flexible, classic: false }) == Ok::<(Seq<<AddPartitionsToTxnTransaction as DeepView>::V>, int), SerializationError>((m.transactions, a0.len() as int + b0.len()))) by {
                assert(array_bytes::<AddPartitionsToTxnTransaction>(m.transactions, Ctx { version: ctx.version, flexible: ctx.flexible, classic: false }) is Ok);
                lemma_seq_assoc(a0, b0, t1);
                lemma_items_read_back::<AddPartitionsToTxnTransaction>(m.transactions, Ctx { version: ctx.version, flexible: ctx.flexible, classic: false });
                lemma_array_roundtrip::<AddPartitionsToTxnTransaction>(a0, m.transactions, t1, Ctx { version: ctx.version, flexible: ctx.flexible, classic: false });
            }
        }
        lemma_seq_assoc(a0, b0, t1);
        let a1 = a0 + b0;
        if 0 <= ctx.version && ctx.version <= 3 {
            assert(parse_string(s, a1.len() as int, ctx.flexible) == Ok::<(Seq<char>, int), SerializationError>((m.v3_and_below_transactional_id, a1.len() as int + b1.len()))) by {
                assert(string_bytes(m.v3_and_below_transactional_id, ctx.flexible) is Ok);
                lemma_seq_assoc(a1, b1, t2);
                lemma_string_roundtrip(a1, m.v3_and_below_transactional_id, t2, ctx.flexible);
            }
        }
        lemma_seq_assoc(a1, b1, t2);
        let a2 = a1 + b1;
        if 0 <= ctx.version && ctx.version <= 3 {
            assert(parse_i64(s, a2.len() as int) == Ok::<(i64, int), SerializationError>((m.v3_and_below_producer_id, a2.len() as int + b2.len()))) by {
                lemma_seq_assoc(a2, b2, t3);
                lemma_i64_roundtrip(a2, m.v3_and_below_producer_id, t3);
            }
        }
        lemma_seq_assoc(a2, b2, t3);
        let a3 = a2 + b2;
        if 0 <= ctx.version && ctx.version <= 3 {
            assert(parse_i16(s, a3.len() as int) == Ok::<(i16, int), SerializationError>((m.v3_and_below_producer_epoch, a3.len() as int + b3.len()))) by {
                lemma_seq_assoc(a3, b3, t4);
                lemma_i16_roundtrip(a3, m.v3_and_below_producer_epoch, t4);
            }
        }
        lemma_seq_assoc(a3, b3, t4);
        let a4 = a3 + b3;
        if 0 <= ctx.version && ctx.version <= 3 {
            assert(parse_array::<AddPartitionsToTxnTopic>(s, a4.len() as int, Ctx { version: ctx.version, flexible: ctx.flexible, classic: false }) == Ok::<(Seq<<AddPartitionsToTxnTopic as DeepView>::V>, int), SerializationError>((m.v3_and_below_topics, a4.len() as int + b4.len()))) by {
                assert(array_bytes::<AddPartitionsToTxnTopic>(m.v3_and_below_topics, Ctx { version: ctx.version, flexible: ctx.flexible, classic: false }) is Ok);
                lemma_seq_assoc(a4, b4, t5);
                lemma_items_read_back::<AddPartitionsToTxnTopic>(m.v3_and_below_topics, Ctx { version: ctx.version, flexible: ctx.flexible, classic: false });
                lemma_array_roundtrip::<AddPartitionsToTxnTopic>(a4, m.v3_and_below_topics, t5, Ctx { version: ctx.version, flexible: ctx.flexible, classic: false });
            }
        }
        lemma_seq_assoc(a4, b4, t5);
        let a5 = a4 + b4;
        if ctx.flexible {
            assert(parse_uvarint(s, a5.len() as int) == Ok::<(u64, int), SerializationError>((0u64, a5.len() as int + b5.len()))) by {
                lemma_seq_assoc(a5, b5, t6);
                lemma_uvarint_roundtrip(a5, 0, t6);
            }
        }
    }

    /// The bytes written: the encoding of each field, in the order of the
    /// protocol's layout. Reading them back, wherever they stand, gives the value,
    /// with each field that the version leaves out at its default.
    #[verifier::spinoff_prover]
    pub proof fn lemma_body_layout(pre: Seq<u8>, m: AddPartitionsToTxnRequestModel, post: Seq<u8>, ctx: Ctx)
        requires
            Self::spec_encode_body(m, ctx) is Ok,
        ensures
            Self::spec_encode_body(m, ctx) == Ok::<Seq<u8>, SerializationError>((if 4 <= ctx.version { (array_bytes::<AddPartitionsToTxnTransaction>(m.transactions, Ctx { version: ctx.version, flexible: ctx.flexible, classic: false }))->Ok_0 } else { Seq::<u8>::empty() }) + (if 0 <= ctx.version && ctx.version <= 3 { (string_bytes(m.v3_and_below_transactional_id, ctx.flexible))->Ok_0 } else { Seq::<u8>::empty() }) + (if 0 <= ctx.version && ctx.version <= 3 { i64_bytes(m.v3_and_below_producer_id) } else { Seq::<u8>::empty() }) + (if 0 <= ctx.version && ctx.version <= 3 { i16_bytes(m.v3_and_below_producer_epoch) } else { Seq::<u8>::empty() }) + (if 0 <= ctx.version && ctx.version <= 3 { (array_bytes::<AddPartitionsToTxnTopic>(m.v3_and_below_topics, Ctx { version: ctx.version, flexible: ctx.flexible, classic: false }))->Ok_0 } else { Seq::<u8>::empty() }) + (if ctx.flexible { uvarint_bytes(0) } else { Seq::<u8>::empty() })),
            Self::reads_back_body(m, ctx) ==> Self::spec_decode_body(pre + ((if 4 <= ctx.version { (array_bytes::<AddPartitionsToTxnTransaction>(m.transactions, Ctx { version: ctx.version, flexible: ctx.flexible, classic: false }))->Ok_0 } else { Seq::<u8>::empty() }) + (if 0 <= ctx.version && ctx.version <= 3 { (string_bytes(m.v3_and_below_transactional_id, ctx.flexible))->Ok_0 } else { Seq::<u8>::empty() }) + (if 0 <= ctx.version && ctx.version <= 3 { i64_bytes(m.v3_and_below_producer_id) } else { Seq::<u8>::empty() }) + (if 0 <= ctx.version && ctx.version <= 3 { i16_bytes(m.v3_and_below_producer_epoch) } else { Seq::<u8>::empty() }) + (if 0 <= ctx.version && ctx.version <= 3 { (array_bytes::<AddPartitionsToTxnTopic>(m.v3_and_below_topics, Ctx { version: ctx.version, flexible: ctx.flexible, classic: false }))->Ok_0 } else { Seq::<u8>::empty() }) + (if ctx.flexible { uvarint_bytes(0) } else { Seq::<u8>::empty() })) + post, pre.len() as int, ctx) == Ok::<(AddPartitionsToTxnRequestModel, int), SerializationError>((AddPartitionsToTxnRequestModel { transactions: if 4 <= ctx.version { m.transactions } else { Seq::<<AddPartitionsToTxnTransaction as DeepView>::V>::empty() }, v3_and_below_transactional_id: if 0 <= ctx.version && ctx.version <= 3 { m.v3_and_below_transactional_id } else { Seq::<char>::empty() }, v3_and_below_producer_id: if 0 <= ctx.version && ctx.version <= 3 { m.v3_and_below_producer_id } else { 0i64 }, v3_and_below_producer_epoch: if 0 <= ctx.version && ctx.version <= 3 { m.v3_and_below_producer_epoch } else { 0i16 }, v3_and_below_topics: if 0 <= ctx.version && ctx.version <= 3 { m.v3_and_below_topics } else { Seq::<<AddPartitionsToTxnTopic as DeepView>::V>::empty() } }, pre.len() as int + ((if 4 <= ctx.version { (array_bytes::<AddPartitionsToTxnTransaction>(m.transactions, Ctx { version: ctx.version, flexible: ctx.flexible, classic: false }))->Ok_0 } else { Seq::<u8>::empty() }) + (if 0 <= ctx.version && ctx.version <= 3 { (string_bytes(m.v3_and_below_transactional_id, ctx.flexible))->Ok_0 } else { Seq::<u8>::empty() }) + (if 0 <= ctx.version && ctx.version <= 3 { i64_bytes(m.v3_and_below_producer_id) } else { Seq::<u8>::empty() }) + (if 0 <= ctx.version && ctx.version <= 3 { i16_bytes(m.v3_and_below_producer_epoch) } else { Seq::<u8>::empty() }) + (if 0 <= ctx.version && ctx.version <= 3 { (array_bytes::<AddPartitionsToTxnTopic>(m.v3_and_below_topics, Ctx { version: ctx.version, flexible: ctx.flexible, classic: false }))->Ok_0 } else { Seq::<u8>::empty() }) + (if ctx.flexible { uvarint_bytes(0) } else { Seq::<u8>::empty() })).len())),
    {
        let b0 = if 4 <= ctx.version { (array_bytes::<AddPartitionsToTxnTransaction>(m.transactions, Ctx { version: ctx.version, flexible: ctx.flexible, classic: false }))->Ok_0 } else { Seq::<u8>::empty() };
        let b1 = if 0 <= ctx.version && ctx.version <= 3 { (string_bytes(m.v3_and_below_transactional_id, ctx.flexible))->Ok_0 } else { Seq::<u8>::empty() };
        let b2 = if 0 <= ctx.version && ctx.version <= 3 { i64_bytes(m.v3_and_below_producer_id) } else { Seq::<u8>::empty() };
        let b3 = if 0 <= ctx.version && ctx.version <= 3 { i16_bytes(m.v3_and_below_producer_epoch) } else { Seq::<u8>::empty() };
        let b4 = if 0 <= ctx.version && ctx.version <= 3 { (array_bytes::<AddPartitionsToTxnTopic>(m.v3_and_below_topics, Ctx { version: ctx.version, flexible: ctx.flexible, classic: false }))->Ok_0 } else { Seq::<u8>::empty() };
        let b5 = if ctx.flexible { uvarint_bytes(0) } else { Seq::<u8>::empty() };
        let e = Self::spec_encode_body(m, ctx)->Ok_0;
        assert(e =~= Seq::<u8>::empty() + b0 + b1 + b2 + b3 + b4 + b5);
        assert(e =~= b0 + b1 + b2 + b3 + b4 + b5);
        if Self::reads_back_body(m, ctx) {
            Self::lemma_body_read_back(pre, m, post, ctx);
            reveal(AddPartitionsToTxnRequest::spec_read_as);
        }
    }

    /// Writing succeeds exactly when every field that the version carries can be
    /// encoded and every field that it leaves out, where leaving it out is an
    /// error, holds its default.
    #[verifier::spinoff_prover]
    pub proof fn lemma_body_write_succeeds(m: AddPartitionsToTxnRequestModel, ctx: Ctx)
        ensures
            Self::spec_encode_body(m, ctx) is Ok <==> ((4 <= ctx.version) ==> array_bytes::<AddPartitionsToTxnTransaction>(m.transactions, Ctx { version: ctx.version, flexible: ctx.flexible, classic: false }) is Ok) && ((0 <= ctx.version && ctx.version <= 3) ==> string_bytes(m.v3_and_below_transactional_id, ctx.flexible) is Ok) && ((0 <= ctx.version && ctx.version <= 3) ==> array_bytes::<AddPartitionsToTxnTopic>(m.v3_and_below_topics, Ctx { version: ctx.version, flexible: ctx.flexible, classic: false }) is Ok),
    {
    }

    /// Writes the structure for `version`, with the compact encodings when `is_flexible`.
    /// On failure the buffer is left as it was.
    pub fn encode(&self, buf: &mut Vec<u8>, version: ApiVersion, is_flexible: bool) -> (r: Result<(), SerializationError>)
        ensures
            write_exact(r, old(buf)@, final(buf)@, Self::spec_encode_body(self.deep_view(), Ctx { version: version.0, flexible: is_flexible, classic: false })),
    {
        let start = buf.len();
        let r = self.encode_ctx(buf, Ctx::new(version, is_flexible));
        if r.is_err() {
            buf.truncate(start);
        }
        r
    }

    /// Reads the structure as written for `version`.
    /// On failure the reader is put back where it started.
    pub fn decode(buf: &mut Reader, version: ApiVersion, is_flexible: bool) -> (r: Result<Self, SerializationError>)
        ensures
            final(buf).bytes() == old(buf).bytes(),
            read_view_exact(r, Self::spec_decode_body(old(buf).bytes(), old(buf).pos(), Ctx { version: version.0, flexible: is_flexible, classic: false }), old(buf).pos(), final(buf).pos()),
    {
        let start = buf.position();
        let r = Self::decode_ctx(buf, Ctx::new(version, is_flexible));
        if r.is_err() {
            buf.set_position(start);
        }
        r
    }
}

impl KafkaCodec for AddPartitionsToTxnRequest {
    open spec fn spec_encode(m: AddPartitionsToTxnRequestModel, ctx: Ctx) -> Result<Seq<u8>, SerializationError> {
        Self::spec_encode_body(m, ctx)
    }

    open spec fn spec_decode(s: Seq<u8>, pos: int, ctx: Ctx) -> Result<(AddPartitionsToTxnRequestModel, int), SerializationError> {
        Self::spec_decode_body(s, pos, ctx)
    }

    open spec fn reads_back(v: AddPartitionsToTxnRequestModel, ctx: Ctx) -> bool {
        Self::reads_back_body(v, ctx) && Self::spec_read_as(v, ctx) == v
    }

    proof fn lemma_read_back(pre: Seq<u8>, v: AddPartitionsToTxnRequestModel, post: Seq<u8>, ctx: Ctx) {
        Self::lemma_body_read_back(pre, v, post, ctx);
        assert(Self::spec_decode(pre + Self::spec_encode(v, ctx)->Ok_0 + post, pre.len() as int, ctx)
            == Self::spec_decode_body(pre + Self::spec_encode_body(v, ctx)->Ok_0 + post, pre.len() as int, ctx));
    }

    fn encode_ctx(&self, buf: &mut Vec<u8>, ctx: Ctx) -> (r: Result<(), SerializationError>) {
        let ghost mut w: Seq<u8> = Seq::empty();
        if 4 <= ctx.version {
            encode_array(&self.transactions, buf, Ctx { version: ctx.version, flexible: ctx.flexible, classic: false })?;
            proof {
                w = w + (array_bytes::<AddPartitionsToTxnTransaction>(self.transactions.deep_view(), Ctx { version: ctx.version, flexible: ctx.flexible, classic: false }))->Ok_0;
            }
            assert(buf@ =~= old(buf)@ + w);
        }
        if 0 <= ctx.version && ctx.version <= 3 {
            encode_string(&self.v3_and_below_transactional_id, buf, ctx.flexible)?;
            proof {
                w = w + (string_bytes(self.v3_and_below_transactional_id.deep_view(), ctx.flexible))->Ok_0;
            }
            assert(buf@ =~= old(buf)@ + w);
        }
        if 0 <= ctx.version && ctx.version <= 3 {
            put_i64(buf, self.v3_and_below_producer_id);
            proof {
                w = w + i64_bytes(self.v3_and_below_producer_id);
            }
            assert(buf@ =~= old(buf)@ + w);
        }
        if 0 <= ctx.version && ctx.version <= 3 {
            put_i16(buf, self.v3_and_below_producer_epoch);
            proof {
                w = w + i16_bytes(self.v3_and_below_producer_epoch);
            }
            assert(buf@ =~= old(buf)@ + w);
        }
        if 0 <= ctx.version && ctx.version <= 3 {
            encode_array(&self.v3_and_below_topics, buf, Ctx { version: ctx.version, flexible: ctx.flexible, classic: false })?;
            proof {
                w = w + (array_bytes::<AddPartitionsToTxnTopic>(self.v3_and_below_topics.deep_view(), Ctx { version: ctx.version, flexible: ctx.flexible, classic: false }))->Ok_0;
            }
            assert(buf@ =~= old(buf)@ + w);
        }
        if ctx.flexible {
            encode_unsigned_varint(0, buf);
            proof {
                w = w + uvarint_bytes(0);
            }
            assert(buf@ =~= old(buf)@ + w);
        }
        Ok(())
    }

    fn decode_ctx(buf: &mut Reader, ctx: Ctx) -> (r: Result<Self, SerializationError>) {
        let transactions = if 4 <= ctx.version {
            decode_array::<AddPartitionsToTxnTransaction>(buf, Ctx { version: ctx.version, flexible: ctx.flexible, classic: false })?
        } else {
            new_array::<AddPartitionsToTxnTransaction>()
        };
        let v3_and_below_transactional_id = if 0 <= ctx.version && ctx.version <= 3 {
            buf.get_string(ctx.flexible)?
        } else {
            String::new()
        };
        let v3_and_below_producer_id = if 0 <= ctx.version && ctx.version <= 3 {
            buf.get_i64()?
        } else {
            0i64
        };
        let v3_and_below_producer_epoch = if 0 <= ctx.version && ctx.version <= 3 {
            buf.get_i16()?
        } else {
            0i16
        };
        let v3_and_below_topics = if 0 <= ctx.version && ctx.version <= 3 {
            decode_array::<AddPartitionsToTxnTopic>(buf, Ctx { version: ctx.version, flexible: ctx.flexible, classic: false })?
        } else {
            new_array::<AddPartitionsToTxnTopic>()
        };
        if ctx.flexible {
            let (_tag_count, _) = decode_unsigned_varint(buf)?;
        }
        Ok(AddPartitionsToTxnRequest { transactions, v3_and_below_transactional_id, v3_and_below_producer_id, v3_and_below_producer_epoch, v3_and_below_topics })
    }
}

impl AddPartitionsToTxnRequest {
    /// The API key of this message.
    pub fn get_api_key() -> (r: ApiKey)
        ensures
            r.0 == 24,
    {
        ApiKey::new(24)
    }

    /// The oldest version of this message.
    pub fn get_min_supported_version() -> (r: ApiVersion)
        ensures
            r.0 == 0,
    {
        ApiVersion::new(0)
    }

    /// The newest version of this message.
    pub fn get_max_supported_version() -> (r: ApiVersion)
        ensures
            r.0 == 5,
    {
        ApiVersion::new(5)
    }

    /// The first version of this message with the compact encodings.
    pub fn get_min_flexible_version() -> (r: ApiVersion)
        ensures
            r.0 == 3,
    {
        ApiVersion::new(3)
    }

    /// The encoding of a whole message body at `version`.
    pub open spec fn spec_serialize(m: AddPartitionsToTxnRequestModel, version: i16) -> Result<Seq<u8>, SerializationError> {
        let is_flexible = version >= 3;
        let ctx = Ctx { version, flexible: is_flexible, classic: false };
        let r = Ok(Seq::<u8>::empty());
        let r = if 4 <= ctx.version { then(r, array_bytes::<AddPartitionsToTxnTransaction>(m.transactions, Ctx { version: ctx.version, flexible: ctx.flexible, classic: false })) } else if m.transactions.len() != 0 { then(r, Err(SerializationError::Encode("field 'Transactions' is not available in this version"))) } else { r };
        let r = if 0 <= ctx.version && ctx.version <= 3 { then(r, string_bytes(m.v3_and_below_transactional_id, ctx.flexible)) } else if m.v3_and_below_transactional_id.len() != 0 { then(r, Err(SerializationError::Encode("field 'V3AndBelowTransactionalId' is not available in this version"))) } else { r };
        let r = if 0 <= ctx.version && ctx.version <= 3 { then(r, Ok(i64_bytes(m.v3_and_below_producer_id))) } else if m.v3_and_below_producer_id != 0 { then(r, Err(SerializationError::Encode("field 'V3AndBelowProducerId' is not available in this version"))) } else { r };
        let r = if 0 <= ctx.version && ctx.version <= 3 { then(r, Ok(i16_bytes(m.v3_and_below_producer_epoch))) } else if m.v3_and_below_producer_epoch != 0 { then(r, Err(SerializationError::Encode("field 'V3AndBelowProducerEpoch' is not available in this version"))) } else { r };
        let r = if 0 <= ctx.version && ctx.version <= 3 { then(r, array_bytes::<AddPartitionsToTxnTopic>(m.v3_and_below_topics, Ctx { version: ctx.version, flexible: ctx.flexible, classic: false })) } else if m.v3_and_below_topics.len() != 0 { then(r, Err(SerializationError::Encode("field 'V3AndBelowTopics' is not available in this version"))) } else { r };
        let r = if ctx.flexible { then(r, Ok(uvarint_bytes(0))) } else { r };
        r
    }

    /// The message body read at `version`.
    pub open spec fn spec_deserialize(s: Seq<u8>, pos: int, version: i16) -> Result<(AddPartitionsToTxnRequestModel, int), SerializationError> {
        let is_flexible = version >= 3;
        let ctx = Ctx { version, flexible: is_flexible, classic: false };
        match (if 4 <= ctx.version { parse_array::<AddPartitionsToTxnTransaction>(s, pos, Ctx { version: ctx.version, flexible: ctx.flexible, classic: false }) } else { Ok((Seq::<<AddPartitionsToTxnTransaction as DeepView>::V>::empty(), pos)) }) {
            Err(e) => Err(e),
            Ok((transactions, pos)) =>
            match (if 0 <= ctx.version && ctx.version <= 3 { parse_string(s, pos, ctx.flexible) } else { Ok((Seq::<char>::empty(), pos)) }) {
                Err(e) => Err(e),
                Ok((v3_and_below_transactional_id, pos)) =>
                match (if 0 <= ctx.version && ctx.version <= 3 { parse_i64(s, pos) } else { Ok((0i64, pos)) }) {
                    Err(e) => Err(e),
                    Ok((v3_and_below_producer_id, pos)) =>
                    match (if 0 <= ctx.version && ctx.version <= 3 { parse_i16(s, pos) } else { Ok((0i16, pos)) }) {
                        Err(e) => Err(e),
                        Ok((v3_and_below_producer_epoch, pos)) =>
                        match (if 0 <= ctx.version && ctx.version <= 3 { parse_array::<AddPartitionsToTxnTopic>(s, pos, Ctx { version: ctx.version, flexible: ctx.flexible, classic: false }) } else { Ok((Seq::<<AddPartitionsToTxnTopic as DeepView>::V>::empty(), pos)) }) {
                            Err(e) => Err(e),
                            Ok((v3_and_below_topics, pos)) =>
                            match (if ctx.flexible { parse_uvarint(s, pos) } else { Ok((0u64, pos)) }) {
                                Err(e) => Err(e),
                                Ok((_tag_count, pos)) =>
                                Ok((AddPartitionsToTxnRequestModel { transactions, v3_and_below_transactional_id, v3_and_below_producer_id, v3_and_below_producer_epoch, v3_and_below_topics }, pos))
                            }
                        }
                    }
                }
            }
        }
    }

    /// Message bodies that read back when written at `version`: nested values read
    /// back. A field that the version leaves out is read as its default.
    pub open spec fn reads_back_message(m: AddPartitionsToTxnRequestModel, version: i16) -> bool {
        let is_flexible = version >= 3;
        let ctx = Ctx { version, flexible: is_flexible, classic: false };
        &&& (4 <= ctx.version) ==> forall|i: int| 0 <= i < m.transactions.len() ==> #[trigger] <AddPartitionsToTxnTransaction as KafkaCodec>::reads_back(m.transactions[i], Ctx { version: ctx.version, flexible: ctx.flexible, classic: false })
        &&& (0 <= ctx.version && ctx.version <= 3) ==> forall|i: int| 0 <= i < m.v3_and_below_topics.len() ==> #[trigger] <AddPartitionsToTxnTopic as KafkaCodec>::reads_back(m.v3_and_below_topics[i], Ctx { version: ctx.version, flexible: ctx.flexible, classic: false })
    }

    /// A message body that can be written at `version` and reads back: reading a
    /// body at `version` from its bytes, wherever they stand, gives the same message,
    /// with each field that the version leaves out at its default.
    #[verifier::spinoff_prover]
    pub proof fn lemma_message_read_back(pre: Seq<u8>, m: AddPartitionsToTxnRequestModel, post: Seq<u8>, version: i16)
        requires
            Self::spec_serialize(m, version) is Ok,
            Self::reads_back_message(m, version),
        ensures
            Self::spec_deserialize(pre + Self::spec_serialize(m, version)->Ok_0 + post, pre.len() as int, version) == Ok::<(AddPartitionsToTxnRequestModel, int), SerializationError>((AddPartitionsToTxnRequestModel { transactions: if 4 <= version { m.transactions } else { Seq::<<AddPartitionsToTxnTransaction as DeepView>::V>::empty() }, v3_and_below_transactional_id: if 0 <= version && version <= 3 { m.v3_and_below_transactional_id } else { Seq::<char>::empty() }, v3_and_below_producer_id: if 0 <= version && version <= 3 { m.v3_and_below_producer_id } else { 0i64 }, v3_and_below_producer_epoch: if 0 <= version && version <= 3 { m.v3_and_below_producer_epoch } else { 0i16 }, v3_and_below_topics: if 0 <= version && version <= 3 { m.v3_and_below_topics } else { Seq::<<AddPartitionsToTxnTopic as DeepView>::V>::empty() } }, pre.len() as int + Self::spec_serialize(m, version)->Ok_0.len())),
    {
        let is_flexible = version >= 3;
        let ctx = Ctx { version, flexible: is_flexible, classic: false };
        let b0 = if 4 <= ctx.version { (array_bytes::<AddPartitionsToTxnTransaction>(m.transactions, Ctx { version: ctx.version, flexible: ctx.flexible, classic: false }))->Ok_0 } else { Seq::<u8>::empty() };
        let b1 = if 0 <= ctx.version && ctx.version <= 3 { (string_bytes(m.v3_and_below_transactional_id, ctx.flexible))->Ok_0 } else { Seq::<u8>::empty() };
        let b2 = if 0 <= ctx.version && ctx.version <= 3 { i64_bytes(m.v3_and_below_producer_id) } else { Seq::<u8>::empty() };
        let b3 = if 0 <= ctx.version && ctx.version <= 3 { i16_bytes(m.v3_and_below_producer_epoch) } else { Seq::<u8>::empty() };
        let b4 = if 0 <= ctx.version && ctx.version <= 3 { (array_bytes::<AddPartitionsToTxnTopic>(m.v3_and_below_topics, Ctx { version: ctx.version, flexible: ctx.flexible, classic: false }))->Ok_0 } else { Seq::<u8>::empty() };
        let b5 = if ctx.flexible { uvarint_bytes(0) } else { Seq::<u8>::empty() };
        let t6 = post;
        let t5 = b5 + t6;
        let t4 = b4 + t5;
        let t3 = b3 + t4;
        let t2 = b2 + t3;
        let t1 = b1 + t2;
        let t0 = b0 + t1;
        let e = Self::spec_serialize(m, version)->Ok_0;
        assert(e =~= Seq::<u8>::empty() + b0 + b1 + b2 + b3 + b4 + b5);
        lemma_seq_assoc((((((Seq::<u8>::empty() + b0) + b1) + b2) + b3) + b4), b5, post);
        lemma_seq_assoc(((((Seq::<u8>::empty() + b0) + b1) + b2) + b3), b4, (b5 + post));
        lemma_seq_assoc((((Seq::<u8>::empty() + b0) + b1) + b2), b3, (b4 + (b5 + post)));
        lemma_seq_assoc(((Seq::<u8>::empty() + b0) + b1), b2, (b3 + (b4 + (b5 + post))));
        lemma_seq_assoc((Seq::<u8>::empty() + b0), b1, (b2 + (b3 + (b4 + (b5 + post)))));
        lemma_seq_assoc(Seq::<u8>::empty(), b0, (b1 + (b2 + (b3 + (b4 + (b5 + post))))));
        lemma_seq_empty_left((b0 + (b1 + (b2 + (b3 + (b4 + (b5 + post)))))));
        let s = pre + e + post;
        lemma_seq_assoc(pre, e, post);
        assert(s == pre + t0);
        let a0 = pre;
        if 4 <= ctx.version {
            assert(parse_array::<AddPartitionsToTxnTransaction>(s, a0.len() as int, Ctx { version: ctx.version, flexible: ctx.flexible, classic: false }) == Ok::<(Seq<<AddPartitionsToTxnTransaction as DeepView>::V>, int), SerializationError>((m.transactions, a0.len() as int + b0.len()))) by {
                assert(array_bytes::<AddPartitionsToTxnTransaction>(m.transactions, Ctx { version: ctx.version, flexible: ctx.flexible, classic: false }) is Ok);
                lemma_seq_assoc(a0, b0, t1);
                lemma_items_read_back::<AddPartitionsToTxnTransaction>(m.transactions, Ctx { version: ctx.version, flexible: ctx.flexible, classic: false });
                lemma_array_roundtrip::<AddPartitionsToTxnTransaction>(a0, m.transactions, t1, Ctx { version: ctx.version, flexible: ctx.flexible, classic: false });
            }
        }
        lemma_seq_assoc(a0, b0, t1);
        let a1 = a0 + b0;
        if 0 <= ctx.version && ctx.version <= 3 {
            assert(parse_string(s, a1.len() as int, ctx.flexible) == Ok::<(Seq<char>, int), SerializationError>((m.v3_and_below_transactional_id, a1.len() as int + b1.len()))) by {
                assert(string_bytes(m.v3_and_below_transactional_id, ctx.flexible) is Ok);
                lemma_seq_assoc(a1, b1, t2);
                lemma_string_roundtrip(a1, m.v3_and_below_transactional_id, t2, ctx.flexible);
            }
        }
        lemma_seq_assoc(a1, b1, t2);
        let a2 = a1 + b1;
        if 0 <= ctx.version && ctx.version <= 3 {
            assert(parse_i64(s, a2.len() as int) == Ok::<(i64, int), SerializationError>((m.v3_and_below_producer_id, a2.len() as int + b2.len()))) by {
                lemma_seq_assoc(a2, b2, t3);
                lemma_i64_roundtrip(a2, m.v3_and_below_producer_id, t3);
            }
        }
        lemma_seq_assoc(a2, b2, t3);
        let a3 = a2 + b2;
        if 0 <= ctx.version && ctx.version <= 3 {
            assert(parse_i16(s, a3.len() as int) == Ok::<(i16, int), SerializationError>((m.v3_and_below_producer_epoch, a3.len() as int + b3.len()))) by {
                lemma_seq_assoc(a3, b3, t4);
                lemma_i16_roundtrip(a3, m.v3_and_below_producer_epoch, t4);
            }
        }
        lemma_seq_assoc(a3, b3, t4);
        let a4 = a3 + b3;
        if 0 <= ctx.version && ctx.version <= 3 {
            assert(parse_array::<AddPartitionsToTxnTopic>(s, a4.len() as int, Ctx { version: ctx.version, flexible: ctx.flexible, classic: false }) == Ok::<(Seq<<AddPartitionsToTxnTopic as DeepView>::V>, int), SerializationError>((m.v3_and_below_topics, a4.len() as int + b4.len()))) by {
                assert(array_bytes::<AddPartitionsToTxnTopic>(m.v3_and_below_topics, Ctx { version: ctx.version, flexible: ctx.flexible, classic: false }) is Ok);
                lemma_seq_assoc(a4, b4, t5);
                lemma_items_read_back::<AddPartitionsToTxnTopic>(m.v3_and_below_topics, Ctx { version: ctx.version, flexible: ctx.flexible, classic: false });
                lemma_array_roundtrip::<AddPartitionsToTxnTopic>(a4, m.v3_and_below_topics, t5, Ctx { version: ctx.version, flexible: ctx.flexible, classic: false });
            }
        }
        lemma_seq_assoc(a4, b4, t5);
        let a5 = a4 + b4;
        if ctx.flexible {
            assert(parse_uvarint(s, a5.len() as int) == Ok::<(u64, int), SerializationError>((0u64, a5.len() as int + b5.len()))) by {
                lemma_seq_assoc(a5, b5, t6);
                lemma_uvarint_roundtrip(a5, 0, t6);
            }
        }
    }

    /// The bytes written: the encoding of each field, in the order of the
    /// protocol's layout. Reading them back, wherever they stand, gives the value,
    /// with each field that the version leaves out at its default.
    #[verifier::spinoff_prover]
    pub proof fn lemma_message_layout(pre: Seq<u8>, m: AddPartitionsToTxnRequestModel, post: Seq<u8>, version: i16)
        requires
            Self::spec_serialize(m, version) is Ok,
        ensures
            Self::spec_serialize(m, version) == Ok::<Seq<u8>, SerializationError>((if 4 <= version { (array_bytes::<AddPartitionsToTxnTransaction>(m.transactions, Ctx { version: version, flexible: (version >= 3), classic: false }))->Ok_0 } else { Seq::<u8>::empty() }) + (if 0 <= version && version <= 3 { (string_bytes(m.v3_and_below_transactional_id, (version >= 3)))->Ok_0 } else { Seq::<u8>::empty() }) + (if 0 <= version && version <= 3 { i64_bytes(m.v3_and_below_producer_id) } else { Seq::<u8>::empty() }) + (if 0 <= version && version <= 3 { i16_bytes(m.v3_and_below_producer_epoch) } else { Seq::<u8>::empty() }) + (if 0 <= version && version <= 3 { (array_bytes::<AddPartitionsToTxnTopic>(m.v3_and_below_topics, Ctx { version: version, flexible: (version >= 3), classic: false }))->Ok_0 } else { Seq::<u8>::empty() }) + (if (version >= 3) { uvarint_bytes(0) } else { Seq::<u8>::empty() })),
            Self::reads_back_message(m, version) ==> Self::spec_deserialize(pre + ((if 4 <= version { (array_bytes::<AddPartitionsToTxnTransaction>(m.transactions, Ctx { version: version, flexible: (version >= 3), classic: false }))->Ok_0 } else { Seq::<u8>::empty() }) + (if 0 <= version && version <= 3 { (string_bytes(m.v3_and_below_transactional_id, (version >= 3)))->Ok_0 } else { Seq::<u8>::empty() }) + (if 0 <= version && version <= 3 { i64_bytes(m.v3_and_below_producer_id) } else { Seq::<u8>::empty() }) + (if 0 <= version && version <= 3 { i16_bytes(m.v3_and_below_producer_epoch) } else { Seq::<u8>::empty() }) + (if 0 <= version && version <= 3 { (array_bytes::<AddPartitionsToTxnTopic>(m.v3_and_below_topics, Ctx { version: version, flexible: (version >= 3), classic: false }))->Ok_0 } else { Seq::<u8>::empty() }) + (if (version >= 3) { uvarint_bytes(0) } else { Seq::<u8>::empty() })) + post, pre.len() as int, version) == Ok::<(AddPartitionsToTxnRequestModel, int), SerializationError>((AddPartitionsToTxnRequestModel { transactions: if 4 <= version { m.transactions } else { Seq::<<AddPartitionsToTxnTransaction as DeepView>::V>::empty() }, v3_and_below_transactional_id: if 0 <= version && version <= 3 { m.v3_and_below_transactional_id } else { Seq::<char>::empty() }, v3_and_below_producer_id: if 0 <= version && version <= 3 { m.v3_and_below_producer_id } else { 0i64 }, v3_and_below_producer_epoch: if 0 <= version && version <= 3 { m.v3_and_below_producer_epoch } else { 0i16 }, v3_and_below_topics: if 0 <= version && version <= 3 { m.v3_and_below_topics } else { Seq::<<AddPartitionsToTxnTopic as DeepView>::V>::empty() } }, pre.len() as int + ((if 4 <= version { (array_bytes::<AddPartitionsToTxnTransaction>(m.transactions, Ctx { version: version, flexible: (version >= 3), classic: false }))->Ok_0 } else { Seq::<u8>::empty() }) + (if 0 <= version && version <= 3 { (string_bytes(m.v3_and_below_transactional_id, (version >= 3)))->Ok_0 } else { Seq::<u8>::empty() }) + (if 0 <= version && version <= 3 { i64_bytes(m.v3_and_below_producer_id) } else { Seq::<u8>::empty() }) + (if 0 <= version && version <= 3 { i16_bytes(m.v3_and_below_producer_epoch) } else { Seq::<u8>::empty() }) + (if 0 <= version && version <= 3 { (array_bytes::<AddPartitionsToTxnTopic>(m.v3_and_below_topics, Ctx { version: version, flexible: (version >= 3), classic: false }))->Ok_0 } else { Seq::<u8>::empty() }) + (if (version >= 3) { uvarint_bytes(0) } else { Seq::<u8>::empty() })).len())),
    {
        let is_flexible = version >= 3;
        let ctx = Ctx { version, flexible: is_flexible, classic: false };
        let b0 = if 4 <= ctx.version { (array_bytes::<AddPartitionsToTxnTransaction>(m.transactions, Ctx { version: ctx.version, flexible: ctx.flexible, classic: false }))->Ok_0 } else { Seq::<u8>::empty() };
        let b1 = if 0 <= ctx.version && ctx.version <= 3 { (string_bytes(m.v3_and_below_transactional_id, ctx.flexible))->Ok_0 } else { Seq::<u8>::empty() };
        let b2 = if 0 <= ctx.version && ctx.version <= 3 { i64_bytes(m.v3_and_below_producer_id) } else { Seq::<u8>::empty() };
        let b3 = if 0 <= ctx.version && ctx.version <= 3 { i16_bytes(m.v3_and_below_producer_epoch) } else { Seq::<u8>::empty() };
        let b4 = if 0 <= ctx.version && ctx.version <= 3 { (array_bytes::<AddPartitionsToTxnTopic>(m.v3_and_below_topics, Ctx { version: ctx.version, flexible: ctx.flexible, classic: false }))->Ok_0 } else { Seq::<u8>::empty() };
        let b5 = if ctx.flexible { uvarint_bytes(0) } else { Seq::<u8>::empty() };
        let e = Self::spec_serialize(m, version)->Ok_0;
        assert(e =~= Seq::<u8>::empty() + b0 + b1 + b2 + b3 + b4 + b5);
        assert(e =~= b0 + b1 + b2 + b3 + b4 + b5);
        if Self::reads_back_message(m, version) {
            Self::lemma_message_read_back(pre, m, post, version);
        }
    }

    /// Writing succeeds exactly when every field that the version carries can be
    /// encoded and every field that it leaves out, where leaving it out is an
    /// error, holds its default.
    #[verifier::spinoff_prover]
    pub proof fn lemma_message_write_succeeds(m: AddPartitionsToTxnRequestModel, version: i16)
        ensures
            Self::spec_serialize(m, version) is Ok <==> ((4 <= version) ==> array_bytes::<AddPartitionsToTxnTransaction>(m.transactions, Ctx { version: version, flexible: (version >= 3), classic: false }) is Ok) && (!(4 <= version) ==> !(m.transactions.len() != 0)) && ((0 <= version && version <= 3) ==> string_bytes(m.v3_and_below_transactional_id, (version >= 3)) is Ok) && (!(0 <= version && version <= 3) ==> !(m.v3_and_below_transactional_id.len() != 0)) && (!(0 <= version && version <= 3) ==> !(m.v3_and_below_producer_id != 0)) && (!(0 <= version && version <= 3) ==> !(m.v3_and_below_producer_epoch != 0)) && ((0 <= version && version <= 3) ==> array_bytes::<AddPartitionsToTxnTopic>(m.v3_and_below_topics, Ctx { version: version, flexible: (version >= 3), classic: false }) is Ok) && (!(0 <= version && version <= 3) ==> !(m.v3_and_below_topics.len() != 0)),
    {
        let is_flexible = version >= 3;
        let ctx = Ctx { version, flexible: is_flexible, classic: false };
    }

    /// Writes the message body for `version`, which must be a supported version.
    /// On failure the buffer is left as it was.
    pub fn serialize(&self, version: ApiVersion, buf: &mut Vec<u8>) -> (r: Result<(), SerializationError>)
        requires
            0 <= version.0 <= 5,
        ensures
            write_exact(r, old(buf)@, final(buf)@, Self::spec_serialize(self.deep_view(), version.0)),
    {
        let start = buf.len();
        let r = self.write_body(version, buf);
        if r.is_err() {
            buf.truncate(start);
        }
        r
    }

    fn write_body(&self, version: ApiVersion, buf: &mut Vec<u8>) -> (r: Result<(), SerializationError>)
        requires
            0 <= version.0 <= 5,
        ensures
            write_ok(r, old(buf)@, final(buf)@, Self::spec_serialize(self.deep_view(), version.0)),
    {
        let is_flexible = version.0 >= Self::get_min_flexible_version().0;
        let ctx = Ctx::new(version, is_flexible);
        let ghost mut w: Seq<u8> = Seq::empty();
        if 4 <= ctx.version {
            encode_array(&self.transactions, buf, Ctx { version: ctx.version, flexible: ctx.flexible, classic: false })?;
            proof {
                w = w + (array_bytes::<AddPartitionsToTxnTransaction>(self.transactions.deep_view(), Ctx { version: ctx.version, flexible: ctx.flexible, classic: false }))->Ok_0;
            }
            assert(buf@ =~= old(buf)@ + w);
        } else if self.transactions.len() != 0 {
            return Err(SerializationError::Encode("field 'Transactions' is not available in this version"));
        }
        if 0 <= ctx.version && ctx.version <= 3 {
            encode_string(&self.v3_and_below_transactional_id, buf, ctx.flexible)?;
            proof {
                w = w + (string_bytes(self.v3_and_below_transactional_id.deep_view(), ctx.flexible))->Ok_0;
            }
            assert(buf@ =~= old(buf)@ + w);
        } else if !self.v3_and_below_transactional_id.as_str().is_empty() {
            return Err(SerializationError::Encode("field 'V3AndBelowTransactionalId' is not available in this version"));
        }
        if 0 <= ctx.version && ctx.version <= 3 {
            put_i64(buf, self.v3_and_below_producer_id);
            proof {
                w = w + i64_bytes(self.v3_and_below_producer_id);
            }
            assert(buf@ =~= old(buf)@ + w);
        } else if self.v3_and_below_producer_id != 0 {
            return Err(SerializationError::Encode("field 'V3AndBelowProducerId' is not available in this version"));
        }
        if 0 <= ctx.version && ctx.version <= 3 {
            put_i16(buf, self.v3_and_below_producer_epoch);
            proof {
                w = w + i16_bytes(self.v3_and_below_producer_epoch);
            }
            assert(buf@ =~= old(buf)@ + w);
        } else if self.v3_and_below_producer_epoch != 0 {
            return Err(SerializationError::Encode("field 'V3AndBelowProducerEpoch' is not available in this version"));
        }
        if 0 <= ctx.version && ctx.version <= 3 {
            encode_array(&self.v3_and_below_topics, buf, Ctx { version: ctx.version, flexible: ctx.flexible, classic: false })?;
            proof {
                w = w + (array_bytes::<AddPartitionsToTxnTopic>(self.v3_and_below_topics.deep_view(), Ctx { version: ctx.version, flexible: ctx.flexible, classic: false }))->Ok_0;
            }
            assert(buf@ =~= old(buf)@ + w);
        } else if self.v3_and_below_topics.len() != 0 {
            return Err(SerializationError::Encode("field 'V3AndBelowTopics' is not available in this version"));
        }
        if ctx.flexible {
            encode_unsigned_varint(0, buf);
            proof {
                w = w + uvarint_bytes(0);
            }
            assert(buf@ =~= old(buf)@ + w);
        }
        Ok(())
    }

    /// Reads a message body written for `version`.
    /// On failure the reader is put back where it started.
    pub fn deserialize(version: ApiVersion, buf: &mut Reader) -> (r: Result<Self, SerializationError>)
        ensures
            final(buf).bytes() == old(buf).bytes(),
            read_view_exact(r, Self::spec_deserialize(old(buf).bytes(), old(buf).pos(), version.0), old(buf).pos(), final(buf).pos()),
    {
        let start = buf.position();
        let r = Self::read_body(version, buf);
        if r.is_err() {
            buf.set_position(start);
        }
        r
    }

    fn read_body(version: ApiVersion, buf: &mut Reader) -> (r: Result<Self, SerializationError>)
        ensures
            final(buf).bytes() == old(buf).bytes(),
            read_view_ok(r, Self::spec_deserialize(old(buf).bytes(), old(buf).pos(), version.0), final(buf).pos()),
    {
        let is_flexible = version.0 >= Self::get_min_flexible_version().0;
        let ctx = Ctx::new(version, is_flexible);
        let transactions = if 4 <= ctx.version {
            decode_array::<AddPartitionsToTxnTransaction>(buf, Ctx { version: ctx.version, flexible: ctx.flexible, classic: false })?
        } else {
            new_array::<AddPartitionsToTxnTransaction>()
        };
        let v3_and_below_transactional_id = if 0 <= ctx.version && ctx.version <= 3 {
            buf.get_string(ctx.flexible)?
        } else {
            String::new()
        };
        let v3_and_below_producer_id = if 0 <= ctx.version && ctx.version <= 3 {
            buf.get_i64()?
        } else {
            0i64
        };
        let v3_and_below_producer_epoch = if 0 <= ctx.version && ctx.version <= 3 {
            buf.get_i16()?
        } else {
            0i16
        };
        let v3_and_below_topics = if 0 <= ctx.version && ctx.version <= 3 {
            decode_array::<AddPartitionsToTxnTopic>(buf, Ctx { version: ctx.version, flexible: ctx.flexible, classic: false })?
        } else {
            new_array::<AddPartitionsToTxnTopic>()
        };
        if ctx.flexible {
            let (_tag_count, _) = decode_unsigned_varint(buf)?;
        }
        Ok(AddPartitionsToTxnRequest { transactions, v3_and_below_transactional_id, v3_and_below_producer_id, v3_and_below_producer_epoch, v3_and_below_topics })
    }
}

// -------------------------------------------------------
// AddPartitionsToTxnTopic
// -------------------------------------------------------
#[derive(Clone, Debug, Default, PartialEq)]
pub struct AddPartitionsToTxnTopic {
    /// The name of the topic.
    pub name: String,
    /// The partition indexes to add to the transaction.
    pub partitions: Vec<i32>,
}

/// The contents of `AddPartitionsToTxnTopic`, with strings as characters and
/// nested values by their contents.
pub struct AddPartitionsToTxnTopicModel {
    pub name: Seq<char>,
    pub partitions: Seq<<i32 as DeepView>::V>,
}

impl DeepView for AddPartitionsToTxnTopic {
    type V = AddPartitionsToTxnTopicModel;

    open spec fn deep_view(&self) -> AddPartitionsToTxnTopicModel {
        AddPartitionsToTxnTopicModel {
            name: self.name.deep_view(),
            partitions: self.partitions.deep_view(),
        }
    }
}

impl AddPartitionsToTxnTopic {
    /// The encoding of the structure in context `ctx`.
    pub open spec fn spec_encode_body(m: AddPartitionsToTxnTopicModel, ctx: Ctx) -> Result<Seq<u8>, SerializationError> {
        let r = Ok(Seq::<u8>::empty());
        let r = then(r, string_bytes(m.name, ctx.flexible));
        let r = then(r, array_bytes::<i32>(m.partitions, Ctx { version: ctx.version, flexible: ctx.flexible, classic: false }));
        let r = if ctx.flexible { then(r, Ok(uvarint_bytes(0))) } else { r };
        r
    }

    /// The structure read from `s` at `pos` in context `ctx`.
    pub open spec fn spec_decode_body(s: Seq<u8>, pos: int, ctx: Ctx) -> Result<(AddPartitionsToTxnTopicModel, int), SerializationError> {
        match parse_string(s, pos, ctx.flexible) {
            Err(e) => Err(e),
            Ok((name, pos)) =>
            match parse_array::<i32>(s, pos, Ctx { version: ctx.version, flexible: ctx.flexible, classic: false }) {
                Err(e) => Err(e),
                Ok((partitions, pos)) =>
                match (if ctx.flexible { parse_uvarint(s, pos) } else { Ok((0u64, pos)) }) {
                    Err(e) => Err(e),
                    Ok((_tag_count, pos)) =>
                    Ok((AddPartitionsToTxnTopicModel { name, partitions }, pos))
                }
            }
        }
    }

    /// Values of the structure that read back from their encoding in `ctx`: every
    /// field that the version leaves out holds its default, and nested values
    /// read back.
    pub open spec fn reads_back_body(m: AddPartitionsToTxnTopicModel, ctx: Ctx) -> bool {
        &&& forall|i: int| 0 <= i < m.partitions.len() ==> #[trigger] <i32 as KafkaCodec>::reads_back(m.partitions[i], Ctx { version: ctx.version, flexible: ctx.flexible, classic: false })
    }

    /// A value that can be written in `ctx` and reads back: decoding its encoding,
    /// wherever it stands, gives the value and the position just after it.
    #[verifier::spinoff_prover]
    pub proof fn lemma_body_read_back(pre: Seq<u8>, m: AddPartitionsToTxnTopicModel, post: Seq<u8>, ctx: Ctx)
        requires
            Self::spec_encode_body(m, ctx) is Ok,
            Self::reads_back_body(m, ctx),
        ensures
            Self::spec_decode_body(pre + Self::spec_encode_body(m, ctx)->Ok_0 + post, pre.len() as int, ctx) == Ok::<(AddPartitionsToTxnTopicModel, int), SerializationError>((m, pre.len() as int + Self::spec_encode_body(m, ctx)->Ok_0.len())),
    {
        let b0 = (string_bytes(m.name, ctx.flexible))->Ok_0;
        let b1 = (array_bytes::<i32>(m.partitions, Ctx { version: ctx.version, flexible: ctx.flexible, classic: false }))->Ok_0;
        let b2 = if ctx.flexible { uvarint_bytes(0) } else { Seq::<u8>::empty() };
        let t3 = post;
        let t2 = b2 + t3;
        let t1 = b1 + t2;
        let t0 = b0 + t1;
        let e = Self::spec_encode_body(m, ctx)->Ok_0;
        assert(e =~= Seq::<u8>::empty() + b0 + b1 + b2);
        lemma_seq_assoc(((Seq::<u8>::empty() + b0) + b1), b2, post);
        lemma_seq_assoc((Seq::<u8>::empty() + b0), b1, (b2 + post));
        lemma_seq_assoc(Seq::<u8>::empty(), b0, (b1 + (b2 + post)));
        lemma_seq_empty_left((b0 + (b1 + (b2 + post))));
        let s = pre + e + post;
        lemma_seq_assoc(pre, e, post);
        assert(s == pre + t0);
        let a0 = pre;
        assert(parse_string(s, a0.len() as int, ctx.flexible) == Ok::<(Seq<char>, int), SerializationError>((m.name, a0.len() as int + b0.len()))) by {
            assert(string_bytes(m.name, ctx.flexible) is Ok);
            lemma_seq_assoc(a0, b0, t1);
            lemma_string_roundtrip(a0, m.name, t1, ctx.flexible);
        }
        lemma_seq_assoc(a0, b0, t1);
        let a1 = a0 + b0;
        assert(parse_array::<i32>(s, a1.len() as int, Ctx { version: ctx.version, flexible: ctx.flexible, classic: false }) == Ok::<(Seq<<i32 as DeepView>::V>, int), SerializationError>((m.partitions, a1.len() as int + b1.len()))) by {
            assert(array_bytes::<i32>(m.partitions, Ctx { version: ctx.version, flexible: ctx.flexible, classic: false }) is Ok);
            lemma_seq_assoc(a1, b1, t2);
            lemma_items_read_back::<i32>(m.partitions, Ctx { version: ctx.version, flexible: ctx.flexible, classic: false });
            lemma_array_roundtrip::<i32>(a1, m.partitions, t2, Ctx { version: ctx.version, flexible: ctx.flexible, classic: false });
        }
        lemma_seq_assoc(a1, b1, t2);
        let a2 = a1 + b1;
        if ctx.flexible {
            assert(parse_uvarint(s, a2.len() as int) == Ok::<(u64, int), SerializationError>((0u64, a2.len() as int + b2.len()))) by {
                lemma_seq_assoc(a2, b2, t3);
                lemma_uvarint_roundtrip(a2, 0, t3);
            }
        }
    }

    /// The bytes written: the encoding of each field, in the order of the
    /// protocol's layout. Reading them back, wherever they stand, gives the value,
    /// with each field that the version leaves out at its default.
    #[verifier::spinoff_prover]
    pub proof fn lemma_body_layout(pre: Seq<u8>, m: AddPartitionsToTxnTopicModel, post: Seq<u8>, ctx: Ctx)
        requires
            Self::spec_encode_body(m, ctx) is Ok,
        ensures
            Self::spec_encode_body(m, ctx) == Ok::<Seq<u8>, SerializationError>(((string_bytes(m.name, ctx.flexible))->Ok_0) + ((array_bytes::<i32>(m.partitions, Ctx { version: ctx.version, flexible: ctx.flexible, classic: false }))->Ok_0) + (if ctx.flexible { uvarint_bytes(0) } else { Seq::<u8>::empty() })),
            Self::reads_back_body(m, ctx) ==> Self::spec_decode_body(pre + (((string_bytes(m.name, ctx.flexible))->Ok_0) + ((array_bytes::<i32>(m.partitions, Ctx { version: ctx.version, flexible: ctx.flexible, classic: false }))->Ok_0) + (if ctx.flexible { uvarint_bytes(0) } else { Seq::<u8>::empty() })) + post, pre.len() as int, ctx) == Ok::<(AddPartitionsToTxnTopicModel, int), SerializationError>((m, pre.len() as int + (((string_bytes(m.name, ctx.flexible))->Ok_0) + ((array_bytes::<i32>(m.partitions, Ctx { version: ctx.version, flexible: ctx.flexible, classic: false }))->Ok_0) + (if ctx.flexible { uvarint_bytes(0) } else { Seq::<u8>::empty() })).len())),
    {
        let b0 = (string_bytes(m.name, ctx.flexible))->Ok_0;
        let b1 = (array_bytes::<i32>(m.partitions, Ctx { version: ctx.version, flexible: ctx.flexible, classic: false }))->Ok_0;
        let b2 = if ctx.flexible { uvarint_bytes(0) } else { Seq::<u8>::empty() };
        let e = Self::spec_encode_body(m, ctx)->Ok_0;
        assert(e =~= Seq::<u8>::empty() + b0 + b1 + b2);
        assert(e =~= b0 + b1 + b2);
        if Self::reads_back_body(m, ctx) {
            Self::lemma_body_read_back(pre, m, post, ctx);
        }
    }

    /// Writing succeeds exactly when every field that the version carries can be
    /// encoded and every field that it leaves out, where leaving it out is an
    /// error, holds its default.
    #[verifier::spinoff_prover]
    pub proof fn lemma_body_write_succeeds(m: AddPartitionsToTxnTopicModel, ctx: Ctx)
        ensures
            Self::spec_encode_body(m, ctx) is Ok <==> (string_bytes(m.name, ctx.flexible) is Ok) && (array_bytes::<i32>(m.partitions, Ctx { version: ctx.version, flexible: ctx.flexible, classic: false }) is Ok),
    {
    }

    /// Writes the structure for `version`, with the compact encodings when `is_flexible`.
    /// On failure the buffer is left as it was.
    pub fn encode(&self, buf: &mut Vec<u8>, version: ApiVersion, is_flexible: bool) -> (r: Result<(), SerializationError>)
        ensures
            write_exact(r, old(buf)@, final(buf)@, Self::spec_encode_body(self.deep_view(), Ctx { version: version.0, flexible: is_flexible, classic: false })),
    {
        let start = buf.len();
        let r = self.encode_ctx(buf, Ctx::new(version, is_flexible));
        if r.is_err() {
            buf.truncate(start);
        }
        r
    }

    /// Reads the structure as written for `version`.
    /// On failure the reader is put back where it started.
    pub fn decode(buf: &mut Reader, version: ApiVersion, is_flexible: bool) -> (r: Result<Self, SerializationError>)
        ensures
            final(buf).bytes() == old(buf).bytes(),
            read_view_exact(r, Self::spec_decode_body(old(buf).bytes(), old(buf).pos(), Ctx { version: version.0, flexible: is_flexible, classic: false }), old(buf).pos(), final(buf).pos()),
    {
        let start = buf.position();
        let r = Self::decode_ctx(buf, Ctx::new(version, is_flexible));
        if r.is_err() {
            buf.set_position(start);
        }
        r
    }
}

impl KafkaCodec for AddPartitionsToTxnTopic {
    open spec fn spec_encode(m: AddPartitionsToTxnTopicModel, ctx: Ctx) -> Result<Seq<u8>, SerializationError> {
        Self::spec_encode_body(m, ctx)
    }

    open spec fn spec_decode(s: Seq<u8>, pos: int, ctx: Ctx) -> Result<(AddPartitionsToTxnTopicModel, int), SerializationError> {
        Self::spec_decode_body(s, pos, ctx)
    }

    open spec fn reads_back(v: AddPartitionsToTxnTopicModel, ctx: Ctx) -> bool {
        Self::reads_back_body(v, ctx)
    }

    proof fn lemma_read_back(pre: Seq<u8>, v: AddPartitionsToTxnTopicModel, post: Seq<u8>, ctx: Ctx) {
        Self::lemma_body_read_back(pre, v, post, ctx);
        assert(Self::spec_decode(pre + Self::spec_encode(v, ctx)->Ok_0 + post, pre.len() as int, ctx)
            == Self::spec_decode_body(pre + Self::spec_encode_body(v, ctx)->Ok_0 + post, pre.len() as int, ctx));
    }

    fn encode_ctx(&self, buf: &mut Vec<u8>, ctx: Ctx) -> (r: Result<(), SerializationError>) {
        let ghost mut w: Seq<u8> = Seq::empty();
        encode_string(&self.name, buf, ctx.flexible)?;
        proof {
            w = w + (string_bytes(self.name.deep_view(), ctx.flexible))->Ok_0;
        }
        assert(buf@ =~= old(buf)@ + w);
        encode_array(&self.partitions, buf, Ctx { version: ctx.version, flexible: ctx.flexible, classic: false })?;
        proof {
            w = w + (array_bytes::<i32>(self.partitions.deep_view(), Ctx { version: ctx.version, flexible: ctx.flexible, classic: false }))->Ok_0;
        }
        assert(buf@ =~= old(buf)@ + w);
        if ctx.flexible {
            encode_unsigned_varint(0, buf);
            proof {
                w = w + uvarint_bytes(0);
            }
            assert(buf@ =~= old(buf)@ + w);
        }
        Ok(())
    }

    fn decode_ctx(buf: &mut Reader, ctx: Ctx) -> (r: Result<Self, SerializationError>) {
        let name = buf.get_string(ctx.flexible)?;
        let partitions = decode_array::<i32>(buf, Ctx { version: ctx.version, flexible: ctx.flexible, classic: false })?;
        if ctx.flexible {
            let (_tag_count, _) = decode_unsigned_varint(buf)?;
        }
        Ok(AddPartitionsToTxnTopic { name, partitions })
    }
}

// -------------------------------------------------------
// AddPartitionsToTxnTransaction
// -------------------------------------------------------
#[derive(Clone, Debug, Default, PartialEq)]
pub struct AddPartitionsToTxnTransaction {
    /// The transactional id corresponding to the transaction.
    /// Available in version 4+.
    pub transactional_id: String,
    /// Current producer id in use by the transactional id.
    /// Available in version 4+.
    pub producer_id: i64,
    /// Current epoch associated with the producer id.
    /// Available in version 4+.
    pub producer_epoch: i16,
    /// Boolean to signify if we want to check if the partition is in the transaction rather than add it.
    /// Available in version 4+.
    pub verify_only: bool,
    /// The partitions to add to the transaction.
    /// Available in version 4+.
    pub topics: Vec<AddPartitionsToTxnTopic>,
}

/// The contents of `AddPartitionsToTxnTransaction`, with strings as characters and
/// nested values by their contents.
pub struct AddPartitionsToTxnTransactionModel {
    pub transactional_id: Seq<char>,
    pub producer_id: i64,
    pub producer_epoch: i16,
    pub verify_only: bool,
    pub topics: Seq<<AddPartitionsToTxnTopic as DeepView>::V>,
}

impl DeepView for AddPartitionsToTxnTransaction {
    type V = AddPartitionsToTxnTransactionModel;

    open spec fn deep_view(&self) -> AddPartitionsToTxnTransactionModel {
        AddPartitionsToTxnTransactionModel {
            transactional_id: self.transactional_id.deep_view(),
            producer_id: self.producer_id,
            producer_epoch: self.producer_epoch,
            verify_only: self.verify_only,
            topics: self.topics.deep_view(),
        }
    }
}

impl AddPartitionsToTxnTransaction {
    /// The encoding of the structure in context `ctx`.
    pub open spec fn spec_encode_body(m: AddPartitionsToTxnTransactionModel, ctx: Ctx) -> Result<Seq<u8>, SerializationError> {
        let r = Ok(Seq::<u8>::empty());
        let r = if 4 <= ctx.version { then(r, string_bytes(m.transactional_id, ctx.flexible)) } else { r };
        let r = if 4 <= ctx.version { then(r, Ok(i64_bytes(m.producer_id))) } else { r };
        let r = if 4 <= ctx.version { then(r, Ok(i16_bytes(m.producer_epoch))) } else { r };
        let r = if 4 <= ctx.version { then(r, Ok(bool_bytes(m.verify_only))) } else { r };
        let r = if 4 <= ctx.version { then(r, array_bytes::<AddPartitionsToTxnTopic>(m.topics, Ctx { version: ctx.version, flexible: ctx.flexible, classic: false })) } else { r };
        let r = if ctx.flexible { then(r, Ok(uvarint_bytes(0))) } else { r };
        r
    }

    /// The structure read from `s` at `pos` in context `ctx`.
    pub open spec fn spec_decode_body(s: Seq<u8>, pos: int, ctx: Ctx) -> Result<(AddPartitionsToTxnTransactionModel, int), SerializationError> {
        match (if 4 <= ctx.version { parse_string(s, pos, ctx.flexible) } else { Ok((Seq::<char>::empty(), pos)) }) {
            Err(e) => Err(e),
            Ok((transactional_id, pos)) =>
            match (if 4 <= ctx.version { parse_i64(s, pos) } else { Ok((0i64, pos)) }) {
                Err(e) => Err(e),
                Ok((producer_id, pos)) =>
                match (if 4 <= ctx.version { parse_i16(s, pos) } else { Ok((0i16, pos)) }) {
                    Err(e) => Err(e),
                    Ok((producer_epoch, pos)) =>
                    match (if 4 <= ctx.version { parse_bool(s, pos) } else { Ok((false, pos)) }) {
                        Err(e) => Err(e),
                        Ok((verify_only, pos)) =>
                        match (if 4 <= ctx.version { parse_array::<AddPartitionsToTxnTopic>(s, pos, Ctx { version: ctx.version, flexible: ctx.flexible, classic: false }) } else { Ok((Seq::<<AddPartitionsToTxnTopic as DeepView>::V>::empty(), pos)) }) {
                            Err(e) => Err(e),
                            Ok((topics, pos)) =>
                            match (if ctx.flexible { parse_uvarint(s, pos) } else { Ok((0u64, pos)) }) {
                                Err(e) => Err(e),
                                Ok((_tag_count, pos)) =>
                                Ok((AddPartitionsToTxnTransactionModel { transactional_id, producer_id, producer_epoch, verify_only, topics }, pos))
                            }
                        }
                    }
                }
            }
        }
    }

    /// The structure as it reads back in context `ctx`: each field that the
    /// version leaves out is at its default.
    #[verifier::opaque]
    pub open spec fn spec_read_as(m: AddPartitionsToTxnTransactionModel, ctx: Ctx) -> AddPartitionsToTxnTransactionModel {
        AddPartitionsToTxnTransactionModel { transactional_id: if 4 <= ctx.version { m.transactional_id } else { Seq::<char>::empty() }, producer_id: if 4 <= ctx.version { m.producer_id } else { 0i64 }, producer_epoch: if 4 <= ctx.version { m.producer_epoch } else { 0i16 }, verify_only: if 4 <= ctx.version { m.verify_only } else { false }, topics: if 4 <= ctx.version { m.topics } else { Seq::<<AddPartitionsToTxnTopic as DeepView>::V>::empty() } }
    }

    /// Values that read back in context `ctx`: nested values read back. A field
    /// that the version leaves out is read as its default.
    pub open spec fn reads_back_body(m: AddPartitionsToTxnTransactionModel, ctx: Ctx) -> bool {
        &&& (4 <= ctx.version) ==> forall|i: int| 0 <= i < m.topics.len() ==> #[trigger] <AddPartitionsToTxnTopic as KafkaCodec>::reads_back(m.topics[i], Ctx { version: ctx.version, flexible: ctx.flexible, classic: false })
    }

    /// A value that can be written in context `ctx` and reads back: decoding its
    /// encoding, wherever it stands, gives the value as `spec_read_as` gives it and
    /// the position just after it.
    #[verifier::spinoff_prover]
    pub proof fn lemma_body_read_back(pre: Seq<u8>, m: AddPartitionsToTxnTransactionModel, post: Seq<u8>, ctx: Ctx)
        requires
            Self::spec_encode_body(m, ctx) is Ok,
            Self::reads_back_body(m, ctx),
        ensures
            Self::spec_decode_body(pre + Self::spec_encode_body(m, ctx)->Ok_0 + post, pre.len() as int, ctx) == Ok::<(AddPartitionsToTxnTransactionModel, int), SerializationError>((Self::spec_read_as(m, ctx), pre.len() as int + Self::spec_encode_body(m, ctx)->Ok_0.len())),
    {
        reveal(AddPartitionsToTxnTransaction::spec_read_as);
        let b0 = if 4 <= ctx.version { (string_bytes(m.transactional_id, ctx.flexible))->Ok_0 } else { Seq::<u8>::empty() };
        let b1 = if 4 <= ctx.version { i64_bytes(m.producer_id) } else { Seq::<u8>::empty() };
        let b2 = if 4 <= ctx.version { i16_bytes(m.producer_epoch) } else { Seq::<u8>::empty() };
        let b3 = if 4 <= ctx.version { bool_bytes(m.verify_only) } else { Seq::<u8>::empty() };
        let b4 = if 4 <= ctx.version { (array_bytes::<AddPartitionsToTxnTopic>(m.topics, Ctx { version: ctx.version, flexible: ctx.flexible, classic: false }))->Ok_0 } else { Seq::<u8>::empty() };
        let b5 = if ctx.flexible { uvarint_bytes(0) } else { Seq::<u8>::empty() };
        let t6 = post;
        let t5 = b5 + t6;
        let t4 = b4 + t5;
        let t3 = b3 + t4;
        let t2 = b2 + t3;
        let t1 = b1 + t2;
        let t0 = b0 + t1;
        let e = Self::spec_encode_body(m, ctx)->Ok_0;
        assert(e =~= Seq::<u8>::empty() + b0 + b1 + b2 + b3 + b4 + b5);
        lemma_seq_assoc((((((Seq::<u8>::empty() + b0) + b1) + b2) + b3) + b4), b5, post);
        lemma_seq_assoc(((((Seq::<u8>::empty() + b0) + b1) + b2) + b3), b4, (b5 + post));
        lemma_seq_assoc((((Seq::<u8>::empty() + b0) + b1) + b2), b3, (b4 + (b5 + post)));
        lemma_seq_assoc(((Seq::<u8>::empty() + b0) + b1), b2, (b3 + (b4 + (b5 + post))));
        lemma_seq_assoc((Seq::<u8>::empty() + b0), b1, (b2 + (b3 + (b4 + (b5 + post)))));
        lemma_seq_assoc(Seq::<u8>::empty(), b0, (b1 + (b2 + (b3 + (b4 + (b5 + post))))));
        lemma_seq_empty_left((b0 + (b1 + (b2 + (b3 + (b4 + (b5 + post)))))));
        let s = pre + e + post;
        lemma_seq_assoc(pre, e, post);
        assert(s == pre + t0);
        let a0 = pre;
        if 4 <= ctx.version {
            assert(parse_string(s, a0.len() as int, ctx.flexible) == Ok::<(Seq<char>, int), SerializationError>((m.transactional_id, a0.len() as int + b0.len()))) by {
                assert(string_bytes(m.transactional_id, ctx.flexible) is Ok);
                lemma_seq_assoc(a0, b0, t1);
                lemma_string_roundtrip(a0, m.transactional_id, t1, ctx.flexible);
            }
        }
        lemma_seq_assoc(a0, b0, t1);
        let a1 = a0 + b0;
        if 4 <= ctx.version {
            assert(parse_i64(s, a1.len() as int) == Ok::<(i64, int), SerializationError>((m.producer_id, a1.len() as int + b1.len()))) by {
                lemma_seq_assoc(a1, b1, t2);
                lemma_i64_roundtrip(a1, m.producer_id, t2);
            }
        }
        lemma_seq_assoc(a1, b1, t2);
        let a2 = a1 + b1;
        if 4 <= ctx.version {
            assert(parse_i16(s, a2.len() as int) == Ok::<(i16, int), SerializationError>((m.producer_epoch, a2.len() as int + b2.len()))) by {
                lemma_seq_assoc(a2, b2, t3);
                lemma_i16_roundtrip(a2, m.producer_epoch, t3);
            }
        }
        lemma_seq_assoc(a2, b2, t3);
        let a3 = a2 + b2;
        if 4 <= ctx.version {
            assert(parse_bool(s, a3.len() as int) == Ok::<(bool, int), SerializationError>((m.verify_only, a3.len() as int + b3.len()))) by {
                lemma_seq_assoc(a3, b3, t4);
                lemma_bool_roundtrip(a3, m.verify_only, t4);
            }
        }
        lemma_seq_assoc(a3, b3, t4);
        let a4 = a3 + b3;
        if 4 <= ctx.version {
            assert(parse_array::<AddPartitionsToTxnTopic>(s, a4.len() as int, Ctx { version: ctx.version, flexible: ctx.flexible, classic: false }) == Ok::<(Seq<<AddPartitionsToTxnTopic as DeepView>::V>, int), SerializationError>((m.topics, a4.len() as int + b4.len()))) by {
                assert(array_bytes::<AddPartitionsToTxnTopic>(m.topics, Ctx { version: ctx.version, flexible: ctx.flexible, classic: false }) is Ok);
                lemma_seq_assoc(a4, b4, t5);
                lemma_items_read_back::<AddPartitionsToTxnTopic>(m.topics, Ctx { version: ctx.version, flexible: ctx.flexible, classic: false });
                lemma_array_roundtrip::<AddPartitionsToTxnTopic>(a4, m.topics, t5, Ctx { version: ctx.version, flexible: ctx.flexible, classic: false });
            }
        }
        lemma_seq_assoc(a4, b4, t5);
        let a5 = a4 + b4;
        if ctx.flexible {
            assert(parse_uvarint(s, a5.len() as int) == Ok::<(u64, int), SerializationError>((0u64, a5.len() as int + b5.len()))) by {
                lemma_seq_assoc(a5, b5, t6);
                lemma_uvarint_roundtrip(a5, 0, t6);
            }
        }
    }

    /// The bytes written: the encoding of each field, in the order of the
    /// protocol's layout. Reading them back, wherever they stand, gives the value,
    /// with each field that the version leaves out at its default.
    #[verifier::spinoff_prover]
    pub proof fn lemma_body_layout(pre: Seq<u8>, m: AddPartitionsToTxnTransactionModel, post: Seq<u8>, ctx: Ctx)
        requires
            Self::spec_encode_body(m, ctx) is Ok,
        ensures
            Self::spec_encode_body(m, ctx) == Ok::<Seq<u8>, SerializationError>((if 4 <= ctx.version { (string_bytes(m.transactional_id, ctx.flexible))->Ok_0 } else { Seq::<u8>::empty() }) + (if 4 <= ctx.version { i64_bytes(m.producer_id) } else { Seq::<u8>::empty() }) + (if 4 <= ctx.version { i16_bytes(m.producer_epoch) } else { Seq::<u8>::empty() }) + (if 4 <= ctx.version { bool_bytes(m.verify_only) } else { Seq::<u8>::empty() }) + (if 4 <= ctx.version { (array_bytes::<AddPartitionsToTxnTopic>(m.topics, Ctx { version: ctx.version, flexible: ctx.flexible, classic: false }))->Ok_0 } else { Seq::<u8>::empty() }) + (if ctx.flexible { uvarint_bytes(0) } else { Seq::<u8>::empty() })),
            Self::reads_back_body(m, ctx) ==> Self::spec_decode_body(pre + ((if 4 <= ctx.version { (string_bytes(m.transactional_id, ctx.flexible))->Ok_0 } else { Seq::<u8>::empty() }) + (if 4 <= ctx.version { i64_bytes(m.producer_id) } else { Seq::<u8>::empty() }) + (if 4 <= ctx.version { i16_bytes(m.producer_epoch) } else { Seq::<u8>::empty() }) + (if 4 <= ctx.version { bool_bytes(m.verify_only) } else { Seq::<u8>::empty() }) + (if 4 <= ctx.version { (array_bytes::<AddPartitionsToTxnTopic>(m.topics, Ctx { version: ctx.version, flexible: ctx.flexible, classic: false }))->Ok_0 } else { Seq::<u8>::empty() }) + (if ctx.flexible { uvarint_bytes(0) } else { Seq::<u8>::empty() })) + post, pre.len() as int, ctx) == Ok::<(AddPartitionsToTxnTransactionModel, int), SerializationError>((AddPartitionsToTxnTransactionModel { transactional_id: if 4 <= ctx.version { m.transactional_id } else { Seq::<char>::empty() }, producer_id: if 4 <= ctx.version { m.producer_id } else { 0i64 }, producer_epoch: if 4 <= ctx.version { m.producer_epoch } else { 0i16 }, verify_only: if 4 <= ctx.version { m.verify_only } else { false }, topics: if 4 <= ctx.version { m.topics } else { Seq::<<AddPartitionsToTxnTopic as DeepView>::V>::empty() } }, pre.len() as int + ((if 4 <= ctx.version { (string_bytes(m.transactional_id, ctx.flexible))->Ok_0 } else { Seq::<u8>::empty() }) + (if 4 <= ctx.version { i64_bytes(m.producer_id) } else { Seq::<u8>::empty() }) + (if 4 <= ctx.version { i16_bytes(m.producer_epoch) } else { Seq::<u8>::empty() }) + (if 4 <= ctx.version { bool_bytes(m.verify_only) } else { Seq::<u8>::empty() }) + (if 4 <= ctx.version { (array_bytes::<AddPartitionsToTxnTopic>(m.topics, Ctx { version: ctx.version, flexible: ctx.flexible, classic: false }))->Ok_0 } else { Seq::<u8>::empty() }) + (if ctx.flexible { uvarint_bytes(0) } else { Seq::<u8>::empty() })).len())),
    {
        let b0 = if 4 <= ctx.version { (string_bytes(m.transactional_id, ctx.flexible))->Ok_0 } else { Seq::<u8>::empty() };
        let b1 = if 4 <= ctx.version { i64_bytes(m.producer_id) } else { Seq::<u8>::empty() };
        let b2 = if 4 <= ctx.version { i16_bytes(m.producer_epoch) } else { Seq::<u8>::empty() };
        let b3 = if 4 <= ctx.version { bool_bytes(m.verify_only) } else { Seq::<u8>::empty() };
        let b4 = if 4 <= ctx.version { (array_bytes::<AddPartitionsToTxnTopic>(m.topics, Ctx { version: ctx.version, flexible: ctx.flexible, classic: false }))->Ok_0 } else { Seq::<u8>::empty() };
        let b5 = if ctx.flexible { uvarint_bytes(0) } else { Seq::<u8>::empty() };
        let e = Self::spec_encode_body(m, ctx)->Ok_0;
        assert(e =~= Seq::<u8>::empty() + b0 + b1 + b2 + b3 + b4 + b5);
        assert(e =~= b0 + b1 + b2 + b3 + b4 + b5);
        if Self::reads_back_body(m, ctx) {
            Self::lemma_body_read_back(pre, m, post, ctx);
            reveal(AddPartitionsToTxnTransaction::spec_read_as);
        }
    }

    /// Writing succeeds exactly when every field that the version carries can be
    /// encoded and every field that it leaves out, where leaving it out is an
    /// error, holds its default.
    #[verifier::spinoff_prover]
    pub proof fn lemma_body_write_succeeds(m: AddPartitionsToTxnTransactionModel, ctx: Ctx)
        ensures
            Self::spec_encode_body(m, ctx) is Ok <==> ((4 <= ctx.version) ==> string_bytes(m.transactional_id, ctx.flexible) is Ok) && ((4 <= ctx.version) ==> array_bytes::<AddPartitionsToTxnTopic>(m.topics, Ctx { version: ctx.version, flexible: ctx.flexible, classic: false }) is Ok),
    {
    }

    /// Writes the structure for `version`, with the compact encodings when `is_flexible`.
    /// On failure the buffer is left as it was.
    pub fn encode(&self, buf: &mut Vec<u8>, version: ApiVersion, is_flexible: bool) -> (r: Result<(), SerializationError>)
        ensures
            write_exact(r, old(buf)@, final(buf)@, Self::spec_encode_body(self.deep_view(), Ctx { version: version.0, flexible: is_flexible, classic: false })),
    {
        let start = buf.len();
        let r = self.encode_ctx(buf, Ctx::new(version, is_flexible));
        if r.is_err() {
            buf.truncate(start);
        }
        r
    }

    /// Reads the structure as written for `version`.
    /// On failure the reader is put back where it started.
    pub fn decode(buf: &mut Reader, version: ApiVersion, is_flexible: bool) -> (r: Result<Self, SerializationError>)
        ensures
            final(buf).bytes() == old(buf).bytes(),
            read_view_exact(r, Self::spec_decode_body(old(buf).bytes(), old(buf).pos(), Ctx { version: version.0, flexible: is_flexible, classic: false }), old(buf).pos(), final(buf).pos()),
    {
        let start = buf.position();
        let r = Self::decode_ctx(buf, Ctx::new(version, is_flexible));
        if r.is_err() {
            buf.set_position(start);
        }
        r
    }
}

impl KafkaCodec for AddPartitionsToTxnTransaction {
    open spec fn spec_encode(m: AddPartitionsToTxnTransactionModel, ctx: Ctx) -> Result<Seq<u8>, SerializationError> {
        Self::spec_encode_body(m, ctx)
    }

    open spec fn spec_decode(s: Seq<u8>, pos: int, ctx: Ctx) -> Result<(AddPartitionsToTxnTransactionModel, int), SerializationError> {
        Self::spec_decode_body(s, pos, ctx)
    }

    open spec fn reads_back(v: AddPartitionsToTxnTransactionModel, ctx: Ctx) -> bool {
        Self::reads_back_body(v, ctx) && Self::spec_read_as(v, ctx) == v
    }

    proof fn lemma_read_back(pre: Seq<u8>, v: AddPartitionsToTxnTransactionModel, post: Seq<u8>, ctx: Ctx) {
        Self::lemma_body_read_back(pre, v, post, ctx);
        assert(Self::spec_decode(pre + Self::spec_encode(v, ctx)->Ok_0 + post, pre.len() as int, ctx)
            == Self::spec_decode_body(pre + Self::spec_encode_body(v, ctx)->Ok_0 + post, pre.len() as int, ctx));
    }

    fn encode_ctx(&self, buf: &mut Vec<u8>, ctx: Ctx) -> (r: Result<(), SerializationError>) {
        let ghost mut w: Seq<u8> = Seq::empty();
        if 4 <= ctx.version {
            encode_string(&self.transactional_id, buf, ctx.flexible)?;
            proof {
                w = w + (string_bytes(self.transactional_id.deep_view(), ctx.flexible))->Ok_0;
            }
            assert(buf@ =~= old(buf)@ + w);
        }
        if 4 <= ctx.version {
            put_i64(buf, self.producer_id);
            proof {
                w = w + i64_bytes(self.producer_id);
            }
            assert(buf@ =~= old(buf)@ + w);
        }
        if 4 <= ctx.version {
            put_i16(buf, self.producer_epoch);
            proof {
                w = w + i16_bytes(self.producer_epoch);
            }
            assert(buf@ =~= old(buf)@ + w);
        }
        if 4 <= ctx.version {
            put_bool(buf, self.verify_only);
            proof {
                w = w + bool_bytes(self.verify_only);
            }
            assert(buf@ =~= old(buf)@ + w);
        }
        if 4 <= ctx.version {
            encode_array(&self.topics, buf, Ctx { version: ctx.version, flexible: ctx.flexible, classic: false })?;
            proof {
                w = w + (array_bytes::<AddPartitionsToTxnTopic>(self.topics.deep_view(), Ctx { version: ctx.version, flexible: ctx.flexible, classic: false }))->Ok_0;
            }
            assert(buf@ =~= old(buf)@ + w);
        }
        if ctx.flexible {
            encode_unsigned_varint(0, buf);
            proof {
                w = w + uvarint_bytes(0);
            }
            assert(buf@ =~= old(buf)@ + w);
        }
        Ok(())
    }

    fn decode_ctx(buf: &mut Reader, ctx: Ctx) -> (r: Result<Self, SerializationError>) {
        let transactional_id = if 4 <= ctx.version {
            buf.get_string(ctx.flexible)?
        } else {
            String::new()
        };
        let producer_id = if 4 <= ctx.version {
            buf.get_i64()?
        } else {
            0i64
        };
        let producer_epoch = if 4 <= ctx.version {
            buf.get_i16()?
        } else {
            0i16
        };
        let verify_only = if 4 <= ctx.version {
            buf.get_bool()?
        } else {
            false
        };
        let topics = if 4 <= ctx.version {
            decode_array::<AddPartitionsToTxnTopic>(buf, Ctx { version: ctx.version, flexible: ctx.flexible, classic: false })?
        } else {
            new_array::<AddPartitionsToTxnTopic>()
        };
        if ctx.flexible {
            let (_tag_count, _) = decode_unsigned_varint(buf)?;
        }
        Ok(AddPartitionsToTxnTransaction { transactional_id, producer_id, producer_epoch, verify_only, topics })
    }
}

} // verus!
