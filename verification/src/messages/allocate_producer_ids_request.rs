//! AllocateProducerIdsRequest (API key 67).
use vstd::prelude::*;
use crate::roundtrip::{lemma_i32_roundtrip, lemma_i64_roundtrip, lemma_seq_assoc,
    lemma_seq_empty_left, lemma_uvarint_roundtrip};
use crate::serialization::{Ctx, KafkaCodec, Reader, SerializationError, decode_unsigned_varint,
    encode_unsigned_varint, i32_bytes, i64_bytes, map_decode_err, map_encode_err, parse_i32,
    parse_i64, parse_uvarint, put_i32, put_i64, read_view_exact, read_view_ok, then,
    uvarint_bytes, write_exact, write_ok};
use crate::{ApiKey, ApiVersion};

verus! {

// -------------------------------------------------------
// AllocateProducerIdsRequest
// -------------------------------------------------------
#[derive(Clone, Debug, Default, PartialEq)]
pub struct AllocateProducerIdsRequest {
    /// The ID of the requesting broker.
    pub broker_id: i32,
    /// The epoch of the requesting broker.
    pub broker_epoch: i64,
}

/// The contents of `AllocateProducerIdsRequest`, with strings as characters and
/// nested values by their contents.
pub struct AllocateProducerIdsRequestModel {
    pub broker_id: i32,
    pub broker_epoch: i64,
}

impl DeepView for AllocateProducerIdsRequest {
    type V = AllocateProducerIdsRequestModel;

    open spec fn deep_view(&self) -> AllocateProducerIdsRequestModel {
        AllocateProducerIdsRequestModel {
            broker_id: self.broker_id,
            broker_epoch: self.broker_epoch,
        }
    }
}

impl AllocateProducerIdsRequest {
    /// The classic encoding of the structure.
    pub open spec fn spec_encode_classic(m: AllocateProducerIdsRequestModel) -> Result<Seq<u8>, SerializationError> {
        let r = Ok(Seq::<u8>::empty());
        let r = then(r, map_encode_err(Ok(i32_bytes(m.broker_id)), SerializationError::ValueTooLarge { message: "failed to encode BrokerId" }));
        let r = then(r, map_encode_err(Ok(i64_bytes(m.broker_epoch)), SerializationError::ValueTooLarge { message: "failed to encode BrokerEpoch" }));
        r
    }

    /// The flexible-aware encoding of the structure.
    pub open spec fn spec_encode_flexible(m: AllocateProducerIdsRequestModel, is_flexible: bool) -> Result<Seq<u8>, SerializationError> {
        let r = Ok(Seq::<u8>::empty());
        let r = then(r, map_encode_err(Ok(i32_bytes(m.broker_id)), SerializationError::ValueTooLarge { message: "failed to encode BrokerId" }));
        let r = then(r, map_encode_err(Ok(i64_bytes(m.broker_epoch)), SerializationError::ValueTooLarge { message: "failed to encode BrokerEpoch" }));
        let r = if is_flexible { then(r, Ok(uvarint_bytes(0))) } else { r };
        r
    }

    /// The structure read by the classic decoder.
    pub open spec fn spec_decode_classic(s: Seq<u8>, pos: int) -> Result<(AllocateProducerIdsRequestModel, int), SerializationError> {
        match map_decode_err(parse_i32(s, pos), SerializationError::Protocol { message: "failed to decode BrokerId" }) {
            Err(e) => Err(e),
            Ok((broker_id, pos)) =>
            match map_decode_err(parse_i64(s, pos), SerializationError::Protocol { message: "failed to decode BrokerEpoch" }) {
                Err(e) => Err(e),
                Ok((broker_epoch, pos)) =>
                Ok((AllocateProducerIdsRequestModel { broker_id, broker_epoch }, pos))
            }
        }
    }

    /// The structure read by the flexible-aware decoder.
    pub open spec fn spec_decode_flexible(s: Seq<u8>, pos: int, is_flexible: bool) -> Result<(AllocateProducerIdsRequestModel, int), SerializationError> {
        match map_decode_err(parse_i32(s, pos), SerializationError::Protocol { message: "failed to decode BrokerId" }) {
            Err(e) => Err(e),
            Ok((broker_id, pos)) =>
            match map_decode_err(parse_i64(s, pos), SerializationError::Protocol { message: "failed to decode BrokerEpoch" }) {
                Err(e) => Err(e),
                Ok((broker_epoch, pos)) =>
                match (if is_flexible { parse_uvarint(s, pos) } else { Ok((0u64, pos)) }) {
                    Err(e) => Err(e),
                    Ok((_tag_count, pos)) =>
                    Ok((AllocateProducerIdsRequestModel { broker_id, broker_epoch }, pos))
                }
            }
        }
    }

    /// Values of the structure that read back from their classic encoding:
    /// nested values read back.
    pub open spec fn reads_back_classic(m: AllocateProducerIdsRequestModel) -> bool {
        true
    }

    /// A value that can be written and reads back: decoding its encoding, wherever
    /// it stands, gives the value and the position just after it.
    #[verifier::spinoff_prover]
    pub proof fn lemma_classic_read_back(pre: Seq<u8>, m: AllocateProducerIdsRequestModel, post: Seq<u8>)
        requires
            Self::spec_encode_classic(m) is Ok,
            Self::reads_back_classic(m),
        ensures
            Self::spec_decode_classic(pre + Self::spec_encode_classic(m)->Ok_0 + post, pre.len() as int) == Ok::<(AllocateProducerIdsRequestModel, int), SerializationError>((m, pre.len() as int + Self::spec_encode_classic(m)->Ok_0.len())),
    {
        let b0 = i32_bytes(m.broker_id);
        let b1 = i64_bytes(m.broker_epoch);
        let t2 = post;
        let t1 = b1 + t2;
        let t0 = b0 + t1;
        let e = Self::spec_encode_classic(m)->Ok_0;
        assert(e =~= Seq::<u8>::empty() + b0 + b1);
        lemma_seq_assoc((Seq::<u8>::empty() + b0), b1, post);
        lemma_seq_assoc(Seq::<u8>::empty(), b0, (b1 + post));
        lemma_seq_empty_left((b0 + (b1 + post)));
        let s = pre + e + post;
        lemma_seq_assoc(pre, e, post);
        assert(s == pre + t0);
        let a0 = pre;
        assert(parse_i32(s, a0.len() as int) == Ok::<(i32, int), SerializationError>((m.broker_id, a0.len() as int + b0.len()))) by {
            lemma_seq_assoc(a0, b0, t1);
            lemma_i32_roundtrip(a0, m.broker_id, t1);
        }
        lemma_seq_assoc(a0, b0, t1);
        let a1 = a0 + b0;
        assert(parse_i64(s, a1.len() as int) == Ok::<(i64, int), SerializationError>((m.broker_epoch, a1.len() as int + b1.len()))) by {
            lemma_seq_assoc(a1, b1, t2);
            lemma_i64_roundtrip(a1, m.broker_epoch, t2);
        }
    }

    /// The bytes written: the encoding of each field, in the order of the
    /// protocol's layout. Reading them back, wherever they stand, gives the value,
    /// with each field that the version leaves out at its default.
    #[verifier::spinoff_prover]
    pub proof fn lemma_classic_layout(pre: Seq<u8>, m: AllocateProducerIdsRequestModel, post: Seq<u8>)
        requires
            Self::spec_encode_classic(m) is Ok,
        ensures
            Self::spec_encode_classic(m) == Ok::<Seq<u8>, SerializationError>((i32_bytes(m.broker_id)) + (i64_bytes(m.broker_epoch))),
            Self::reads_back_classic(m) ==> Self::spec_decode_classic(pre + ((i32_bytes(m.broker_id)) + (i64_bytes(m.broker_epoch))) + post, pre.len() as int) == Ok::<(AllocateProducerIdsRequestModel, int), SerializationError>((m, pre.len() as int + ((i32_bytes(m.broker_id)) + (i64_bytes(m.broker_epoch))).len())),
    {
        let b0 = i32_bytes(m.broker_id);
        let b1 = i64_bytes(m.broker_epoch);
        let e = Self::spec_encode_classic(m)->Ok_0;
        assert(e =~= Seq::<u8>::empty() + b0 + b1);
        assert(e =~= b0 + b1);
        if Self::reads_back_classic(m) {
            Self::lemma_classic_read_back(pre, m, post);
        }
    }

    /// Writing succeeds exactly when every field that the version carries can be
    /// encoded and every field that it leaves out, where leaving it out is an
    /// error, holds its default.
    #[verifier::spinoff_prover]
    pub proof fn lemma_classic_write_succeeds(m: AllocateProducerIdsRequestModel)
        ensures
            Self::spec_encode_classic(m) is Ok <==> (map_encode_err(Ok(i32_bytes(m.broker_id)), SerializationError::ValueTooLarge { message: "failed to encode BrokerId" }) is Ok) && (map_encode_err(Ok(i64_bytes(m.broker_epoch)), SerializationError::ValueTooLarge { message: "failed to encode BrokerEpoch" }) is Ok),
    {
    }

    /// Values of the structure that read back from their flexible-aware encoding:
    /// nested values read back.
    pub open spec fn reads_back_flexible(m: AllocateProducerIdsRequestModel, is_flexible: bool) -> bool {
        true
    }

    /// A value that can be written and reads back: decoding its encoding, wherever
    /// it stands, gives the value and the position just after it.
    #[verifier::spinoff_prover]
    pub proof fn lemma_flexible_read_back(pre: Seq<u8>, m: AllocateProducerIdsRequestModel, post: Seq<u8>, is_flexible: bool)
        requires
            Self::spec_encode_flexible(m, is_flexible) is Ok,
            Self::reads_back_flexible(m, is_flexible),
        ensures
            Self::spec_decode_flexible(pre + Self::spec_encode_flexible(m, is_flexible)->Ok_0 + post, pre.len() as int, is_flexible) == Ok::<(AllocateProducerIdsRequestModel, int), SerializationError>((m, pre.len() as int + Self::spec_encode_flexible(m, is_flexible)->Ok_0.len())),
    {
        let b0 = i32_bytes(m.broker_id);
        let b1 = i64_bytes(m.broker_epoch);
        let b2 = if is_flexible { uvarint_bytes(0) } else { Seq::<u8>::empty() };
        let t3 = post;
        let t2 = b2 + t3;
        let t1 = b1 + t2;
        let t0 = b0 + t1;
        let e = Self::spec_encode_flexible(m, is_flexible)->Ok_0;
        assert(e =~= Seq::<u8>::empty() + b0 + b1 + b2);
        lemma_seq_assoc(((Seq::<u8>::empty() + b0) + b1), b2, post);
        lemma_seq_assoc((Seq::<u8>::empty() + b0), b1, (b2 + post));
        lemma_seq_assoc(Seq::<u8>::empty(), b0, (b1 + (b2 + post)));
        lemma_seq_empty_left((b0 + (b1 + (b2 + post))));
        let s = pre + e + post;
        lemma_seq_assoc(pre, e, post);
        assert(s == pre + t0);
        let a0 = pre;
        assert(parse_i32(s, a0.len() as int) == Ok::<(i32, int), SerializationError>((m.broker_id, a0.len() as int + b0.len()))) by {
            lemma_seq_assoc(a0, b0, t1);
            lemma_i32_roundtrip(a0, m.broker_id, t1);
        }
        lemma_seq_assoc(a0, b0, t1);
        let a1 = a0 + b0;
        assert(parse_i64(s, a1.len() as int) == Ok::<(i64, int), SerializationError>((m.broker_epoch, a1.len() as int + b1.len()))) by {
            lemma_seq_assoc(a1, b1, t2);
            lemma_i64_roundtrip(a1, m.broker_epoch, t2);
        }
        lemma_seq_assoc(a1, b1, t2);
        let a2 = a1 + b1;
        if is_flexible {
            assert(parse_uvarint(s, a2.len() as int) == Ok::<(u64, int), SerializationError>((0u64, a2.len() as int + b2.len()))) by {
                lemma_seq_assoc(a2, b2, t3);
                lemma_uvarint_roundtrip(a2, 0, t3);
            }
        }
    }

    /// The bytes written: the encoding of each field, in the order of the
    /// protocol's layout. Reading them back, wherever they stand, gives the value,
    /// with each field that the version leaves out at its default.
    #[verifier::spinoff_prover]
    pub proof fn lemma_flexible_layout(pre: Seq<u8>, m: AllocateProducerIdsRequestModel, post: Seq<u8>, is_flexible: bool)
        requires
            Self::spec_encode_flexible(m, is_flexible) is Ok,
        ensures
            Self::spec_encode_flexible(m, is_flexible) == Ok::<Seq<u8>, SerializationError>((i32_bytes(m.broker_id)) + (i64_bytes(m.broker_epoch)) + (if is_flexible { uvarint_bytes(0) } else { Seq::<u8>::empty() })),
            Self::reads_back_flexible(m, is_flexible) ==> Self::spec_decode_flexible(pre + ((i32_bytes(m.broker_id)) + (i64_bytes(m.broker_epoch)) + (if is_flexible { uvarint_bytes(0) } else { Seq::<u8>::empty() })) + post, pre.len() as int, is_flexible) == Ok::<(AllocateProducerIdsRequestModel, int), SerializationError>((m, pre.len() as int + ((i32_bytes(m.broker_id)) + (i64_bytes(m.broker_epoch)) + (if is_flexible { uvarint_bytes(0) } else { Seq::<u8>::empty() })).len())),
    {
        let b0 = i32_bytes(m.broker_id);
        let b1 = i64_bytes(m.broker_epoch);
        let b2 = if is_flexible { uvarint_bytes(0) } else { Seq::<u8>::empty() };
        let e = Self::spec_encode_flexible(m, is_flexible)->Ok_0;
        assert(e =~= Seq::<u8>::empty() + b0 + b1 + b2);
        assert(e =~= b0 + b1 + b2);
        if Self::reads_back_flexible(m, is_flexible) {
            Self::lemma_flexible_read_back(pre, m, post, is_flexible);
        }
    }

    /// Writing succeeds exactly when every field that the version carries can be
    /// encoded and every field that it leaves out, where leaving it out is an
    /// error, holds its default.
    #[verifier::spinoff_prover]
    pub proof fn lemma_flexible_write_succeeds(m: AllocateProducerIdsRequestModel, is_flexible: bool)
        ensures
            Self::spec_encode_flexible(m, is_flexible) is Ok <==> (map_encode_err(Ok(i32_bytes(m.broker_id)), SerializationError::ValueTooLarge { message: "failed to encode BrokerId" }) is Ok) && (map_encode_err(Ok(i64_bytes(m.broker_epoch)), SerializationError::ValueTooLarge { message: "failed to encode BrokerEpoch" }) is Ok),
    {
    }

    /// With the compact encodings off, the flexible-aware layout is the classic
    /// layout: both write the same bytes.
    pub proof fn lemma_flexible_off_writes_classic(m: AllocateProducerIdsRequestModel)
        ensures
            Self::spec_encode_flexible(m, false) == Self::spec_encode_classic(m),
    {
    }

    /// With the compact encodings off, the flexible-aware layout is the classic
    /// layout: both read the same bytes alike.
    pub proof fn lemma_flexible_off_reads_classic(s: Seq<u8>, pos: int)
        ensures
            Self::spec_decode_flexible(s, pos, false) == Self::spec_decode_classic(s, pos),
    {
    }

    /// Writes the structure in the classic layout.
    /// On failure the buffer is left as it was.
    pub fn encode(&self, buf: &mut Vec<u8>) -> (r: Result<(), SerializationError>)
        ensures
            write_exact(r, old(buf)@, final(buf)@, Self::spec_encode_classic(self.deep_view())),
    {
        let start = buf.len();
        let r = self.write_classic(buf);
        if r.is_err() {
            buf.truncate(start);
        }
        r
    }

    fn write_classic(&self, buf: &mut Vec<u8>) -> (r: Result<(), SerializationError>)
        ensures
            write_ok(r, old(buf)@, final(buf)@, Self::spec_encode_classic(self.deep_view())),
    {
        let ghost mut w: Seq<u8> = Seq::empty();
        put_i32(buf, self.broker_id);
        proof {
            w = w + (map_encode_err(Ok(i32_bytes(self.broker_id)), SerializationError::ValueTooLarge { message: "failed to encode BrokerId" }))->Ok_0;
        }
        assert(buf@ =~= old(buf)@ + w);
        put_i64(buf, self.broker_epoch);
        proof {
            w = w + (map_encode_err(Ok(i64_bytes(self.broker_epoch)), SerializationError::ValueTooLarge { message: "failed to encode BrokerEpoch" }))->Ok_0;
        }
        assert(buf@ =~= old(buf)@ + w);
        Ok(())
    }

    /// Writes the structure, with the compact encodings when `is_flexible`.
    /// On failure the buffer is left as it was.
    pub fn encode_flexible(&self, buf: &mut Vec<u8>, is_flexible: bool) -> (r: Result<(), SerializationError>)
        ensures
            write_exact(r, old(buf)@, final(buf)@, Self::spec_encode_flexible(self.deep_view(), is_flexible)),
    {
        let start = buf.len();
        let r = self.write_flexible(buf, is_flexible);
        if r.is_err() {
            buf.truncate(start);
        }
        r
    }

    fn write_flexible(&self, buf: &mut Vec<u8>, is_flexible: bool) -> (r: Result<(), SerializationError>)
        ensures
            write_ok(r, old(buf)@, final(buf)@, Self::spec_encode_flexible(self.deep_view(), is_flexible)),
    {
        let ghost mut w: Seq<u8> = Seq::empty();
        put_i32(buf, self.broker_id);
        proof {
            w = w + (map_encode_err(Ok(i32_bytes(self.broker_id)), SerializationError::ValueTooLarge { message: "failed to encode BrokerId" }))->Ok_0;
        }
        assert(buf@ =~= old(buf)@ + w);
        put_i64(buf, self.broker_epoch);
        proof {
            w = w + (map_encode_err(Ok(i64_bytes(self.broker_epoch)), SerializationError::ValueTooLarge { message: "failed to encode BrokerEpoch" }))->Ok_0;
        }
        assert(buf@ =~= old(buf)@ + w);
        if is_flexible {
            encode_unsigned_varint(0, buf);
            proof {
                w = w + uvarint_bytes(0);
            }
            assert(buf@ =~= old(buf)@ + w);
        }
        Ok(())
    }

    /// Reads the structure in the classic layout.
    /// On failure the reader is put back where it started.
    pub fn decode(buf: &mut Reader) -> (r: Result<Self, SerializationError>)
        ensures
            final(buf).bytes() == old(buf).bytes(),
            read_view_exact(r, Self::spec_decode_classic(old(buf).bytes(), old(buf).pos()), old(buf).pos(), final(buf).pos()),
    {
        let start = buf.position();
        let r = Self::read_classic(buf);
        if r.is_err() {
            buf.set_position(start);
        }
        r
    }

    fn read_classic(buf: &mut Reader) -> (r: Result<Self, SerializationError>)
        ensures
            final(buf).bytes() == old(buf).bytes(),
            read_view_ok(r, Self::spec_decode_classic(old(buf).bytes(), old(buf).pos()), final(buf).pos()),
    {
        let broker_id = match buf.get_i32() { Ok(v) => v, Err(_) => { return Err(SerializationError::Protocol { message: "failed to decode BrokerId" }); } };
        let broker_epoch = match buf.get_i64() { Ok(v) => v, Err(_) => { return Err(SerializationError::Protocol { message: "failed to decode BrokerEpoch" }); } };
        Ok(AllocateProducerIdsRequest { broker_id, broker_epoch })
    }

    /// Reads the structure, with the compact encodings when `is_flexible`.
    /// On failure the reader is put back where it started.
    pub fn decode_flexible(buf: &mut Reader, is_flexible: bool) -> (r: Result<Self, SerializationError>)
        ensures
            final(buf).bytes() == old(buf).bytes(),
            read_view_exact(r, Self::spec_decode_flexible(old(buf).bytes(), old(buf).pos(), is_flexible), old(buf).pos(), final(buf).pos()),
    {
        let start = buf.position();
        let r = Self::read_flexible(buf, is_flexible);
        if r.is_err() {
            buf.set_position(start);
        }
        r
    }

    fn read_flexible(buf: &mut Reader, is_flexible: bool) -> (r: Result<Self, SerializationError>)
        ensures
            final(buf).bytes() == old(buf).bytes(),
            read_view_ok(r, Self::spec_decode_flexible(old(buf).bytes(), old(buf).pos(), is_flexible), final(buf).pos()),
    {
        let broker_id = match buf.get_i32() { Ok(v) => v, Err(_) => { return Err(SerializationError::Protocol { message: "failed to decode BrokerId" }); } };
        let broker_epoch = match buf.get_i64() { Ok(v) => v, Err(_) => { return Err(SerializationError::Protocol { message: "failed to decode BrokerEpoch" }); } };
        if is_flexible {
            let (_tag_count, _) = decode_unsigned_varint(buf)?;
        }
        Ok(AllocateProducerIdsRequest { broker_id, broker_epoch })
    }
}

impl KafkaCodec for AllocateProducerIdsRequest {
    open spec fn spec_encode(m: AllocateProducerIdsRequestModel, ctx: Ctx) -> Result<Seq<u8>, SerializationError> {
        if ctx.classic {
            Self::spec_encode_classic(m)
        } else {
            Self::spec_encode_flexible(m, ctx.flexible)
        }
    }

    open spec fn reads_back(v: AllocateProducerIdsRequestModel, ctx: Ctx) -> bool {
        if ctx.classic {
            Self::reads_back_classic(v)
        } else {
            Self::reads_back_flexible(v, ctx.flexible)
        }
    }

    proof fn lemma_read_back(pre: Seq<u8>, v: AllocateProducerIdsRequestModel, post: Seq<u8>, ctx: Ctx) {
        if ctx.classic {
            Self::lemma_classic_read_back(pre, v, post);
            assert(Self::spec_decode(pre + Self::spec_encode(v, ctx)->Ok_0 + post, pre.len() as int, ctx)
                == Self::spec_decode_classic(pre + Self::spec_encode_classic(v)->Ok_0 + post, pre.len() as int));
        } else {
            Self::lemma_flexible_read_back(pre, v, post, ctx.flexible);
            assert(Self::spec_decode(pre + Self::spec_encode(v, ctx)->Ok_0 + post, pre.len() as int, ctx)
                == Self::spec_decode_flexible(pre + Self::spec_encode_flexible(v, ctx.flexible)->Ok_0 + post, pre.len() as int, ctx.flexible));
        }
    }

    open spec fn spec_decode(s: Seq<u8>, pos: int, ctx: Ctx) -> Result<(AllocateProducerIdsRequestModel, int), SerializationError> {
        if ctx.classic {
            Self::spec_decode_classic(s, pos)
        } else {
            Self::spec_decode_flexible(s, pos, ctx.flexible)
        }
    }

    fn encode_ctx(&self, buf: &mut Vec<u8>, ctx: Ctx) -> (r: Result<(), SerializationError>) {
        if ctx.classic {
            self.write_classic(buf)
        } else {
            self.write_flexible(buf, ctx.flexible)
        }
    }

    fn decode_ctx(buf: &mut Reader, ctx: Ctx) -> (r: Result<Self, SerializationError>) {
        if ctx.classic {
            Self::read_classic(buf)
        } else {
            Self::read_flexible(buf, ctx.flexible)
        }
    }
}

impl AllocateProducerIdsRequest {
    /// The API key of this message.
    pub fn get_api_key() -> (r: ApiKey)
        ensures
            r.0 == 67,
    {
        ApiKey::new(67)
    }

    /// The oldest version of this message.
    pub fn get_min_supported_version() -> (r: ApiVersion)
        ensures
            r.0 == 0,
    {
        ApiVersion::new(0)
    }

    /// The newest version of this message.
    pub fn get_max_supported_version() -> (r: ApiVersion)
        ensures
            r.0 == 0,
    {
        ApiVersion::new(0)
    }

    /// The encoding of a whole message body at `version`.
    pub open spec fn spec_serialize(m: AllocateProducerIdsRequestModel, version: i16) -> Result<Seq<u8>, SerializationError> {
        let is_flexible = true;
        let ctx = Ctx { version, flexible: is_flexible, classic: false };
        let r = Ok(Seq::<u8>::empty());
        let r = then(r, map_encode_err(Ok(i32_bytes(m.broker_id)), SerializationError::Encode("failed to encode BrokerId")));
        let r = then(r, map_encode_err(Ok(i64_bytes(m.broker_epoch)), SerializationError::Encode("failed to encode BrokerEpoch")));
        let r = if ctx.flexible { then(r, Ok(uvarint_bytes(0))) } else { r };
        r
    }

    /// The message body read at `version`.
    pub open spec fn spec_deserialize(s: Seq<u8>, pos: int, version: i16) -> Result<(AllocateProducerIdsRequestModel, int), SerializationError> {
        let is_flexible = true;
        let ctx = Ctx { version, flexible: is_flexible, classic: false };
        match map_decode_err(parse_i32(s, pos), SerializationError::Decode("failed to decode BrokerId")) {
            Err(e) => Err(e),
            Ok((broker_id, pos)) =>
            match map_decode_err(parse_i64(s, pos), SerializationError::Decode("failed to decode BrokerEpoch")) {
                Err(e) => Err(e),
                Ok((broker_epoch, pos)) =>
                Ok((AllocateProducerIdsRequestModel { broker_id, broker_epoch }, pos))
            }
        }
    }

    /// Message bodies that read back when written at `version`: every field that
    /// the version leaves out holds its default, and nested values read back.
    pub open spec fn reads_back_message(m: AllocateProducerIdsRequestModel, version: i16) -> bool {
        let is_flexible = true;
        let ctx = Ctx { version, flexible: is_flexible, classic: false };
        true
    }

    /// A message body that can be written at `version` and reads back: reading a
    /// body at `version` from its bytes, wherever they stand, gives the same message.
    #[verifier::spinoff_prover]
    pub proof fn lemma_message_read_back(pre: Seq<u8>, m: AllocateProducerIdsRequestModel, post: Seq<u8>, version: i16)
        requires
            Self::spec_serialize(m, version) is Ok,
            Self::reads_back_message(m, version),
        ensures
            Self::spec_deserialize(pre + Self::spec_serialize(m, version)->Ok_0 + post, pre.len() as int, version) == Ok::<(AllocateProducerIdsRequestModel, int), SerializationError>((m, pre.len() as int + Self::spec_serialize(m, version)->Ok_0.len() - (if true { 1int } else { 0int }))),
    {
        let is_flexible = true;
        let ctx = Ctx { version, flexible: is_flexible, classic: false };
        let b0 = i32_bytes(m.broker_id);
        let b1 = i64_bytes(m.broker_epoch);
        let b2 = if ctx.flexible { uvarint_bytes(0) } else { Seq::<u8>::empty() };
        let t3 = post;
        let t2 = b2 + t3;
        let t1 = b1 + t2;
        let t0 = b0 + t1;
        let e = Self::spec_serialize(m, version)->Ok_0;
        assert(e =~= Seq::<u8>::empty() + b0 + b1 + b2);
        lemma_seq_assoc(((Seq::<u8>::empty() + b0) + b1), b2, post);
        lemma_seq_assoc((Seq::<u8>::empty() + b0), b1, (b2 + post));
        lemma_seq_assoc(Seq::<u8>::empty(), b0, (b1 + (b2 + post)));
        lemma_seq_empty_left((b0 + (b1 + (b2 + post))));
        let s = pre + e + post;
        lemma_seq_assoc(pre, e, post);
        assert(s == pre + t0);
        let a0 = pre;
        assert(parse_i32(s, a0.len() as int) == Ok::<(i32, int), SerializationError>((m.broker_id, a0.len() as int + b0.len()))) by {
            lemma_seq_assoc(a0, b0, t1);
            lemma_i32_roundtrip(a0, m.broker_id, t1);
        }
        lemma_seq_assoc(a0, b0, t1);
        let a1 = a0 + b0;
        assert(parse_i64(s, a1.len() as int) == Ok::<(i64, int), SerializationError>((m.broker_epoch, a1.len() as int + b1.len()))) by {
            lemma_seq_assoc(a1, b1, t2);
            lemma_i64_roundtrip(a1, m.broker_epoch, t2);
        }
        lemma_seq_assoc(a1, b1, t2);
        let a2 = a1 + b1;
    }

    /// The bytes written: the encoding of each field, in the order of the
    /// protocol's layout. Reading them back, wherever they stand, gives the value,
    /// with each field that the version leaves out at its default.
    #[verifier::spinoff_prover]
    pub proof fn lemma_message_layout(pre: Seq<u8>, m: AllocateProducerIdsRequestModel, post: Seq<u8>, version: i16)
        requires
            Self::spec_serialize(m, version) is Ok,
        ensures
            Self::spec_serialize(m, version) == Ok::<Seq<u8>, SerializationError>((i32_bytes(m.broker_id)) + (i64_bytes(m.broker_epoch)) + (if (true) { uvarint_bytes(0) } else { Seq::<u8>::empty() })),
            Self::reads_back_message(m, version) ==> Self::spec_deserialize(pre + ((i32_bytes(m.broker_id)) + (i64_bytes(m.broker_epoch)) + (if (true) { uvarint_bytes(0) } else { Seq::<u8>::empty() })) + post, pre.len() as int, version) == Ok::<(AllocateProducerIdsRequestModel, int), SerializationError>((m, pre.len() as int + ((i32_bytes(m.broker_id)) + (i64_bytes(m.broker_epoch)) + (if (true) { uvarint_bytes(0) } else { Seq::<u8>::empty() })).len() - (if true { 1int } else { 0int }))),
    {
        let is_flexible = true;
        let ctx = Ctx { version, flexible: is_flexible, classic: false };
        let b0 = i32_bytes(m.broker_id);
        let b1 = i64_bytes(m.broker_epoch);
        let b2 = if ctx.flexible { uvarint_bytes(0) } else { Seq::<u8>::empty() };
        let e = Self::spec_serialize(m, version)->Ok_0;
        assert(e =~= Seq::<u8>::empty() + b0 + b1 + b2);
        assert(e =~= b0 + b1 + b2);
        if Self::reads_back_message(m, version) {
            Self::lemma_message_read_back(pre, m, post, version);
        }
    }

    /// Writing succeeds exactly when every field that the version carries can be
    /// encoded and every field that it leaves out, where leaving it out is an
    /// error, holds its default.
    #[verifier::spinoff_prover]
    pub proof fn lemma_message_write_succeeds(m: AllocateProducerIdsRequestModel, version: i16)
        ensures
            Self::spec_serialize(m, version) is Ok <==> (map_encode_err(Ok(i32_bytes(m.broker_id)), SerializationError::Encode("failed to encode BrokerId")) is Ok) && (map_encode_err(Ok(i64_bytes(m.broker_epoch)), SerializationError::Encode("failed to encode BrokerEpoch")) is Ok),
    {
        let is_flexible = true;
        let ctx = Ctx { version, flexible: is_flexible, classic: false };
    }

    /// Writes the message body for `version`, which must be a supported version.
    /// On failure the buffer is left as it was.
    pub fn serialize(&self, version: ApiVersion, buf: &mut Vec<u8>) -> (r: Result<(), SerializationError>)
        requires
            0 <= version.0 <= 0,
        ensures
            write_exact(r, old(buf)@, final(buf)@, Self::spec_serialize(self.deep_view(), version.0)),
    {
        let start = buf.len();
        let r = self.write_body(version, buf);
        if r.is_err() {
            buf.truncate(start);
        }
        r
    }

    fn write_body(&self, version: ApiVersion, buf: &mut Vec<u8>) -> (r: Result<(), SerializationError>)
        requires
            0 <= version.0 <= 0,
        ensures
            write_ok(r, old(buf)@, final(buf)@, Self::spec_serialize(self.deep_view(), version.0)),
    {
        let is_flexible = true;
        let ctx = Ctx::new(version, is_flexible);
        let ghost mut w: Seq<u8> = Seq::empty();
        put_i32(buf, self.broker_id);
        proof {
            w = w + (map_encode_err(Ok(i32_bytes(self.broker_id)), SerializationError::Encode("failed to encode BrokerId")))->Ok_0;
        }
        assert(buf@ =~= old(buf)@ + w);
        put_i64(buf, self.broker_epoch);
        proof {
            w = w + (map_encode_err(Ok(i64_bytes(self.broker_epoch)), SerializationError::Encode("failed to encode BrokerEpoch")))->Ok_0;
        }
        assert(buf@ =~= old(buf)@ + w);
        if ctx.flexible {
            encode_unsigned_varint(0, buf);
            proof {
                w = w + uvarint_bytes(0);
            }
            assert(buf@ =~= old(buf)@ + w);
        }
        Ok(())
    }

    /// Reads a message body written for `version`.
    /// On failure the reader is put back where it started.
    pub fn deserialize(version: ApiVersion, buf: &mut Reader) -> (r: Result<Self, SerializationError>)
        ensures
            final(buf).bytes() == old(buf).bytes(),
            read_view_exact(r, Self::spec_deserialize(old(buf).bytes(), old(buf).pos(), version.0), old(buf).pos(), final(buf).pos()),
    {
        let start = buf.position();
        let r = Self::read_body(version, buf);
        if r.is_err() {
            buf.set_position(start);
        }
        r
    }

    fn read_body(version: ApiVersion, buf: &mut Reader) -> (r: Result<Self, SerializationError>)
        ensures
            final(buf).bytes() == old(buf).bytes(),
            read_view_ok(r, Self::spec_deserialize(old(buf).bytes(), old(buf).pos(), version.0), final(buf).pos()),
    {
        let is_flexible = true;
        let ctx = Ctx::new(version, is_flexible);
        let broker_id = match buf.get_i32() { Ok(v) => v, Err(_) => { return Err(SerializationError::Decode("failed to decode BrokerId")); } };
        let broker_epoch = match buf.get_i64() { Ok(v) => v, Err(_) => { return Err(SerializationError::Decode("failed to decode BrokerEpoch")); } };
        Ok(AllocateProducerIdsRequest { broker_id, broker_epoch })
    }
}

} // verus!
