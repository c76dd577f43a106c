//! ControlledShutdownRequest (API key 7).
use vstd::prelude::*;
use crate::roundtrip::{lemma_i32_roundtrip, lemma_i64_roundtrip, lemma_seq_assoc,
    lemma_seq_empty_left};
use crate::serialization::{Ctx, KafkaCodec, Reader, SerializationError, i32_bytes, i64_bytes,
    map_decode_err, map_encode_err, parse_i32, parse_i64, put_i32, put_i64, read_view_exact,
    read_view_ok, then, write_exact, write_ok};
use crate::{ApiKey, ApiVersion};

verus! {

// -------------------------------------------------------
// ControlledShutdownRequest
// -------------------------------------------------------
#[derive(Clone, Debug, Default, PartialEq)]
pub struct ControlledShutdownRequest {
    /// The id of the broker for which controlled shutdown has been requested.
    pub broker_id: i32,
    /// The broker epoch.
    /// Available in version 2+.
    pub broker_epoch: i64,
}

/// The contents of `ControlledShutdownRequest`, with strings as characters and
/// nested values by their contents.
pub struct ControlledShutdownRequestModel {
    pub broker_id: i32,
    pub broker_epoch: i64,
}

impl DeepView for ControlledShutdownRequest {
    type V = ControlledShutdownRequestModel;

    open spec fn deep_view(&self) -> ControlledShutdownRequestModel {
        ControlledShutdownRequestModel {
            broker_id: self.broker_id,
            broker_epoch: self.broker_epoch,
        }
    }
}

impl ControlledShutdownRequest {
    /// The classic encoding of the structure.
    pub open spec fn spec_encode_classic(m: ControlledShutdownRequestModel) -> Result<Seq<u8>, SerializationError> {
        let r = Ok(Seq::<u8>::empty());
        let r = then(r, map_encode_err(Ok(i32_bytes(m.broker_id)), SerializationError::ValueTooLarge { message: "failed to encode BrokerId" }));
        let r = then(r, map_encode_err(Ok(i64_bytes(m.broker_epoch)), SerializationError::ValueTooLarge { message: "failed to encode BrokerEpoch" }));
        r
    }

    /// The structure read by the classic decoder.
    pub open spec fn spec_decode_classic(s: Seq<u8>, pos: int) -> Result<(ControlledShutdownRequestModel, int), SerializationError> {
        match map_decode_err(parse_i32(s, pos), SerializationError::Protocol { message: "failed to decode BrokerId" }) {
            Err(e) => Err(e),
            Ok((broker_id, pos)) =>
            match map_decode_err(parse_i64(s, pos), SerializationError::Protocol { message: "failed to decode BrokerEpoch" }) {
                Err(e) => Err(e),
                Ok((broker_epoch, pos)) =>
                Ok((ControlledShutdownRequestModel { broker_id, broker_epoch }, pos))
            }
        }
    }

    /// Values of the structure that read back from their classic encoding:
    /// nested values read back.
    pub open spec fn reads_back_classic(m: ControlledShutdownRequestModel) -> bool {
        true
    }

    /// A value that can be written and reads back: decoding its encoding, wherever
    /// it stands, gives the value and the position just after it.
    #[verifier::spinoff_prover]
    pub proof fn lemma_classic_read_back(pre: Seq<u8>, m: ControlledShutdownRequestModel, post: Seq<u8>)
        requires
            Self::spec_encode_classic(m) is Ok,
            Self::reads_back_classic(m),
        ensures
            Self::spec_decode_classic(pre + Self::spec_encode_classic(m)->Ok_0 + post, pre.len() as int) == Ok::<(ControlledShutdownRequestModel, int), SerializationError>((m, pre.len() as int + Self::spec_encode_classic(m)->Ok_0.len())),
    {
        let b0 = i32_bytes(m.broker_id);
        let b1 = i64_bytes(m.broker_epoch);
        let t2 = post;
        let t1 = b1 + t2;
        let t0 = b0 + t1;
        let e = Self::spec_encode_classic(m)->Ok_0;
        assert(e =~= Seq::<u8>::empty() + b0 + b1);
        lemma_seq_assoc((Seq::<u8>::empty() + b0), b1, post);
        lemma_seq_assoc(Seq::<u8>::empty(), b0, (b1 + post));
        lemma_seq_empty_left((b0 + (b1 + post)));
        let s = pre + e + post;
        lemma_seq_assoc(pre, e, post);
        assert(s == pre + t0);
        let a0 = pre;
        assert(parse_i32(s, a0.len() as int) == Ok::<(i32, int), SerializationError>((m.broker_id, a0.len() as int + b0.len()))) by {
            lemma_seq_assoc(a0, b0, t1);
            lemma_i32_roundtrip(a0, m.broker_id, t1);
        }
        lemma_seq_assoc(a0, b0, t1);
        let a1 = a0 + b0;
        assert(parse_i64(s, a1.len() as int) == Ok::<(i64, int), SerializationError>((m.broker_epoch, a1.len() as int + b1.len()))) by {
            lemma_seq_assoc(a1, b1, t2);
            lemma_i64_roundtrip(a1, m.broker_epoch, t2);
        }
    }

    /// The bytes written: the encoding of each field, in the order of the
    /// protocol's layout. Reading them back, wherever they stand, gives the value,
    /// with each field that the version leaves out at its default.
    #[verifier::spinoff_prover]
    pub proof fn lemma_classic_layout(pre: Seq<u8>, m: ControlledShutdownRequestModel, post: Seq<u8>)
        requires
            Self::spec_encode_classic(m) is Ok,
        ensures
            Self::spec_encode_classic(m) == Ok::<Seq<u8>, SerializationError>((i32_bytes(m.broker_id)) + (i64_bytes(m.broker_epoch))),
            Self::reads_back_classic(m) ==> Self::spec_decode_classic(pre + ((i32_bytes(m.broker_id)) + (i64_bytes(m.broker_epoch))) + post, pre.len() as int) == Ok::<(ControlledShutdownRequestModel, int), SerializationError>((m, pre.len() as int + ((i32_bytes(m.broker_id)) + (i64_bytes(m.broker_epoch))).len())),
    {
        let b0 = i32_bytes(m.broker_id);
        let b1 = i64_bytes(m.broker_epoch);
        let e = Self::spec_encode_classic(m)->Ok_0;
        assert(e =~= Seq::<u8>::empty() + b0 + b1);
        assert(e =~= b0 + b1);
        if Self::reads_back_classic(m) {
            Self::lemma_classic_read_back(pre, m, post);
        }
    }

    /// Writing succeeds exactly when every field that the version carries can be
    /// encoded and every field that it leaves out, where leaving it out is an
    /// error, holds its default.
    #[verifier::spinoff_prover]
    pub proof fn lemma_classic_write_succeeds(m: ControlledShutdownRequestModel)
        ensures
            Self::spec_encode_classic(m) is Ok <==> (map_encode_err(Ok(i32_bytes(m.broker_id)), SerializationError::ValueTooLarge { message: "failed to encode BrokerId" }) is Ok) && (map_encode_err(Ok(i64_bytes(m.broker_epoch)), SerializationError::ValueTooLarge { message: "failed to encode BrokerEpoch" }) is Ok),
    {
    }

    /// Writes the structure in the classic layout.
    /// On failure the buffer is left as it was.
    pub fn encode(&self, buf: &mut Vec<u8>) -> (r: Result<(), SerializationError>)
        ensures
            write_exact(r, old(buf)@, final(buf)@, Self::spec_encode_classic(self.deep_view())),
    {
        let start = buf.len();
        let r = self.write_classic(buf);
        if r.is_err() {
            buf.truncate(start);
        }
        r
    }

    fn write_classic(&self, buf: &mut Vec<u8>) -> (r: Result<(), SerializationError>)
        ensures
            write_ok(r, old(buf)@, final(buf)@, Self::spec_encode_classic(self.deep_view())),
    {
        let ghost mut w: Seq<u8> = Seq::empty();
        put_i32(buf, self.broker_id);
        proof {
            w = w + (map_encode_err(Ok(i32_bytes(self.broker_id)), SerializationError::ValueTooLarge { message: "failed to encode BrokerId" }))->Ok_0;
        }
        assert(buf@ =~= old(buf)@ + w);
        put_i64(buf, self.broker_epoch);
        proof {
            w = w + (map_encode_err(Ok(i64_bytes(self.broker_epoch)), SerializationError::ValueTooLarge { message: "failed to encode BrokerEpoch" }))->Ok_0;
        }
        assert(buf@ =~= old(buf)@ + w);
        Ok(())
    }

    /// Reads the structure in the classic layout.
    /// On failure the reader is put back where it started.
    pub fn decode(buf: &mut Reader) -> (r: Result<Self, SerializationError>)
        ensures
            final(buf).bytes() == old(buf).bytes(),
            read_view_exact(r, Self::spec_decode_classic(old(buf).bytes(), old(buf).pos()), old(buf).pos(), final(buf).pos()),
    {
        let start = buf.position();
        let r = Self::read_classic(buf);
        if r.is_err() {
            buf.set_position(start);
        }
        r
    }

    fn read_classic(buf: &mut Reader) -> (r: Result<Self, SerializationError>)
        ensures
            final(buf).bytes() == old(buf).bytes(),
            read_view_ok(r, Self::spec_decode_classic(old(buf).bytes(), old(buf).pos()), final(buf).pos()),
    {
        let broker_id = match buf.get_i32() { Ok(v) => v, Err(_) => { return Err(SerializationError::Protocol { message: "failed to decode BrokerId" }); } };
        let broker_epoch = match buf.get_i64() { Ok(v) => v, Err(_) => { return Err(SerializationError::Protocol { message: "failed to decode BrokerEpoch" }); } };
        Ok(ControlledShutdownRequest { broker_id, broker_epoch })
    }
}

impl KafkaCodec for ControlledShutdownRequest {
    open spec fn spec_encode(m: ControlledShutdownRequestModel, ctx: Ctx) -> Result<Seq<u8>, SerializationError> {
        Self::spec_encode_classic(m)
    }

    open spec fn reads_back(v: ControlledShutdownRequestModel, ctx: Ctx) -> bool {
        Self::reads_back_classic(v)
    }

    proof fn lemma_read_back(pre: Seq<u8>, v: ControlledShutdownRequestModel, post: Seq<u8>, ctx: Ctx) {
        Self::lemma_classic_read_back(pre, v, post);
        assert(Self::spec_decode(pre + Self::spec_encode(v, ctx)->Ok_0 + post, pre.len() as int, ctx)
            == Self::spec_decode_classic(pre + Self::spec_encode_classic(v)->Ok_0 + post, pre.len() as int));
    }

    open spec fn spec_decode(s: Seq<u8>, pos: int, ctx: Ctx) -> Result<(ControlledShutdownRequestModel, int), SerializationError> {
        Self::spec_decode_classic(s, pos)
    }

    fn encode_ctx(&self, buf: &mut Vec<u8>, ctx: Ctx) -> (r: Result<(), SerializationError>) {
        self.write_classic(buf)
    }

    fn decode_ctx(buf: &mut Reader, ctx: Ctx) -> (r: Result<Self, SerializationError>) {
        Self::read_classic(buf)
    }
}

impl ControlledShutdownRequest {
    /// The API key of this message.
    pub fn get_api_key() -> (r: ApiKey)
        ensures
            r.0 == 7,
    {
        ApiKey::new(7)
    }

    /// The oldest version of this message.
    pub fn get_min_supported_version() -> (r: ApiVersion)
        ensures
            r.0 == 0,
    {
        ApiVersion::new(0)
    }

    /// The newest version of this message.
    pub fn get_max_supported_version() -> (r: ApiVersion)
        ensures
            r.0 == 2,
    {
        ApiVersion::new(2)
    }

    /// The encoding of a whole message body at `version`.
    pub open spec fn spec_serialize(m: ControlledShutdownRequestModel, version: i16) -> Result<Seq<u8>, SerializationError> {
        let is_flexible = false;
        let ctx = Ctx { version, flexible: is_flexible, classic: false };
        let r = Ok(Seq::<u8>::empty());
        let r = then(r, map_encode_err(Ok(i32_bytes(m.broker_id)), SerializationError::Encode("failed to encode BrokerId")));
        let r = if 2 <= ctx.version { then(r, map_encode_err(Ok(i64_bytes(m.broker_epoch)), SerializationError::Encode("failed to encode BrokerEpoch"))) } else { r };
        r
    }

    /// The message body read at `version`.
    pub open spec fn spec_deserialize(s: Seq<u8>, pos: int, version: i16) -> Result<(ControlledShutdownRequestModel, int), SerializationError> {
        let is_flexible = false;
        let ctx = Ctx { version, flexible: is_flexible, classic: false };
        match map_decode_err(parse_i32(s, pos), SerializationError::Decode("failed to decode BrokerId")) {
            Err(e) => Err(e),
            Ok((broker_id, pos)) =>
            match (if 2 <= ctx.version { map_decode_err(parse_i64(s, pos), SerializationError::Decode("failed to decode BrokerEpoch")) } else { Ok((0i64, pos)) }) {
                Err(e) => Err(e),
                Ok((broker_epoch, pos)) =>
                Ok((ControlledShutdownRequestModel { broker_id, broker_epoch }, pos))
            }
        }
    }

    /// Message bodies that read back when written at `version`: nested values read
    /// back. A field that the version leaves out is read as its default.
    pub open spec fn reads_back_message(m: ControlledShutdownRequestModel, version: i16) -> bool {
        let is_flexible = false;
        let ctx = Ctx { version, flexible: is_flexible, classic: false };
        true
    }

    /// A message body that can be written at `version` and reads back: reading a
    /// body at `version` from its bytes, wherever they stand, gives the same message,
    /// with each field that the version leaves out at its default.
    #[verifier::spinoff_prover]
    pub proof fn lemma_message_read_back(pre: Seq<u8>, m: ControlledShutdownRequestModel, post: Seq<u8>, version: i16)
        requires
            Self::spec_serialize(m, version) is Ok,
            Self::reads_back_message(m, version),
        ensures
            Self::spec_deserialize(pre + Self::spec_serialize(m, version)->Ok_0 + post, pre.len() as int, version) == Ok::<(ControlledShutdownRequestModel, int), SerializationError>((ControlledShutdownRequestModel { broker_id: m.broker_id, broker_epoch: if 2 <= version { m.broker_epoch } else { 0i64 } }, pre.len() as int + Self::spec_serialize(m, version)->Ok_0.len())),
    {
        let is_flexible = false;
        let ctx = Ctx { version, flexible: is_flexible, classic: false };
        let b0 = i32_bytes(m.broker_id);
        let b1 = if 2 <= ctx.version { i64_bytes(m.broker_epoch) } else { Seq::<u8>::empty() };
        let t2 = post;
        let t1 = b1 + t2;
        let t0 = b0 + t1;
        let e = Self::spec_serialize(m, version)->Ok_0;
        assert(e =~= Seq::<u8>::empty() + b0 + b1);
        lemma_seq_assoc((Seq::<u8>::empty() + b0), b1, post);
        lemma_seq_assoc(Seq::<u8>::empty(), b0, (b1 + post));
        lemma_seq_empty_left((b0 + (b1 + post)));
        let s = pre + e + post;
        lemma_seq_assoc(pre, e, post);
        assert(s == pre + t0);
        let a0 = pre;
        assert(parse_i32(s, a0.len() as int) == Ok::<(i32, int), SerializationError>((m.broker_id, a0.len() as int + b0.len()))) by {
            lemma_seq_assoc(a0, b0, t1);
            lemma_i32_roundtrip(a0, m.broker_id, t1);
        }
        lemma_seq_assoc(a0, b0, t1);
        let a1 = a0 + b0;
        if 2 <= ctx.version {
            assert(parse_i64(s, a1.len() as int) == Ok::<(i64, int), SerializationError>((m.broker_epoch, a1.len() as int + b1.len()))) by {
                lemma_seq_assoc(a1, b1, t2);
                lemma_i64_roundtrip(a1, m.broker_epoch, t2);
            }
        }
    }

    /// The bytes written: the encoding of each field, in the order of the
    /// protocol's layout. Reading them back, wherever they stand, gives the value,
    /// with each field that the version leaves out at its default.
    #[verifier::spinoff_prover]
    pub proof fn lemma_message_layout(pre: Seq<u8>, m: ControlledShutdownRequestModel, post: Seq<u8>, version: i16)
        requires
            Self::spec_serialize(m, version) is Ok,
        ensures
            Self::spec_serialize(m, version) == Ok::<Seq<u8>, SerializationError>((i32_bytes(m.broker_id)) + (if 2 <= version { i64_bytes(m.broker_epoch) } else { Seq::<u8>::empty() })),
            Self::reads_back_message(m, version) ==> Self::spec_deserialize(pre + ((i32_bytes(m.broker_id)) + (if 2 <= version { i64_bytes(m.broker_epoch) } else { Seq::<u8>::empty() })) + post, pre.len() as int, version) == Ok::<(ControlledShutdownRequestModel, int), SerializationError>((ControlledShutdownRequestModel { broker_id: m.broker_id, broker_epoch: if 2 <= version { m.broker_epoch } else { 0i64 } }, pre.len() as int + ((i32_bytes(m.broker_id)) + (if 2 <= version { i64_bytes(m.broker_epoch) } else { Seq::<u8>::empty() })).len())),
    {
        let is_flexible = false;
        let ctx = Ctx { version, flexible: is_flexible, classic: false };
        let b0 = i32_bytes(m.broker_id);
        let b1 = if 2 <= ctx.version { i64_bytes(m.broker_epoch) } else { Seq::<u8>::empty() };
        let e = Self::spec_serialize(m, version)->Ok_0;
        assert(e =~= Seq::<u8>::empty() + b0 + b1);
        assert(e =~= b0 + b1);
        if Self::reads_back_message(m, version) {
            Self::lemma_message_read_back(pre, m, post, version);
        }
    }

    /// Writing succeeds exactly when every field that the version carries can be
    /// encoded and every field that it leaves out, where leaving it out is an
    /// error, holds its default.
    #[verifier::spinoff_prover]
    pub proof fn lemma_message_write_succeeds(m: ControlledShutdownRequestModel, version: i16)
        ensures
            Self::spec_serialize(m, version) is Ok <==> (map_encode_err(Ok(i32_bytes(m.broker_id)), SerializationError::Encode("failed to encode BrokerId")) is Ok) && ((2 <= version) ==> map_encode_err(Ok(i64_bytes(m.broker_epoch)), SerializationError::Encode("failed to encode BrokerEpoch")) is Ok),
    {
        let is_flexible = false;
        let ctx = Ctx { version, flexible: is_flexible, classic: false };
    }

    /// Writes the message body for `version`, which must be a supported version.
    /// On failure the buffer is left as it was.
    pub fn serialize(&self, version: ApiVersion, buf: &mut Vec<u8>) -> (r: Result<(), SerializationError>)
        requires
            0 <= version.0 <= 2,
        ensures
            write_exact(r, old(buf)@, final(buf)@, Self::spec_serialize(self.deep_view(), version.0)),
    {
        let start = buf.len();
        let r = self.write_body(version, buf);
        if r.is_err() {
            buf.truncate(start);
        }
        r
    }

    fn write_body(&self, version: ApiVersion, buf: &mut Vec<u8>) -> (r: Result<(), SerializationError>)
        requires
            0 <= version.0 <= 2,
        ensures
            write_ok(r, old(buf)@, final(buf)@, Self::spec_serialize(self.deep_view(), version.0)),
    {
        let is_flexible = false;
        let ctx = Ctx::new(version, is_flexible);
        let ghost mut w: Seq<u8> = Seq::empty();
        put_i32(buf, self.broker_id);
        proof {
            w = w + (map_encode_err(Ok(i32_bytes(self.broker_id)), SerializationError::Encode("failed to encode BrokerId")))->Ok_0;
        }
        assert(buf@ =~= old(buf)@ + w);
        if 2 <= ctx.version {
            put_i64(buf, self.broker_epoch);
            proof {
                w = w + (map_encode_err(Ok(i64_bytes(self.broker_epoch)), SerializationError::Encode("failed to encode BrokerEpoch")))->Ok_0;
            }
            assert(buf@ =~= old(buf)@ + w);
        }
        Ok(())
    }

    /// Reads a message body written for `version`.
    /// On failure the reader is put back where it started.
    pub fn deserialize(version: ApiVersion, buf: &mut Reader) -> (r: Result<Self, SerializationError>)
        ensures
            final(buf).bytes() == old(buf).bytes(),
            read_view_exact(r, Self::spec_deserialize(old(buf).bytes(), old(buf).pos(), version.0), old(buf).pos(), final(buf).pos()),
    {
        let start = buf.position();
        let r = Self::read_body(version, buf);
        if r.is_err() {
            buf.set_position(start);
        }
        r
    }

    fn read_body(version: ApiVersion, buf: &mut Reader) -> (r: Result<Self, SerializationError>)
        ensures
            final(buf).bytes() == old(buf).bytes(),
            read_view_ok(r, Self::spec_deserialize(old(buf).bytes(), old(buf).pos(), version.0), final(buf).pos()),
    {
        let is_flexible = false;
        let ctx = Ctx::new(version, is_flexible);
        let broker_id = match buf.get_i32() { Ok(v) => v, Err(_) => { return Err(SerializationError::Decode("failed to decode BrokerId")); } };
        let broker_epoch = if 2 <= ctx.version {
            match buf.get_i64() { Ok(v) => v, Err(_) => { return Err(SerializationError::Decode("failed to decode BrokerEpoch")); } }
        } else {
            0i64
        };
        Ok(ControlledShutdownRequest { broker_id, broker_epoch })
    }
}

} // verus!
