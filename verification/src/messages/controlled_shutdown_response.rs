//! ControlledShutdownResponse (API key 7).
use vstd::prelude::*;
use crate::roundtrip::{lemma_array_roundtrip, lemma_i16_roundtrip, lemma_i32_roundtrip,
    lemma_items_read_back, lemma_seq_assoc, lemma_seq_empty_left, lemma_string_roundtrip};
use crate::serialization::{Ctx, KafkaCodec, Reader, SerializationError, array_bytes, decode_array,
    encode_array, encode_string, i16_bytes, i32_bytes, map_decode_err, map_encode_err,
    parse_array, parse_i16, parse_i32, parse_string, put_i16, put_i32, read_view_exact,
    read_view_ok, string_bytes, then, write_exact, write_ok};
use crate::{ApiKey, ApiVersion};

verus! {

// -------------------------------------------------------
// ControlledShutdownResponse
// -------------------------------------------------------
#[derive(Clone, Debug, Default, PartialEq)]
pub struct ControlledShutdownResponse {
    /// The top-level error code.
    pub error_code: i16,
    /// The partitions that the broker still leads.
    pub remaining_partitions: Vec<RemainingPartition>,
}

/// The contents of `ControlledShutdownResponse`, with strings as characters and
/// nested values by their contents.
pub struct ControlledShutdownResponseModel {
    pub error_code: i16,
    pub remaining_partitions: Seq<<RemainingPartition as DeepView>::V>,
}

impl DeepView for ControlledShutdownResponse {
    type V = ControlledShutdownResponseModel;

    open spec fn deep_view(&self) -> ControlledShutdownResponseModel {
        ControlledShutdownResponseModel {
            error_code: self.error_code,
            remaining_partitions: self.remaining_partitions.deep_view(),
        }
    }
}

impl ControlledShutdownResponse {
    /// The classic encoding of the structure.
    pub open spec fn spec_encode_classic(m: ControlledShutdownResponseModel) -> Result<Seq<u8>, SerializationError> {
        let r = Ok(Seq::<u8>::empty());
        let r = then(r, map_encode_err(Ok(i16_bytes(m.error_code)), SerializationError::ValueTooLarge { message: "failed to encode ErrorCode" }));
        let r = then(r, map_encode_err(array_bytes::<RemainingPartition>(m.remaining_partitions, Ctx { version: 0, flexible: false, classic: true }), SerializationError::ValueTooLarge { message: "failed to encode RemainingPartitions" }));
        r
    }

    /// The structure read by the classic decoder.
    pub open spec fn spec_decode_classic(s: Seq<u8>, pos: int) -> Result<(ControlledShutdownResponseModel, int), SerializationError> {
        match map_decode_err(parse_i16(s, pos), SerializationError::Protocol { message: "failed to decode ErrorCode" }) {
            Err(e) => Err(e),
            Ok((error_code, pos)) =>
            match map_decode_err(parse_array::<RemainingPartition>(s, pos, Ctx { version: 0, flexible: false, classic: true }), SerializationError::Protocol { message: "failed to decode RemainingPartitions" }) {
                Err(e) => Err(e),
                Ok((remaining_partitions, pos)) =>
                Ok((ControlledShutdownResponseModel { error_code, remaining_partitions }, pos))
            }
        }
    }

    /// Values of the structure that read back from their classic encoding:
    /// nested values read back.
    pub open spec fn reads_back_classic(m: ControlledShutdownResponseModel) -> bool {
        &&& forall|i: int| 0 <= i < m.remaining_partitions.len() ==> #[trigger] <RemainingPartition as KafkaCodec>::reads_back(m.remaining_partitions[i], Ctx { version: 0, flexible: false, classic: true })
    }

    /// A value that can be written and reads back: decoding its encoding, wherever
    /// it stands, gives the value and the position just after it.
    #[verifier::spinoff_prover]
    pub proof fn lemma_classic_read_back(pre: Seq<u8>, m: ControlledShutdownResponseModel, post: Seq<u8>)
        requires
            Self::spec_encode_classic(m) is Ok,
            Self::reads_back_classic(m),
        ensures
            Self::spec_decode_classic(pre + Self::spec_encode_classic(m)->Ok_0 + post, pre.len() as int) == Ok::<(ControlledShutdownResponseModel, int), SerializationError>((m, pre.len() as int + Self::spec_encode_classic(m)->Ok_0.len())),
    {
        let b0 = i16_bytes(m.error_code);
        let b1 = (array_bytes::<RemainingPartition>(m.remaining_partitions, Ctx { version: 0, flexible: false, classic: true }))->Ok_0;
        let t2 = post;
        let t1 = b1 + t2;
        let t0 = b0 + t1;
        let e = Self::spec_encode_classic(m)->Ok_0;
        assert(e =~= Seq::<u8>::empty() + b0 + b1);
        lemma_seq_assoc((Seq::<u8>::empty() + b0), b1, post);
        lemma_seq_assoc(Seq::<u8>::empty(), b0, (b1 + post));
        lemma_seq_empty_left((b0 + (b1 + post)));
        let s = pre + e + post;
        lemma_seq_assoc(pre, e, post);
        assert(s == pre + t0);
        let a0 = pre;
        assert(parse_i16(s, a0.len() as int) == Ok::<(i16, int), SerializationError>((m.error_code, a0.len() as int + b0.len()))) by {
            lemma_seq_assoc(a0, b0, t1);
            lemma_i16_roundtrip(a0, m.error_code, t1);
        }
        lemma_seq_assoc(a0, b0, t1);
        let a1 = a0 + b0;
        assert(parse_array::<RemainingPartition>(s, a1.len() as int, Ctx { version: 0, flexible: false, classic: true }) == Ok::<(Seq<<RemainingPartition as DeepView>::V>, int), SerializationError>((m.remaining_partitions, a1.len() as int + b1.len()))) by {
            assert(array_bytes::<RemainingPartition>(m.remaining_partitions, Ctx { version: 0, flexible: false, classic: true }) is Ok);
            lemma_seq_assoc(a1, b1, t2);
            lemma_items_read_back::<RemainingPartition>(m.remaining_partitions, Ctx { version: 0, flexible: false, classic: true });
            lemma_array_roundtrip::<RemainingPartition>(a1, m.remaining_partitions, t2, Ctx { version: 0, flexible: false, classic: true });
        }
    }

    /// The bytes written: the encoding of each field, in the order of the
    /// protocol's layout. Reading them back, wherever they stand, gives the value,
    /// with each field that the version leaves out at its default.
    #[verifier::spinoff_prover]
    pub proof fn lemma_classic_layout(pre: Seq<u8>, m: ControlledShutdownResponseModel, post: Seq<u8>)
        requires
            Self::spec_encode_classic(m) is Ok,
        ensures
            Self::spec_encode_classic(m) == Ok::<Seq<u8>, SerializationError>((i16_bytes(m.error_code)) + ((array_bytes::<RemainingPartition>(m.remaining_partitions, Ctx { version: 0, flexible: false, classic: true }))->Ok_0)),
            Self::reads_back_classic(m) ==> Self::spec_decode_classic(pre + ((i16_bytes(m.error_code)) + ((array_bytes::<RemainingPartition>(m.remaining_partitions, Ctx { version: 0, flexible: false, classic: true }))->Ok_0)) + post, pre.len() as int) == Ok::<(ControlledShutdownResponseModel, int), SerializationError>((m, pre.len() as int + ((i16_bytes(m.error_code)) + ((array_bytes::<RemainingPartition>(m.remaining_partitions, Ctx { version: 0, flexible: false, classic: true }))->Ok_0)).len())),
    {
        let b0 = i16_bytes(m.error_code);
        let b1 = (array_bytes::<RemainingPartition>(m.remaining_partitions, Ctx { version: 0, flexible: false, classic: true }))->Ok_0;
        let e = Self::spec_encode_classic(m)->Ok_0;
        assert(e =~= Seq::<u8>::empty() + b0 + b1);
        assert(e =~= b0 + b1);
        if Self::reads_back_classic(m) {
            Self::lemma_classic_read_back(pre, m, post);
        }
    }

    /// Writing succeeds exactly when every field that the version carries can be
    /// encoded and every field that it leaves out, where leaving it out is an
    /// error, holds its default.
    #[verifier::spinoff_prover]
    pub proof fn lemma_classic_write_succeeds(m: ControlledShutdownResponseModel)
        ensures
            Self::spec_encode_classic(m) is Ok <==> (map_encode_err(Ok(i16_bytes(m.error_code)), SerializationError::ValueTooLarge { message: "failed to encode ErrorCode" }) is Ok) && (map_encode_err(array_bytes::<RemainingPartition>(m.remaining_partitions, Ctx { version: 0, flexible: false, classic: true }), SerializationError::ValueTooLarge { message: "failed to encode RemainingPartitions" }) is Ok),
    {
    }

    /// Writes the structure in the classic layout.
    /// On failure the buffer is left as it was.
    pub fn encode(&self, buf: &mut Vec<u8>) -> (r: Result<(), SerializationError>)
        ensures
            write_exact(r, old(buf)@, final(buf)@, Self::spec_encode_classic(self.deep_view())),
    {
        let start = buf.len();
        let r = self.write_classic(buf);
        if r.is_err() {
            buf.truncate(start);
        }
        r
    }

    fn write_classic(&self, buf: &mut Vec<u8>) -> (r: Result<(), SerializationError>)
        ensures
            write_ok(r, old(buf)@, final(buf)@, Self::spec_encode_classic(self.deep_view())),
    {
        let ghost mut w: Seq<u8> = Seq::empty();
        put_i16(buf, self.error_code);
        proof {
            w = w + (map_encode_err(Ok(i16_bytes(self.error_code)), SerializationError::ValueTooLarge { message: "failed to encode ErrorCode" }))->Ok_0;
        }
        assert(buf@ =~= old(buf)@ + w);
        match encode_array(&self.remaining_partitions, buf, Ctx { version: 0, flexible: false, classic: true }) {
            Ok(()) => {},
            Err(_) => {
                return Err(SerializationError::ValueTooLarge { message: "failed to encode RemainingPartitions" });
            },
        }
        proof {
            w = w + (map_encode_err(array_bytes::<RemainingPartition>(self.remaining_partitions.deep_view(), Ctx { version: 0, flexible: false, classic: true }), SerializationError::ValueTooLarge { message: "failed to encode RemainingPartitions" }))->Ok_0;
        }
        assert(buf@ =~= old(buf)@ + w);
        Ok(())
    }

    /// Reads the structure in the classic layout.
    /// On failure the reader is put back where it started.
    pub fn decode(buf: &mut Reader) -> (r: Result<Self, SerializationError>)
        ensures
            final(buf).bytes() == old(buf).bytes(),
            read_view_exact(r, Self::spec_decode_classic(old(buf).bytes(), old(buf).pos()), old(buf).pos(), final(buf).pos()),
    {
        let start = buf.position();
        let r = Self::read_classic(buf);
        if r.is_err() {
            buf.set_position(start);
        }
        r
    }

    fn read_classic(buf: &mut Reader) -> (r: Result<Self, SerializationError>)
        ensures
            final(buf).bytes() == old(buf).bytes(),
            read_view_ok(r, Self::spec_decode_classic(old(buf).bytes(), old(buf).pos()), final(buf).pos()),
    {
        let error_code = match buf.get_i16() { Ok(v) => v, Err(_) => { return Err(SerializationError::Protocol { message: "failed to decode ErrorCode" }); } };
        let remaining_partitions = match decode_array::<RemainingPartition>(buf, Ctx { version: 0, flexible: false, classic: true }) { Ok(v) => v, Err(_) => { return Err(SerializationError::Protocol { message: "failed to decode RemainingPartitions" }); } };
        Ok(ControlledShutdownResponse { error_code, remaining_partitions })
    }
}

impl KafkaCodec for ControlledShutdownResponse {
    open spec fn spec_encode(m: ControlledShutdownResponseModel, ctx: Ctx) -> Result<Seq<u8>, SerializationError> {
        Self::spec_encode_classic(m)
    }

    open spec fn reads_back(v: ControlledShutdownResponseModel, ctx: Ctx) -> bool {
        Self::reads_back_classic(v)
    }

    proof fn lemma_read_back(pre: Seq<u8>, v: ControlledShutdownResponseModel, post: Seq<u8>, ctx: Ctx) {
        Self::lemma_classic_read_back(pre, v, post);
        assert(Self::spec_decode(pre + Self::spec_encode(v, ctx)->Ok_0 + post, pre.len() as int, ctx)
            == Self::spec_decode_classic(pre + Self::spec_encode_classic(v)->Ok_0 + post, pre.len() as int));
    }

    open spec fn spec_decode(s: Seq<u8>, pos: int, ctx: Ctx) -> Result<(ControlledShutdownResponseModel, int), SerializationError> {
        Self::spec_decode_classic(s, pos)
    }

    fn encode_ctx(&self, buf: &mut Vec<u8>, ctx: Ctx) -> (r: Result<(), SerializationError>) {
        self.write_classic(buf)
    }

    fn decode_ctx(buf: &mut Reader, ctx: Ctx) -> (r: Result<Self, SerializationError>) {
        Self::read_classic(buf)
    }
}

impl ControlledShutdownResponse {
    /// The API key of this message.
    pub fn get_api_key() -> (r: ApiKey)
        ensures
            r.0 == 7,
    {
        ApiKey::new(7)
    }

    /// The oldest version of this message.
    pub fn get_min_supported_version() -> (r: ApiVersion)
        ensures
            r.0 == 0,
    {
        ApiVersion::new(0)
    }

    /// The newest version of this message.
    pub fn get_max_supported_version() -> (r: ApiVersion)
        ensures
            r.0 == 3,
    {
        ApiVersion::new(3)
    }

    /// The encoding of a whole message body at `version`.
    pub open spec fn spec_serialize(m: ControlledShutdownResponseModel, version: i16) -> Result<Seq<u8>, SerializationError> {
        let is_flexible = false;
        let ctx = Ctx { version, flexible: is_flexible, classic: false };
        let r = Ok(Seq::<u8>::empty());
        let r = then(r, map_encode_err(Ok(i16_bytes(m.error_code)), SerializationError::Encode("failed to encode ErrorCode")));
        let r = then(r, map_encode_err(array_bytes::<RemainingPartition>(m.remaining_partitions, Ctx { version: ctx.version, flexible: false, classic: true }), SerializationError::Encode("failed to encode RemainingPartitions")));
        r
    }

    /// The message body read at `version`.
    pub open spec fn spec_deserialize(s: Seq<u8>, pos: int, version: i16) -> Result<(ControlledShutdownResponseModel, int), SerializationError> {
        let is_flexible = false;
        let ctx = Ctx { version, flexible: is_flexible, classic: false };
        match map_decode_err(parse_i16(s, pos), SerializationError::Decode("failed to decode ErrorCode")) {
            Err(e) => Err(e),
            Ok((error_code, pos)) =>
            match map_decode_err(parse_array::<RemainingPartition>(s, pos, Ctx { version: ctx.version, flexible: false, classic: true }), SerializationError::Decode("failed to decode RemainingPartitions")) {
                Err(e) => Err(e),
                Ok((remaining_partitions, pos)) =>
                Ok((ControlledShutdownResponseModel { error_code, remaining_partitions }, pos))
            }
        }
    }

    /// Message bodies that read back when written at `version`: every field that
    /// the version leaves out holds its default, and nested values read back.
    pub open spec fn reads_back_message(m: ControlledShutdownResponseModel, version: i16) -> bool {
        let is_flexible = false;
        let ctx = Ctx { version, flexible: is_flexible, classic: false };
        &&& forall|i: int| 0 <= i < m.remaining_partitions.len() ==> #[trigger] <RemainingPartition as KafkaCodec>::reads_back(m.remaining_partitions[i], Ctx { version: ctx.version, flexible: false, classic: true })
    }

    /// A message body that can be written at `version` and reads back: reading a
    /// body at `version` from its bytes, wherever they stand, gives the same message.
    #[verifier::spinoff_prover]
    pub proof fn lemma_message_read_back(pre: Seq<u8>, m: ControlledShutdownResponseModel, post: Seq<u8>, version: i16)
        requires
            Self::spec_serialize(m, version) is Ok,
            Self::reads_back_message(m, version),
        ensures
            Self::spec_deserialize(pre + Self::spec_serialize(m, version)->Ok_0 + post, pre.len() as int, version) == Ok::<(ControlledShutdownResponseModel, int), SerializationError>((m, pre.len() as int + Self::spec_serialize(m, version)->Ok_0.len())),
    {
        let is_flexible = false;
        let ctx = Ctx { version, flexible: is_flexible, classic: false };
        let b0 = i16_bytes(m.error_code);
        let b1 = (array_bytes::<RemainingPartition>(m.remaining_partitions, Ctx { version: ctx.version, flexible: false, classic: true }))->Ok_0;
        let t2 = post;
        let t1 = b1 + t2;
        let t0 = b0 + t1;
        let e = Self::spec_serialize(m, version)->Ok_0;
        assert(e =~= Seq::<u8>::empty() + b0 + b1);
        lemma_seq_assoc((Seq::<u8>::empty() + b0), b1, post);
        lemma_seq_assoc(Seq::<u8>::empty(), b0, (b1 + post));
        lemma_seq_empty_left((b0 + (b1 + post)));
        let s = pre + e + post;
        lemma_seq_assoc(pre, e, post);
        assert(s == pre + t0);
        let a0 = pre;
        assert(parse_i16(s, a0.len() as int) == Ok::<(i16, int), SerializationError>((m.error_code, a0.len() as int + b0.len()))) by {
            lemma_seq_assoc(a0, b0, t1);
            lemma_i16_roundtrip(a0, m.error_code, t1);
        }
        lemma_seq_assoc(a0, b0, t1);
        let a1 = a0 + b0;
        assert(parse_array::<RemainingPartition>(s, a1.len() as int, Ctx { version: ctx.version, flexible: false, classic: true }) == Ok::<(Seq<<RemainingPartition as DeepView>::V>, int), SerializationError>((m.remaining_partitions, a1.len() as int + b1.len()))) by {
            assert(array_bytes::<RemainingPartition>(m.remaining_partitions, Ctx { version: ctx.version, flexible: false, classic: true }) is Ok);
            lemma_seq_assoc(a1, b1, t2);
            lemma_items_read_back::<RemainingPartition>(m.remaining_partitions, Ctx { version: ctx.version, flexible: false, classic: true });
            lemma_array_roundtrip::<RemainingPartition>(a1, m.remaining_partitions, t2, Ctx { version: ctx.version, flexible: false, classic: true });
        }
    }

    /// The bytes written: the encoding of each field, in the order of the
    /// protocol's layout. Reading them back, wherever they stand, gives the value,
    /// with each field that the version leaves out at its default.
    #[verifier::spinoff_prover]
    pub proof fn lemma_message_layout(pre: Seq<u8>, m: ControlledShutdownResponseModel, post: Seq<u8>, version: i16)
        requires
            Self::spec_serialize(m, version) is Ok,
        ensures
            Self::spec_serialize(m, version) == Ok::<Seq<u8>, SerializationError>((i16_bytes(m.error_code)) + ((array_bytes::<RemainingPartition>(m.remaining_partitions, Ctx { version: version, flexible: false, classic: true }))->Ok_0)),
            Self::reads_back_message(m, version) ==> Self::spec_deserialize(pre + ((i16_bytes(m.error_code)) + ((array_bytes::<RemainingPartition>(m.remaining_partitions, Ctx { version: version, flexible: false, classic: true }))->Ok_0)) + post, pre.len() as int, version) == Ok::<(ControlledShutdownResponseModel, int), SerializationError>((m, pre.len() as int + ((i16_bytes(m.error_code)) + ((array_bytes::<RemainingPartition>(m.remaining_partitions, Ctx { version: version, flexible: false, classic: true }))->Ok_0)).len())),
    {
        let is_flexible = false;
        let ctx = Ctx { version, flexible: is_flexible, classic: false };
        let b0 = i16_bytes(m.error_code);
        let b1 = (array_bytes::<RemainingPartition>(m.remaining_partitions, Ctx { version: ctx.version, flexible: false, classic: true }))->Ok_0;
        let e = Self::spec_serialize(m, version)->Ok_0;
        assert(e =~= Seq::<u8>::empty() + b0 + b1);
        assert(e =~= b0 + b1);
        if Self::reads_back_message(m, version) {
            Self::lemma_message_read_back(pre, m, post, version);
        }
    }

    /// Writing succeeds exactly when every field that the version carries can be
    /// encoded and every field that it leaves out, where leaving it out is an
    /// error, holds its default.
    #[verifier::spinoff_prover]
    pub proof fn lemma_message_write_succeeds(m: ControlledShutdownResponseModel, version: i16)
        ensures
            Self::spec_serialize(m, version) is Ok <==> (map_encode_err(Ok(i16_bytes(m.error_code)), SerializationError::Encode("failed to encode ErrorCode")) is Ok) && (map_encode_err(array_bytes::<RemainingPartition>(m.remaining_partitions, Ctx { version: version, flexible: false, classic: true }), SerializationError::Encode("failed to encode RemainingPartitions")) is Ok),
    {
        let is_flexible = false;
        let ctx = Ctx { version, flexible: is_flexible, classic: false };
    }

    /// Writes the message body for `version`, which must be a supported version.
    /// On failure the buffer is left as it was.
    pub fn serialize(&self, version: ApiVersion, buf: &mut Vec<u8>) -> (r: Result<(), SerializationError>)
        requires
            0 <= version.0 <= 3,
        ensures
            write_exact(r, old(buf)@, final(buf)@, Self::spec_serialize(self.deep_view(), version.0)),
    {
        let start = buf.len();
        let r = self.write_body(version, buf);
        if r.is_err() {
            buf.truncate(start);
        }
        r
    }

    fn write_body(&self, version: ApiVersion, buf: &mut Vec<u8>) -> (r: Result<(), SerializationError>)
        requires
            0 <= version.0 <= 3,
        ensures
            write_ok(r, old(buf)@, final(buf)@, Self::spec_serialize(self.deep_view(), version.0)),
    {
        let is_flexible = false;
        let ctx = Ctx::new(version, is_flexible);
        let ghost mut w: Seq<u8> = Seq::empty();
        put_i16(buf, self.error_code);
        proof {
            w = w + (map_encode_err(Ok(i16_bytes(self.error_code)), SerializationError::Encode("failed to encode ErrorCode")))->Ok_0;
        }
        assert(buf@ =~= old(buf)@ + w);
        match encode_array(&self.remaining_partitions, buf, Ctx { version: ctx.version, flexible: false, classic: true }) {
            Ok(()) => {},
            Err(_) => {
                return Err(SerializationError::Encode("failed to encode RemainingPartitions"));
            },
        }
        proof {
            w = w + (map_encode_err(array_bytes::<RemainingPartition>(self.remaining_partitions.deep_view(), Ctx { version: ctx.version, flexible: false, classic: true }), SerializationError::Encode("failed to encode RemainingPartitions")))->Ok_0;
        }
        assert(buf@ =~= old(buf)@ + w);
        Ok(())
    }

    /// Reads a message body written for `version`.
    /// On failure the reader is put back where it started.
    pub fn deserialize(version: ApiVersion, buf: &mut Reader) -> (r: Result<Self, SerializationError>)
        ensures
            final(buf).bytes() == old(buf).bytes(),
            read_view_exact(r, Self::spec_deserialize(old(buf).bytes(), old(buf).pos(), version.0), old(buf).pos(), final(buf).pos()),
    {
        let start = buf.position();
        let r = Self::read_body(version, buf);
        if r.is_err() {
            buf.set_position(start);
        }
        r
    }

    fn read_body(version: ApiVersion, buf: &mut Reader) -> (r: Result<Self, SerializationError>)
        ensures
            final(buf).bytes() == old(buf).bytes(),
            read_view_ok(r, Self::spec_deserialize(old(buf).bytes(), old(buf).pos(), version.0), final(buf).pos()),
    {
        let is_flexible = false;
        let ctx = Ctx::new(version, is_flexible);
        let error_code = match buf.get_i16() { Ok(v) => v, Err(_) => { return Err(SerializationError::Decode("failed to decode ErrorCode")); } };
        let remaining_partitions = match decode_array::<RemainingPartition>(buf, Ctx { version: ctx.version, flexible: false, classic: true }) { Ok(v) => v, Err(_) => { return Err(SerializationError::Decode("failed to decode RemainingPartitions")); } };
        Ok(ControlledShutdownResponse { error_code, remaining_partitions })
    }
}

// -------------------------------------------------------
// RemainingPartition
// -------------------------------------------------------
#[derive(Clone, Debug, Default, PartialEq)]
pub struct RemainingPartition {
    /// The name of the topic.
    pub topic_name: String,
    /// The index of the partition.
    pub partition_index: i32,
}

/// The contents of `RemainingPartition`, with strings as characters and
/// nested values by their contents.
pub struct RemainingPartitionModel {
    pub topic_name: Seq<char>,
    pub partition_index: i32,
}

impl DeepView for RemainingPartition {
    type V = RemainingPartitionModel;

    open spec fn deep_view(&self) -> RemainingPartitionModel {
        RemainingPartitionModel {
            topic_name: self.topic_name.deep_view(),
            partition_index: self.partition_index,
        }
    }
}

impl RemainingPartition {
    /// The classic encoding of the structure.
    pub open spec fn spec_encode_classic(m: RemainingPartitionModel) -> Result<Seq<u8>, SerializationError> {
        let r = Ok(Seq::<u8>::empty());
        let r = then(r, map_encode_err(string_bytes(m.topic_name, false), SerializationError::ValueTooLarge { message: "failed to encode TopicName" }));
        let r = then(r, map_encode_err(Ok(i32_bytes(m.partition_index)), SerializationError::ValueTooLarge { message: "failed to encode PartitionIndex" }));
        r
    }

    /// The structure read by the classic decoder.
    pub open spec fn spec_decode_classic(s: Seq<u8>, pos: int) -> Result<(RemainingPartitionModel, int), SerializationError> {
        match map_decode_err(parse_string(s, pos, false), SerializationError::Protocol { message: "failed to decode TopicName" }) {
            Err(e) => Err(e),
            Ok((topic_name, pos)) =>
            match map_decode_err(parse_i32(s, pos), SerializationError::Protocol { message: "failed to decode PartitionIndex" }) {
                Err(e) => Err(e),
                Ok((partition_index, pos)) =>
                Ok((RemainingPartitionModel { topic_name, partition_index }, pos))
            }
        }
    }

    /// Values of the structure that read back from their classic encoding:
    /// nested values read back.
    pub open spec fn reads_back_classic(m: RemainingPartitionModel) -> bool {
        true
    }

    /// A value that can be written and reads back: decoding its encoding, wherever
    /// it stands, gives the value and the position just after it.
    #[verifier::spinoff_prover]
    pub proof fn lemma_classic_read_back(pre: Seq<u8>, m: RemainingPartitionModel, post: Seq<u8>)
        requires
            Self::spec_encode_classic(m) is Ok,
            Self::reads_back_classic(m),
        ensures
            Self::spec_decode_classic(pre + Self::spec_encode_classic(m)->Ok_0 + post, pre.len() as int) == Ok::<(RemainingPartitionModel, int), SerializationError>((m, pre.len() as int + Self::spec_encode_classic(m)->Ok_0.len())),
    {
        let b0 = (string_bytes(m.topic_name, false))->Ok_0;
        let b1 = i32_bytes(m.partition_index);
        let t2 = post;
        let t1 = b1 + t2;
        let t0 = b0 + t1;
        let e = Self::spec_encode_classic(m)->Ok_0;
        assert(e =~= Seq::<u8>::empty() + b0 + b1);
        lemma_seq_assoc((Seq::<u8>::empty() + b0), b1, post);
        lemma_seq_assoc(Seq::<u8>::empty(), b0, (b1 + post));
        lemma_seq_empty_left((b0 + (b1 + post)));
        let s = pre + e + post;
        lemma_seq_assoc(pre, e, post);
        assert(s == pre + t0);
        let a0 = pre;
        assert(parse_string(s, a0.len() as int, false) == Ok::<(Seq<char>, int), SerializationError>((m.topic_name, a0.len() as int + b0.len()))) by {
            assert(string_bytes(m.topic_name, false) is Ok);
            lemma_seq_assoc(a0, b0, t1);
            lemma_string_roundtrip(a0, m.topic_name, t1, false);
        }
        lemma_seq_assoc(a0, b0, t1);
        let a1 = a0 + b0;
        assert(parse_i32(s, a1.len() as int) == Ok::<(i32, int), SerializationError>((m.partition_index, a1.len() as int + b1.len()))) by {
            lemma_seq_assoc(a1, b1, t2);
            lemma_i32_roundtrip(a1, m.partition_index, t2);
        }
    }

    /// The bytes written: the encoding of each field, in the order of the
    /// protocol's layout. Reading them back, wherever they stand, gives the value,
    /// with each field that the version leaves out at its default.
    #[verifier::spinoff_prover]
    pub proof fn lemma_classic_layout(pre: Seq<u8>, m: RemainingPartitionModel, post: Seq<u8>)
        requires
            Self::spec_encode_classic(m) is Ok,
        ensures
            Self::spec_encode_classic(m) == Ok::<Seq<u8>, SerializationError>(((string_bytes(m.topic_name, false))->Ok_0) + (i32_bytes(m.partition_index))),
            Self::reads_back_classic(m) ==> Self::spec_decode_classic(pre + (((string_bytes(m.topic_name, false))->Ok_0) + (i32_bytes(m.partition_index))) + post, pre.len() as int) == Ok::<(RemainingPartitionModel, int), SerializationError>((m, pre.len() as int + (((string_bytes(m.topic_name, false))->Ok_0) + (i32_bytes(m.partition_index))).len())),
    {
        let b0 = (string_bytes(m.topic_name, false))->Ok_0;
        let b1 = i32_bytes(m.partition_index);
        let e = Self::spec_encode_classic(m)->Ok_0;
        assert(e =~= Seq::<u8>::empty() + b0 + b1);
        assert(e =~= b0 + b1);
        if Self::reads_back_classic(m) {
            Self::lemma_classic_read_back(pre, m, post);
        }
    }

    /// Writing succeeds exactly when every field that the version carries can be
    /// encoded and every field that it leaves out, where leaving it out is an
    /// error, holds its default.
    #[verifier::spinoff_prover]
    pub proof fn lemma_classic_write_succeeds(m: RemainingPartitionModel)
        ensures
            Self::spec_encode_classic(m) is Ok <==> (map_encode_err(string_bytes(m.topic_name, false), SerializationError::ValueTooLarge { message: "failed to encode TopicName" }) is Ok) && (map_encode_err(Ok(i32_bytes(m.partition_index)), SerializationError::ValueTooLarge { message: "failed to encode PartitionIndex" }) is Ok),
    {
    }

    /// Writes the structure in the classic layout.
    /// On failure the buffer is left as it was.
    pub fn encode(&self, buf: &mut Vec<u8>) -> (r: Result<(), SerializationError>)
        ensures
            write_exact(r, old(buf)@, final(buf)@, Self::spec_encode_classic(self.deep_view())),
    {
        let start = buf.len();
        let r = self.write_classic(buf);
        if r.is_err() {
            buf.truncate(start);
        }
        r
    }

    fn write_classic(&self, buf: &mut Vec<u8>) -> (r: Result<(), SerializationError>)
        ensures
            write_ok(r, old(buf)@, final(buf)@, Self::spec_encode_classic(self.deep_view())),
    {
        let ghost mut w: Seq<u8> = Seq::empty();
        match encode_string(&self.topic_name, buf, false) {
            Ok(()) => {},
            Err(_) => {
                return Err(SerializationError::ValueTooLarge { message: "failed to encode TopicName" });
            },
        }
        proof {
            w = w + (map_encode_err(string_bytes(self.topic_name.deep_view(), false), SerializationError::ValueTooLarge { message: "failed to encode TopicName" }))->Ok_0;
        }
        assert(buf@ =~= old(buf)@ + w);
        put_i32(buf, self.partition_index);
        proof {
            w = w + (map_encode_err(Ok(i32_bytes(self.partition_index)), SerializationError::ValueTooLarge { message: "failed to encode PartitionIndex" }))->Ok_0;
        }
        assert(buf@ =~= old(buf)@ + w);
        Ok(())
    }

    /// Reads the structure in the classic layout.
    /// On failure the reader is put back where it started.
    pub fn decode(buf: &mut Reader) -> (r: Result<Self, SerializationError>)
        ensures
            final(buf).bytes() == old(buf).bytes(),
            read_view_exact(r, Self::spec_decode_classic(old(buf).bytes(), old(buf).pos()), old(buf).pos(), final(buf).pos()),
    {
        let start = buf.position();
        let r = Self::read_classic(buf);
        if r.is_err() {
            buf.set_position(start);
        }
        r
    }

    fn read_classic(buf: &mut Reader) -> (r: Result<Self, SerializationError>)
        ensures
            final(buf).bytes() == old(buf).bytes(),
            read_view_ok(r, Self::spec_decode_classic(old(buf).bytes(), old(buf).pos()), final(buf).pos()),
    {
        let topic_name = match buf.get_string(false) { Ok(v) => v, Err(_) => { return Err(SerializationError::Protocol { message: "failed to decode TopicName" }); } };
        let partition_index = match buf.get_i32() { Ok(v) => v, Err(_) => { return Err(SerializationError::Protocol { message: "failed to decode PartitionIndex" }); } };
        Ok(RemainingPartition { topic_name, partition_index })
    }
}

impl KafkaCodec for RemainingPartition {
    open spec fn spec_encode(m: RemainingPartitionModel, ctx: Ctx) -> Result<Seq<u8>, SerializationError> {
        Self::spec_encode_classic(m)
    }

    open spec fn reads_back(v: RemainingPartitionModel, ctx: Ctx) -> bool {
        Self::reads_back_classic(v)
    }

    proof fn lemma_read_back(pre: Seq<u8>, v: RemainingPartitionModel, post: Seq<u8>, ctx: Ctx) {
        Self::lemma_classic_read_back(pre, v, post);
        assert(Self::spec_decode(pre + Self::spec_encode(v, ctx)->Ok_0 + post, pre.len() as int, ctx)
            == Self::spec_decode_classic(pre + Self::spec_encode_classic(v)->Ok_0 + post, pre.len() as int));
    }

    open spec fn spec_decode(s: Seq<u8>, pos: int, ctx: Ctx) -> Result<(RemainingPartitionModel, int), SerializationError> {
        Self::spec_decode_classic(s, pos)
    }

    fn encode_ctx(&self, buf: &mut Vec<u8>, ctx: Ctx) -> (r: Result<(), SerializationError>) {
        self.write_classic(buf)
    }

    fn decode_ctx(buf: &mut Reader, ctx: Ctx) -> (r: Result<Self, SerializationError>) {
        Self::read_classic(buf)
    }
}

} // verus!
