//! CreatePartitionsRequest (API key 37).
use vstd::prelude::*;
use crate::roundtrip::{lemma_array_roundtrip, lemma_bool_roundtrip, lemma_i32_roundtrip,
    lemma_items_read_back, lemma_nullable_array_roundtrip, lemma_seq_assoc, lemma_seq_empty_left,
    lemma_string_roundtrip};
use crate::serialization::{Ctx, KafkaCodec, Reader, SerializationError, array_bytes, bool_bytes,
    decode_array, decode_nullable_array, encode_array, encode_nullable_array, encode_string,
    i32_bytes, map_decode_err, map_encode_err, nullable_array_bytes, parse_array, parse_bool,
    parse_i32, parse_nullable_array, parse_string, put_bool, put_i32, read_view_exact,
    read_view_ok, string_bytes, then, write_exact, write_ok};
use crate::{ApiKey, ApiVersion};

verus! {

// -------------------------------------------------------
// CreatePartitionsRequest
// -------------------------------------------------------
#[derive(Clone, Debug, Default, PartialEq)]
pub struct CreatePartitionsRequest {
    /// Each topic that we want to create new partitions inside.
    pub topics: Vec<CreatePartitionsTopic>,
    /// The time in ms to wait for the partitions to be created.
    pub timeout_ms: i32,
    /// If true, then validate the request, but don't actually increase the number of partitions.
    pub validate_only: bool,
}

/// The contents of `CreatePartitionsRequest`, with strings as characters and
/// nested values by their contents.
pub struct CreatePartitionsRequestModel {
    pub topics: Seq<<CreatePartitionsTopic as DeepView>::V>,
    pub timeout_ms: i32,
    pub validate_only: bool,
}

impl DeepView for CreatePartitionsRequest {
    type V = CreatePartitionsRequestModel;

    open spec fn deep_view(&self) -> CreatePartitionsRequestModel {
        CreatePartitionsRequestModel {
            topics: self.topics.deep_view(),
            timeout_ms: self.timeout_ms,
            validate_only: self.validate_only,
        }
    }
}

impl CreatePartitionsRequest {
    /// The classic encoding of the structure.
    pub open spec fn spec_encode_classic(m: CreatePartitionsRequestModel) -> Result<Seq<u8>, SerializationError> {
        let r = Ok(Seq::<u8>::empty());
        let r = then(r, map_encode_err(array_bytes::<CreatePartitionsTopic>(m.topics, Ctx { version: 0, flexible: false, classic: true }), SerializationError::ValueTooLarge { message: "failed to encode Topics" }));
        let r = then(r, map_encode_err(Ok(i32_bytes(m.timeout_ms)), SerializationError::ValueTooLarge { message: "failed to encode TimeoutMs" }));
        let r = then(r, map_encode_err(Ok(bool_bytes(m.validate_only)), SerializationError::ValueTooLarge { message: "failed to encode ValidateOnly" }));
        r
    }

    /// The structure read by the classic decoder.
    pub open spec fn spec_decode_classic(s: Seq<u8>, pos: int) -> Result<(CreatePartitionsRequestModel, int), SerializationError> {
        match map_decode_err(parse_array::<CreatePartitionsTopic>(s, pos, Ctx { version: 0, flexible: false, classic: true }), SerializationError::Protocol { message: "failed to decode Topics" }) {
            Err(e) => Err(e),
            Ok((topics, pos)) =>
            match map_decode_err(parse_i32(s, pos), SerializationError::Protocol { message: "failed to decode TimeoutMs" }) {
                Err(e) => Err(e),
                Ok((timeout_ms, pos)) =>
                match map_decode_err(parse_bool(s, pos), SerializationError::Protocol { message: "failed to decode ValidateOnly" }) {
                    Err(e) => Err(e),
                    Ok((validate_only, pos)) =>
                    Ok((CreatePartitionsRequestModel { topics, timeout_ms, validate_only }, pos))
                }
            }
        }
    }

    /// Values of the structure that read back from their classic encoding:
    /// nested values read back.
    pub open spec fn reads_back_classic(m: CreatePartitionsRequestModel) -> bool {
        &&& forall|i: int| 0 <= i < m.topics.len() ==> #[trigger] <CreatePartitionsTopic as KafkaCodec>::reads_back(m.topics[i], Ctx { version: 0, flexible: false, classic: true })
    }

    /// A value that can be written and reads back: decoding its encoding, wherever
    /// it stands, gives the value and the position just after it.
    #[verifier::spinoff_prover]
    pub proof fn lemma_classic_read_back(pre: Seq<u8>, m: CreatePartitionsRequestModel, post: Seq<u8>)
        requires
            Self::spec_encode_classic(m) is Ok,
            Self::reads_back_classic(m),
        ensures
            Self::spec_decode_classic(pre + Self::spec_encode_classic(m)->Ok_0 + post, pre.len() as int) == Ok::<(CreatePartitionsRequestModel, int), SerializationError>((m, pre.len() as int + Self::spec_encode_classic(m)->Ok_0.len())),
    {
        let b0 = (array_bytes::<CreatePartitionsTopic>(m.topics, Ctx { version: 0, flexible: false, classic: true }))->Ok_0;
        let b1 = i32_bytes(m.timeout_ms);
        let b2 = bool_bytes(m.validate_only);
        let t3 = post;
        let t2 = b2 + t3;
        let t1 = b1 + t2;
        let t0 = b0 + t1;
        let e = Self::spec_encode_classic(m)->Ok_0;
        assert(e =~= Seq::<u8>::empty() + b0 + b1 + b2);
        lemma_seq_assoc(((Seq::<u8>::empty() + b0) + b1), b2, post);
        lemma_seq_assoc((Seq::<u8>::empty() + b0), b1, (b2 + post));
        lemma_seq_assoc(Seq::<u8>::empty(), b0, (b1 + (b2 + post)));
        lemma_seq_empty_left((b0 + (b1 + (b2 + post))));
        let s = pre + e + post;
        lemma_seq_assoc(pre, e, post);
        assert(s == pre + t0);
        let a0 = pre;
        assert(parse_array::<CreatePartitionsTopic>(s, a0.len() as int, Ctx { version: 0, flexible: false, classic: true }) == Ok::<(Seq<<CreatePartitionsTopic as DeepView>::V>, int), SerializationError>((m.topics, a0.len() as int + b0.len()))) by {
            assert(array_bytes::<CreatePartitionsTopic>(m.topics, Ctx { version: 0, flexible: false, classic: true }) is Ok);
            lemma_seq_assoc(a0, b0, t1);
            lemma_items_read_back::<CreatePartitionsTopic>(m.topics, Ctx { version: 0, flexible: false, classic: true });
            lemma_array_roundtrip::<CreatePartitionsTopic>(a0, m.topics, t1, Ctx { version: 0, flexible: false, classic: true });
        }
        lemma_seq_assoc(a0, b0, t1);
        let a1 = a0 + b0;
        assert(parse_i32(s, a1.len() as int) == Ok::<(i32, int), SerializationError>((m.timeout_ms, a1.len() as int + b1.len()))) by {
            lemma_seq_assoc(a1, b1, t2);
            lemma_i32_roundtrip(a1, m.timeout_ms, t2);
        }
        lemma_seq_assoc(a1, b1, t2);
        let a2 = a1 + b1;
        assert(parse_bool(s, a2.len() as int) == Ok::<(bool, int), SerializationError>((m.validate_only, a2.len() as int + b2.len()))) by {
            lemma_seq_assoc(a2, b2, t3);
            lemma_bool_roundtrip(a2, m.validate_only, t3);
        }
    }

    /// The bytes written: the encoding of each field, in the order of the
    /// protocol's layout. Reading them back, wherever they stand, gives the value,
    /// with each field that the version leaves out at its default.
    #[verifier::spinoff_prover]
    pub proof fn lemma_classic_layout(pre: Seq<u8>, m: CreatePartitionsRequestModel, post: Seq<u8>)
        requires
            Self::spec_encode_classic(m) is Ok,
        ensures
            Self::spec_encode_classic(m) == Ok::<Seq<u8>, SerializationError>(((array_bytes::<CreatePartitionsTopic>(m.topics, Ctx { version: 0, flexible: false, classic: true }))->Ok_0) + (i32_bytes(m.timeout_ms)) + (bool_bytes(m.validate_only))),
            Self::reads_back_classic(m) ==> Self::spec_decode_classic(pre + (((array_bytes::<CreatePartitionsTopic>(m.topics, Ctx { version: 0, flexible: false, classic: true }))->Ok_0) + (i32_bytes(m.timeout_ms)) + (bool_bytes(m.validate_only))) + post, pre.len() as int) == Ok::<(CreatePartitionsRequestModel, int), SerializationError>((m, pre.len() as int + (((array_bytes::<CreatePartitionsTopic>(m.topics, Ctx { version: 0, flexible: false, classic: true }))->Ok_0) + (i32_bytes(m.timeout_ms)) + (bool_bytes(m.validate_only))).len())),
    {
        let b0 = (array_bytes::<CreatePartitionsTopic>(m.topics, Ctx { version: 0, flexible: false, classic: true }))->Ok_0;
        let b1 = i32_bytes(m.timeout_ms);
        let b2 = bool_bytes(m.validate_only);
        let e = Self::spec_encode_classic(m)->Ok_0;
        assert(e =~= Seq::<u8>::empty() + b0 + b1 + b2);
        assert(e =~= b0 + b1 + b2);
        if Self::reads_back_classic(m) {
            Self::lemma_classic_read_back(pre, m, post);
        }
    }

    /// Writing succeeds exactly when every field that the version carries can be
    /// encoded and every field that it leaves out, where leaving it out is an
    /// error, holds its default.
    #[verifier::spinoff_prover]
    pub proof fn lemma_classic_write_succeeds(m: CreatePartitionsRequestModel)
        ensures
            Self::spec_encode_classic(m) is Ok <==> (map_encode_err(array_bytes::<CreatePartitionsTopic>(m.topics, Ctx { version: 0, flexible: false, classic: true }), SerializationError::ValueTooLarge { message: "failed to encode Topics" }) is Ok) && (map_encode_err(Ok(i32_bytes(m.timeout_ms)), SerializationError::ValueTooLarge { message: "failed to encode TimeoutMs" }) is Ok) && (map_encode_err(Ok(bool_bytes(m.validate_only)), SerializationError::ValueTooLarge { message: "failed to encode ValidateOnly" }) is Ok),
    {
    }

    /// Writes the structure in the classic layout.
    /// On failure the buffer is left as it was.
    pub fn encode(&self, buf: &mut Vec<u8>) -> (r: Result<(), SerializationError>)
        ensures
            write_exact(r, old(buf)@, final(buf)@, Self::spec_encode_classic(self.deep_view())),
    {
        let start = buf.len();
        let r = self.write_classic(buf);
        if r.is_err() {
            buf.truncate(start);
        }
        r
    }

    fn write_classic(&self, buf: &mut Vec<u8>) -> (r: Result<(), SerializationError>)
        ensures
            write_ok(r, old(buf)@, final(buf)@, Self::spec_encode_classic(self.deep_view())),
    {
        let ghost mut w: Seq<u8> = Seq::empty();
        match encode_array(&self.topics, buf, Ctx { version: 0, flexible: false, classic: true }) {
            Ok(()) => {},
            Err(_) => {
                return Err(SerializationError::ValueTooLarge { message: "failed to encode Topics" });
            },
        }
        proof {
            w = w + (map_encode_err(array_bytes::<CreatePartitionsTopic>(self.topics.deep_view(), Ctx { version: 0, flexible: false, classic: true }), SerializationError::ValueTooLarge { message: "failed to encode Topics" }))->Ok_0;
        }
        assert(buf@ =~= old(buf)@ + w);
        put_i32(buf, self.timeout_ms);
        proof {
            w = w + (map_encode_err(Ok(i32_bytes(self.timeout_ms)), SerializationError::ValueTooLarge { message: "failed to encode TimeoutMs" }))->Ok_0;
        }
        assert(buf@ =~= old(buf)@ + w);
        put_bool(buf, self.validate_only);
        proof {
            w = w + (map_encode_err(Ok(bool_bytes(self.validate_only)), SerializationError::ValueTooLarge { message: "failed to encode ValidateOnly" }))->Ok_0;
        }
        assert(buf@ =~= old(buf)@ + w);
        Ok(())
    }

    /// Reads the structure in the classic layout.
    /// On failure the reader is put back where it started.
    pub fn decode(buf: &mut Reader) -> (r: Result<Self, SerializationError>)
        ensures
            final(buf).bytes() == old(buf).bytes(),
            read_view_exact(r, Self::spec_decode_classic(old(buf).bytes(), old(buf).pos()), old(buf).pos(), final(buf).pos()),
    {
        let start = buf.position();
        let r = Self::read_classic(buf);
        if r.is_err() {
            buf.set_position(start);
        }
        r
    }

    fn read_classic(buf: &mut Reader) -> (r: Result<Self, SerializationError>)
        ensures
            final(buf).bytes() == old(buf).bytes(),
            read_view_ok(r, Self::spec_decode_classic(old(buf).bytes(), old(buf).pos()), final(buf).pos()),
    {
        let topics = match decode_array::<CreatePartitionsTopic>(buf, Ctx { version: 0, flexible: false, classic: true }) { Ok(v) => v, Err(_) => { return Err(SerializationError::Protocol { message: "failed to decode Topics" }); } };
        let timeout_ms = match buf.get_i32() { Ok(v) => v, Err(_) => { return Err(SerializationError::Protocol { message: "failed to decode TimeoutMs" }); } };
        let validate_only = match buf.get_bool() { Ok(v) => v, Err(_) => { return Err(SerializationError::Protocol { message: "failed to decode ValidateOnly" }); } };
        Ok(CreatePartitionsRequest { topics, timeout_ms, validate_only })
    }
}

impl KafkaCodec for CreatePartitionsRequest {
    open spec fn spec_encode(m: CreatePartitionsRequestModel, ctx: Ctx) -> Result<Seq<u8>, SerializationError> {
        Self::spec_encode_classic(m)
    }

    open spec fn reads_back(v: CreatePartitionsRequestModel, ctx: Ctx) -> bool {
        Self::reads_back_classic(v)
    }

    proof fn lemma_read_back(pre: Seq<u8>, v: CreatePartitionsRequestModel, post: Seq<u8>, ctx: Ctx) {
        Self::lemma_classic_read_back(pre, v, post);
        assert(Self::spec_decode(pre + Self::spec_encode(v, ctx)->Ok_0 + post, pre.len() as int, ctx)
            == Self::spec_decode_classic(pre + Self::spec_encode_classic(v)->Ok_0 + post, pre.len() as int));
    }

    open spec fn spec_decode(s: Seq<u8>, pos: int, ctx: Ctx) -> Result<(CreatePartitionsRequestModel, int), SerializationError> {
        Self::spec_decode_classic(s, pos)
    }

    fn encode_ctx(&self, buf: &mut Vec<u8>, ctx: Ctx) -> (r: Result<(), SerializationError>) {
        self.write_classic(buf)
    }

    fn decode_ctx(buf: &mut Reader, ctx: Ctx) -> (r: Result<Self, SerializationError>) {
        Self::read_classic(buf)
    }
}

impl CreatePartitionsRequest {
    /// The API key of this message.
    pub fn get_api_key() -> (r: ApiKey)
        ensures
            r.0 == 37,
    {
        ApiKey::new(37)
    }

    /// The oldest version of this message.
    pub fn get_min_supported_version() -> (r: ApiVersion)
        ensures
            r.0 == 0,
    {
        ApiVersion::new(0)
    }

    /// The newest version of this message.
    pub fn get_max_supported_version() -> (r: ApiVersion)
        ensures
            r.0 == 3,
    {
        ApiVersion::new(3)
    }

    /// The encoding of a whole message body at `version`.
    pub open spec fn spec_serialize(m: CreatePartitionsRequestModel, version: i16) -> Result<Seq<u8>, SerializationError> {
        let is_flexible = false;
        let ctx = Ctx { version, flexible: is_flexible, classic: false };
        let r = Ok(Seq::<u8>::empty());
        let r = then(r, map_encode_err(array_bytes::<CreatePartitionsTopic>(m.topics, Ctx { version: ctx.version, flexible: false, classic: true }), SerializationError::Encode("failed to encode Topics")));
        let r = then(r, map_encode_err(Ok(i32_bytes(m.timeout_ms)), SerializationError::Encode("failed to encode TimeoutMs")));
        let r = then(r, map_encode_err(Ok(bool_bytes(m.validate_only)), SerializationError::Encode("failed to encode ValidateOnly")));
        r
    }

    /// The message body read at `version`.
    pub open spec fn spec_deserialize(s: Seq<u8>, pos: int, version: i16) -> Result<(CreatePartitionsRequestModel, int), SerializationError> {
        let is_flexible = false;
        let ctx = Ctx { version, flexible: is_flexible, classic: false };
        match map_decode_err(parse_array::<CreatePartitionsTopic>(s, pos, Ctx { version: ctx.version, flexible: false, classic: true }), SerializationError::Decode("failed to decode Topics")) {
            Err(e) => Err(e),
            Ok((topics, pos)) =>
            match map_decode_err(parse_i32(s, pos), SerializationError::Decode("failed to decode TimeoutMs")) {
                Err(e) => Err(e),
                Ok((timeout_ms, pos)) =>
                match map_decode_err(parse_bool(s, pos), SerializationError::Decode("failed to decode ValidateOnly")) {
                    Err(e) => Err(e),
                    Ok((validate_only, pos)) =>
                    Ok((CreatePartitionsRequestModel { topics, timeout_ms, validate_only }, pos))
                }
            }
        }
    }

    /// Message bodies that read back when written at `version`: every field that
    /// the version leaves out holds its default, and nested values read back.
    pub open spec fn reads_back_message(m: CreatePartitionsRequestModel, version: i16) -> bool {
        let is_flexible = false;
        let ctx = Ctx { version, flexible: is_flexible, classic: false };
        &&& forall|i: int| 0 <= i < m.topics.len() ==> #[trigger] <CreatePartitionsTopic as KafkaCodec>::reads_back(m.topics[i], Ctx { version: ctx.version, flexible: false, classic: true })
    }

    /// A message body that can be written at `version` and reads back: reading a
    /// body at `version` from its bytes, wherever they stand, gives the same message.
    #[verifier::spinoff_prover]
    pub proof fn lemma_message_read_back(pre: Seq<u8>, m: CreatePartitionsRequestModel, post: Seq<u8>, version: i16)
        requires
            Self::spec_serialize(m, version) is Ok,
            Self::reads_back_message(m, version),
        ensures
            Self::spec_deserialize(pre + Self::spec_serialize(m, version)->Ok_0 + post, pre.len() as int, version) == Ok::<(CreatePartitionsRequestModel, int), SerializationError>((m, pre.len() as int + Self::spec_serialize(m, version)->Ok_0.len())),
    {
        let is_flexible = false;
        let ctx = Ctx { version, flexible: is_flexible, classic: false };
        let b0 = (array_bytes::<CreatePartitionsTopic>(m.topics, Ctx { version: ctx.version, flexible: false, classic: true }))->Ok_0;
        let b1 = i32_bytes(m.timeout_ms);
        let b2 = bool_bytes(m.validate_only);
        let t3 = post;
        let t2 = b2 + t3;
        let t1 = b1 + t2;
        let t0 = b0 + t1;
        let e = Self::spec_serialize(m, version)->Ok_0;
        assert(e =~= Seq::<u8>::empty() + b0 + b1 + b2);
        lemma_seq_assoc(((Seq::<u8>::empty() + b0) + b1), b2, post);
        lemma_seq_assoc((Seq::<u8>::empty() + b0), b1, (b2 + post));
        lemma_seq_assoc(Seq::<u8>::empty(), b0, (b1 + (b2 + post)));
        lemma_seq_empty_left((b0 + (b1 + (b2 + post))));
        let s = pre + e + post;
        lemma_seq_assoc(pre, e, post);
        assert(s == pre + t0);
        let a0 = pre;
        assert(parse_array::<CreatePartitionsTopic>(s, a0.len() as int, Ctx { version: ctx.version, flexible: false, classic: true }) == Ok::<(Seq<<CreatePartitionsTopic as DeepView>::V>, int), SerializationError>((m.topics, a0.len() as int + b0.len()))) by {
            assert(array_bytes::<CreatePartitionsTopic>(m.topics, Ctx { version: ctx.version, flexible: false, classic: true }) is Ok);
            lemma_seq_assoc(a0, b0, t1);
            lemma_items_read_back::<CreatePartitionsTopic>(m.topics, Ctx { version: ctx.version, flexible: false, classic: true });
            lemma_array_roundtrip::<CreatePartitionsTopic>(a0, m.topics, t1, Ctx { version: ctx.version, flexible: false, classic: true });
        }
        lemma_seq_assoc(a0, b0, t1);
        let a1 = a0 + b0;
        assert(parse_i32(s, a1.len() as int) == Ok::<(i32, int), SerializationError>((m.timeout_ms, a1.len() as int + b1.len()))) by {
            lemma_seq_assoc(a1, b1, t2);
            lemma_i32_roundtrip(a1, m.timeout_ms, t2);
        }
        lemma_seq_assoc(a1, b1, t2);
        let a2 = a1 + b1;
        assert(parse_bool(s, a2.len() as int) == Ok::<(bool, int), SerializationError>((m.validate_only, a2.len() as int + b2.len()))) by {
            lemma_seq_assoc(a2, b2, t3);
            lemma_bool_roundtrip(a2, m.validate_only, t3);
        }
    }

    /// The bytes written: the encoding of each field, in the order of the
    /// protocol's layout. Reading them back, wherever they stand, gives the value,
    /// with each field that the version leaves out at its default.
    #[verifier::spinoff_prover]
    pub proof fn lemma_message_layout(pre: Seq<u8>, m: CreatePartitionsRequestModel, post: Seq<u8>, version: i16)
        requires
            Self::spec_serialize(m, version) is Ok,
        ensures
            Self::spec_serialize(m, version) == Ok::<Seq<u8>, SerializationError>(((array_bytes::<CreatePartitionsTopic>(m.topics, Ctx { version: version, flexible: false, classic: true }))->Ok_0) + (i32_bytes(m.timeout_ms)) + (bool_bytes(m.validate_only))),
            Self::reads_back_message(m, version) ==> Self::spec_deserialize(pre + (((array_bytes::<CreatePartitionsTopic>(m.topics, Ctx { version: version, flexible: false, classic: true }))->Ok_0) + (i32_bytes(m.timeout_ms)) + (bool_bytes(m.validate_only))) + post, pre.len() as int, version) == Ok::<(CreatePartitionsRequestModel, int), SerializationError>((m, pre.len() as int + (((array_bytes::<CreatePartitionsTopic>(m.topics, Ctx { version: version, flexible: false, classic: true }))->Ok_0) + (i32_bytes(m.timeout_ms)) + (bool_bytes(m.validate_only))).len())),
    {
        let is_flexible = false;
        let ctx = Ctx { version, flexible: is_flexible, classic: false };
        let b0 = (array_bytes::<CreatePartitionsTopic>(m.topics, Ctx { version: ctx.version, flexible: false, classic: true }))->Ok_0;
        let b1 = i32_bytes(m.timeout_ms);
        let b2 = bool_bytes(m.validate_only);
        let e = Self::spec_serialize(m, version)->Ok_0;
        assert(e =~= Seq::<u8>::empty() + b0 + b1 + b2);
        assert(e =~= b0 + b1 + b2);
        if Self::reads_back_message(m, version) {
            Self::lemma_message_read_back(pre, m, post, version);
        }
    }

    /// Writing succeeds exactly when every field that the version carries can be
    /// encoded and every field that it leaves out, where leaving it out is an
    /// error, holds its default.
    #[verifier::spinoff_prover]
    pub proof fn lemma_message_write_succeeds(m: CreatePartitionsRequestModel, version: i16)
        ensures
            Self::spec_serialize(m, version) is Ok <==> (map_encode_err(array_bytes::<CreatePartitionsTopic>(m.topics, Ctx { version: version, flexible: false, classic: true }), SerializationError::Encode("failed to encode Topics")) is Ok) && (map_encode_err(Ok(i32_bytes(m.timeout_ms)), SerializationError::Encode("failed to encode TimeoutMs")) is Ok) && (map_encode_err(Ok(bool_bytes(m.validate_only)), SerializationError::Encode("failed to encode ValidateOnly")) is Ok),
    {
        let is_flexible = false;
        let ctx = Ctx { version, flexible: is_flexible, classic: false };
    }

    /// Writes the message body for `version`, which must be a supported version.
    /// On failure the buffer is left as it was.
    pub fn serialize(&self, version: ApiVersion, buf: &mut Vec<u8>) -> (r: Result<(), SerializationError>)
        requires
            0 <= version.0 <= 3,
        ensures
            write_exact(r, old(buf)@, final(buf)@, Self::spec_serialize(self.deep_view(), version.0)),
    {
        let start = buf.len();
        let r = self.write_body(version, buf);
        if r.is_err() {
            buf.truncate(start);
        }
        r
    }

    fn write_body(&self, version: ApiVersion, buf: &mut Vec<u8>) -> (r: Result<(), SerializationError>)
        requires
            0 <= version.0 <= 3,
        ensures
            write_ok(r, old(buf)@, final(buf)@, Self::spec_serialize(self.deep_view(), version.0)),
    {
        let is_flexible = false;
        let ctx = Ctx::new(version, is_flexible);
        let ghost mut w: Seq<u8> = Seq::empty();
        match encode_array(&self.topics, buf, Ctx { version: ctx.version, flexible: false, classic: true }) {
            Ok(()) => {},
            Err(_) => {
                return Err(SerializationError::Encode("failed to encode Topics"));
            },
        }
        proof {
            w = w + (map_encode_err(array_bytes::<CreatePartitionsTopic>(self.topics.deep_view(), Ctx { version: ctx.version, flexible: false, classic: true }), SerializationError::Encode("failed to encode Topics")))->Ok_0;
        }
        assert(buf@ =~= old(buf)@ + w);
        put_i32(buf, self.timeout_ms);
        proof {
            w = w + (map_encode_err(Ok(i32_bytes(self.timeout_ms)), SerializationError::Encode("failed to encode TimeoutMs")))->Ok_0;
        }
        assert(buf@ =~= old(buf)@ + w);
        put_bool(buf, self.validate_only);
        proof {
            w = w + (map_encode_err(Ok(bool_bytes(self.validate_only)), SerializationError::Encode("failed to encode ValidateOnly")))->Ok_0;
        }
        assert(buf@ =~= old(buf)@ + w);
        Ok(())
    }

    /// Reads a message body written for `version`.
    /// On failure the reader is put back where it started.
    pub fn deserialize(version: ApiVersion, buf: &mut Reader) -> (r: Result<Self, SerializationError>)
        ensures
            final(buf).bytes() == old(buf).bytes(),
            read_view_exact(r, Self::spec_deserialize(old(buf).bytes(), old(buf).pos(), version.0), old(buf).pos(), final(buf).pos()),
    {
        let start = buf.position();
        let r = Self::read_body(version, buf);
        if r.is_err() {
            buf.set_position(start);
        }
        r
    }

    fn read_body(version: ApiVersion, buf: &mut Reader) -> (r: Result<Self, SerializationError>)
        ensures
            final(buf).bytes() == old(buf).bytes(),
            read_view_ok(r, Self::spec_deserialize(old(buf).bytes(), old(buf).pos(), version.0), final(buf).pos()),
    {
        let is_flexible = false;
        let ctx = Ctx::new(version, is_flexible);
        let topics = match decode_array::<CreatePartitionsTopic>(buf, Ctx { version: ctx.version, flexible: false, classic: true }) { Ok(v) => v, Err(_) => { return Err(SerializationError::Decode("failed to decode Topics")); } };
        let timeout_ms = match buf.get_i32() { Ok(v) => v, Err(_) => { return Err(SerializationError::Decode("failed to decode TimeoutMs")); } };
        let validate_only = match buf.get_bool() { Ok(v) => v, Err(_) => { return Err(SerializationError::Decode("failed to decode ValidateOnly")); } };
        Ok(CreatePartitionsRequest { topics, timeout_ms, validate_only })
    }
}

// -------------------------------------------------------
// CreatePartitionsAssignment
// -------------------------------------------------------
#[derive(Clone, Debug, Default, PartialEq)]
pub struct CreatePartitionsAssignment {
    /// The assigned broker IDs.
    pub broker_ids: Vec<i32>,
}

/// The contents of `CreatePartitionsAssignment`, with strings as characters and
/// nested values by their contents.
pub struct CreatePartitionsAssignmentModel {
    pub broker_ids: Seq<<i32 as DeepView>::V>,
}

impl DeepView for CreatePartitionsAssignment {
    type V = CreatePartitionsAssignmentModel;

    open spec fn deep_view(&self) -> CreatePartitionsAssignmentModel {
        CreatePartitionsAssignmentModel {
            broker_ids: self.broker_ids.deep_view(),
        }
    }
}

impl CreatePartitionsAssignment {
    /// The classic encoding of the structure.
    pub open spec fn spec_encode_classic(m: CreatePartitionsAssignmentModel) -> Result<Seq<u8>, SerializationError> {
        let r = Ok(Seq::<u8>::empty());
        let r = then(r, map_encode_err(array_bytes::<i32>(m.broker_ids, Ctx { version: 0, flexible: false, classic: true }), SerializationError::ValueTooLarge { message: "failed to encode BrokerIds" }));
        r
    }

    /// The structure read by the classic decoder.
    pub open spec fn spec_decode_classic(s: Seq<u8>, pos: int) -> Result<(CreatePartitionsAssignmentModel, int), SerializationError> {
        match map_decode_err(parse_array::<i32>(s, pos, Ctx { version: 0, flexible: false, classic: true }), SerializationError::Protocol { message: "failed to decode BrokerIds" }) {
            Err(e) => Err(e),
            Ok((broker_ids, pos)) =>
            Ok((CreatePartitionsAssignmentModel { broker_ids }, pos))
        }
    }

    /// Values of the structure that read back from their classic encoding:
    /// nested values read back.
    pub open spec fn reads_back_classic(m: CreatePartitionsAssignmentModel) -> bool {
        &&& forall|i: int| 0 <= i < m.broker_ids.len() ==> #[trigger] <i32 as KafkaCodec>::reads_back(m.broker_ids[i], Ctx { version: 0, flexible: false, classic: true })
    }

    /// A value that can be written and reads back: decoding its encoding, wherever
    /// it stands, gives the value and the position just after it.
    #[verifier::spinoff_prover]
    pub proof fn lemma_classic_read_back(pre: Seq<u8>, m: CreatePartitionsAssignmentModel, post: Seq<u8>)
        requires
            Self::spec_encode_classic(m) is Ok,
            Self::reads_back_classic(m),
        ensures
            Self::spec_decode_classic(pre + Self::spec_encode_classic(m)->Ok_0 + post, pre.len() as int) == Ok::<(CreatePartitionsAssignmentModel, int), SerializationError>((m, pre.len() as int + Self::spec_encode_classic(m)->Ok_0.len())),
    {
        let b0 = (array_bytes::<i32>(m.broker_ids, Ctx { version: 0, flexible: false, classic: true }))->Ok_0;
        let t1 = post;
        let t0 = b0 + t1;
        let e = Self::spec_encode_classic(m)->Ok_0;
        assert(e =~= Seq::<u8>::empty() + b0);
        lemma_seq_assoc(Seq::<u8>::empty(), b0, post);
        lemma_seq_empty_left((b0 + post));
        let s = pre + e + post;
        lemma_seq_assoc(pre, e, post);
        assert(s == pre + t0);
        let a0 = pre;
        assert(parse_array::<i32>(s, a0.len() as int, Ctx { version: 0, flexible: false, classic: true }) == Ok::<(Seq<<i32 as DeepView>::V>, int), SerializationError>((m.broker_ids, a0.len() as int + b0.len()))) by {
            assert(array_bytes::<i32>(m.broker_ids, Ctx { version: 0, flexible: false, classic: true }) is Ok);
            lemma_seq_assoc(a0, b0, t1);
            lemma_items_read_back::<i32>(m.broker_ids, Ctx { version: 0, flexible: false, classic: true });
            lemma_array_roundtrip::<i32>(a0, m.broker_ids, t1, Ctx { version: 0, flexible: false, classic: true });
        }
    }

    /// The bytes written: the encoding of each field, in the order of the
    /// protocol's layout. Reading them back, wherever they stand, gives the value,
    /// with each field that the version leaves out at its default.
    #[verifier::spinoff_prover]
    pub proof fn lemma_classic_layout(pre: Seq<u8>, m: CreatePartitionsAssignmentModel, post: Seq<u8>)
        requires
            Self::spec_encode_classic(m) is Ok,
        ensures
            Self::spec_encode_classic(m) == Ok::<Seq<u8>, SerializationError>(((array_bytes::<i32>(m.broker_ids, Ctx { version: 0, flexible: false, classic: true }))->Ok_0)),
            Self::reads_back_classic(m) ==> Self::spec_decode_classic(pre + (((array_bytes::<i32>(m.broker_ids, Ctx { version: 0, flexible: false, classic: true }))->Ok_0)) + post, pre.len() as int) == Ok::<(CreatePartitionsAssignmentModel, int), SerializationError>((m, pre.len() as int + (((array_bytes::<i32>(m.broker_ids, Ctx { version: 0, flexible: false, classic: true }))->Ok_0)).len())),
    {
        let b0 = (array_bytes::<i32>(m.broker_ids, Ctx { version: 0, flexible: false, classic: true }))->Ok_0;
        let e = Self::spec_encode_classic(m)->Ok_0;
        assert(e =~= Seq::<u8>::empty() + b0);
        assert(e =~= b0);
        if Self::reads_back_classic(m) {
            Self::lemma_classic_read_back(pre, m, post);
        }
    }

    /// Writing succeeds exactly when every field that the version carries can be
    /// encoded and every field that it leaves out, where leaving it out is an
    /// error, holds its default.
    #[verifier::spinoff_prover]
    pub proof fn lemma_classic_write_succeeds(m: CreatePartitionsAssignmentModel)
        ensures
            Self::spec_encode_classic(m) is Ok <==> (map_encode_err(array_bytes::<i32>(m.broker_ids, Ctx { version: 0, flexible: false, classic: true }), SerializationError::ValueTooLarge { message: "failed to encode BrokerIds" }) is Ok),
    {
    }

    /// Writes the structure in the classic layout.
    /// On failure the buffer is left as it was.
    pub fn encode(&self, buf: &mut Vec<u8>) -> (r: Result<(), SerializationError>)
        ensures
            write_exact(r, old(buf)@, final(buf)@, Self::spec_encode_classic(self.deep_view())),
    {
        let start = buf.len();
        let r = self.write_classic(buf);
        if r.is_err() {
            buf.truncate(start);
        }
        r
    }

    fn write_classic(&self, buf: &mut Vec<u8>) -> (r: Result<(), SerializationError>)
        ensures
            write_ok(r, old(buf)@, final(buf)@, Self::spec_encode_classic(self.deep_view())),
    {
        let ghost mut w: Seq<u8> = Seq::empty();
        match encode_array(&self.broker_ids, buf, Ctx { version: 0, flexible: false, classic: true }) {
            Ok(()) => {},
            Err(_) => {
                return Err(SerializationError::ValueTooLarge { message: "failed to encode BrokerIds" });
            },
        }
        proof {
            w = w + (map_encode_err(array_bytes::<i32>(self.broker_ids.deep_view(), Ctx { version: 0, flexible: false, classic: true }), SerializationError::ValueTooLarge { message: "failed to encode BrokerIds" }))->Ok_0;
        }
        assert(buf@ =~= old(buf)@ + w);
        Ok(())
    }

    /// Reads the structure in the classic layout.
    /// On failure the reader is put back where it started.
    pub fn decode(buf: &mut Reader) -> (r: Result<Self, SerializationError>)
        ensures
            final(buf).bytes() == old(buf).bytes(),
            read_view_exact(r, Self::spec_decode_classic(old(buf).bytes(), old(buf).pos()), old(buf).pos(), final(buf).pos()),
    {
        let start = buf.position();
        let r = Self::read_classic(buf);
        if r.is_err() {
            buf.set_position(start);
        }
        r
    }

    fn read_classic(buf: &mut Reader) -> (r: Result<Self, SerializationError>)
        ensures
            final(buf).bytes() == old(buf).bytes(),
            read_view_ok(r, Self::spec_decode_classic(old(buf).bytes(), old(buf).pos()), final(buf).pos()),
    {
        let broker_ids = match decode_array::<i32>(buf, Ctx { version: 0, flexible: false, classic: true }) { Ok(v) => v, Err(_) => { return Err(SerializationError::Protocol { message: "failed to decode BrokerIds" }); } };
        Ok(CreatePartitionsAssignment { broker_ids })
    }
}

impl KafkaCodec for CreatePartitionsAssignment {
    open spec fn spec_encode(m: CreatePartitionsAssignmentModel, ctx: Ctx) -> Result<Seq<u8>, SerializationError> {
        Self::spec_encode_classic(m)
    }

    open spec fn reads_back(v: CreatePartitionsAssignmentModel, ctx: Ctx) -> bool {
        Self::reads_back_classic(v)
    }

    proof fn lemma_read_back(pre: Seq<u8>, v: CreatePartitionsAssignmentModel, post: Seq<u8>, ctx: Ctx) {
        Self::lemma_classic_read_back(pre, v, post);
        assert(Self::spec_decode(pre + Self::spec_encode(v, ctx)->Ok_0 + post, pre.len() as int, ctx)
            == Self::spec_decode_classic(pre + Self::spec_encode_classic(v)->Ok_0 + post, pre.len() as int));
    }

    open spec fn spec_decode(s: Seq<u8>, pos: int, ctx: Ctx) -> Result<(CreatePartitionsAssignmentModel, int), SerializationError> {
        Self::spec_decode_classic(s, pos)
    }

    fn encode_ctx(&self, buf: &mut Vec<u8>, ctx: Ctx) -> (r: Result<(), SerializationError>) {
        self.write_classic(buf)
    }

    fn decode_ctx(buf: &mut Reader, ctx: Ctx) -> (r: Result<Self, SerializationError>) {
        Self::read_classic(buf)
    }
}

// -------------------------------------------------------
// CreatePartitionsTopic
// -------------------------------------------------------
#[derive(Clone, Debug, Default, PartialEq)]
pub struct CreatePartitionsTopic {
    /// The topic name.
    pub name: String,
    /// The new partition count.
    pub count: i32,
    /// The new partition assignments.
    pub assignments: Option<Vec<CreatePartitionsAssignment>>,
}

/// The contents of `CreatePartitionsTopic`, with strings as characters and
/// nested values by their contents.
pub struct CreatePartitionsTopicModel {
    pub name: Seq<char>,
    pub count: i32,
    pub assignments: Option<Seq<<CreatePartitionsAssignment as DeepView>::V>>,
}

impl DeepView for CreatePartitionsTopic {
    type V = CreatePartitionsTopicModel;

    open spec fn deep_view(&self) -> CreatePartitionsTopicModel {
        CreatePartitionsTopicModel {
            name: self.name.deep_view(),
            count: self.count,
            assignments: self.assignments.deep_view(),
        }
    }
}

impl CreatePartitionsTopic {
    /// The classic encoding of the structure.
    pub open spec fn spec_encode_classic(m: CreatePartitionsTopicModel) -> Result<Seq<u8>, SerializationError> {
        let r = Ok(Seq::<u8>::empty());
        let r = then(r, map_encode_err(string_bytes(m.name, false), SerializationError::ValueTooLarge { message: "failed to encode Name" }));
        let r = then(r, map_encode_err(Ok(i32_bytes(m.count)), SerializationError::ValueTooLarge { message: "failed to encode Count" }));
        let r = then(r, map_encode_err(nullable_array_bytes::<CreatePartitionsAssignment>(m.assignments, Ctx { version: 0, flexible: false, classic: true }), SerializationError::ValueTooLarge { message: "failed to encode Assignments" }));
        r
    }

    /// The structure read by the classic decoder.
    pub open spec fn spec_decode_classic(s: Seq<u8>, pos: int) -> Result<(CreatePartitionsTopicModel, int), SerializationError> {
        match map_decode_err(parse_string(s, pos, false), SerializationError::Protocol { message: "failed to decode Name" }) {
            Err(e) => Err(e),
            Ok((name, pos)) =>
            match map_decode_err(parse_i32(s, pos), SerializationError::Protocol { message: "failed to decode Count" }) {
                Err(e) => Err(e),
                Ok((count, pos)) =>
                match map_decode_err(parse_nullable_array::<CreatePartitionsAssignment>(s, pos, Ctx { version: 0, flexible: false, classic: true }), SerializationError::Protocol { message: "failed to decode Assignments" }) {
                    Err(e) => Err(e),
                    Ok((assignments, pos)) =>
                    Ok((CreatePartitionsTopicModel { name, count, assignments }, pos))
                }
            }
        }
    }

    /// Values of the structure that read back from their classic encoding:
    /// nested values read back.
    pub open spec fn reads_back_classic(m: CreatePartitionsTopicModel) -> bool {
        &&& (m.assignments matches Some(items) ==> forall|i: int| 0 <= i < items.len() ==> #[trigger] <CreatePartitionsAssignment as KafkaCodec>::reads_back(items[i], Ctx { version: 0, flexible: false, classic: true }))
    }

    /// A value that can be written and reads back: decoding its encoding, wherever
    /// it stands, gives the value and the position just after it.
    #[verifier::spinoff_prover]
    pub proof fn lemma_classic_read_back(pre: Seq<u8>, m: CreatePartitionsTopicModel, post: Seq<u8>)
        requires
            Self::spec_encode_classic(m) is Ok,
            Self::reads_back_classic(m),
        ensures
            Self::spec_decode_classic(pre + Self::spec_encode_classic(m)->Ok_0 + post, pre.len() as int) == Ok::<(CreatePartitionsTopicModel, int), SerializationError>((m, pre.len() as int + Self::spec_encode_classic(m)->Ok_0.len())),
    {
        let b0 = (string_bytes(m.name, false))->Ok_0;
        let b1 = i32_bytes(m.count);
        let b2 = (nullable_array_bytes::<CreatePartitionsAssignment>(m.assignments, Ctx { version: 0, flexible: false, classic: true }))->Ok_0;
        let t3 = post;
        let t2 = b2 + t3;
        let t1 = b1 + t2;
        let t0 = b0 + t1;
        let e = Self::spec_encode_classic(m)->Ok_0;
        assert(e =~= Seq::<u8>::empty() + b0 + b1 + b2);
        lemma_seq_assoc(((Seq::<u8>::empty() + b0) + b1), b2, post);
        lemma_seq_assoc((Seq::<u8>::empty() + b0), b1, (b2 + post));
        lemma_seq_assoc(Seq::<u8>::empty(), b0, (b1 + (b2 + post)));
        lemma_seq_empty_left((b0 + (b1 + (b2 + post))));
        let s = pre + e + post;
        lemma_seq_assoc(pre, e, post);
        assert(s == pre + t0);
        let a0 = pre;
        assert(parse_string(s, a0.len() as int, false) == Ok::<(Seq<char>, int), SerializationError>((m.name, a0.len() as int + b0.len()))) by {
            assert(string_bytes(m.name, false) is Ok);
            lemma_seq_assoc(a0, b0, t1);
            lemma_string_roundtrip(a0, m.name, t1, false);
        }
        lemma_seq_assoc(a0, b0, t1);
        let a1 = a0 + b0;
        assert(parse_i32(s, a1.len() as int) == Ok::<(i32, int), SerializationError>((m.count, a1.len() as int + b1.len()))) by {
            lemma_seq_assoc(a1, b1, t2);
            lemma_i32_roundtrip(a1, m.count, t2);
        }
        lemma_seq_assoc(a1, b1, t2);
        let a2 = a1 + b1;
        assert(parse_nullable_array::<CreatePartitionsAssignment>(s, a2.len() as int, Ctx { version: 0, flexible: false, classic: true }) == Ok::<(Option<Seq<<CreatePartitionsAssignment as DeepView>::V>>, int), SerializationError>((m.assignments, a2.len() as int + b2.len()))) by {
            assert(nullable_array_bytes::<CreatePartitionsAssignment>(m.assignments, Ctx { version: 0, flexible: false, classic: true }) is Ok);
            lemma_seq_assoc(a2, b2, t3);
            if let Some(items) = m.assignments {
                lemma_items_read_back::<CreatePartitionsAssignment>(items, Ctx { version: 0, flexible: false, classic: true });
            }
            lemma_nullable_array_roundtrip::<CreatePartitionsAssignment>(a2, m.assignments, t3, Ctx { version: 0, flexible: false, classic: true });
        }
    }

    /// The bytes written: the encoding of each field, in the order of the
    /// protocol's layout. Reading them back, wherever they stand, gives the value,
    /// with each field that the version leaves out at its default.
    #[verifier::spinoff_prover]
    pub proof fn lemma_classic_layout(pre: Seq<u8>, m: CreatePartitionsTopicModel, post: Seq<u8>)
        requires
            Self::spec_encode_classic(m) is Ok,
        ensures
            Self::spec_encode_classic(m) == Ok::<Seq<u8>, SerializationError>(((string_bytes(m.name, false))->Ok_0) + (i32_bytes(m.count)) + ((nullable_array_bytes::<CreatePartitionsAssignment>(m.assignments, Ctx { version: 0, flexible: false, classic: true }))->Ok_0)),
            Self::reads_back_classic(m) ==> Self::spec_decode_classic(pre + (((string_bytes(m.name, false))->Ok_0) + (i32_bytes(m.count)) + ((nullable_array_bytes::<CreatePartitionsAssignment>(m.assignments, Ctx { version: 0, flexible: false, classic: true }))->Ok_0)) + post, pre.len() as int) == Ok::<(CreatePartitionsTopicModel, int), SerializationError>((m, pre.len() as int + (((string_bytes(m.name, false))->Ok_0) + (i32_bytes(m.count)) + ((nullable_array_bytes::<CreatePartitionsAssignment>(m.assignments, Ctx { version: 0, flexible: false, classic: true }))->Ok_0)).len())),
    {
        let b0 = (string_bytes(m.name, false))->Ok_0;
        let b1 = i32_bytes(m.count);
        let b2 = (nullable_array_bytes::<CreatePartitionsAssignment>(m.assignments, Ctx { version: 0, flexible: false, classic: true }))->Ok_0;
        let e = Self::spec_encode_classic(m)->Ok_0;
        assert(e =~= Seq::<u8>::empty() + b0 + b1 + b2);
        assert(e =~= b0 + b1 + b2);
        if Self::reads_back_classic(m) {
            Self::lemma_classic_read_back(pre, m, post);
        }
    }

    /// Writing succeeds exactly when every field that the version carries can be
    /// encoded and every field that it leaves out, where leaving it out is an
    /// error, holds its default.
    #[verifier::spinoff_prover]
    pub proof fn lemma_classic_write_succeeds(m: CreatePartitionsTopicModel)
        ensures
            Self::spec_encode_classic(m) is Ok <==> (map_encode_err(string_bytes(m.name, false), SerializationError::ValueTooLarge { message: "failed to encode Name" }) is Ok) && (map_encode_err(Ok(i32_bytes(m.count)), SerializationError::ValueTooLarge { message: "failed to encode Count" }) is Ok) && (map_encode_err(nullable_array_bytes::<CreatePartitionsAssignment>(m.assignments, Ctx { version: 0, flexible: false, classic: true }), SerializationError::ValueTooLarge { message: "failed to encode Assignments" }) is Ok),
    {
    }

    /// Writes the structure in the classic layout.
    /// On failure the buffer is left as it was.
    pub fn encode(&self, buf: &mut Vec<u8>) -> (r: Result<(), SerializationError>)
        ensures
            write_exact(r, old(buf)@, final(buf)@, Self::spec_encode_classic(self.deep_view())),
    {
        let start = buf.len();
        let r = self.write_classic(buf);
        if r.is_err() {
            buf.truncate(start);
        }
        r
    }

    fn write_classic(&self, buf: &mut Vec<u8>) -> (r: Result<(), SerializationError>)
        ensures
            write_ok(r, old(buf)@, final(buf)@, Self::spec_encode_classic(self.deep_view())),
    {
        let ghost mut w: Seq<u8> = Seq::empty();
        match encode_string(&self.name, buf, false) {
            Ok(()) => {},
            Err(_) => {
                return Err(SerializationError::ValueTooLarge { message: "failed to encode Name" });
            },
        }
        proof {
            w = w + (map_encode_err(string_bytes(self.name.deep_view(), false), SerializationError::ValueTooLarge { message: "failed to encode Name" }))->Ok_0;
        }
        assert(buf@ =~= old(buf)@ + w);
        put_i32(buf, self.count);
        proof {
            w = w + (map_encode_err(Ok(i32_bytes(self.count)), SerializationError::ValueTooLarge { message: "failed to encode Count" }))->Ok_0;
        }
        assert(buf@ =~= old(buf)@ + w);
        match encode_nullable_array(&self.assignments, buf, Ctx { version: 0, flexible: false, classic: true }) {
            Ok(()) => {},
            Err(_) => {
                return Err(SerializationError::ValueTooLarge { message: "failed to encode Assignments" });
            },
        }
        proof {
            w = w + (map_encode_err(nullable_array_bytes::<CreatePartitionsAssignment>(self.assignments.deep_view(), Ctx { version: 0, flexible: false, classic: true }), SerializationError::ValueTooLarge { message: "failed to encode Assignments" }))->Ok_0;
        }
        assert(buf@ =~= old(buf)@ + w);
        Ok(())
    }

    /// Reads the structure in the classic layout.
    /// On failure the reader is put back where it started.
    pub fn decode(buf: &mut Reader) -> (r: Result<Self, SerializationError>)
        ensures
            final(buf).bytes() == old(buf).bytes(),
            read_view_exact(r, Self::spec_decode_classic(old(buf).bytes(), old(buf).pos()), old(buf).pos(), final(buf).pos()),
    {
        let start = buf.position();
        let r = Self::read_classic(buf);
        if r.is_err() {
            buf.set_position(start);
        }
        r
    }

    fn read_classic(buf: &mut Reader) -> (r: Result<Self, SerializationError>)
        ensures
            final(buf).bytes() == old(buf).bytes(),
            read_view_ok(r, Self::spec_decode_classic(old(buf).bytes(), old(buf).pos()), final(buf).pos()),
    {
        let name = match buf.get_string(false) { Ok(v) => v, Err(_) => { return Err(SerializationError::Protocol { message: "failed to decode Name" }); } };
        let count = match buf.get_i32() { Ok(v) => v, Err(_) => { return Err(SerializationError::Protocol { message: "failed to decode Count" }); } };
        let assignments = match decode_nullable_array::<CreatePartitionsAssignment>(buf, Ctx { version: 0, flexible: false, classic: true }) { Ok(v) => v, Err(_) => { return Err(SerializationError::Protocol { message: "failed to decode Assignments" }); } };
        Ok(CreatePartitionsTopic { name, count, assignments })
    }
}

impl KafkaCodec for CreatePartitionsTopic {
    open spec fn spec_encode(m: CreatePartitionsTopicModel, ctx: Ctx) -> Result<Seq<u8>, SerializationError> {
        Self::spec_encode_classic(m)
    }

    open spec fn reads_back(v: CreatePartitionsTopicModel, ctx: Ctx) -> bool {
        Self::reads_back_classic(v)
    }

    proof fn lemma_read_back(pre: Seq<u8>, v: CreatePartitionsTopicModel, post: Seq<u8>, ctx: Ctx) {
        Self::lemma_classic_read_back(pre, v, post);
        assert(Self::spec_decode(pre + Self::spec_encode(v, ctx)->Ok_0 + post, pre.len() as int, ctx)
            == Self::spec_decode_classic(pre + Self::spec_encode_classic(v)->Ok_0 + post, pre.len() as int));
    }

    open spec fn spec_decode(s: Seq<u8>, pos: int, ctx: Ctx) -> Result<(CreatePartitionsTopicModel, int), SerializationError> {
        Self::spec_decode_classic(s, pos)
    }

    fn encode_ctx(&self, buf: &mut Vec<u8>, ctx: Ctx) -> (r: Result<(), SerializationError>) {
        self.write_classic(buf)
    }

    fn decode_ctx(buf: &mut Reader, ctx: Ctx) -> (r: Result<Self, SerializationError>) {
        Self::read_classic(buf)
    }
}

} // verus!
