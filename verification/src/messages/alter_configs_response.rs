//! AlterConfigsResponse (API key 33).
use vstd::prelude::*;
use crate::roundtrip::{lemma_array_roundtrip, lemma_i16_roundtrip, lemma_i32_roundtrip,
    lemma_i8_roundtrip, lemma_items_read_back, lemma_nullable_string_roundtrip, lemma_seq_assoc,
    lemma_seq_empty_left, lemma_string_roundtrip};
use crate::serialization::{Ctx, KafkaCodec, Reader, SerializationError, array_bytes, decode_array,
    encode_array, encode_nullable_string, encode_string, i16_bytes, i32_bytes, i8_bytes,
    map_decode_err, map_encode_err, nullable_string_bytes, parse_array, parse_i16, parse_i32,
    parse_i8, parse_nullable_string, parse_string, put_i16, put_i32, put_i8, read_view_exact,
    read_view_ok, string_bytes, then, write_exact, write_ok};
use crate::{ApiKey, ApiVersion};

verus! {

// -------------------------------------------------------
// AlterConfigsResponse
// -------------------------------------------------------
#[derive(Clone, Debug, Default, PartialEq)]
pub struct AlterConfigsResponse {
    /// Duration in milliseconds for which the request was throttled due to a quota violation, or zero if the request did not violate any quota.
    pub throttle_time_ms: i32,
    /// The responses for each resource.
    pub resources: Vec<AlterConfigsResourceResponse>,
}

/// The contents of `AlterConfigsResponse`, with strings as characters and
/// nested values by their contents.
pub struct AlterConfigsResponseModel {
    pub throttle_time_ms: i32,
    pub resources: Seq<<AlterConfigsResourceResponse as DeepView>::V>,
}

impl DeepView for AlterConfigsResponse {
    type V = AlterConfigsResponseModel;

    open spec fn deep_view(&self) -> AlterConfigsResponseModel {
        AlterConfigsResponseModel {
            throttle_time_ms: self.throttle_time_ms,
            resources: self.resources.deep_view(),
        }
    }
}

impl AlterConfigsResponse {
    /// The classic encoding of the structure.
    pub open spec fn spec_encode_classic(m: AlterConfigsResponseModel) -> Result<Seq<u8>, SerializationError> {
        let r = Ok(Seq::<u8>::empty());
        let r = then(r, map_encode_err(Ok(i32_bytes(m.throttle_time_ms)), SerializationError::ValueTooLarge { message: "failed to encode ThrottleTimeMs" }));
        let r = then(r, map_encode_err(array_bytes::<AlterConfigsResourceResponse>(m.resources, Ctx { version: 0, flexible: false, classic: true }), SerializationError::ValueTooLarge { message: "failed to encode Resources" }));
        r
    }

    /// The structure read by the classic decoder.
    pub open spec fn spec_decode_classic(s: Seq<u8>, pos: int) -> Result<(AlterConfigsResponseModel, int), SerializationError> {
        match map_decode_err(parse_i32(s, pos), SerializationError::Protocol { message: "failed to decode ThrottleTimeMs" }) {
            Err(e) => Err(e),
            Ok((throttle_time_ms, pos)) =>
            match map_decode_err(parse_array::<AlterConfigsResourceResponse>(s, pos, Ctx { version: 0, flexible: false, classic: true }), SerializationError::Protocol { message: "failed to decode Resources" }) {
                Err(e) => Err(e),
                Ok((resources, pos)) =>
                Ok((AlterConfigsResponseModel { throttle_time_ms, resources }, pos))
            }
        }
    }

    /// Values of the structure that read back from their classic encoding:
    /// nested values read back.
    pub open spec fn reads_back_classic(m: AlterConfigsResponseModel) -> bool {
        &&& forall|i: int| 0 <= i < m.resources.len() ==> #[trigger] <AlterConfigsResourceResponse as KafkaCodec>::reads_back(m.resources[i], Ctx { version: 0, flexible: false, classic: true })
    }

    /// A value that can be written and reads back: decoding its encoding, wherever
    /// it stands, gives the value and the position just after it.
    #[verifier::spinoff_prover]
    pub proof fn lemma_classic_read_back(pre: Seq<u8>, m: AlterConfigsResponseModel, post: Seq<u8>)
        requires
            Self::spec_encode_classic(m) is Ok,
            Self::reads_back_classic(m),
        ensures
            Self::spec_decode_classic(pre + Self::spec_encode_classic(m)->Ok_0 + post, pre.len() as int) == Ok::<(AlterConfigsResponseModel, int), SerializationError>((m, pre.len() as int + Self::spec_encode_classic(m)->Ok_0.len())),
    {
        let b0 = i32_bytes(m.throttle_time_ms);
        let b1 = (array_bytes::<AlterConfigsResourceResponse>(m.resources, Ctx { version: 0, flexible: false, classic: true }))->Ok_0;
        let t2 = post;
        let t1 = b1 + t2;
        let t0 = b0 + t1;
        let e = Self::spec_encode_classic(m)->Ok_0;
        assert(e =~= Seq::<u8>::empty() + b0 + b1);
        lemma_seq_assoc((Seq::<u8>::empty() + b0), b1, post);
        lemma_seq_assoc(Seq::<u8>::empty(), b0, (b1 + post));
        lemma_seq_empty_left((b0 + (b1 + post)));
        let s = pre + e + post;
        lemma_seq_assoc(pre, e, post);
        assert(s == pre + t0);
        let a0 = pre;
        assert(parse_i32(s, a0.len() as int) == Ok::<(i32, int), SerializationError>((m.throttle_time_ms, a0.len() as int + b0.len()))) by {
            lemma_seq_assoc(a0, b0, t1);
            lemma_i32_roundtrip(a0, m.throttle_time_ms, t1);
        }
        lemma_seq_assoc(a0, b0, t1);
        let a1 = a0 + b0;
        assert(parse_array::<AlterConfigsResourceResponse>(s, a1.len() as int, Ctx { version: 0, flexible: false, classic: true }) == Ok::<(Seq<<AlterConfigsResourceResponse as DeepView>::V>, int), SerializationError>((m.resources, a1.len() as int + b1.len()))) by {
            assert(array_bytes::<AlterConfigsResourceResponse>(m.resources, Ctx { version: 0, flexible: false, classic: true }) is Ok);
            lemma_seq_assoc(a1, b1, t2);
            lemma_items_read_back::<AlterConfigsResourceResponse>(m.resources, Ctx { version: 0, flexible: false, classic: true });
            lemma_array_roundtrip::<AlterConfigsResourceResponse>(a1, m.resources, t2, Ctx { version: 0, flexible: false, classic: true });
        }
    }

    /// The bytes written: the encoding of each field, in the order of the
    /// protocol's layout. Reading them back, wherever they stand, gives the value,
    /// with each field that the version leaves out at its default.
    #[verifier::spinoff_prover]
    pub proof fn lemma_classic_layout(pre: Seq<u8>, m: AlterConfigsResponseModel, post: Seq<u8>)
        requires
            Self::spec_encode_classic(m) is Ok,
        ensures
            Self::spec_encode_classic(m) == Ok::<Seq<u8>, SerializationError>((i32_bytes(m.throttle_time_ms)) + ((array_bytes::<AlterConfigsResourceResponse>(m.resources, Ctx { version: 0, flexible: false, classic: true }))->Ok_0)),
            Self::reads_back_classic(m) ==> Self::spec_decode_classic(pre + ((i32_bytes(m.throttle_time_ms)) + ((array_bytes::<AlterConfigsResourceResponse>(m.resources, Ctx { version: 0, flexible: false, classic: true }))->Ok_0)) + post, pre.len() as int) == Ok::<(AlterConfigsResponseModel, int), SerializationError>((m, pre.len() as int + ((i32_bytes(m.throttle_time_ms)) + ((array_bytes::<AlterConfigsResourceResponse>(m.resources, Ctx { version: 0, flexible: false, classic: true }))->Ok_0)).len())),
    {
        let b0 = i32_bytes(m.throttle_time_ms);
        let b1 = (array_bytes::<AlterConfigsResourceResponse>(m.resources, Ctx { version: 0, flexible: false, classic: true }))->Ok_0;
        let e = Self::spec_encode_classic(m)->Ok_0;
        assert(e =~= Seq::<u8>::empty() + b0 + b1);
        assert(e =~= b0 + b1);
        if Self::reads_back_classic(m) {
            Self::lemma_classic_read_back(pre, m, post);
        }
    }

    /// Writing succeeds exactly when every field that the version carries can be
    /// encoded and every field that it leaves out, where leaving it out is an
    /// error, holds its default.
    #[verifier::spinoff_prover]
    pub proof fn lemma_classic_write_succeeds(m: AlterConfigsResponseModel)
        ensures
            Self::spec_encode_classic(m) is Ok <==> (map_encode_err(Ok(i32_bytes(m.throttle_time_ms)), SerializationError::ValueTooLarge { message: "failed to encode ThrottleTimeMs" }) is Ok) && (map_encode_err(array_bytes::<AlterConfigsResourceResponse>(m.resources, Ctx { version: 0, flexible: false, classic: true }), SerializationError::ValueTooLarge { message: "failed to encode Resources" }) is Ok),
    {
    }

    /// Writes the structure in the classic layout.
    /// On failure the buffer is left as it was.
    pub fn encode(&self, buf: &mut Vec<u8>) -> (r: Result<(), SerializationError>)
        ensures
            write_exact(r, old(buf)@, final(buf)@, Self::spec_encode_classic(self.deep_view())),
    {
        let start = buf.len();
        let r = self.write_classic(buf);
        if r.is_err() {
            buf.truncate(start);
        }
        r
    }

    fn write_classic(&self, buf: &mut Vec<u8>) -> (r: Result<(), SerializationError>)
        ensures
            write_ok(r, old(buf)@, final(buf)@, Self::spec_encode_classic(self.deep_view())),
    {
        let ghost mut w: Seq<u8> = Seq::empty();
        put_i32(buf, self.throttle_time_ms);
        proof {
            w = w + (map_encode_err(Ok(i32_bytes(self.throttle_time_ms)), SerializationError::ValueTooLarge { message: "failed to encode ThrottleTimeMs" }))->Ok_0;
        }
        assert(buf@ =~= old(buf)@ + w);
        match encode_array(&self.resources, buf, Ctx { version: 0, flexible: false, classic: true }) {
            Ok(()) => {},
            Err(_) => {
                return Err(SerializationError::ValueTooLarge { message: "failed to encode Resources" });
            },
        }
        proof {
            w = w + (map_encode_err(array_bytes::<AlterConfigsResourceResponse>(self.resources.deep_view(), Ctx { version: 0, flexible: false, classic: true }), SerializationError::ValueTooLarge { message: "failed to encode Resources" }))->Ok_0;
        }
        assert(buf@ =~= old(buf)@ + w);
        Ok(())
    }

    /// Reads the structure in the classic layout.
    /// On failure the reader is put back where it started.
    pub fn decode(buf: &mut Reader) -> (r: Result<Self, SerializationError>)
        ensures
            final(buf).bytes() == old(buf).bytes(),
            read_view_exact(r, Self::spec_decode_classic(old(buf).bytes(), old(buf).pos()), old(buf).pos(), final(buf).pos()),
    {
        let start = buf.position();
        let r = Self::read_classic(buf);
        if r.is_err() {
            buf.set_position(start);
        }
        r
    }

    fn read_classic(buf: &mut Reader) -> (r: Result<Self, SerializationError>)
        ensures
            final(buf).bytes() == old(buf).bytes(),
            read_view_ok(r, Self::spec_decode_classic(old(buf).bytes(), old(buf).pos()), final(buf).pos()),
    {
        let throttle_time_ms = match buf.get_i32() { Ok(v) => v, Err(_) => { return Err(SerializationError::Protocol { message: "failed to decode ThrottleTimeMs" }); } };
        let resources = match decode_array::<AlterConfigsResourceResponse>(buf, Ctx { version: 0, flexible: false, classic: true }) { Ok(v) => v, Err(_) => { return Err(SerializationError::Protocol { message: "failed to decode Resources" }); } };
        Ok(AlterConfigsResponse { throttle_time_ms, resources })
    }
}

impl KafkaCodec for AlterConfigsResponse {
    open spec fn spec_encode(m: AlterConfigsResponseModel, ctx: Ctx) -> Result<Seq<u8>, SerializationError> {
        Self::spec_encode_classic(m)
    }

    open spec fn reads_back(v: AlterConfigsResponseModel, ctx: Ctx) -> bool {
        Self::reads_back_classic(v)
    }

    proof fn lemma_read_back(pre: Seq<u8>, v: AlterConfigsResponseModel, post: Seq<u8>, ctx: Ctx) {
        Self::lemma_classic_read_back(pre, v, post);
        assert(Self::spec_decode(pre + Self::spec_encode(v, ctx)->Ok_0 + post, pre.len() as int, ctx)
            == Self::spec_decode_classic(pre + Self::spec_encode_classic(v)->Ok_0 + post, pre.len() as int));
    }

    open spec fn spec_decode(s: Seq<u8>, pos: int, ctx: Ctx) -> Result<(AlterConfigsResponseModel, int), SerializationError> {
        Self::spec_decode_classic(s, pos)
    }

    fn encode_ctx(&self, buf: &mut Vec<u8>, ctx: Ctx) -> (r: Result<(), SerializationError>) {
        self.write_classic(buf)
    }

    fn decode_ctx(buf: &mut Reader, ctx: Ctx) -> (r: Result<Self, SerializationError>) {
        Self::read_classic(buf)
    }
}

impl AlterConfigsResponse {
    /// The API key of this message.
    pub fn get_api_key() -> (r: ApiKey)
        ensures
            r.0 == 33,
    {
        ApiKey::new(33)
    }

    /// The oldest version of this message.
    pub fn get_min_supported_version() -> (r: ApiVersion)
        ensures
            r.0 == 0,
    {
        ApiVersion::new(0)
    }

    /// The newest version of this message.
    pub fn get_max_supported_version() -> (r: ApiVersion)
        ensures
            r.0 == 1,
    {
        ApiVersion::new(1)
    }

    /// The encoding of a whole message body at `version`.
    pub open spec fn spec_serialize(m: AlterConfigsResponseModel, version: i16) -> Result<Seq<u8>, SerializationError> {
        let is_flexible = false;
        let ctx = Ctx { version, flexible: is_flexible, classic: false };
        let r = Ok(Seq::<u8>::empty());
        let r = then(r, map_encode_err(Ok(i32_bytes(m.throttle_time_ms)), SerializationError::Encode("failed to encode ThrottleTimeMs")));
        let r = then(r, map_encode_err(array_bytes::<AlterConfigsResourceResponse>(m.resources, Ctx { version: ctx.version, flexible: false, classic: true }), SerializationError::Encode("failed to encode Resources")));
        r
    }

    /// The message body read at `version`.
    pub open spec fn spec_deserialize(s: Seq<u8>, pos: int, version: i16) -> Result<(AlterConfigsResponseModel, int), SerializationError> {
        let is_flexible = false;
        let ctx = Ctx { version, flexible: is_flexible, classic: false };
        match map_decode_err(parse_i32(s, pos), SerializationError::Decode("failed to decode ThrottleTimeMs")) {
            Err(e) => Err(e),
            Ok((throttle_time_ms, pos)) =>
            match map_decode_err(parse_array::<AlterConfigsResourceResponse>(s, pos, Ctx { version: ctx.version, flexible: false, classic: true }), SerializationError::Decode("failed to decode Resources")) {
                Err(e) => Err(e),
                Ok((resources, pos)) =>
                Ok((AlterConfigsResponseModel { throttle_time_ms, resources }, pos))
            }
        }
    }

    /// Message bodies that read back when written at `version`: every field that
    /// the version leaves out holds its default, and nested values read back.
    pub open spec fn reads_back_message(m: AlterConfigsResponseModel, version: i16) -> bool {
        let is_flexible = false;
        let ctx = Ctx { version, flexible: is_flexible, classic: false };
        &&& forall|i: int| 0 <= i < m.resources.len() ==> #[trigger] <AlterConfigsResourceResponse as KafkaCodec>::reads_back(m.resources[i], Ctx { version: ctx.version, flexible: false, classic: true })
    }

    /// A message body that can be written at `version` and reads back: reading a
    /// body at `version` from its bytes, wherever they stand, gives the same message.
    #[verifier::spinoff_prover]
    pub proof fn lemma_message_read_back(pre: Seq<u8>, m: AlterConfigsResponseModel, post: Seq<u8>, version: i16)
        requires
            Self::spec_serialize(m, version) is Ok,
            Self::reads_back_message(m, version),
        ensures
            Self::spec_deserialize(pre + Self::spec_serialize(m, version)->Ok_0 + post, pre.len() as int, version) == Ok::<(AlterConfigsResponseModel, int), SerializationError>((m, pre.len() as int + Self::spec_serialize(m, version)->Ok_0.len())),
    {
        let is_flexible = false;
        let ctx = Ctx { version, flexible: is_flexible, classic: false };
        let b0 = i32_bytes(m.throttle_time_ms);
        let b1 = (array_bytes::<AlterConfigsResourceResponse>(m.resources, Ctx { version: ctx.version, flexible: false, classic: true }))->Ok_0;
        let t2 = post;
        let t1 = b1 + t2;
        let t0 = b0 + t1;
        let e = Self::spec_serialize(m, version)->Ok_0;
        assert(e =~= Seq::<u8>::empty() + b0 + b1);
        lemma_seq_assoc((Seq::<u8>::empty() + b0), b1, post);
        lemma_seq_assoc(Seq::<u8>::empty(), b0, (b1 + post));
        lemma_seq_empty_left((b0 + (b1 + post)));
        let s = pre + e + post;
        lemma_seq_assoc(pre, e, post);
        assert(s == pre + t0);
        let a0 = pre;
        assert(parse_i32(s, a0.len() as int) == Ok::<(i32, int), SerializationError>((m.throttle_time_ms, a0.len() as int + b0.len()))) by {
            lemma_seq_assoc(a0, b0, t1);
            lemma_i32_roundtrip(a0, m.throttle_time_ms, t1);
        }
        lemma_seq_assoc(a0, b0, t1);
        let a1 = a0 + b0;
        assert(parse_array::<AlterConfigsResourceResponse>(s, a1.len() as int, Ctx { version: ctx.version, flexible: false, classic: true }) == Ok::<(Seq<<AlterConfigsResourceResponse as DeepView>::V>, int), SerializationError>((m.resources, a1.len() as int + b1.len()))) by {
            assert(array_bytes::<AlterConfigsResourceResponse>(m.resources, Ctx { version: ctx.version, flexible: false, classic: true }) is Ok);
            lemma_seq_assoc(a1, b1, t2);
            lemma_items_read_back::<AlterConfigsResourceResponse>(m.resources, Ctx { version: ctx.version, flexible: false, classic: true });
            lemma_array_roundtrip::<AlterConfigsResourceResponse>(a1, m.resources, t2, Ctx { version: ctx.version, flexible: false, classic: true });
        }
    }

    /// The bytes written: the encoding of each field, in the order of the
    /// protocol's layout. Reading them back, wherever they stand, gives the value,
    /// with each field that the version leaves out at its default.
    #[verifier::spinoff_prover]
    pub proof fn lemma_message_layout(pre: Seq<u8>, m: AlterConfigsResponseModel, post: Seq<u8>, version: i16)
        requires
            Self::spec_serialize(m, version) is Ok,
        ensures
            Self::spec_serialize(m, version) == Ok::<Seq<u8>, SerializationError>((i32_bytes(m.throttle_time_ms)) + ((array_bytes::<AlterConfigsResourceResponse>(m.resources, Ctx { version: version, flexible: false, classic: true }))->Ok_0)),
            Self::reads_back_message(m, version) ==> Self::spec_deserialize(pre + ((i32_bytes(m.throttle_time_ms)) + ((array_bytes::<AlterConfigsResourceResponse>(m.resources, Ctx { version: version, flexible: false, classic: true }))->Ok_0)) + post, pre.len() as int, version) == Ok::<(AlterConfigsResponseModel, int), SerializationError>((m, pre.len() as int + ((i32_bytes(m.throttle_time_ms)) + ((array_bytes::<AlterConfigsResourceResponse>(m.resources, Ctx { version: version, flexible: false, classic: true }))->Ok_0)).len())),
    {
        let is_flexible = false;
        let ctx = Ctx { version, flexible: is_flexible, classic: false };
        let b0 = i32_bytes(m.throttle_time_ms);
        let b1 = (array_bytes::<AlterConfigsResourceResponse>(m.resources, Ctx { version: ctx.version, flexible: false, classic: true }))->Ok_0;
        let e = Self::spec_serialize(m, version)->Ok_0;
        assert(e =~= Seq::<u8>::empty() + b0 + b1);
        assert(e =~= b0 + b1);
        if Self::reads_back_message(m, version) {
            Self::lemma_message_read_back(pre, m, post, version);
        }
    }

    /// Writing succeeds exactly when every field that the version carries can be
    /// encoded and every field that it leaves out, where leaving it out is an
    /// error, holds its default.
    #[verifier::spinoff_prover]
    pub proof fn lemma_message_write_succeeds(m: AlterConfigsResponseModel, version: i16)
        ensures
            Self::spec_serialize(m, version) is Ok <==> (map_encode_err(Ok(i32_bytes(m.throttle_time_ms)), SerializationError::Encode("failed to encode ThrottleTimeMs")) is Ok) && (map_encode_err(array_bytes::<AlterConfigsResourceResponse>(m.resources, Ctx { version: version, flexible: false, classic: true }), SerializationError::Encode("failed to encode Resources")) is Ok),
    {
        let is_flexible = false;
        let ctx = Ctx { version, flexible: is_flexible, classic: false };
    }

    /// Writes the message body for `version`, which must be a supported version.
    /// On failure the buffer is left as it was.
    pub fn serialize(&self, version: ApiVersion, buf: &mut Vec<u8>) -> (r: Result<(), SerializationError>)
        requires
            0 <= version.0 <= 1,
        ensures
            write_exact(r, old(buf)@, final(buf)@, Self::spec_serialize(self.deep_view(), version.0)),
    {
        let start = buf.len();
        let r = self.write_body(version, buf);
        if r.is_err() {
            buf.truncate(start);
        }
        r
    }

    fn write_body(&self, version: ApiVersion, buf: &mut Vec<u8>) -> (r: Result<(), SerializationError>)
        requires
            0 <= version.0 <= 1,
        ensures
            write_ok(r, old(buf)@, final(buf)@, Self::spec_serialize(self.deep_view(), version.0)),
    {
        let is_flexible = false;
        let ctx = Ctx::new(version, is_flexible);
        let ghost mut w: Seq<u8> = Seq::empty();
        put_i32(buf, self.throttle_time_ms);
        proof {
            w = w + (map_encode_err(Ok(i32_bytes(self.throttle_time_ms)), SerializationError::Encode("failed to encode ThrottleTimeMs")))->Ok_0;
        }
        assert(buf@ =~= old(buf)@ + w);
        match encode_array(&self.resources, buf, Ctx { version: ctx.version, flexible: false, classic: true }) {
            Ok(()) => {},
            Err(_) => {
                return Err(SerializationError::Encode("failed to encode Resources"));
            },
        }
        proof {
            w = w + (map_encode_err(array_bytes::<AlterConfigsResourceResponse>(self.resources.deep_view(), Ctx { version: ctx.version, flexible: false, classic: true }), SerializationError::Encode("failed to encode Resources")))->Ok_0;
        }
        assert(buf@ =~= old(buf)@ + w);
        Ok(())
    }

    /// Reads a message body written for `version`.
    /// On failure the reader is put back where it started.
    pub fn deserialize(version: ApiVersion, buf: &mut Reader) -> (r: Result<Self, SerializationError>)
        ensures
            final(buf).bytes() == old(buf).bytes(),
            read_view_exact(r, Self::spec_deserialize(old(buf).bytes(), old(buf).pos(), version.0), old(buf).pos(), final(buf).pos()),
    {
        let start = buf.position();
        let r = Self::read_body(version, buf);
        if r.is_err() {
            buf.set_position(start);
        }
        r
    }

    fn read_body(version: ApiVersion, buf: &mut Reader) -> (r: Result<Self, SerializationError>)
        ensures
            final(buf).bytes() == old(buf).bytes(),
            read_view_ok(r, Self::spec_deserialize(old(buf).bytes(), old(buf).pos(), version.0), final(buf).pos()),
    {
        let is_flexible = false;
        let ctx = Ctx::new(version, is_flexible);
        let throttle_time_ms = match buf.get_i32() { Ok(v) => v, Err(_) => { return Err(SerializationError::Decode("failed to decode ThrottleTimeMs")); } };
        let resources = match decode_array::<AlterConfigsResourceResponse>(buf, Ctx { version: ctx.version, flexible: false, classic: true }) { Ok(v) => v, Err(_) => { return Err(SerializationError::Decode("failed to decode Resources")); } };
        Ok(AlterConfigsResponse { throttle_time_ms, resources })
    }
}

// -------------------------------------------------------
// AlterConfigsResourceResponse
// -------------------------------------------------------
#[derive(Clone, Debug, Default, PartialEq)]
pub struct AlterConfigsResourceResponse {
    /// The resource error code.
    pub error_code: i16,
    /// The resource error message, or null if there was no error.
    pub error_message: Option<String>,
    /// The resource type.
    pub resource_type: i8,
    /// The resource name.
    pub resource_name: String,
}

/// The contents of `AlterConfigsResourceResponse`, with strings as characters and
/// nested values by their contents.
pub struct AlterConfigsResourceResponseModel {
    pub error_code: i16,
    pub error_message: Option<Seq<char>>,
    pub resource_type: i8,
    pub resource_name: Seq<char>,
}

impl DeepView for AlterConfigsResourceResponse {
    type V = AlterConfigsResourceResponseModel;

    open spec fn deep_view(&self) -> AlterConfigsResourceResponseModel {
        AlterConfigsResourceResponseModel {
            error_code: self.error_code,
            error_message: self.error_message.deep_view(),
            resource_type: self.resource_type,
            resource_name: self.resource_name.deep_view(),
        }
    }
}

impl AlterConfigsResourceResponse {
    /// The classic encoding of the structure.
    pub open spec fn spec_encode_classic(m: AlterConfigsResourceResponseModel) -> Result<Seq<u8>, SerializationError> {
        let r = Ok(Seq::<u8>::empty());
        let r = then(r, map_encode_err(Ok(i16_bytes(m.error_code)), SerializationError::ValueTooLarge { message: "failed to encode ErrorCode" }));
        let r = then(r, map_encode_err(nullable_string_bytes(m.error_message, false), SerializationError::ValueTooLarge { message: "failed to encode ErrorMessage" }));
        let r = then(r, map_encode_err(Ok(i8_bytes(m.resource_type)), SerializationError::ValueTooLarge { message: "failed to encode ResourceType" }));
        let r = then(r, map_encode_err(string_bytes(m.resource_name, false), SerializationError::ValueTooLarge { message: "failed to encode ResourceName" }));
        r
    }

    /// The structure read by the classic decoder.
    pub open spec fn spec_decode_classic(s: Seq<u8>, pos: int) -> Result<(AlterConfigsResourceResponseModel, int), SerializationError> {
        match map_decode_err(parse_i16(s, pos), SerializationError::Protocol { message: "failed to decode ErrorCode" }) {
            Err(e) => Err(e),
            Ok((error_code, pos)) =>
            match map_decode_err(parse_nullable_string(s, pos, false), SerializationError::Protocol { message: "failed to decode ErrorMessage" }) {
                Err(e) => Err(e),
                Ok((error_message, pos)) =>
                match map_decode_err(parse_i8(s, pos), SerializationError::Protocol { message: "failed to decode ResourceType" }) {
                    Err(e) => Err(e),
                    Ok((resource_type, pos)) =>
                    match map_decode_err(parse_string(s, pos, false), SerializationError::Protocol { message: "failed to decode ResourceName" }) {
                        Err(e) => Err(e),
                        Ok((resource_name, pos)) =>
                        Ok((AlterConfigsResourceResponseModel { error_code, error_message, resource_type, resource_name }, pos))
                    }
                }
            }
        }
    }

    /// Values of the structure that read back from their classic encoding:
    /// nested values read back.
    pub open spec fn reads_back_classic(m: AlterConfigsResourceResponseModel) -> bool {
        true
    }

    /// A value that can be written and reads back: decoding its encoding, wherever
    /// it stands, gives the value and the position just after it.
    #[verifier::spinoff_prover]
    pub proof fn lemma_classic_read_back(pre: Seq<u8>, m: AlterConfigsResourceResponseModel, post: Seq<u8>)
        requires
            Self::spec_encode_classic(m) is Ok,
            Self::reads_back_classic(m),
        ensures
            Self::spec_decode_classic(pre + Self::spec_encode_classic(m)->Ok_0 + post, pre.len() as int) == Ok::<(AlterConfigsResourceResponseModel, int), SerializationError>((m, pre.len() as int + Self::spec_encode_classic(m)->Ok_0.len())),
    {
        let b0 = i16_bytes(m.error_code);
        let b1 = (nullable_string_bytes(m.error_message, false))->Ok_0;
        let b2 = i8_bytes(m.resource_type);
        let b3 = (string_bytes(m.resource_name, false))->Ok_0;
        let t4 = post;
        let t3 = b3 + t4;
        let t2 = b2 + t3;
        let t1 = b1 + t2;
        let t0 = b0 + t1;
        let e = Self::spec_encode_classic(m)->Ok_0;
        assert(e =~= Seq::<u8>::empty() + b0 + b1 + b2 + b3);
        lemma_seq_assoc((((Seq::<u8>::empty() + b0) + b1) + b2), b3, post);
        lemma_seq_assoc(((Seq::<u8>::empty() + b0) + b1), b2, (b3 + post));
        lemma_seq_assoc((Seq::<u8>::empty() + b0), b1, (b2 + (b3 + post)));
        lemma_seq_assoc(Seq::<u8>::empty(), b0, (b1 + (b2 + (b3 + post))));
        lemma_seq_empty_left((b0 + (b1 + (b2 + (b3 + post)))));
        let s = pre + e + post;
        lemma_seq_assoc(pre, e, post);
        assert(s == pre + t0);
        let a0 = pre;
        assert(parse_i16(s, a0.len() as int) == Ok::<(i16, int), SerializationError>((m.error_code, a0.len() as int + b0.len()))) by {
            lemma_seq_assoc(a0, b0, t1);
            lemma_i16_roundtrip(a0, m.error_code, t1);
        }
        lemma_seq_assoc(a0, b0, t1);
        let a1 = a0 + b0;
        assert(parse_nullable_string(s, a1.len() as int, false) == Ok::<(Option<Seq<char>>, int), SerializationError>((m.error_message, a1.len() as int + b1.len()))) by {
            assert(nullable_string_bytes(m.error_message, false) is Ok);
            lemma_seq_assoc(a1, b1, t2);
            lemma_nullable_string_roundtrip(a1, m.error_message, t2, false);
        }
        lemma_seq_assoc(a1, b1, t2);
        let a2 = a1 + b1;
        assert(parse_i8(s, a2.len() as int) == Ok::<(i8, int), SerializationError>((m.resource_type, a2.len() as int + b2.len()))) by {
            lemma_seq_assoc(a2, b2, t3);
            lemma_i8_roundtrip(a2, m.resource_type, t3);
        }
        lemma_seq_assoc(a2, b2, t3);
        let a3 = a2 + b2;
        assert(parse_string(s, a3.len() as int, false) == Ok::<(Seq<char>, int), SerializationError>((m.resource_name, a3.len() as int + b3.len()))) by {
            assert(string_bytes(m.resource_name, false) is Ok);
            lemma_seq_assoc(a3, b3, t4);
            lemma_string_roundtrip(a3, m.resource_name, t4, false);
        }
    }

    /// The bytes written: the encoding of each field, in the order of the
    /// protocol's layout. Reading them back, wherever they stand, gives the value,
    /// with each field that the version leaves out at its default.
    #[verifier::spinoff_prover]
    pub proof fn lemma_classic_layout(pre: Seq<u8>, m: AlterConfigsResourceResponseModel, post: Seq<u8>)
        requires
            Self::spec_encode_classic(m) is Ok,
        ensures
            Self::spec_encode_classic(m) == Ok::<Seq<u8>, SerializationError>((i16_bytes(m.error_code)) + ((nullable_string_bytes(m.error_message, false))->Ok_0) + (i8_bytes(m.resource_type)) + ((string_bytes(m.resource_name, false))->Ok_0)),
            Self::reads_back_classic(m) ==> Self::spec_decode_classic(pre + ((i16_bytes(m.error_code)) + ((nullable_string_bytes(m.error_message, false))->Ok_0) + (i8_bytes(m.resource_type)) + ((string_bytes(m.resource_name, false))->Ok_0)) + post, pre.len() as int) == Ok::<(AlterConfigsResourceResponseModel, int), SerializationError>((m, pre.len() as int + ((i16_bytes(m.error_code)) + ((nullable_string_bytes(m.error_message, false))->Ok_0) + (i8_bytes(m.resource_type)) + ((string_bytes(m.resource_name, false))->Ok_0)).len())),
    {
        let b0 = i16_bytes(m.error_code);
        let b1 = (nullable_string_bytes(m.error_message, false))->Ok_0;
        let b2 = i8_bytes(m.resource_type);
        let b3 = (string_bytes(m.resource_name, false))->Ok_0;
        let e = Self::spec_encode_classic(m)->Ok_0;
        assert(e =~= Seq::<u8>::empty() + b0 + b1 + b2 + b3);
        assert(e =~= b0 + b1 + b2 + b3);
        if Self::reads_back_classic(m) {
            Self::lemma_classic_read_back(pre, m, post);
        }
    }

    /// Writing succeeds exactly when every field that the version carries can be
    /// encoded and every field that it leaves out, where leaving it out is an
    /// error, holds its default.
    #[verifier::spinoff_prover]
    pub proof fn lemma_classic_write_succeeds(m: AlterConfigsResourceResponseModel)
        ensures
            Self::spec_encode_classic(m) is Ok <==> (map_encode_err(Ok(i16_bytes(m.error_code)), SerializationError::ValueTooLarge { message: "failed to encode ErrorCode" }) is Ok) && (map_encode_err(nullable_string_bytes(m.error_message, false), SerializationError::ValueTooLarge { message: "failed to encode ErrorMessage" }) is Ok) && (map_encode_err(Ok(i8_bytes(m.resource_type)), SerializationError::ValueTooLarge { message: "failed to encode ResourceType" }) is Ok) && (map_encode_err(string_bytes(m.resource_name, false), SerializationError::ValueTooLarge { message: "failed to encode ResourceName" }) is Ok),
    {
    }

    /// Writes the structure in the classic layout.
    /// On failure the buffer is left as it was.
    pub fn encode(&self, buf: &mut Vec<u8>) -> (r: Result<(), SerializationError>)
        ensures
            write_exact(r, old(buf)@, final(buf)@, Self::spec_encode_classic(self.deep_view())),
    {
        let start = buf.len();
        let r = self.write_classic(buf);
        if r.is_err() {
            buf.truncate(start);
        }
        r
    }

    fn write_classic(&self, buf: &mut Vec<u8>) -> (r: Result<(), SerializationError>)
        ensures
            write_ok(r, old(buf)@, final(buf)@, Self::spec_encode_classic(self.deep_view())),
    {
        let ghost mut w: Seq<u8> = Seq::empty();
        put_i16(buf, self.error_code);
        proof {
            w = w + (map_encode_err(Ok(i16_bytes(self.error_code)), SerializationError::ValueTooLarge { message: "failed to encode ErrorCode" }))->Ok_0;
        }
        assert(buf@ =~= old(buf)@ + w);
        match encode_nullable_string(&self.error_message, buf, false) {
            Ok(()) => {},
            Err(_) => {
                return Err(SerializationError::ValueTooLarge { message: "failed to encode ErrorMessage" });
            },
        }
        proof {
            w = w + (map_encode_err(nullable_string_bytes(self.error_message.deep_view(), false), SerializationError::ValueTooLarge { message: "failed to encode ErrorMessage" }))->Ok_0;
        }
        assert(buf@ =~= old(buf)@ + w);
        put_i8(buf, self.resource_type);
        proof {
            w = w + (map_encode_err(Ok(i8_bytes(self.resource_type)), SerializationError::ValueTooLarge { message: "failed to encode ResourceType" }))->Ok_0;
        }
        assert(buf@ =~= old(buf)@ + w);
        match encode_string(&self.resource_name, buf, false) {
            Ok(()) => {},
            Err(_) => {
                return Err(SerializationError::ValueTooLarge { message: "failed to encode ResourceName" });
            },
        }
        proof {
            w = w + (map_encode_err(string_bytes(self.resource_name.deep_view(), false), SerializationError::ValueTooLarge { message: "failed to encode ResourceName" }))->Ok_0;
        }
        assert(buf@ =~= old(buf)@ + w);
        Ok(())
    }

    /// Reads the structure in the classic layout.
    /// On failure the reader is put back where it started.
    pub fn decode(buf: &mut Reader) -> (r: Result<Self, SerializationError>)
        ensures
            final(buf).bytes() == old(buf).bytes(),
            read_view_exact(r, Self::spec_decode_classic(old(buf).bytes(), old(buf).pos()), old(buf).pos(), final(buf).pos()),
    {
        let start = buf.position();
        let r = Self::read_classic(buf);
        if r.is_err() {
            buf.set_position(start);
        }
        r
    }

    fn read_classic(buf: &mut Reader) -> (r: Result<Self, SerializationError>)
        ensures
            final(buf).bytes() == old(buf).bytes(),
            read_view_ok(r, Self::spec_decode_classic(old(buf).bytes(), old(buf).pos()), final(buf).pos()),
    {
        let error_code = match buf.get_i16() { Ok(v) => v, Err(_) => { return Err(SerializationError::Protocol { message: "failed to decode ErrorCode" }); } };
        let error_message = match buf.get_nullable_string(false) { Ok(v) => v, Err(_) => { return Err(SerializationError::Protocol { message: "failed to decode ErrorMessage" }); } };
        let resource_type = match buf.get_i8() { Ok(v) => v, Err(_) => { return Err(SerializationError::Protocol { message: "failed to decode ResourceType" }); } };
        let resource_name = match buf.get_string(false) { Ok(v) => v, Err(_) => { return Err(SerializationError::Protocol { message: "failed to decode ResourceName" }); } };
        Ok(AlterConfigsResourceResponse { error_code, error_message, resource_type, resource_name })
    }
}

impl KafkaCodec for AlterConfigsResourceResponse {
    open spec fn spec_encode(m: AlterConfigsResourceResponseModel, ctx: Ctx) -> Result<Seq<u8>, SerializationError> {
        Self::spec_encode_classic(m)
    }

    open spec fn reads_back(v: AlterConfigsResourceResponseModel, ctx: Ctx) -> bool {
        Self::reads_back_classic(v)
    }

    proof fn lemma_read_back(pre: Seq<u8>, v: AlterConfigsResourceResponseModel, post: Seq<u8>, ctx: Ctx) {
        Self::lemma_classic_read_back(pre, v, post);
        assert(Self::spec_decode(pre + Self::spec_encode(v, ctx)->Ok_0 + post, pre.len() as int, ctx)
            == Self::spec_decode_classic(pre + Self::spec_encode_classic(v)->Ok_0 + post, pre.len() as int));
    }

    open spec fn spec_decode(s: Seq<u8>, pos: int, ctx: Ctx) -> Result<(AlterConfigsResourceResponseModel, int), SerializationError> {
        Self::spec_decode_classic(s, pos)
    }

    fn encode_ctx(&self, buf: &mut Vec<u8>, ctx: Ctx) -> (r: Result<(), SerializationError>) {
        self.write_classic(buf)
    }

    fn decode_ctx(buf: &mut Reader, ctx: Ctx) -> (r: Result<Self, SerializationError>) {
        Self::read_classic(buf)
    }
}

} // verus!
