//! AlterClientQuotasResponse (API key 49).
use vstd::prelude::*;
use crate::roundtrip::{lemma_array_roundtrip, lemma_i16_roundtrip, lemma_i32_roundtrip,
    lemma_items_read_back, lemma_nullable_string_roundtrip, lemma_seq_assoc, lemma_seq_empty_left,
    lemma_string_roundtrip};
use crate::serialization::{Ctx, KafkaCodec, Reader, SerializationError, array_bytes, decode_array,
    encode_array, encode_nullable_string, encode_string, i16_bytes, i32_bytes, map_decode_err,
    map_encode_err, nullable_string_bytes, parse_array, parse_i16, parse_i32,
    parse_nullable_string, parse_string, put_i16, put_i32, read_view_exact, read_view_ok,
    string_bytes, then, write_exact, write_ok};
use crate::{ApiKey, ApiVersion};

verus! {

// -------------------------------------------------------
// AlterClientQuotasResponse
// -------------------------------------------------------
#[derive(Clone, Debug, Default, PartialEq)]
pub struct AlterClientQuotasResponse {
    /// The duration in milliseconds for which the request was throttled due to a quota violation, or zero if the request did not violate any quota.
    pub throttle_time_ms: i32,
    /// The quota configuration entries to alter.
    pub entries: Vec<EntryData>,
}

/// The contents of `AlterClientQuotasResponse`, with strings as characters and
/// nested values by their contents.
pub struct AlterClientQuotasResponseModel {
    pub throttle_time_ms: i32,
    pub entries: Seq<<EntryData as DeepView>::V>,
}

impl DeepView for AlterClientQuotasResponse {
    type V = AlterClientQuotasResponseModel;

    open spec fn deep_view(&self) -> AlterClientQuotasResponseModel {
        AlterClientQuotasResponseModel {
            throttle_time_ms: self.throttle_time_ms,
            entries: self.entries.deep_view(),
        }
    }
}

impl AlterClientQuotasResponse {
    /// The classic encoding of the structure.
    pub open spec fn spec_encode_classic(m: AlterClientQuotasResponseModel) -> Result<Seq<u8>, SerializationError> {
        let r = Ok(Seq::<u8>::empty());
        let r = then(r, map_encode_err(Ok(i32_bytes(m.throttle_time_ms)), SerializationError::ValueTooLarge { message: "failed to encode ThrottleTimeMs" }));
        let r = then(r, map_encode_err(array_bytes::<EntryData>(m.entries, Ctx { version: 0, flexible: false, classic: true }), SerializationError::ValueTooLarge { message: "failed to encode Entries" }));
        r
    }

    /// The structure read by the classic decoder.
    pub open spec fn spec_decode_classic(s: Seq<u8>, pos: int) -> Result<(AlterClientQuotasResponseModel, int), SerializationError> {
        match map_decode_err(parse_i32(s, pos), SerializationError::Protocol { message: "failed to decode ThrottleTimeMs" }) {
            Err(e) => Err(e),
            Ok((throttle_time_ms, pos)) =>
            match map_decode_err(parse_array::<EntryData>(s, pos, Ctx { version: 0, flexible: false, classic: true }), SerializationError::Protocol { message: "failed to decode Entries" }) {
                Err(e) => Err(e),
                Ok((entries, pos)) =>
                Ok((AlterClientQuotasResponseModel { throttle_time_ms, entries }, pos))
            }
        }
    }

    /// Values of the structure that read back from their classic encoding:
    /// nested values read back.
    pub open spec fn reads_back_classic(m: AlterClientQuotasResponseModel) -> bool {
        &&& forall|i: int| 0 <= i < m.entries.len() ==> #[trigger] <EntryData as KafkaCodec>::reads_back(m.entries[i], Ctx { version: 0, flexible: false, classic: true })
    }

    /// A value that can be written and reads back: decoding its encoding, wherever
    /// it stands, gives the value and the position just after it.
    #[verifier::spinoff_prover]
    pub proof fn lemma_classic_read_back(pre: Seq<u8>, m: AlterClientQuotasResponseModel, post: Seq<u8>)
        requires
            Self::spec_encode_classic(m) is Ok,
            Self::reads_back_classic(m),
        ensures
            Self::spec_decode_classic(pre + Self::spec_encode_classic(m)->Ok_0 + post, pre.len() as int) == Ok::<(AlterClientQuotasResponseModel, int), SerializationError>((m, pre.len() as int + Self::spec_encode_classic(m)->Ok_0.len())),
    {
        let b0 = i32_bytes(m.throttle_time_ms);
        let b1 = (array_bytes::<EntryData>(m.entries, Ctx { version: 0, flexible: false, classic: true }))->Ok_0;
        let t2 = post;
        let t1 = b1 + t2;
        let t0 = b0 + t1;
        let e = Self::spec_encode_classic(m)->Ok_0;
        assert(e =~= Seq::<u8>::empty() + b0 + b1);
        lemma_seq_assoc((Seq::<u8>::empty() + b0), b1, post);
        lemma_seq_assoc(Seq::<u8>::empty(), b0, (b1 + post));
        lemma_seq_empty_left((b0 + (b1 + post)));
        let s = pre + e + post;
        lemma_seq_assoc(pre, e, post);
        assert(s == pre + t0);
        let a0 = pre;
        assert(parse_i32(s, a0.len() as int) == Ok::<(i32, int), SerializationError>((m.throttle_time_ms, a0.len() as int + b0.len()))) by {
            lemma_seq_assoc(a0, b0, t1);
            lemma_i32_roundtrip(a0, m.throttle_time_ms, t1);
        }
        lemma_seq_assoc(a0, b0, t1);
        let a1 = a0 + b0;
        assert(parse_array::<EntryData>(s, a1.len() as int, Ctx { version: 0, flexible: false, classic: true }) == Ok::<(Seq<<EntryData as DeepView>::V>, int), SerializationError>((m.entries, a1.len() as int + b1.len()))) by {
            assert(array_bytes::<EntryData>(m.entries, Ctx { version: 0, flexible: false, classic: true }) is Ok);
            lemma_seq_assoc(a1, b1, t2);
            lemma_items_read_back::<EntryData>(m.entries, Ctx { version: 0, flexible: false, classic: true });
            lemma_array_roundtrip::<EntryData>(a1, m.entries, t2, Ctx { version: 0, flexible: false, classic: true });
        }
    }

    /// The bytes written: the encoding of each field, in the order of the
    /// protocol's layout. Reading them back, wherever they stand, gives the value,
    /// with each field that the version leaves out at its default.
    #[verifier::spinoff_prover]
    pub proof fn lemma_classic_layout(pre: Seq<u8>, m: AlterClientQuotasResponseModel, post: Seq<u8>)
        requires
            Self::spec_encode_classic(m) is Ok,
        ensures
            Self::spec_encode_classic(m) == Ok::<Seq<u8>, SerializationError>((i32_bytes(m.throttle_time_ms)) + ((array_bytes::<EntryData>(m.entries, Ctx { version: 0, flexible: false, classic: true }))->Ok_0)),
            Self::reads_back_classic(m) ==> Self::spec_decode_classic(pre + ((i32_bytes(m.throttle_time_ms)) + ((array_bytes::<EntryData>(m.entries, Ctx { version: 0, flexible: false, classic: true }))->Ok_0)) + post, pre.len() as int) == Ok::<(AlterClientQuotasResponseModel, int), SerializationError>((m, pre.len() as int + ((i32_bytes(m.throttle_time_ms)) + ((array_bytes::<EntryData>(m.entries, Ctx { version: 0, flexible: false, classic: true }))->Ok_0)).len())),
    {
        let b0 = i32_bytes(m.throttle_time_ms);
        let b1 = (array_bytes::<EntryData>(m.entries, Ctx { version: 0, flexible: false, classic: true }))->Ok_0;
        let e = Self::spec_encode_classic(m)->Ok_0;
        assert(e =~= Seq::<u8>::empty() + b0 + b1);
        assert(e =~= b0 + b1);
        if Self::reads_back_classic(m) {
            Self::lemma_classic_read_back(pre, m, post);
        }
    }

    /// Writing succeeds exactly when every field that the version carries can be
    /// encoded and every field that it leaves out, where leaving it out is an
    /// error, holds its default.
    #[verifier::spinoff_prover]
    pub proof fn lemma_classic_write_succeeds(m: AlterClientQuotasResponseModel)
        ensures
            Self::spec_encode_classic(m) is Ok <==> (map_encode_err(Ok(i32_bytes(m.throttle_time_ms)), SerializationError::ValueTooLarge { message: "failed to encode ThrottleTimeMs" }) is Ok) && (map_encode_err(array_bytes::<EntryData>(m.entries, Ctx { version: 0, flexible: false, classic: true }), SerializationError::ValueTooLarge { message: "failed to encode Entries" }) is Ok),
    {
    }

    /// Writes the structure in the classic layout.
    /// On failure the buffer is left as it was.
    pub fn encode(&self, buf: &mut Vec<u8>) -> (r: Result<(), SerializationError>)
        ensures
            write_exact(r, old(buf)@, final(buf)@, Self::spec_encode_classic(self.deep_view())),
    {
        let start = buf.len();
        let r = self.write_classic(buf);
        if r.is_err() {
            buf.truncate(start);
        }
        r
    }

    fn write_classic(&self, buf: &mut Vec<u8>) -> (r: Result<(), SerializationError>)
        ensures
            write_ok(r, old(buf)@, final(buf)@, Self::spec_encode_classic(self.deep_view())),
    {
        let ghost mut w: Seq<u8> = Seq::empty();
        put_i32(buf, self.throttle_time_ms);
        proof {
            w = w + (map_encode_err(Ok(i32_bytes(self.throttle_time_ms)), SerializationError::ValueTooLarge { message: "failed to encode ThrottleTimeMs" }))->Ok_0;
        }
        assert(buf@ =~= old(buf)@ + w);
        match encode_array(&self.entries, buf, Ctx { version: 0, flexible: false, classic: true }) {
            Ok(()) => {},
            Err(_) => {
                return Err(SerializationError::ValueTooLarge { message: "failed to encode Entries" });
            },
        }
        proof {
            w = w + (map_encode_err(array_bytes::<EntryData>(self.entries.deep_view(), Ctx { version: 0, flexible: false, classic: true }), SerializationError::ValueTooLarge { message: "failed to encode Entries" }))->Ok_0;
        }
        assert(buf@ =~= old(buf)@ + w);
        Ok(())
    }

    /// Reads the structure in the classic layout.
    /// On failure the reader is put back where it started.
    pub fn decode(buf: &mut Reader) -> (r: Result<Self, SerializationError>)
        ensures
            final(buf).bytes() == old(buf).bytes(),
            read_view_exact(r, Self::spec_decode_classic(old(buf).bytes(), old(buf).pos()), old(buf).pos(), final(buf).pos()),
    {
        let start = buf.position();
        let r = Self::read_classic(buf);
        if r.is_err() {
            buf.set_position(start);
        }
        r
    }

    fn read_classic(buf: &mut Reader) -> (r: Result<Self, SerializationError>)
        ensures
            final(buf).bytes() == old(buf).bytes(),
            read_view_ok(r, Self::spec_decode_classic(old(buf).bytes(), old(buf).pos()), final(buf).pos()),
    {
        let throttle_time_ms = match buf.get_i32() { Ok(v) => v, Err(_) => { return Err(SerializationError::Protocol { message: "failed to decode ThrottleTimeMs" }); } };
        let entries = match decode_array::<EntryData>(buf, Ctx { version: 0, flexible: false, classic: true }) { Ok(v) => v, Err(_) => { return Err(SerializationError::Protocol { message: "failed to decode Entries" }); } };
        Ok(AlterClientQuotasResponse { throttle_time_ms, entries })
    }
}

impl KafkaCodec for AlterClientQuotasResponse {
    open spec fn spec_encode(m: AlterClientQuotasResponseModel, ctx: Ctx) -> Result<Seq<u8>, SerializationError> {
        Self::spec_encode_classic(m)
    }

    open spec fn reads_back(v: AlterClientQuotasResponseModel, ctx: Ctx) -> bool {
        Self::reads_back_classic(v)
    }

    proof fn lemma_read_back(pre: Seq<u8>, v: AlterClientQuotasResponseModel, post: Seq<u8>, ctx: Ctx) {
        Self::lemma_classic_read_back(pre, v, post);
        assert(Self::spec_decode(pre + Self::spec_encode(v, ctx)->Ok_0 + post, pre.len() as int, ctx)
            == Self::spec_decode_classic(pre + Self::spec_encode_classic(v)->Ok_0 + post, pre.len() as int));
    }

    open spec fn spec_decode(s: Seq<u8>, pos: int, ctx: Ctx) -> Result<(AlterClientQuotasResponseModel, int), SerializationError> {
        Self::spec_decode_classic(s, pos)
    }

    fn encode_ctx(&self, buf: &mut Vec<u8>, ctx: Ctx) -> (r: Result<(), SerializationError>) {
        self.write_classic(buf)
    }

    fn decode_ctx(buf: &mut Reader, ctx: Ctx) -> (r: Result<Self, SerializationError>) {
        Self::read_classic(buf)
    }
}

impl AlterClientQuotasResponse {
    /// The API key of this message.
    pub fn get_api_key() -> (r: ApiKey)
        ensures
            r.0 == 49,
    {
        ApiKey::new(49)
    }

    /// The oldest version of this message.
    pub fn get_min_supported_version() -> (r: ApiVersion)
        ensures
            r.0 == 0,
    {
        ApiVersion::new(0)
    }

    /// The newest version of this message.
    pub fn get_max_supported_version() -> (r: ApiVersion)
        ensures
            r.0 == 0,
    {
        ApiVersion::new(0)
    }

    /// The encoding of a whole message body at `version`.
    pub open spec fn spec_serialize(m: AlterClientQuotasResponseModel, version: i16) -> Result<Seq<u8>, SerializationError> {
        let is_flexible = false;
        let ctx = Ctx { version, flexible: is_flexible, classic: false };
        let r = Ok(Seq::<u8>::empty());
        let r = then(r, map_encode_err(Ok(i32_bytes(m.throttle_time_ms)), SerializationError::Encode("failed to encode ThrottleTimeMs")));
        let r = then(r, map_encode_err(array_bytes::<EntryData>(m.entries, Ctx { version: ctx.version, flexible: false, classic: true }), SerializationError::Encode("failed to encode Entries")));
        r
    }

    /// The message body read at `version`.
    pub open spec fn spec_deserialize(s: Seq<u8>, pos: int, version: i16) -> Result<(AlterClientQuotasResponseModel, int), SerializationError> {
        let is_flexible = false;
        let ctx = Ctx { version, flexible: is_flexible, classic: false };
        match map_decode_err(parse_i32(s, pos), SerializationError::Decode("failed to decode ThrottleTimeMs")) {
            Err(e) => Err(e),
            Ok((throttle_time_ms, pos)) =>
            match map_decode_err(parse_array::<EntryData>(s, pos, Ctx { version: ctx.version, flexible: false, classic: true }), SerializationError::Decode("failed to decode Entries")) {
                Err(e) => Err(e),
                Ok((entries, pos)) =>
                Ok((AlterClientQuotasResponseModel { throttle_time_ms, entries }, pos))
            }
        }
    }

    /// Message bodies that read back when written at `version`: every field that
    /// the version leaves out holds its default, and nested values read back.
    pub open spec fn reads_back_message(m: AlterClientQuotasResponseModel, version: i16) -> bool {
        let is_flexible = false;
        let ctx = Ctx { version, flexible: is_flexible, classic: false };
        &&& forall|i: int| 0 <= i < m.entries.len() ==> #[trigger] <EntryData as KafkaCodec>::reads_back(m.entries[i], Ctx { version: ctx.version, flexible: false, classic: true })
    }

    /// A message body that can be written at `version` and reads back: reading a
    /// body at `version` from its bytes, wherever they stand, gives the same message.
    #[verifier::spinoff_prover]
    pub proof fn lemma_message_read_back(pre: Seq<u8>, m: AlterClientQuotasResponseModel, post: Seq<u8>, version: i16)
        requires
            Self::spec_serialize(m, version) is Ok,
            Self::reads_back_message(m, version),
        ensures
            Self::spec_deserialize(pre + Self::spec_serialize(m, version)->Ok_0 + post, pre.len() as int, version) == Ok::<(AlterClientQuotasResponseModel, int), SerializationError>((m, pre.len() as int + Self::spec_serialize(m, version)->Ok_0.len())),
    {
        let is_flexible = false;
        let ctx = Ctx { version, flexible: is_flexible, classic: false };
        let b0 = i32_bytes(m.throttle_time_ms);
        let b1 = (array_bytes::<EntryData>(m.entries, Ctx { version: ctx.version, flexible: false, classic: true }))->Ok_0;
        let t2 = post;
        let t1 = b1 + t2;
        let t0 = b0 + t1;
        let e = Self::spec_serialize(m, version)->Ok_0;
        assert(e =~= Seq::<u8>::empty() + b0 + b1);
        lemma_seq_assoc((Seq::<u8>::empty() + b0), b1, post);
        lemma_seq_assoc(Seq::<u8>::empty(), b0, (b1 + post));
        lemma_seq_empty_left((b0 + (b1 + post)));
        let s = pre + e + post;
        lemma_seq_assoc(pre, e, post);
        assert(s == pre + t0);
        let a0 = pre;
        assert(parse_i32(s, a0.len() as int) == Ok::<(i32, int), SerializationError>((m.throttle_time_ms, a0.len() as int + b0.len()))) by {
            lemma_seq_assoc(a0, b0, t1);
            lemma_i32_roundtrip(a0, m.throttle_time_ms, t1);
        }
        lemma_seq_assoc(a0, b0, t1);
        let a1 = a0 + b0;
        assert(parse_array::<EntryData>(s, a1.len() as int, Ctx { version: ctx.version, flexible: false, classic: true }) == Ok::<(Seq<<EntryData as DeepView>::V>, int), SerializationError>((m.entries, a1.len() as int + b1.len()))) by {
            assert(array_bytes::<EntryData>(m.entries, Ctx { version: ctx.version, flexible: false, classic: true }) is Ok);
            lemma_seq_assoc(a1, b1, t2);
            lemma_items_read_back::<EntryData>(m.entries, Ctx { version: ctx.version, flexible: false, classic: true });
            lemma_array_roundtrip::<EntryData>(a1, m.entries, t2, Ctx { version: ctx.version, flexible: false, classic: true });
        }
    }

    /// The bytes written: the encoding of each field, in the order of the
    /// protocol's layout. Reading them back, wherever they stand, gives the value,
    /// with each field that the version leaves out at its default.
    #[verifier::spinoff_prover]
    pub proof fn lemma_message_layout(pre: Seq<u8>, m: AlterClientQuotasResponseModel, post: Seq<u8>, version: i16)
        requires
            Self::spec_serialize(m, version) is Ok,
        ensures
            Self::spec_serialize(m, version) == Ok::<Seq<u8>, SerializationError>((i32_bytes(m.throttle_time_ms)) + ((array_bytes::<EntryData>(m.entries, Ctx { version: version, flexible: false, classic: true }))->Ok_0)),
            Self::reads_back_message(m, version) ==> Self::spec_deserialize(pre + ((i32_bytes(m.throttle_time_ms)) + ((array_bytes::<EntryData>(m.entries, Ctx { version: version, flexible: false, classic: true }))->Ok_0)) + post, pre.len() as int, version) == Ok::<(AlterClientQuotasResponseModel, int), SerializationError>((m, pre.len() as int + ((i32_bytes(m.throttle_time_ms)) + ((array_bytes::<EntryData>(m.entries, Ctx { version: version, flexible: false, classic: true }))->Ok_0)).len())),
    {
        let is_flexible = false;
        let ctx = Ctx { version, flexible: is_flexible, classic: false };
        let b0 = i32_bytes(m.throttle_time_ms);
        let b1 = (array_bytes::<EntryData>(m.entries, Ctx { version: ctx.version, flexible: false, classic: true }))->Ok_0;
        let e = Self::spec_serialize(m, version)->Ok_0;
        assert(e =~= Seq::<u8>::empty() + b0 + b1);
        assert(e =~= b0 + b1);
        if Self::reads_back_message(m, version) {
            Self::lemma_message_read_back(pre, m, post, version);
        }
    }

    /// Writing succeeds exactly when every field that the version carries can be
    /// encoded and every field that it leaves out, where leaving it out is an
    /// error, holds its default.
    #[verifier::spinoff_prover]
    pub proof fn lemma_message_write_succeeds(m: AlterClientQuotasResponseModel, version: i16)
        ensures
            Self::spec_serialize(m, version) is Ok <==> (map_encode_err(Ok(i32_bytes(m.throttle_time_ms)), SerializationError::Encode("failed to encode ThrottleTimeMs")) is Ok) && (map_encode_err(array_bytes::<EntryData>(m.entries, Ctx { version: version, flexible: false, classic: true }), SerializationError::Encode("failed to encode Entries")) is Ok),
    {
        let is_flexible = false;
        let ctx = Ctx { version, flexible: is_flexible, classic: false };
    }

    /// Writes the message body for `version`, which must be a supported version.
    /// On failure the buffer is left as it was.
    pub fn serialize(&self, version: ApiVersion, buf: &mut Vec<u8>) -> (r: Result<(), SerializationError>)
        requires
            0 <= version.0 <= 0,
        ensures
            write_exact(r, old(buf)@, final(buf)@, Self::spec_serialize(self.deep_view(), version.0)),
    {
        let start = buf.len();
        let r = self.write_body(version, buf);
        if r.is_err() {
            buf.truncate(start);
        }
        r
    }

    fn write_body(&self, version: ApiVersion, buf: &mut Vec<u8>) -> (r: Result<(), SerializationError>)
        requires
            0 <= version.0 <= 0,
        ensures
            write_ok(r, old(buf)@, final(buf)@, Self::spec_serialize(self.deep_view(), version.0)),
    {
        let is_flexible = false;
        let ctx = Ctx::new(version, is_flexible);
        let ghost mut w: Seq<u8> = Seq::empty();
        put_i32(buf, self.throttle_time_ms);
        proof {
            w = w + (map_encode_err(Ok(i32_bytes(self.throttle_time_ms)), SerializationError::Encode("failed to encode ThrottleTimeMs")))->Ok_0;
        }
        assert(buf@ =~= old(buf)@ + w);
        match encode_array(&self.entries, buf, Ctx { version: ctx.version, flexible: false, classic: true }) {
            Ok(()) => {},
            Err(_) => {
                return Err(SerializationError::Encode("failed to encode Entries"));
            },
        }
        proof {
            w = w + (map_encode_err(array_bytes::<EntryData>(self.entries.deep_view(), Ctx { version: ctx.version, flexible: false, classic: true }), SerializationError::Encode("failed to encode Entries")))->Ok_0;
        }
        assert(buf@ =~= old(buf)@ + w);
        Ok(())
    }

    /// Reads a message body written for `version`.
    /// On failure the reader is put back where it started.
    pub fn deserialize(version: ApiVersion, buf: &mut Reader) -> (r: Result<Self, SerializationError>)
        ensures
            final(buf).bytes() == old(buf).bytes(),
            read_view_exact(r, Self::spec_deserialize(old(buf).bytes(), old(buf).pos(), version.0), old(buf).pos(), final(buf).pos()),
    {
        let start = buf.position();
        let r = Self::read_body(version, buf);
        if r.is_err() {
            buf.set_position(start);
        }
        r
    }

    fn read_body(version: ApiVersion, buf: &mut Reader) -> (r: Result<Self, SerializationError>)
        ensures
            final(buf).bytes() == old(buf).bytes(),
            read_view_ok(r, Self::spec_deserialize(old(buf).bytes(), old(buf).pos(), version.0), final(buf).pos()),
    {
        let is_flexible = false;
        let ctx = Ctx::new(version, is_flexible);
        let throttle_time_ms = match buf.get_i32() { Ok(v) => v, Err(_) => { return Err(SerializationError::Decode("failed to decode ThrottleTimeMs")); } };
        let entries = match decode_array::<EntryData>(buf, Ctx { version: ctx.version, flexible: false, classic: true }) { Ok(v) => v, Err(_) => { return Err(SerializationError::Decode("failed to decode Entries")); } };
        Ok(AlterClientQuotasResponse { throttle_time_ms, entries })
    }
}

// -------------------------------------------------------
// EntityData
// -------------------------------------------------------
#[derive(Clone, Debug, Default, PartialEq)]
pub struct EntityData {
    /// The entity type.
    pub entity_type: String,
    /// The name of the entity, or null if the default.
    pub entity_name: Option<String>,
}

/// The contents of `EntityData`, with strings as characters and
/// nested values by their contents.
pub struct EntityDataModel {
    pub entity_type: Seq<char>,
    pub entity_name: Option<Seq<char>>,
}

impl DeepView for EntityData {
    type V = EntityDataModel;

    open spec fn deep_view(&self) -> EntityDataModel {
        EntityDataModel {
            entity_type: self.entity_type.deep_view(),
            entity_name: self.entity_name.deep_view(),
        }
    }
}

impl EntityData {
    /// The classic encoding of the structure.
    pub open spec fn spec_encode_classic(m: EntityDataModel) -> Result<Seq<u8>, SerializationError> {
        let r = Ok(Seq::<u8>::empty());
        let r = then(r, map_encode_err(string_bytes(m.entity_type, false), SerializationError::ValueTooLarge { message: "failed to encode EntityType" }));
        let r = then(r, map_encode_err(nullable_string_bytes(m.entity_name, false), SerializationError::ValueTooLarge { message: "failed to encode EntityName" }));
        r
    }

    /// The structure read by the classic decoder.
    pub open spec fn spec_decode_classic(s: Seq<u8>, pos: int) -> Result<(EntityDataModel, int), SerializationError> {
        match map_decode_err(parse_string(s, pos, false), SerializationError::Protocol { message: "failed to decode EntityType" }) {
            Err(e) => Err(e),
            Ok((entity_type, pos)) =>
            match map_decode_err(parse_nullable_string(s, pos, false), SerializationError::Protocol { message: "failed to decode EntityName" }) {
                Err(e) => Err(e),
                Ok((entity_name, pos)) =>
                Ok((EntityDataModel { entity_type, entity_name }, pos))
            }
        }
    }

    /// Values of the structure that read back from their classic encoding:
    /// nested values read back.
    pub open spec fn reads_back_classic(m: EntityDataModel) -> bool {
        true
    }

    /// A value that can be written and reads back: decoding its encoding, wherever
    /// it stands, gives the value and the position just after it.
    #[verifier::spinoff_prover]
    pub proof fn lemma_classic_read_back(pre: Seq<u8>, m: EntityDataModel, post: Seq<u8>)
        requires
            Self::spec_encode_classic(m) is Ok,
            Self::reads_back_classic(m),
        ensures
            Self::spec_decode_classic(pre + Self::spec_encode_classic(m)->Ok_0 + post, pre.len() as int) == Ok::<(EntityDataModel, int), SerializationError>((m, pre.len() as int + Self::spec_encode_classic(m)->Ok_0.len())),
    {
        let b0 = (string_bytes(m.entity_type, false))->Ok_0;
        let b1 = (nullable_string_bytes(m.entity_name, false))->Ok_0;
        let t2 = post;
        let t1 = b1 + t2;
        let t0 = b0 + t1;
        let e = Self::spec_encode_classic(m)->Ok_0;
        assert(e =~= Seq::<u8>::empty() + b0 + b1);
        lemma_seq_assoc((Seq::<u8>::empty() + b0), b1, post);
        lemma_seq_assoc(Seq::<u8>::empty(), b0, (b1 + post));
        lemma_seq_empty_left((b0 + (b1 + post)));
        let s = pre + e + post;
        lemma_seq_assoc(pre, e, post);
        assert(s == pre + t0);
        let a0 = pre;
        assert(parse_string(s, a0.len() as int, false) == Ok::<(Seq<char>, int), SerializationError>((m.entity_type, a0.len() as int + b0.len()))) by {
            assert(string_bytes(m.entity_type, false) is Ok);
            lemma_seq_assoc(a0, b0, t1);
            lemma_string_roundtrip(a0, m.entity_type, t1, false);
        }
        lemma_seq_assoc(a0, b0, t1);
        let a1 = a0 + b0;
        assert(parse_nullable_string(s, a1.len() as int, false) == Ok::<(Option<Seq<char>>, int), SerializationError>((m.entity_name, a1.len() as int + b1.len()))) by {
            assert(nullable_string_bytes(m.entity_name, false) is Ok);
            lemma_seq_assoc(a1, b1, t2);
            lemma_nullable_string_roundtrip(a1, m.entity_name, t2, false);
        }
    }

    /// The bytes written: the encoding of each field, in the order of the
    /// protocol's layout. Reading them back, wherever they stand, gives the value,
    /// with each field that the version leaves out at its default.
    #[verifier::spinoff_prover]
    pub proof fn lemma_classic_layout(pre: Seq<u8>, m: EntityDataModel, post: Seq<u8>)
        requires
            Self::spec_encode_classic(m) is Ok,
        ensures
            Self::spec_encode_classic(m) == Ok::<Seq<u8>, SerializationError>(((string_bytes(m.entity_type, false))->Ok_0) + ((nullable_string_bytes(m.entity_name, false))->Ok_0)),
            Self::reads_back_classic(m) ==> Self::spec_decode_classic(pre + (((string_bytes(m.entity_type, false))->Ok_0) + ((nullable_string_bytes(m.entity_name, false))->Ok_0)) + post, pre.len() as int) == Ok::<(EntityDataModel, int), SerializationError>((m, pre.len() as int + (((string_bytes(m.entity_type, false))->Ok_0) + ((nullable_string_bytes(m.entity_name, false))->Ok_0)).len())),
    {
        let b0 = (string_bytes(m.entity_type, false))->Ok_0;
        let b1 = (nullable_string_bytes(m.entity_name, false))->Ok_0;
        let e = Self::spec_encode_classic(m)->Ok_0;
        assert(e =~= Seq::<u8>::empty() + b0 + b1);
        assert(e =~= b0 + b1);
        if Self::reads_back_classic(m) {
            Self::lemma_classic_read_back(pre, m, post);
        }
    }

    /// Writing succeeds exactly when every field that the version carries can be
    /// encoded and every field that it leaves out, where leaving it out is an
    /// error, holds its default.
    #[verifier::spinoff_prover]
    pub proof fn lemma_classic_write_succeeds(m: EntityDataModel)
        ensures
            Self::spec_encode_classic(m) is Ok <==> (map_encode_err(string_bytes(m.entity_type, false), SerializationError::ValueTooLarge { message: "failed to encode EntityType" }) is Ok) && (map_encode_err(nullable_string_bytes(m.entity_name, false), SerializationError::ValueTooLarge { message: "failed to encode EntityName" }) is Ok),
    {
    }

    /// Writes the structure in the classic layout.
    /// On failure the buffer is left as it was.
    pub fn encode(&self, buf: &mut Vec<u8>) -> (r: Result<(), SerializationError>)
        ensures
            write_exact(r, old(buf)@, final(buf)@, Self::spec_encode_classic(self.deep_view())),
    {
        let start = buf.len();
        let r = self.write_classic(buf);
        if r.is_err() {
            buf.truncate(start);
        }
        r
    }

    fn write_classic(&self, buf: &mut Vec<u8>) -> (r: Result<(), SerializationError>)
        ensures
            write_ok(r, old(buf)@, final(buf)@, Self::spec_encode_classic(self.deep_view())),
    {
        let ghost mut w: Seq<u8> = Seq::empty();
        match encode_string(&self.entity_type, buf, false) {
            Ok(()) => {},
            Err(_) => {
                return Err(SerializationError::ValueTooLarge { message: "failed to encode EntityType" });
            },
        }
        proof {
            w = w + (map_encode_err(string_bytes(self.entity_type.deep_view(), false), SerializationError::ValueTooLarge { message: "failed to encode EntityType" }))->Ok_0;
        }
        assert(buf@ =~= old(buf)@ + w);
        match encode_nullable_string(&self.entity_name, buf, false) {
            Ok(()) => {},
            Err(_) => {
                return Err(SerializationError::ValueTooLarge { message: "failed to encode EntityName" });
            },
        }
        proof {
            w = w + (map_encode_err(nullable_string_bytes(self.entity_name.deep_view(), false), SerializationError::ValueTooLarge { message: "failed to encode EntityName" }))->Ok_0;
        }
        assert(buf@ =~= old(buf)@ + w);
        Ok(())
    }

    /// Reads the structure in the classic layout.
    /// On failure the reader is put back where it started.
    pub fn decode(buf: &mut Reader) -> (r: Result<Self, SerializationError>)
        ensures
            final(buf).bytes() == old(buf).bytes(),
            read_view_exact(r, Self::spec_decode_classic(old(buf).bytes(), old(buf).pos()), old(buf).pos(), final(buf).pos()),
    {
        let start = buf.position();
        let r = Self::read_classic(buf);
        if r.is_err() {
            buf.set_position(start);
        }
        r
    }

    fn read_classic(buf: &mut Reader) -> (r: Result<Self, SerializationError>)
        ensures
            final(buf).bytes() == old(buf).bytes(),
            read_view_ok(r, Self::spec_decode_classic(old(buf).bytes(), old(buf).pos()), final(buf).pos()),
    {
        let entity_type = match buf.get_string(false) { Ok(v) => v, Err(_) => { return Err(SerializationError::Protocol { message: "failed to decode EntityType" }); } };
        let entity_name = match buf.get_nullable_string(false) { Ok(v) => v, Err(_) => { return Err(SerializationError::Protocol { message: "failed to decode EntityName" }); } };
        Ok(EntityData { entity_type, entity_name })
    }
}

impl KafkaCodec for EntityData {
    open spec fn spec_encode(m: EntityDataModel, ctx: Ctx) -> Result<Seq<u8>, SerializationError> {
        Self::spec_encode_classic(m)
    }

    open spec fn reads_back(v: EntityDataModel, ctx: Ctx) -> bool {
        Self::reads_back_classic(v)
    }

    proof fn lemma_read_back(pre: Seq<u8>, v: EntityDataModel, post: Seq<u8>, ctx: Ctx) {
        Self::lemma_classic_read_back(pre, v, post);
        assert(Self::spec_decode(pre + Self::spec_encode(v, ctx)->Ok_0 + post, pre.len() as int, ctx)
            == Self::spec_decode_classic(pre + Self::spec_encode_classic(v)->Ok_0 + post, pre.len() as int));
    }

    open spec fn spec_decode(s: Seq<u8>, pos: int, ctx: Ctx) -> Result<(EntityDataModel, int), SerializationError> {
        Self::spec_decode_classic(s, pos)
    }

    fn encode_ctx(&self, buf: &mut Vec<u8>, ctx: Ctx) -> (r: Result<(), SerializationError>) {
        self.write_classic(buf)
    }

    fn decode_ctx(buf: &mut Reader, ctx: Ctx) -> (r: Result<Self, SerializationError>) {
        Self::read_classic(buf)
    }
}

// -------------------------------------------------------
// EntryData
// -------------------------------------------------------
#[derive(Clone, Debug, Default, PartialEq)]
pub struct EntryData {
    /// The error code, or `0` if the quota alteration succeeded.
    pub error_code: i16,
    /// The error message, or `null` if the quota alteration succeeded.
    pub error_message: Option<String>,
    /// The quota entity to alter.
    pub entity: Vec<EntityData>,
}

/// The contents of `EntryData`, with strings as characters and
/// nested values by their contents.
pub struct EntryDataModel {
    pub error_code: i16,
    pub error_message: Option<Seq<char>>,
    pub entity: Seq<<EntityData as DeepView>::V>,
}

impl DeepView for EntryData {
    type V = EntryDataModel;

    open spec fn deep_view(&self) -> EntryDataModel {
        EntryDataModel {
            error_code: self.error_code,
            error_message: self.error_message.deep_view(),
            entity: self.entity.deep_view(),
        }
    }
}

impl EntryData {
    /// The classic encoding of the structure.
    pub open spec fn spec_encode_classic(m: EntryDataModel) -> Result<Seq<u8>, SerializationError> {
        let r = Ok(Seq::<u8>::empty());
        let r = then(r, map_encode_err(Ok(i16_bytes(m.error_code)), SerializationError::ValueTooLarge { message: "failed to encode ErrorCode" }));
        let r = then(r, map_encode_err(nullable_string_bytes(m.error_message, false), SerializationError::ValueTooLarge { message: "failed to encode ErrorMessage" }));
        let r = then(r, map_encode_err(array_bytes::<EntityData>(m.entity, Ctx { version: 0, flexible: false, classic: true }), SerializationError::ValueTooLarge { message: "failed to encode Entity" }));
        r
    }

    /// The structure read by the classic decoder.
    pub open spec fn spec_decode_classic(s: Seq<u8>, pos: int) -> Result<(EntryDataModel, int), SerializationError> {
        match map_decode_err(parse_i16(s, pos), SerializationError::Protocol { message: "failed to decode ErrorCode" }) {
            Err(e) => Err(e),
            Ok((error_code, pos)) =>
            match map_decode_err(parse_nullable_string(s, pos, false), SerializationError::Protocol { message: "failed to decode ErrorMessage" }) {
                Err(e) => Err(e),
                Ok((error_message, pos)) =>
                match map_decode_err(parse_array::<EntityData>(s, pos, Ctx { version: 0, flexible: false, classic: true }), SerializationError::Protocol { message: "failed to decode Entity" }) {
                    Err(e) => Err(e),
                    Ok((entity, pos)) =>
                    Ok((EntryDataModel { error_code, error_message, entity }, pos))
                }
            }
        }
    }

    /// Values of the structure that read back from their classic encoding:
    /// nested values read back.
    pub open spec fn reads_back_classic(m: EntryDataModel) -> bool {
        &&& forall|i: int| 0 <= i < m.entity.len() ==> #[trigger] <EntityData as KafkaCodec>::reads_back(m.entity[i], Ctx { version: 0, flexible: false, classic: true })
    }

    /// A value that can be written and reads back: decoding its encoding, wherever
    /// it stands, gives the value and the position just after it.
    #[verifier::spinoff_prover]
    pub proof fn lemma_classic_read_back(pre: Seq<u8>, m: EntryDataModel, post: Seq<u8>)
        requires
            Self::spec_encode_classic(m) is Ok,
            Self::reads_back_classic(m),
        ensures
            Self::spec_decode_classic(pre + Self::spec_encode_classic(m)->Ok_0 + post, pre.len() as int) == Ok::<(EntryDataModel, int), SerializationError>((m, pre.len() as int + Self::spec_encode_classic(m)->Ok_0.len())),
    {
        let b0 = i16_bytes(m.error_code);
        let b1 = (nullable_string_bytes(m.error_message, false))->Ok_0;
        let b2 = (array_bytes::<EntityData>(m.entity, Ctx { version: 0, flexible: false, classic: true }))->Ok_0;
        let t3 = post;
        let t2 = b2 + t3;
        let t1 = b1 + t2;
        let t0 = b0 + t1;
        let e = Self::spec_encode_classic(m)->Ok_0;
        assert(e =~= Seq::<u8>::empty() + b0 + b1 + b2);
        lemma_seq_assoc(((Seq::<u8>::empty() + b0) + b1), b2, post);
        lemma_seq_assoc((Seq::<u8>::empty() + b0), b1, (b2 + post));
        lemma_seq_assoc(Seq::<u8>::empty(), b0, (b1 + (b2 + post)));
        lemma_seq_empty_left((b0 + (b1 + (b2 + post))));
        let s = pre + e + post;
        lemma_seq_assoc(pre, e, post);
        assert(s == pre + t0);
        let a0 = pre;
        assert(parse_i16(s, a0.len() as int) == Ok::<(i16, int), SerializationError>((m.error_code, a0.len() as int + b0.len()))) by {
            lemma_seq_assoc(a0, b0, t1);
            lemma_i16_roundtrip(a0, m.error_code, t1);
        }
        lemma_seq_assoc(a0, b0, t1);
        let a1 = a0 + b0;
        assert(parse_nullable_string(s, a1.len() as int, false) == Ok::<(Option<Seq<char>>, int), SerializationError>((m.error_message, a1.len() as int + b1.len()))) by {
            assert(nullable_string_bytes(m.error_message, false) is Ok);
            lemma_seq_assoc(a1, b1, t2);
            lemma_nullable_string_roundtrip(a1, m.error_message, t2, false);
        }
        lemma_seq_assoc(a1, b1, t2);
        let a2 = a1 + b1;
        assert(parse_array::<EntityData>(s, a2.len() as int, Ctx { version: 0, flexible: false, classic: true }) == Ok::<(Seq<<EntityData as DeepView>::V>, int), SerializationError>((m.entity, a2.len() as int + b2.len()))) by {
            assert(array_bytes::<EntityData>(m.entity, Ctx { version: 0, flexible: false, classic: true }) is Ok);
            lemma_seq_assoc(a2, b2, t3);
            lemma_items_read_back::<EntityData>(m.entity, Ctx { version: 0, flexible: false, classic: true });
            lemma_array_roundtrip::<EntityData>(a2, m.entity, t3, Ctx { version: 0, flexible: false, classic: true });
        }
    }

    /// The bytes written: the encoding of each field, in the order of the
    /// protocol's layout. Reading them back, wherever they stand, gives the value,
    /// with each field that the version leaves out at its default.
    #[verifier::spinoff_prover]
    pub proof fn lemma_classic_layout(pre: Seq<u8>, m: EntryDataModel, post: Seq<u8>)
        requires
            Self::spec_encode_classic(m) is Ok,
        ensures
            Self::spec_encode_classic(m) == Ok::<Seq<u8>, SerializationError>((i16_bytes(m.error_code)) + ((nullable_string_bytes(m.error_message, false))->Ok_0) + ((array_bytes::<EntityData>(m.entity, Ctx { version: 0, flexible: false, classic: true }))->Ok_0)),
            Self::reads_back_classic(m) ==> Self::spec_decode_classic(pre + ((i16_bytes(m.error_code)) + ((nullable_string_bytes(m.error_message, false))->Ok_0) + ((array_bytes::<EntityData>(m.entity, Ctx { version: 0, flexible: false, classic: true }))->Ok_0)) + post, pre.len() as int) == Ok::<(EntryDataModel, int), SerializationError>((m, pre.len() as int + ((i16_bytes(m.error_code)) + ((nullable_string_bytes(m.error_message, false))->Ok_0) + ((array_bytes::<EntityData>(m.entity, Ctx { version: 0, flexible: false, classic: true }))->Ok_0)).len())),
    {
        let b0 = i16_bytes(m.error_code);
        let b1 = (nullable_string_bytes(m.error_message, false))->Ok_0;
        let b2 = (array_bytes::<EntityData>(m.entity, Ctx { version: 0, flexible: false, classic: true }))->Ok_0;
        let e = Self::spec_encode_classic(m)->Ok_0;
        assert(e =~= Seq::<u8>::empty() + b0 + b1 + b2);
        assert(e =~= b0 + b1 + b2);
        if Self::reads_back_classic(m) {
            Self::lemma_classic_read_back(pre, m, post);
        }
    }

    /// Writing succeeds exactly when every field that the version carries can be
    /// encoded and every field that it leaves out, where leaving it out is an
    /// error, holds its default.
    #[verifier::spinoff_prover]
    pub proof fn lemma_classic_write_succeeds(m: EntryDataModel)
        ensures
            Self::spec_encode_classic(m) is Ok <==> (map_encode_err(Ok(i16_bytes(m.error_code)), SerializationError::ValueTooLarge { message: "failed to encode ErrorCode" }) is Ok) && (map_encode_err(nullable_string_bytes(m.error_message, false), SerializationError::ValueTooLarge { message: "failed to encode ErrorMessage" }) is Ok) && (map_encode_err(array_bytes::<EntityData>(m.entity, Ctx { version: 0, flexible: false, classic: true }), SerializationError::ValueTooLarge { message: "failed to encode Entity" }) is Ok),
    {
    }

    /// Writes the structure in the classic layout.
    /// On failure the buffer is left as it was.
    pub fn encode(&self, buf: &mut Vec<u8>) -> (r: Result<(), SerializationError>)
        ensures
            write_exact(r, old(buf)@, final(buf)@, Self::spec_encode_classic(self.deep_view())),
    {
        let start = buf.len();
        let r = self.write_classic(buf);
        if r.is_err() {
            buf.truncate(start);
        }
        r
    }

    fn write_classic(&self, buf: &mut Vec<u8>) -> (r: Result<(), SerializationError>)
        ensures
            write_ok(r, old(buf)@, final(buf)@, Self::spec_encode_classic(self.deep_view())),
    {
        let ghost mut w: Seq<u8> = Seq::empty();
        put_i16(buf, self.error_code);
        proof {
            w = w + (map_encode_err(Ok(i16_bytes(self.error_code)), SerializationError::ValueTooLarge { message: "failed to encode ErrorCode" }))->Ok_0;
        }
        assert(buf@ =~= old(buf)@ + w);
        match encode_nullable_string(&self.error_message, buf, false) {
            Ok(()) => {},
            Err(_) => {
                return Err(SerializationError::ValueTooLarge { message: "failed to encode ErrorMessage" });
            },
        }
        proof {
            w = w + (map_encode_err(nullable_string_bytes(self.error_message.deep_view(), false), SerializationError::ValueTooLarge { message: "failed to encode ErrorMessage" }))->Ok_0;
        }
        assert(buf@ =~= old(buf)@ + w);
        match encode_array(&self.entity, buf, Ctx { version: 0, flexible: false, classic: true }) {
            Ok(()) => {},
            Err(_) => {
                return Err(SerializationError::ValueTooLarge { message: "failed to encode Entity" });
            },
        }
        proof {
            w = w + (map_encode_err(array_bytes::<EntityData>(self.entity.deep_view(), Ctx { version: 0, flexible: false, classic: true }), SerializationError::ValueTooLarge { message: "failed to encode Entity" }))->Ok_0;
        }
        assert(buf@ =~= old(buf)@ + w);
        Ok(())
    }

    /// Reads the structure in the classic layout.
    /// On failure the reader is put back where it started.
    pub fn decode(buf: &mut Reader) -> (r: Result<Self, SerializationError>)
        ensures
            final(buf).bytes() == old(buf).bytes(),
            read_view_exact(r, Self::spec_decode_classic(old(buf).bytes(), old(buf).pos()), old(buf).pos(), final(buf).pos()),
    {
        let start = buf.position();
        let r = Self::read_classic(buf);
        if r.is_err() {
            buf.set_position(start);
        }
        r
    }

    fn read_classic(buf: &mut Reader) -> (r: Result<Self, SerializationError>)
        ensures
            final(buf).bytes() == old(buf).bytes(),
            read_view_ok(r, Self::spec_decode_classic(old(buf).bytes(), old(buf).pos()), final(buf).pos()),
    {
        let error_code = match buf.get_i16() { Ok(v) => v, Err(_) => { return Err(SerializationError::Protocol { message: "failed to decode ErrorCode" }); } };
        let error_message = match buf.get_nullable_string(false) { Ok(v) => v, Err(_) => { return Err(SerializationError::Protocol { message: "failed to decode ErrorMessage" }); } };
        let entity = match decode_array::<EntityData>(buf, Ctx { version: 0, flexible: false, classic: true }) { Ok(v) => v, Err(_) => { return Err(SerializationError::Protocol { message: "failed to decode Entity" }); } };
        Ok(EntryData { error_code, error_message, entity })
    }
}

impl KafkaCodec for EntryData {
    open spec fn spec_encode(m: EntryDataModel, ctx: Ctx) -> Result<Seq<u8>, SerializationError> {
        Self::spec_encode_classic(m)
    }

    open spec fn reads_back(v: EntryDataModel, ctx: Ctx) -> bool {
        Self::reads_back_classic(v)
    }

    proof fn lemma_read_back(pre: Seq<u8>, v: EntryDataModel, post: Seq<u8>, ctx: Ctx) {
        Self::lemma_classic_read_back(pre, v, post);
        assert(Self::spec_decode(pre + Self::spec_encode(v, ctx)->Ok_0 + post, pre.len() as int, ctx)
            == Self::spec_decode_classic(pre + Self::spec_encode_classic(v)->Ok_0 + post, pre.len() as int));
    }

    open spec fn spec_decode(s: Seq<u8>, pos: int, ctx: Ctx) -> Result<(EntryDataModel, int), SerializationError> {
        Self::spec_decode_classic(s, pos)
    }

    fn encode_ctx(&self, buf: &mut Vec<u8>, ctx: Ctx) -> (r: Result<(), SerializationError>) {
        self.write_classic(buf)
    }

    fn decode_ctx(buf: &mut Reader, ctx: Ctx) -> (r: Result<Self, SerializationError>) {
        Self::read_classic(buf)
    }
}

} // verus!
