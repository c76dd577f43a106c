//! DescribeLogDirsRequest (API key 35).
use vstd::prelude::*;
use crate::roundtrip::{lemma_array_roundtrip, lemma_items_read_back,
    lemma_nullable_array_roundtrip, lemma_seq_assoc, lemma_seq_empty_left, lemma_string_roundtrip};
use crate::serialization::{Ctx, KafkaCodec, Reader, SerializationError, array_bytes, decode_array,
    decode_nullable_array, encode_array, encode_nullable_array, encode_string, map_decode_err,
    map_encode_err, nullable_array_bytes, parse_array, parse_nullable_array, parse_string,
    read_view_exact, read_view_ok, string_bytes, then, write_exact, write_ok};
use crate::{ApiKey, ApiVersion};

verus! {

// -------------------------------------------------------
// DescribeLogDirsRequest
// -------------------------------------------------------
#[derive(Clone, Debug, Default, PartialEq)]
pub struct DescribeLogDirsRequest {
    /// Each topic that we want to describe log directories for, or null for all topics.
    pub topics: Option<Vec<DescribableLogDirTopic>>,
}

/// The contents of `DescribeLogDirsRequest`, with strings as characters and
/// nested values by their contents.
pub struct DescribeLogDirsRequestModel {
    pub topics: Option<Seq<<DescribableLogDirTopic as DeepView>::V>>,
}

impl DeepView for DescribeLogDirsRequest {
    type V = DescribeLogDirsRequestModel;

    open spec fn deep_view(&self) -> DescribeLogDirsRequestModel {
        DescribeLogDirsRequestModel {
            topics: self.topics.deep_view(),
        }
    }
}

impl DescribeLogDirsRequest {
    /// The classic encoding of the structure.
    pub open spec fn spec_encode_classic(m: DescribeLogDirsRequestModel) -> Result<Seq<u8>, SerializationError> {
        let r = Ok(Seq::<u8>::empty());
        let r = then(r, map_encode_err(nullable_array_bytes::<DescribableLogDirTopic>(m.topics, Ctx { version: 0, flexible: false, classic: true }), SerializationError::ValueTooLarge { message: "failed to encode Topics" }));
        r
    }

    /// The structure read by the classic decoder.
    pub open spec fn spec_decode_classic(s: Seq<u8>, pos: int) -> Result<(DescribeLogDirsRequestModel, int), SerializationError> {
        match map_decode_err(parse_nullable_array::<DescribableLogDirTopic>(s, pos, Ctx { version: 0, flexible: false, classic: true }), SerializationError::Protocol { message: "failed to decode Topics" }) {
            Err(e) => Err(e),
            Ok((topics, pos)) =>
            Ok((DescribeLogDirsRequestModel { topics }, pos))
        }
    }

    /// Values of the structure that read back from their classic encoding:
    /// nested values read back.
    pub open spec fn reads_back_classic(m: DescribeLogDirsRequestModel) -> bool {
        &&& (m.topics matches Some(items) ==> forall|i: int| 0 <= i < items.len() ==> #[trigger] <DescribableLogDirTopic as KafkaCodec>::reads_back(items[i], Ctx { version: 0, flexible: false, classic: true }))
    }

    /// A value that can be written and reads back: decoding its encoding, wherever
    /// it stands, gives the value and the position just after it.
    #[verifier::spinoff_prover]
    pub proof fn lemma_classic_read_back(pre: Seq<u8>, m: DescribeLogDirsRequestModel, post: Seq<u8>)
        requires
            Self::spec_encode_classic(m) is Ok,
            Self::reads_back_classic(m),
        ensures
            Self::spec_decode_classic(pre + Self::spec_encode_classic(m)->Ok_0 + post, pre.len() as int) == Ok::<(DescribeLogDirsRequestModel, int), SerializationError>((m, pre.len() as int + Self::spec_encode_classic(m)->Ok_0.len())),
    {
        let b0 = (nullable_array_bytes::<DescribableLogDirTopic>(m.topics, Ctx { version: 0, flexible: false, classic: true }))->Ok_0;
        let t1 = post;
        let t0 = b0 + t1;
        let e = Self::spec_encode_classic(m)->Ok_0;
        assert(e =~= Seq::<u8>::empty() + b0);
        lemma_seq_assoc(Seq::<u8>::empty(), b0, post);
        lemma_seq_empty_left((b0 + post));
        let s = pre + e + post;
        lemma_seq_assoc(pre, e, post);
        assert(s == pre + t0);
        let a0 = pre;
        assert(parse_nullable_array::<DescribableLogDirTopic>(s, a0.len() as int, Ctx { version: 0, flexible: false, classic: true }) == Ok::<(Option<Seq<<DescribableLogDirTopic as DeepView>::V>>, int), SerializationError>((m.topics, a0.len() as int + b0.len()))) by {
            assert(nullable_array_bytes::<DescribableLogDirTopic>(m.topics, Ctx { version: 0, flexible: false, classic: true }) is Ok);
            lemma_seq_assoc(a0, b0, t1);
            if let Some(items) = m.topics {
                lemma_items_read_back::<DescribableLogDirTopic>(items, Ctx { version: 0, flexible: false, classic: true });
            }
            lemma_nullable_array_roundtrip::<DescribableLogDirTopic>(a0, m.topics, t1, Ctx { version: 0, flexible: false, classic: true });
        }
    }

    /// The bytes written: the encoding of each field, in the order of the
    /// protocol's layout. Reading them back, wherever they stand, gives the value,
    /// with each field that the version leaves out at its default.
    #[verifier::spinoff_prover]
    pub proof fn lemma_classic_layout(pre: Seq<u8>, m: DescribeLogDirsRequestModel, post: Seq<u8>)
        requires
            Self::spec_encode_classic(m) is Ok,
        ensures
            Self::spec_encode_classic(m) == Ok::<Seq<u8>, SerializationError>(((nullable_array_bytes::<DescribableLogDirTopic>(m.topics, Ctx { version: 0, flexible: false, classic: true }))->Ok_0)),
            Self::reads_back_classic(m) ==> Self::spec_decode_classic(pre + (((nullable_array_bytes::<DescribableLogDirTopic>(m.topics, Ctx { version: 0, flexible: false, classic: true }))->Ok_0)) + post, pre.len() as int) == Ok::<(DescribeLogDirsRequestModel, int), SerializationError>((m, pre.len() as int + (((nullable_array_bytes::<DescribableLogDirTopic>(m.topics, Ctx { version: 0, flexible: false, classic: true }))->Ok_0)).len())),
    {
        let b0 = (nullable_array_bytes::<DescribableLogDirTopic>(m.topics, Ctx { version: 0, flexible: false, classic: true }))->Ok_0;
        let e = Self::spec_encode_classic(m)->Ok_0;
        assert(e =~= Seq::<u8>::empty() + b0);
        assert(e =~= b0);
        if Self::reads_back_classic(m) {
            Self::lemma_classic_read_back(pre, m, post);
        }
    }

    /// Writing succeeds exactly when every field that the version carries can be
    /// encoded and every field that it leaves out, where leaving it out is an
    /// error, holds its default.
    #[verifier::spinoff_prover]
    pub proof fn lemma_classic_write_succeeds(m: DescribeLogDirsRequestModel)
        ensures
            Self::spec_encode_classic(m) is Ok <==> (map_encode_err(nullable_array_bytes::<DescribableLogDirTopic>(m.topics, Ctx { version: 0, flexible: false, classic: true }), SerializationError::ValueTooLarge { message: "failed to encode Topics" }) is Ok),
    {
    }

    /// Writes the structure in the classic layout.
    /// On failure the buffer is left as it was.
    pub fn encode(&self, buf: &mut Vec<u8>) -> (r: Result<(), SerializationError>)
        ensures
            write_exact(r, old(buf)@, final(buf)@, Self::spec_encode_classic(self.deep_view())),
    {
        let start = buf.len();
        let r = self.write_classic(buf);
        if r.is_err() {
            buf.truncate(start);
        }
        r
    }

    fn write_classic(&self, buf: &mut Vec<u8>) -> (r: Result<(), SerializationError>)
        ensures
            write_ok(r, old(buf)@, final(buf)@, Self::spec_encode_classic(self.deep_view())),
    {
        let ghost mut w: Seq<u8> = Seq::empty();
        match encode_nullable_array(&self.topics, buf, Ctx { version: 0, flexible: false, classic: true }) {
            Ok(()) => {},
            Err(_) => {
                return Err(SerializationError::ValueTooLarge { message: "failed to encode Topics" });
            },
        }
        proof {
            w = w + (map_encode_err(nullable_array_bytes::<DescribableLogDirTopic>(self.topics.deep_view(), Ctx { version: 0, flexible: false, classic: true }), SerializationError::ValueTooLarge { message: "failed to encode Topics" }))->Ok_0;
        }
        assert(buf@ =~= old(buf)@ + w);
        Ok(())
    }

    /// Reads the structure in the classic layout.
    /// On failure the reader is put back where it started.
    pub fn decode(buf: &mut Reader) -> (r: Result<Self, SerializationError>)
        ensures
            final(buf).bytes() == old(buf).bytes(),
            read_view_exact(r, Self::spec_decode_classic(old(buf).bytes(), old(buf).pos()), old(buf).pos(), final(buf).pos()),
    {
        let start = buf.position();
        let r = Self::read_classic(buf);
        if r.is_err() {
            buf.set_position(start);
        }
        r
    }

    fn read_classic(buf: &mut Reader) -> (r: Result<Self, SerializationError>)
        ensures
            final(buf).bytes() == old(buf).bytes(),
            read_view_ok(r, Self::spec_decode_classic(old(buf).bytes(), old(buf).pos()), final(buf).pos()),
    {
        let topics = match decode_nullable_array::<DescribableLogDirTopic>(buf, Ctx { version: 0, flexible: false, classic: true }) { Ok(v) => v, Err(_) => { return Err(SerializationError::Protocol { message: "failed to decode Topics" }); } };
        Ok(DescribeLogDirsRequest { topics })
    }
}

impl KafkaCodec for DescribeLogDirsRequest {
    open spec fn spec_encode(m: DescribeLogDirsRequestModel, ctx: Ctx) -> Result<Seq<u8>, SerializationError> {
        Self::spec_encode_classic(m)
    }

    open spec fn reads_back(v: DescribeLogDirsRequestModel, ctx: Ctx) -> bool {
        Self::reads_back_classic(v)
    }

    proof fn lemma_read_back(pre: Seq<u8>, v: DescribeLogDirsRequestModel, post: Seq<u8>, ctx: Ctx) {
        Self::lemma_classic_read_back(pre, v, post);
        assert(Self::spec_decode(pre + Self::spec_encode(v, ctx)->Ok_0 + post, pre.len() as int, ctx)
            == Self::spec_decode_classic(pre + Self::spec_encode_classic(v)->Ok_0 + post, pre.len() as int));
    }

    open spec fn spec_decode(s: Seq<u8>, pos: int, ctx: Ctx) -> Result<(DescribeLogDirsRequestModel, int), SerializationError> {
        Self::spec_decode_classic(s, pos)
    }

    fn encode_ctx(&self, buf: &mut Vec<u8>, ctx: Ctx) -> (r: Result<(), SerializationError>) {
        self.write_classic(buf)
    }

    fn decode_ctx(buf: &mut Reader, ctx: Ctx) -> (r: Result<Self, SerializationError>) {
        Self::read_classic(buf)
    }
}

impl DescribeLogDirsRequest {
    /// The API key of this message.
    pub fn get_api_key() -> (r: ApiKey)
        ensures
            r.0 == 35,
    {
        ApiKey::new(35)
    }

    /// The oldest version of this message.
    pub fn get_min_supported_version() -> (r: ApiVersion)
        ensures
            r.0 == 0,
    {
        ApiVersion::new(0)
    }

    /// The newest version of this message.
    pub fn get_max_supported_version() -> (r: ApiVersion)
        ensures
            r.0 == 1,
    {
        ApiVersion::new(1)
    }

    /// The encoding of a whole message body at `version`.
    pub open spec fn spec_serialize(m: DescribeLogDirsRequestModel, version: i16) -> Result<Seq<u8>, SerializationError> {
        let is_flexible = false;
        let ctx = Ctx { version, flexible: is_flexible, classic: false };
        let r = Ok(Seq::<u8>::empty());
        let r = then(r, map_encode_err(nullable_array_bytes::<DescribableLogDirTopic>(m.topics, Ctx { version: ctx.version, flexible: false, classic: true }), SerializationError::Encode("failed to encode Topics")));
        r
    }

    /// The message body read at `version`.
    pub open spec fn spec_deserialize(s: Seq<u8>, pos: int, version: i16) -> Result<(DescribeLogDirsRequestModel, int), SerializationError> {
        let is_flexible = false;
        let ctx = Ctx { version, flexible: is_flexible, classic: false };
        match map_decode_err(parse_nullable_array::<DescribableLogDirTopic>(s, pos, Ctx { version: ctx.version, flexible: false, classic: true }), SerializationError::Decode("failed to decode Topics")) {
            Err(e) => Err(e),
            Ok((topics, pos)) =>
            Ok((DescribeLogDirsRequestModel { topics }, pos))
        }
    }

    /// Message bodies that read back when written at `version`: every field that
    /// the version leaves out holds its default, and nested values read back.
    pub open spec fn reads_back_message(m: DescribeLogDirsRequestModel, version: i16) -> bool {
        let is_flexible = false;
        let ctx = Ctx { version, flexible: is_flexible, classic: false };
        &&& (m.topics matches Some(items) ==> forall|i: int| 0 <= i < items.len() ==> #[trigger] <DescribableLogDirTopic as KafkaCodec>::reads_back(items[i], Ctx { version: ctx.version, flexible: false, classic: true }))
    }

    /// A message body that can be written at `version` and reads back: reading a
    /// body at `version` from its bytes, wherever they stand, gives the same message.
    #[verifier::spinoff_prover]
    pub proof fn lemma_message_read_back(pre: Seq<u8>, m: DescribeLogDirsRequestModel, post: Seq<u8>, version: i16)
        requires
            Self::spec_serialize(m, version) is Ok,
            Self::reads_back_message(m, version),
        ensures
            Self::spec_deserialize(pre + Self::spec_serialize(m, version)->Ok_0 + post, pre.len() as int, version) == Ok::<(DescribeLogDirsRequestModel, int), SerializationError>((m, pre.len() as int + Self::spec_serialize(m, version)->Ok_0.len())),
    {
        let is_flexible = false;
        let ctx = Ctx { version, flexible: is_flexible, classic: false };
        let b0 = (nullable_array_bytes::<DescribableLogDirTopic>(m.topics, Ctx { version: ctx.version, flexible: false, classic: true }))->Ok_0;
        let t1 = post;
        let t0 = b0 + t1;
        let e = Self::spec_serialize(m, version)->Ok_0;
        assert(e =~= Seq::<u8>::empty() + b0);
        lemma_seq_assoc(Seq::<u8>::empty(), b0, post);
        lemma_seq_empty_left((b0 + post));
        let s = pre + e + post;
        lemma_seq_assoc(pre, e, post);
        assert(s == pre + t0);
        let a0 = pre;
        assert(parse_nullable_array::<DescribableLogDirTopic>(s, a0.len() as int, Ctx { version: ctx.version, flexible: false, classic: true }) == Ok::<(Option<Seq<<DescribableLogDirTopic as DeepView>::V>>, int), SerializationError>((m.topics, a0.len() as int + b0.len()))) by {
            assert(nullable_array_bytes::<DescribableLogDirTopic>(m.topics, Ctx { version: ctx.version, flexible: false, classic: true }) is Ok);
            lemma_seq_assoc(a0, b0, t1);
            if let Some(items) = m.topics {
                lemma_items_read_back::<DescribableLogDirTopic>(items, Ctx { version: ctx.version, flexible: false, classic: true });
            }
            lemma_nullable_array_roundtrip::<DescribableLogDirTopic>(a0, m.topics, t1, Ctx { version: ctx.version, flexible: false, classic: true });
        }
    }

    /// The bytes written: the encoding of each field, in the order of the
    /// protocol's layout. Reading them back, wherever they stand, gives the value,
    /// with each field that the version leaves out at its default.
    #[verifier::spinoff_prover]
    pub proof fn lemma_message_layout(pre: Seq<u8>, m: DescribeLogDirsRequestModel, post: Seq<u8>, version: i16)
        requires
            Self::spec_serialize(m, version) is Ok,
        ensures
            Self::spec_serialize(m, version) == Ok::<Seq<u8>, SerializationError>(((nullable_array_bytes::<DescribableLogDirTopic>(m.topics, Ctx { version: version, flexible: false, classic: true }))->Ok_0)),
            Self::reads_back_message(m, version) ==> Self::spec_deserialize(pre + (((nullable_array_bytes::<DescribableLogDirTopic>(m.topics, Ctx { version: version, flexible: false, classic: true }))->Ok_0)) + post, pre.len() as int, version) == Ok::<(DescribeLogDirsRequestModel, int), SerializationError>((m, pre.len() as int + (((nullable_array_bytes::<DescribableLogDirTopic>(m.topics, Ctx { version: version, flexible: false, classic: true }))->Ok_0)).len())),
    {
        let is_flexible = false;
        let ctx = Ctx { version, flexible: is_flexible, classic: false };
        let b0 = (nullable_array_bytes::<DescribableLogDirTopic>(m.topics, Ctx { version: ctx.version, flexible: false, classic: true }))->Ok_0;
        let e = Self::spec_serialize(m, version)->Ok_0;
        assert(e =~= Seq::<u8>::empty() + b0);
        assert(e =~= b0);
        if Self::reads_back_message(m, version) {
            Self::lemma_message_read_back(pre, m, post, version);
        }
    }

    /// Writing succeeds exactly when every field that the version carries can be
    /// encoded and every field that it leaves out, where leaving it out is an
    /// error, holds its default.
    #[verifier::spinoff_prover]
    pub proof fn lemma_message_write_succeeds(m: DescribeLogDirsRequestModel, version: i16)
        ensures
            Self::spec_serialize(m, version) is Ok <==> (map_encode_err(nullable_array_bytes::<DescribableLogDirTopic>(m.topics, Ctx { version: version, flexible: false, classic: true }), SerializationError::Encode("failed to encode Topics")) is Ok),
    {
        let is_flexible = false;
        let ctx = Ctx { version, flexible: is_flexible, classic: false };
    }

    /// Writes the message body for `version`, which must be a supported version.
    /// On failure the buffer is left as it was.
    pub fn serialize(&self, version: ApiVersion, buf: &mut Vec<u8>) -> (r: Result<(), SerializationError>)
        requires
            0 <= version.0 <= 1,
        ensures
            write_exact(r, old(buf)@, final(buf)@, Self::spec_serialize(self.deep_view(), version.0)),
    {
        let start = buf.len();
        let r = self.write_body(version, buf);
        if r.is_err() {
            buf.truncate(start);
        }
        r
    }

    fn write_body(&self, version: ApiVersion, buf: &mut Vec<u8>) -> (r: Result<(), SerializationError>)
        requires
            0 <= version.0 <= 1,
        ensures
            write_ok(r, old(buf)@, final(buf)@, Self::spec_serialize(self.deep_view(), version.0)),
    {
        let is_flexible = false;
        let ctx = Ctx::new(version, is_flexible);
        let ghost mut w: Seq<u8> = Seq::empty();
        match encode_nullable_array(&self.topics, buf, Ctx { version: ctx.version, flexible: false, classic: true }) {
            Ok(()) => {},
            Err(_) => {
                return Err(SerializationError::Encode("failed to encode Topics"));
            },
        }
        proof {
            w = w + (map_encode_err(nullable_array_bytes::<DescribableLogDirTopic>(self.topics.deep_view(), Ctx { version: ctx.version, flexible: false, classic: true }), SerializationError::Encode("failed to encode Topics")))->Ok_0;
        }
        assert(buf@ =~= old(buf)@ + w);
        Ok(())
    }

    /// Reads a message body written for `version`.
    /// On failure the reader is put back where it started.
    pub fn deserialize(version: ApiVersion, buf: &mut Reader) -> (r: Result<Self, SerializationError>)
        ensures
            final(buf).bytes() == old(buf).bytes(),
            read_view_exact(r, Self::spec_deserialize(old(buf).bytes(), old(buf).pos(), version.0), old(buf).pos(), final(buf).pos()),
    {
        let start = buf.position();
        let r = Self::read_body(version, buf);
        if r.is_err() {
            buf.set_position(start);
        }
        r
    }

    fn read_body(version: ApiVersion, buf: &mut Reader) -> (r: Result<Self, SerializationError>)
        ensures
            final(buf).bytes() == old(buf).bytes(),
            read_view_ok(r, Self::spec_deserialize(old(buf).bytes(), old(buf).pos(), version.0), final(buf).pos()),
    {
        let is_flexible = false;
        let ctx = Ctx::new(version, is_flexible);
        let topics = match decode_nullable_array::<DescribableLogDirTopic>(buf, Ctx { version: ctx.version, flexible: false, classic: true }) { Ok(v) => v, Err(_) => { return Err(SerializationError::Decode("failed to decode Topics")); } };
        Ok(DescribeLogDirsRequest { topics })
    }
}

// -------------------------------------------------------
// DescribableLogDirTopic
// -------------------------------------------------------
#[derive(Clone, Debug, Default, PartialEq)]
pub struct DescribableLogDirTopic {
    /// The topic name
    pub topic: String,
    /// The partition indxes.
    pub partition_index: Vec<i32>,
}

/// The contents of `DescribableLogDirTopic`, with strings as characters and
/// nested values by their contents.
pub struct DescribableLogDirTopicModel {
    pub topic: Seq<char>,
    pub partition_index: Seq<<i32 as DeepView>::V>,
}

impl DeepView for DescribableLogDirTopic {
    type V = DescribableLogDirTopicModel;

    open spec fn deep_view(&self) -> DescribableLogDirTopicModel {
        DescribableLogDirTopicModel {
            topic: self.topic.deep_view(),
            partition_index: self.partition_index.deep_view(),
        }
    }
}

impl DescribableLogDirTopic {
    /// The classic encoding of the structure.
    pub open spec fn spec_encode_classic(m: DescribableLogDirTopicModel) -> Result<Seq<u8>, SerializationError> {
        let r = Ok(Seq::<u8>::empty());
        let r = then(r, map_encode_err(string_bytes(m.topic, false), SerializationError::ValueTooLarge { message: "failed to encode Topic" }));
        let r = then(r, map_encode_err(array_bytes::<i32>(m.partition_index, Ctx { version: 0, flexible: false, classic: true }), SerializationError::ValueTooLarge { message: "failed to encode PartitionIndex" }));
        r
    }

    /// The structure read by the classic decoder.
    pub open spec fn spec_decode_classic(s: Seq<u8>, pos: int) -> Result<(DescribableLogDirTopicModel, int), SerializationError> {
        match map_decode_err(parse_string(s, pos, false), SerializationError::Protocol { message: "failed to decode Topic" }) {
            Err(e) => Err(e),
            Ok((topic, pos)) =>
            match map_decode_err(parse_array::<i32>(s, pos, Ctx { version: 0, flexible: false, classic: true }), SerializationError::Protocol { message: "failed to decode PartitionIndex" }) {
                Err(e) => Err(e),
                Ok((partition_index, pos)) =>
                Ok((DescribableLogDirTopicModel { topic, partition_index }, pos))
            }
        }
    }

    /// Values of the structure that read back from their classic encoding:
    /// nested values read back.
    pub open spec fn reads_back_classic(m: DescribableLogDirTopicModel) -> bool {
        &&& forall|i: int| 0 <= i < m.partition_index.len() ==> #[trigger] <i32 as KafkaCodec>::reads_back(m.partition_index[i], Ctx { version: 0, flexible: false, classic: true })
    }

    /// A value that can be written and reads back: decoding its encoding, wherever
    /// it stands, gives the value and the position just after it.
    #[verifier::spinoff_prover]
    pub proof fn lemma_classic_read_back(pre: Seq<u8>, m: DescribableLogDirTopicModel, post: Seq<u8>)
        requires
            Self::spec_encode_classic(m) is Ok,
            Self::reads_back_classic(m),
        ensures
            Self::spec_decode_classic(pre + Self::spec_encode_classic(m)->Ok_0 + post, pre.len() as int) == Ok::<(DescribableLogDirTopicModel, int), SerializationError>((m, pre.len() as int + Self::spec_encode_classic(m)->Ok_0.len())),
    {
        let b0 = (string_bytes(m.topic, false))->Ok_0;
        let b1 = (array_bytes::<i32>(m.partition_index, Ctx { version: 0, flexible: false, classic: true }))->Ok_0;
        let t2 = post;
        let t1 = b1 + t2;
        let t0 = b0 + t1;
        let e = Self::spec_encode_classic(m)->Ok_0;
        assert(e =~= Seq::<u8>::empty() + b0 + b1);
        lemma_seq_assoc((Seq::<u8>::empty() + b0), b1, post);
        lemma_seq_assoc(Seq::<u8>::empty(), b0, (b1 + post));
        lemma_seq_empty_left((b0 + (b1 + post)));
        let s = pre + e + post;
        lemma_seq_assoc(pre, e, post);
        assert(s == pre + t0);
        let a0 = pre;
        assert(parse_string(s, a0.len() as int, false) == Ok::<(Seq<char>, int), SerializationError>((m.topic, a0.len() as int + b0.len()))) by {
            assert(string_bytes(m.topic, false) is Ok);
            lemma_seq_assoc(a0, b0, t1);
            lemma_string_roundtrip(a0, m.topic, t1, false);
        }
        lemma_seq_assoc(a0, b0, t1);
        let a1 = a0 + b0;
        assert(parse_array::<i32>(s, a1.len() as int, Ctx { version: 0, flexible: false, classic: true }) == Ok::<(Seq<<i32 as DeepView>::V>, int), SerializationError>((m.partition_index, a1.len() as int + b1.len()))) by {
            assert(array_bytes::<i32>(m.partition_index, Ctx { version: 0, flexible: false, classic: true }) is Ok);
            lemma_seq_assoc(a1, b1, t2);
            lemma_items_read_back::<i32>(m.partition_index, Ctx { version: 0, flexible: false, classic: true });
            lemma_array_roundtrip::<i32>(a1, m.partition_index, t2, Ctx { version: 0, flexible: false, classic: true });
        }
    }

    /// The bytes written: the encoding of each field, in the order of the
    /// protocol's layout. Reading them back, wherever they stand, gives the value,
    /// with each field that the version leaves out at its default.
    #[verifier::spinoff_prover]
    pub proof fn lemma_classic_layout(pre: Seq<u8>, m: DescribableLogDirTopicModel, post: Seq<u8>)
        requires
            Self::spec_encode_classic(m) is Ok,
        ensures
            Self::spec_encode_classic(m) == Ok::<Seq<u8>, SerializationError>(((string_bytes(m.topic, false))->Ok_0) + ((array_bytes::<i32>(m.partition_index, Ctx { version: 0, flexible: false, classic: true }))->Ok_0)),
            Self::reads_back_classic(m) ==> Self::spec_decode_classic(pre + (((string_bytes(m.topic, false))->Ok_0) + ((array_bytes::<i32>(m.partition_index, Ctx { version: 0, flexible: false, classic: true }))->Ok_0)) + post, pre.len() as int) == Ok::<(DescribableLogDirTopicModel, int), SerializationError>((m, pre.len() as int + (((string_bytes(m.topic, false))->Ok_0) + ((array_bytes::<i32>(m.partition_index, Ctx { version: 0, flexible: false, classic: true }))->Ok_0)).len())),
    {
        let b0 = (string_bytes(m.topic, false))->Ok_0;
        let b1 = (array_bytes::<i32>(m.partition_index, Ctx { version: 0, flexible: false, classic: true }))->Ok_0;
        let e = Self::spec_encode_classic(m)->Ok_0;
        assert(e =~= Seq::<u8>::empty() + b0 + b1);
        assert(e =~= b0 + b1);
        if Self::reads_back_classic(m) {
            Self::lemma_classic_read_back(pre, m, post);
        }
    }

    /// Writing succeeds exactly when every field that the version carries can be
    /// encoded and every field that it leaves out, where leaving it out is an
    /// error, holds its default.
    #[verifier::spinoff_prover]
    pub proof fn lemma_classic_write_succeeds(m: DescribableLogDirTopicModel)
        ensures
            Self::spec_encode_classic(m) is Ok <==> (map_encode_err(string_bytes(m.topic, false), SerializationError::ValueTooLarge { message: "failed to encode Topic" }) is Ok) && (map_encode_err(array_bytes::<i32>(m.partition_index, Ctx { version: 0, flexible: false, classic: true }), SerializationError::ValueTooLarge { message: "failed to encode PartitionIndex" }) is Ok),
    {
    }

    /// Writes the structure in the classic layout.
    /// On failure the buffer is left as it was.
    pub fn encode(&self, buf: &mut Vec<u8>) -> (r: Result<(), SerializationError>)
        ensures
            write_exact(r, old(buf)@, final(buf)@, Self::spec_encode_classic(self.deep_view())),
    {
        let start = buf.len();
        let r = self.write_classic(buf);
        if r.is_err() {
            buf.truncate(start);
        }
        r
    }

    fn write_classic(&self, buf: &mut Vec<u8>) -> (r: Result<(), SerializationError>)
        ensures
            write_ok(r, old(buf)@, final(buf)@, Self::spec_encode_classic(self.deep_view())),
    {
        let ghost mut w: Seq<u8> = Seq::empty();
        match encode_string(&self.topic, buf, false) {
            Ok(()) => {},
            Err(_) => {
                return Err(SerializationError::ValueTooLarge { message: "failed to encode Topic" });
            },
        }
        proof {
            w = w + (map_encode_err(string_bytes(self.topic.deep_view(), false), SerializationError::ValueTooLarge { message: "failed to encode Topic" }))->Ok_0;
        }
        assert(buf@ =~= old(buf)@ + w);
        match encode_array(&self.partition_index, buf, Ctx { version: 0, flexible: false, classic: true }) {
            Ok(()) => {},
            Err(_) => {
                return Err(SerializationError::ValueTooLarge { message: "failed to encode PartitionIndex" });
            },
        }
        proof {
            w = w + (map_encode_err(array_bytes::<i32>(self.partition_index.deep_view(), Ctx { version: 0, flexible: false, classic: true }), SerializationError::ValueTooLarge { message: "failed to encode PartitionIndex" }))->Ok_0;
        }
        assert(buf@ =~= old(buf)@ + w);
        Ok(())
    }

    /// Reads the structure in the classic layout.
    /// On failure the reader is put back where it started.
    pub fn decode(buf: &mut Reader) -> (r: Result<Self, SerializationError>)
        ensures
            final(buf).bytes() == old(buf).bytes(),
            read_view_exact(r, Self::spec_decode_classic(old(buf).bytes(), old(buf).pos()), old(buf).pos(), final(buf).pos()),
    {
        let start = buf.position();
        let r = Self::read_classic(buf);
        if r.is_err() {
            buf.set_position(start);
        }
        r
    }

    fn read_classic(buf: &mut Reader) -> (r: Result<Self, SerializationError>)
        ensures
            final(buf).bytes() == old(buf).bytes(),
            read_view_ok(r, Self::spec_decode_classic(old(buf).bytes(), old(buf).pos()), final(buf).pos()),
    {
        let topic = match buf.get_string(false) { Ok(v) => v, Err(_) => { return Err(SerializationError::Protocol { message: "failed to decode Topic" }); } };
        let partition_index = match decode_array::<i32>(buf, Ctx { version: 0, flexible: false, classic: true }) { Ok(v) => v, Err(_) => { return Err(SerializationError::Protocol { message: "failed to decode PartitionIndex" }); } };
        Ok(DescribableLogDirTopic { topic, partition_index })
    }
}

impl KafkaCodec for DescribableLogDirTopic {
    open spec fn spec_encode(m: DescribableLogDirTopicModel, ctx: Ctx) -> Result<Seq<u8>, SerializationError> {
        Self::spec_encode_classic(m)
    }

    open spec fn reads_back(v: DescribableLogDirTopicModel, ctx: Ctx) -> bool {
        Self::reads_back_classic(v)
    }

    proof fn lemma_read_back(pre: Seq<u8>, v: DescribableLogDirTopicModel, post: Seq<u8>, ctx: Ctx) {
        Self::lemma_classic_read_back(pre, v, post);
        assert(Self::spec_decode(pre + Self::spec_encode(v, ctx)->Ok_0 + post, pre.len() as int, ctx)
            == Self::spec_decode_classic(pre + Self::spec_encode_classic(v)->Ok_0 + post, pre.len() as int));
    }

    open spec fn spec_decode(s: Seq<u8>, pos: int, ctx: Ctx) -> Result<(DescribableLogDirTopicModel, int), SerializationError> {
        Self::spec_decode_classic(s, pos)
    }

    fn encode_ctx(&self, buf: &mut Vec<u8>, ctx: Ctx) -> (r: Result<(), SerializationError>) {
        self.write_classic(buf)
    }

    fn decode_ctx(buf: &mut Reader, ctx: Ctx) -> (r: Result<Self, SerializationError>) {
        Self::read_classic(buf)
    }
}

} // verus!
