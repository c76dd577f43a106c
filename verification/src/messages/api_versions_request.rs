//! ApiVersionsRequest (API key 18).
use vstd::prelude::*;
use crate::roundtrip::{lemma_seq_assoc, lemma_seq_empty_left, lemma_string_roundtrip};
use crate::serialization::{Ctx, KafkaCodec, Reader, SerializationError, encode_string,
    map_decode_err, map_encode_err, parse_string, read_view_exact, read_view_ok, string_bytes,
    then, write_exact, write_ok};
use crate::{ApiKey, ApiVersion};

verus! {

// -------------------------------------------------------
// ApiVersionsRequest
// -------------------------------------------------------
#[derive(Clone, Debug, Default, PartialEq)]
pub struct ApiVersionsRequest {
    /// The name of the client.
    /// Available in version 3+.
    pub client_software_name: String,
    /// The version of the client.
    /// Available in version 3+.
    pub client_software_version: String,
}

/// The contents of `ApiVersionsRequest`, with strings as characters and
/// nested values by their contents.
pub struct ApiVersionsRequestModel {
    pub client_software_name: Seq<char>,
    pub client_software_version: Seq<char>,
}

impl DeepView for ApiVersionsRequest {
    type V = ApiVersionsRequestModel;

    open spec fn deep_view(&self) -> ApiVersionsRequestModel {
        ApiVersionsRequestModel {
            client_software_name: self.client_software_name.deep_view(),
            client_software_version: self.client_software_version.deep_view(),
        }
    }
}

impl ApiVersionsRequest {
    /// The classic encoding of the structure.
    pub open spec fn spec_encode_classic(m: ApiVersionsRequestModel) -> Result<Seq<u8>, SerializationError> {
        let r = Ok(Seq::<u8>::empty());
        let r = then(r, map_encode_err(string_bytes(m.client_software_name, false), SerializationError::ValueTooLarge { message: "failed to encode ClientSoftwareName" }));
        let r = then(r, map_encode_err(string_bytes(m.client_software_version, false), SerializationError::ValueTooLarge { message: "failed to encode ClientSoftwareVersion" }));
        r
    }

    /// The structure read by the classic decoder.
    pub open spec fn spec_decode_classic(s: Seq<u8>, pos: int) -> Result<(ApiVersionsRequestModel, int), SerializationError> {
        match map_decode_err(parse_string(s, pos, false), SerializationError::Protocol { message: "failed to decode ClientSoftwareName" }) {
            Err(e) => Err(e),
            Ok((client_software_name, pos)) =>
            match map_decode_err(parse_string(s, pos, false), SerializationError::Protocol { message: "failed to decode ClientSoftwareVersion" }) {
                Err(e) => Err(e),
                Ok((client_software_version, pos)) =>
                Ok((ApiVersionsRequestModel { client_software_name, client_software_version }, pos))
            }
        }
    }

    /// Values of the structure that read back from their classic encoding:
    /// nested values read back.
    pub open spec fn reads_back_classic(m: ApiVersionsRequestModel) -> bool {
        true
    }

    /// A value that can be written and reads back: decoding its encoding, wherever
    /// it stands, gives the value and the position just after it.
    #[verifier::spinoff_prover]
    pub proof fn lemma_classic_read_back(pre: Seq<u8>, m: ApiVersionsRequestModel, post: Seq<u8>)
        requires
            Self::spec_encode_classic(m) is Ok,
            Self::reads_back_classic(m),
        ensures
            Self::spec_decode_classic(pre + Self::spec_encode_classic(m)->Ok_0 + post, pre.len() as int) == Ok::<(ApiVersionsRequestModel, int), SerializationError>((m, pre.len() as int + Self::spec_encode_classic(m)->Ok_0.len())),
    {
        let b0 = (string_bytes(m.client_software_name, false))->Ok_0;
        let b1 = (string_bytes(m.client_software_version, false))->Ok_0;
        let t2 = post;
        let t1 = b1 + t2;
        let t0 = b0 + t1;
        let e = Self::spec_encode_classic(m)->Ok_0;
        assert(e =~= Seq::<u8>::empty() + b0 + b1);
        lemma_seq_assoc((Seq::<u8>::empty() + b0), b1, post);
        lemma_seq_assoc(Seq::<u8>::empty(), b0, (b1 + post));
        lemma_seq_empty_left((b0 + (b1 + post)));
        let s = pre + e + post;
        lemma_seq_assoc(pre, e, post);
        assert(s == pre + t0);
        let a0 = pre;
        assert(parse_string(s, a0.len() as int, false) == Ok::<(Seq<char>, int), SerializationError>((m.client_software_name, a0.len() as int + b0.len()))) by {
            assert(string_bytes(m.client_software_name, false) is Ok);
            lemma_seq_assoc(a0, b0, t1);
            lemma_string_roundtrip(a0, m.client_software_name, t1, false);
        }
        lemma_seq_assoc(a0, b0, t1);
        let a1 = a0 + b0;
        assert(parse_string(s, a1.len() as int, false) == Ok::<(Seq<char>, int), SerializationError>((m.client_software_version, a1.len() as int + b1.len()))) by {
            assert(string_bytes(m.client_software_version, false) is Ok);
            lemma_seq_assoc(a1, b1, t2);
            lemma_string_roundtrip(a1, m.client_software_version, t2, false);
        }
    }

    /// The bytes written: the encoding of each field, in the order of the
    /// protocol's layout. Reading them back, wherever they stand, gives the value,
    /// with each field that the version leaves out at its default.
    #[verifier::spinoff_prover]
    pub proof fn lemma_classic_layout(pre: Seq<u8>, m: ApiVersionsRequestModel, post: Seq<u8>)
        requires
            Self::spec_encode_classic(m) is Ok,
        ensures
            Self::spec_encode_classic(m) == Ok::<Seq<u8>, SerializationError>(((string_bytes(m.client_software_name, false))->Ok_0) + ((string_bytes(m.client_software_version, false))->Ok_0)),
            Self::reads_back_classic(m) ==> Self::spec_decode_classic(pre + (((string_bytes(m.client_software_name, false))->Ok_0) + ((string_bytes(m.client_software_version, false))->Ok_0)) + post, pre.len() as int) == Ok::<(ApiVersionsRequestModel, int), SerializationError>((m, pre.len() as int + (((string_bytes(m.client_software_name, false))->Ok_0) + ((string_bytes(m.client_software_version, false))->Ok_0)).len())),
    {
        let b0 = (string_bytes(m.client_software_name, false))->Ok_0;
        let b1 = (string_bytes(m.client_software_version, false))->Ok_0;
        let e = Self::spec_encode_classic(m)->Ok_0;
        assert(e =~= Seq::<u8>::empty() + b0 + b1);
        assert(e =~= b0 + b1);
        if Self::reads_back_classic(m) {
            Self::lemma_classic_read_back(pre, m, post);
        }
    }

    /// Writing succeeds exactly when every field that the version carries can be
    /// encoded and every field that it leaves out, where leaving it out is an
    /// error, holds its default.
    #[verifier::spinoff_prover]
    pub proof fn lemma_classic_write_succeeds(m: ApiVersionsRequestModel)
        ensures
            Self::spec_encode_classic(m) is Ok <==> (map_encode_err(string_bytes(m.client_software_name, false), SerializationError::ValueTooLarge { message: "failed to encode ClientSoftwareName" }) is Ok) && (map_encode_err(string_bytes(m.client_software_version, false), SerializationError::ValueTooLarge { message: "failed to encode ClientSoftwareVersion" }) is Ok),
    {
    }

    /// Writes the structure in the classic layout.
    /// On failure the buffer is left as it was.
    pub fn encode(&self, buf: &mut Vec<u8>) -> (r: Result<(), SerializationError>)
        ensures
            write_exact(r, old(buf)@, final(buf)@, Self::spec_encode_classic(self.deep_view())),
    {
        let start = buf.len();
        let r = self.write_classic(buf);
        if r.is_err() {
            buf.truncate(start);
        }
        r
    }

    fn write_classic(&self, buf: &mut Vec<u8>) -> (r: Result<(), SerializationError>)
        ensures
            write_ok(r, old(buf)@, final(buf)@, Self::spec_encode_classic(self.deep_view())),
    {
        let ghost mut w: Seq<u8> = Seq::empty();
        match encode_string(&self.client_software_name, buf, false) {
            Ok(()) => {},
            Err(_) => {
                return Err(SerializationError::ValueTooLarge { message: "failed to encode ClientSoftwareName" });
            },
        }
        proof {
            w = w + (map_encode_err(string_bytes(self.client_software_name.deep_view(), false), SerializationError::ValueTooLarge { message: "failed to encode ClientSoftwareName" }))->Ok_0;
        }
        assert(buf@ =~= old(buf)@ + w);
        match encode_string(&self.client_software_version, buf, false) {
            Ok(()) => {},
            Err(_) => {
                return Err(SerializationError::ValueTooLarge { message: "failed to encode ClientSoftwareVersion" });
            },
        }
        proof {
            w = w + (map_encode_err(string_bytes(self.client_software_version.deep_view(), false), SerializationError::ValueTooLarge { message: "failed to encode ClientSoftwareVersion" }))->Ok_0;
        }
        assert(buf@ =~= old(buf)@ + w);
        Ok(())
    }

    /// Reads the structure in the classic layout.
    /// On failure the reader is put back where it started.
    pub fn decode(buf: &mut Reader) -> (r: Result<Self, SerializationError>)
        ensures
            final(buf).bytes() == old(buf).bytes(),
            read_view_exact(r, Self::spec_decode_classic(old(buf).bytes(), old(buf).pos()), old(buf).pos(), final(buf).pos()),
    {
        let start = buf.position();
        let r = Self::read_classic(buf);
        if r.is_err() {
            buf.set_position(start);
        }
        r
    }

    fn read_classic(buf: &mut Reader) -> (r: Result<Self, SerializationError>)
        ensures
            final(buf).bytes() == old(buf).bytes(),
            read_view_ok(r, Self::spec_decode_classic(old(buf).bytes(), old(buf).pos()), final(buf).pos()),
    {
        let client_software_name = match buf.get_string(false) { Ok(v) => v, Err(_) => { return Err(SerializationError::Protocol { message: "failed to decode ClientSoftwareName" }); } };
        let client_software_version = match buf.get_string(false) { Ok(v) => v, Err(_) => { return Err(SerializationError::Protocol { message: "failed to decode ClientSoftwareVersion" }); } };
        Ok(ApiVersionsRequest { client_software_name, client_software_version })
    }
}

impl KafkaCodec for ApiVersionsRequest {
    open spec fn spec_encode(m: ApiVersionsRequestModel, ctx: Ctx) -> Result<Seq<u8>, SerializationError> {
        Self::spec_encode_classic(m)
    }

    open spec fn reads_back(v: ApiVersionsRequestModel, ctx: Ctx) -> bool {
        Self::reads_back_classic(v)
    }

    proof fn lemma_read_back(pre: Seq<u8>, v: ApiVersionsRequestModel, post: Seq<u8>, ctx: Ctx) {
        Self::lemma_classic_read_back(pre, v, post);
        assert(Self::spec_decode(pre + Self::spec_encode(v, ctx)->Ok_0 + post, pre.len() as int, ctx)
            == Self::spec_decode_classic(pre + Self::spec_encode_classic(v)->Ok_0 + post, pre.len() as int));
    }

    open spec fn spec_decode(s: Seq<u8>, pos: int, ctx: Ctx) -> Result<(ApiVersionsRequestModel, int), SerializationError> {
        Self::spec_decode_classic(s, pos)
    }

    fn encode_ctx(&self, buf: &mut Vec<u8>, ctx: Ctx) -> (r: Result<(), SerializationError>) {
        self.write_classic(buf)
    }

    fn decode_ctx(buf: &mut Reader, ctx: Ctx) -> (r: Result<Self, SerializationError>) {
        Self::read_classic(buf)
    }
}

impl ApiVersionsRequest {
    /// The API key of this message.
    pub fn get_api_key() -> (r: ApiKey)
        ensures
            r.0 == 18,
    {
        ApiKey::new(18)
    }

    /// The oldest version of this message.
    pub fn get_min_supported_version() -> (r: ApiVersion)
        ensures
            r.0 == 0,
    {
        ApiVersion::new(0)
    }

    /// The newest version of this message.
    pub fn get_max_supported_version() -> (r: ApiVersion)
        ensures
            r.0 == 3,
    {
        ApiVersion::new(3)
    }

    /// The encoding of a whole message body at `version`.
    pub open spec fn spec_serialize(m: ApiVersionsRequestModel, version: i16) -> Result<Seq<u8>, SerializationError> {
        let is_flexible = false;
        let ctx = Ctx { version, flexible: is_flexible, classic: false };
        let r = Ok(Seq::<u8>::empty());
        let r = if 3 <= ctx.version { then(r, map_encode_err(string_bytes(m.client_software_name, false), SerializationError::Encode("failed to encode ClientSoftwareName"))) } else { r };
        let r = if 3 <= ctx.version { then(r, map_encode_err(string_bytes(m.client_software_version, false), SerializationError::Encode("failed to encode ClientSoftwareVersion"))) } else { r };
        r
    }

    /// The message body read at `version`.
    pub open spec fn spec_deserialize(s: Seq<u8>, pos: int, version: i16) -> Result<(ApiVersionsRequestModel, int), SerializationError> {
        let is_flexible = false;
        let ctx = Ctx { version, flexible: is_flexible, classic: false };
        match (if 3 <= ctx.version { map_decode_err(parse_string(s, pos, false), SerializationError::Decode("failed to decode ClientSoftwareName")) } else { Ok((Seq::<char>::empty(), pos)) }) {
            Err(e) => Err(e),
            Ok((client_software_name, pos)) =>
            match (if 3 <= ctx.version { map_decode_err(parse_string(s, pos, false), SerializationError::Decode("failed to decode ClientSoftwareVersion")) } else { Ok((Seq::<char>::empty(), pos)) }) {
                Err(e) => Err(e),
                Ok((client_software_version, pos)) =>
                Ok((ApiVersionsRequestModel { client_software_name, client_software_version }, pos))
            }
        }
    }

    /// Message bodies that read back when written at `version`: nested values read
    /// back. A field that the version leaves out is read as its default.
    pub open spec fn reads_back_message(m: ApiVersionsRequestModel, version: i16) -> bool {
        let is_flexible = false;
        let ctx = Ctx { version, flexible: is_flexible, classic: false };
        true
    }

    /// A message body that can be written at `version` and reads back: reading a
    /// body at `version` from its bytes, wherever they stand, gives the same message,
    /// with each field that the version leaves out at its default.
    #[verifier::spinoff_prover]
    pub proof fn lemma_message_read_back(pre: Seq<u8>, m: ApiVersionsRequestModel, post: Seq<u8>, version: i16)
        requires
            Self::spec_serialize(m, version) is Ok,
            Self::reads_back_message(m, version),
        ensures
            Self::spec_deserialize(pre + Self::spec_serialize(m, version)->Ok_0 + post, pre.len() as int, version) == Ok::<(ApiVersionsRequestModel, int), SerializationError>((ApiVersionsRequestModel { client_software_name: if 3 <= version { m.client_software_name } else { Seq::<char>::empty() }, client_software_version: if 3 <= version { m.client_software_version } else { Seq::<char>::empty() } }, pre.len() as int + Self::spec_serialize(m, version)->Ok_0.len())),
    {
        let is_flexible = false;
        let ctx = Ctx { version, flexible: is_flexible, classic: false };
        let b0 = if 3 <= ctx.version { (string_bytes(m.client_software_name, false))->Ok_0 } else { Seq::<u8>::empty() };
        let b1 = if 3 <= ctx.version { (string_bytes(m.client_software_version, false))->Ok_0 } else { Seq::<u8>::empty() };
        let t2 = post;
        let t1 = b1 + t2;
        let t0 = b0 + t1;
        let e = Self::spec_serialize(m, version)->Ok_0;
        assert(e =~= Seq::<u8>::empty() + b0 + b1);
        lemma_seq_assoc((Seq::<u8>::empty() + b0), b1, post);
        lemma_seq_assoc(Seq::<u8>::empty(), b0, (b1 + post));
        lemma_seq_empty_left((b0 + (b1 + post)));
        let s = pre + e + post;
        lemma_seq_assoc(pre, e, post);
        assert(s == pre + t0);
        let a0 = pre;
        if 3 <= ctx.version {
            assert(parse_string(s, a0.len() as int, false) == Ok::<(Seq<char>, int), SerializationError>((m.client_software_name, a0.len() as int + b0.len()))) by {
                assert(string_bytes(m.client_software_name, false) is Ok);
                lemma_seq_assoc(a0, b0, t1);
                lemma_string_roundtrip(a0, m.client_software_name, t1, false);
            }
        }
        lemma_seq_assoc(a0, b0, t1);
        let a1 = a0 + b0;
        if 3 <= ctx.version {
            assert(parse_string(s, a1.len() as int, false) == Ok::<(Seq<char>, int), SerializationError>((m.client_software_version, a1.len() as int + b1.len()))) by {
                assert(string_bytes(m.client_software_version, false) is Ok);
                lemma_seq_assoc(a1, b1, t2);
                lemma_string_roundtrip(a1, m.client_software_version, t2, false);
            }
        }
    }

    /// The bytes written: the encoding of each field, in the order of the
    /// protocol's layout. Reading them back, wherever they stand, gives the value,
    /// with each field that the version leaves out at its default.
    #[verifier::spinoff_prover]
    pub proof fn lemma_message_layout(pre: Seq<u8>, m: ApiVersionsRequestModel, post: Seq<u8>, version: i16)
        requires
            Self::spec_serialize(m, version) is Ok,
        ensures
            Self::spec_serialize(m, version) == Ok::<Seq<u8>, SerializationError>((if 3 <= version { (string_bytes(m.client_software_name, false))->Ok_0 } else { Seq::<u8>::empty() }) + (if 3 <= version { (string_bytes(m.client_software_version, false))->Ok_0 } else { Seq::<u8>::empty() })),
            Self::reads_back_message(m, version) ==> Self::spec_deserialize(pre + ((if 3 <= version { (string_bytes(m.client_software_name, false))->Ok_0 } else { Seq::<u8>::empty() }) + (if 3 <= version { (string_bytes(m.client_software_version, false))->Ok_0 } else { Seq::<u8>::empty() })) + post, pre.len() as int, version) == Ok::<(ApiVersionsRequestModel, int), SerializationError>((ApiVersionsRequestModel { client_software_name: if 3 <= version { m.client_software_name } else { Seq::<char>::empty() }, client_software_version: if 3 <= version { m.client_software_version } else { Seq::<char>::empty() } }, pre.len() as int + ((if 3 <= version { (string_bytes(m.client_software_name, false))->Ok_0 } else { Seq::<u8>::empty() }) + (if 3 <= version { (string_bytes(m.client_software_version, false))->Ok_0 } else { Seq::<u8>::empty() })).len())),
    {
        let is_flexible = false;
        let ctx = Ctx { version, flexible: is_flexible, classic: false };
        let b0 = if 3 <= ctx.version { (string_bytes(m.client_software_name, false))->Ok_0 } else { Seq::<u8>::empty() };
        let b1 = if 3 <= ctx.version { (string_bytes(m.client_software_version, false))->Ok_0 } else { Seq::<u8>::empty() };
        let e = Self::spec_serialize(m, version)->Ok_0;
        assert(e =~= Seq::<u8>::empty() + b0 + b1);
        assert(e =~= b0 + b1);
        if Self::reads_back_message(m, version) {
            Self::lemma_message_read_back(pre, m, post, version);
        }
    }

    /// Writing succeeds exactly when every field that the version carries can be
    /// encoded and every field that it leaves out, where leaving it out is an
    /// error, holds its default.
    #[verifier::spinoff_prover]
    pub proof fn lemma_message_write_succeeds(m: ApiVersionsRequestModel, version: i16)
        ensures
            Self::spec_serialize(m, version) is Ok <==> ((3 <= version) ==> map_encode_err(string_bytes(m.client_software_name, false), SerializationError::Encode("failed to encode ClientSoftwareName")) is Ok) && ((3 <= version) ==> map_encode_err(string_bytes(m.client_software_version, false), SerializationError::Encode("failed to encode ClientSoftwareVersion")) is Ok),
    {
        let is_flexible = false;
        let ctx = Ctx { version, flexible: is_flexible, classic: false };
    }

    /// Writes the message body for `version`, which must be a supported version.
    /// On failure the buffer is left as it was.
    pub fn serialize(&self, version: ApiVersion, buf: &mut Vec<u8>) -> (r: Result<(), SerializationError>)
        requires
            0 <= version.0 <= 3,
        ensures
            write_exact(r, old(buf)@, final(buf)@, Self::spec_serialize(self.deep_view(), version.0)),
    {
        let start = buf.len();
        let r = self.write_body(version, buf);
        if r.is_err() {
            buf.truncate(start);
        }
        r
    }

    fn write_body(&self, version: ApiVersion, buf: &mut Vec<u8>) -> (r: Result<(), SerializationError>)
        requires
            0 <= version.0 <= 3,
        ensures
            write_ok(r, old(buf)@, final(buf)@, Self::spec_serialize(self.deep_view(), version.0)),
    {
        let is_flexible = false;
        let ctx = Ctx::new(version, is_flexible);
        let ghost mut w: Seq<u8> = Seq::empty();
        if 3 <= ctx.version {
            match encode_string(&self.client_software_name, buf, false) {
                Ok(()) => {},
                Err(_) => {
                    return Err(SerializationError::Encode("failed to encode ClientSoftwareName"));
                },
            }
            proof {
                w = w + (map_encode_err(string_bytes(self.client_software_name.deep_view(), false), SerializationError::Encode("failed to encode ClientSoftwareName")))->Ok_0;
            }
            assert(buf@ =~= old(buf)@ + w);
        }
        if 3 <= ctx.version {
            match encode_string(&self.client_software_version, buf, false) {
                Ok(()) => {},
                Err(_) => {
                    return Err(SerializationError::Encode("failed to encode ClientSoftwareVersion"));
                },
            }
            proof {
                w = w + (map_encode_err(string_bytes(self.client_software_version.deep_view(), false), SerializationError::Encode("failed to encode ClientSoftwareVersion")))->Ok_0;
            }
            assert(buf@ =~= old(buf)@ + w);
        }
        Ok(())
    }

    /// Reads a message body written for `version`.
    /// On failure the reader is put back where it started.
    pub fn deserialize(version: ApiVersion, buf: &mut Reader) -> (r: Result<Self, SerializationError>)
        ensures
            final(buf).bytes() == old(buf).bytes(),
            read_view_exact(r, Self::spec_deserialize(old(buf).bytes(), old(buf).pos(), version.0), old(buf).pos(), final(buf).pos()),
    {
        let start = buf.position();
        let r = Self::read_body(version, buf);
        if r.is_err() {
            buf.set_position(start);
        }
        r
    }

    fn read_body(version: ApiVersion, buf: &mut Reader) -> (r: Result<Self, SerializationError>)
        ensures
            final(buf).bytes() == old(buf).bytes(),
            read_view_ok(r, Self::spec_deserialize(old(buf).bytes(), old(buf).pos(), version.0), final(buf).pos()),
    {
        let is_flexible = false;
        let ctx = Ctx::new(version, is_flexible);
        let client_software_name = if 3 <= ctx.version {
            match buf.get_string(false) { Ok(v) => v, Err(_) => { return Err(SerializationError::Decode("failed to decode ClientSoftwareName")); } }
        } else {
            String::new()
        };
        let client_software_version = if 3 <= ctx.version {
            match buf.get_string(false) { Ok(v) => v, Err(_) => { return Err(SerializationError::Decode("failed to decode ClientSoftwareVersion")); } }
        } else {
            String::new()
        };
        Ok(ApiVersionsRequest { client_software_name, client_software_version })
    }
}

} // verus!
