//! AddRaftVoterRequest (API key 80).
use vstd::prelude::*;
use crate::roundtrip::{lemma_array_roundtrip, lemma_i32_roundtrip, lemma_items_read_back,
    lemma_nullable_string_roundtrip, lemma_seq_assoc, lemma_seq_empty_left,
    lemma_string_roundtrip, lemma_u16_roundtrip, lemma_uuid_roundtrip, lemma_uvarint_roundtrip};
use crate::serialization::{Ctx, KafkaCodec, Reader, SerializationError, array_bytes, decode_array,
    decode_unsigned_varint, encode_array, encode_nullable_string, encode_string,
    encode_unsigned_varint, encode_uuid, i32_bytes, nullable_string_bytes, parse_array, parse_i32,
    parse_nullable_string, parse_raw, parse_string, parse_u16, parse_uvarint, put_i32, put_u16,
    read_view_exact, read_view_ok, string_bytes, then, u16_bytes, uvarint_bytes, write_exact,
    write_ok};
use crate::{ApiKey, ApiVersion};

verus! {

// -------------------------------------------------------
// AddRaftVoterRequest
// -------------------------------------------------------
#[derive(Clone, Debug, Default, PartialEq)]
pub struct AddRaftVoterRequest {
    /// The cluster id.
    pub cluster_id: Option<String>,
    /// The maximum time to wait for the request to complete before returning.
    pub timeout_ms: i32,
    /// The replica id of the voter getting added to the topic partition.
    pub voter_id: i32,
    /// The directory id of the voter getting added to the topic partition.
    pub voter_directory_id: [u8; 16],
    /// The endpoints that can be used to communicate with the voter.
    pub listeners: Vec<Listener>,
}

/// The contents of `AddRaftVoterRequest`, with strings as characters and
/// nested values by their contents.
pub struct AddRaftVoterRequestModel {
    pub cluster_id: Option<Seq<char>>,
    pub timeout_ms: i32,
    pub voter_id: i32,
    pub voter_directory_id: Seq<u8>,
    pub listeners: Seq<<Listener as DeepView>::V>,
}

impl DeepView for AddRaftVoterRequest {
    type V = AddRaftVoterRequestModel;

    open spec fn deep_view(&self) -> AddRaftVoterRequestModel {
        AddRaftVoterRequestModel {
            cluster_id: self.cluster_id.deep_view(),
            timeout_ms: self.timeout_ms,
            voter_id: self.voter_id,
            voter_directory_id: self.voter_directory_id@,
            listeners: self.listeners.deep_view(),
        }
    }
}

impl AddRaftVoterRequest {
    /// The encoding of the structure in context `ctx`.
    pub open spec fn spec_encode_body(m: AddRaftVoterRequestModel, ctx: Ctx) -> Result<Seq<u8>, SerializationError> {
        let r = Ok(Seq::<u8>::empty());
        let r = then(r, nullable_string_bytes(m.cluster_id, ctx.flexible));
        let r = then(r, Ok(i32_bytes(m.timeout_ms)));
        let r = then(r, Ok(i32_bytes(m.voter_id)));
        let r = then(r, Ok(m.voter_directory_id));
        let r = then(r, array_bytes::<Listener>(m.listeners, Ctx { version: ctx.version, flexible: ctx.flexible, classic: false }));
        let r = if ctx.flexible { then(r, Ok(uvarint_bytes(0))) } else { r };
        r
    }

    /// The structure read from `s` at `pos` in context `ctx`.
    pub open spec fn spec_decode_body(s: Seq<u8>, pos: int, ctx: Ctx) -> Result<(AddRaftVoterRequestModel, int), SerializationError> {
        match parse_nullable_string(s, pos, ctx.flexible) {
            Err(e) => Err(e),
            Ok((cluster_id, pos)) =>
            match parse_i32(s, pos) {
                Err(e) => Err(e),
                Ok((timeout_ms, pos)) =>
                match parse_i32(s, pos) {
                    Err(e) => Err(e),
                    Ok((voter_id, pos)) =>
                    match parse_raw(s, pos, 16) {
                        Err(e) => Err(e),
                        Ok((voter_directory_id, pos)) =>
                        match parse_array::<Listener>(s, pos, Ctx { version: ctx.version, flexible: ctx.flexible, classic: false }) {
                            Err(e) => Err(e),
                            Ok((listeners, pos)) =>
                            match (if ctx.flexible { parse_uvarint(s, pos) } else { Ok((0u64, pos)) }) {
                                Err(e) => Err(e),
                                Ok((_tag_count, pos)) =>
                                Ok((AddRaftVoterRequestModel { cluster_id, timeout_ms, voter_id, voter_directory_id, listeners }, pos))
                            }
                        }
                    }
                }
            }
        }
    }

    /// Values of the structure that read back from their encoding in `ctx`: every
    /// field that the version leaves out holds its default, and nested values
    /// read back.
    pub open spec fn reads_back_body(m: AddRaftVoterRequestModel, ctx: Ctx) -> bool {
        &&& m.voter_directory_id.len() == 16
        &&& forall|i: int| 0 <= i < m.listeners.len() ==> #[trigger] <Listener as KafkaCodec>::reads_back(m.listeners[i], Ctx { version: ctx.version, flexible: ctx.flexible, classic: false })
    }

    /// A value that can be written in `ctx` and reads back: decoding its encoding,
    /// wherever it stands, gives the value and the position just after it.
    #[verifier::spinoff_prover]
    pub proof fn lemma_body_read_back(pre: Seq<u8>, m: AddRaftVoterRequestModel, post: Seq<u8>, ctx: Ctx)
        requires
            Self::spec_encode_body(m, ctx) is Ok,
            Self::reads_back_body(m, ctx),
        ensures
            Self::spec_decode_body(pre + Self::spec_encode_body(m, ctx)->Ok_0 + post, pre.len() as int, ctx) == Ok::<(AddRaftVoterRequestModel, int), SerializationError>((m, pre.len() as int + Self::spec_encode_body(m, ctx)->Ok_0.len())),
    {
        let b0 = (nullable_string_bytes(m.cluster_id, ctx.flexible))->Ok_0;
        let b1 = i32_bytes(m.timeout_ms);
        let b2 = i32_bytes(m.voter_id);
        let b3 = m.voter_directory_id;
        let b4 = (array_bytes::<Listener>(m.listeners, Ctx { version: ctx.version, flexible: ctx.flexible, classic: false }))->Ok_0;
        let b5 = if ctx.flexible { uvarint_bytes(0) } else { Seq::<u8>::empty() };
        let t6 = post;
        let t5 = b5 + t6;
        let t4 = b4 + t5;
        let t3 = b3 + t4;
        let t2 = b2 + t3;
        let t1 = b1 + t2;
        let t0 = b0 + t1;
        let e = Self::spec_encode_body(m, ctx)->Ok_0;
        assert(e =~= Seq::<u8>::empty() + b0 + b1 + b2 + b3 + b4 + b5);
        lemma_seq_assoc((((((Seq::<u8>::empty() + b0) + b1) + b2) + b3) + b4), b5, post);
        lemma_seq_assoc(((((Seq::<u8>::empty() + b0) + b1) + b2) + b3), b4, (b5 + post));
        lemma_seq_assoc((((Seq::<u8>::empty() + b0) + b1) + b2), b3, (b4 + (b5 + post)));
        lemma_seq_assoc(((Seq::<u8>::empty() + b0) + b1), b2, (b3 + (b4 + (b5 + post))));
        lemma_seq_assoc((Seq::<u8>::empty() + b0), b1, (b2 + (b3 + (b4 + (b5 + post)))));
        lemma_seq_assoc(Seq::<u8>::empty(), b0, (b1 + (b2 + (b3 + (b4 + (b5 + post))))));
        lemma_seq_empty_left((b0 + (b1 + (b2 + (b3 + (b4 + (b5 + post)))))));
        let s = pre + e + post;
        lemma_seq_assoc(pre, e, post);
        assert(s == pre + t0);
        let a0 = pre;
        assert(parse_nullable_string(s, a0.len() as int, ctx.flexible) == Ok::<(Option<Seq<char>>, int), SerializationError>((m.cluster_id, a0.len() as int + b0.len()))) by {
            assert(nullable_string_bytes(m.cluster_id, ctx.flexible) is Ok);
            lemma_seq_assoc(a0, b0, t1);
            lemma_nullable_string_roundtrip(a0, m.cluster_id, t1, ctx.flexible);
        }
        lemma_seq_assoc(a0, b0, t1);
        let a1 = a0 + b0;
        assert(parse_i32(s, a1.len() as int) == Ok::<(i32, int), SerializationError>((m.timeout_ms, a1.len() as int + b1.len()))) by {
            lemma_seq_assoc(a1, b1, t2);
            lemma_i32_roundtrip(a1, m.timeout_ms, t2);
        }
        lemma_seq_assoc(a1, b1, t2);
        let a2 = a1 + b1;
        assert(parse_i32(s, a2.len() as int) == Ok::<(i32, int), SerializationError>((m.voter_id, a2.len() as int + b2.len()))) by {
            lemma_seq_assoc(a2, b2, t3);
            lemma_i32_roundtrip(a2, m.voter_id, t3);
        }
        lemma_seq_assoc(a2, b2, t3);
        let a3 = a2 + b2;
        assert(parse_raw(s, a3.len() as int, 16) == Ok::<(Seq<u8>, int), SerializationError>((m.voter_directory_id, a3.len() as int + b3.len()))) by {
            lemma_seq_assoc(a3, b3, t4);
            lemma_uuid_roundtrip(a3, m.voter_directory_id, t4);
        }
        lemma_seq_assoc(a3, b3, t4);
        let a4 = a3 + b3;
        assert(parse_array::<Listener>(s, a4.len() as int, Ctx { version: ctx.version, flexible: ctx.flexible, classic: false }) == Ok::<(Seq<<Listener as DeepView>::V>, int), SerializationError>((m.listeners, a4.len() as int + b4.len()))) by {
            assert(array_bytes::<Listener>(m.listeners, Ctx { version: ctx.version, flexible: ctx.flexible, classic: false }) is Ok);
            lemma_seq_assoc(a4, b4, t5);
            lemma_items_read_back::<Listener>(m.listeners, Ctx { version: ctx.version, flexible: ctx.flexible, classic: false });
            lemma_array_roundtrip::<Listener>(a4, m.listeners, t5, Ctx { version: ctx.version, flexible: ctx.flexible, classic: false });
        }
        lemma_seq_assoc(a4, b4, t5);
        let a5 = a4 + b4;
        if ctx.flexible {
            assert(parse_uvarint(s, a5.len() as int) == Ok::<(u64, int), SerializationError>((0u64, a5.len() as int + b5.len()))) by {
                lemma_seq_assoc(a5, b5, t6);
                lemma_uvarint_roundtrip(a5, 0, t6);
            }
        }
    }

    /// The bytes written: the encoding of each field, in the order of the
    /// protocol's layout. Reading them back, wherever they stand, gives the value,
    /// with each field that the version leaves out at its default.
    #[verifier::spinoff_prover]
    pub proof fn lemma_body_layout(pre: Seq<u8>, m: AddRaftVoterRequestModel, post: Seq<u8>, ctx: Ctx)
        requires
            Self::spec_encode_body(m, ctx) is Ok,
        ensures
            Self::spec_encode_body(m, ctx) == Ok::<Seq<u8>, SerializationError>(((nullable_string_bytes(m.cluster_id, ctx.flexible))->Ok_0) + (i32_bytes(m.timeout_ms)) + (i32_bytes(m.voter_id)) + (m.voter_directory_id) + ((array_bytes::<Listener>(m.listeners, Ctx { version: ctx.version, flexible: ctx.flexible, classic: false }))->Ok_0) + (if ctx.flexible { uvarint_bytes(0) } else { Seq::<u8>::empty() })),
            Self::reads_back_body(m, ctx) ==> Self::spec_decode_body(pre + (((nullable_string_bytes(m.cluster_id, ctx.flexible))->Ok_0) + (i32_bytes(m.timeout_ms)) + (i32_bytes(m.voter_id)) + (m.voter_directory_id) + ((array_bytes::<Listener>(m.listeners, Ctx { version: ctx.version, flexible: ctx.flexible, classic: false }))->Ok_0) + (if ctx.flexible { uvarint_bytes(0) } else { Seq::<u8>::empty() })) + post, pre.len() as int, ctx) == Ok::<(AddRaftVoterRequestModel, int), SerializationError>((m, pre.len() as int + (((nullable_string_bytes(m.cluster_id, ctx.flexible))->Ok_0) + (i32_bytes(m.timeout_ms)) + (i32_bytes(m.voter_id)) + (m.voter_directory_id) + ((array_bytes::<Listener>(m.listeners, Ctx { version: ctx.version, flexible: ctx.flexible, classic: false }))->Ok_0) + (if ctx.flexible { uvarint_bytes(0) } else { Seq::<u8>::empty() })).len())),
    {
        let b0 = (nullable_string_bytes(m.cluster_id, ctx.flexible))->Ok_0;
        let b1 = i32_bytes(m.timeout_ms);
        let b2 = i32_bytes(m.voter_id);
        let b3 = m.voter_directory_id;
        let b4 = (array_bytes::<Listener>(m.listeners, Ctx { version: ctx.version, flexible: ctx.flexible, classic: false }))->Ok_0;
        let b5 = if ctx.flexible { uvarint_bytes(0) } else { Seq::<u8>::empty() };
        let e = Self::spec_encode_body(m, ctx)->Ok_0;
        assert(e =~= Seq::<u8>::empty() + b0 + b1 + b2 + b3 + b4 + b5);
        assert(e =~= b0 + b1 + b2 + b3 + b4 + b5);
        if Self::reads_back_body(m, ctx) {
            Self::lemma_body_read_back(pre, m, post, ctx);
        }
    }

    /// Writing succeeds exactly when every field that the version carries can be
    /// encoded and every field that it leaves out, where leaving it out is an
    /// error, holds its default.
    #[verifier::spinoff_prover]
    pub proof fn lemma_body_write_succeeds(m: AddRaftVoterRequestModel, ctx: Ctx)
        ensures
            Self::spec_encode_body(m, ctx) is Ok <==> (nullable_string_bytes(m.cluster_id, ctx.flexible) is Ok) && (array_bytes::<Listener>(m.listeners, Ctx { version: ctx.version, flexible: ctx.flexible, classic: false }) is Ok),
    {
    }

    /// Writes the structure for `version`, with the compact encodings when `is_flexible`.
    /// On failure the buffer is left as it was.
    pub fn encode(&self, buf: &mut Vec<u8>, version: ApiVersion, is_flexible: bool) -> (r: Result<(), SerializationError>)
        ensures
            write_exact(r, old(buf)@, final(buf)@, Self::spec_encode_body(self.deep_view(), Ctx { version: version.0, flexible: is_flexible, classic: false })),
    {
        let start = buf.len();
        let r = self.encode_ctx(buf, Ctx::new(version, is_flexible));
        if r.is_err() {
            buf.truncate(start);
        }
        r
    }

    /// Reads the structure as written for `version`.
    /// On failure the reader is put back where it started.
    pub fn decode(buf: &mut Reader, version: ApiVersion, is_flexible: bool) -> (r: Result<Self, SerializationError>)
        ensures
            final(buf).bytes() == old(buf).bytes(),
            read_view_exact(r, Self::spec_decode_body(old(buf).bytes(), old(buf).pos(), Ctx { version: version.0, flexible: is_flexible, classic: false }), old(buf).pos(), final(buf).pos()),
    {
        let start = buf.position();
        let r = Self::decode_ctx(buf, Ctx::new(version, is_flexible));
        if r.is_err() {
            buf.set_position(start);
        }
        r
    }
}

impl KafkaCodec for AddRaftVoterRequest {
    open spec fn spec_encode(m: AddRaftVoterRequestModel, ctx: Ctx) -> Result<Seq<u8>, SerializationError> {
        Self::spec_encode_body(m, ctx)
    }

    open spec fn spec_decode(s: Seq<u8>, pos: int, ctx: Ctx) -> Result<(AddRaftVoterRequestModel, int), SerializationError> {
        Self::spec_decode_body(s, pos, ctx)
    }

    open spec fn reads_back(v: AddRaftVoterRequestModel, ctx: Ctx) -> bool {
        Self::reads_back_body(v, ctx)
    }

    proof fn lemma_read_back(pre: Seq<u8>, v: AddRaftVoterRequestModel, post: Seq<u8>, ctx: Ctx) {
        Self::lemma_body_read_back(pre, v, post, ctx);
        assert(Self::spec_decode(pre + Self::spec_encode(v, ctx)->Ok_0 + post, pre.len() as int, ctx)
            == Self::spec_decode_body(pre + Self::spec_encode_body(v, ctx)->Ok_0 + post, pre.len() as int, ctx));
    }

    fn encode_ctx(&self, buf: &mut Vec<u8>, ctx: Ctx) -> (r: Result<(), SerializationError>) {
        let ghost mut w: Seq<u8> = Seq::empty();
        encode_nullable_string(&self.cluster_id, buf, ctx.flexible)?;
        proof {
            w = w + (nullable_string_bytes(self.cluster_id.deep_view(), ctx.flexible))->Ok_0;
        }
        assert(buf@ =~= old(buf)@ + w);
        put_i32(buf, self.timeout_ms);
        proof {
            w = w + i32_bytes(self.timeout_ms);
        }
        assert(buf@ =~= old(buf)@ + w);
        put_i32(buf, self.voter_id);
        proof {
            w = w + i32_bytes(self.voter_id);
        }
        assert(buf@ =~= old(buf)@ + w);
        encode_uuid(&self.voter_directory_id, buf);
        proof {
            w = w + self.voter_directory_id@;
        }
        assert(buf@ =~= old(buf)@ + w);
        encode_array(&self.listeners, buf, Ctx { version: ctx.version, flexible: ctx.flexible, classic: false })?;
        proof {
            w = w + (array_bytes::<Listener>(self.listeners.deep_view(), Ctx { version: ctx.version, flexible: ctx.flexible, classic: false }))->Ok_0;
        }
        assert(buf@ =~= old(buf)@ + w);
        if ctx.flexible {
            encode_unsigned_varint(0, buf);
            proof {
                w = w + uvarint_bytes(0);
            }
            assert(buf@ =~= old(buf)@ + w);
        }
        Ok(())
    }

    fn decode_ctx(buf: &mut Reader, ctx: Ctx) -> (r: Result<Self, SerializationError>) {
        let cluster_id = buf.get_nullable_string(ctx.flexible)?;
        let timeout_ms = buf.get_i32()?;
        let voter_id = buf.get_i32()?;
        let voter_directory_id = buf.get_uuid()?;
        let listeners = decode_array::<Listener>(buf, Ctx { version: ctx.version, flexible: ctx.flexible, classic: false })?;
        if ctx.flexible {
            let (_tag_count, _) = decode_unsigned_varint(buf)?;
        }
        Ok(AddRaftVoterRequest { cluster_id, timeout_ms, voter_id, voter_directory_id, listeners })
    }
}

impl AddRaftVoterRequest {
    /// The API key of this message.
    pub fn get_api_key() -> (r: ApiKey)
        ensures
            r.0 == 80,
    {
        ApiKey::new(80)
    }

    /// The oldest version of this message.
    pub fn get_min_supported_version() -> (r: ApiVersion)
        ensures
            r.0 == 0,
    {
        ApiVersion::new(0)
    }

    /// The newest version of this message.
    pub fn get_max_supported_version() -> (r: ApiVersion)
        ensures
            r.0 == 0,
    {
        ApiVersion::new(0)
    }

    /// The first version of this message with the compact encodings.
    pub fn get_min_flexible_version() -> (r: ApiVersion)
        ensures
            r.0 == 0,
    {
        ApiVersion::new(0)
    }

    /// The encoding of a whole message body at `version`.
    pub open spec fn spec_serialize(m: AddRaftVoterRequestModel, version: i16) -> Result<Seq<u8>, SerializationError> {
        let is_flexible = version >= 0;
        let ctx = Ctx { version, flexible: is_flexible, classic: false };
        let r = Ok(Seq::<u8>::empty());
        let r = then(r, nullable_string_bytes(m.cluster_id, ctx.flexible));
        let r = then(r, Ok(i32_bytes(m.timeout_ms)));
        let r = then(r, Ok(i32_bytes(m.voter_id)));
        let r = then(r, Ok(m.voter_directory_id));
        let r = then(r, array_bytes::<Listener>(m.listeners, Ctx { version: ctx.version, flexible: ctx.flexible, classic: false }));
        let r = if ctx.flexible { then(r, Ok(uvarint_bytes(0))) } else { r };
        r
    }

    /// The message body read at `version`.
    pub open spec fn spec_deserialize(s: Seq<u8>, pos: int, version: i16) -> Result<(AddRaftVoterRequestModel, int), SerializationError> {
        let is_flexible = version >= 0;
        let ctx = Ctx { version, flexible: is_flexible, classic: false };
        match parse_nullable_string(s, pos, ctx.flexible) {
            Err(e) => Err(e),
            Ok((cluster_id, pos)) =>
            match parse_i32(s, pos) {
                Err(e) => Err(e),
                Ok((timeout_ms, pos)) =>
                match parse_i32(s, pos) {
                    Err(e) => Err(e),
                    Ok((voter_id, pos)) =>
                    match parse_raw(s, pos, 16) {
                        Err(e) => Err(e),
                        Ok((voter_directory_id, pos)) =>
                        match parse_array::<Listener>(s, pos, Ctx { version: ctx.version, flexible: ctx.flexible, classic: false }) {
                            Err(e) => Err(e),
                            Ok((listeners, pos)) =>
                            match (if ctx.flexible { parse_uvarint(s, pos) } else { Ok((0u64, pos)) }) {
                                Err(e) => Err(e),
                                Ok((_tag_count, pos)) =>
                                Ok((AddRaftVoterRequestModel { cluster_id, timeout_ms, voter_id, voter_directory_id, listeners }, pos))
                            }
                        }
                    }
                }
            }
        }
    }

    /// Message bodies that read back when written at `version`: every field that
    /// the version leaves out holds its default, and nested values read back.
    pub open spec fn reads_back_message(m: AddRaftVoterRequestModel, version: i16) -> bool {
        let is_flexible = version >= 0;
        let ctx = Ctx { version, flexible: is_flexible, classic: false };
        &&& m.voter_directory_id.len() == 16
        &&& forall|i: int| 0 <= i < m.listeners.len() ==> #[trigger] <Listener as KafkaCodec>::reads_back(m.listeners[i], Ctx { version: ctx.version, flexible: ctx.flexible, classic: false })
    }

    /// A message body that can be written at `version` and reads back: reading a
    /// body at `version` from its bytes, wherever they stand, gives the same message.
    #[verifier::spinoff_prover]
    pub proof fn lemma_message_read_back(pre: Seq<u8>, m: AddRaftVoterRequestModel, post: Seq<u8>, version: i16)
        requires
            Self::spec_serialize(m, version) is Ok,
            Self::reads_back_message(m, version),
        ensures
            Self::spec_deserialize(pre + Self::spec_serialize(m, version)->Ok_0 + post, pre.len() as int, version) == Ok::<(AddRaftVoterRequestModel, int), SerializationError>((m, pre.len() as int + Self::spec_serialize(m, version)->Ok_0.len())),
    {
        let is_flexible = version >= 0;
        let ctx = Ctx { version, flexible: is_flexible, classic: false };
        let b0 = (nullable_string_bytes(m.cluster_id, ctx.flexible))->Ok_0;
        let b1 = i32_bytes(m.timeout_ms);
        let b2 = i32_bytes(m.voter_id);
        let b3 = m.voter_directory_id;
        let b4 = (array_bytes::<Listener>(m.listeners, Ctx { version: ctx.version, flexible: ctx.flexible, classic: false }))->Ok_0;
        let b5 = if ctx.flexible { uvarint_bytes(0) } else { Seq::<u8>::empty() };
        let t6 = post;
        let t5 = b5 + t6;
        let t4 = b4 + t5;
        let t3 = b3 + t4;
        let t2 = b2 + t3;
        let t1 = b1 + t2;
        let t0 = b0 + t1;
        let e = Self::spec_serialize(m, version)->Ok_0;
        assert(e =~= Seq::<u8>::empty() + b0 + b1 + b2 + b3 + b4 + b5);
        lemma_seq_assoc((((((Seq::<u8>::empty() + b0) + b1) + b2) + b3) + b4), b5, post);
        lemma_seq_assoc(((((Seq::<u8>::empty() + b0) + b1) + b2) + b3), b4, (b5 + post));
        lemma_seq_assoc((((Seq::<u8>::empty() + b0) + b1) + b2), b3, (b4 + (b5 + post)));
        lemma_seq_assoc(((Seq::<u8>::empty() + b0) + b1), b2, (b3 + (b4 + (b5 + post))));
        lemma_seq_assoc((Seq::<u8>::empty() + b0), b1, (b2 + (b3 + (b4 + (b5 + post)))));
        lemma_seq_assoc(Seq::<u8>::empty(), b0, (b1 + (b2 + (b3 + (b4 + (b5 + post))))));
        lemma_seq_empty_left((b0 + (b1 + (b2 + (b3 + (b4 + (b5 + post)))))));
        let s = pre + e + post;
        lemma_seq_assoc(pre, e, post);
        assert(s == pre + t0);
        let a0 = pre;
        assert(parse_nullable_string(s, a0.len() as int, ctx.flexible) == Ok::<(Option<Seq<char>>, int), SerializationError>((m.cluster_id, a0.len() as int + b0.len()))) by {
            assert(nullable_string_bytes(m.cluster_id, ctx.flexible) is Ok);
            lemma_seq_assoc(a0, b0, t1);
            lemma_nullable_string_roundtrip(a0, m.cluster_id, t1, ctx.flexible);
        }
        lemma_seq_assoc(a0, b0, t1);
        let a1 = a0 + b0;
        assert(parse_i32(s, a1.len() as int) == Ok::<(i32, int), SerializationError>((m.timeout_ms, a1.len() as int + b1.len()))) by {
            lemma_seq_assoc(a1, b1, t2);
            lemma_i32_roundtrip(a1, m.timeout_ms, t2);
        }
        lemma_seq_assoc(a1, b1, t2);
        let a2 = a1 + b1;
        assert(parse_i32(s, a2.len() as int) == Ok::<(i32, int), SerializationError>((m.voter_id, a2.len() as int + b2.len()))) by {
            lemma_seq_assoc(a2, b2, t3);
            lemma_i32_roundtrip(a2, m.voter_id, t3);
        }
        lemma_seq_assoc(a2, b2, t3);
        let a3 = a2 + b2;
        assert(parse_raw(s, a3.len() as int, 16) == Ok::<(Seq<u8>, int), SerializationError>((m.voter_directory_id, a3.len() as int + b3.len()))) by {
            lemma_seq_assoc(a3, b3, t4);
            lemma_uuid_roundtrip(a3, m.voter_directory_id, t4);
        }
        lemma_seq_assoc(a3, b3, t4);
        let a4 = a3 + b3;
        assert(parse_array::<Listener>(s, a4.len() as int, Ctx { version: ctx.version, flexible: ctx.flexible, classic: false }) == Ok::<(Seq<<Listener as DeepView>::V>, int), SerializationError>((m.listeners, a4.len() as int + b4.len()))) by {
            assert(array_bytes::<Listener>(m.listeners, Ctx { version: ctx.version, flexible: ctx.flexible, classic: false }) is Ok);
            lemma_seq_assoc(a4, b4, t5);
            lemma_items_read_back::<Listener>(m.listeners, Ctx { version: ctx.version, flexible: ctx.flexible, classic: false });
            lemma_array_roundtrip::<Listener>(a4, m.listeners, t5, Ctx { version: ctx.version, flexible: ctx.flexible, classic: false });
        }
        lemma_seq_assoc(a4, b4, t5);
        let a5 = a4 + b4;
        if ctx.flexible {
            assert(parse_uvarint(s, a5.len() as int) == Ok::<(u64, int), SerializationError>((0u64, a5.len() as int + b5.len()))) by {
                lemma_seq_assoc(a5, b5, t6);
                lemma_uvarint_roundtrip(a5, 0, t6);
            }
        }
    }

    /// The bytes written: the encoding of each field, in the order of the
    /// protocol's layout. Reading them back, wherever they stand, gives the value,
    /// with each field that the version leaves out at its default.
    #[verifier::spinoff_prover]
    pub proof fn lemma_message_layout(pre: Seq<u8>, m: AddRaftVoterRequestModel, post: Seq<u8>, version: i16)
        requires
            Self::spec_serialize(m, version) is Ok,
        ensures
            Self::spec_serialize(m, version) == Ok::<Seq<u8>, SerializationError>(((nullable_string_bytes(m.cluster_id, (version >= 0)))->Ok_0) + (i32_bytes(m.timeout_ms)) + (i32_bytes(m.voter_id)) + (m.voter_directory_id) + ((array_bytes::<Listener>(m.listeners, Ctx { version: version, flexible: (version >= 0), classic: false }))->Ok_0) + (if (version >= 0) { uvarint_bytes(0) } else { Seq::<u8>::empty() })),
            Self::reads_back_message(m, version) ==> Self::spec_deserialize(pre + (((nullable_string_bytes(m.cluster_id, (version >= 0)))->Ok_0) + (i32_bytes(m.timeout_ms)) + (i32_bytes(m.voter_id)) + (m.voter_directory_id) + ((array_bytes::<Listener>(m.listeners, Ctx { version: version, flexible: (version >= 0), classic: false }))->Ok_0) + (if (version >= 0) { uvarint_bytes(0) } else { Seq::<u8>::empty() })) + post, pre.len() as int, version) == Ok::<(AddRaftVoterRequestModel, int), SerializationError>((m, pre.len() as int + (((nullable_string_bytes(m.cluster_id, (version >= 0)))->Ok_0) + (i32_bytes(m.timeout_ms)) + (i32_bytes(m.voter_id)) + (m.voter_directory_id) + ((array_bytes::<Listener>(m.listeners, Ctx { version: version, flexible: (version >= 0), classic: false }))->Ok_0) + (if (version >= 0) { uvarint_bytes(0) } else { Seq::<u8>::empty() })).len())),
    {
        let is_flexible = version >= 0;
        let ctx = Ctx { version, flexible: is_flexible, classic: false };
        let b0 = (nullable_string_bytes(m.cluster_id, ctx.flexible))->Ok_0;
        let b1 = i32_bytes(m.timeout_ms);
        let b2 = i32_bytes(m.voter_id);
        let b3 = m.voter_directory_id;
        let b4 = (array_bytes::<Listener>(m.listeners, Ctx { version: ctx.version, flexible: ctx.flexible, classic: false }))->Ok_0;
        let b5 = if ctx.flexible { uvarint_bytes(0) } else { Seq::<u8>::empty() };
        let e = Self::spec_serialize(m, version)->Ok_0;
        assert(e =~= Seq::<u8>::empty() + b0 + b1 + b2 + b3 + b4 + b5);
        assert(e =~= b0 + b1 + b2 + b3 + b4 + b5);
        if Self::reads_back_message(m, version) {
            Self::lemma_message_read_back(pre, m, post, version);
        }
    }

    /// Writing succeeds exactly when every field that the version carries can be
    /// encoded and every field that it leaves out, where leaving it out is an
    /// error, holds its default.
    #[verifier::spinoff_prover]
    pub proof fn lemma_message_write_succeeds(m: AddRaftVoterRequestModel, version: i16)
        ensures
            Self::spec_serialize(m, version) is Ok <==> (nullable_string_bytes(m.cluster_id, (version >= 0)) is Ok) && (array_bytes::<Listener>(m.listeners, Ctx { version: version, flexible: (version >= 0), classic: false }) is Ok),
    {
        let is_flexible = version >= 0;
        let ctx = Ctx { version, flexible: is_flexible, classic: false };
    }

    /// Writes the message body for `version`, which must be a supported version.
    /// On failure the buffer is left as it was.
    pub fn serialize(&self, version: ApiVersion, buf: &mut Vec<u8>) -> (r: Result<(), SerializationError>)
        requires
            0 <= version.0 <= 0,
        ensures
            write_exact(r, old(buf)@, final(buf)@, Self::spec_serialize(self.deep_view(), version.0)),
    {
        let start = buf.len();
        let r = self.write_body(version, buf);
        if r.is_err() {
            buf.truncate(start);
        }
        r
    }

    fn write_body(&self, version: ApiVersion, buf: &mut Vec<u8>) -> (r: Result<(), SerializationError>)
        requires
            0 <= version.0 <= 0,
        ensures
            write_ok(r, old(buf)@, final(buf)@, Self::spec_serialize(self.deep_view(), version.0)),
    {
        let is_flexible = version.0 >= Self::get_min_flexible_version().0;
        let ctx = Ctx::new(version, is_flexible);
        let ghost mut w: Seq<u8> = Seq::empty();
        encode_nullable_string(&self.cluster_id, buf, ctx.flexible)?;
        proof {
            w = w + (nullable_string_bytes(self.cluster_id.deep_view(), ctx.flexible))->Ok_0;
        }
        assert(buf@ =~= old(buf)@ + w);
        put_i32(buf, self.timeout_ms);
        proof {
            w = w + i32_bytes(self.timeout_ms);
        }
        assert(buf@ =~= old(buf)@ + w);
        put_i32(buf, self.voter_id);
        proof {
            w = w + i32_bytes(self.voter_id);
        }
        assert(buf@ =~= old(buf)@ + w);
        encode_uuid(&self.voter_directory_id, buf);
        proof {
            w = w + self.voter_directory_id@;
        }
        assert(buf@ =~= old(buf)@ + w);
        encode_array(&self.listeners, buf, Ctx { version: ctx.version, flexible: ctx.flexible, classic: false })?;
        proof {
            w = w + (array_bytes::<Listener>(self.listeners.deep_view(), Ctx { version: ctx.version, flexible: ctx.flexible, classic: false }))->Ok_0;
        }
        assert(buf@ =~= old(buf)@ + w);
        if ctx.flexible {
            encode_unsigned_varint(0, buf);
            proof {
                w = w + uvarint_bytes(0);
            }
            assert(buf@ =~= old(buf)@ + w);
        }
        Ok(())
    }

    /// Reads a message body written for `version`.
    /// On failure the reader is put back where it started.
    pub fn deserialize(version: ApiVersion, buf: &mut Reader) -> (r: Result<Self, SerializationError>)
        ensures
            final(buf).bytes() == old(buf).bytes(),
            read_view_exact(r, Self::spec_deserialize(old(buf).bytes(), old(buf).pos(), version.0), old(buf).pos(), final(buf).pos()),
    {
        let start = buf.position();
        let r = Self::read_body(version, buf);
        if r.is_err() {
            buf.set_position(start);
        }
        r
    }

    fn read_body(version: ApiVersion, buf: &mut Reader) -> (r: Result<Self, SerializationError>)
        ensures
            final(buf).bytes() == old(buf).bytes(),
            read_view_ok(r, Self::spec_deserialize(old(buf).bytes(), old(buf).pos(), version.0), final(buf).pos()),
    {
        let is_flexible = version.0 >= Self::get_min_flexible_version().0;
        let ctx = Ctx::new(version, is_flexible);
        let cluster_id = buf.get_nullable_string(ctx.flexible)?;
        let timeout_ms = buf.get_i32()?;
        let voter_id = buf.get_i32()?;
        let voter_directory_id = buf.get_uuid()?;
        let listeners = decode_array::<Listener>(buf, Ctx { version: ctx.version, flexible: ctx.flexible, classic: false })?;
        if ctx.flexible {
            let (_tag_count, _) = decode_unsigned_varint(buf)?;
        }
        Ok(AddRaftVoterRequest { cluster_id, timeout_ms, voter_id, voter_directory_id, listeners })
    }
}

// -------------------------------------------------------
// Listener
// -------------------------------------------------------
#[derive(Clone, Debug, Default, PartialEq)]
pub struct Listener {
    /// The name of the endpoint.
    pub name: String,
    /// The hostname.
    pub host: String,
    /// The port.
    pub port: u16,
}

/// The contents of `Listener`, with strings as characters and
/// nested values by their contents.
pub struct ListenerModel {
    pub name: Seq<char>,
    pub host: Seq<char>,
    pub port: u16,
}

impl DeepView for Listener {
    type V = ListenerModel;

    open spec fn deep_view(&self) -> ListenerModel {
        ListenerModel {
            name: self.name.deep_view(),
            host: self.host.deep_view(),
            port: self.port,
        }
    }
}

impl Listener {
    /// The encoding of the structure in context `ctx`.
    pub open spec fn spec_encode_body(m: ListenerModel, ctx: Ctx) -> Result<Seq<u8>, SerializationError> {
        let r = Ok(Seq::<u8>::empty());
        let r = then(r, string_bytes(m.name, ctx.flexible));
        let r = then(r, string_bytes(m.host, ctx.flexible));
        let r = then(r, Ok(u16_bytes(m.port)));
        let r = if ctx.flexible { then(r, Ok(uvarint_bytes(0))) } else { r };
        r
    }

    /// The structure read from `s` at `pos` in context `ctx`.
    pub open spec fn spec_decode_body(s: Seq<u8>, pos: int, ctx: Ctx) -> Result<(ListenerModel, int), SerializationError> {
        match parse_string(s, pos, ctx.flexible) {
            Err(e) => Err(e),
            Ok((name, pos)) =>
            match parse_string(s, pos, ctx.flexible) {
                Err(e) => Err(e),
                Ok((host, pos)) =>
                match parse_u16(s, pos) {
                    Err(e) => Err(e),
                    Ok((port, pos)) =>
                    match (if ctx.flexible { parse_uvarint(s, pos) } else { Ok((0u64, pos)) }) {
                        Err(e) => Err(e),
                        Ok((_tag_count, pos)) =>
                        Ok((ListenerModel { name, host, port }, pos))
                    }
                }
            }
        }
    }

    /// Values of the structure that read back from their encoding in `ctx`: every
    /// field that the version leaves out holds its default, and nested values
    /// read back.
    pub open spec fn reads_back_body(m: ListenerModel, ctx: Ctx) -> bool {
        true
    }

    /// A value that can be written in `ctx` and reads back: decoding its encoding,
    /// wherever it stands, gives the value and the position just after it.
    #[verifier::spinoff_prover]
    pub proof fn lemma_body_read_back(pre: Seq<u8>, m: ListenerModel, post: Seq<u8>, ctx: Ctx)
        requires
            Self::spec_encode_body(m, ctx) is Ok,
            Self::reads_back_body(m, ctx),
        ensures
            Self::spec_decode_body(pre + Self::spec_encode_body(m, ctx)->Ok_0 + post, pre.len() as int, ctx) == Ok::<(ListenerModel, int), SerializationError>((m, pre.len() as int + Self::spec_encode_body(m, ctx)->Ok_0.len())),
    {
        let b0 = (string_bytes(m.name, ctx.flexible))->Ok_0;
        let b1 = (string_bytes(m.host, ctx.flexible))->Ok_0;
        let b2 = u16_bytes(m.port);
        let b3 = if ctx.flexible { uvarint_bytes(0) } else { Seq::<u8>::empty() };
        let t4 = post;
        let t3 = b3 + t4;
        let t2 = b2 + t3;
        let t1 = b1 + t2;
        let t0 = b0 + t1;
        let e = Self::spec_encode_body(m, ctx)->Ok_0;
        assert(e =~= Seq::<u8>::empty() + b0 + b1 + b2 + b3);
        lemma_seq_assoc((((Seq::<u8>::empty() + b0) + b1) + b2), b3, post);
        lemma_seq_assoc(((Seq::<u8>::empty() + b0) + b1), b2, (b3 + post));
        lemma_seq_assoc((Seq::<u8>::empty() + b0), b1, (b2 + (b3 + post)));
        lemma_seq_assoc(Seq::<u8>::empty(), b0, (b1 + (b2 + (b3 + post))));
        lemma_seq_empty_left((b0 + (b1 + (b2 + (b3 + post)))));
        let s = pre + e + post;
        lemma_seq_assoc(pre, e, post);
        assert(s == pre + t0);
        let a0 = pre;
        assert(parse_string(s, a0.len() as int, ctx.flexible) == Ok::<(Seq<char>, int), SerializationError>((m.name, a0.len() as int + b0.len()))) by {
            assert(string_bytes(m.name, ctx.flexible) is Ok);
            lemma_seq_assoc(a0, b0, t1);
            lemma_string_roundtrip(a0, m.name, t1, ctx.flexible);
        }
        lemma_seq_assoc(a0, b0, t1);
        let a1 = a0 + b0;
        assert(parse_string(s, a1.len() as int, ctx.flexible) == Ok::<(Seq<char>, int), SerializationError>((m.host, a1.len() as int + b1.len()))) by {
            assert(string_bytes(m.host, ctx.flexible) is Ok);
            lemma_seq_assoc(a1, b1, t2);
            lemma_string_roundtrip(a1, m.host, t2, ctx.flexible);
        }
        lemma_seq_assoc(a1, b1, t2);
        let a2 = a1 + b1;
        assert(parse_u16(s, a2.len() as int) == Ok::<(u16, int), SerializationError>((m.port, a2.len() as int + b2.len()))) by {
            lemma_seq_assoc(a2, b2, t3);
            lemma_u16_roundtrip(a2, m.port, t3);
        }
        lemma_seq_assoc(a2, b2, t3);
        let a3 = a2 + b2;
        if ctx.flexible {
            assert(parse_uvarint(s, a3.len() as int) == Ok::<(u64, int), SerializationError>((0u64, a3.len() as int + b3.len()))) by {
                lemma_seq_assoc(a3, b3, t4);
                lemma_uvarint_roundtrip(a3, 0, t4);
            }
        }
    }

    /// The bytes written: the encoding of each field, in the order of the
    /// protocol's layout. Reading them back, wherever they stand, gives the value,
    /// with each field that the version leaves out at its default.
    #[verifier::spinoff_prover]
    pub proof fn lemma_body_layout(pre: Seq<u8>, m: ListenerModel, post: Seq<u8>, ctx: Ctx)
        requires
            Self::spec_encode_body(m, ctx) is Ok,
        ensures
            Self::spec_encode_body(m, ctx) == Ok::<Seq<u8>, SerializationError>(((string_bytes(m.name, ctx.flexible))->Ok_0) + ((string_bytes(m.host, ctx.flexible))->Ok_0) + (u16_bytes(m.port)) + (if ctx.flexible { uvarint_bytes(0) } else { Seq::<u8>::empty() })),
            Self::reads_back_body(m, ctx) ==> Self::spec_decode_body(pre + (((string_bytes(m.name, ctx.flexible))->Ok_0) + ((string_bytes(m.host, ctx.flexible))->Ok_0) + (u16_bytes(m.port)) + (if ctx.flexible { uvarint_bytes(0) } else { Seq::<u8>::empty() })) + post, pre.len() as int, ctx) == Ok::<(ListenerModel, int), SerializationError>((m, pre.len() as int + (((string_bytes(m.name, ctx.flexible))->Ok_0) + ((string_bytes(m.host, ctx.flexible))->Ok_0) + (u16_bytes(m.port)) + (if ctx.flexible { uvarint_bytes(0) } else { Seq::<u8>::empty() })).len())),
    {
        let b0 = (string_bytes(m.name, ctx.flexible))->Ok_0;
        let b1 = (string_bytes(m.host, ctx.flexible))->Ok_0;
        let b2 = u16_bytes(m.port);
        let b3 = if ctx.flexible { uvarint_bytes(0) } else { Seq::<u8>::empty() };
        let e = Self::spec_encode_body(m, ctx)->Ok_0;
        assert(e =~= Seq::<u8>::empty() + b0 + b1 + b2 + b3);
        assert(e =~= b0 + b1 + b2 + b3);
        if Self::reads_back_body(m, ctx) {
            Self::lemma_body_read_back(pre, m, post, ctx);
        }
    }

    /// Writing succeeds exactly when every field that the version carries can be
    /// encoded and every field that it leaves out, where leaving it out is an
    /// error, holds its default.
    #[verifier::spinoff_prover]
    pub proof fn lemma_body_write_succeeds(m: ListenerModel, ctx: Ctx)
        ensures
            Self::spec_encode_body(m, ctx) is Ok <==> (string_bytes(m.name, ctx.flexible) is Ok) && (string_bytes(m.host, ctx.flexible) is Ok),
    {
    }

    /// Writes the structure for `version`, with the compact encodings when `is_flexible`.
    /// On failure the buffer is left as it was.
    pub fn encode(&self, buf: &mut Vec<u8>, version: ApiVersion, is_flexible: bool) -> (r: Result<(), SerializationError>)
        ensures
            write_exact(r, old(buf)@, final(buf)@, Self::spec_encode_body(self.deep_view(), Ctx { version: version.0, flexible: is_flexible, classic: false })),
    {
        let start = buf.len();
        let r = self.encode_ctx(buf, Ctx::new(version, is_flexible));
        if r.is_err() {
            buf.truncate(start);
        }
        r
    }

    /// Reads the structure as written for `version`.
    /// On failure the reader is put back where it started.
    pub fn decode(buf: &mut Reader, version: ApiVersion, is_flexible: bool) -> (r: Result<Self, SerializationError>)
        ensures
            final(buf).bytes() == old(buf).bytes(),
            read_view_exact(r, Self::spec_decode_body(old(buf).bytes(), old(buf).pos(), Ctx { version: version.0, flexible: is_flexible, classic: false }), old(buf).pos(), final(buf).pos()),
    {
        let start = buf.position();
        let r = Self::decode_ctx(buf, Ctx::new(version, is_flexible));
        if r.is_err() {
            buf.set_position(start);
        }
        r
    }
}

impl KafkaCodec for Listener {
    open spec fn spec_encode(m: ListenerModel, ctx: Ctx) -> Result<Seq<u8>, SerializationError> {
        Self::spec_encode_body(m, ctx)
    }

    open spec fn spec_decode(s: Seq<u8>, pos: int, ctx: Ctx) -> Result<(ListenerModel, int), SerializationError> {
        Self::spec_decode_body(s, pos, ctx)
    }

    open spec fn reads_back(v: ListenerModel, ctx: Ctx) -> bool {
        Self::reads_back_body(v, ctx)
    }

    proof fn lemma_read_back(pre: Seq<u8>, v: ListenerModel, post: Seq<u8>, ctx: Ctx) {
        Self::lemma_body_read_back(pre, v, post, ctx);
        assert(Self::spec_decode(pre + Self::spec_encode(v, ctx)->Ok_0 + post, pre.len() as int, ctx)
            == Self::spec_decode_body(pre + Self::spec_encode_body(v, ctx)->Ok_0 + post, pre.len() as int, ctx));
    }

    fn encode_ctx(&self, buf: &mut Vec<u8>, ctx: Ctx) -> (r: Result<(), SerializationError>) {
        let ghost mut w: Seq<u8> = Seq::empty();
        encode_string(&self.name, buf, ctx.flexible)?;
        proof {
            w = w + (string_bytes(self.name.deep_view(), ctx.flexible))->Ok_0;
        }
        assert(buf@ =~= old(buf)@ + w);
        encode_string(&self.host, buf, ctx.flexible)?;
        proof {
            w = w + (string_bytes(self.host.deep_view(), ctx.flexible))->Ok_0;
        }
        assert(buf@ =~= old(buf)@ + w);
        put_u16(buf, self.port);
        proof {
            w = w + u16_bytes(self.port);
        }
        assert(buf@ =~= old(buf)@ + w);
        if ctx.flexible {
            encode_unsigned_varint(0, buf);
            proof {
                w = w + uvarint_bytes(0);
            }
            assert(buf@ =~= old(buf)@ + w);
        }
        Ok(())
    }

    fn decode_ctx(buf: &mut Reader, ctx: Ctx) -> (r: Result<Self, SerializationError>) {
        let name = buf.get_string(ctx.flexible)?;
        let host = buf.get_string(ctx.flexible)?;
        let port = buf.get_u16()?;
        if ctx.flexible {
            let (_tag_count, _) = decode_unsigned_varint(buf)?;
        }
        Ok(Listener { name, host, port })
    }
}

} // verus!
