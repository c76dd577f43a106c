//! DescribeClusterRequest (API key 60).
use vstd::prelude::*;
use crate::roundtrip::{lemma_bool_roundtrip, lemma_i8_roundtrip, lemma_seq_assoc,
    lemma_seq_empty_left, lemma_uvarint_roundtrip};
use crate::serialization::{Ctx, KafkaCodec, Reader, SerializationError, bool_bytes,
    decode_unsigned_varint, encode_unsigned_varint, i8_bytes, parse_bool, parse_i8, parse_uvarint,
    put_bool, put_i8, read_view_exact, read_view_ok, then, uvarint_bytes, write_exact, write_ok};
use crate::{ApiKey, ApiVersion};

verus! {

// -------------------------------------------------------
// DescribeClusterRequest
// -------------------------------------------------------
#[derive(Clone, Debug, PartialEq)]
pub struct DescribeClusterRequest {
    /// Whether to include cluster authorized operations.
    pub include_cluster_authorized_operations: bool,
    /// The endpoint type to describe. 1=brokers, 2=controllers.
    /// Available in version 1+.
    pub endpoint_type: i8,
    /// Whether to include fenced brokers when listing brokers.
    /// Available in version 2+.
    pub include_fenced_brokers: bool,
}

/// The contents of `DescribeClusterRequest`, with strings as characters and
/// nested values by their contents.
pub struct DescribeClusterRequestModel {
    pub include_cluster_authorized_operations: bool,
    pub endpoint_type: i8,
    pub include_fenced_brokers: bool,
}

impl DeepView for DescribeClusterRequest {
    type V = DescribeClusterRequestModel;

    open spec fn deep_view(&self) -> DescribeClusterRequestModel {
        DescribeClusterRequestModel {
            include_cluster_authorized_operations: self.include_cluster_authorized_operations,
            endpoint_type: self.endpoint_type,
            include_fenced_brokers: self.include_fenced_brokers,
        }
    }
}

impl Default for DescribeClusterRequest {
    fn default() -> (r: DescribeClusterRequest)
        ensures
            r.include_cluster_authorized_operations == false,
            r.endpoint_type == 1i8,
            r.include_fenced_brokers == false,
    {
        DescribeClusterRequest {
            include_cluster_authorized_operations: false,
            endpoint_type: 1i8,
            include_fenced_brokers: false,
        }
    }
}

impl DescribeClusterRequest {
    /// The encoding of the structure in context `ctx`.
    pub open spec fn spec_encode_body(m: DescribeClusterRequestModel, ctx: Ctx) -> Result<Seq<u8>, SerializationError> {
        let r = Ok(Seq::<u8>::empty());
        let r = then(r, Ok(bool_bytes(m.include_cluster_authorized_operations)));
        let r = if 1 <= ctx.version { then(r, Ok(i8_bytes(m.endpoint_type))) } else { r };
        let r = if 2 <= ctx.version { then(r, Ok(bool_bytes(m.include_fenced_brokers))) } else { r };
        let r = if ctx.flexible { then(r, Ok(uvarint_bytes(0))) } else { r };
        r
    }

    /// The structure read from `s` at `pos` in context `ctx`.
    pub open spec fn spec_decode_body(s: Seq<u8>, pos: int, ctx: Ctx) -> Result<(DescribeClusterRequestModel, int), SerializationError> {
        match parse_bool(s, pos) {
            Err(e) => Err(e),
            Ok((include_cluster_authorized_operations, pos)) =>
            match (if 1 <= ctx.version { parse_i8(s, pos) } else { Ok((1i8, pos)) }) {
                Err(e) => Err(e),
                Ok((endpoint_type, pos)) =>
                match (if 2 <= ctx.version { parse_bool(s, pos) } else { Ok((false, pos)) }) {
                    Err(e) => Err(e),
                    Ok((include_fenced_brokers, pos)) =>
                    match (if ctx.flexible { parse_uvarint(s, pos) } else { Ok((0u64, pos)) }) {
                        Err(e) => Err(e),
                        Ok((_tag_count, pos)) =>
                        Ok((DescribeClusterRequestModel { include_cluster_authorized_operations, endpoint_type, include_fenced_brokers }, pos))
                    }
                }
            }
        }
    }

    /// The structure as it reads back in context `ctx`: each field that the
    /// version leaves out is at its default.
    #[verifier::opaque]
    pub open spec fn spec_read_as(m: DescribeClusterRequestModel, ctx: Ctx) -> DescribeClusterRequestModel {
        DescribeClusterRequestModel { include_cluster_authorized_operations: m.include_cluster_authorized_operations, endpoint_type: if 1 <= ctx.version { m.endpoint_type } else { 1i8 }, include_fenced_brokers: if 2 <= ctx.version { m.include_fenced_brokers } else { false } }
    }

    /// Values that read back in context `ctx`: nested values read back. A field
    /// that the version leaves out is read as its default.
    pub open spec fn reads_back_body(m: DescribeClusterRequestModel, ctx: Ctx) -> bool {
        true
    }

    /// A value that can be written in context `ctx` and reads back: decoding its
    /// encoding, wherever it stands, gives the value as `spec_read_as` gives it and
    /// the position just after it.
    #[verifier::spinoff_prover]
    pub proof fn lemma_body_read_back(pre: Seq<u8>, m: DescribeClusterRequestModel, post: Seq<u8>, ctx: Ctx)
        requires
            Self::spec_encode_body(m, ctx) is Ok,
            Self::reads_back_body(m, ctx),
        ensures
            Self::spec_decode_body(pre + Self::spec_encode_body(m, ctx)->Ok_0 + post, pre.len() as int, ctx) == Ok::<(DescribeClusterRequestModel, int), SerializationError>((Self::spec_read_as(m, ctx), pre.len() as int + Self::spec_encode_body(m, ctx)->Ok_0.len())),
    {
        reveal(DescribeClusterRequest::spec_read_as);
        let b0 = bool_bytes(m.include_cluster_authorized_operations);
        let b1 = if 1 <= ctx.version { i8_bytes(m.endpoint_type) } else { Seq::<u8>::empty() };
        let b2 = if 2 <= ctx.version { bool_bytes(m.include_fenced_brokers) } else { Seq::<u8>::empty() };
        let b3 = if ctx.flexible { uvarint_bytes(0) } else { Seq::<u8>::empty() };
        let t4 = post;
        let t3 = b3 + t4;
        let t2 = b2 + t3;
        let t1 = b1 + t2;
        let t0 = b0 + t1;
        let e = Self::spec_encode_body(m, ctx)->Ok_0;
        assert(e =~= Seq::<u8>::empty() + b0 + b1 + b2 + b3);
        lemma_seq_assoc((((Seq::<u8>::empty() + b0) + b1) + b2), b3, post);
        lemma_seq_assoc(((Seq::<u8>::empty() + b0) + b1), b2, (b3 + post));
        lemma_seq_assoc((Seq::<u8>::empty() + b0), b1, (b2 + (b3 + post)));
        lemma_seq_assoc(Seq::<u8>::empty(), b0, (b1 + (b2 + (b3 + post))));
        lemma_seq_empty_left((b0 + (b1 + (b2 + (b3 + post)))));
        let s = pre + e + post;
        lemma_seq_assoc(pre, e, post);
        assert(s == pre + t0);
        let a0 = pre;
        assert(parse_bool(s, a0.len() as int) == Ok::<(bool, int), SerializationError>((m.include_cluster_authorized_operations, a0.len() as int + b0.len()))) by {
            lemma_seq_assoc(a0, b0, t1);
            lemma_bool_roundtrip(a0, m.include_cluster_authorized_operations, t1);
        }
        lemma_seq_assoc(a0, b0, t1);
        let a1 = a0 + b0;
        if 1 <= ctx.version {
            assert(parse_i8(s, a1.len() as int) == Ok::<(i8, int), SerializationError>((m.endpoint_type, a1.len() as int + b1.len()))) by {
                lemma_seq_assoc(a1, b1, t2);
                lemma_i8_roundtrip(a1, m.endpoint_type, t2);
            }
        }
        lemma_seq_assoc(a1, b1, t2);
        let a2 = a1 + b1;
        if 2 <= ctx.version {
            assert(parse_bool(s, a2.len() as int) == Ok::<(bool, int), SerializationError>((m.include_fenced_brokers, a2.len() as int + b2.len()))) by {
                lemma_seq_assoc(a2, b2, t3);
                lemma_bool_roundtrip(a2, m.include_fenced_brokers, t3);
            }
        }
        lemma_seq_assoc(a2, b2, t3);
        let a3 = a2 + b2;
        if ctx.flexible {
            assert(parse_uvarint(s, a3.len() as int) == Ok::<(u64, int), SerializationError>((0u64, a3.len() as int + b3.len()))) by {
                lemma_seq_assoc(a3, b3, t4);
                lemma_uvarint_roundtrip(a3, 0, t4);
            }
        }
    }

    /// The bytes written: the encoding of each field, in the order of the
    /// protocol's layout. Reading them back, wherever they stand, gives the value,
    /// with each field that the version leaves out at its default.
    #[verifier::spinoff_prover]
    pub proof fn lemma_body_layout(pre: Seq<u8>, m: DescribeClusterRequestModel, post: Seq<u8>, ctx: Ctx)
        requires
            Self::spec_encode_body(m, ctx) is Ok,
        ensures
            Self::spec_encode_body(m, ctx) == Ok::<Seq<u8>, SerializationError>((bool_bytes(m.include_cluster_authorized_operations)) + (if 1 <= ctx.version { i8_bytes(m.endpoint_type) } else { Seq::<u8>::empty() }) + (if 2 <= ctx.version { bool_bytes(m.include_fenced_brokers) } else { Seq::<u8>::empty() }) + (if ctx.flexible { uvarint_bytes(0) } else { Seq::<u8>::empty() })),
            Self::reads_back_body(m, ctx) ==> Self::spec_decode_body(pre + ((bool_bytes(m.include_cluster_authorized_operations)) + (if 1 <= ctx.version { i8_bytes(m.endpoint_type) } else { Seq::<u8>::empty() }) + (if 2 <= ctx.version { bool_bytes(m.include_fenced_brokers) } else { Seq::<u8>::empty() }) + (if ctx.flexible { uvarint_bytes(0) } else { Seq::<u8>::empty() })) + post, pre.len() as int, ctx) == Ok::<(DescribeClusterRequestModel, int), SerializationError>((DescribeClusterRequestModel { include_cluster_authorized_operations: m.include_cluster_authorized_operations, endpoint_type: if 1 <= ctx.version { m.endpoint_type } else { 1i8 }, include_fenced_brokers: if 2 <= ctx.version { m.include_fenced_brokers } else { false } }, pre.len() as int + ((bool_bytes(m.include_cluster_authorized_operations)) + (if 1 <= ctx.version { i8_bytes(m.endpoint_type) } else { Seq::<u8>::empty() }) + (if 2 <= ctx.version { bool_bytes(m.include_fenced_brokers) } else { Seq::<u8>::empty() }) + (if ctx.flexible { uvarint_bytes(0) } else { Seq::<u8>::empty() })).len())),
    {
        let b0 = bool_bytes(m.include_cluster_authorized_operations);
        let b1 = if 1 <= ctx.version { i8_bytes(m.endpoint_type) } else { Seq::<u8>::empty() };
        let b2 = if 2 <= ctx.version { bool_bytes(m.include_fenced_brokers) } else { Seq::<u8>::empty() };
        let b3 = if ctx.flexible { uvarint_bytes(0) } else { Seq::<u8>::empty() };
        let e = Self::spec_encode_body(m, ctx)->Ok_0;
        assert(e =~= Seq::<u8>::empty() + b0 + b1 + b2 + b3);
        assert(e =~= b0 + b1 + b2 + b3);
        if Self::reads_back_body(m, ctx) {
            Self::lemma_body_read_back(pre, m, post, ctx);
            reveal(DescribeClusterRequest::spec_read_as);
        }
    }

    /// Writing succeeds exactly when every field that the version carries can be
    /// encoded and every field that it leaves out, where leaving it out is an
    /// error, holds its default.
    #[verifier::spinoff_prover]
    pub proof fn lemma_body_write_succeeds(m: DescribeClusterRequestModel, ctx: Ctx)
        ensures
            Self::spec_encode_body(m, ctx) is Ok <==> true,
    {
    }

    /// Writes the structure for `version`, with the compact encodings when `is_flexible`.
    /// On failure the buffer is left as it was.
    pub fn encode(&self, buf: &mut Vec<u8>, version: ApiVersion, is_flexible: bool) -> (r: Result<(), SerializationError>)
        ensures
            write_exact(r, old(buf)@, final(buf)@, Self::spec_encode_body(self.deep_view(), Ctx { version: version.0, flexible: is_flexible, classic: false })),
    {
        let start = buf.len();
        let r = self.encode_ctx(buf, Ctx::new(version, is_flexible));
        if r.is_err() {
            buf.truncate(start);
        }
        r
    }

    /// Reads the structure as written for `version`.
    /// On failure the reader is put back where it started.
    pub fn decode(buf: &mut Reader, version: ApiVersion, is_flexible: bool) -> (r: Result<Self, SerializationError>)
        ensures
            final(buf).bytes() == old(buf).bytes(),
            read_view_exact(r, Self::spec_decode_body(old(buf).bytes(), old(buf).pos(), Ctx { version: version.0, flexible: is_flexible, classic: false }), old(buf).pos(), final(buf).pos()),
    {
        let start = buf.position();
        let r = Self::decode_ctx(buf, Ctx::new(version, is_flexible));
        if r.is_err() {
            buf.set_position(start);
        }
        r
    }
}

impl KafkaCodec for DescribeClusterRequest {
    open spec fn spec_encode(m: DescribeClusterRequestModel, ctx: Ctx) -> Result<Seq<u8>, SerializationError> {
        Self::spec_encode_body(m, ctx)
    }

    open spec fn spec_decode(s: Seq<u8>, pos: int, ctx: Ctx) -> Result<(DescribeClusterRequestModel, int), SerializationError> {
        Self::spec_decode_body(s, pos, ctx)
    }

    open spec fn reads_back(v: DescribeClusterRequestModel, ctx: Ctx) -> bool {
        Self::reads_back_body(v, ctx) && Self::spec_read_as(v, ctx) == v
    }

    proof fn lemma_read_back(pre: Seq<u8>, v: DescribeClusterRequestModel, post: Seq<u8>, ctx: Ctx) {
        Self::lemma_body_read_back(pre, v, post, ctx);
        assert(Self::spec_decode(pre + Self::spec_encode(v, ctx)->Ok_0 + post, pre.len() as int, ctx)
            == Self::spec_decode_body(pre + Self::spec_encode_body(v, ctx)->Ok_0 + post, pre.len() as int, ctx));
    }

    fn encode_ctx(&self, buf: &mut Vec<u8>, ctx: Ctx) -> (r: Result<(), SerializationError>) {
        let ghost mut w: Seq<u8> = Seq::empty();
        put_bool(buf, self.include_cluster_authorized_operations);
        proof {
            w = w + bool_bytes(self.include_cluster_authorized_operations);
        }
        assert(buf@ =~= old(buf)@ + w);
        if 1 <= ctx.version {
            put_i8(buf, self.endpoint_type);
            proof {
                w = w + i8_bytes(self.endpoint_type);
            }
            assert(buf@ =~= old(buf)@ + w);
        }
        if 2 <= ctx.version {
            put_bool(buf, self.include_fenced_brokers);
            proof {
                w = w + bool_bytes(self.include_fenced_brokers);
            }
            assert(buf@ =~= old(buf)@ + w);
        }
        if ctx.flexible {
            encode_unsigned_varint(0, buf);
            proof {
                w = w + uvarint_bytes(0);
            }
            assert(buf@ =~= old(buf)@ + w);
        }
        Ok(())
    }

    fn decode_ctx(buf: &mut Reader, ctx: Ctx) -> (r: Result<Self, SerializationError>) {
        let include_cluster_authorized_operations = buf.get_bool()?;
        let endpoint_type = if 1 <= ctx.version {
            buf.get_i8()?
        } else {
            1i8
        };
        let include_fenced_brokers = if 2 <= ctx.version {
            buf.get_bool()?
        } else {
            false
        };
        if ctx.flexible {
            let (_tag_count, _) = decode_unsigned_varint(buf)?;
        }
        Ok(DescribeClusterRequest { include_cluster_authorized_operations, endpoint_type, include_fenced_brokers })
    }
}

impl DescribeClusterRequest {
    /// The API key of this message.
    pub fn get_api_key() -> (r: ApiKey)
        ensures
            r.0 == 60,
    {
        ApiKey::new(60)
    }

    /// The oldest version of this message.
    pub fn get_min_supported_version() -> (r: ApiVersion)
        ensures
            r.0 == 0,
    {
        ApiVersion::new(0)
    }

    /// The newest version of this message.
    pub fn get_max_supported_version() -> (r: ApiVersion)
        ensures
            r.0 == 2,
    {
        ApiVersion::new(2)
    }

    /// The first version of this message with the compact encodings.
    pub fn get_min_flexible_version() -> (r: ApiVersion)
        ensures
            r.0 == 0,
    {
        ApiVersion::new(0)
    }

    /// The encoding of a whole message body at `version`.
    pub open spec fn spec_serialize(m: DescribeClusterRequestModel, version: i16) -> Result<Seq<u8>, SerializationError> {
        let is_flexible = version >= 0;
        let ctx = Ctx { version, flexible: is_flexible, classic: false };
        let r = Ok(Seq::<u8>::empty());
        let r = then(r, Ok(bool_bytes(m.include_cluster_authorized_operations)));
        let r = if 1 <= ctx.version { then(r, Ok(i8_bytes(m.endpoint_type))) } else if m.endpoint_type != 1 { then(r, Err(SerializationError::FieldNotAvailable { field: "EndpointType", version: ctx.version, api_name: "DescribeClusterRequest" })) } else { r };
        let r = if 2 <= ctx.version { then(r, Ok(bool_bytes(m.include_fenced_brokers))) } else if m.include_fenced_brokers { then(r, Err(SerializationError::FieldNotAvailable { field: "IncludeFencedBrokers", version: ctx.version, api_name: "DescribeClusterRequest" })) } else { r };
        let r = if ctx.flexible { then(r, Ok(uvarint_bytes(0))) } else { r };
        r
    }

    /// The message body read at `version`.
    pub open spec fn spec_deserialize(s: Seq<u8>, pos: int, version: i16) -> Result<(DescribeClusterRequestModel, int), SerializationError> {
        let is_flexible = version >= 0;
        let ctx = Ctx { version, flexible: is_flexible, classic: false };
        match parse_bool(s, pos) {
            Err(e) => Err(e),
            Ok((include_cluster_authorized_operations, pos)) =>
            match (if 1 <= ctx.version { parse_i8(s, pos) } else { Ok((1i8, pos)) }) {
                Err(e) => Err(e),
                Ok((endpoint_type, pos)) =>
                match (if 2 <= ctx.version { parse_bool(s, pos) } else { Ok((false, pos)) }) {
                    Err(e) => Err(e),
                    Ok((include_fenced_brokers, pos)) =>
                    match (if ctx.flexible { parse_uvarint(s, pos) } else { Ok((0u64, pos)) }) {
                        Err(e) => Err(e),
                        Ok((_tag_count, pos)) =>
                        Ok((DescribeClusterRequestModel { include_cluster_authorized_operations, endpoint_type, include_fenced_brokers }, pos))
                    }
                }
            }
        }
    }

    /// Message bodies that read back when written at `version`: nested values read
    /// back. A field that the version leaves out is read as its default.
    pub open spec fn reads_back_message(m: DescribeClusterRequestModel, version: i16) -> bool {
        let is_flexible = version >= 0;
        let ctx = Ctx { version, flexible: is_flexible, classic: false };
        true
    }

    /// A message body that can be written at `version` and reads back: reading a
    /// body at `version` from its bytes, wherever they stand, gives the same message,
    /// with each field that the version leaves out at its default.
    #[verifier::spinoff_prover]
    pub proof fn lemma_message_read_back(pre: Seq<u8>, m: DescribeClusterRequestModel, post: Seq<u8>, version: i16)
        requires
            Self::spec_serialize(m, version) is Ok,
            Self::reads_back_message(m, version),
        ensures
            Self::spec_deserialize(pre + Self::spec_serialize(m, version)->Ok_0 + post, pre.len() as int, version) == Ok::<(DescribeClusterRequestModel, int), SerializationError>((DescribeClusterRequestModel { include_cluster_authorized_operations: m.include_cluster_authorized_operations, endpoint_type: if 1 <= version { m.endpoint_type } else { 1i8 }, include_fenced_brokers: if 2 <= version { m.include_fenced_brokers } else { false } }, pre.len() as int + Self::spec_serialize(m, version)->Ok_0.len())),
    {
        let is_flexible = version >= 0;
        let ctx = Ctx { version, flexible: is_flexible, classic: false };
        let b0 = bool_bytes(m.include_cluster_authorized_operations);
        let b1 = if 1 <= ctx.version { i8_bytes(m.endpoint_type) } else { Seq::<u8>::empty() };
        let b2 = if 2 <= ctx.version { bool_bytes(m.include_fenced_brokers) } else { Seq::<u8>::empty() };
        let b3 = if ctx.flexible { uvarint_bytes(0) } else { Seq::<u8>::empty() };
        let t4 = post;
        let t3 = b3 + t4;
        let t2 = b2 + t3;
        let t1 = b1 + t2;
        let t0 = b0 + t1;
        let e = Self::spec_serialize(m, version)->Ok_0;
        assert(e =~= Seq::<u8>::empty() + b0 + b1 + b2 + b3);
        lemma_seq_assoc((((Seq::<u8>::empty() + b0) + b1) + b2), b3, post);
        lemma_seq_assoc(((Seq::<u8>::empty() + b0) + b1), b2, (b3 + post));
        lemma_seq_assoc((Seq::<u8>::empty() + b0), b1, (b2 + (b3 + post)));
        lemma_seq_assoc(Seq::<u8>::empty(), b0, (b1 + (b2 + (b3 + post))));
        lemma_seq_empty_left((b0 + (b1 + (b2 + (b3 + post)))));
        let s = pre + e + post;
        lemma_seq_assoc(pre, e, post);
        assert(s == pre + t0);
        let a0 = pre;
        assert(parse_bool(s, a0.len() as int) == Ok::<(bool, int), SerializationError>((m.include_cluster_authorized_operations, a0.len() as int + b0.len()))) by {
            lemma_seq_assoc(a0, b0, t1);
            lemma_bool_roundtrip(a0, m.include_cluster_authorized_operations, t1);
        }
        lemma_seq_assoc(a0, b0, t1);
        let a1 = a0 + b0;
        if 1 <= ctx.version {
            assert(parse_i8(s, a1.len() as int) == Ok::<(i8, int), SerializationError>((m.endpoint_type, a1.len() as int + b1.len()))) by {
                lemma_seq_assoc(a1, b1, t2);
                lemma_i8_roundtrip(a1, m.endpoint_type, t2);
            }
        }
        lemma_seq_assoc(a1, b1, t2);
        let a2 = a1 + b1;
        if 2 <= ctx.version {
            assert(parse_bool(s, a2.len() as int) == Ok::<(bool, int), SerializationError>((m.include_fenced_brokers, a2.len() as int + b2.len()))) by {
                lemma_seq_assoc(a2, b2, t3);
                lemma_bool_roundtrip(a2, m.include_fenced_brokers, t3);
            }
        }
        lemma_seq_assoc(a2, b2, t3);
        let a3 = a2 + b2;
        if ctx.flexible {
            assert(parse_uvarint(s, a3.len() as int) == Ok::<(u64, int), SerializationError>((0u64, a3.len() as int + b3.len()))) by {
                lemma_seq_assoc(a3, b3, t4);
                lemma_uvarint_roundtrip(a3, 0, t4);
            }
        }
    }

    /// The bytes written: the encoding of each field, in the order of the
    /// protocol's layout. Reading them back, wherever they stand, gives the value,
    /// with each field that the version leaves out at its default.
    #[verifier::spinoff_prover]
    pub proof fn lemma_message_layout(pre: Seq<u8>, m: DescribeClusterRequestModel, post: Seq<u8>, version: i16)
        requires
            Self::spec_serialize(m, version) is Ok,
        ensures
            Self::spec_serialize(m, version) == Ok::<Seq<u8>, SerializationError>((bool_bytes(m.include_cluster_authorized_operations)) + (if 1 <= version { i8_bytes(m.endpoint_type) } else { Seq::<u8>::empty() }) + (if 2 <= version { bool_bytes(m.include_fenced_brokers) } else { Seq::<u8>::empty() }) + (if (version >= 0) { uvarint_bytes(0) } else { Seq::<u8>::empty() })),
            Self::reads_back_message(m, version) ==> Self::spec_deserialize(pre + ((bool_bytes(m.include_cluster_authorized_operations)) + (if 1 <= version { i8_bytes(m.endpoint_type) } else { Seq::<u8>::empty() }) + (if 2 <= version { bool_bytes(m.include_fenced_brokers) } else { Seq::<u8>::empty() }) + (if (version >= 0) { uvarint_bytes(0) } else { Seq::<u8>::empty() })) + post, pre.len() as int, version) == Ok::<(DescribeClusterRequestModel, int), SerializationError>((DescribeClusterRequestModel { include_cluster_authorized_operations: m.include_cluster_authorized_operations, endpoint_type: if 1 <= version { m.endpoint_type } else { 1i8 }, include_fenced_brokers: if 2 <= version { m.include_fenced_brokers } else { false } }, pre.len() as int + ((bool_bytes(m.include_cluster_authorized_operations)) + (if 1 <= version { i8_bytes(m.endpoint_type) } else { Seq::<u8>::empty() }) + (if 2 <= version { bool_bytes(m.include_fenced_brokers) } else { Seq::<u8>::empty() }) + (if (version >= 0) { uvarint_bytes(0) } else { Seq::<u8>::empty() })).len())),
    {
        let is_flexible = version >= 0;
        let ctx = Ctx { version, flexible: is_flexible, classic: false };
        let b0 = bool_bytes(m.include_cluster_authorized_operations);
        let b1 = if 1 <= ctx.version { i8_bytes(m.endpoint_type) } else { Seq::<u8>::empty() };
        let b2 = if 2 <= ctx.version { bool_bytes(m.include_fenced_brokers) } else { Seq::<u8>::empty() };
        let b3 = if ctx.flexible { uvarint_bytes(0) } else { Seq::<u8>::empty() };
        let e = Self::spec_serialize(m, version)->Ok_0;
        assert(e =~= Seq::<u8>::empty() + b0 + b1 + b2 + b3);
        assert(e =~= b0 + b1 + b2 + b3);
        if Self::reads_back_message(m, version) {
            Self::lemma_message_read_back(pre, m, post, version);
        }
    }

    /// Writing succeeds exactly when every field that the version carries can be
    /// encoded and every field that it leaves out, where leaving it out is an
    /// error, holds its default.
    #[verifier::spinoff_prover]
    pub proof fn lemma_message_write_succeeds(m: DescribeClusterRequestModel, version: i16)
        ensures
            Self::spec_serialize(m, version) is Ok <==> (!(1 <= version) ==> !(m.endpoint_type != 1)) && (!(2 <= version) ==> !(m.include_fenced_brokers)),
    {
        let is_flexible = version >= 0;
        let ctx = Ctx { version, flexible: is_flexible, classic: false };
    }

    /// Writes the message body for `version`, which must be a supported version.
    /// On failure the buffer is left as it was.
    pub fn serialize(&self, version: ApiVersion, buf: &mut Vec<u8>) -> (r: Result<(), SerializationError>)
        requires
            0 <= version.0 <= 2,
        ensures
            write_exact(r, old(buf)@, final(buf)@, Self::spec_serialize(self.deep_view(), version.0)),
    {
        let start = buf.len();
        let r = self.write_body(version, buf);
        if r.is_err() {
            buf.truncate(start);
        }
        r
    }

    fn write_body(&self, version: ApiVersion, buf: &mut Vec<u8>) -> (r: Result<(), SerializationError>)
        requires
            0 <= version.0 <= 2,
        ensures
            write_ok(r, old(buf)@, final(buf)@, Self::spec_serialize(self.deep_view(), version.0)),
    {
        let is_flexible = version.0 >= Self::get_min_flexible_version().0;
        let ctx = Ctx::new(version, is_flexible);
        let ghost mut w: Seq<u8> = Seq::empty();
        put_bool(buf, self.include_cluster_authorized_operations);
        proof {
            w = w + bool_bytes(self.include_cluster_authorized_operations);
        }
        assert(buf@ =~= old(buf)@ + w);
        if 1 <= ctx.version {
            put_i8(buf, self.endpoint_type);
            proof {
                w = w + i8_bytes(self.endpoint_type);
            }
            assert(buf@ =~= old(buf)@ + w);
        } else if self.endpoint_type != 1 {
            return Err(SerializationError::FieldNotAvailable { field: "EndpointType", version: ctx.version, api_name: "DescribeClusterRequest" });
        }
        if 2 <= ctx.version {
            put_bool(buf, self.include_fenced_brokers);
            proof {
                w = w + bool_bytes(self.include_fenced_brokers);
            }
            assert(buf@ =~= old(buf)@ + w);
        } else if self.include_fenced_brokers {
            return Err(SerializationError::FieldNotAvailable { field: "IncludeFencedBrokers", version: ctx.version, api_name: "DescribeClusterRequest" });
        }
        if ctx.flexible {
            encode_unsigned_varint(0, buf);
            proof {
                w = w + uvarint_bytes(0);
            }
            assert(buf@ =~= old(buf)@ + w);
        }
        Ok(())
    }

    /// Reads a message body written for `version`.
    /// On failure the reader is put back where it started.
    pub fn deserialize(version: ApiVersion, buf: &mut Reader) -> (r: Result<Self, SerializationError>)
        ensures
            final(buf).bytes() == old(buf).bytes(),
            read_view_exact(r, Self::spec_deserialize(old(buf).bytes(), old(buf).pos(), version.0), old(buf).pos(), final(buf).pos()),
    {
        let start = buf.position();
        let r = Self::read_body(version, buf);
        if r.is_err() {
            buf.set_position(start);
        }
        r
    }

    fn read_body(version: ApiVersion, buf: &mut Reader) -> (r: Result<Self, SerializationError>)
        ensures
            final(buf).bytes() == old(buf).bytes(),
            read_view_ok(r, Self::spec_deserialize(old(buf).bytes(), old(buf).pos(), version.0), final(buf).pos()),
    {
        let is_flexible = version.0 >= Self::get_min_flexible_version().0;
        let ctx = Ctx::new(version, is_flexible);
        let include_cluster_authorized_operations = buf.get_bool()?;
        let endpoint_type = if 1 <= ctx.version {
            buf.get_i8()?
        } else {
            1i8
        };
        let include_fenced_brokers = if 2 <= ctx.version {
            buf.get_bool()?
        } else {
            false
        };
        if ctx.flexible {
            let (_tag_count, _) = decode_unsigned_varint(buf)?;
        }
        Ok(DescribeClusterRequest { include_cluster_authorized_operations, endpoint_type, include_fenced_brokers })
    }
}

} // verus!
