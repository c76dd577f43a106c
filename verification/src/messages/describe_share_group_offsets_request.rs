//! DescribeShareGroupOffsetsRequest (API key 90).
use vstd::prelude::*;
use crate::roundtrip::{lemma_array_roundtrip, lemma_items_read_back,
    lemma_nullable_array_roundtrip, lemma_seq_assoc, lemma_seq_empty_left, lemma_string_roundtrip,
    lemma_uvarint_roundtrip};
use crate::serialization::{Ctx, KafkaCodec, Reader, SerializationError, array_bytes, decode_array,
    decode_nullable_array, decode_unsigned_varint, encode_array, encode_nullable_array,
    encode_string, encode_unsigned_varint, lemma_array_bytes_agree, lemma_parse_array_agree,
    map_decode_err, map_encode_err, nullable_array_bytes, parse_array, parse_nullable_array,
    parse_string, parse_uvarint, read_view_exact, read_view_ok, string_bytes, then, uvarint_bytes,
    write_exact, write_ok};
use crate::{ApiKey, ApiVersion};

verus! {

// -------------------------------------------------------
// DescribeShareGroupOffsetsRequest
// -------------------------------------------------------
#[derive(Clone, Debug, Default, PartialEq)]
pub struct DescribeShareGroupOffsetsRequest {
    /// The groups to describe offsets for.
    pub groups: Vec<DescribeShareGroupOffsetsRequestGroup>,
}

/// The contents of `DescribeShareGroupOffsetsRequest`, with strings as characters and
/// nested values by their contents.
pub struct DescribeShareGroupOffsetsRequestModel {
    pub groups: Seq<<DescribeShareGroupOffsetsRequestGroup as DeepView>::V>,
}

impl DeepView for DescribeShareGroupOffsetsRequest {
    type V = DescribeShareGroupOffsetsRequestModel;

    open spec fn deep_view(&self) -> DescribeShareGroupOffsetsRequestModel {
        DescribeShareGroupOffsetsRequestModel {
            groups: self.groups.deep_view(),
        }
    }
}

impl DescribeShareGroupOffsetsRequest {
    /// The classic encoding of the structure.
    pub open spec fn spec_encode_classic(m: DescribeShareGroupOffsetsRequestModel) -> Result<Seq<u8>, SerializationError> {
        let r = Ok(Seq::<u8>::empty());
        let r = then(r, map_encode_err(array_bytes::<DescribeShareGroupOffsetsRequestGroup>(m.groups, Ctx { version: 0, flexible: false, classic: true }), SerializationError::ValueTooLarge { message: "failed to encode Groups" }));
        r
    }

    /// The flexible-aware encoding of the structure.
    pub open spec fn spec_encode_flexible(m: DescribeShareGroupOffsetsRequestModel, is_flexible: bool) -> Result<Seq<u8>, SerializationError> {
        let r = Ok(Seq::<u8>::empty());
        let r = then(r, map_encode_err(array_bytes::<DescribeShareGroupOffsetsRequestGroup>(m.groups, Ctx { version: 0, flexible: is_flexible, classic: false }), SerializationError::ValueTooLarge { message: "failed to encode Groups" }));
        let r = if is_flexible { then(r, Ok(uvarint_bytes(0))) } else { r };
        r
    }

    /// The structure read by the classic decoder.
    pub open spec fn spec_decode_classic(s: Seq<u8>, pos: int) -> Result<(DescribeShareGroupOffsetsRequestModel, int), SerializationError> {
        match map_decode_err(parse_array::<DescribeShareGroupOffsetsRequestGroup>(s, pos, Ctx { version: 0, flexible: false, classic: true }), SerializationError::Protocol { message: "failed to decode Groups" }) {
            Err(e) => Err(e),
            Ok((groups, pos)) =>
            Ok((DescribeShareGroupOffsetsRequestModel { groups }, pos))
        }
    }

    /// The structure read by the flexible-aware decoder.
    pub open spec fn spec_decode_flexible(s: Seq<u8>, pos: int, is_flexible: bool) -> Result<(DescribeShareGroupOffsetsRequestModel, int), SerializationError> {
        match map_decode_err(parse_array::<DescribeShareGroupOffsetsRequestGroup>(s, pos, Ctx { version: 0, flexible: is_flexible, classic: false }), SerializationError::Protocol { message: "failed to decode Groups" }) {
            Err(e) => Err(e),
            Ok((groups, pos)) =>
            match (if is_flexible { parse_uvarint(s, pos) } else { Ok((0u64, pos)) }) {
                Err(e) => Err(e),
                Ok((_tag_count, pos)) =>
                Ok((DescribeShareGroupOffsetsRequestModel { groups }, pos))
            }
        }
    }

    /// Values of the structure that read back from their classic encoding:
    /// nested values read back.
    pub open spec fn reads_back_classic(m: DescribeShareGroupOffsetsRequestModel) -> bool {
        &&& forall|i: int| 0 <= i < m.groups.len() ==> #[trigger] <DescribeShareGroupOffsetsRequestGroup as KafkaCodec>::reads_back(m.groups[i], Ctx { version: 0, flexible: false, classic: true })
    }

    /// A value that can be written and reads back: decoding its encoding, wherever
    /// it stands, gives the value and the position just after it.
    #[verifier::spinoff_prover]
    pub proof fn lemma_classic_read_back(pre: Seq<u8>, m: DescribeShareGroupOffsetsRequestModel, post: Seq<u8>)
        requires
            Self::spec_encode_classic(m) is Ok,
            Self::reads_back_classic(m),
        ensures
            Self::spec_decode_classic(pre + Self::spec_encode_classic(m)->Ok_0 + post, pre.len() as int) == Ok::<(DescribeShareGroupOffsetsRequestModel, int), SerializationError>((m, pre.len() as int + Self::spec_encode_classic(m)->Ok_0.len())),
    {
        let b0 = (array_bytes::<DescribeShareGroupOffsetsRequestGroup>(m.groups, Ctx { version: 0, flexible: false, classic: true }))->Ok_0;
        let t1 = post;
        let t0 = b0 + t1;
        let e = Self::spec_encode_classic(m)->Ok_0;
        assert(e =~= Seq::<u8>::empty() + b0);
        lemma_seq_assoc(Seq::<u8>::empty(), b0, post);
        lemma_seq_empty_left((b0 + post));
        let s = pre + e + post;
        lemma_seq_assoc(pre, e, post);
        assert(s == pre + t0);
        let a0 = pre;
        assert(parse_array::<DescribeShareGroupOffsetsRequestGroup>(s, a0.len() as int, Ctx { version: 0, flexible: false, classic: true }) == Ok::<(Seq<<DescribeShareGroupOffsetsRequestGroup as DeepView>::V>, int), SerializationError>((m.groups, a0.len() as int + b0.len()))) by {
            assert(array_bytes::<DescribeShareGroupOffsetsRequestGroup>(m.groups, Ctx { version: 0, flexible: false, classic: true }) is Ok);
            lemma_seq_assoc(a0, b0, t1);
            lemma_items_read_back::<DescribeShareGroupOffsetsRequestGroup>(m.groups, Ctx { version: 0, flexible: false, classic: true });
            lemma_array_roundtrip::<DescribeShareGroupOffsetsRequestGroup>(a0, m.groups, t1, Ctx { version: 0, flexible: false, classic: true });
        }
    }

    /// The bytes written: the encoding of each field, in the order of the
    /// protocol's layout. Reading them back, wherever they stand, gives the value,
    /// with each field that the version leaves out at its default.
    #[verifier::spinoff_prover]
    pub proof fn lemma_classic_layout(pre: Seq<u8>, m: DescribeShareGroupOffsetsRequestModel, post: Seq<u8>)
        requires
            Self::spec_encode_classic(m) is Ok,
        ensures
            Self::spec_encode_classic(m) == Ok::<Seq<u8>, SerializationError>(((array_bytes::<DescribeShareGroupOffsetsRequestGroup>(m.groups, Ctx { version: 0, flexible: false, classic: true }))->Ok_0)),
            Self::reads_back_classic(m) ==> Self::spec_decode_classic(pre + (((array_bytes::<DescribeShareGroupOffsetsRequestGroup>(m.groups, Ctx { version: 0, flexible: false, classic: true }))->Ok_0)) + post, pre.len() as int) == Ok::<(DescribeShareGroupOffsetsRequestModel, int), SerializationError>((m, pre.len() as int + (((array_bytes::<DescribeShareGroupOffsetsRequestGroup>(m.groups, Ctx { version: 0, flexible: false, classic: true }))->Ok_0)).len())),
    {
        let b0 = (array_bytes::<DescribeShareGroupOffsetsRequestGroup>(m.groups, Ctx { version: 0, flexible: false, classic: true }))->Ok_0;
        let e = Self::spec_encode_classic(m)->Ok_0;
        assert(e =~= Seq::<u8>::empty() + b0);
        assert(e =~= b0);
        if Self::reads_back_classic(m) {
            Self::lemma_classic_read_back(pre, m, post);
        }
    }

    /// Writing succeeds exactly when every field that the version carries can be
    /// encoded and every field that it leaves out, where leaving it out is an
    /// error, holds its default.
    #[verifier::spinoff_prover]
    pub proof fn lemma_classic_write_succeeds(m: DescribeShareGroupOffsetsRequestModel)
        ensures
            Self::spec_encode_classic(m) is Ok <==> (map_encode_err(array_bytes::<DescribeShareGroupOffsetsRequestGroup>(m.groups, Ctx { version: 0, flexible: false, classic: true }), SerializationError::ValueTooLarge { message: "failed to encode Groups" }) is Ok),
    {
    }

    /// Values of the structure that read back from their flexible-aware encoding:
    /// nested values read back.
    pub open spec fn reads_back_flexible(m: DescribeShareGroupOffsetsRequestModel, is_flexible: bool) -> bool {
        &&& forall|i: int| 0 <= i < m.groups.len() ==> #[trigger] <DescribeShareGroupOffsetsRequestGroup as KafkaCodec>::reads_back(m.groups[i], Ctx { version: 0, flexible: is_flexible, classic: false })
    }

    /// A value that can be written and reads back: decoding its encoding, wherever
    /// it stands, gives the value and the position just after it.
    #[verifier::spinoff_prover]
    pub proof fn lemma_flexible_read_back(pre: Seq<u8>, m: DescribeShareGroupOffsetsRequestModel, post: Seq<u8>, is_flexible: bool)
        requires
            Self::spec_encode_flexible(m, is_flexible) is Ok,
            Self::reads_back_flexible(m, is_flexible),
        ensures
            Self::spec_decode_flexible(pre + Self::spec_encode_flexible(m, is_flexible)->Ok_0 + post, pre.len() as int, is_flexible) == Ok::<(DescribeShareGroupOffsetsRequestModel, int), SerializationError>((m, pre.len() as int + Self::spec_encode_flexible(m, is_flexible)->Ok_0.len())),
    {
        let b0 = (array_bytes::<DescribeShareGroupOffsetsRequestGroup>(m.groups, Ctx { version: 0, flexible: is_flexible, classic: false }))->Ok_0;
        let b1 = if is_flexible { uvarint_bytes(0) } else { Seq::<u8>::empty() };
        let t2 = post;
        let t1 = b1 + t2;
        let t0 = b0 + t1;
        let e = Self::spec_encode_flexible(m, is_flexible)->Ok_0;
        assert(e =~= Seq::<u8>::empty() + b0 + b1);
        lemma_seq_assoc((Seq::<u8>::empty() + b0), b1, post);
        lemma_seq_assoc(Seq::<u8>::empty(), b0, (b1 + post));
        lemma_seq_empty_left((b0 + (b1 + post)));
        let s = pre + e + post;
        lemma_seq_assoc(pre, e, post);
        assert(s == pre + t0);
        let a0 = pre;
        assert(parse_array::<DescribeShareGroupOffsetsRequestGroup>(s, a0.len() as int, Ctx { version: 0, flexible: is_flexible, classic: false }) == Ok::<(Seq<<DescribeShareGroupOffsetsRequestGroup as DeepView>::V>, int), SerializationError>((m.groups, a0.len() as int + b0.len()))) by {
            assert(array_bytes::<DescribeShareGroupOffsetsRequestGroup>(m.groups, Ctx { version: 0, flexible: is_flexible, classic: false }) is Ok);
            lemma_seq_assoc(a0, b0, t1);
            lemma_items_read_back::<DescribeShareGroupOffsetsRequestGroup>(m.groups, Ctx { version: 0, flexible: is_flexible, classic: false });
            lemma_array_roundtrip::<DescribeShareGroupOffsetsRequestGroup>(a0, m.groups, t1, Ctx { version: 0, flexible: is_flexible, classic: false });
        }
        lemma_seq_assoc(a0, b0, t1);
        let a1 = a0 + b0;
        if is_flexible {
            assert(parse_uvarint(s, a1.len() as int) == Ok::<(u64, int), SerializationError>((0u64, a1.len() as int + b1.len()))) by {
                lemma_seq_assoc(a1, b1, t2);
                lemma_uvarint_roundtrip(a1, 0, t2);
            }
        }
    }

    /// The bytes written: the encoding of each field, in the order of the
    /// protocol's layout. Reading them back, wherever they stand, gives the value,
    /// with each field that the version leaves out at its default.
    #[verifier::spinoff_prover]
    pub proof fn lemma_flexible_layout(pre: Seq<u8>, m: DescribeShareGroupOffsetsRequestModel, post: Seq<u8>, is_flexible: bool)
        requires
            Self::spec_encode_flexible(m, is_flexible) is Ok,
        ensures
            Self::spec_encode_flexible(m, is_flexible) == Ok::<Seq<u8>, SerializationError>(((array_bytes::<DescribeShareGroupOffsetsRequestGroup>(m.groups, Ctx { version: 0, flexible: is_flexible, classic: false }))->Ok_0) + (if is_flexible { uvarint_bytes(0) } else { Seq::<u8>::empty() })),
            Self::reads_back_flexible(m, is_flexible) ==> Self::spec_decode_flexible(pre + (((array_bytes::<DescribeShareGroupOffsetsRequestGroup>(m.groups, Ctx { version: 0, flexible: is_flexible, classic: false }))->Ok_0) + (if is_flexible { uvarint_bytes(0) } else { Seq::<u8>::empty() })) + post, pre.len() as int, is_flexible) == Ok::<(DescribeShareGroupOffsetsRequestModel, int), SerializationError>((m, pre.len() as int + (((array_bytes::<DescribeShareGroupOffsetsRequestGroup>(m.groups, Ctx { version: 0, flexible: is_flexible, classic: false }))->Ok_0) + (if is_flexible { uvarint_bytes(0) } else { Seq::<u8>::empty() })).len())),
    {
        let b0 = (array_bytes::<DescribeShareGroupOffsetsRequestGroup>(m.groups, Ctx { version: 0, flexible: is_flexible, classic: false }))->Ok_0;
        let b1 = if is_flexible { uvarint_bytes(0) } else { Seq::<u8>::empty() };
        let e = Self::spec_encode_flexible(m, is_flexible)->Ok_0;
        assert(e =~= Seq::<u8>::empty() + b0 + b1);
        assert(e =~= b0 + b1);
        if Self::reads_back_flexible(m, is_flexible) {
            Self::lemma_flexible_read_back(pre, m, post, is_flexible);
        }
    }

    /// Writing succeeds exactly when every field that the version carries can be
    /// encoded and every field that it leaves out, where leaving it out is an
    /// error, holds its default.
    #[verifier::spinoff_prover]
    pub proof fn lemma_flexible_write_succeeds(m: DescribeShareGroupOffsetsRequestModel, is_flexible: bool)
        ensures
            Self::spec_encode_flexible(m, is_flexible) is Ok <==> (map_encode_err(array_bytes::<DescribeShareGroupOffsetsRequestGroup>(m.groups, Ctx { version: 0, flexible: is_flexible, classic: false }), SerializationError::ValueTooLarge { message: "failed to encode Groups" }) is Ok),
    {
    }

    /// With the compact encodings off, the flexible-aware layout is the classic
    /// layout: both write the same bytes.
    pub proof fn lemma_flexible_off_writes_classic(m: DescribeShareGroupOffsetsRequestModel)
        ensures
            Self::spec_encode_flexible(m, false) == Self::spec_encode_classic(m),
    {
        assert forall|i: int| 0 <= i < m.groups.len() implies <DescribeShareGroupOffsetsRequestGroup as KafkaCodec>::spec_encode(#[trigger] m.groups[i], Ctx { version: 0, flexible: false, classic: true }) == <DescribeShareGroupOffsetsRequestGroup as KafkaCodec>::spec_encode(m.groups[i], Ctx { version: 0, flexible: false, classic: false }) by {
            DescribeShareGroupOffsetsRequestGroup::lemma_flexible_off_writes_classic(m.groups[i]);
        }
        lemma_array_bytes_agree::<DescribeShareGroupOffsetsRequestGroup>(m.groups, Ctx { version: 0, flexible: false, classic: true }, Ctx { version: 0, flexible: false, classic: false });
    }

    /// With the compact encodings off, the flexible-aware layout is the classic
    /// layout: both read the same bytes alike.
    pub proof fn lemma_flexible_off_reads_classic(s: Seq<u8>, pos: int)
        ensures
            Self::spec_decode_flexible(s, pos, false) == Self::spec_decode_classic(s, pos),
    {
        assert forall|p: int| #[trigger] <DescribeShareGroupOffsetsRequestGroup as KafkaCodec>::spec_decode(s, p, Ctx { version: 0, flexible: false, classic: true }) == <DescribeShareGroupOffsetsRequestGroup as KafkaCodec>::spec_decode(s, p, Ctx { version: 0, flexible: false, classic: false }) by {
            DescribeShareGroupOffsetsRequestGroup::lemma_flexible_off_reads_classic(s, p);
        }
        lemma_parse_array_agree::<DescribeShareGroupOffsetsRequestGroup>(s, Ctx { version: 0, flexible: false, classic: true }, Ctx { version: 0, flexible: false, classic: false });
    }

    /// Writes the structure in the classic layout.
    /// On failure the buffer is left as it was.
    pub fn encode(&self, buf: &mut Vec<u8>) -> (r: Result<(), SerializationError>)
        ensures
            write_exact(r, old(buf)@, final(buf)@, Self::spec_encode_classic(self.deep_view())),
    {
        let start = buf.len();
        let r = self.write_classic(buf);
        if r.is_err() {
            buf.truncate(start);
        }
        r
    }

    fn write_classic(&self, buf: &mut Vec<u8>) -> (r: Result<(), SerializationError>)
        ensures
            write_ok(r, old(buf)@, final(buf)@, Self::spec_encode_classic(self.deep_view())),
    {
        let ghost mut w: Seq<u8> = Seq::empty();
        match encode_array(&self.groups, buf, Ctx { version: 0, flexible: false, classic: true }) {
            Ok(()) => {},
            Err(_) => {
                return Err(SerializationError::ValueTooLarge { message: "failed to encode Groups" });
            },
        }
        proof {
            w = w + (map_encode_err(array_bytes::<DescribeShareGroupOffsetsRequestGroup>(self.groups.deep_view(), Ctx { version: 0, flexible: false, classic: true }), SerializationError::ValueTooLarge { message: "failed to encode Groups" }))->Ok_0;
        }
        assert(buf@ =~= old(buf)@ + w);
        Ok(())
    }

    /// Writes the structure, with the compact encodings when `is_flexible`.
    /// On failure the buffer is left as it was.
    pub fn encode_flexible(&self, buf: &mut Vec<u8>, is_flexible: bool) -> (r: Result<(), SerializationError>)
        ensures
            write_exact(r, old(buf)@, final(buf)@, Self::spec_encode_flexible(self.deep_view(), is_flexible)),
    {
        let start = buf.len();
        let r = self.write_flexible(buf, is_flexible);
        if r.is_err() {
            buf.truncate(start);
        }
        r
    }

    fn write_flexible(&self, buf: &mut Vec<u8>, is_flexible: bool) -> (r: Result<(), SerializationError>)
        ensures
            write_ok(r, old(buf)@, final(buf)@, Self::spec_encode_flexible(self.deep_view(), is_flexible)),
    {
        let ghost mut w: Seq<u8> = Seq::empty();
        match encode_array(&self.groups, buf, Ctx { version: 0, flexible: is_flexible, classic: false }) {
            Ok(()) => {},
            Err(_) => {
                return Err(SerializationError::ValueTooLarge { message: "failed to encode Groups" });
            },
        }
        proof {
            w = w + (map_encode_err(array_bytes::<DescribeShareGroupOffsetsRequestGroup>(self.groups.deep_view(), Ctx { version: 0, flexible: is_flexible, classic: false }), SerializationError::ValueTooLarge { message: "failed to encode Groups" }))->Ok_0;
        }
        assert(buf@ =~= old(buf)@ + w);
        if is_flexible {
            encode_unsigned_varint(0, buf);
            proof {
                w = w + uvarint_bytes(0);
            }
            assert(buf@ =~= old(buf)@ + w);
        }
        Ok(())
    }

    /// Reads the structure in the classic layout.
    /// On failure the reader is put back where it started.
    pub fn decode(buf: &mut Reader) -> (r: Result<Self, SerializationError>)
        ensures
            final(buf).bytes() == old(buf).bytes(),
            read_view_exact(r, Self::spec_decode_classic(old(buf).bytes(), old(buf).pos()), old(buf).pos(), final(buf).pos()),
    {
        let start = buf.position();
        let r = Self::read_classic(buf);
        if r.is_err() {
            buf.set_position(start);
        }
        r
    }

    fn read_classic(buf: &mut Reader) -> (r: Result<Self, SerializationError>)
        ensures
            final(buf).bytes() == old(buf).bytes(),
            read_view_ok(r, Self::spec_decode_classic(old(buf).bytes(), old(buf).pos()), final(buf).pos()),
    {
        let groups = match decode_array::<DescribeShareGroupOffsetsRequestGroup>(buf, Ctx { version: 0, flexible: false, classic: true }) { Ok(v) => v, Err(_) => { return Err(SerializationError::Protocol { message: "failed to decode Groups" }); } };
        Ok(DescribeShareGroupOffsetsRequest { groups })
    }

    /// Reads the structure, with the compact encodings when `is_flexible`.
    /// On failure the reader is put back where it started.
    pub fn decode_flexible(buf: &mut Reader, is_flexible: bool) -> (r: Result<Self, SerializationError>)
        ensures
            final(buf).bytes() == old(buf).bytes(),
            read_view_exact(r, Self::spec_decode_flexible(old(buf).bytes(), old(buf).pos(), is_flexible), old(buf).pos(), final(buf).pos()),
    {
        let start = buf.position();
        let r = Self::read_flexible(buf, is_flexible);
        if r.is_err() {
            buf.set_position(start);
        }
        r
    }

    fn read_flexible(buf: &mut Reader, is_flexible: bool) -> (r: Result<Self, SerializationError>)
        ensures
            final(buf).bytes() == old(buf).bytes(),
            read_view_ok(r, Self::spec_decode_flexible(old(buf).bytes(), old(buf).pos(), is_flexible), final(buf).pos()),
    {
        let groups = match decode_array::<DescribeShareGroupOffsetsRequestGroup>(buf, Ctx { version: 0, flexible: is_flexible, classic: false }) { Ok(v) => v, Err(_) => { return Err(SerializationError::Protocol { message: "failed to decode Groups" }); } };
        if is_flexible {
            let (_tag_count, _) = decode_unsigned_varint(buf)?;
        }
        Ok(DescribeShareGroupOffsetsRequest { groups })
    }
}

impl KafkaCodec for DescribeShareGroupOffsetsRequest {
    open spec fn spec_encode(m: DescribeShareGroupOffsetsRequestModel, ctx: Ctx) -> Result<Seq<u8>, SerializationError> {
        if ctx.classic {
            Self::spec_encode_classic(m)
        } else {
            Self::spec_encode_flexible(m, ctx.flexible)
        }
    }

    open spec fn reads_back(v: DescribeShareGroupOffsetsRequestModel, ctx: Ctx) -> bool {
        if ctx.classic {
            Self::reads_back_classic(v)
        } else {
            Self::reads_back_flexible(v, ctx.flexible)
        }
    }

    proof fn lemma_read_back(pre: Seq<u8>, v: DescribeShareGroupOffsetsRequestModel, post: Seq<u8>, ctx: Ctx) {
        if ctx.classic {
            Self::lemma_classic_read_back(pre, v, post);
            assert(Self::spec_decode(pre + Self::spec_encode(v, ctx)->Ok_0 + post, pre.len() as int, ctx)
                == Self::spec_decode_classic(pre + Self::spec_encode_classic(v)->Ok_0 + post, pre.len() as int));
        } else {
            Self::lemma_flexible_read_back(pre, v, post, ctx.flexible);
            assert(Self::spec_decode(pre + Self::spec_encode(v, ctx)->Ok_0 + post, pre.len() as int, ctx)
                == Self::spec_decode_flexible(pre + Self::spec_encode_flexible(v, ctx.flexible)->Ok_0 + post, pre.len() as int, ctx.flexible));
        }
    }

    open spec fn spec_decode(s: Seq<u8>, pos: int, ctx: Ctx) -> Result<(DescribeShareGroupOffsetsRequestModel, int), SerializationError> {
        if ctx.classic {
            Self::spec_decode_classic(s, pos)
        } else {
            Self::spec_decode_flexible(s, pos, ctx.flexible)
        }
    }

    fn encode_ctx(&self, buf: &mut Vec<u8>, ctx: Ctx) -> (r: Result<(), SerializationError>) {
        if ctx.classic {
            self.write_classic(buf)
        } else {
            self.write_flexible(buf, ctx.flexible)
        }
    }

    fn decode_ctx(buf: &mut Reader, ctx: Ctx) -> (r: Result<Self, SerializationError>) {
        if ctx.classic {
            Self::read_classic(buf)
        } else {
            Self::read_flexible(buf, ctx.flexible)
        }
    }
}

impl DescribeShareGroupOffsetsRequest {
    /// The API key of this message.
    pub fn get_api_key() -> (r: ApiKey)
        ensures
            r.0 == 90,
    {
        ApiKey::new(90)
    }

    /// The oldest version of this message.
    pub fn get_min_supported_version() -> (r: ApiVersion)
        ensures
            r.0 == 0,
    {
        ApiVersion::new(0)
    }

    /// The newest version of this message.
    pub fn get_max_supported_version() -> (r: ApiVersion)
        ensures
            r.0 == 0,
    {
        ApiVersion::new(0)
    }

    /// The encoding of a whole message body at `version`.
    pub open spec fn spec_serialize(m: DescribeShareGroupOffsetsRequestModel, version: i16) -> Result<Seq<u8>, SerializationError> {
        let is_flexible = true;
        let ctx = Ctx { version, flexible: is_flexible, classic: false };
        let r = Ok(Seq::<u8>::empty());
        let r = then(r, map_encode_err(array_bytes::<DescribeShareGroupOffsetsRequestGroup>(m.groups, Ctx { version: ctx.version, flexible: ctx.flexible, classic: false }), SerializationError::Encode("failed to encode Groups")));
        let r = if ctx.flexible { then(r, Ok(uvarint_bytes(0))) } else { r };
        r
    }

    /// The message body read at `version`.
    pub open spec fn spec_deserialize(s: Seq<u8>, pos: int, version: i16) -> Result<(DescribeShareGroupOffsetsRequestModel, int), SerializationError> {
        let is_flexible = true;
        let ctx = Ctx { version, flexible: is_flexible, classic: false };
        match map_decode_err(parse_array::<DescribeShareGroupOffsetsRequestGroup>(s, pos, Ctx { version: ctx.version, flexible: ctx.flexible, classic: false }), SerializationError::Decode("failed to decode Groups")) {
            Err(e) => Err(e),
            Ok((groups, pos)) =>
            Ok((DescribeShareGroupOffsetsRequestModel { groups }, pos))
        }
    }

    /// Message bodies that read back when written at `version`: every field that
    /// the version leaves out holds its default, and nested values read back.
    pub open spec fn reads_back_message(m: DescribeShareGroupOffsetsRequestModel, version: i16) -> bool {
        let is_flexible = true;
        let ctx = Ctx { version, flexible: is_flexible, classic: false };
        &&& forall|i: int| 0 <= i < m.groups.len() ==> #[trigger] <DescribeShareGroupOffsetsRequestGroup as KafkaCodec>::reads_back(m.groups[i], Ctx { version: ctx.version, flexible: ctx.flexible, classic: false })
    }

    /// A message body that can be written at `version` and reads back: reading a
    /// body at `version` from its bytes, wherever they stand, gives the same message.
    #[verifier::spinoff_prover]
    pub proof fn lemma_message_read_back(pre: Seq<u8>, m: DescribeShareGroupOffsetsRequestModel, post: Seq<u8>, version: i16)
        requires
            Self::spec_serialize(m, version) is Ok,
            Self::reads_back_message(m, version),
        ensures
            Self::spec_deserialize(pre + Self::spec_serialize(m, version)->Ok_0 + post, pre.len() as int, version) == Ok::<(DescribeShareGroupOffsetsRequestModel, int), SerializationError>((m, pre.len() as int + Self::spec_serialize(m, version)->Ok_0.len() - (if true { 1int } else { 0int }))),
    {
        let is_flexible = true;
        let ctx = Ctx { version, flexible: is_flexible, classic: false };
        let b0 = (array_bytes::<DescribeShareGroupOffsetsRequestGroup>(m.groups, Ctx { version: ctx.version, flexible: ctx.flexible, classic: false }))->Ok_0;
        let b1 = if ctx.flexible { uvarint_bytes(0) } else { Seq::<u8>::empty() };
        let t2 = post;
        let t1 = b1 + t2;
        let t0 = b0 + t1;
        let e = Self::spec_serialize(m, version)->Ok_0;
        assert(e =~= Seq::<u8>::empty() + b0 + b1);
        lemma_seq_assoc((Seq::<u8>::empty() + b0), b1, post);
        lemma_seq_assoc(Seq::<u8>::empty(), b0, (b1 + post));
        lemma_seq_empty_left((b0 + (b1 + post)));
        let s = pre + e + post;
        lemma_seq_assoc(pre, e, post);
        assert(s == pre + t0);
        let a0 = pre;
        assert(parse_array::<DescribeShareGroupOffsetsRequestGroup>(s, a0.len() as int, Ctx { version: ctx.version, flexible: ctx.flexible, classic: false }) == Ok::<(Seq<<DescribeShareGroupOffsetsRequestGroup as DeepView>::V>, int), SerializationError>((m.groups, a0.len() as int + b0.len()))) by {
            assert(array_bytes::<DescribeShareGroupOffsetsRequestGroup>(m.groups, Ctx { version: ctx.version, flexible: ctx.flexible, classic: false }) is Ok);
            lemma_seq_assoc(a0, b0, t1);
            lemma_items_read_back::<DescribeShareGroupOffsetsRequestGroup>(m.groups, Ctx { version: ctx.version, flexible: ctx.flexible, classic: false });
            lemma_array_roundtrip::<DescribeShareGroupOffsetsRequestGroup>(a0, m.groups, t1, Ctx { version: ctx.version, flexible: ctx.flexible, classic: false });
        }
        lemma_seq_assoc(a0, b0, t1);
        let a1 = a0 + b0;
    }

    /// The bytes written: the encoding of each field, in the order of the
    /// protocol's layout. Reading them back, wherever they stand, gives the value,
    /// with each field that the version leaves out at its default.
    #[verifier::spinoff_prover]
    pub proof fn lemma_message_layout(pre: Seq<u8>, m: DescribeShareGroupOffsetsRequestModel, post: Seq<u8>, version: i16)
        requires
            Self::spec_serialize(m, version) is Ok,
        ensures
            Self::spec_serialize(m, version) == Ok::<Seq<u8>, SerializationError>(((array_bytes::<DescribeShareGroupOffsetsRequestGroup>(m.groups, Ctx { version: version, flexible: (true), classic: false }))->Ok_0) + (if (true) { uvarint_bytes(0) } else { Seq::<u8>::empty() })),
            Self::reads_back_message(m, version) ==> Self::spec_deserialize(pre + (((array_bytes::<DescribeShareGroupOffsetsRequestGroup>(m.groups, Ctx { version: version, flexible: (true), classic: false }))->Ok_0) + (if (true) { uvarint_bytes(0) } else { Seq::<u8>::empty() })) + post, pre.len() as int, version) == Ok::<(DescribeShareGroupOffsetsRequestModel, int), SerializationError>((m, pre.len() as int + (((array_bytes::<DescribeShareGroupOffsetsRequestGroup>(m.groups, Ctx { version: version, flexible: (true), classic: false }))->Ok_0) + (if (true) { uvarint_bytes(0) } else { Seq::<u8>::empty() })).len() - (if true { 1int } else { 0int }))),
    {
        let is_flexible = true;
        let ctx = Ctx { version, flexible: is_flexible, classic: false };
        let b0 = (array_bytes::<DescribeShareGroupOffsetsRequestGroup>(m.groups, Ctx { version: ctx.version, flexible: ctx.flexible, classic: false }))->Ok_0;
        let b1 = if ctx.flexible { uvarint_bytes(0) } else { Seq::<u8>::empty() };
        let e = Self::spec_serialize(m, version)->Ok_0;
        assert(e =~= Seq::<u8>::empty() + b0 + b1);
        assert(e =~= b0 + b1);
        if Self::reads_back_message(m, version) {
            Self::lemma_message_read_back(pre, m, post, version);
        }
    }

    /// Writing succeeds exactly when every field that the version carries can be
    /// encoded and every field that it leaves out, where leaving it out is an
    /// error, holds its default.
    #[verifier::spinoff_prover]
    pub proof fn lemma_message_write_succeeds(m: DescribeShareGroupOffsetsRequestModel, version: i16)
        ensures
            Self::spec_serialize(m, version) is Ok <==> (map_encode_err(array_bytes::<DescribeShareGroupOffsetsRequestGroup>(m.groups, Ctx { version: version, flexible: (true), classic: false }), SerializationError::Encode("failed to encode Groups")) is Ok),
    {
        let is_flexible = true;
        let ctx = Ctx { version, flexible: is_flexible, classic: false };
    }

    /// Writes the message body for `version`, which must be a supported version.
    /// On failure the buffer is left as it was.
    pub fn serialize(&self, version: ApiVersion, buf: &mut Vec<u8>) -> (r: Result<(), SerializationError>)
        requires
            0 <= version.0 <= 0,
        ensures
            write_exact(r, old(buf)@, final(buf)@, Self::spec_serialize(self.deep_view(), version.0)),
    {
        let start = buf.len();
        let r = self.write_body(version, buf);
        if r.is_err() {
            buf.truncate(start);
        }
        r
    }

    fn write_body(&self, version: ApiVersion, buf: &mut Vec<u8>) -> (r: Result<(), SerializationError>)
        requires
            0 <= version.0 <= 0,
        ensures
            write_ok(r, old(buf)@, final(buf)@, Self::spec_serialize(self.deep_view(), version.0)),
    {
        let is_flexible = true;
        let ctx = Ctx::new(version, is_flexible);
        let ghost mut w: Seq<u8> = Seq::empty();
        match encode_array(&self.groups, buf, Ctx { version: ctx.version, flexible: ctx.flexible, classic: false }) {
            Ok(()) => {},
            Err(_) => {
                return Err(SerializationError::Encode("failed to encode Groups"));
            },
        }
        proof {
            w = w + (map_encode_err(array_bytes::<DescribeShareGroupOffsetsRequestGroup>(self.groups.deep_view(), Ctx { version: ctx.version, flexible: ctx.flexible, classic: false }), SerializationError::Encode("failed to encode Groups")))->Ok_0;
        }
        assert(buf@ =~= old(buf)@ + w);
        if ctx.flexible {
            encode_unsigned_varint(0, buf);
            proof {
                w = w + uvarint_bytes(0);
            }
            assert(buf@ =~= old(buf)@ + w);
        }
        Ok(())
    }

    /// Reads a message body written for `version`.
    /// On failure the reader is put back where it started.
    pub fn deserialize(version: ApiVersion, buf: &mut Reader) -> (r: Result<Self, SerializationError>)
        ensures
            final(buf).bytes() == old(buf).bytes(),
            read_view_exact(r, Self::spec_deserialize(old(buf).bytes(), old(buf).pos(), version.0), old(buf).pos(), final(buf).pos()),
    {
        let start = buf.position();
        let r = Self::read_body(version, buf);
        if r.is_err() {
            buf.set_position(start);
        }
        r
    }

    fn read_body(version: ApiVersion, buf: &mut Reader) -> (r: Result<Self, SerializationError>)
        ensures
            final(buf).bytes() == old(buf).bytes(),
            read_view_ok(r, Self::spec_deserialize(old(buf).bytes(), old(buf).pos(), version.0), final(buf).pos()),
    {
        let is_flexible = true;
        let ctx = Ctx::new(version, is_flexible);
        let groups = match decode_array::<DescribeShareGroupOffsetsRequestGroup>(buf, Ctx { version: ctx.version, flexible: ctx.flexible, classic: false }) { Ok(v) => v, Err(_) => { return Err(SerializationError::Decode("failed to decode Groups")); } };
        Ok(DescribeShareGroupOffsetsRequest { groups })
    }
}

// -------------------------------------------------------
// DescribeShareGroupOffsetsRequestGroup
// -------------------------------------------------------
#[derive(Clone, Debug, Default, PartialEq)]
pub struct DescribeShareGroupOffsetsRequestGroup {
    /// The group identifier.
    pub group_id: String,
    /// The topics to describe offsets for, or null for all topic-partitions.
    pub topics: Option<Vec<DescribeShareGroupOffsetsRequestTopic>>,
}

/// The contents of `DescribeShareGroupOffsetsRequestGroup`, with strings as characters and
/// nested values by their contents.
pub struct DescribeShareGroupOffsetsRequestGroupModel {
    pub group_id: Seq<char>,
    pub topics: Option<Seq<<DescribeShareGroupOffsetsRequestTopic as DeepView>::V>>,
}

impl DeepView for DescribeShareGroupOffsetsRequestGroup {
    type V = DescribeShareGroupOffsetsRequestGroupModel;

    open spec fn deep_view(&self) -> DescribeShareGroupOffsetsRequestGroupModel {
        DescribeShareGroupOffsetsRequestGroupModel {
            group_id: self.group_id.deep_view(),
            topics: self.topics.deep_view(),
        }
    }
}

impl DescribeShareGroupOffsetsRequestGroup {
    /// The classic encoding of the structure.
    pub open spec fn spec_encode_classic(m: DescribeShareGroupOffsetsRequestGroupModel) -> Result<Seq<u8>, SerializationError> {
        let r = Ok(Seq::<u8>::empty());
        let r = then(r, map_encode_err(string_bytes(m.group_id, false), SerializationError::ValueTooLarge { message: "failed to encode GroupId" }));
        let r = then(r, map_encode_err(nullable_array_bytes::<DescribeShareGroupOffsetsRequestTopic>(m.topics, Ctx { version: 0, flexible: false, classic: true }), SerializationError::ValueTooLarge { message: "failed to encode Topics" }));
        r
    }

    /// The flexible-aware encoding of the structure.
    pub open spec fn spec_encode_flexible(m: DescribeShareGroupOffsetsRequestGroupModel, is_flexible: bool) -> Result<Seq<u8>, SerializationError> {
        let r = Ok(Seq::<u8>::empty());
        let r = then(r, map_encode_err(string_bytes(m.group_id, is_flexible), SerializationError::ValueTooLarge { message: "failed to encode GroupId" }));
        let r = if is_flexible { match m.topics { Some(v) => then(then(r, Ok(uvarint_bytes(1))), map_encode_err(array_bytes::<DescribeShareGroupOffsetsRequestTopic>(v, Ctx { version: 0, flexible: true, classic: false }), SerializationError::ValueTooLarge { message: "failed to encode Topics" })), None => then(r, Ok(uvarint_bytes(0))) } } else { then(r, map_encode_err(nullable_array_bytes::<DescribeShareGroupOffsetsRequestTopic>(m.topics, Ctx { version: 0, flexible: false, classic: true }), SerializationError::ValueTooLarge { message: "failed to encode Topics" })) };
        let r = if is_flexible { then(r, Ok(uvarint_bytes(0))) } else { r };
        r
    }

    /// The structure read by the classic decoder.
    pub open spec fn spec_decode_classic(s: Seq<u8>, pos: int) -> Result<(DescribeShareGroupOffsetsRequestGroupModel, int), SerializationError> {
        match map_decode_err(parse_string(s, pos, false), SerializationError::Protocol { message: "failed to decode GroupId" }) {
            Err(e) => Err(e),
            Ok((group_id, pos)) =>
            match map_decode_err(parse_nullable_array::<DescribeShareGroupOffsetsRequestTopic>(s, pos, Ctx { version: 0, flexible: false, classic: true }), SerializationError::Protocol { message: "failed to decode Topics" }) {
                Err(e) => Err(e),
                Ok((topics, pos)) =>
                Ok((DescribeShareGroupOffsetsRequestGroupModel { group_id, topics }, pos))
            }
        }
    }

    /// The structure read by the flexible-aware decoder.
    pub open spec fn spec_decode_flexible(s: Seq<u8>, pos: int, is_flexible: bool) -> Result<(DescribeShareGroupOffsetsRequestGroupModel, int), SerializationError> {
        match map_decode_err(parse_string(s, pos, is_flexible), SerializationError::Protocol { message: "failed to decode GroupId" }) {
            Err(e) => Err(e),
            Ok((group_id, pos)) =>
            match (if is_flexible { map_decode_err(parse_nullable_array::<DescribeShareGroupOffsetsRequestTopic>(s, pos, Ctx { version: 0, flexible: true, classic: false }), SerializationError::Protocol { message: "failed to decode Topics" }) } else { map_decode_err(parse_nullable_array::<DescribeShareGroupOffsetsRequestTopic>(s, pos, Ctx { version: 0, flexible: false, classic: true }), SerializationError::Protocol { message: "failed to decode Topics" }) }) {
                Err(e) => Err(e),
                Ok((topics, pos)) =>
                match (if is_flexible { parse_uvarint(s, pos) } else { Ok((0u64, pos)) }) {
                    Err(e) => Err(e),
                    Ok((_tag_count, pos)) =>
                    Ok((DescribeShareGroupOffsetsRequestGroupModel { group_id, topics }, pos))
                }
            }
        }
    }

    /// Values of the structure that read back from their classic encoding:
    /// nested values read back.
    pub open spec fn reads_back_classic(m: DescribeShareGroupOffsetsRequestGroupModel) -> bool {
        &&& (m.topics matches Some(items) ==> forall|i: int| 0 <= i < items.len() ==> #[trigger] <DescribeShareGroupOffsetsRequestTopic as KafkaCodec>::reads_back(items[i], Ctx { version: 0, flexible: false, classic: true }))
    }

    /// A value that can be written and reads back: decoding its encoding, wherever
    /// it stands, gives the value and the position just after it.
    #[verifier::spinoff_prover]
    pub proof fn lemma_classic_read_back(pre: Seq<u8>, m: DescribeShareGroupOffsetsRequestGroupModel, post: Seq<u8>)
        requires
            Self::spec_encode_classic(m) is Ok,
            Self::reads_back_classic(m),
        ensures
            Self::spec_decode_classic(pre + Self::spec_encode_classic(m)->Ok_0 + post, pre.len() as int) == Ok::<(DescribeShareGroupOffsetsRequestGroupModel, int), SerializationError>((m, pre.len() as int + Self::spec_encode_classic(m)->Ok_0.len())),
    {
        let b0 = (string_bytes(m.group_id, false))->Ok_0;
        let b1 = (nullable_array_bytes::<DescribeShareGroupOffsetsRequestTopic>(m.topics, Ctx { version: 0, flexible: false, classic: true }))->Ok_0;
        let t2 = post;
        let t1 = b1 + t2;
        let t0 = b0 + t1;
        let e = Self::spec_encode_classic(m)->Ok_0;
        assert(e =~= Seq::<u8>::empty() + b0 + b1);
        lemma_seq_assoc((Seq::<u8>::empty() + b0), b1, post);
        lemma_seq_assoc(Seq::<u8>::empty(), b0, (b1 + post));
        lemma_seq_empty_left((b0 + (b1 + post)));
        let s = pre + e + post;
        lemma_seq_assoc(pre, e, post);
        assert(s == pre + t0);
        let a0 = pre;
        assert(parse_string(s, a0.len() as int, false) == Ok::<(Seq<char>, int), SerializationError>((m.group_id, a0.len() as int + b0.len()))) by {
            assert(string_bytes(m.group_id, false) is Ok);
            lemma_seq_assoc(a0, b0, t1);
            lemma_string_roundtrip(a0, m.group_id, t1, false);
        }
        lemma_seq_assoc(a0, b0, t1);
        let a1 = a0 + b0;
        assert(parse_nullable_array::<DescribeShareGroupOffsetsRequestTopic>(s, a1.len() as int, Ctx { version: 0, flexible: false, classic: true }) == Ok::<(Option<Seq<<DescribeShareGroupOffsetsRequestTopic as DeepView>::V>>, int), SerializationError>((m.topics, a1.len() as int + b1.len()))) by {
            assert(nullable_array_bytes::<DescribeShareGroupOffsetsRequestTopic>(m.topics, Ctx { version: 0, flexible: false, classic: true }) is Ok);
            lemma_seq_assoc(a1, b1, t2);
            if let Some(items) = m.topics {
                lemma_items_read_back::<DescribeShareGroupOffsetsRequestTopic>(items, Ctx { version: 0, flexible: false, classic: true });
            }
            lemma_nullable_array_roundtrip::<DescribeShareGroupOffsetsRequestTopic>(a1, m.topics, t2, Ctx { version: 0, flexible: false, classic: true });
        }
    }

    /// The bytes written: the encoding of each field, in the order of the
    /// protocol's layout. Reading them back, wherever they stand, gives the value,
    /// with each field that the version leaves out at its default.
    #[verifier::spinoff_prover]
    pub proof fn lemma_classic_layout(pre: Seq<u8>, m: DescribeShareGroupOffsetsRequestGroupModel, post: Seq<u8>)
        requires
            Self::spec_encode_classic(m) is Ok,
        ensures
            Self::spec_encode_classic(m) == Ok::<Seq<u8>, SerializationError>(((string_bytes(m.group_id, false))->Ok_0) + ((nullable_array_bytes::<DescribeShareGroupOffsetsRequestTopic>(m.topics, Ctx { version: 0, flexible: false, classic: true }))->Ok_0)),
            Self::reads_back_classic(m) ==> Self::spec_decode_classic(pre + (((string_bytes(m.group_id, false))->Ok_0) + ((nullable_array_bytes::<DescribeShareGroupOffsetsRequestTopic>(m.topics, Ctx { version: 0, flexible: false, classic: true }))->Ok_0)) + post, pre.len() as int) == Ok::<(DescribeShareGroupOffsetsRequestGroupModel, int), SerializationError>((m, pre.len() as int + (((string_bytes(m.group_id, false))->Ok_0) + ((nullable_array_bytes::<DescribeShareGroupOffsetsRequestTopic>(m.topics, Ctx { version: 0, flexible: false, classic: true }))->Ok_0)).len())),
    {
        let b0 = (string_bytes(m.group_id, false))->Ok_0;
        let b1 = (nullable_array_bytes::<DescribeShareGroupOffsetsRequestTopic>(m.topics, Ctx { version: 0, flexible: false, classic: true }))->Ok_0;
        let e = Self::spec_encode_classic(m)->Ok_0;
        assert(e =~= Seq::<u8>::empty() + b0 + b1);
        assert(e =~= b0 + b1);
        if Self::reads_back_classic(m) {
            Self::lemma_classic_read_back(pre, m, post);
        }
    }

    /// Writing succeeds exactly when every field that the version carries can be
    /// encoded and every field that it leaves out, where leaving it out is an
    /// error, holds its default.
    #[verifier::spinoff_prover]
    pub proof fn lemma_classic_write_succeeds(m: DescribeShareGroupOffsetsRequestGroupModel)
        ensures
            Self::spec_encode_classic(m) is Ok <==> (map_encode_err(string_bytes(m.group_id, false), SerializationError::ValueTooLarge { message: "failed to encode GroupId" }) is Ok) && (map_encode_err(nullable_array_bytes::<DescribeShareGroupOffsetsRequestTopic>(m.topics, Ctx { version: 0, flexible: false, classic: true }), SerializationError::ValueTooLarge { message: "failed to encode Topics" }) is Ok),
    {
    }

    /// Values of the structure that read back from their flexible-aware encoding:
    /// nested values read back.
    /// In compact mode a present optional value is written after a presence marker
    /// that the decoder does not read, so only absent ones read back.
    pub open spec fn reads_back_flexible(m: DescribeShareGroupOffsetsRequestGroupModel, is_flexible: bool) -> bool {
        &&& is_flexible ==> m.topics is None
        &&& !is_flexible ==> (m.topics matches Some(items) ==> forall|i: int| 0 <= i < items.len() ==> #[trigger] <DescribeShareGroupOffsetsRequestTopic as KafkaCodec>::reads_back(items[i], Ctx { version: 0, flexible: false, classic: true }))
    }

    /// A value that can be written and reads back: decoding its encoding, wherever
    /// it stands, gives the value and the position just after it.
    #[verifier::spinoff_prover]
    pub proof fn lemma_flexible_read_back(pre: Seq<u8>, m: DescribeShareGroupOffsetsRequestGroupModel, post: Seq<u8>, is_flexible: bool)
        requires
            Self::spec_encode_flexible(m, is_flexible) is Ok,
            Self::reads_back_flexible(m, is_flexible),
        ensures
            Self::spec_decode_flexible(pre + Self::spec_encode_flexible(m, is_flexible)->Ok_0 + post, pre.len() as int, is_flexible) == Ok::<(DescribeShareGroupOffsetsRequestGroupModel, int), SerializationError>((m, pre.len() as int + Self::spec_encode_flexible(m, is_flexible)->Ok_0.len())),
    {
        let b0 = (string_bytes(m.group_id, is_flexible))->Ok_0;
        let b1 = if is_flexible { match m.topics { Some(v) => uvarint_bytes(1) + (array_bytes::<DescribeShareGroupOffsetsRequestTopic>(v, Ctx { version: 0, flexible: true, classic: false }))->Ok_0, None => uvarint_bytes(0) } } else { (nullable_array_bytes::<DescribeShareGroupOffsetsRequestTopic>(m.topics, Ctx { version: 0, flexible: false, classic: true }))->Ok_0 };
        let b2 = if is_flexible { uvarint_bytes(0) } else { Seq::<u8>::empty() };
        let t3 = post;
        let t2 = b2 + t3;
        let t1 = b1 + t2;
        let t0 = b0 + t1;
        let e = Self::spec_encode_flexible(m, is_flexible)->Ok_0;
        assert(e =~= Seq::<u8>::empty() + b0 + b1 + b2);
        lemma_seq_assoc(((Seq::<u8>::empty() + b0) + b1), b2, post);
        lemma_seq_assoc((Seq::<u8>::empty() + b0), b1, (b2 + post));
        lemma_seq_assoc(Seq::<u8>::empty(), b0, (b1 + (b2 + post)));
        lemma_seq_empty_left((b0 + (b1 + (b2 + post))));
        let s = pre + e + post;
        lemma_seq_assoc(pre, e, post);
        assert(s == pre + t0);
        let a0 = pre;
        assert(parse_string(s, a0.len() as int, is_flexible) == Ok::<(Seq<char>, int), SerializationError>((m.group_id, a0.len() as int + b0.len()))) by {
            assert(string_bytes(m.group_id, is_flexible) is Ok);
            lemma_seq_assoc(a0, b0, t1);
            lemma_string_roundtrip(a0, m.group_id, t1, is_flexible);
        }
        lemma_seq_assoc(a0, b0, t1);
        let a1 = a0 + b0;
        if is_flexible {
            match m.topics {
                Some(v) => {
                    let x = (array_bytes::<DescribeShareGroupOffsetsRequestTopic>(v, Ctx { version: 0, flexible: true, classic: false }))->Ok_0;
                    assert(parse_uvarint(s, a1.len() as int) == Ok::<(u64, int), SerializationError>((1u64, a1.len() as int + 1))) by {
                        assert(s =~= a1 + uvarint_bytes(1) + (x + t2));
                        lemma_uvarint_roundtrip(a1, 1, x + t2);
                    }
                    let a1x = a1 + uvarint_bytes(1);
                    assert(parse_array::<DescribeShareGroupOffsetsRequestTopic>(s, a1x.len() as int, Ctx { version: 0, flexible: true, classic: false }) == Ok::<(Seq<<DescribeShareGroupOffsetsRequestTopic as DeepView>::V>, int), SerializationError>((v, a1x.len() as int + x.len()))) by {
                        assert(s =~= a1x + x + t2);
                        lemma_items_read_back::<DescribeShareGroupOffsetsRequestTopic>(v, Ctx { version: 0, flexible: true, classic: false });
                        lemma_array_roundtrip::<DescribeShareGroupOffsetsRequestTopic>(a1x, v, t2, Ctx { version: 0, flexible: true, classic: false });
                    }
                },
                None => {
                    assert(parse_nullable_array::<DescribeShareGroupOffsetsRequestTopic>(s, a1.len() as int, Ctx { version: 0, flexible: true, classic: false }) == Ok::<(Option<Seq<<DescribeShareGroupOffsetsRequestTopic as DeepView>::V>>, int), SerializationError>((None::<Seq<<DescribeShareGroupOffsetsRequestTopic as DeepView>::V>>, a1.len() as int + 1))) by {
                        reveal(nullable_array_bytes);
                        assert(s =~= a1 + b1 + t2);
                        if let Some(items) = m.topics {
                            lemma_items_read_back::<DescribeShareGroupOffsetsRequestTopic>(items, Ctx { version: 0, flexible: true, classic: false });
                        }
                        lemma_nullable_array_roundtrip::<DescribeShareGroupOffsetsRequestTopic>(a1, m.topics, t2, Ctx { version: 0, flexible: true, classic: false });
                    }
                },
            }
        } else {
            assert(parse_nullable_array::<DescribeShareGroupOffsetsRequestTopic>(s, a1.len() as int, Ctx { version: 0, flexible: false, classic: true }) == Ok::<(Option<Seq<<DescribeShareGroupOffsetsRequestTopic as DeepView>::V>>, int), SerializationError>((m.topics, a1.len() as int + b1.len()))) by {
                assert(nullable_array_bytes::<DescribeShareGroupOffsetsRequestTopic>(m.topics, Ctx { version: 0, flexible: false, classic: true }) is Ok);
                lemma_seq_assoc(a1, b1, t2);
                if let Some(items) = m.topics {
                    lemma_items_read_back::<DescribeShareGroupOffsetsRequestTopic>(items, Ctx { version: 0, flexible: false, classic: true });
                }
                lemma_nullable_array_roundtrip::<DescribeShareGroupOffsetsRequestTopic>(a1, m.topics, t2, Ctx { version: 0, flexible: false, classic: true });
            }
        }
        lemma_seq_assoc(a1, b1, t2);
        let a2 = a1 + b1;
        if is_flexible {
            assert(parse_uvarint(s, a2.len() as int) == Ok::<(u64, int), SerializationError>((0u64, a2.len() as int + b2.len()))) by {
                lemma_seq_assoc(a2, b2, t3);
                lemma_uvarint_roundtrip(a2, 0, t3);
            }
        }
    }

    /// The bytes written: the encoding of each field, in the order of the
    /// protocol's layout. Reading them back, wherever they stand, gives the value,
    /// with each field that the version leaves out at its default.
    #[verifier::spinoff_prover]
    pub proof fn lemma_flexible_layout(pre: Seq<u8>, m: DescribeShareGroupOffsetsRequestGroupModel, post: Seq<u8>, is_flexible: bool)
        requires
            Self::spec_encode_flexible(m, is_flexible) is Ok,
        ensures
            Self::spec_encode_flexible(m, is_flexible) == Ok::<Seq<u8>, SerializationError>(((string_bytes(m.group_id, is_flexible))->Ok_0) + (if is_flexible { match m.topics { Some(v) => uvarint_bytes(1) + (array_bytes::<DescribeShareGroupOffsetsRequestTopic>(v, Ctx { version: 0, flexible: true, classic: false }))->Ok_0, None => uvarint_bytes(0) } } else { (nullable_array_bytes::<DescribeShareGroupOffsetsRequestTopic>(m.topics, Ctx { version: 0, flexible: false, classic: true }))->Ok_0 }) + (if is_flexible { uvarint_bytes(0) } else { Seq::<u8>::empty() })),
            Self::reads_back_flexible(m, is_flexible) ==> Self::spec_decode_flexible(pre + (((string_bytes(m.group_id, is_flexible))->Ok_0) + (if is_flexible { match m.topics { Some(v) => uvarint_bytes(1) + (array_bytes::<DescribeShareGroupOffsetsRequestTopic>(v, Ctx { version: 0, flexible: true, classic: false }))->Ok_0, None => uvarint_bytes(0) } } else { (nullable_array_bytes::<DescribeShareGroupOffsetsRequestTopic>(m.topics, Ctx { version: 0, flexible: false, classic: true }))->Ok_0 }) + (if is_flexible { uvarint_bytes(0) } else { Seq::<u8>::empty() })) + post, pre.len() as int, is_flexible) == Ok::<(DescribeShareGroupOffsetsRequestGroupModel, int), SerializationError>((m, pre.len() as int + (((string_bytes(m.group_id, is_flexible))->Ok_0) + (if is_flexible { match m.topics { Some(v) => uvarint_bytes(1) + (array_bytes::<DescribeShareGroupOffsetsRequestTopic>(v, Ctx { version: 0, flexible: true, classic: false }))->Ok_0, None => uvarint_bytes(0) } } else { (nullable_array_bytes::<DescribeShareGroupOffsetsRequestTopic>(m.topics, Ctx { version: 0, flexible: false, classic: true }))->Ok_0 }) + (if is_flexible { uvarint_bytes(0) } else { Seq::<u8>::empty() })).len())),
    {
        let b0 = (string_bytes(m.group_id, is_flexible))->Ok_0;
        let b1 = if is_flexible { match m.topics { Some(v) => uvarint_bytes(1) + (array_bytes::<DescribeShareGroupOffsetsRequestTopic>(v, Ctx { version: 0, flexible: true, classic: false }))->Ok_0, None => uvarint_bytes(0) } } else { (nullable_array_bytes::<DescribeShareGroupOffsetsRequestTopic>(m.topics, Ctx { version: 0, flexible: false, classic: true }))->Ok_0 };
        let b2 = if is_flexible { uvarint_bytes(0) } else { Seq::<u8>::empty() };
        let e = Self::spec_encode_flexible(m, is_flexible)->Ok_0;
        assert(e =~= Seq::<u8>::empty() + b0 + b1 + b2);
        assert(e =~= b0 + b1 + b2);
        if Self::reads_back_flexible(m, is_flexible) {
            Self::lemma_flexible_read_back(pre, m, post, is_flexible);
        }
    }

    /// With the compact encodings off, the flexible-aware layout is the classic
    /// layout: both write the same bytes.
    pub proof fn lemma_flexible_off_writes_classic(m: DescribeShareGroupOffsetsRequestGroupModel)
        ensures
            Self::spec_encode_flexible(m, false) == Self::spec_encode_classic(m),
    {
        if let Some(v) = m.topics {
            assert forall|i: int| 0 <= i < v.len() implies <DescribeShareGroupOffsetsRequestTopic as KafkaCodec>::spec_encode(#[trigger] v[i], Ctx { version: 0, flexible: false, classic: true }) == <DescribeShareGroupOffsetsRequestTopic as KafkaCodec>::spec_encode(v[i], Ctx { version: 0, flexible: false, classic: false }) by {
                DescribeShareGroupOffsetsRequestTopic::lemma_flexible_off_writes_classic(v[i]);
            }
            lemma_array_bytes_agree::<DescribeShareGroupOffsetsRequestTopic>(v, Ctx { version: 0, flexible: false, classic: true }, Ctx { version: 0, flexible: false, classic: false });
        } else {
            lemma_array_bytes_agree::<DescribeShareGroupOffsetsRequestTopic>(Seq::empty(), Ctx { version: 0, flexible: false, classic: true }, Ctx { version: 0, flexible: false, classic: false });
        }
    }

    /// With the compact encodings off, the flexible-aware layout is the classic
    /// layout: both read the same bytes alike.
    pub proof fn lemma_flexible_off_reads_classic(s: Seq<u8>, pos: int)
        ensures
            Self::spec_decode_flexible(s, pos, false) == Self::spec_decode_classic(s, pos),
    {
        assert forall|p: int| #[trigger] <DescribeShareGroupOffsetsRequestTopic as KafkaCodec>::spec_decode(s, p, Ctx { version: 0, flexible: false, classic: true }) == <DescribeShareGroupOffsetsRequestTopic as KafkaCodec>::spec_decode(s, p, Ctx { version: 0, flexible: false, classic: false }) by {
            DescribeShareGroupOffsetsRequestTopic::lemma_flexible_off_reads_classic(s, p);
        }
        lemma_parse_array_agree::<DescribeShareGroupOffsetsRequestTopic>(s, Ctx { version: 0, flexible: false, classic: true }, Ctx { version: 0, flexible: false, classic: false });
    }

    /// Writes the structure in the classic layout.
    /// On failure the buffer is left as it was.
    pub fn encode(&self, buf: &mut Vec<u8>) -> (r: Result<(), SerializationError>)
        ensures
            write_exact(r, old(buf)@, final(buf)@, Self::spec_encode_classic(self.deep_view())),
    {
        let start = buf.len();
        let r = self.write_classic(buf);
        if r.is_err() {
            buf.truncate(start);
        }
        r
    }

    fn write_classic(&self, buf: &mut Vec<u8>) -> (r: Result<(), SerializationError>)
        ensures
            write_ok(r, old(buf)@, final(buf)@, Self::spec_encode_classic(self.deep_view())),
    {
        let ghost mut w: Seq<u8> = Seq::empty();
        match encode_string(&self.group_id, buf, false) {
            Ok(()) => {},
            Err(_) => {
                return Err(SerializationError::ValueTooLarge { message: "failed to encode GroupId" });
            },
        }
        proof {
            w = w + (map_encode_err(string_bytes(self.group_id.deep_view(), false), SerializationError::ValueTooLarge { message: "failed to encode GroupId" }))->Ok_0;
        }
        assert(buf@ =~= old(buf)@ + w);
        match encode_nullable_array(&self.topics, buf, Ctx { version: 0, flexible: false, classic: true }) {
            Ok(()) => {},
            Err(_) => {
                return Err(SerializationError::ValueTooLarge { message: "failed to encode Topics" });
            },
        }
        proof {
            w = w + (map_encode_err(nullable_array_bytes::<DescribeShareGroupOffsetsRequestTopic>(self.topics.deep_view(), Ctx { version: 0, flexible: false, classic: true }), SerializationError::ValueTooLarge { message: "failed to encode Topics" }))->Ok_0;
        }
        assert(buf@ =~= old(buf)@ + w);
        Ok(())
    }

    /// Writes the structure, with the compact encodings when `is_flexible`.
    /// On failure the buffer is left as it was.
    pub fn encode_flexible(&self, buf: &mut Vec<u8>, is_flexible: bool) -> (r: Result<(), SerializationError>)
        ensures
            write_exact(r, old(buf)@, final(buf)@, Self::spec_encode_flexible(self.deep_view(), is_flexible)),
    {
        let start = buf.len();
        let r = self.write_flexible(buf, is_flexible);
        if r.is_err() {
            buf.truncate(start);
        }
        r
    }

    fn write_flexible(&self, buf: &mut Vec<u8>, is_flexible: bool) -> (r: Result<(), SerializationError>)
        ensures
            write_ok(r, old(buf)@, final(buf)@, Self::spec_encode_flexible(self.deep_view(), is_flexible)),
    {
        let ghost mut w: Seq<u8> = Seq::empty();
        match encode_string(&self.group_id, buf, is_flexible) {
            Ok(()) => {},
            Err(_) => {
                return Err(SerializationError::ValueTooLarge { message: "failed to encode GroupId" });
            },
        }
        proof {
            w = w + (map_encode_err(string_bytes(self.group_id.deep_view(), is_flexible), SerializationError::ValueTooLarge { message: "failed to encode GroupId" }))->Ok_0;
        }
        assert(buf@ =~= old(buf)@ + w);
        if is_flexible {
            match &self.topics {
                Some(v) => {
                    encode_unsigned_varint(1, buf);
                    proof {
                        w = w + uvarint_bytes(1);
                    }
                    match encode_array(&*v, buf, Ctx { version: 0, flexible: true, classic: false }) {
                        Ok(()) => {},
                        Err(_) => {
                            return Err(SerializationError::ValueTooLarge { message: "failed to encode Topics" });
                        },
                    }
                    proof {
                        w = w + (map_encode_err(array_bytes::<DescribeShareGroupOffsetsRequestTopic>((*v).deep_view(), Ctx { version: 0, flexible: true, classic: false }), SerializationError::ValueTooLarge { message: "failed to encode Topics" }))->Ok_0;
                    }
                    assert(buf@ =~= old(buf)@ + w);
                },
                None => {
                    encode_unsigned_varint(0, buf);
                    proof {
                        w = w + uvarint_bytes(0);
                    }
                    assert(buf@ =~= old(buf)@ + w);
                },
            }
        } else {
            match encode_nullable_array(&self.topics, buf, Ctx { version: 0, flexible: false, classic: true }) {
                Ok(()) => {},
                Err(_) => {
                    return Err(SerializationError::ValueTooLarge { message: "failed to encode Topics" });
                },
            }
            proof {
                w = w + (map_encode_err(nullable_array_bytes::<DescribeShareGroupOffsetsRequestTopic>(self.topics.deep_view(), Ctx { version: 0, flexible: false, classic: true }), SerializationError::ValueTooLarge { message: "failed to encode Topics" }))->Ok_0;
            }
            assert(buf@ =~= old(buf)@ + w);
        }
        if is_flexible {
            encode_unsigned_varint(0, buf);
            proof {
                w = w + uvarint_bytes(0);
            }
            assert(buf@ =~= old(buf)@ + w);
        }
        Ok(())
    }

    /// Reads the structure in the classic layout.
    /// On failure the reader is put back where it started.
    pub fn decode(buf: &mut Reader) -> (r: Result<Self, SerializationError>)
        ensures
            final(buf).bytes() == old(buf).bytes(),
            read_view_exact(r, Self::spec_decode_classic(old(buf).bytes(), old(buf).pos()), old(buf).pos(), final(buf).pos()),
    {
        let start = buf.position();
        let r = Self::read_classic(buf);
        if r.is_err() {
            buf.set_position(start);
        }
        r
    }

    fn read_classic(buf: &mut Reader) -> (r: Result<Self, SerializationError>)
        ensures
            final(buf).bytes() == old(buf).bytes(),
            read_view_ok(r, Self::spec_decode_classic(old(buf).bytes(), old(buf).pos()), final(buf).pos()),
    {
        let group_id = match buf.get_string(false) { Ok(v) => v, Err(_) => { return Err(SerializationError::Protocol { message: "failed to decode GroupId" }); } };
        let topics = match decode_nullable_array::<DescribeShareGroupOffsetsRequestTopic>(buf, Ctx { version: 0, flexible: false, classic: true }) { Ok(v) => v, Err(_) => { return Err(SerializationError::Protocol { message: "failed to decode Topics" }); } };
        Ok(DescribeShareGroupOffsetsRequestGroup { group_id, topics })
    }

    /// Reads the structure, with the compact encodings when `is_flexible`.
    /// On failure the reader is put back where it started.
    pub fn decode_flexible(buf: &mut Reader, is_flexible: bool) -> (r: Result<Self, SerializationError>)
        ensures
            final(buf).bytes() == old(buf).bytes(),
            read_view_exact(r, Self::spec_decode_flexible(old(buf).bytes(), old(buf).pos(), is_flexible), old(buf).pos(), final(buf).pos()),
    {
        let start = buf.position();
        let r = Self::read_flexible(buf, is_flexible);
        if r.is_err() {
            buf.set_position(start);
        }
        r
    }

    fn read_flexible(buf: &mut Reader, is_flexible: bool) -> (r: Result<Self, SerializationError>)
        ensures
            final(buf).bytes() == old(buf).bytes(),
            read_view_ok(r, Self::spec_decode_flexible(old(buf).bytes(), old(buf).pos(), is_flexible), final(buf).pos()),
    {
        let group_id = match buf.get_string(is_flexible) { Ok(v) => v, Err(_) => { return Err(SerializationError::Protocol { message: "failed to decode GroupId" }); } };
        let topics = if is_flexible {
            match decode_nullable_array::<DescribeShareGroupOffsetsRequestTopic>(buf, Ctx { version: 0, flexible: true, classic: false }) { Ok(v) => v, Err(_) => { return Err(SerializationError::Protocol { message: "failed to decode Topics" }); } }
        } else {
            match decode_nullable_array::<DescribeShareGroupOffsetsRequestTopic>(buf, Ctx { version: 0, flexible: false, classic: true }) { Ok(v) => v, Err(_) => { return Err(SerializationError::Protocol { message: "failed to decode Topics" }); } }
        };
        if is_flexible {
            let (_tag_count, _) = decode_unsigned_varint(buf)?;
        }
        Ok(DescribeShareGroupOffsetsRequestGroup { group_id, topics })
    }
}

impl KafkaCodec for DescribeShareGroupOffsetsRequestGroup {
    open spec fn spec_encode(m: DescribeShareGroupOffsetsRequestGroupModel, ctx: Ctx) -> Result<Seq<u8>, SerializationError> {
        if ctx.classic {
            Self::spec_encode_classic(m)
        } else {
            Self::spec_encode_flexible(m, ctx.flexible)
        }
    }

    open spec fn reads_back(v: DescribeShareGroupOffsetsRequestGroupModel, ctx: Ctx) -> bool {
        if ctx.classic {
            Self::reads_back_classic(v)
        } else {
            Self::reads_back_flexible(v, ctx.flexible)
        }
    }

    proof fn lemma_read_back(pre: Seq<u8>, v: DescribeShareGroupOffsetsRequestGroupModel, post: Seq<u8>, ctx: Ctx) {
        if ctx.classic {
            Self::lemma_classic_read_back(pre, v, post);
            assert(Self::spec_decode(pre + Self::spec_encode(v, ctx)->Ok_0 + post, pre.len() as int, ctx)
                == Self::spec_decode_classic(pre + Self::spec_encode_classic(v)->Ok_0 + post, pre.len() as int));
        } else {
            Self::lemma_flexible_read_back(pre, v, post, ctx.flexible);
            assert(Self::spec_decode(pre + Self::spec_encode(v, ctx)->Ok_0 + post, pre.len() as int, ctx)
                == Self::spec_decode_flexible(pre + Self::spec_encode_flexible(v, ctx.flexible)->Ok_0 + post, pre.len() as int, ctx.flexible));
        }
    }

    open spec fn spec_decode(s: Seq<u8>, pos: int, ctx: Ctx) -> Result<(DescribeShareGroupOffsetsRequestGroupModel, int), SerializationError> {
        if ctx.classic {
            Self::spec_decode_classic(s, pos)
        } else {
            Self::spec_decode_flexible(s, pos, ctx.flexible)
        }
    }

    fn encode_ctx(&self, buf: &mut Vec<u8>, ctx: Ctx) -> (r: Result<(), SerializationError>) {
        if ctx.classic {
            self.write_classic(buf)
        } else {
            self.write_flexible(buf, ctx.flexible)
        }
    }

    fn decode_ctx(buf: &mut Reader, ctx: Ctx) -> (r: Result<Self, SerializationError>) {
        if ctx.classic {
            Self::read_classic(buf)
        } else {
            Self::read_flexible(buf, ctx.flexible)
        }
    }
}

// -------------------------------------------------------
// DescribeShareGroupOffsetsRequestTopic
// -------------------------------------------------------
#[derive(Clone, Debug, Default, PartialEq)]
pub struct DescribeShareGroupOffsetsRequestTopic {
    /// The topic name.
    pub topic_name: String,
    /// The partitions.
    pub partitions: Vec<i32>,
}

/// The contents of `DescribeShareGroupOffsetsRequestTopic`, with strings as characters and
/// nested values by their contents.
pub struct DescribeShareGroupOffsetsRequestTopicModel {
    pub topic_name: Seq<char>,
    pub partitions: Seq<<i32 as DeepView>::V>,
}

impl DeepView for DescribeShareGroupOffsetsRequestTopic {
    type V = DescribeShareGroupOffsetsRequestTopicModel;

    open spec fn deep_view(&self) -> DescribeShareGroupOffsetsRequestTopicModel {
        DescribeShareGroupOffsetsRequestTopicModel {
            topic_name: self.topic_name.deep_view(),
            partitions: self.partitions.deep_view(),
        }
    }
}

impl DescribeShareGroupOffsetsRequestTopic {
    /// The classic encoding of the structure.
    pub open spec fn spec_encode_classic(m: DescribeShareGroupOffsetsRequestTopicModel) -> Result<Seq<u8>, SerializationError> {
        let r = Ok(Seq::<u8>::empty());
        let r = then(r, map_encode_err(string_bytes(m.topic_name, false), SerializationError::ValueTooLarge { message: "failed to encode TopicName" }));
        let r = then(r, map_encode_err(array_bytes::<i32>(m.partitions, Ctx { version: 0, flexible: false, classic: true }), SerializationError::ValueTooLarge { message: "failed to encode Partitions" }));
        r
    }

    /// The flexible-aware encoding of the structure.
    pub open spec fn spec_encode_flexible(m: DescribeShareGroupOffsetsRequestTopicModel, is_flexible: bool) -> Result<Seq<u8>, SerializationError> {
        let r = Ok(Seq::<u8>::empty());
        let r = then(r, map_encode_err(string_bytes(m.topic_name, is_flexible), SerializationError::ValueTooLarge { message: "failed to encode TopicName" }));
        let r = then(r, map_encode_err(array_bytes::<i32>(m.partitions, Ctx { version: 0, flexible: is_flexible, classic: false }), SerializationError::ValueTooLarge { message: "failed to encode Partitions" }));
        let r = if is_flexible { then(r, Ok(uvarint_bytes(0))) } else { r };
        r
    }

    /// The structure read by the classic decoder.
    pub open spec fn spec_decode_classic(s: Seq<u8>, pos: int) -> Result<(DescribeShareGroupOffsetsRequestTopicModel, int), SerializationError> {
        match map_decode_err(parse_string(s, pos, false), SerializationError::Protocol { message: "failed to decode TopicName" }) {
            Err(e) => Err(e),
            Ok((topic_name, pos)) =>
            match map_decode_err(parse_array::<i32>(s, pos, Ctx { version: 0, flexible: false, classic: true }), SerializationError::Protocol { message: "failed to decode Partitions" }) {
                Err(e) => Err(e),
                Ok((partitions, pos)) =>
                Ok((DescribeShareGroupOffsetsRequestTopicModel { topic_name, partitions }, pos))
            }
        }
    }

    /// The structure read by the flexible-aware decoder.
    pub open spec fn spec_decode_flexible(s: Seq<u8>, pos: int, is_flexible: bool) -> Result<(DescribeShareGroupOffsetsRequestTopicModel, int), SerializationError> {
        match map_decode_err(parse_string(s, pos, is_flexible), SerializationError::Protocol { message: "failed to decode TopicName" }) {
            Err(e) => Err(e),
            Ok((topic_name, pos)) =>
            match map_decode_err(parse_array::<i32>(s, pos, Ctx { version: 0, flexible: is_flexible, classic: false }), SerializationError::Protocol { message: "failed to decode Partitions" }) {
                Err(e) => Err(e),
                Ok((partitions, pos)) =>
                match (if is_flexible { parse_uvarint(s, pos) } else { Ok((0u64, pos)) }) {
                    Err(e) => Err(e),
                    Ok((_tag_count, pos)) =>
                    Ok((DescribeShareGroupOffsetsRequestTopicModel { topic_name, partitions }, pos))
                }
            }
        }
    }

    /// Values of the structure that read back from their classic encoding:
    /// nested values read back.
    pub open spec fn reads_back_classic(m: DescribeShareGroupOffsetsRequestTopicModel) -> bool {
        &&& forall|i: int| 0 <= i < m.partitions.len() ==> #[trigger] <i32 as KafkaCodec>::reads_back(m.partitions[i], Ctx { version: 0, flexible: false, classic: true })
    }

    /// A value that can be written and reads back: decoding its encoding, wherever
    /// it stands, gives the value and the position just after it.
    #[verifier::spinoff_prover]
    pub proof fn lemma_classic_read_back(pre: Seq<u8>, m: DescribeShareGroupOffsetsRequestTopicModel, post: Seq<u8>)
        requires
            Self::spec_encode_classic(m) is Ok,
            Self::reads_back_classic(m),
        ensures
            Self::spec_decode_classic(pre + Self::spec_encode_classic(m)->Ok_0 + post, pre.len() as int) == Ok::<(DescribeShareGroupOffsetsRequestTopicModel, int), SerializationError>((m, pre.len() as int + Self::spec_encode_classic(m)->Ok_0.len())),
    {
        let b0 = (string_bytes(m.topic_name, false))->Ok_0;
        let b1 = (array_bytes::<i32>(m.partitions, Ctx { version: 0, flexible: false, classic: true }))->Ok_0;
        let t2 = post;
        let t1 = b1 + t2;
        let t0 = b0 + t1;
        let e = Self::spec_encode_classic(m)->Ok_0;
        assert(e =~= Seq::<u8>::empty() + b0 + b1);
        lemma_seq_assoc((Seq::<u8>::empty() + b0), b1, post);
        lemma_seq_assoc(Seq::<u8>::empty(), b0, (b1 + post));
        lemma_seq_empty_left((b0 + (b1 + post)));
        let s = pre + e + post;
        lemma_seq_assoc(pre, e, post);
        assert(s == pre + t0);
        let a0 = pre;
        assert(parse_string(s, a0.len() as int, false) == Ok::<(Seq<char>, int), SerializationError>((m.topic_name, a0.len() as int + b0.len()))) by {
            assert(string_bytes(m.topic_name, false) is Ok);
            lemma_seq_assoc(a0, b0, t1);
            lemma_string_roundtrip(a0, m.topic_name, t1, false);
        }
        lemma_seq_assoc(a0, b0, t1);
        let a1 = a0 + b0;
        assert(parse_array::<i32>(s, a1.len() as int, Ctx { version: 0, flexible: false, classic: true }) == Ok::<(Seq<<i32 as DeepView>::V>, int), SerializationError>((m.partitions, a1.len() as int + b1.len()))) by {
            assert(array_bytes::<i32>(m.partitions, Ctx { version: 0, flexible: false, classic: true }) is Ok);
            lemma_seq_assoc(a1, b1, t2);
            lemma_items_read_back::<i32>(m.partitions, Ctx { version: 0, flexible: false, classic: true });
            lemma_array_roundtrip::<i32>(a1, m.partitions, t2, Ctx { version: 0, flexible: false, classic: true });
        }
    }

    /// The bytes written: the encoding of each field, in the order of the
    /// protocol's layout. Reading them back, wherever they stand, gives the value,
    /// with each field that the version leaves out at its default.
    #[verifier::spinoff_prover]
    pub proof fn lemma_classic_layout(pre: Seq<u8>, m: DescribeShareGroupOffsetsRequestTopicModel, post: Seq<u8>)
        requires
            Self::spec_encode_classic(m) is Ok,
        ensures
            Self::spec_encode_classic(m) == Ok::<Seq<u8>, SerializationError>(((string_bytes(m.topic_name, false))->Ok_0) + ((array_bytes::<i32>(m.partitions, Ctx { version: 0, flexible: false, classic: true }))->Ok_0)),
            Self::reads_back_classic(m) ==> Self::spec_decode_classic(pre + (((string_bytes(m.topic_name, false))->Ok_0) + ((array_bytes::<i32>(m.partitions, Ctx { version: 0, flexible: false, classic: true }))->Ok_0)) + post, pre.len() as int) == Ok::<(DescribeShareGroupOffsetsRequestTopicModel, int), SerializationError>((m, pre.len() as int + (((string_bytes(m.topic_name, false))->Ok_0) + ((array_bytes::<i32>(m.partitions, Ctx { version: 0, flexible: false, classic: true }))->Ok_0)).len())),
    {
        let b0 = (string_bytes(m.topic_name, false))->Ok_0;
        let b1 = (array_bytes::<i32>(m.partitions, Ctx { version: 0, flexible: false, classic: true }))->Ok_0;
        let e = Self::spec_encode_classic(m)->Ok_0;
        assert(e =~= Seq::<u8>::empty() + b0 + b1);
        assert(e =~= b0 + b1);
        if Self::reads_back_classic(m) {
            Self::lemma_classic_read_back(pre, m, post);
        }
    }

    /// Writing succeeds exactly when every field that the version carries can be
    /// encoded and every field that it leaves out, where leaving it out is an
    /// error, holds its default.
    #[verifier::spinoff_prover]
    pub proof fn lemma_classic_write_succeeds(m: DescribeShareGroupOffsetsRequestTopicModel)
        ensures
            Self::spec_encode_classic(m) is Ok <==> (map_encode_err(string_bytes(m.topic_name, false), SerializationError::ValueTooLarge { message: "failed to encode TopicName" }) is Ok) && (map_encode_err(array_bytes::<i32>(m.partitions, Ctx { version: 0, flexible: false, classic: true }), SerializationError::ValueTooLarge { message: "failed to encode Partitions" }) is Ok),
    {
    }

    /// Values of the structure that read back from their flexible-aware encoding:
    /// nested values read back.
    pub open spec fn reads_back_flexible(m: DescribeShareGroupOffsetsRequestTopicModel, is_flexible: bool) -> bool {
        &&& forall|i: int| 0 <= i < m.partitions.len() ==> #[trigger] <i32 as KafkaCodec>::reads_back(m.partitions[i], Ctx { version: 0, flexible: is_flexible, classic: false })
    }

    /// A value that can be written and reads back: decoding its encoding, wherever
    /// it stands, gives the value and the position just after it.
    #[verifier::spinoff_prover]
    pub proof fn lemma_flexible_read_back(pre: Seq<u8>, m: DescribeShareGroupOffsetsRequestTopicModel, post: Seq<u8>, is_flexible: bool)
        requires
            Self::spec_encode_flexible(m, is_flexible) is Ok,
            Self::reads_back_flexible(m, is_flexible),
        ensures
            Self::spec_decode_flexible(pre + Self::spec_encode_flexible(m, is_flexible)->Ok_0 + post, pre.len() as int, is_flexible) == Ok::<(DescribeShareGroupOffsetsRequestTopicModel, int), SerializationError>((m, pre.len() as int + Self::spec_encode_flexible(m, is_flexible)->Ok_0.len())),
    {
        let b0 = (string_bytes(m.topic_name, is_flexible))->Ok_0;
        let b1 = (array_bytes::<i32>(m.partitions, Ctx { version: 0, flexible: is_flexible, classic: false }))->Ok_0;
        let b2 = if is_flexible { uvarint_bytes(0) } else { Seq::<u8>::empty() };
        let t3 = post;
        let t2 = b2 + t3;
        let t1 = b1 + t2;
        let t0 = b0 + t1;
        let e = Self::spec_encode_flexible(m, is_flexible)->Ok_0;
        assert(e =~= Seq::<u8>::empty() + b0 + b1 + b2);
        lemma_seq_assoc(((Seq::<u8>::empty() + b0) + b1), b2, post);
        lemma_seq_assoc((Seq::<u8>::empty() + b0), b1, (b2 + post));
        lemma_seq_assoc(Seq::<u8>::empty(), b0, (b1 + (b2 + post)));
        lemma_seq_empty_left((b0 + (b1 + (b2 + post))));
        let s = pre + e + post;
        lemma_seq_assoc(pre, e, post);
        assert(s == pre + t0);
        let a0 = pre;
        assert(parse_string(s, a0.len() as int, is_flexible) == Ok::<(Seq<char>, int), SerializationError>((m.topic_name, a0.len() as int + b0.len()))) by {
            assert(string_bytes(m.topic_name, is_flexible) is Ok);
            lemma_seq_assoc(a0, b0, t1);
            lemma_string_roundtrip(a0, m.topic_name, t1, is_flexible);
        }
        lemma_seq_assoc(a0, b0, t1);
        let a1 = a0 + b0;
        assert(parse_array::<i32>(s, a1.len() as int, Ctx { version: 0, flexible: is_flexible, classic: false }) == Ok::<(Seq<<i32 as DeepView>::V>, int), SerializationError>((m.partitions, a1.len() as int + b1.len()))) by {
            assert(array_bytes::<i32>(m.partitions, Ctx { version: 0, flexible: is_flexible, classic: false }) is Ok);
            lemma_seq_assoc(a1, b1, t2);
            lemma_items_read_back::<i32>(m.partitions, Ctx { version: 0, flexible: is_flexible, classic: false });
            lemma_array_roundtrip::<i32>(a1, m.partitions, t2, Ctx { version: 0, flexible: is_flexible, classic: false });
        }
        lemma_seq_assoc(a1, b1, t2);
        let a2 = a1 + b1;
        if is_flexible {
            assert(parse_uvarint(s, a2.len() as int) == Ok::<(u64, int), SerializationError>((0u64, a2.len() as int + b2.len()))) by {
                lemma_seq_assoc(a2, b2, t3);
                lemma_uvarint_roundtrip(a2, 0, t3);
            }
        }
    }

    /// The bytes written: the encoding of each field, in the order of the
    /// protocol's layout. Reading them back, wherever they stand, gives the value,
    /// with each field that the version leaves out at its default.
    #[verifier::spinoff_prover]
    pub proof fn lemma_flexible_layout(pre: Seq<u8>, m: DescribeShareGroupOffsetsRequestTopicModel, post: Seq<u8>, is_flexible: bool)
        requires
            Self::spec_encode_flexible(m, is_flexible) is Ok,
        ensures
            Self::spec_encode_flexible(m, is_flexible) == Ok::<Seq<u8>, SerializationError>(((string_bytes(m.topic_name, is_flexible))->Ok_0) + ((array_bytes::<i32>(m.partitions, Ctx { version: 0, flexible: is_flexible, classic: false }))->Ok_0) + (if is_flexible { uvarint_bytes(0) } else { Seq::<u8>::empty() })),
            Self::reads_back_flexible(m, is_flexible) ==> Self::spec_decode_flexible(pre + (((string_bytes(m.topic_name, is_flexible))->Ok_0) + ((array_bytes::<i32>(m.partitions, Ctx { version: 0, flexible: is_flexible, classic: false }))->Ok_0) + (if is_flexible { uvarint_bytes(0) } else { Seq::<u8>::empty() })) + post, pre.len() as int, is_flexible) == Ok::<(DescribeShareGroupOffsetsRequestTopicModel, int), SerializationError>((m, pre.len() as int + (((string_bytes(m.topic_name, is_flexible))->Ok_0) + ((array_bytes::<i32>(m.partitions, Ctx { version: 0, flexible: is_flexible, classic: false }))->Ok_0) + (if is_flexible { uvarint_bytes(0) } else { Seq::<u8>::empty() })).len())),
    {
        let b0 = (string_bytes(m.topic_name, is_flexible))->Ok_0;
        let b1 = (array_bytes::<i32>(m.partitions, Ctx { version: 0, flexible: is_flexible, classic: false }))->Ok_0;
        let b2 = if is_flexible { uvarint_bytes(0) } else { Seq::<u8>::empty() };
        let e = Self::spec_encode_flexible(m, is_flexible)->Ok_0;
        assert(e =~= Seq::<u8>::empty() + b0 + b1 + b2);
        assert(e =~= b0 + b1 + b2);
        if Self::reads_back_flexible(m, is_flexible) {
            Self::lemma_flexible_read_back(pre, m, post, is_flexible);
        }
    }

    /// Writing succeeds exactly when every field that the version carries can be
    /// encoded and every field that it leaves out, where leaving it out is an
    /// error, holds its default.
    #[verifier::spinoff_prover]
    pub proof fn lemma_flexible_write_succeeds(m: DescribeShareGroupOffsetsRequestTopicModel, is_flexible: bool)
        ensures
            Self::spec_encode_flexible(m, is_flexible) is Ok <==> (map_encode_err(string_bytes(m.topic_name, is_flexible), SerializationError::ValueTooLarge { message: "failed to encode TopicName" }) is Ok) && (map_encode_err(array_bytes::<i32>(m.partitions, Ctx { version: 0, flexible: is_flexible, classic: false }), SerializationError::ValueTooLarge { message: "failed to encode Partitions" }) is Ok),
    {
    }

    /// With the compact encodings off, the flexible-aware layout is the classic
    /// layout: both write the same bytes.
    pub proof fn lemma_flexible_off_writes_classic(m: DescribeShareGroupOffsetsRequestTopicModel)
        ensures
            Self::spec_encode_flexible(m, false) == Self::spec_encode_classic(m),
    {
        assert forall|i: int| 0 <= i < m.partitions.len() implies <i32 as KafkaCodec>::spec_encode(#[trigger] m.partitions[i], Ctx { version: 0, flexible: false, classic: true }) == <i32 as KafkaCodec>::spec_encode(m.partitions[i], Ctx { version: 0, flexible: false, classic: false }) by {
        }
        lemma_array_bytes_agree::<i32>(m.partitions, Ctx { version: 0, flexible: false, classic: true }, Ctx { version: 0, flexible: false, classic: false });
    }

    /// With the compact encodings off, the flexible-aware layout is the classic
    /// layout: both read the same bytes alike.
    pub proof fn lemma_flexible_off_reads_classic(s: Seq<u8>, pos: int)
        ensures
            Self::spec_decode_flexible(s, pos, false) == Self::spec_decode_classic(s, pos),
    {
        assert forall|p: int| #[trigger] <i32 as KafkaCodec>::spec_decode(s, p, Ctx { version: 0, flexible: false, classic: true }) == <i32 as KafkaCodec>::spec_decode(s, p, Ctx { version: 0, flexible: false, classic: false }) by {
        }
        lemma_parse_array_agree::<i32>(s, Ctx { version: 0, flexible: false, classic: true }, Ctx { version: 0, flexible: false, classic: false });
    }

    /// Writes the structure in the classic layout.
    /// On failure the buffer is left as it was.
    pub fn encode(&self, buf: &mut Vec<u8>) -> (r: Result<(), SerializationError>)
        ensures
            write_exact(r, old(buf)@, final(buf)@, Self::spec_encode_classic(self.deep_view())),
    {
        let start = buf.len();
        let r = self.write_classic(buf);
        if r.is_err() {
            buf.truncate(start);
        }
        r
    }

    fn write_classic(&self, buf: &mut Vec<u8>) -> (r: Result<(), SerializationError>)
        ensures
            write_ok(r, old(buf)@, final(buf)@, Self::spec_encode_classic(self.deep_view())),
    {
        let ghost mut w: Seq<u8> = Seq::empty();
        match encode_string(&self.topic_name, buf, false) {
            Ok(()) => {},
            Err(_) => {
                return Err(SerializationError::ValueTooLarge { message: "failed to encode TopicName" });
            },
        }
        proof {
            w = w + (map_encode_err(string_bytes(self.topic_name.deep_view(), false), SerializationError::ValueTooLarge { message: "failed to encode TopicName" }))->Ok_0;
        }
        assert(buf@ =~= old(buf)@ + w);
        match encode_array(&self.partitions, buf, Ctx { version: 0, flexible: false, classic: true }) {
            Ok(()) => {},
            Err(_) => {
                return Err(SerializationError::ValueTooLarge { message: "failed to encode Partitions" });
            },
        }
        proof {
            w = w + (map_encode_err(array_bytes::<i32>(self.partitions.deep_view(), Ctx { version: 0, flexible: false, classic: true }), SerializationError::ValueTooLarge { message: "failed to encode Partitions" }))->Ok_0;
        }
        assert(buf@ =~= old(buf)@ + w);
        Ok(())
    }

    /// Writes the structure, with the compact encodings when `is_flexible`.
    /// On failure the buffer is left as it was.
    pub fn encode_flexible(&self, buf: &mut Vec<u8>, is_flexible: bool) -> (r: Result<(), SerializationError>)
        ensures
            write_exact(r, old(buf)@, final(buf)@, Self::spec_encode_flexible(self.deep_view(), is_flexible)),
    {
        let start = buf.len();
        let r = self.write_flexible(buf, is_flexible);
        if r.is_err() {
            buf.truncate(start);
        }
        r
    }

    fn write_flexible(&self, buf: &mut Vec<u8>, is_flexible: bool) -> (r: Result<(), SerializationError>)
        ensures
            write_ok(r, old(buf)@, final(buf)@, Self::spec_encode_flexible(self.deep_view(), is_flexible)),
    {
        let ghost mut w: Seq<u8> = Seq::empty();
        match encode_string(&self.topic_name, buf, is_flexible) {
            Ok(()) => {},
            Err(_) => {
                return Err(SerializationError::ValueTooLarge { message: "failed to encode TopicName" });
            },
        }
        proof {
            w = w + (map_encode_err(string_bytes(self.topic_name.deep_view(), is_flexible), SerializationError::ValueTooLarge { message: "failed to encode TopicName" }))->Ok_0;
        }
        assert(buf@ =~= old(buf)@ + w);
        match encode_array(&self.partitions, buf, Ctx { version: 0, flexible: is_flexible, classic: false }) {
            Ok(()) => {},
            Err(_) => {
                return Err(SerializationError::ValueTooLarge { message: "failed to encode Partitions" });
            },
        }
        proof {
            w = w + (map_encode_err(array_bytes::<i32>(self.partitions.deep_view(), Ctx { version: 0, flexible: is_flexible, classic: false }), SerializationError::ValueTooLarge { message: "failed to encode Partitions" }))->Ok_0;
        }
        assert(buf@ =~= old(buf)@ + w);
        if is_flexible {
            encode_unsigned_varint(0, buf);
            proof {
                w = w + uvarint_bytes(0);
            }
            assert(buf@ =~= old(buf)@ + w);
        }
        Ok(())
    }

    /// Reads the structure in the classic layout.
    /// On failure the reader is put back where it started.
    pub fn decode(buf: &mut Reader) -> (r: Result<Self, SerializationError>)
        ensures
            final(buf).bytes() == old(buf).bytes(),
            read_view_exact(r, Self::spec_decode_classic(old(buf).bytes(), old(buf).pos()), old(buf).pos(), final(buf).pos()),
    {
        let start = buf.position();
        let r = Self::read_classic(buf);
        if r.is_err() {
            buf.set_position(start);
        }
        r
    }

    fn read_classic(buf: &mut Reader) -> (r: Result<Self, SerializationError>)
        ensures
            final(buf).bytes() == old(buf).bytes(),
            read_view_ok(r, Self::spec_decode_classic(old(buf).bytes(), old(buf).pos()), final(buf).pos()),
    {
        let topic_name = match buf.get_string(false) { Ok(v) => v, Err(_) => { return Err(SerializationError::Protocol { message: "failed to decode TopicName" }); } };
        let partitions = match decode_array::<i32>(buf, Ctx { version: 0, flexible: false, classic: true }) { Ok(v) => v, Err(_) => { return Err(SerializationError::Protocol { message: "failed to decode Partitions" }); } };
        Ok(DescribeShareGroupOffsetsRequestTopic { topic_name, partitions })
    }

    /// Reads the structure, with the compact encodings when `is_flexible`.
    /// On failure the reader is put back where it started.
    pub fn decode_flexible(buf: &mut Reader, is_flexible: bool) -> (r: Result<Self, SerializationError>)
        ensures
            final(buf).bytes() == old(buf).bytes(),
            read_view_exact(r, Self::spec_decode_flexible(old(buf).bytes(), old(buf).pos(), is_flexible), old(buf).pos(), final(buf).pos()),
    {
        let start = buf.position();
        let r = Self::read_flexible(buf, is_flexible);
        if r.is_err() {
            buf.set_position(start);
        }
        r
    }

    fn read_flexible(buf: &mut Reader, is_flexible: bool) -> (r: Result<Self, SerializationError>)
        ensures
            final(buf).bytes() == old(buf).bytes(),
            read_view_ok(r, Self::spec_decode_flexible(old(buf).bytes(), old(buf).pos(), is_flexible), final(buf).pos()),
    {
        let topic_name = match buf.get_string(is_flexible) { Ok(v) => v, Err(_) => { return Err(SerializationError::Protocol { message: "failed to decode TopicName" }); } };
        let partitions = match decode_array::<i32>(buf, Ctx { version: 0, flexible: is_flexible, classic: false }) { Ok(v) => v, Err(_) => { return Err(SerializationError::Protocol { message: "failed to decode Partitions" }); } };
        if is_flexible {
            let (_tag_count, _) = decode_unsigned_varint(buf)?;
        }
        Ok(DescribeShareGroupOffsetsRequestTopic { topic_name, partitions })
    }
}

impl KafkaCodec for DescribeShareGroupOffsetsRequestTopic {
    open spec fn spec_encode(m: DescribeShareGroupOffsetsRequestTopicModel, ctx: Ctx) -> Result<Seq<u8>, SerializationError> {
        if ctx.classic {
            Self::spec_encode_classic(m)
        } else {
            Self::spec_encode_flexible(m, ctx.flexible)
        }
    }

    open spec fn reads_back(v: DescribeShareGroupOffsetsRequestTopicModel, ctx: Ctx) -> bool {
        if ctx.classic {
            Self::reads_back_classic(v)
        } else {
            Self::reads_back_flexible(v, ctx.flexible)
        }
    }

    proof fn lemma_read_back(pre: Seq<u8>, v: DescribeShareGroupOffsetsRequestTopicModel, post: Seq<u8>, ctx: Ctx) {
        if ctx.classic {
            Self::lemma_classic_read_back(pre, v, post);
            assert(Self::spec_decode(pre + Self::spec_encode(v, ctx)->Ok_0 + post, pre.len() as int, ctx)
                == Self::spec_decode_classic(pre + Self::spec_encode_classic(v)->Ok_0 + post, pre.len() as int));
        } else {
            Self::lemma_flexible_read_back(pre, v, post, ctx.flexible);
            assert(Self::spec_decode(pre + Self::spec_encode(v, ctx)->Ok_0 + post, pre.len() as int, ctx)
                == Self::spec_decode_flexible(pre + Self::spec_encode_flexible(v, ctx.flexible)->Ok_0 + post, pre.len() as int, ctx.flexible));
        }
    }

    open spec fn spec_decode(s: Seq<u8>, pos: int, ctx: Ctx) -> Result<(DescribeShareGroupOffsetsRequestTopicModel, int), SerializationError> {
        if ctx.classic {
            Self::spec_decode_classic(s, pos)
        } else {
            Self::spec_decode_flexible(s, pos, ctx.flexible)
        }
    }

    fn encode_ctx(&self, buf: &mut Vec<u8>, ctx: Ctx) -> (r: Result<(), SerializationError>) {
        if ctx.classic {
            self.write_classic(buf)
        } else {
            self.write_flexible(buf, ctx.flexible)
        }
    }

    fn decode_ctx(buf: &mut Reader, ctx: Ctx) -> (r: Result<Self, SerializationError>) {
        if ctx.classic {
            Self::read_classic(buf)
        } else {
            Self::read_flexible(buf, ctx.flexible)
        }
    }
}

} // verus!
