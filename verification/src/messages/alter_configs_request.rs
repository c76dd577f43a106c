//! AlterConfigsRequest (API key 33).
use vstd::prelude::*;
use crate::roundtrip::{lemma_array_roundtrip, lemma_bool_roundtrip, lemma_i8_roundtrip,
    lemma_items_read_back, lemma_nullable_string_roundtrip, lemma_seq_assoc, lemma_seq_empty_left,
    lemma_string_roundtrip, lemma_uvarint_roundtrip};
use crate::serialization::{Ctx, KafkaCodec, Reader, SerializationError, array_bytes, bool_bytes,
    decode_array, decode_unsigned_varint, encode_array, encode_nullable_string, encode_string,
    encode_unsigned_varint, i8_bytes, lemma_array_bytes_agree, lemma_parse_array_agree,
    map_decode_err, map_encode_err, nullable_string_bytes, parse_array, parse_bool, parse_i8,
    parse_nullable_string, parse_string, parse_uvarint, put_bool, put_i8, read_view_exact,
    read_view_ok, string_bytes, then, uvarint_bytes, write_exact, write_ok};
use crate::{ApiKey, ApiVersion};

verus! {

// -------------------------------------------------------
// AlterConfigsRequest
// -------------------------------------------------------
#[derive(Clone, Debug, Default, PartialEq)]
pub struct AlterConfigsRequest {
    /// The updates for each resource.
    pub resources: Vec<AlterConfigsResource>,
    /// True if we should validate the request, but not change the configurations.
    pub validate_only: bool,
}

/// The contents of `AlterConfigsRequest`, with strings as characters and
/// nested values by their contents.
pub struct AlterConfigsRequestModel {
    pub resources: Seq<<AlterConfigsResource as DeepView>::V>,
    pub validate_only: bool,
}

impl DeepView for AlterConfigsRequest {
    type V = AlterConfigsRequestModel;

    open spec fn deep_view(&self) -> AlterConfigsRequestModel {
        AlterConfigsRequestModel {
            resources: self.resources.deep_view(),
            validate_only: self.validate_only,
        }
    }
}

impl AlterConfigsRequest {
    /// The classic encoding of the structure.
    pub open spec fn spec_encode_classic(m: AlterConfigsRequestModel) -> Result<Seq<u8>, SerializationError> {
        let r = Ok(Seq::<u8>::empty());
        let r = then(r, map_encode_err(array_bytes::<AlterConfigsResource>(m.resources, Ctx { version: 0, flexible: false, classic: true }), SerializationError::ValueTooLarge { message: "failed to encode Resources" }));
        let r = then(r, map_encode_err(Ok(bool_bytes(m.validate_only)), SerializationError::ValueTooLarge { message: "failed to encode ValidateOnly" }));
        r
    }

    /// The flexible-aware encoding of the structure.
    pub open spec fn spec_encode_flexible(m: AlterConfigsRequestModel, is_flexible: bool) -> Result<Seq<u8>, SerializationError> {
        let r = Ok(Seq::<u8>::empty());
        let r = then(r, map_encode_err(array_bytes::<AlterConfigsResource>(m.resources, Ctx { version: 0, flexible: is_flexible, classic: false }), SerializationError::ValueTooLarge { message: "failed to encode Resources" }));
        let r = then(r, map_encode_err(Ok(bool_bytes(m.validate_only)), SerializationError::ValueTooLarge { message: "failed to encode ValidateOnly" }));
        let r = if is_flexible { then(r, Ok(uvarint_bytes(0))) } else { r };
        r
    }

    /// The structure read by the classic decoder.
    pub open spec fn spec_decode_classic(s: Seq<u8>, pos: int) -> Result<(AlterConfigsRequestModel, int), SerializationError> {
        match map_decode_err(parse_array::<AlterConfigsResource>(s, pos, Ctx { version: 0, flexible: false, classic: true }), SerializationError::Protocol { message: "failed to decode Resources" }) {
            Err(e) => Err(e),
            Ok((resources, pos)) =>
            match map_decode_err(parse_bool(s, pos), SerializationError::Protocol { message: "failed to decode ValidateOnly" }) {
                Err(e) => Err(e),
                Ok((validate_only, pos)) =>
                Ok((AlterConfigsRequestModel { resources, validate_only }, pos))
            }
        }
    }

    /// The structure read by the flexible-aware decoder.
    pub open spec fn spec_decode_flexible(s: Seq<u8>, pos: int, is_flexible: bool) -> Result<(AlterConfigsRequestModel, int), SerializationError> {
        match map_decode_err(parse_array::<AlterConfigsResource>(s, pos, Ctx { version: 0, flexible: is_flexible, classic: false }), SerializationError::Protocol { message: "failed to decode Resources" }) {
            Err(e) => Err(e),
            Ok((resources, pos)) =>
            match map_decode_err(parse_bool(s, pos), SerializationError::Protocol { message: "failed to decode ValidateOnly" }) {
                Err(e) => Err(e),
                Ok((validate_only, pos)) =>
                match (if is_flexible { parse_uvarint(s, pos) } else { Ok((0u64, pos)) }) {
                    Err(e) => Err(e),
                    Ok((_tag_count, pos)) =>
                    Ok((AlterConfigsRequestModel { resources, validate_only }, pos))
                }
            }
        }
    }

    /// Values of the structure that read back from their classic encoding:
    /// nested values read back.
    pub open spec fn reads_back_classic(m: AlterConfigsRequestModel) -> bool {
        &&& forall|i: int| 0 <= i < m.resources.len() ==> #[trigger] <AlterConfigsResource as KafkaCodec>::reads_back(m.resources[i], Ctx { version: 0, flexible: false, classic: true })
    }

    /// A value that can be written and reads back: decoding its encoding, wherever
    /// it stands, gives the value and the position just after it.
    #[verifier::spinoff_prover]
    pub proof fn lemma_classic_read_back(pre: Seq<u8>, m: AlterConfigsRequestModel, post: Seq<u8>)
        requires
            Self::spec_encode_classic(m) is Ok,
            Self::reads_back_classic(m),
        ensures
            Self::spec_decode_classic(pre + Self::spec_encode_classic(m)->Ok_0 + post, pre.len() as int) == Ok::<(AlterConfigsRequestModel, int), SerializationError>((m, pre.len() as int + Self::spec_encode_classic(m)->Ok_0.len())),
    {
        let b0 = (array_bytes::<AlterConfigsResource>(m.resources, Ctx { version: 0, flexible: false, classic: true }))->Ok_0;
        let b1 = bool_bytes(m.validate_only);
        let t2 = post;
        let t1 = b1 + t2;
        let t0 = b0 + t1;
        let e = Self::spec_encode_classic(m)->Ok_0;
        assert(e =~= Seq::<u8>::empty() + b0 + b1);
        lemma_seq_assoc((Seq::<u8>::empty() + b0), b1, post);
        lemma_seq_assoc(Seq::<u8>::empty(), b0, (b1 + post));
        lemma_seq_empty_left((b0 + (b1 + post)));
        let s = pre + e + post;
        lemma_seq_assoc(pre, e, post);
        assert(s == pre + t0);
        let a0 = pre;
        assert(parse_array::<AlterConfigsResource>(s, a0.len() as int, Ctx { version: 0, flexible: false, classic: true }) == Ok::<(Seq<<AlterConfigsResource as DeepView>::V>, int), SerializationError>((m.resources, a0.len() as int + b0.len()))) by {
            assert(array_bytes::<AlterConfigsResource>(m.resources, Ctx { version: 0, flexible: false, classic: true }) is Ok);
            lemma_seq_assoc(a0, b0, t1);
            lemma_items_read_back::<AlterConfigsResource>(m.resources, Ctx { version: 0, flexible: false, classic: true });
            lemma_array_roundtrip::<AlterConfigsResource>(a0, m.resources, t1, Ctx { version: 0, flexible: false, classic: true });
        }
        lemma_seq_assoc(a0, b0, t1);
        let a1 = a0 + b0;
        assert(parse_bool(s, a1.len() as int) == Ok::<(bool, int), SerializationError>((m.validate_only, a1.len() as int + b1.len()))) by {
            lemma_seq_assoc(a1, b1, t2);
            lemma_bool_roundtrip(a1, m.validate_only, t2);
        }
    }

    /// The bytes written: the encoding of each field, in the order of the
    /// protocol's layout. Reading them back, wherever they stand, gives the value,
    /// with each field that the version leaves out at its default.
    #[verifier::spinoff_prover]
    pub proof fn lemma_classic_layout(pre: Seq<u8>, m: AlterConfigsRequestModel, post: Seq<u8>)
        requires
            Self::spec_encode_classic(m) is Ok,
        ensures
            Self::spec_encode_classic(m) == Ok::<Seq<u8>, SerializationError>(((array_bytes::<AlterConfigsResource>(m.resources, Ctx { version: 0, flexible: false, classic: true }))->Ok_0) + (bool_bytes(m.validate_only))),
            Self::reads_back_classic(m) ==> Self::spec_decode_classic(pre + (((array_bytes::<AlterConfigsResource>(m.resources, Ctx { version: 0, flexible: false, classic: true }))->Ok_0) + (bool_bytes(m.validate_only))) + post, pre.len() as int) == Ok::<(AlterConfigsRequestModel, int), SerializationError>((m, pre.len() as int + (((array_bytes::<AlterConfigsResource>(m.resources, Ctx { version: 0, flexible: false, classic: true }))->Ok_0) + (bool_bytes(m.validate_only))).len())),
    {
        let b0 = (array_bytes::<AlterConfigsResource>(m.resources, Ctx { version: 0, flexible: false, classic: true }))->Ok_0;
        let b1 = bool_bytes(m.validate_only);
        let e = Self::spec_encode_classic(m)->Ok_0;
        assert(e =~= Seq::<u8>::empty() + b0 + b1);
        assert(e =~= b0 + b1);
        if Self::reads_back_classic(m) {
            Self::lemma_classic_read_back(pre, m, post);
        }
    }

    /// Writing succeeds exactly when every field that the version carries can be
    /// encoded and every field that it leaves out, where leaving it out is an
    /// error, holds its default.
    #[verifier::spinoff_prover]
    pub proof fn lemma_classic_write_succeeds(m: AlterConfigsRequestModel)
        ensures
            Self::spec_encode_classic(m) is Ok <==> (map_encode_err(array_bytes::<AlterConfigsResource>(m.resources, Ctx { version: 0, flexible: false, classic: true }), SerializationError::ValueTooLarge { message: "failed to encode Resources" }) is Ok) && (map_encode_err(Ok(bool_bytes(m.validate_only)), SerializationError::ValueTooLarge { message: "failed to encode ValidateOnly" }) is Ok),
    {
    }

    /// Values of the structure that read back from their flexible-aware encoding:
    /// nested values read back.
    pub open spec fn reads_back_flexible(m: AlterConfigsRequestModel, is_flexible: bool) -> bool {
        &&& forall|i: int| 0 <= i < m.resources.len() ==> #[trigger] <AlterConfigsResource as KafkaCodec>::reads_back(m.resources[i], Ctx { version: 0, flexible: is_flexible, classic: false })
    }

    /// A value that can be written and reads back: decoding its encoding, wherever
    /// it stands, gives the value and the position just after it.
    #[verifier::spinoff_prover]
    pub proof fn lemma_flexible_read_back(pre: Seq<u8>, m: AlterConfigsRequestModel, post: Seq<u8>, is_flexible: bool)
        requires
            Self::spec_encode_flexible(m, is_flexible) is Ok,
            Self::reads_back_flexible(m, is_flexible),
        ensures
            Self::spec_decode_flexible(pre + Self::spec_encode_flexible(m, is_flexible)->Ok_0 + post, pre.len() as int, is_flexible) == Ok::<(AlterConfigsRequestModel, int), SerializationError>((m, pre.len() as int + Self::spec_encode_flexible(m, is_flexible)->Ok_0.len())),
    {
        let b0 = (array_bytes::<AlterConfigsResource>(m.resources, Ctx { version: 0, flexible: is_flexible, classic: false }))->Ok_0;
        let b1 = bool_bytes(m.validate_only);
        let b2 = if is_flexible { uvarint_bytes(0) } else { Seq::<u8>::empty() };
        let t3 = post;
        let t2 = b2 + t3;
        let t1 = b1 + t2;
        let t0 = b0 + t1;
        let e = Self::spec_encode_flexible(m, is_flexible)->Ok_0;
        assert(e =~= Seq::<u8>::empty() + b0 + b1 + b2);
        lemma_seq_assoc(((Seq::<u8>::empty() + b0) + b1), b2, post);
        lemma_seq_assoc((Seq::<u8>::empty() + b0), b1, (b2 + post));
        lemma_seq_assoc(Seq::<u8>::empty(), b0, (b1 + (b2 + post)));
        lemma_seq_empty_left((b0 + (b1 + (b2 + post))));
        let s = pre + e + post;
        lemma_seq_assoc(pre, e, post);
        assert(s == pre + t0);
        let a0 = pre;
        assert(parse_array::<AlterConfigsResource>(s, a0.len() as int, Ctx { version: 0, flexible: is_flexible, classic: false }) == Ok::<(Seq<<AlterConfigsResource as DeepView>::V>, int), SerializationError>((m.resources, a0.len() as int + b0.len()))) by {
            assert(array_bytes::<AlterConfigsResource>(m.resources, Ctx { version: 0, flexible: is_flexible, classic: false }) is Ok);
            lemma_seq_assoc(a0, b0, t1);
            lemma_items_read_back::<AlterConfigsResource>(m.resources, Ctx { version: 0, flexible: is_flexible, classic: false });
            lemma_array_roundtrip::<AlterConfigsResource>(a0, m.resources, t1, Ctx { version: 0, flexible: is_flexible, classic: false });
        }
        lemma_seq_assoc(a0, b0, t1);
        let a1 = a0 + b0;
        assert(parse_bool(s, a1.len() as int) == Ok::<(bool, int), SerializationError>((m.validate_only, a1.len() as int + b1.len()))) by {
            lemma_seq_assoc(a1, b1, t2);
            lemma_bool_roundtrip(a1, m.validate_only, t2);
        }
        lemma_seq_assoc(a1, b1, t2);
        let a2 = a1 + b1;
        if is_flexible {
            assert(parse_uvarint(s, a2.len() as int) == Ok::<(u64, int), SerializationError>((0u64, a2.len() as int + b2.len()))) by {
                lemma_seq_assoc(a2, b2, t3);
                lemma_uvarint_roundtrip(a2, 0, t3);
            }
        }
    }

    /// The bytes written: the encoding of each field, in the order of the
    /// protocol's layout. Reading them back, wherever they stand, gives the value,
    /// with each field that the version leaves out at its default.
    #[verifier::spinoff_prover]
    pub proof fn lemma_flexible_layout(pre: Seq<u8>, m: AlterConfigsRequestModel, post: Seq<u8>, is_flexible: bool)
        requires
            Self::spec_encode_flexible(m, is_flexible) is Ok,
        ensures
            Self::spec_encode_flexible(m, is_flexible) == Ok::<Seq<u8>, SerializationError>(((array_bytes::<AlterConfigsResource>(m.resources, Ctx { version: 0, flexible: is_flexible, classic: false }))->Ok_0) + (bool_bytes(m.validate_only)) + (if is_flexible { uvarint_bytes(0) } else { Seq::<u8>::empty() })),
            Self::reads_back_flexible(m, is_flexible) ==> Self::spec_decode_flexible(pre + (((array_bytes::<AlterConfigsResource>(m.resources, Ctx { version: 0, flexible: is_flexible, classic: false }))->Ok_0) + (bool_bytes(m.validate_only)) + (if is_flexible { uvarint_bytes(0) } else { Seq::<u8>::empty() })) + post, pre.len() as int, is_flexible) == Ok::<(AlterConfigsRequestModel, int), SerializationError>((m, pre.len() as int + (((array_bytes::<AlterConfigsResource>(m.resources, Ctx { version: 0, flexible: is_flexible, classic: false }))->Ok_0) + (bool_bytes(m.validate_only)) + (if is_flexible { uvarint_bytes(0) } else { Seq::<u8>::empty() })).len())),
    {
        let b0 = (array_bytes::<AlterConfigsResource>(m.resources, Ctx { version: 0, flexible: is_flexible, classic: false }))->Ok_0;
        let b1 = bool_bytes(m.validate_only);
        let b2 = if is_flexible { uvarint_bytes(0) } else { Seq::<u8>::empty() };
        let e = Self::spec_encode_flexible(m, is_flexible)->Ok_0;
        assert(e =~= Seq::<u8>::empty() + b0 + b1 + b2);
        assert(e =~= b0 + b1 + b2);
        if Self::reads_back_flexible(m, is_flexible) {
            Self::lemma_flexible_read_back(pre, m, post, is_flexible);
        }
    }

    /// Writing succeeds exactly when every field that the version carries can be
    /// encoded and every field that it leaves out, where leaving it out is an
    /// error, holds its default.
    #[verifier::spinoff_prover]
    pub proof fn lemma_flexible_write_succeeds(m: AlterConfigsRequestModel, is_flexible: bool)
        ensures
            Self::spec_encode_flexible(m, is_flexible) is Ok <==> (map_encode_err(array_bytes::<AlterConfigsResource>(m.resources, Ctx { version: 0, flexible: is_flexible, classic: false }), SerializationError::ValueTooLarge { message: "failed to encode Resources" }) is Ok) && (map_encode_err(Ok(bool_bytes(m.validate_only)), SerializationError::ValueTooLarge { message: "failed to encode ValidateOnly" }) is Ok),
    {
    }

    /// With the compact encodings off, the flexible-aware layout is the classic
    /// layout: both write the same bytes.
    pub proof fn lemma_flexible_off_writes_classic(m: AlterConfigsRequestModel)
        ensures
            Self::spec_encode_flexible(m, false) == Self::spec_encode_classic(m),
    {
        assert forall|i: int| 0 <= i < m.resources.len() implies <AlterConfigsResource as KafkaCodec>::spec_encode(#[trigger] m.resources[i], Ctx { version: 0, flexible: false, classic: true }) == <AlterConfigsResource as KafkaCodec>::spec_encode(m.resources[i], Ctx { version: 0, flexible: false, classic: false }) by {
            AlterConfigsResource::lemma_flexible_off_writes_classic(m.resources[i]);
        }
        lemma_array_bytes_agree::<AlterConfigsResource>(m.resources, Ctx { version: 0, flexible: false, classic: true }, Ctx { version: 0, flexible: false, classic: false });
    }

    /// With the compact encodings off, the flexible-aware layout is the classic
    /// layout: both read the same bytes alike.
    pub proof fn lemma_flexible_off_reads_classic(s: Seq<u8>, pos: int)
        ensures
            Self::spec_decode_flexible(s, pos, false) == Self::spec_decode_classic(s, pos),
    {
        assert forall|p: int| #[trigger] <AlterConfigsResource as KafkaCodec>::spec_decode(s, p, Ctx { version: 0, flexible: false, classic: true }) == <AlterConfigsResource as KafkaCodec>::spec_decode(s, p, Ctx { version: 0, flexible: false, classic: false }) by {
            AlterConfigsResource::lemma_flexible_off_reads_classic(s, p);
        }
        lemma_parse_array_agree::<AlterConfigsResource>(s, Ctx { version: 0, flexible: false, classic: true }, Ctx { version: 0, flexible: false, classic: false });
    }

    /// Writes the structure in the classic layout.
    /// On failure the buffer is left as it was.
    pub fn encode(&self, buf: &mut Vec<u8>) -> (r: Result<(), SerializationError>)
        ensures
            write_exact(r, old(buf)@, final(buf)@, Self::spec_encode_classic(self.deep_view())),
    {
        let start = buf.len();
        let r = self.write_classic(buf);
        if r.is_err() {
            buf.truncate(start);
        }
        r
    }

    fn write_classic(&self, buf: &mut Vec<u8>) -> (r: Result<(), SerializationError>)
        ensures
            write_ok(r, old(buf)@, final(buf)@, Self::spec_encode_classic(self.deep_view())),
    {
        let ghost mut w: Seq<u8> = Seq::empty();
        match encode_array(&self.resources, buf, Ctx { version: 0, flexible: false, classic: true }) {
            Ok(()) => {},
            Err(_) => {
                return Err(SerializationError::ValueTooLarge { message: "failed to encode Resources" });
            },
        }
        proof {
            w = w + (map_encode_err(array_bytes::<AlterConfigsResource>(self.resources.deep_view(), Ctx { version: 0, flexible: false, classic: true }), SerializationError::ValueTooLarge { message: "failed to encode Resources" }))->Ok_0;
        }
        assert(buf@ =~= old(buf)@ + w);
        put_bool(buf, self.validate_only);
        proof {
            w = w + (map_encode_err(Ok(bool_bytes(self.validate_only)), SerializationError::ValueTooLarge { message: "failed to encode ValidateOnly" }))->Ok_0;
        }
        assert(buf@ =~= old(buf)@ + w);
        Ok(())
    }

    /// Writes the structure, with the compact encodings when `is_flexible`.
    /// On failure the buffer is left as it was.
    pub fn encode_flexible(&self, buf: &mut Vec<u8>, is_flexible: bool) -> (r: Result<(), SerializationError>)
        ensures
            write_exact(r, old(buf)@, final(buf)@, Self::spec_encode_flexible(self.deep_view(), is_flexible)),
    {
        let start = buf.len();
        let r = self.write_flexible(buf, is_flexible);
        if r.is_err() {
            buf.truncate(start);
        }
        r
    }

    fn write_flexible(&self, buf: &mut Vec<u8>, is_flexible: bool) -> (r: Result<(), SerializationError>)
        ensures
            write_ok(r, old(buf)@, final(buf)@, Self::spec_encode_flexible(self.deep_view(), is_flexible)),
    {
        let ghost mut w: Seq<u8> = Seq::empty();
        match encode_array(&self.resources, buf, Ctx { version: 0, flexible: is_flexible, classic: false }) {
            Ok(()) => {},
            Err(_) => {
                return Err(SerializationError::ValueTooLarge { message: "failed to encode Resources" });
            },
        }
        proof {
            w = w + (map_encode_err(array_bytes::<AlterConfigsResource>(self.resources.deep_view(), Ctx { version: 0, flexible: is_flexible, classic: false }), SerializationError::ValueTooLarge { message: "failed to encode Resources" }))->Ok_0;
        }
        assert(buf@ =~= old(buf)@ + w);
        put_bool(buf, self.validate_only);
        proof {
            w = w + (map_encode_err(Ok(bool_bytes(self.validate_only)), SerializationError::ValueTooLarge { message: "failed to encode ValidateOnly" }))->Ok_0;
        }
        assert(buf@ =~= old(buf)@ + w);
        if is_flexible {
            encode_unsigned_varint(0, buf);
            proof {
                w = w + uvarint_bytes(0);
            }
            assert(buf@ =~= old(buf)@ + w);
        }
        Ok(())
    }

    /// Reads the structure in the classic layout.
    /// On failure the reader is put back where it started.
    pub fn decode(buf: &mut Reader) -> (r: Result<Self, SerializationError>)
        ensures
            final(buf).bytes() == old(buf).bytes(),
            read_view_exact(r, Self::spec_decode_classic(old(buf).bytes(), old(buf).pos()), old(buf).pos(), final(buf).pos()),
    {
        let start = buf.position();
        let r = Self::read_classic(buf);
        if r.is_err() {
            buf.set_position(start);
        }
        r
    }

    fn read_classic(buf: &mut Reader) -> (r: Result<Self, SerializationError>)
        ensures
            final(buf).bytes() == old(buf).bytes(),
            read_view_ok(r, Self::spec_decode_classic(old(buf).bytes(), old(buf).pos()), final(buf).pos()),
    {
        let resources = match decode_array::<AlterConfigsResource>(buf, Ctx { version: 0, flexible: false, classic: true }) { Ok(v) => v, Err(_) => { return Err(SerializationError::Protocol { message: "failed to decode Resources" }); } };
        let validate_only = match buf.get_bool() { Ok(v) => v, Err(_) => { return Err(SerializationError::Protocol { message: "failed to decode ValidateOnly" }); } };
        Ok(AlterConfigsRequest { resources, validate_only })
    }

    /// Reads the structure, with the compact encodings when `is_flexible`.
    /// On failure the reader is put back where it started.
    pub fn decode_flexible(buf: &mut Reader, is_flexible: bool) -> (r: Result<Self, SerializationError>)
        ensures
            final(buf).bytes() == old(buf).bytes(),
            read_view_exact(r, Self::spec_decode_flexible(old(buf).bytes(), old(buf).pos(), is_flexible), old(buf).pos(), final(buf).pos()),
    {
        let start = buf.position();
        let r = Self::read_flexible(buf, is_flexible);
        if r.is_err() {
            buf.set_position(start);
        }
        r
    }

    fn read_flexible(buf: &mut Reader, is_flexible: bool) -> (r: Result<Self, SerializationError>)
        ensures
            final(buf).bytes() == old(buf).bytes(),
            read_view_ok(r, Self::spec_decode_flexible(old(buf).bytes(), old(buf).pos(), is_flexible), final(buf).pos()),
    {
        let resources = match decode_array::<AlterConfigsResource>(buf, Ctx { version: 0, flexible: is_flexible, classic: false }) { Ok(v) => v, Err(_) => { return Err(SerializationError::Protocol { message: "failed to decode Resources" }); } };
        let validate_only = match buf.get_bool() { Ok(v) => v, Err(_) => { return Err(SerializationError::Protocol { message: "failed to decode ValidateOnly" }); } };
        if is_flexible {
            let (_tag_count, _) = decode_unsigned_varint(buf)?;
        }
        Ok(AlterConfigsRequest { resources, validate_only })
    }
}

impl KafkaCodec for AlterConfigsRequest {
    open spec fn spec_encode(m: AlterConfigsRequestModel, ctx: Ctx) -> Result<Seq<u8>, SerializationError> {
        if ctx.classic {
            Self::spec_encode_classic(m)
        } else {
            Self::spec_encode_flexible(m, ctx.flexible)
        }
    }

    open spec fn reads_back(v: AlterConfigsRequestModel, ctx: Ctx) -> bool {
        if ctx.classic {
            Self::reads_back_classic(v)
        } else {
            Self::reads_back_flexible(v, ctx.flexible)
        }
    }

    proof fn lemma_read_back(pre: Seq<u8>, v: AlterConfigsRequestModel, post: Seq<u8>, ctx: Ctx) {
        if ctx.classic {
            Self::lemma_classic_read_back(pre, v, post);
            assert(Self::spec_decode(pre + Self::spec_encode(v, ctx)->Ok_0 + post, pre.len() as int, ctx)
                == Self::spec_decode_classic(pre + Self::spec_encode_classic(v)->Ok_0 + post, pre.len() as int));
        } else {
            Self::lemma_flexible_read_back(pre, v, post, ctx.flexible);
            assert(Self::spec_decode(pre + Self::spec_encode(v, ctx)->Ok_0 + post, pre.len() as int, ctx)
                == Self::spec_decode_flexible(pre + Self::spec_encode_flexible(v, ctx.flexible)->Ok_0 + post, pre.len() as int, ctx.flexible));
        }
    }

    open spec fn spec_decode(s: Seq<u8>, pos: int, ctx: Ctx) -> Result<(AlterConfigsRequestModel, int), SerializationError> {
        if ctx.classic {
            Self::spec_decode_classic(s, pos)
        } else {
            Self::spec_decode_flexible(s, pos, ctx.flexible)
        }
    }

    fn encode_ctx(&self, buf: &mut Vec<u8>, ctx: Ctx) -> (r: Result<(), SerializationError>) {
        if ctx.classic {
            self.write_classic(buf)
        } else {
            self.write_flexible(buf, ctx.flexible)
        }
    }

    fn decode_ctx(buf: &mut Reader, ctx: Ctx) -> (r: Result<Self, SerializationError>) {
        if ctx.classic {
            Self::read_classic(buf)
        } else {
            Self::read_flexible(buf, ctx.flexible)
        }
    }
}

impl AlterConfigsRequest {
    /// The API key of this message.
    pub fn get_api_key() -> (r: ApiKey)
        ensures
            r.0 == 33,
    {
        ApiKey::new(33)
    }

    /// The oldest version of this message.
    pub fn get_min_supported_version() -> (r: ApiVersion)
        ensures
            r.0 == 0,
    {
        ApiVersion::new(0)
    }

    /// The newest version of this message.
    pub fn get_max_supported_version() -> (r: ApiVersion)
        ensures
            r.0 == 2,
    {
        ApiVersion::new(2)
    }

    /// The encoding of a whole message body at `version`.
    pub open spec fn spec_serialize(m: AlterConfigsRequestModel, version: i16) -> Result<Seq<u8>, SerializationError> {
        let is_flexible = 2 <= version;
        let ctx = Ctx { version, flexible: is_flexible, classic: false };
        let r = Ok(Seq::<u8>::empty());
        let r = then(r, map_encode_err(array_bytes::<AlterConfigsResource>(m.resources, Ctx { version: ctx.version, flexible: ctx.flexible, classic: false }), SerializationError::Encode("failed to encode Resources")));
        let r = then(r, map_encode_err(Ok(bool_bytes(m.validate_only)), SerializationError::Encode("failed to encode ValidateOnly")));
        let r = if ctx.flexible { then(r, Ok(uvarint_bytes(0))) } else { r };
        r
    }

    /// The message body read at `version`.
    pub open spec fn spec_deserialize(s: Seq<u8>, pos: int, version: i16) -> Result<(AlterConfigsRequestModel, int), SerializationError> {
        let is_flexible = 2 <= version;
        let ctx = Ctx { version, flexible: is_flexible, classic: false };
        match map_decode_err(parse_array::<AlterConfigsResource>(s, pos, Ctx { version: ctx.version, flexible: ctx.flexible, classic: false }), SerializationError::Decode("failed to decode Resources")) {
            Err(e) => Err(e),
            Ok((resources, pos)) =>
            match map_decode_err(parse_bool(s, pos), SerializationError::Decode("failed to decode ValidateOnly")) {
                Err(e) => Err(e),
                Ok((validate_only, pos)) =>
                Ok((AlterConfigsRequestModel { resources, validate_only }, pos))
            }
        }
    }

    /// Message bodies that read back when written at `version`: every field that
    /// the version leaves out holds its default, and nested values read back.
    pub open spec fn reads_back_message(m: AlterConfigsRequestModel, version: i16) -> bool {
        let is_flexible = 2 <= version;
        let ctx = Ctx { version, flexible: is_flexible, classic: false };
        &&& forall|i: int| 0 <= i < m.resources.len() ==> #[trigger] <AlterConfigsResource as KafkaCodec>::reads_back(m.resources[i], Ctx { version: ctx.version, flexible: ctx.flexible, classic: false })
    }

    /// A message body that can be written at `version` and reads back: reading a
    /// body at `version` from its bytes, wherever they stand, gives the same message.
    #[verifier::spinoff_prover]
    pub proof fn lemma_message_read_back(pre: Seq<u8>, m: AlterConfigsRequestModel, post: Seq<u8>, version: i16)
        requires
            Self::spec_serialize(m, version) is Ok,
            Self::reads_back_message(m, version),
        ensures
            Self::spec_deserialize(pre + Self::spec_serialize(m, version)->Ok_0 + post, pre.len() as int, version) == Ok::<(AlterConfigsRequestModel, int), SerializationError>((m, pre.len() as int + Self::spec_serialize(m, version)->Ok_0.len() - (if 2 <= version { 1int } else { 0int }))),
    {
        let is_flexible = 2 <= version;
        let ctx = Ctx { version, flexible: is_flexible, classic: false };
        let b0 = (array_bytes::<AlterConfigsResource>(m.resources, Ctx { version: ctx.version, flexible: ctx.flexible, classic: false }))->Ok_0;
        let b1 = bool_bytes(m.validate_only);
        let b2 = if ctx.flexible { uvarint_bytes(0) } else { Seq::<u8>::empty() };
        let t3 = post;
        let t2 = b2 + t3;
        let t1 = b1 + t2;
        let t0 = b0 + t1;
        let e = Self::spec_serialize(m, version)->Ok_0;
        assert(e =~= Seq::<u8>::empty() + b0 + b1 + b2);
        lemma_seq_assoc(((Seq::<u8>::empty() + b0) + b1), b2, post);
        lemma_seq_assoc((Seq::<u8>::empty() + b0), b1, (b2 + post));
        lemma_seq_assoc(Seq::<u8>::empty(), b0, (b1 + (b2 + post)));
        lemma_seq_empty_left((b0 + (b1 + (b2 + post))));
        let s = pre + e + post;
        lemma_seq_assoc(pre, e, post);
        assert(s == pre + t0);
        let a0 = pre;
        assert(parse_array::<AlterConfigsResource>(s, a0.len() as int, Ctx { version: ctx.version, flexible: ctx.flexible, classic: false }) == Ok::<(Seq<<AlterConfigsResource as DeepView>::V>, int), SerializationError>((m.resources, a0.len() as int + b0.len()))) by {
            assert(array_bytes::<AlterConfigsResource>(m.resources, Ctx { version: ctx.version, flexible: ctx.flexible, classic: false }) is Ok);
            lemma_seq_assoc(a0, b0, t1);
            lemma_items_read_back::<AlterConfigsResource>(m.resources, Ctx { version: ctx.version, flexible: ctx.flexible, classic: false });
            lemma_array_roundtrip::<AlterConfigsResource>(a0, m.resources, t1, Ctx { version: ctx.version, flexible: ctx.flexible, classic: false });
        }
        lemma_seq_assoc(a0, b0, t1);
        let a1 = a0 + b0;
        assert(parse_bool(s, a1.len() as int) == Ok::<(bool, int), SerializationError>((m.validate_only, a1.len() as int + b1.len()))) by {
            lemma_seq_assoc(a1, b1, t2);
            lemma_bool_roundtrip(a1, m.validate_only, t2);
        }
        lemma_seq_assoc(a1, b1, t2);
        let a2 = a1 + b1;
    }

    /// The bytes written: the encoding of each field, in the order of the
    /// protocol's layout. Reading them back, wherever they stand, gives the value,
    /// with each field that the version leaves out at its default.
    #[verifier::spinoff_prover]
    pub proof fn lemma_message_layout(pre: Seq<u8>, m: AlterConfigsRequestModel, post: Seq<u8>, version: i16)
        requires
            Self::spec_serialize(m, version) is Ok,
        ensures
            Self::spec_serialize(m, version) == Ok::<Seq<u8>, SerializationError>(((array_bytes::<AlterConfigsResource>(m.resources, Ctx { version: version, flexible: (2 <= version), classic: false }))->Ok_0) + (bool_bytes(m.validate_only)) + (if (2 <= version) { uvarint_bytes(0) } else { Seq::<u8>::empty() })),
            Self::reads_back_message(m, version) ==> Self::spec_deserialize(pre + (((array_bytes::<AlterConfigsResource>(m.resources, Ctx { version: version, flexible: (2 <= version), classic: false }))->Ok_0) + (bool_bytes(m.validate_only)) + (if (2 <= version) { uvarint_bytes(0) } else { Seq::<u8>::empty() })) + post, pre.len() as int, version) == Ok::<(AlterConfigsRequestModel, int), SerializationError>((m, pre.len() as int + (((array_bytes::<AlterConfigsResource>(m.resources, Ctx { version: version, flexible: (2 <= version), classic: false }))->Ok_0) + (bool_bytes(m.validate_only)) + (if (2 <= version) { uvarint_bytes(0) } else { Seq::<u8>::empty() })).len() - (if 2 <= version { 1int } else { 0int }))),
    {
        let is_flexible = 2 <= version;
        let ctx = Ctx { version, flexible: is_flexible, classic: false };
        let b0 = (array_bytes::<AlterConfigsResource>(m.resources, Ctx { version: ctx.version, flexible: ctx.flexible, classic: false }))->Ok_0;
        let b1 = bool_bytes(m.validate_only);
        let b2 = if ctx.flexible { uvarint_bytes(0) } else { Seq::<u8>::empty() };
        let e = Self::spec_serialize(m, version)->Ok_0;
        assert(e =~= Seq::<u8>::empty() + b0 + b1 + b2);
        assert(e =~= b0 + b1 + b2);
        if Self::reads_back_message(m, version) {
            Self::lemma_message_read_back(pre, m, post, version);
        }
    }

    /// Writing succeeds exactly when every field that the version carries can be
    /// encoded and every field that it leaves out, where leaving it out is an
    /// error, holds its default.
    #[verifier::spinoff_prover]
    pub proof fn lemma_message_write_succeeds(m: AlterConfigsRequestModel, version: i16)
        ensures
            Self::spec_serialize(m, version) is Ok <==> (map_encode_err(array_bytes::<AlterConfigsResource>(m.resources, Ctx { version: version, flexible: (2 <= version), classic: false }), SerializationError::Encode("failed to encode Resources")) is Ok) && (map_encode_err(Ok(bool_bytes(m.validate_only)), SerializationError::Encode("failed to encode ValidateOnly")) is Ok),
    {
        let is_flexible = 2 <= version;
        let ctx = Ctx { version, flexible: is_flexible, classic: false };
    }

    /// Writes the message body for `version`, which must be a supported version.
    /// On failure the buffer is left as it was.
    pub fn serialize(&self, version: ApiVersion, buf: &mut Vec<u8>) -> (r: Result<(), SerializationError>)
        requires
            0 <= version.0 <= 2,
        ensures
            write_exact(r, old(buf)@, final(buf)@, Self::spec_serialize(self.deep_view(), version.0)),
    {
        let start = buf.len();
        let r = self.write_body(version, buf);
        if r.is_err() {
            buf.truncate(start);
        }
        r
    }

    fn write_body(&self, version: ApiVersion, buf: &mut Vec<u8>) -> (r: Result<(), SerializationError>)
        requires
            0 <= version.0 <= 2,
        ensures
            write_ok(r, old(buf)@, final(buf)@, Self::spec_serialize(self.deep_view(), version.0)),
    {
        let is_flexible = 2 <= version.0;
        let ctx = Ctx::new(version, is_flexible);
        let ghost mut w: Seq<u8> = Seq::empty();
        match encode_array(&self.resources, buf, Ctx { version: ctx.version, flexible: ctx.flexible, classic: false }) {
            Ok(()) => {},
            Err(_) => {
                return Err(SerializationError::Encode("failed to encode Resources"));
            },
        }
        proof {
            w = w + (map_encode_err(array_bytes::<AlterConfigsResource>(self.resources.deep_view(), Ctx { version: ctx.version, flexible: ctx.flexible, classic: false }), SerializationError::Encode("failed to encode Resources")))->Ok_0;
        }
        assert(buf@ =~= old(buf)@ + w);
        put_bool(buf, self.validate_only);
        proof {
            w = w + (map_encode_err(Ok(bool_bytes(self.validate_only)), SerializationError::Encode("failed to encode ValidateOnly")))->Ok_0;
        }
        assert(buf@ =~= old(buf)@ + w);
        if ctx.flexible {
            encode_unsigned_varint(0, buf);
            proof {
                w = w + uvarint_bytes(0);
            }
            assert(buf@ =~= old(buf)@ + w);
        }
        Ok(())
    }

    /// Reads a message body written for `version`.
    /// On failure the reader is put back where it started.
    pub fn deserialize(version: ApiVersion, buf: &mut Reader) -> (r: Result<Self, SerializationError>)
        ensures
            final(buf).bytes() == old(buf).bytes(),
            read_view_exact(r, Self::spec_deserialize(old(buf).bytes(), old(buf).pos(), version.0), old(buf).pos(), final(buf).pos()),
    {
        let start = buf.position();
        let r = Self::read_body(version, buf);
        if r.is_err() {
            buf.set_position(start);
        }
        r
    }

    fn read_body(version: ApiVersion, buf: &mut Reader) -> (r: Result<Self, SerializationError>)
        ensures
            final(buf).bytes() == old(buf).bytes(),
            read_view_ok(r, Self::spec_deserialize(old(buf).bytes(), old(buf).pos(), version.0), final(buf).pos()),
    {
        let is_flexible = 2 <= version.0;
        let ctx = Ctx::new(version, is_flexible);
        let resources = match decode_array::<AlterConfigsResource>(buf, Ctx { version: ctx.version, flexible: ctx.flexible, classic: false }) { Ok(v) => v, Err(_) => { return Err(SerializationError::Decode("failed to decode Resources")); } };
        let validate_only = match buf.get_bool() { Ok(v) => v, Err(_) => { return Err(SerializationError::Decode("failed to decode ValidateOnly")); } };
        Ok(AlterConfigsRequest { resources, validate_only })
    }
}

// -------------------------------------------------------
// AlterConfigsResource
// -------------------------------------------------------
#[derive(Clone, Debug, Default, PartialEq)]
pub struct AlterConfigsResource {
    /// The resource type.
    pub resource_type: i8,
    /// The resource name.
    pub resource_name: String,
    /// The configurations.
    pub configs: Vec<AlterableConfig>,
}

/// The contents of `AlterConfigsResource`, with strings as characters and
/// nested values by their contents.
pub struct AlterConfigsResourceModel {
    pub resource_type: i8,
    pub resource_name: Seq<char>,
    pub configs: Seq<<AlterableConfig as DeepView>::V>,
}

impl DeepView for AlterConfigsResource {
    type V = AlterConfigsResourceModel;

    open spec fn deep_view(&self) -> AlterConfigsResourceModel {
        AlterConfigsResourceModel {
            resource_type: self.resource_type,
            resource_name: self.resource_name.deep_view(),
            configs: self.configs.deep_view(),
        }
    }
}

impl AlterConfigsResource {
    /// The classic encoding of the structure.
    pub open spec fn spec_encode_classic(m: AlterConfigsResourceModel) -> Result<Seq<u8>, SerializationError> {
        let r = Ok(Seq::<u8>::empty());
        let r = then(r, map_encode_err(Ok(i8_bytes(m.resource_type)), SerializationError::ValueTooLarge { message: "failed to encode ResourceType" }));
        let r = then(r, map_encode_err(string_bytes(m.resource_name, false), SerializationError::ValueTooLarge { message: "failed to encode ResourceName" }));
        let r = then(r, map_encode_err(array_bytes::<AlterableConfig>(m.configs, Ctx { version: 0, flexible: false, classic: true }), SerializationError::ValueTooLarge { message: "failed to encode Configs" }));
        r
    }

    /// The flexible-aware encoding of the structure.
    pub open spec fn spec_encode_flexible(m: AlterConfigsResourceModel, is_flexible: bool) -> Result<Seq<u8>, SerializationError> {
        let r = Ok(Seq::<u8>::empty());
        let r = then(r, map_encode_err(Ok(i8_bytes(m.resource_type)), SerializationError::ValueTooLarge { message: "failed to encode ResourceType" }));
        let r = then(r, map_encode_err(string_bytes(m.resource_name, is_flexible), SerializationError::ValueTooLarge { message: "failed to encode ResourceName" }));
        let r = then(r, map_encode_err(array_bytes::<AlterableConfig>(m.configs, Ctx { version: 0, flexible: is_flexible, classic: false }), SerializationError::ValueTooLarge { message: "failed to encode Configs" }));
        let r = if is_flexible { then(r, Ok(uvarint_bytes(0))) } else { r };
        r
    }

    /// The structure read by the classic decoder.
    pub open spec fn spec_decode_classic(s: Seq<u8>, pos: int) -> Result<(AlterConfigsResourceModel, int), SerializationError> {
        match map_decode_err(parse_i8(s, pos), SerializationError::Protocol { message: "failed to decode ResourceType" }) {
            Err(e) => Err(e),
            Ok((resource_type, pos)) =>
            match map_decode_err(parse_string(s, pos, false), SerializationError::Protocol { message: "failed to decode ResourceName" }) {
                Err(e) => Err(e),
                Ok((resource_name, pos)) =>
                match map_decode_err(parse_array::<AlterableConfig>(s, pos, Ctx { version: 0, flexible: false, classic: true }), SerializationError::Protocol { message: "failed to decode Configs" }) {
                    Err(e) => Err(e),
                    Ok((configs, pos)) =>
                    Ok((AlterConfigsResourceModel { resource_type, resource_name, configs }, pos))
                }
            }
        }
    }

    /// The structure read by the flexible-aware decoder.
    pub open spec fn spec_decode_flexible(s: Seq<u8>, pos: int, is_flexible: bool) -> Result<(AlterConfigsResourceModel, int), SerializationError> {
        match map_decode_err(parse_i8(s, pos), SerializationError::Protocol { message: "failed to decode ResourceType" }) {
            Err(e) => Err(e),
            Ok((resource_type, pos)) =>
            match map_decode_err(parse_string(s, pos, is_flexible), SerializationError::Protocol { message: "failed to decode ResourceName" }) {
                Err(e) => Err(e),
                Ok((resource_name, pos)) =>
                match map_decode_err(parse_array::<AlterableConfig>(s, pos, Ctx { version: 0, flexible: is_flexible, classic: false }), SerializationError::Protocol { message: "failed to decode Configs" }) {
                    Err(e) => Err(e),
                    Ok((configs, pos)) =>
                    match (if is_flexible { parse_uvarint(s, pos) } else { Ok((0u64, pos)) }) {
                        Err(e) => Err(e),
                        Ok((_tag_count, pos)) =>
                        Ok((AlterConfigsResourceModel { resource_type, resource_name, configs }, pos))
                    }
                }
            }
        }
    }

    /// Values of the structure that read back from their classic encoding:
    /// nested values read back.
    pub open spec fn reads_back_classic(m: AlterConfigsResourceModel) -> bool {
        &&& forall|i: int| 0 <= i < m.configs.len() ==> #[trigger] <AlterableConfig as KafkaCodec>::reads_back(m.configs[i], Ctx { version: 0, flexible: false, classic: true })
    }

    /// A value that can be written and reads back: decoding its encoding, wherever
    /// it stands, gives the value and the position just after it.
    #[verifier::spinoff_prover]
    pub proof fn lemma_classic_read_back(pre: Seq<u8>, m: AlterConfigsResourceModel, post: Seq<u8>)
        requires
            Self::spec_encode_classic(m) is Ok,
            Self::reads_back_classic(m),
        ensures
            Self::spec_decode_classic(pre + Self::spec_encode_classic(m)->Ok_0 + post, pre.len() as int) == Ok::<(AlterConfigsResourceModel, int), SerializationError>((m, pre.len() as int + Self::spec_encode_classic(m)->Ok_0.len())),
    {
        let b0 = i8_bytes(m.resource_type);
        let b1 = (string_bytes(m.resource_name, false))->Ok_0;
        let b2 = (array_bytes::<AlterableConfig>(m.configs, Ctx { version: 0, flexible: false, classic: true }))->Ok_0;
        let t3 = post;
        let t2 = b2 + t3;
        let t1 = b1 + t2;
        let t0 = b0 + t1;
        let e = Self::spec_encode_classic(m)->Ok_0;
        assert(e =~= Seq::<u8>::empty() + b0 + b1 + b2);
        lemma_seq_assoc(((Seq::<u8>::empty() + b0) + b1), b2, post);
        lemma_seq_assoc((Seq::<u8>::empty() + b0), b1, (b2 + post));
        lemma_seq_assoc(Seq::<u8>::empty(), b0, (b1 + (b2 + post)));
        lemma_seq_empty_left((b0 + (b1 + (b2 + post))));
        let s = pre + e + post;
        lemma_seq_assoc(pre, e, post);
        assert(s == pre + t0);
        let a0 = pre;
        assert(parse_i8(s, a0.len() as int) == Ok::<(i8, int), SerializationError>((m.resource_type, a0.len() as int + b0.len()))) by {
            lemma_seq_assoc(a0, b0, t1);
            lemma_i8_roundtrip(a0, m.resource_type, t1);
        }
        lemma_seq_assoc(a0, b0, t1);
        let a1 = a0 + b0;
        assert(parse_string(s, a1.len() as int, false) == Ok::<(Seq<char>, int), SerializationError>((m.resource_name, a1.len() as int + b1.len()))) by {
            assert(string_bytes(m.resource_name, false) is Ok);
            lemma_seq_assoc(a1, b1, t2);
            lemma_string_roundtrip(a1, m.resource_name, t2, false);
        }
        lemma_seq_assoc(a1, b1, t2);
        let a2 = a1 + b1;
        assert(parse_array::<AlterableConfig>(s, a2.len() as int, Ctx { version: 0, flexible: false, classic: true }) == Ok::<(Seq<<AlterableConfig as DeepView>::V>, int), SerializationError>((m.configs, a2.len() as int + b2.len()))) by {
            assert(array_bytes::<AlterableConfig>(m.configs, Ctx { version: 0, flexible: false, classic: true }) is Ok);
            lemma_seq_assoc(a2, b2, t3);
            lemma_items_read_back::<AlterableConfig>(m.configs, Ctx { version: 0, flexible: false, classic: true });
            lemma_array_roundtrip::<AlterableConfig>(a2, m.configs, t3, Ctx { version: 0, flexible: false, classic: true });
        }
    }

    /// The bytes written: the encoding of each field, in the order of the
    /// protocol's layout. Reading them back, wherever they stand, gives the value,
    /// with each field that the version leaves out at its default.
    #[verifier::spinoff_prover]
    pub proof fn lemma_classic_layout(pre: Seq<u8>, m: AlterConfigsResourceModel, post: Seq<u8>)
        requires
            Self::spec_encode_classic(m) is Ok,
        ensures
            Self::spec_encode_classic(m) == Ok::<Seq<u8>, SerializationError>((i8_bytes(m.resource_type)) + ((string_bytes(m.resource_name, false))->Ok_0) + ((array_bytes::<AlterableConfig>(m.configs, Ctx { version: 0, flexible: false, classic: true }))->Ok_0)),
            Self::reads_back_classic(m) ==> Self::spec_decode_classic(pre + ((i8_bytes(m.resource_type)) + ((string_bytes(m.resource_name, false))->Ok_0) + ((array_bytes::<AlterableConfig>(m.configs, Ctx { version: 0, flexible: false, classic: true }))->Ok_0)) + post, pre.len() as int) == Ok::<(AlterConfigsResourceModel, int), SerializationError>((m, pre.len() as int + ((i8_bytes(m.resource_type)) + ((string_bytes(m.resource_name, false))->Ok_0) + ((array_bytes::<AlterableConfig>(m.configs, Ctx { version: 0, flexible: false, classic: true }))->Ok_0)).len())),
    {
        let b0 = i8_bytes(m.resource_type);
        let b1 = (string_bytes(m.resource_name, false))->Ok_0;
        let b2 = (array_bytes::<AlterableConfig>(m.configs, Ctx { version: 0, flexible: false, classic: true }))->Ok_0;
        let e = Self::spec_encode_classic(m)->Ok_0;
        assert(e =~= Seq::<u8>::empty() + b0 + b1 + b2);
        assert(e =~= b0 + b1 + b2);
        if Self::reads_back_classic(m) {
            Self::lemma_classic_read_back(pre, m, post);
        }
    }

    /// Writing succeeds exactly when every field that the version carries can be
    /// encoded and every field that it leaves out, where leaving it out is an
    /// error, holds its default.
    #[verifier::spinoff_prover]
    pub proof fn lemma_classic_write_succeeds(m: AlterConfigsResourceModel)
        ensures
            Self::spec_encode_classic(m) is Ok <==> (map_encode_err(Ok(i8_bytes(m.resource_type)), SerializationError::ValueTooLarge { message: "failed to encode ResourceType" }) is Ok) && (map_encode_err(string_bytes(m.resource_name, false), SerializationError::ValueTooLarge { message: "failed to encode ResourceName" }) is Ok) && (map_encode_err(array_bytes::<AlterableConfig>(m.configs, Ctx { version: 0, flexible: false, classic: true }), SerializationError::ValueTooLarge { message: "failed to encode Configs" }) is Ok),
    {
    }

    /// Values of the structure that read back from their flexible-aware encoding:
    /// nested values read back.
    pub open spec fn reads_back_flexible(m: AlterConfigsResourceModel, is_flexible: bool) -> bool {
        &&& forall|i: int| 0 <= i < m.configs.len() ==> #[trigger] <AlterableConfig as KafkaCodec>::reads_back(m.configs[i], Ctx { version: 0, flexible: is_flexible, classic: false })
    }

    /// A value that can be written and reads back: decoding its encoding, wherever
    /// it stands, gives the value and the position just after it.
    #[verifier::spinoff_prover]
    pub proof fn lemma_flexible_read_back(pre: Seq<u8>, m: AlterConfigsResourceModel, post: Seq<u8>, is_flexible: bool)
        requires
            Self::spec_encode_flexible(m, is_flexible) is Ok,
            Self::reads_back_flexible(m, is_flexible),
        ensures
            Self::spec_decode_flexible(pre + Self::spec_encode_flexible(m, is_flexible)->Ok_0 + post, pre.len() as int, is_flexible) == Ok::<(AlterConfigsResourceModel, int), SerializationError>((m, pre.len() as int + Self::spec_encode_flexible(m, is_flexible)->Ok_0.len())),
    {
        let b0 = i8_bytes(m.resource_type);
        let b1 = (string_bytes(m.resource_name, is_flexible))->Ok_0;
        let b2 = (array_bytes::<AlterableConfig>(m.configs, Ctx { version: 0, flexible: is_flexible, classic: false }))->Ok_0;
        let b3 = if is_flexible { uvarint_bytes(0) } else { Seq::<u8>::empty() };
        let t4 = post;
        let t3 = b3 + t4;
        let t2 = b2 + t3;
        let t1 = b1 + t2;
        let t0 = b0 + t1;
        let e = Self::spec_encode_flexible(m, is_flexible)->Ok_0;
        assert(e =~= Seq::<u8>::empty() + b0 + b1 + b2 + b3);
        lemma_seq_assoc((((Seq::<u8>::empty() + b0) + b1) + b2), b3, post);
        lemma_seq_assoc(((Seq::<u8>::empty() + b0) + b1), b2, (b3 + post));
        lemma_seq_assoc((Seq::<u8>::empty() + b0), b1, (b2 + (b3 + post)));
        lemma_seq_assoc(Seq::<u8>::empty(), b0, (b1 + (b2 + (b3 + post))));
        lemma_seq_empty_left((b0 + (b1 + (b2 + (b3 + post)))));
        let s = pre + e + post;
        lemma_seq_assoc(pre, e, post);
        assert(s == pre + t0);
        let a0 = pre;
        assert(parse_i8(s, a0.len() as int) == Ok::<(i8, int), SerializationError>((m.resource_type, a0.len() as int + b0.len()))) by {
            lemma_seq_assoc(a0, b0, t1);
            lemma_i8_roundtrip(a0, m.resource_type, t1);
        }
        lemma_seq_assoc(a0, b0, t1);
        let a1 = a0 + b0;
        assert(parse_string(s, a1.len() as int, is_flexible) == Ok::<(Seq<char>, int), SerializationError>((m.resource_name, a1.len() as int + b1.len()))) by {
            assert(string_bytes(m.resource_name, is_flexible) is Ok);
            lemma_seq_assoc(a1, b1, t2);
            lemma_string_roundtrip(a1, m.resource_name, t2, is_flexible);
        }
        lemma_seq_assoc(a1, b1, t2);
        let a2 = a1 + b1;
        assert(parse_array::<AlterableConfig>(s, a2.len() as int, Ctx { version: 0, flexible: is_flexible, classic: false }) == Ok::<(Seq<<AlterableConfig as DeepView>::V>, int), SerializationError>((m.configs, a2.len() as int + b2.len()))) by {
            assert(array_bytes::<AlterableConfig>(m.configs, Ctx { version: 0, flexible: is_flexible, classic: false }) is Ok);
            lemma_seq_assoc(a2, b2, t3);
            lemma_items_read_back::<AlterableConfig>(m.configs, Ctx { version: 0, flexible: is_flexible, classic: false });
            lemma_array_roundtrip::<AlterableConfig>(a2, m.configs, t3, Ctx { version: 0, flexible: is_flexible, classic: false });
        }
        lemma_seq_assoc(a2, b2, t3);
        let a3 = a2 + b2;
        if is_flexible {
            assert(parse_uvarint(s, a3.len() as int) == Ok::<(u64, int), SerializationError>((0u64, a3.len() as int + b3.len()))) by {
                lemma_seq_assoc(a3, b3, t4);
                lemma_uvarint_roundtrip(a3, 0, t4);
            }
        }
    }

    /// The bytes written: the encoding of each field, in the order of the
    /// protocol's layout. Reading them back, wherever they stand, gives the value,
    /// with each field that the version leaves out at its default.
    #[verifier::spinoff_prover]
    pub proof fn lemma_flexible_layout(pre: Seq<u8>, m: AlterConfigsResourceModel, post: Seq<u8>, is_flexible: bool)
        requires
            Self::spec_encode_flexible(m, is_flexible) is Ok,
        ensures
            Self::spec_encode_flexible(m, is_flexible) == Ok::<Seq<u8>, SerializationError>((i8_bytes(m.resource_type)) + ((string_bytes(m.resource_name, is_flexible))->Ok_0) + ((array_bytes::<AlterableConfig>(m.configs, Ctx { version: 0, flexible: is_flexible, classic: false }))->Ok_0) + (if is_flexible { uvarint_bytes(0) } else { Seq::<u8>::empty() })),
            Self::reads_back_flexible(m, is_flexible) ==> Self::spec_decode_flexible(pre + ((i8_bytes(m.resource_type)) + ((string_bytes(m.resource_name, is_flexible))->Ok_0) + ((array_bytes::<AlterableConfig>(m.configs, Ctx { version: 0, flexible: is_flexible, classic: false }))->Ok_0) + (if is_flexible { uvarint_bytes(0) } else { Seq::<u8>::empty() })) + post, pre.len() as int, is_flexible) == Ok::<(AlterConfigsResourceModel, int), SerializationError>((m, pre.len() as int + ((i8_bytes(m.resource_type)) + ((string_bytes(m.resource_name, is_flexible))->Ok_0) + ((array_bytes::<AlterableConfig>(m.configs, Ctx { version: 0, flexible: is_flexible, classic: false }))->Ok_0) + (if is_flexible { uvarint_bytes(0) } else { Seq::<u8>::empty() })).len())),
    {
        let b0 = i8_bytes(m.resource_type);
        let b1 = (string_bytes(m.resource_name, is_flexible))->Ok_0;
        let b2 = (array_bytes::<AlterableConfig>(m.configs, Ctx { version: 0, flexible: is_flexible, classic: false }))->Ok_0;
        let b3 = if is_flexible { uvarint_bytes(0) } else { Seq::<u8>::empty() };
        let e = Self::spec_encode_flexible(m, is_flexible)->Ok_0;
        assert(e =~= Seq::<u8>::empty() + b0 + b1 + b2 + b3);
        assert(e =~= b0 + b1 + b2 + b3);
        if Self::reads_back_flexible(m, is_flexible) {
            Self::lemma_flexible_read_back(pre, m, post, is_flexible);
        }
    }

    /// Writing succeeds exactly when every field that the version carries can be
    /// encoded and every field that it leaves out, where leaving it out is an
    /// error, holds its default.
    #[verifier::spinoff_prover]
    pub proof fn lemma_flexible_write_succeeds(m: AlterConfigsResourceModel, is_flexible: bool)
        ensures
            Self::spec_encode_flexible(m, is_flexible) is Ok <==> (map_encode_err(Ok(i8_bytes(m.resource_type)), SerializationError::ValueTooLarge { message: "failed to encode ResourceType" }) is Ok) && (map_encode_err(string_bytes(m.resource_name, is_flexible), SerializationError::ValueTooLarge { message: "failed to encode ResourceName" }) is Ok) && (map_encode_err(array_bytes::<AlterableConfig>(m.configs, Ctx { version: 0, flexible: is_flexible, classic: false }), SerializationError::ValueTooLarge { message: "failed to encode Configs" }) is Ok),
    {
    }

    /// With the compact encodings off, the flexible-aware layout is the classic
    /// layout: both write the same bytes.
    pub proof fn lemma_flexible_off_writes_classic(m: AlterConfigsResourceModel)
        ensures
            Self::spec_encode_flexible(m, false) == Self::spec_encode_classic(m),
    {
        assert forall|i: int| 0 <= i < m.configs.len() implies <AlterableConfig as KafkaCodec>::spec_encode(#[trigger] m.configs[i], Ctx { version: 0, flexible: false, classic: true }) == <AlterableConfig as KafkaCodec>::spec_encode(m.configs[i], Ctx { version: 0, flexible: false, classic: false }) by {
            AlterableConfig::lemma_flexible_off_writes_classic(m.configs[i]);
        }
        lemma_array_bytes_agree::<AlterableConfig>(m.configs, Ctx { version: 0, flexible: false, classic: true }, Ctx { version: 0, flexible: false, classic: false });
    }

    /// With the compact encodings off, the flexible-aware layout is the classic
    /// layout: both read the same bytes alike.
    pub proof fn lemma_flexible_off_reads_classic(s: Seq<u8>, pos: int)
        ensures
            Self::spec_decode_flexible(s, pos, false) == Self::spec_decode_classic(s, pos),
    {
        assert forall|p: int| #[trigger] <AlterableConfig as KafkaCodec>::spec_decode(s, p, Ctx { version: 0, flexible: false, classic: true }) == <AlterableConfig as KafkaCodec>::spec_decode(s, p, Ctx { version: 0, flexible: false, classic: false }) by {
            AlterableConfig::lemma_flexible_off_reads_classic(s, p);
        }
        lemma_parse_array_agree::<AlterableConfig>(s, Ctx { version: 0, flexible: false, classic: true }, Ctx { version: 0, flexible: false, classic: false });
    }

    /// Writes the structure in the classic layout.
    /// On failure the buffer is left as it was.
    pub fn encode(&self, buf: &mut Vec<u8>) -> (r: Result<(), SerializationError>)
        ensures
            write_exact(r, old(buf)@, final(buf)@, Self::spec_encode_classic(self.deep_view())),
    {
        let start = buf.len();
        let r = self.write_classic(buf);
        if r.is_err() {
            buf.truncate(start);
        }
        r
    }

    fn write_classic(&self, buf: &mut Vec<u8>) -> (r: Result<(), SerializationError>)
        ensures
            write_ok(r, old(buf)@, final(buf)@, Self::spec_encode_classic(self.deep_view())),
    {
        let ghost mut w: Seq<u8> = Seq::empty();
        put_i8(buf, self.resource_type);
        proof {
            w = w + (map_encode_err(Ok(i8_bytes(self.resource_type)), SerializationError::ValueTooLarge { message: "failed to encode ResourceType" }))->Ok_0;
        }
        assert(buf@ =~= old(buf)@ + w);
        match encode_string(&self.resource_name, buf, false) {
            Ok(()) => {},
            Err(_) => {
                return Err(SerializationError::ValueTooLarge { message: "failed to encode ResourceName" });
            },
        }
        proof {
            w = w + (map_encode_err(string_bytes(self.resource_name.deep_view(), false), SerializationError::ValueTooLarge { message: "failed to encode ResourceName" }))->Ok_0;
        }
        assert(buf@ =~= old(buf)@ + w);
        match encode_array(&self.configs, buf, Ctx { version: 0, flexible: false, classic: true }) {
            Ok(()) => {},
            Err(_) => {
                return Err(SerializationError::ValueTooLarge { message: "failed to encode Configs" });
            },
        }
        proof {
            w = w + (map_encode_err(array_bytes::<AlterableConfig>(self.configs.deep_view(), Ctx { version: 0, flexible: false, classic: true }), SerializationError::ValueTooLarge { message: "failed to encode Configs" }))->Ok_0;
        }
        assert(buf@ =~= old(buf)@ + w);
        Ok(())
    }

    /// Writes the structure, with the compact encodings when `is_flexible`.
    /// On failure the buffer is left as it was.
    pub fn encode_flexible(&self, buf: &mut Vec<u8>, is_flexible: bool) -> (r: Result<(), SerializationError>)
        ensures
            write_exact(r, old(buf)@, final(buf)@, Self::spec_encode_flexible(self.deep_view(), is_flexible)),
    {
        let start = buf.len();
        let r = self.write_flexible(buf, is_flexible);
        if r.is_err() {
            buf.truncate(start);
        }
        r
    }

    fn write_flexible(&self, buf: &mut Vec<u8>, is_flexible: bool) -> (r: Result<(), SerializationError>)
        ensures
            write_ok(r, old(buf)@, final(buf)@, Self::spec_encode_flexible(self.deep_view(), is_flexible)),
    {
        let ghost mut w: Seq<u8> = Seq::empty();
        put_i8(buf, self.resource_type);
        proof {
            w = w + (map_encode_err(Ok(i8_bytes(self.resource_type)), SerializationError::ValueTooLarge { message: "failed to encode ResourceType" }))->Ok_0;
        }
        assert(buf@ =~= old(buf)@ + w);
        match encode_string(&self.resource_name, buf, is_flexible) {
            Ok(()) => {},
            Err(_) => {
                return Err(SerializationError::ValueTooLarge { message: "failed to encode ResourceName" });
            },
        }
        proof {
            w = w + (map_encode_err(string_bytes(self.resource_name.deep_view(), is_flexible), SerializationError::ValueTooLarge { message: "failed to encode ResourceName" }))->Ok_0;
        }
        assert(buf@ =~= old(buf)@ + w);
        match encode_array(&self.configs, buf, Ctx { version: 0, flexible: is_flexible, classic: false }) {
            Ok(()) => {},
            Err(_) => {
                return Err(SerializationError::ValueTooLarge { message: "failed to encode Configs" });
            },
        }
        proof {
            w = w + (map_encode_err(array_bytes::<AlterableConfig>(self.configs.deep_view(), Ctx { version: 0, flexible: is_flexible, classic: false }), SerializationError::ValueTooLarge { message: "failed to encode Configs" }))->Ok_0;
        }
        assert(buf@ =~= old(buf)@ + w);
        if is_flexible {
            encode_unsigned_varint(0, buf);
            proof {
                w = w + uvarint_bytes(0);
            }
            assert(buf@ =~= old(buf)@ + w);
        }
        Ok(())
    }

    /// Reads the structure in the classic layout.
    /// On failure the reader is put back where it started.
    pub fn decode(buf: &mut Reader) -> (r: Result<Self, SerializationError>)
        ensures
            final(buf).bytes() == old(buf).bytes(),
            read_view_exact(r, Self::spec_decode_classic(old(buf).bytes(), old(buf).pos()), old(buf).pos(), final(buf).pos()),
    {
        let start = buf.position();
        let r = Self::read_classic(buf);
        if r.is_err() {
            buf.set_position(start);
        }
        r
    }

    fn read_classic(buf: &mut Reader) -> (r: Result<Self, SerializationError>)
        ensures
            final(buf).bytes() == old(buf).bytes(),
            read_view_ok(r, Self::spec_decode_classic(old(buf).bytes(), old(buf).pos()), final(buf).pos()),
    {
        let resource_type = match buf.get_i8() { Ok(v) => v, Err(_) => { return Err(SerializationError::Protocol { message: "failed to decode ResourceType" }); } };
        let resource_name = match buf.get_string(false) { Ok(v) => v, Err(_) => { return Err(SerializationError::Protocol { message: "failed to decode ResourceName" }); } };
        let configs = match decode_array::<AlterableConfig>(buf, Ctx { version: 0, flexible: false, classic: true }) { Ok(v) => v, Err(_) => { return Err(SerializationError::Protocol { message: "failed to decode Configs" }); } };
        Ok(AlterConfigsResource { resource_type, resource_name, configs })
    }

    /// Reads the structure, with the compact encodings when `is_flexible`.
    /// On failure the reader is put back where it started.
    pub fn decode_flexible(buf: &mut Reader, is_flexible: bool) -> (r: Result<Self, SerializationError>)
        ensures
            final(buf).bytes() == old(buf).bytes(),
            read_view_exact(r, Self::spec_decode_flexible(old(buf).bytes(), old(buf).pos(), is_flexible), old(buf).pos(), final(buf).pos()),
    {
        let start = buf.position();
        let r = Self::read_flexible(buf, is_flexible);
        if r.is_err() {
            buf.set_position(start);
        }
        r
    }

    fn read_flexible(buf: &mut Reader, is_flexible: bool) -> (r: Result<Self, SerializationError>)
        ensures
            final(buf).bytes() == old(buf).bytes(),
            read_view_ok(r, Self::spec_decode_flexible(old(buf).bytes(), old(buf).pos(), is_flexible), final(buf).pos()),
    {
        let resource_type = match buf.get_i8() { Ok(v) => v, Err(_) => { return Err(SerializationError::Protocol { message: "failed to decode ResourceType" }); } };
        let resource_name = match buf.get_string(is_flexible) { Ok(v) => v, Err(_) => { return Err(SerializationError::Protocol { message: "failed to decode ResourceName" }); } };
        let configs = match decode_array::<AlterableConfig>(buf, Ctx { version: 0, flexible: is_flexible, classic: false }) { Ok(v) => v, Err(_) => { return Err(SerializationError::Protocol { message: "failed to decode Configs" }); } };
        if is_flexible {
            let (_tag_count, _) = decode_unsigned_varint(buf)?;
        }
        Ok(AlterConfigsResource { resource_type, resource_name, configs })
    }
}

impl KafkaCodec for AlterConfigsResource {
    open spec fn spec_encode(m: AlterConfigsResourceModel, ctx: Ctx) -> Result<Seq<u8>, SerializationError> {
        if ctx.classic {
            Self::spec_encode_classic(m)
        } else {
            Self::spec_encode_flexible(m, ctx.flexible)
        }
    }

    open spec fn reads_back(v: AlterConfigsResourceModel, ctx: Ctx) -> bool {
        if ctx.classic {
            Self::reads_back_classic(v)
        } else {
            Self::reads_back_flexible(v, ctx.flexible)
        }
    }

    proof fn lemma_read_back(pre: Seq<u8>, v: AlterConfigsResourceModel, post: Seq<u8>, ctx: Ctx) {
        if ctx.classic {
            Self::lemma_classic_read_back(pre, v, post);
            assert(Self::spec_decode(pre + Self::spec_encode(v, ctx)->Ok_0 + post, pre.len() as int, ctx)
                == Self::spec_decode_classic(pre + Self::spec_encode_classic(v)->Ok_0 + post, pre.len() as int));
        } else {
            Self::lemma_flexible_read_back(pre, v, post, ctx.flexible);
            assert(Self::spec_decode(pre + Self::spec_encode(v, ctx)->Ok_0 + post, pre.len() as int, ctx)
                == Self::spec_decode_flexible(pre + Self::spec_encode_flexible(v, ctx.flexible)->Ok_0 + post, pre.len() as int, ctx.flexible));
        }
    }

    open spec fn spec_decode(s: Seq<u8>, pos: int, ctx: Ctx) -> Result<(AlterConfigsResourceModel, int), SerializationError> {
        if ctx.classic {
            Self::spec_decode_classic(s, pos)
        } else {
            Self::spec_decode_flexible(s, pos, ctx.flexible)
        }
    }

    fn encode_ctx(&self, buf: &mut Vec<u8>, ctx: Ctx) -> (r: Result<(), SerializationError>) {
        if ctx.classic {
            self.write_classic(buf)
        } else {
            self.write_flexible(buf, ctx.flexible)
        }
    }

    fn decode_ctx(buf: &mut Reader, ctx: Ctx) -> (r: Result<Self, SerializationError>) {
        if ctx.classic {
            Self::read_classic(buf)
        } else {
            Self::read_flexible(buf, ctx.flexible)
        }
    }
}

// -------------------------------------------------------
// AlterableConfig
// -------------------------------------------------------
#[derive(Clone, Debug, Default, PartialEq)]
pub struct AlterableConfig {
    /// The configuration key name.
    pub name: String,
    /// The value to set for the configuration key.
    pub value: Option<String>,
}

/// The contents of `AlterableConfig`, with strings as characters and
/// nested values by their contents.
pub struct AlterableConfigModel {
    pub name: Seq<char>,
    pub value: Option<Seq<char>>,
}

impl DeepView for AlterableConfig {
    type V = AlterableConfigModel;

    open spec fn deep_view(&self) -> AlterableConfigModel {
        AlterableConfigModel {
            name: self.name.deep_view(),
            value: self.value.deep_view(),
        }
    }
}

impl AlterableConfig {
    /// The classic encoding of the structure.
    pub open spec fn spec_encode_classic(m: AlterableConfigModel) -> Result<Seq<u8>, SerializationError> {
        let r = Ok(Seq::<u8>::empty());
        let r = then(r, map_encode_err(string_bytes(m.name, false), SerializationError::ValueTooLarge { message: "failed to encode Name" }));
        let r = then(r, map_encode_err(nullable_string_bytes(m.value, false), SerializationError::ValueTooLarge { message: "failed to encode Value" }));
        r
    }

    /// The flexible-aware encoding of the structure.
    pub open spec fn spec_encode_flexible(m: AlterableConfigModel, is_flexible: bool) -> Result<Seq<u8>, SerializationError> {
        let r = Ok(Seq::<u8>::empty());
        let r = then(r, map_encode_err(string_bytes(m.name, is_flexible), SerializationError::ValueTooLarge { message: "failed to encode Name" }));
        let r = if is_flexible { match m.value { Some(v) => then(then(r, Ok(uvarint_bytes(1))), map_encode_err(string_bytes(v, true), SerializationError::ValueTooLarge { message: "failed to encode Value" })), None => then(r, Ok(uvarint_bytes(0))) } } else { then(r, map_encode_err(nullable_string_bytes(m.value, false), SerializationError::ValueTooLarge { message: "failed to encode Value" })) };
        let r = if is_flexible { then(r, Ok(uvarint_bytes(0))) } else { r };
        r
    }

    /// The structure read by the classic decoder.
    pub open spec fn spec_decode_classic(s: Seq<u8>, pos: int) -> Result<(AlterableConfigModel, int), SerializationError> {
        match map_decode_err(parse_string(s, pos, false), SerializationError::Protocol { message: "failed to decode Name" }) {
            Err(e) => Err(e),
            Ok((name, pos)) =>
            match map_decode_err(parse_nullable_string(s, pos, false), SerializationError::Protocol { message: "failed to decode Value" }) {
                Err(e) => Err(e),
                Ok((value, pos)) =>
                Ok((AlterableConfigModel { name, value }, pos))
            }
        }
    }

    /// The structure read by the flexible-aware decoder.
    pub open spec fn spec_decode_flexible(s: Seq<u8>, pos: int, is_flexible: bool) -> Result<(AlterableConfigModel, int), SerializationError> {
        match map_decode_err(parse_string(s, pos, is_flexible), SerializationError::Protocol { message: "failed to decode Name" }) {
            Err(e) => Err(e),
            Ok((name, pos)) =>
            match (if is_flexible { match parse_uvarint(s, pos) { Err(e) => Err(e), Ok((present, p)) => if present == 0 { Ok((None, p)) } else { match (map_decode_err(parse_string(s, p, true), SerializationError::Protocol { message: "failed to decode Value" })) { Err(e) => Err(e), Ok((v, q)) => Ok((Some(v), q)) } } } } else { map_decode_err(parse_nullable_string(s, pos, false), SerializationError::Protocol { message: "failed to decode Value" }) }) {
                Err(e) => Err(e),
                Ok((value, pos)) =>
                match (if is_flexible { parse_uvarint(s, pos) } else { Ok((0u64, pos)) }) {
                    Err(e) => Err(e),
                    Ok((_tag_count, pos)) =>
                    Ok((AlterableConfigModel { name, value }, pos))
                }
            }
        }
    }

    /// Values of the structure that read back from their classic encoding:
    /// nested values read back.
    pub open spec fn reads_back_classic(m: AlterableConfigModel) -> bool {
        true
    }

    /// A value that can be written and reads back: decoding its encoding, wherever
    /// it stands, gives the value and the position just after it.
    #[verifier::spinoff_prover]
    pub proof fn lemma_classic_read_back(pre: Seq<u8>, m: AlterableConfigModel, post: Seq<u8>)
        requires
            Self::spec_encode_classic(m) is Ok,
            Self::reads_back_classic(m),
        ensures
            Self::spec_decode_classic(pre + Self::spec_encode_classic(m)->Ok_0 + post, pre.len() as int) == Ok::<(AlterableConfigModel, int), SerializationError>((m, pre.len() as int + Self::spec_encode_classic(m)->Ok_0.len())),
    {
        let b0 = (string_bytes(m.name, false))->Ok_0;
        let b1 = (nullable_string_bytes(m.value, false))->Ok_0;
        let t2 = post;
        let t1 = b1 + t2;
        let t0 = b0 + t1;
        let e = Self::spec_encode_classic(m)->Ok_0;
        assert(e =~= Seq::<u8>::empty() + b0 + b1);
        lemma_seq_assoc((Seq::<u8>::empty() + b0), b1, post);
        lemma_seq_assoc(Seq::<u8>::empty(), b0, (b1 + post));
        lemma_seq_empty_left((b0 + (b1 + post)));
        let s = pre + e + post;
        lemma_seq_assoc(pre, e, post);
        assert(s == pre + t0);
        let a0 = pre;
        assert(parse_string(s, a0.len() as int, false) == Ok::<(Seq<char>, int), SerializationError>((m.name, a0.len() as int + b0.len()))) by {
            assert(string_bytes(m.name, false) is Ok);
            lemma_seq_assoc(a0, b0, t1);
            lemma_string_roundtrip(a0, m.name, t1, false);
        }
        lemma_seq_assoc(a0, b0, t1);
        let a1 = a0 + b0;
        assert(parse_nullable_string(s, a1.len() as int, false) == Ok::<(Option<Seq<char>>, int), SerializationError>((m.value, a1.len() as int + b1.len()))) by {
            assert(nullable_string_bytes(m.value, false) is Ok);
            lemma_seq_assoc(a1, b1, t2);
            lemma_nullable_string_roundtrip(a1, m.value, t2, false);
        }
    }

    /// The bytes written: the encoding of each field, in the order of the
    /// protocol's layout. Reading them back, wherever they stand, gives the value,
    /// with each field that the version leaves out at its default.
    #[verifier::spinoff_prover]
    pub proof fn lemma_classic_layout(pre: Seq<u8>, m: AlterableConfigModel, post: Seq<u8>)
        requires
            Self::spec_encode_classic(m) is Ok,
        ensures
            Self::spec_encode_classic(m) == Ok::<Seq<u8>, SerializationError>(((string_bytes(m.name, false))->Ok_0) + ((nullable_string_bytes(m.value, false))->Ok_0)),
            Self::reads_back_classic(m) ==> Self::spec_decode_classic(pre + (((string_bytes(m.name, false))->Ok_0) + ((nullable_string_bytes(m.value, false))->Ok_0)) + post, pre.len() as int) == Ok::<(AlterableConfigModel, int), SerializationError>((m, pre.len() as int + (((string_bytes(m.name, false))->Ok_0) + ((nullable_string_bytes(m.value, false))->Ok_0)).len())),
    {
        let b0 = (string_bytes(m.name, false))->Ok_0;
        let b1 = (nullable_string_bytes(m.value, false))->Ok_0;
        let e = Self::spec_encode_classic(m)->Ok_0;
        assert(e =~= Seq::<u8>::empty() + b0 + b1);
        assert(e =~= b0 + b1);
        if Self::reads_back_classic(m) {
            Self::lemma_classic_read_back(pre, m, post);
        }
    }

    /// Writing succeeds exactly when every field that the version carries can be
    /// encoded and every field that it leaves out, where leaving it out is an
    /// error, holds its default.
    #[verifier::spinoff_prover]
    pub proof fn lemma_classic_write_succeeds(m: AlterableConfigModel)
        ensures
            Self::spec_encode_classic(m) is Ok <==> (map_encode_err(string_bytes(m.name, false), SerializationError::ValueTooLarge { message: "failed to encode Name" }) is Ok) && (map_encode_err(nullable_string_bytes(m.value, false), SerializationError::ValueTooLarge { message: "failed to encode Value" }) is Ok),
    {
    }

    /// Values of the structure that read back from their flexible-aware encoding:
    /// nested values read back.
    pub open spec fn reads_back_flexible(m: AlterableConfigModel, is_flexible: bool) -> bool {
        true
    }

    /// A value that can be written and reads back: decoding its encoding, wherever
    /// it stands, gives the value and the position just after it.
    #[verifier::spinoff_prover]
    pub proof fn lemma_flexible_read_back(pre: Seq<u8>, m: AlterableConfigModel, post: Seq<u8>, is_flexible: bool)
        requires
            Self::spec_encode_flexible(m, is_flexible) is Ok,
            Self::reads_back_flexible(m, is_flexible),
        ensures
            Self::spec_decode_flexible(pre + Self::spec_encode_flexible(m, is_flexible)->Ok_0 + post, pre.len() as int, is_flexible) == Ok::<(AlterableConfigModel, int), SerializationError>((m, pre.len() as int + Self::spec_encode_flexible(m, is_flexible)->Ok_0.len())),
    {
        let b0 = (string_bytes(m.name, is_flexible))->Ok_0;
        let b1 = if is_flexible { match m.value { Some(v) => uvarint_bytes(1) + (string_bytes(v, true))->Ok_0, None => uvarint_bytes(0) } } else { (nullable_string_bytes(m.value, false))->Ok_0 };
        let b2 = if is_flexible { uvarint_bytes(0) } else { Seq::<u8>::empty() };
        let t3 = post;
        let t2 = b2 + t3;
        let t1 = b1 + t2;
        let t0 = b0 + t1;
        let e = Self::spec_encode_flexible(m, is_flexible)->Ok_0;
        assert(e =~= Seq::<u8>::empty() + b0 + b1 + b2);
        lemma_seq_assoc(((Seq::<u8>::empty() + b0) + b1), b2, post);
        lemma_seq_assoc((Seq::<u8>::empty() + b0), b1, (b2 + post));
        lemma_seq_assoc(Seq::<u8>::empty(), b0, (b1 + (b2 + post)));
        lemma_seq_empty_left((b0 + (b1 + (b2 + post))));
        let s = pre + e + post;
        lemma_seq_assoc(pre, e, post);
        assert(s == pre + t0);
        let a0 = pre;
        assert(parse_string(s, a0.len() as int, is_flexible) == Ok::<(Seq<char>, int), SerializationError>((m.name, a0.len() as int + b0.len()))) by {
            assert(string_bytes(m.name, is_flexible) is Ok);
            lemma_seq_assoc(a0, b0, t1);
            lemma_string_roundtrip(a0, m.name, t1, is_flexible);
        }
        lemma_seq_assoc(a0, b0, t1);
        let a1 = a0 + b0;
        if is_flexible {
            match m.value {
                Some(v) => {
                    let x = (string_bytes(v, true))->Ok_0;
                    assert(parse_uvarint(s, a1.len() as int) == Ok::<(u64, int), SerializationError>((1u64, a1.len() as int + 1))) by {
                        assert(s =~= a1 + uvarint_bytes(1) + (x + t2));
                        lemma_uvarint_roundtrip(a1, 1, x + t2);
                    }
                    let a1x = a1 + uvarint_bytes(1);
                    assert(parse_string(s, a1x.len() as int, true) == Ok::<(Seq<char>, int), SerializationError>((v, a1x.len() as int + x.len()))) by {
                        assert(s =~= a1x + x + t2);
                        lemma_string_roundtrip(a1x, v, t2, true);
                    }
                },
                None => {
                    assert(parse_uvarint(s, a1.len() as int) == Ok::<(u64, int), SerializationError>((0u64, a1.len() as int + 1))) by {
                        assert(s =~= a1 + b1 + t2);
                        lemma_uvarint_roundtrip(a1, 0, t2);
                    }
                },
            }
        } else {
            assert(parse_nullable_string(s, a1.len() as int, false) == Ok::<(Option<Seq<char>>, int), SerializationError>((m.value, a1.len() as int + b1.len()))) by {
                assert(nullable_string_bytes(m.value, false) is Ok);
                lemma_seq_assoc(a1, b1, t2);
                lemma_nullable_string_roundtrip(a1, m.value, t2, false);
            }
        }
        lemma_seq_assoc(a1, b1, t2);
        let a2 = a1 + b1;
        if is_flexible {
            assert(parse_uvarint(s, a2.len() as int) == Ok::<(u64, int), SerializationError>((0u64, a2.len() as int + b2.len()))) by {
                lemma_seq_assoc(a2, b2, t3);
                lemma_uvarint_roundtrip(a2, 0, t3);
            }
        }
    }

    /// The bytes written: the encoding of each field, in the order of the
    /// protocol's layout. Reading them back, wherever they stand, gives the value,
    /// with each field that the version leaves out at its default.
    #[verifier::spinoff_prover]
    pub proof fn lemma_flexible_layout(pre: Seq<u8>, m: AlterableConfigModel, post: Seq<u8>, is_flexible: bool)
        requires
            Self::spec_encode_flexible(m, is_flexible) is Ok,
        ensures
            Self::spec_encode_flexible(m, is_flexible) == Ok::<Seq<u8>, SerializationError>(((string_bytes(m.name, is_flexible))->Ok_0) + (if is_flexible { match m.value { Some(v) => uvarint_bytes(1) + (string_bytes(v, true))->Ok_0, None => uvarint_bytes(0) } } else { (nullable_string_bytes(m.value, false))->Ok_0 }) + (if is_flexible { uvarint_bytes(0) } else { Seq::<u8>::empty() })),
            Self::reads_back_flexible(m, is_flexible) ==> Self::spec_decode_flexible(pre + (((string_bytes(m.name, is_flexible))->Ok_0) + (if is_flexible { match m.value { Some(v) => uvarint_bytes(1) + (string_bytes(v, true))->Ok_0, None => uvarint_bytes(0) } } else { (nullable_string_bytes(m.value, false))->Ok_0 }) + (if is_flexible { uvarint_bytes(0) } else { Seq::<u8>::empty() })) + post, pre.len() as int, is_flexible) == Ok::<(AlterableConfigModel, int), SerializationError>((m, pre.len() as int + (((string_bytes(m.name, is_flexible))->Ok_0) + (if is_flexible { match m.value { Some(v) => uvarint_bytes(1) + (string_bytes(v, true))->Ok_0, None => uvarint_bytes(0) } } else { (nullable_string_bytes(m.value, false))->Ok_0 }) + (if is_flexible { uvarint_bytes(0) } else { Seq::<u8>::empty() })).len())),
    {
        let b0 = (string_bytes(m.name, is_flexible))->Ok_0;
        let b1 = if is_flexible { match m.value { Some(v) => uvarint_bytes(1) + (string_bytes(v, true))->Ok_0, None => uvarint_bytes(0) } } else { (nullable_string_bytes(m.value, false))->Ok_0 };
        let b2 = if is_flexible { uvarint_bytes(0) } else { Seq::<u8>::empty() };
        let e = Self::spec_encode_flexible(m, is_flexible)->Ok_0;
        assert(e =~= Seq::<u8>::empty() + b0 + b1 + b2);
        assert(e =~= b0 + b1 + b2);
        if Self::reads_back_flexible(m, is_flexible) {
            Self::lemma_flexible_read_back(pre, m, post, is_flexible);
        }
    }

    /// With the compact encodings off, the flexible-aware layout is the classic
    /// layout: both write the same bytes.
    pub proof fn lemma_flexible_off_writes_classic(m: AlterableConfigModel)
        ensures
            Self::spec_encode_flexible(m, false) == Self::spec_encode_classic(m),
    {
    }

    /// With the compact encodings off, the flexible-aware layout is the classic
    /// layout: both read the same bytes alike.
    pub proof fn lemma_flexible_off_reads_classic(s: Seq<u8>, pos: int)
        ensures
            Self::spec_decode_flexible(s, pos, false) == Self::spec_decode_classic(s, pos),
    {
    }

    /// Writes the structure in the classic layout.
    /// On failure the buffer is left as it was.
    pub fn encode(&self, buf: &mut Vec<u8>) -> (r: Result<(), SerializationError>)
        ensures
            write_exact(r, old(buf)@, final(buf)@, Self::spec_encode_classic(self.deep_view())),
    {
        let start = buf.len();
        let r = self.write_classic(buf);
        if r.is_err() {
            buf.truncate(start);
        }
        r
    }

    fn write_classic(&self, buf: &mut Vec<u8>) -> (r: Result<(), SerializationError>)
        ensures
            write_ok(r, old(buf)@, final(buf)@, Self::spec_encode_classic(self.deep_view())),
    {
        let ghost mut w: Seq<u8> = Seq::empty();
        match encode_string(&self.name, buf, false) {
            Ok(()) => {},
            Err(_) => {
                return Err(SerializationError::ValueTooLarge { message: "failed to encode Name" });
            },
        }
        proof {
            w = w + (map_encode_err(string_bytes(self.name.deep_view(), false), SerializationError::ValueTooLarge { message: "failed to encode Name" }))->Ok_0;
        }
        assert(buf@ =~= old(buf)@ + w);
        match encode_nullable_string(&self.value, buf, false) {
            Ok(()) => {},
            Err(_) => {
                return Err(SerializationError::ValueTooLarge { message: "failed to encode Value" });
            },
        }
        proof {
            w = w + (map_encode_err(nullable_string_bytes(self.value.deep_view(), false), SerializationError::ValueTooLarge { message: "failed to encode Value" }))->Ok_0;
        }
        assert(buf@ =~= old(buf)@ + w);
        Ok(())
    }

    /// Writes the structure, with the compact encodings when `is_flexible`.
    /// On failure the buffer is left as it was.
    pub fn encode_flexible(&self, buf: &mut Vec<u8>, is_flexible: bool) -> (r: Result<(), SerializationError>)
        ensures
            write_exact(r, old(buf)@, final(buf)@, Self::spec_encode_flexible(self.deep_view(), is_flexible)),
    {
        let start = buf.len();
        let r = self.write_flexible(buf, is_flexible);
        if r.is_err() {
            buf.truncate(start);
        }
        r
    }

    fn write_flexible(&self, buf: &mut Vec<u8>, is_flexible: bool) -> (r: Result<(), SerializationError>)
        ensures
            write_ok(r, old(buf)@, final(buf)@, Self::spec_encode_flexible(self.deep_view(), is_flexible)),
    {
        let ghost mut w: Seq<u8> = Seq::empty();
        match encode_string(&self.name, buf, is_flexible) {
            Ok(()) => {},
            Err(_) => {
                return Err(SerializationError::ValueTooLarge { message: "failed to encode Name" });
            },
        }
        proof {
            w = w + (map_encode_err(string_bytes(self.name.deep_view(), is_flexible), SerializationError::ValueTooLarge { message: "failed to encode Name" }))->Ok_0;
        }
        assert(buf@ =~= old(buf)@ + w);
        if is_flexible {
            match &self.value {
                Some(v) => {
                    encode_unsigned_varint(1, buf);
                    proof {
                        w = w + uvarint_bytes(1);
                    }
                    match encode_string(&*v, buf, true) {
                        Ok(()) => {},
                        Err(_) => {
                            return Err(SerializationError::ValueTooLarge { message: "failed to encode Value" });
                        },
                    }
                    proof {
                        w = w + (map_encode_err(string_bytes((*v).deep_view(), true), SerializationError::ValueTooLarge { message: "failed to encode Value" }))->Ok_0;
                    }
                    assert(buf@ =~= old(buf)@ + w);
                },
                None => {
                    encode_unsigned_varint(0, buf);
                    proof {
                        w = w + uvarint_bytes(0);
                    }
                    assert(buf@ =~= old(buf)@ + w);
                },
            }
        } else {
            match encode_nullable_string(&self.value, buf, false) {
                Ok(()) => {},
                Err(_) => {
                    return Err(SerializationError::ValueTooLarge { message: "failed to encode Value" });
                },
            }
            proof {
                w = w + (map_encode_err(nullable_string_bytes(self.value.deep_view(), false), SerializationError::ValueTooLarge { message: "failed to encode Value" }))->Ok_0;
            }
            assert(buf@ =~= old(buf)@ + w);
        }
        if is_flexible {
            encode_unsigned_varint(0, buf);
            proof {
                w = w + uvarint_bytes(0);
            }
            assert(buf@ =~= old(buf)@ + w);
        }
        Ok(())
    }

    /// Reads the structure in the classic layout.
    /// On failure the reader is put back where it started.
    pub fn decode(buf: &mut Reader) -> (r: Result<Self, SerializationError>)
        ensures
            final(buf).bytes() == old(buf).bytes(),
            read_view_exact(r, Self::spec_decode_classic(old(buf).bytes(), old(buf).pos()), old(buf).pos(), final(buf).pos()),
    {
        let start = buf.position();
        let r = Self::read_classic(buf);
        if r.is_err() {
            buf.set_position(start);
        }
        r
    }

    fn read_classic(buf: &mut Reader) -> (r: Result<Self, SerializationError>)
        ensures
            final(buf).bytes() == old(buf).bytes(),
            read_view_ok(r, Self::spec_decode_classic(old(buf).bytes(), old(buf).pos()), final(buf).pos()),
    {
        let name = match buf.get_string(false) { Ok(v) => v, Err(_) => { return Err(SerializationError::Protocol { message: "failed to decode Name" }); } };
        let value = match buf.get_nullable_string(false) { Ok(v) => v, Err(_) => { return Err(SerializationError::Protocol { message: "failed to decode Value" }); } };
        Ok(AlterableConfig { name, value })
    }

    /// Reads the structure, with the compact encodings when `is_flexible`.
    /// On failure the reader is put back where it started.
    pub fn decode_flexible(buf: &mut Reader, is_flexible: bool) -> (r: Result<Self, SerializationError>)
        ensures
            final(buf).bytes() == old(buf).bytes(),
            read_view_exact(r, Self::spec_decode_flexible(old(buf).bytes(), old(buf).pos(), is_flexible), old(buf).pos(), final(buf).pos()),
    {
        let start = buf.position();
        let r = Self::read_flexible(buf, is_flexible);
        if r.is_err() {
            buf.set_position(start);
        }
        r
    }

    fn read_flexible(buf: &mut Reader, is_flexible: bool) -> (r: Result<Self, SerializationError>)
        ensures
            final(buf).bytes() == old(buf).bytes(),
            read_view_ok(r, Self::spec_decode_flexible(old(buf).bytes(), old(buf).pos(), is_flexible), final(buf).pos()),
    {
        let name = match buf.get_string(is_flexible) { Ok(v) => v, Err(_) => { return Err(SerializationError::Protocol { message: "failed to decode Name" }); } };
        let value = if is_flexible {
            let (present, _) = decode_unsigned_varint(buf)?;
            if present == 0 {
                None
            } else {
                Some(match buf.get_string(true) { Ok(v) => v, Err(_) => { return Err(SerializationError::Protocol { message: "failed to decode Value" }); } })
            }
        } else {
            match buf.get_nullable_string(false) { Ok(v) => v, Err(_) => { return Err(SerializationError::Protocol { message: "failed to decode Value" }); } }
        };
        if is_flexible {
            let (_tag_count, _) = decode_unsigned_varint(buf)?;
        }
        Ok(AlterableConfig { name, value })
    }
}

impl KafkaCodec for AlterableConfig {
    open spec fn spec_encode(m: AlterableConfigModel, ctx: Ctx) -> Result<Seq<u8>, SerializationError> {
        if ctx.classic {
            Self::spec_encode_classic(m)
        } else {
            Self::spec_encode_flexible(m, ctx.flexible)
        }
    }

    open spec fn reads_back(v: AlterableConfigModel, ctx: Ctx) -> bool {
        if ctx.classic {
            Self::reads_back_classic(v)
        } else {
            Self::reads_back_flexible(v, ctx.flexible)
        }
    }

    proof fn lemma_read_back(pre: Seq<u8>, v: AlterableConfigModel, post: Seq<u8>, ctx: Ctx) {
        if ctx.classic {
            Self::lemma_classic_read_back(pre, v, post);
            assert(Self::spec_decode(pre + Self::spec_encode(v, ctx)->Ok_0 + post, pre.len() as int, ctx)
                == Self::spec_decode_classic(pre + Self::spec_encode_classic(v)->Ok_0 + post, pre.len() as int));
        } else {
            Self::lemma_flexible_read_back(pre, v, post, ctx.flexible);
            assert(Self::spec_decode(pre + Self::spec_encode(v, ctx)->Ok_0 + post, pre.len() as int, ctx)
                == Self::spec_decode_flexible(pre + Self::spec_encode_flexible(v, ctx.flexible)->Ok_0 + post, pre.len() as int, ctx.flexible));
        }
    }

    open spec fn spec_decode(s: Seq<u8>, pos: int, ctx: Ctx) -> Result<(AlterableConfigModel, int), SerializationError> {
        if ctx.classic {
            Self::spec_decode_classic(s, pos)
        } else {
            Self::spec_decode_flexible(s, pos, ctx.flexible)
        }
    }

    fn encode_ctx(&self, buf: &mut Vec<u8>, ctx: Ctx) -> (r: Result<(), SerializationError>) {
        if ctx.classic {
            self.write_classic(buf)
        } else {
            self.write_flexible(buf, ctx.flexible)
        }
    }

    fn decode_ctx(buf: &mut Reader, ctx: Ctx) -> (r: Result<Self, SerializationError>) {
        if ctx.classic {
            Self::read_classic(buf)
        } else {
            Self::read_flexible(buf, ctx.flexible)
        }
    }
}

} // verus!
