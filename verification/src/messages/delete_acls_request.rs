//! DeleteAclsRequest (API key 31).
use vstd::prelude::*;
use crate::roundtrip::{lemma_array_roundtrip, lemma_i8_roundtrip, lemma_items_read_back,
    lemma_nullable_string_roundtrip, lemma_seq_assoc, lemma_seq_empty_left,
    lemma_string_roundtrip, lemma_uvarint_roundtrip};
use crate::serialization::{Ctx, KafkaCodec, Reader, SerializationError, array_bytes, decode_array,
    decode_unsigned_varint, encode_array, encode_nullable_string, encode_string,
    encode_unsigned_varint, i8_bytes, lemma_array_bytes_agree, lemma_parse_array_agree,
    map_decode_err, map_encode_err, nullable_string_bytes, parse_array, parse_i8,
    parse_nullable_string, parse_string, parse_uvarint, put_i8, read_view_exact, read_view_ok,
    string_bytes, then, uvarint_bytes, write_exact, write_ok};
use crate::{ApiKey, ApiVersion};

verus! {

// -------------------------------------------------------
// DeleteAclsRequest
// -------------------------------------------------------
#[derive(Clone, Debug, Default, PartialEq)]
pub struct DeleteAclsRequest {
    /// The filters to use when deleting ACLs.
    pub filters: Vec<DeleteAclsFilter>,
}

/// The contents of `DeleteAclsRequest`, with strings as characters and
/// nested values by their contents.
pub struct DeleteAclsRequestModel {
    pub filters: Seq<<DeleteAclsFilter as DeepView>::V>,
}

impl DeepView for DeleteAclsRequest {
    type V = DeleteAclsRequestModel;

    open spec fn deep_view(&self) -> DeleteAclsRequestModel {
        DeleteAclsRequestModel {
            filters: self.filters.deep_view(),
        }
    }
}

impl DeleteAclsRequest {
    /// The classic encoding of the structure.
    pub open spec fn spec_encode_classic(m: DeleteAclsRequestModel) -> Result<Seq<u8>, SerializationError> {
        let r = Ok(Seq::<u8>::empty());
        let r = then(r, map_encode_err(array_bytes::<DeleteAclsFilter>(m.filters, Ctx { version: 0, flexible: false, classic: true }), SerializationError::ValueTooLarge { message: "failed to encode Filters" }));
        r
    }

    /// The flexible-aware encoding of the structure.
    pub open spec fn spec_encode_flexible(m: DeleteAclsRequestModel, is_flexible: bool) -> Result<Seq<u8>, SerializationError> {
        let r = Ok(Seq::<u8>::empty());
        let r = then(r, map_encode_err(array_bytes::<DeleteAclsFilter>(m.filters, Ctx { version: 0, flexible: is_flexible, classic: false }), SerializationError::ValueTooLarge { message: "failed to encode Filters" }));
        let r = if is_flexible { then(r, Ok(uvarint_bytes(0))) } else { r };
        r
    }

    /// The structure read by the classic decoder.
    pub open spec fn spec_decode_classic(s: Seq<u8>, pos: int) -> Result<(DeleteAclsRequestModel, int), SerializationError> {
        match map_decode_err(parse_array::<DeleteAclsFilter>(s, pos, Ctx { version: 0, flexible: false, classic: true }), SerializationError::Protocol { message: "failed to decode Filters" }) {
            Err(e) => Err(e),
            Ok((filters, pos)) =>
            Ok((DeleteAclsRequestModel { filters }, pos))
        }
    }

    /// The structure read by the flexible-aware decoder.
    pub open spec fn spec_decode_flexible(s: Seq<u8>, pos: int, is_flexible: bool) -> Result<(DeleteAclsRequestModel, int), SerializationError> {
        match map_decode_err(parse_array::<DeleteAclsFilter>(s, pos, Ctx { version: 0, flexible: is_flexible, classic: false }), SerializationError::Protocol { message: "failed to decode Filters" }) {
            Err(e) => Err(e),
            Ok((filters, pos)) =>
            match (if is_flexible { parse_uvarint(s, pos) } else { Ok((0u64, pos)) }) {
                Err(e) => Err(e),
                Ok((_tag_count, pos)) =>
                Ok((DeleteAclsRequestModel { filters }, pos))
            }
        }
    }

    /// Values of the structure that read back from their classic encoding:
    /// nested values read back.
    pub open spec fn reads_back_classic(m: DeleteAclsRequestModel) -> bool {
        &&& forall|i: int| 0 <= i < m.filters.len() ==> #[trigger] <DeleteAclsFilter as KafkaCodec>::reads_back(m.filters[i], Ctx { version: 0, flexible: false, classic: true })
    }

    /// A value that can be written and reads back: decoding its encoding, wherever
    /// it stands, gives the value and the position just after it.
    #[verifier::spinoff_prover]
    pub proof fn lemma_classic_read_back(pre: Seq<u8>, m: DeleteAclsRequestModel, post: Seq<u8>)
        requires
            Self::spec_encode_classic(m) is Ok,
            Self::reads_back_classic(m),
        ensures
            Self::spec_decode_classic(pre + Self::spec_encode_classic(m)->Ok_0 + post, pre.len() as int) == Ok::<(DeleteAclsRequestModel, int), SerializationError>((m, pre.len() as int + Self::spec_encode_classic(m)->Ok_0.len())),
    {
        let b0 = (array_bytes::<DeleteAclsFilter>(m.filters, Ctx { version: 0, flexible: false, classic: true }))->Ok_0;
        let t1 = post;
        let t0 = b0 + t1;
        let e = Self::spec_encode_classic(m)->Ok_0;
        assert(e =~= Seq::<u8>::empty() + b0);
        lemma_seq_assoc(Seq::<u8>::empty(), b0, post);
        lemma_seq_empty_left((b0 + post));
        let s = pre + e + post;
        lemma_seq_assoc(pre, e, post);
        assert(s == pre + t0);
        let a0 = pre;
        assert(parse_array::<DeleteAclsFilter>(s, a0.len() as int, Ctx { version: 0, flexible: false, classic: true }) == Ok::<(Seq<<DeleteAclsFilter as DeepView>::V>, int), SerializationError>((m.filters, a0.len() as int + b0.len()))) by {
            assert(array_bytes::<DeleteAclsFilter>(m.filters, Ctx { version: 0, flexible: false, classic: true }) is Ok);
            lemma_seq_assoc(a0, b0, t1);
            lemma_items_read_back::<DeleteAclsFilter>(m.filters, Ctx { version: 0, flexible: false, classic: true });
            lemma_array_roundtrip::<DeleteAclsFilter>(a0, m.filters, t1, Ctx { version: 0, flexible: false, classic: true });
        }
    }

    /// The bytes written: the encoding of each field, in the order of the
    /// protocol's layout. Reading them back, wherever they stand, gives the value,
    /// with each field that the version leaves out at its default.
    #[verifier::spinoff_prover]
    pub proof fn lemma_classic_layout(pre: Seq<u8>, m: DeleteAclsRequestModel, post: Seq<u8>)
        requires
            Self::spec_encode_classic(m) is Ok,
        ensures
            Self::spec_encode_classic(m) == Ok::<Seq<u8>, SerializationError>(((array_bytes::<DeleteAclsFilter>(m.filters, Ctx { version: 0, flexible: false, classic: true }))->Ok_0)),
            Self::reads_back_classic(m) ==> Self::spec_decode_classic(pre + (((array_bytes::<DeleteAclsFilter>(m.filters, Ctx { version: 0, flexible: false, classic: true }))->Ok_0)) + post, pre.len() as int) == Ok::<(DeleteAclsRequestModel, int), SerializationError>((m, pre.len() as int + (((array_bytes::<DeleteAclsFilter>(m.filters, Ctx { version: 0, flexible: false, classic: true }))->Ok_0)).len())),
    {
        let b0 = (array_bytes::<DeleteAclsFilter>(m.filters, Ctx { version: 0, flexible: false, classic: true }))->Ok_0;
        let e = Self::spec_encode_classic(m)->Ok_0;
        assert(e =~= Seq::<u8>::empty() + b0);
        assert(e =~= b0);
        if Self::reads_back_classic(m) {
            Self::lemma_classic_read_back(pre, m, post);
        }
    }

    /// Writing succeeds exactly when every field that the version carries can be
    /// encoded and every field that it leaves out, where leaving it out is an
    /// error, holds its default.
    #[verifier::spinoff_prover]
    pub proof fn lemma_classic_write_succeeds(m: DeleteAclsRequestModel)
        ensures
            Self::spec_encode_classic(m) is Ok <==> (map_encode_err(array_bytes::<DeleteAclsFilter>(m.filters, Ctx { version: 0, flexible: false, classic: true }), SerializationError::ValueTooLarge { message: "failed to encode Filters" }) is Ok),
    {
    }

    /// Values of the structure that read back from their flexible-aware encoding:
    /// nested values read back.
    pub open spec fn reads_back_flexible(m: DeleteAclsRequestModel, is_flexible: bool) -> bool {
        &&& forall|i: int| 0 <= i < m.filters.len() ==> #[trigger] <DeleteAclsFilter as KafkaCodec>::reads_back(m.filters[i], Ctx { version: 0, flexible: is_flexible, classic: false })
    }

    /// A value that can be written and reads back: decoding its encoding, wherever
    /// it stands, gives the value and the position just after it.
    #[verifier::spinoff_prover]
    pub proof fn lemma_flexible_read_back(pre: Seq<u8>, m: DeleteAclsRequestModel, post: Seq<u8>, is_flexible: bool)
        requires
            Self::spec_encode_flexible(m, is_flexible) is Ok,
            Self::reads_back_flexible(m, is_flexible),
        ensures
            Self::spec_decode_flexible(pre + Self::spec_encode_flexible(m, is_flexible)->Ok_0 + post, pre.len() as int, is_flexible) == Ok::<(DeleteAclsRequestModel, int), SerializationError>((m, pre.len() as int + Self::spec_encode_flexible(m, is_flexible)->Ok_0.len())),
    {
        let b0 = (array_bytes::<DeleteAclsFilter>(m.filters, Ctx { version: 0, flexible: is_flexible, classic: false }))->Ok_0;
        let b1 = if is_flexible { uvarint_bytes(0) } else { Seq::<u8>::empty() };
        let t2 = post;
        let t1 = b1 + t2;
        let t0 = b0 + t1;
        let e = Self::spec_encode_flexible(m, is_flexible)->Ok_0;
        assert(e =~= Seq::<u8>::empty() + b0 + b1);
        lemma_seq_assoc((Seq::<u8>::empty() + b0), b1, post);
        lemma_seq_assoc(Seq::<u8>::empty(), b0, (b1 + post));
        lemma_seq_empty_left((b0 + (b1 + post)));
        let s = pre + e + post;
        lemma_seq_assoc(pre, e, post);
        assert(s == pre + t0);
        let a0 = pre;
        assert(parse_array::<DeleteAclsFilter>(s, a0.len() as int, Ctx { version: 0, flexible: is_flexible, classic: false }) == Ok::<(Seq<<DeleteAclsFilter as DeepView>::V>, int), SerializationError>((m.filters, a0.len() as int + b0.len()))) by {
            assert(array_bytes::<DeleteAclsFilter>(m.filters, Ctx { version: 0, flexible: is_flexible, classic: false }) is Ok);
            lemma_seq_assoc(a0, b0, t1);
            lemma_items_read_back::<DeleteAclsFilter>(m.filters, Ctx { version: 0, flexible: is_flexible, classic: false });
            lemma_array_roundtrip::<DeleteAclsFilter>(a0, m.filters, t1, Ctx { version: 0, flexible: is_flexible, classic: false });
        }
        lemma_seq_assoc(a0, b0, t1);
        let a1 = a0 + b0;
        if is_flexible {
            assert(parse_uvarint(s, a1.len() as int) == Ok::<(u64, int), SerializationError>((0u64, a1.len() as int + b1.len()))) by {
                lemma_seq_assoc(a1, b1, t2);
                lemma_uvarint_roundtrip(a1, 0, t2);
            }
        }
    }

    /// The bytes written: the encoding of each field, in the order of the
    /// protocol's layout. Reading them back, wherever they stand, gives the value,
    /// with each field that the version leaves out at its default.
    #[verifier::spinoff_prover]
    pub proof fn lemma_flexible_layout(pre: Seq<u8>, m: DeleteAclsRequestModel, post: Seq<u8>, is_flexible: bool)
        requires
            Self::spec_encode_flexible(m, is_flexible) is Ok,
        ensures
            Self::spec_encode_flexible(m, is_flexible) == Ok::<Seq<u8>, SerializationError>(((array_bytes::<DeleteAclsFilter>(m.filters, Ctx { version: 0, flexible: is_flexible, classic: false }))->Ok_0) + (if is_flexible { uvarint_bytes(0) } else { Seq::<u8>::empty() })),
            Self::reads_back_flexible(m, is_flexible) ==> Self::spec_decode_flexible(pre + (((array_bytes::<DeleteAclsFilter>(m.filters, Ctx { version: 0, flexible: is_flexible, classic: false }))->Ok_0) + (if is_flexible { uvarint_bytes(0) } else { Seq::<u8>::empty() })) + post, pre.len() as int, is_flexible) == Ok::<(DeleteAclsRequestModel, int), SerializationError>((m, pre.len() as int + (((array_bytes::<DeleteAclsFilter>(m.filters, Ctx { version: 0, flexible: is_flexible, classic: false }))->Ok_0) + (if is_flexible { uvarint_bytes(0) } else { Seq::<u8>::empty() })).len())),
    {
        let b0 = (array_bytes::<DeleteAclsFilter>(m.filters, Ctx { version: 0, flexible: is_flexible, classic: false }))->Ok_0;
        let b1 = if is_flexible { uvarint_bytes(0) } else { Seq::<u8>::empty() };
        let e = Self::spec_encode_flexible(m, is_flexible)->Ok_0;
        assert(e =~= Seq::<u8>::empty() + b0 + b1);
        assert(e =~= b0 + b1);
        if Self::reads_back_flexible(m, is_flexible) {
            Self::lemma_flexible_read_back(pre, m, post, is_flexible);
        }
    }

    /// Writing succeeds exactly when every field that the version carries can be
    /// encoded and every field that it leaves out, where leaving it out is an
    /// error, holds its default.
    #[verifier::spinoff_prover]
    pub proof fn lemma_flexible_write_succeeds(m: DeleteAclsRequestModel, is_flexible: bool)
        ensures
            Self::spec_encode_flexible(m, is_flexible) is Ok <==> (map_encode_err(array_bytes::<DeleteAclsFilter>(m.filters, Ctx { version: 0, flexible: is_flexible, classic: false }), SerializationError::ValueTooLarge { message: "failed to encode Filters" }) is Ok),
    {
    }

    /// With the compact encodings off, the flexible-aware layout is the classic
    /// layout: both write the same bytes.
    pub proof fn lemma_flexible_off_writes_classic(m: DeleteAclsRequestModel)
        ensures
            Self::spec_encode_flexible(m, false) == Self::spec_encode_classic(m),
    {
        assert forall|i: int| 0 <= i < m.filters.len() implies <DeleteAclsFilter as KafkaCodec>::spec_encode(#[trigger] m.filters[i], Ctx { version: 0, flexible: false, classic: true }) == <DeleteAclsFilter as KafkaCodec>::spec_encode(m.filters[i], Ctx { version: 0, flexible: false, classic: false }) by {
            DeleteAclsFilter::lemma_flexible_off_writes_classic(m.filters[i]);
        }
        lemma_array_bytes_agree::<DeleteAclsFilter>(m.filters, Ctx { version: 0, flexible: false, classic: true }, Ctx { version: 0, flexible: false, classic: false });
    }

    /// With the compact encodings off, the flexible-aware layout is the classic
    /// layout: both read the same bytes alike.
    pub proof fn lemma_flexible_off_reads_classic(s: Seq<u8>, pos: int)
        ensures
            Self::spec_decode_flexible(s, pos, false) == Self::spec_decode_classic(s, pos),
    {
        assert forall|p: int| #[trigger] <DeleteAclsFilter as KafkaCodec>::spec_decode(s, p, Ctx { version: 0, flexible: false, classic: true }) == <DeleteAclsFilter as KafkaCodec>::spec_decode(s, p, Ctx { version: 0, flexible: false, classic: false }) by {
            DeleteAclsFilter::lemma_flexible_off_reads_classic(s, p);
        }
        lemma_parse_array_agree::<DeleteAclsFilter>(s, Ctx { version: 0, flexible: false, classic: true }, Ctx { version: 0, flexible: false, classic: false });
    }

    /// Writes the structure in the classic layout.
    /// On failure the buffer is left as it was.
    pub fn encode(&self, buf: &mut Vec<u8>) -> (r: Result<(), SerializationError>)
        ensures
            write_exact(r, old(buf)@, final(buf)@, Self::spec_encode_classic(self.deep_view())),
    {
        let start = buf.len();
        let r = self.write_classic(buf);
        if r.is_err() {
            buf.truncate(start);
        }
        r
    }

    fn write_classic(&self, buf: &mut Vec<u8>) -> (r: Result<(), SerializationError>)
        ensures
            write_ok(r, old(buf)@, final(buf)@, Self::spec_encode_classic(self.deep_view())),
    {
        let ghost mut w: Seq<u8> = Seq::empty();
        match encode_array(&self.filters, buf, Ctx { version: 0, flexible: false, classic: true }) {
            Ok(()) => {},
            Err(_) => {
                return Err(SerializationError::ValueTooLarge { message: "failed to encode Filters" });
            },
        }
        proof {
            w = w + (map_encode_err(array_bytes::<DeleteAclsFilter>(self.filters.deep_view(), Ctx { version: 0, flexible: false, classic: true }), SerializationError::ValueTooLarge { message: "failed to encode Filters" }))->Ok_0;
        }
        assert(buf@ =~= old(buf)@ + w);
        Ok(())
    }

    /// Writes the structure, with the compact encodings when `is_flexible`.
    /// On failure the buffer is left as it was.
    pub fn encode_flexible(&self, buf: &mut Vec<u8>, is_flexible: bool) -> (r: Result<(), SerializationError>)
        ensures
            write_exact(r, old(buf)@, final(buf)@, Self::spec_encode_flexible(self.deep_view(), is_flexible)),
    {
        let start = buf.len();
        let r = self.write_flexible(buf, is_flexible);
        if r.is_err() {
            buf.truncate(start);
        }
        r
    }

    fn write_flexible(&self, buf: &mut Vec<u8>, is_flexible: bool) -> (r: Result<(), SerializationError>)
        ensures
            write_ok(r, old(buf)@, final(buf)@, Self::spec_encode_flexible(self.deep_view(), is_flexible)),
    {
        let ghost mut w: Seq<u8> = Seq::empty();
        match encode_array(&self.filters, buf, Ctx { version: 0, flexible: is_flexible, classic: false }) {
            Ok(()) => {},
            Err(_) => {
                return Err(SerializationError::ValueTooLarge { message: "failed to encode Filters" });
            },
        }
        proof {
            w = w + (map_encode_err(array_bytes::<DeleteAclsFilter>(self.filters.deep_view(), Ctx { version: 0, flexible: is_flexible, classic: false }), SerializationError::ValueTooLarge { message: "failed to encode Filters" }))->Ok_0;
        }
        assert(buf@ =~= old(buf)@ + w);
        if is_flexible {
            encode_unsigned_varint(0, buf);
            proof {
                w = w + uvarint_bytes(0);
            }
            assert(buf@ =~= old(buf)@ + w);
        }
        Ok(())
    }

    /// Reads the structure in the classic layout.
    /// On failure the reader is put back where it started.
    pub fn decode(buf: &mut Reader) -> (r: Result<Self, SerializationError>)
        ensures
            final(buf).bytes() == old(buf).bytes(),
            read_view_exact(r, Self::spec_decode_classic(old(buf).bytes(), old(buf).pos()), old(buf).pos(), final(buf).pos()),
    {
        let start = buf.position();
        let r = Self::read_classic(buf);
        if r.is_err() {
            buf.set_position(start);
        }
        r
    }

    fn read_classic(buf: &mut Reader) -> (r: Result<Self, SerializationError>)
        ensures
            final(buf).bytes() == old(buf).bytes(),
            read_view_ok(r, Self::spec_decode_classic(old(buf).bytes(), old(buf).pos()), final(buf).pos()),
    {
        let filters = match decode_array::<DeleteAclsFilter>(buf, Ctx { version: 0, flexible: false, classic: true }) { Ok(v) => v, Err(_) => { return Err(SerializationError::Protocol { message: "failed to decode Filters" }); } };
        Ok(DeleteAclsRequest { filters })
    }

    /// Reads the structure, with the compact encodings when `is_flexible`.
    /// On failure the reader is put back where it started.
    pub fn decode_flexible(buf: &mut Reader, is_flexible: bool) -> (r: Result<Self, SerializationError>)
        ensures
            final(buf).bytes() == old(buf).bytes(),
            read_view_exact(r, Self::spec_decode_flexible(old(buf).bytes(), old(buf).pos(), is_flexible), old(buf).pos(), final(buf).pos()),
    {
        let start = buf.position();
        let r = Self::read_flexible(buf, is_flexible);
        if r.is_err() {
            buf.set_position(start);
        }
        r
    }

    fn read_flexible(buf: &mut Reader, is_flexible: bool) -> (r: Result<Self, SerializationError>)
        ensures
            final(buf).bytes() == old(buf).bytes(),
            read_view_ok(r, Self::spec_decode_flexible(old(buf).bytes(), old(buf).pos(), is_flexible), final(buf).pos()),
    {
        let filters = match decode_array::<DeleteAclsFilter>(buf, Ctx { version: 0, flexible: is_flexible, classic: false }) { Ok(v) => v, Err(_) => { return Err(SerializationError::Protocol { message: "failed to decode Filters" }); } };
        if is_flexible {
            let (_tag_count, _) = decode_unsigned_varint(buf)?;
        }
        Ok(DeleteAclsRequest { filters })
    }
}

impl KafkaCodec for DeleteAclsRequest {
    open spec fn spec_encode(m: DeleteAclsRequestModel, ctx: Ctx) -> Result<Seq<u8>, SerializationError> {
        if ctx.classic {
            Self::spec_encode_classic(m)
        } else {
            Self::spec_encode_flexible(m, ctx.flexible)
        }
    }

    open spec fn reads_back(v: DeleteAclsRequestModel, ctx: Ctx) -> bool {
        if ctx.classic {
            Self::reads_back_classic(v)
        } else {
            Self::reads_back_flexible(v, ctx.flexible)
        }
    }

    proof fn lemma_read_back(pre: Seq<u8>, v: DeleteAclsRequestModel, post: Seq<u8>, ctx: Ctx) {
        if ctx.classic {
            Self::lemma_classic_read_back(pre, v, post);
            assert(Self::spec_decode(pre + Self::spec_encode(v, ctx)->Ok_0 + post, pre.len() as int, ctx)
                == Self::spec_decode_classic(pre + Self::spec_encode_classic(v)->Ok_0 + post, pre.len() as int));
        } else {
            Self::lemma_flexible_read_back(pre, v, post, ctx.flexible);
            assert(Self::spec_decode(pre + Self::spec_encode(v, ctx)->Ok_0 + post, pre.len() as int, ctx)
                == Self::spec_decode_flexible(pre + Self::spec_encode_flexible(v, ctx.flexible)->Ok_0 + post, pre.len() as int, ctx.flexible));
        }
    }

    open spec fn spec_decode(s: Seq<u8>, pos: int, ctx: Ctx) -> Result<(DeleteAclsRequestModel, int), SerializationError> {
        if ctx.classic {
            Self::spec_decode_classic(s, pos)
        } else {
            Self::spec_decode_flexible(s, pos, ctx.flexible)
        }
    }

    fn encode_ctx(&self, buf: &mut Vec<u8>, ctx: Ctx) -> (r: Result<(), SerializationError>) {
        if ctx.classic {
            self.write_classic(buf)
        } else {
            self.write_flexible(buf, ctx.flexible)
        }
    }

    fn decode_ctx(buf: &mut Reader, ctx: Ctx) -> (r: Result<Self, SerializationError>) {
        if ctx.classic {
            Self::read_classic(buf)
        } else {
            Self::read_flexible(buf, ctx.flexible)
        }
    }
}

impl DeleteAclsRequest {
    /// The API key of this message.
    pub fn get_api_key() -> (r: ApiKey)
        ensures
            r.0 == 31,
    {
        ApiKey::new(31)
    }

    /// The oldest version of this message.
    pub fn get_min_supported_version() -> (r: ApiVersion)
        ensures
            r.0 == 1,
    {
        ApiVersion::new(1)
    }

    /// The newest version of this message.
    pub fn get_max_supported_version() -> (r: ApiVersion)
        ensures
            r.0 == 3,
    {
        ApiVersion::new(3)
    }

    /// The encoding of a whole message body at `version`.
    pub open spec fn spec_serialize(m: DeleteAclsRequestModel, version: i16) -> Result<Seq<u8>, SerializationError> {
        let is_flexible = 2 <= version;
        let ctx = Ctx { version, flexible: is_flexible, classic: false };
        let r = Ok(Seq::<u8>::empty());
        let r = then(r, map_encode_err(array_bytes::<DeleteAclsFilter>(m.filters, Ctx { version: ctx.version, flexible: ctx.flexible, classic: false }), SerializationError::Encode("failed to encode Filters")));
        let r = if ctx.flexible { then(r, Ok(uvarint_bytes(0))) } else { r };
        r
    }

    /// The message body read at `version`.
    pub open spec fn spec_deserialize(s: Seq<u8>, pos: int, version: i16) -> Result<(DeleteAclsRequestModel, int), SerializationError> {
        let is_flexible = 2 <= version;
        let ctx = Ctx { version, flexible: is_flexible, classic: false };
        match map_decode_err(parse_array::<DeleteAclsFilter>(s, pos, Ctx { version: ctx.version, flexible: ctx.flexible, classic: false }), SerializationError::Decode("failed to decode Filters")) {
            Err(e) => Err(e),
            Ok((filters, pos)) =>
            Ok((DeleteAclsRequestModel { filters }, pos))
        }
    }

    /// Message bodies that read back when written at `version`: every field that
    /// the version leaves out holds its default, and nested values read back.
    pub open spec fn reads_back_message(m: DeleteAclsRequestModel, version: i16) -> bool {
        let is_flexible = 2 <= version;
        let ctx = Ctx { version, flexible: is_flexible, classic: false };
        &&& forall|i: int| 0 <= i < m.filters.len() ==> #[trigger] <DeleteAclsFilter as KafkaCodec>::reads_back(m.filters[i], Ctx { version: ctx.version, flexible: ctx.flexible, classic: false })
    }

    /// A message body that can be written at `version` and reads back: reading a
    /// body at `version` from its bytes, wherever they stand, gives the same message.
    #[verifier::spinoff_prover]
    pub proof fn lemma_message_read_back(pre: Seq<u8>, m: DeleteAclsRequestModel, post: Seq<u8>, version: i16)
        requires
            Self::spec_serialize(m, version) is Ok,
            Self::reads_back_message(m, version),
        ensures
            Self::spec_deserialize(pre + Self::spec_serialize(m, version)->Ok_0 + post, pre.len() as int, version) == Ok::<(DeleteAclsRequestModel, int), SerializationError>((m, pre.len() as int + Self::spec_serialize(m, version)->Ok_0.len() - (if 2 <= version { 1int } else { 0int }))),
    {
        let is_flexible = 2 <= version;
        let ctx = Ctx { version, flexible: is_flexible, classic: false };
        let b0 = (array_bytes::<DeleteAclsFilter>(m.filters, Ctx { version: ctx.version, flexible: ctx.flexible, classic: false }))->Ok_0;
        let b1 = if ctx.flexible { uvarint_bytes(0) } else { Seq::<u8>::empty() };
        let t2 = post;
        let t1 = b1 + t2;
        let t0 = b0 + t1;
        let e = Self::spec_serialize(m, version)->Ok_0;
        assert(e =~= Seq::<u8>::empty() + b0 + b1);
        lemma_seq_assoc((Seq::<u8>::empty() + b0), b1, post);
        lemma_seq_assoc(Seq::<u8>::empty(), b0, (b1 + post));
        lemma_seq_empty_left((b0 + (b1 + post)));
        let s = pre + e + post;
        lemma_seq_assoc(pre, e, post);
        assert(s == pre + t0);
        let a0 = pre;
        assert(parse_array::<DeleteAclsFilter>(s, a0.len() as int, Ctx { version: ctx.version, flexible: ctx.flexible, classic: false }) == Ok::<(Seq<<DeleteAclsFilter as DeepView>::V>, int), SerializationError>((m.filters, a0.len() as int + b0.len()))) by {
            assert(array_bytes::<DeleteAclsFilter>(m.filters, Ctx { version: ctx.version, flexible: ctx.flexible, classic: false }) is Ok);
            lemma_seq_assoc(a0, b0, t1);
            lemma_items_read_back::<DeleteAclsFilter>(m.filters, Ctx { version: ctx.version, flexible: ctx.flexible, classic: false });
            lemma_array_roundtrip::<DeleteAclsFilter>(a0, m.filters, t1, Ctx { version: ctx.version, flexible: ctx.flexible, classic: false });
        }
        lemma_seq_assoc(a0, b0, t1);
        let a1 = a0 + b0;
    }

    /// The bytes written: the encoding of each field, in the order of the
    /// protocol's layout. Reading them back, wherever they stand, gives the value,
    /// with each field that the version leaves out at its default.
    #[verifier::spinoff_prover]
    pub proof fn lemma_message_layout(pre: Seq<u8>, m: DeleteAclsRequestModel, post: Seq<u8>, version: i16)
        requires
            Self::spec_serialize(m, version) is Ok,
        ensures
            Self::spec_serialize(m, version) == Ok::<Seq<u8>, SerializationError>(((array_bytes::<DeleteAclsFilter>(m.filters, Ctx { version: version, flexible: (2 <= version), classic: false }))->Ok_0) + (if (2 <= version) { uvarint_bytes(0) } else { Seq::<u8>::empty() })),
            Self::reads_back_message(m, version) ==> Self::spec_deserialize(pre + (((array_bytes::<DeleteAclsFilter>(m.filters, Ctx { version: version, flexible: (2 <= version), classic: false }))->Ok_0) + (if (2 <= version) { uvarint_bytes(0) } else { Seq::<u8>::empty() })) + post, pre.len() as int, version) == Ok::<(DeleteAclsRequestModel, int), SerializationError>((m, pre.len() as int + (((array_bytes::<DeleteAclsFilter>(m.filters, Ctx { version: version, flexible: (2 <= version), classic: false }))->Ok_0) + (if (2 <= version) { uvarint_bytes(0) } else { Seq::<u8>::empty() })).len() - (if 2 <= version { 1int } else { 0int }))),
    {
        let is_flexible = 2 <= version;
        let ctx = Ctx { version, flexible: is_flexible, classic: false };
        let b0 = (array_bytes::<DeleteAclsFilter>(m.filters, Ctx { version: ctx.version, flexible: ctx.flexible, classic: false }))->Ok_0;
        let b1 = if ctx.flexible { uvarint_bytes(0) } else { Seq::<u8>::empty() };
        let e = Self::spec_serialize(m, version)->Ok_0;
        assert(e =~= Seq::<u8>::empty() + b0 + b1);
        assert(e =~= b0 + b1);
        if Self::reads_back_message(m, version) {
            Self::lemma_message_read_back(pre, m, post, version);
        }
    }

    /// Writing succeeds exactly when every field that the version carries can be
    /// encoded and every field that it leaves out, where leaving it out is an
    /// error, holds its default.
    #[verifier::spinoff_prover]
    pub proof fn lemma_message_write_succeeds(m: DeleteAclsRequestModel, version: i16)
        ensures
            Self::spec_serialize(m, version) is Ok <==> (map_encode_err(array_bytes::<DeleteAclsFilter>(m.filters, Ctx { version: version, flexible: (2 <= version), classic: false }), SerializationError::Encode("failed to encode Filters")) is Ok),
    {
        let is_flexible = 2 <= version;
        let ctx = Ctx { version, flexible: is_flexible, classic: false };
    }

    /// Writes the message body for `version`, which must be a supported version.
    /// On failure the buffer is left as it was.
    pub fn serialize(&self, version: ApiVersion, buf: &mut Vec<u8>) -> (r: Result<(), SerializationError>)
        requires
            1 <= version.0 <= 3,
        ensures
            write_exact(r, old(buf)@, final(buf)@, Self::spec_serialize(self.deep_view(), version.0)),
    {
        let start = buf.len();
        let r = self.write_body(version, buf);
        if r.is_err() {
            buf.truncate(start);
        }
        r
    }

    fn write_body(&self, version: ApiVersion, buf: &mut Vec<u8>) -> (r: Result<(), SerializationError>)
        requires
            1 <= version.0 <= 3,
        ensures
            write_ok(r, old(buf)@, final(buf)@, Self::spec_serialize(self.deep_view(), version.0)),
    {
        let is_flexible = 2 <= version.0;
        let ctx = Ctx::new(version, is_flexible);
        let ghost mut w: Seq<u8> = Seq::empty();
        match encode_array(&self.filters, buf, Ctx { version: ctx.version, flexible: ctx.flexible, classic: false }) {
            Ok(()) => {},
            Err(_) => {
                return Err(SerializationError::Encode("failed to encode Filters"));
            },
        }
        proof {
            w = w + (map_encode_err(array_bytes::<DeleteAclsFilter>(self.filters.deep_view(), Ctx { version: ctx.version, flexible: ctx.flexible, classic: false }), SerializationError::Encode("failed to encode Filters")))->Ok_0;
        }
        assert(buf@ =~= old(buf)@ + w);
        if ctx.flexible {
            encode_unsigned_varint(0, buf);
            proof {
                w = w + uvarint_bytes(0);
            }
            assert(buf@ =~= old(buf)@ + w);
        }
        Ok(())
    }

    /// Reads a message body written for `version`.
    /// On failure the reader is put back where it started.
    pub fn deserialize(version: ApiVersion, buf: &mut Reader) -> (r: Result<Self, SerializationError>)
        ensures
            final(buf).bytes() == old(buf).bytes(),
            read_view_exact(r, Self::spec_deserialize(old(buf).bytes(), old(buf).pos(), version.0), old(buf).pos(), final(buf).pos()),
    {
        let start = buf.position();
        let r = Self::read_body(version, buf);
        if r.is_err() {
            buf.set_position(start);
        }
        r
    }

    fn read_body(version: ApiVersion, buf: &mut Reader) -> (r: Result<Self, SerializationError>)
        ensures
            final(buf).bytes() == old(buf).bytes(),
            read_view_ok(r, Self::spec_deserialize(old(buf).bytes(), old(buf).pos(), version.0), final(buf).pos()),
    {
        let is_flexible = 2 <= version.0;
        let ctx = Ctx::new(version, is_flexible);
        let filters = match decode_array::<DeleteAclsFilter>(buf, Ctx { version: ctx.version, flexible: ctx.flexible, classic: false }) { Ok(v) => v, Err(_) => { return Err(SerializationError::Decode("failed to decode Filters")); } };
        Ok(DeleteAclsRequest { filters })
    }
}

// -------------------------------------------------------
// DeleteAclsFilter
// -------------------------------------------------------
#[derive(Clone, Debug, Default, PartialEq)]
pub struct DeleteAclsFilter {
    /// The resource type.
    pub resource_type_filter: i8,
    /// The resource name.
    pub resource_name_filter: Option<String>,
    /// The pattern type.
    /// Available in version 1+.
    pub pattern_type_filter: i8,
    /// The principal filter, or null to accept all principals.
    pub principal_filter: Option<String>,
    /// The host filter, or null to accept all hosts.
    pub host_filter: Option<String>,
    /// The ACL operation.
    pub operation: i8,
    /// The permission type.
    pub permission_type: i8,
}

/// The contents of `DeleteAclsFilter`, with strings as characters and
/// nested values by their contents.
pub struct DeleteAclsFilterModel {
    pub resource_type_filter: i8,
    pub resource_name_filter: Option<Seq<char>>,
    pub pattern_type_filter: i8,
    pub principal_filter: Option<Seq<char>>,
    pub host_filter: Option<Seq<char>>,
    pub operation: i8,
    pub permission_type: i8,
}

impl DeepView for DeleteAclsFilter {
    type V = DeleteAclsFilterModel;

    open spec fn deep_view(&self) -> DeleteAclsFilterModel {
        DeleteAclsFilterModel {
            resource_type_filter: self.resource_type_filter,
            resource_name_filter: self.resource_name_filter.deep_view(),
            pattern_type_filter: self.pattern_type_filter,
            principal_filter: self.principal_filter.deep_view(),
            host_filter: self.host_filter.deep_view(),
            operation: self.operation,
            permission_type: self.permission_type,
        }
    }
}

impl DeleteAclsFilter {
    /// Fields 1 to 5 of the encoding.
    pub open spec fn spec_encode_classic_part1(m: DeleteAclsFilterModel) -> Result<Seq<u8>, SerializationError> {
        let r = Ok(Seq::<u8>::empty());
        let r = then(r, map_encode_err(Ok(i8_bytes(m.resource_type_filter)), SerializationError::ValueTooLarge { message: "failed to encode ResourceTypeFilter" }));
        let r = then(r, map_encode_err(nullable_string_bytes(m.resource_name_filter, false), SerializationError::ValueTooLarge { message: "failed to encode ResourceNameFilter" }));
        let r = then(r, map_encode_err(Ok(i8_bytes(m.pattern_type_filter)), SerializationError::ValueTooLarge { message: "failed to encode PatternTypeFilter" }));
        let r = then(r, map_encode_err(nullable_string_bytes(m.principal_filter, false), SerializationError::ValueTooLarge { message: "failed to encode PrincipalFilter" }));
        let r = then(r, map_encode_err(nullable_string_bytes(m.host_filter, false), SerializationError::ValueTooLarge { message: "failed to encode HostFilter" }));
        r
    }

    #[verifier::spinoff_prover]
    fn encode_classic_part1(&self, buf: &mut Vec<u8>) -> (r: Result<(), SerializationError>)
        ensures
            write_ok(r, old(buf)@, final(buf)@, Self::spec_encode_classic_part1(self.deep_view())),
    {
        let ghost mut w: Seq<u8> = Seq::empty();
        put_i8(buf, self.resource_type_filter);
        proof {
            w = w + (map_encode_err(Ok(i8_bytes(self.resource_type_filter)), SerializationError::ValueTooLarge { message: "failed to encode ResourceTypeFilter" }))->Ok_0;
        }
        assert(buf@ =~= old(buf)@ + w);
        match encode_nullable_string(&self.resource_name_filter, buf, false) {
            Ok(()) => {},
            Err(_) => {
                return Err(SerializationError::ValueTooLarge { message: "failed to encode ResourceNameFilter" });
            },
        }
        proof {
            w = w + (map_encode_err(nullable_string_bytes(self.resource_name_filter.deep_view(), false), SerializationError::ValueTooLarge { message: "failed to encode ResourceNameFilter" }))->Ok_0;
        }
        assert(buf@ =~= old(buf)@ + w);
        put_i8(buf, self.pattern_type_filter);
        proof {
            w = w + (map_encode_err(Ok(i8_bytes(self.pattern_type_filter)), SerializationError::ValueTooLarge { message: "failed to encode PatternTypeFilter" }))->Ok_0;
        }
        assert(buf@ =~= old(buf)@ + w);
        match encode_nullable_string(&self.principal_filter, buf, false) {
            Ok(()) => {},
            Err(_) => {
                return Err(SerializationError::ValueTooLarge { message: "failed to encode PrincipalFilter" });
            },
        }
        proof {
            w = w + (map_encode_err(nullable_string_bytes(self.principal_filter.deep_view(), false), SerializationError::ValueTooLarge { message: "failed to encode PrincipalFilter" }))->Ok_0;
        }
        assert(buf@ =~= old(buf)@ + w);
        match encode_nullable_string(&self.host_filter, buf, false) {
            Ok(()) => {},
            Err(_) => {
                return Err(SerializationError::ValueTooLarge { message: "failed to encode HostFilter" });
            },
        }
        proof {
            w = w + (map_encode_err(nullable_string_bytes(self.host_filter.deep_view(), false), SerializationError::ValueTooLarge { message: "failed to encode HostFilter" }))->Ok_0;
        }
        assert(buf@ =~= old(buf)@ + w);
        Ok(())
    }

    /// Fields 6 to 7 of the encoding.
    pub open spec fn spec_encode_classic_part2(m: DeleteAclsFilterModel) -> Result<Seq<u8>, SerializationError> {
        let r = Ok(Seq::<u8>::empty());
        let r = then(r, map_encode_err(Ok(i8_bytes(m.operation)), SerializationError::ValueTooLarge { message: "failed to encode Operation" }));
        let r = then(r, map_encode_err(Ok(i8_bytes(m.permission_type)), SerializationError::ValueTooLarge { message: "failed to encode PermissionType" }));
        r
    }

    #[verifier::spinoff_prover]
    fn encode_classic_part2(&self, buf: &mut Vec<u8>) -> (r: Result<(), SerializationError>)
        ensures
            write_ok(r, old(buf)@, final(buf)@, Self::spec_encode_classic_part2(self.deep_view())),
    {
        let ghost mut w: Seq<u8> = Seq::empty();
        put_i8(buf, self.operation);
        proof {
            w = w + (map_encode_err(Ok(i8_bytes(self.operation)), SerializationError::ValueTooLarge { message: "failed to encode Operation" }))->Ok_0;
        }
        assert(buf@ =~= old(buf)@ + w);
        put_i8(buf, self.permission_type);
        proof {
            w = w + (map_encode_err(Ok(i8_bytes(self.permission_type)), SerializationError::ValueTooLarge { message: "failed to encode PermissionType" }))->Ok_0;
        }
        assert(buf@ =~= old(buf)@ + w);
        Ok(())
    }

    /// The classic encoding of the structure.
    pub open spec fn spec_encode_classic(m: DeleteAclsFilterModel) -> Result<Seq<u8>, SerializationError> {
        let r = Ok(Seq::<u8>::empty());
        let r = then(r, Self::spec_encode_classic_part1(m));
        let r = then(r, Self::spec_encode_classic_part2(m));
        r
    }

    /// Fields 1 to 5 of the encoding.
    pub open spec fn spec_encode_flexible_part1(m: DeleteAclsFilterModel, is_flexible: bool) -> Result<Seq<u8>, SerializationError> {
        let r = Ok(Seq::<u8>::empty());
        let r = then(r, map_encode_err(Ok(i8_bytes(m.resource_type_filter)), SerializationError::ValueTooLarge { message: "failed to encode ResourceTypeFilter" }));
        let r = if is_flexible { match m.resource_name_filter { Some(v) => then(then(r, Ok(uvarint_bytes(1))), map_encode_err(string_bytes(v, true), SerializationError::ValueTooLarge { message: "failed to encode ResourceNameFilter" })), None => then(r, Ok(uvarint_bytes(0))) } } else { then(r, map_encode_err(nullable_string_bytes(m.resource_name_filter, false), SerializationError::ValueTooLarge { message: "failed to encode ResourceNameFilter" })) };
        let r = then(r, map_encode_err(Ok(i8_bytes(m.pattern_type_filter)), SerializationError::ValueTooLarge { message: "failed to encode PatternTypeFilter" }));
        let r = if is_flexible { match m.principal_filter { Some(v) => then(then(r, Ok(uvarint_bytes(1))), map_encode_err(string_bytes(v, true), SerializationError::ValueTooLarge { message: "failed to encode PrincipalFilter" })), None => then(r, Ok(uvarint_bytes(0))) } } else { then(r, map_encode_err(nullable_string_bytes(m.principal_filter, false), SerializationError::ValueTooLarge { message: "failed to encode PrincipalFilter" })) };
        let r = if is_flexible { match m.host_filter { Some(v) => then(then(r, Ok(uvarint_bytes(1))), map_encode_err(string_bytes(v, true), SerializationError::ValueTooLarge { message: "failed to encode HostFilter" })), None => then(r, Ok(uvarint_bytes(0))) } } else { then(r, map_encode_err(nullable_string_bytes(m.host_filter, false), SerializationError::ValueTooLarge { message: "failed to encode HostFilter" })) };
        r
    }

    #[verifier::spinoff_prover]
    fn encode_flexible_part1(&self, buf: &mut Vec<u8>, is_flexible: bool) -> (r: Result<(), SerializationError>)
        ensures
            write_ok(r, old(buf)@, final(buf)@, Self::spec_encode_flexible_part1(self.deep_view(), is_flexible)),
    {
        let ghost mut w: Seq<u8> = Seq::empty();
        put_i8(buf, self.resource_type_filter);
        proof {
            w = w + (map_encode_err(Ok(i8_bytes(self.resource_type_filter)), SerializationError::ValueTooLarge { message: "failed to encode ResourceTypeFilter" }))->Ok_0;
        }
        assert(buf@ =~= old(buf)@ + w);
        if is_flexible {
            match &self.resource_name_filter {
                Some(v) => {
                    encode_unsigned_varint(1, buf);
                    proof {
                        w = w + uvarint_bytes(1);
                    }
                    match encode_string(&*v, buf, true) {
                        Ok(()) => {},
                        Err(_) => {
                            return Err(SerializationError::ValueTooLarge { message: "failed to encode ResourceNameFilter" });
                        },
                    }
                    proof {
                        w = w + (map_encode_err(string_bytes((*v).deep_view(), true), SerializationError::ValueTooLarge { message: "failed to encode ResourceNameFilter" }))->Ok_0;
                    }
                    assert(buf@ =~= old(buf)@ + w);
                },
                None => {
                    encode_unsigned_varint(0, buf);
                    proof {
                        w = w + uvarint_bytes(0);
                    }
                    assert(buf@ =~= old(buf)@ + w);
                },
            }
        } else {
            match encode_nullable_string(&self.resource_name_filter, buf, false) {
                Ok(()) => {},
                Err(_) => {
                    return Err(SerializationError::ValueTooLarge { message: "failed to encode ResourceNameFilter" });
                },
            }
            proof {
                w = w + (map_encode_err(nullable_string_bytes(self.resource_name_filter.deep_view(), false), SerializationError::ValueTooLarge { message: "failed to encode ResourceNameFilter" }))->Ok_0;
            }
            assert(buf@ =~= old(buf)@ + w);
        }
        put_i8(buf, self.pattern_type_filter);
        proof {
            w = w + (map_encode_err(Ok(i8_bytes(self.pattern_type_filter)), SerializationError::ValueTooLarge { message: "failed to encode PatternTypeFilter" }))->Ok_0;
        }
        assert(buf@ =~= old(buf)@ + w);
        if is_flexible {
            match &self.principal_filter {
                Some(v) => {
                    encode_unsigned_varint(1, buf);
                    proof {
                        w = w + uvarint_bytes(1);
                    }
                    match encode_string(&*v, buf, true) {
                        Ok(()) => {},
                        Err(_) => {
                            return Err(SerializationError::ValueTooLarge { message: "failed to encode PrincipalFilter" });
                        },
                    }
                    proof {
                        w = w + (map_encode_err(string_bytes((*v).deep_view(), true), SerializationError::ValueTooLarge { message: "failed to encode PrincipalFilter" }))->Ok_0;
                    }
                    assert(buf@ =~= old(buf)@ + w);
                },
                None => {
                    encode_unsigned_varint(0, buf);
                    proof {
                        w = w + uvarint_bytes(0);
                    }
                    assert(buf@ =~= old(buf)@ + w);
                },
            }
        } else {
            match encode_nullable_string(&self.principal_filter, buf, false) {
                Ok(()) => {},
                Err(_) => {
                    return Err(SerializationError::ValueTooLarge { message: "failed to encode PrincipalFilter" });
                },
            }
            proof {
                w = w + (map_encode_err(nullable_string_bytes(self.principal_filter.deep_view(), false), SerializationError::ValueTooLarge { message: "failed to encode PrincipalFilter" }))->Ok_0;
            }
            assert(buf@ =~= old(buf)@ + w);
        }
        if is_flexible {
            match &self.host_filter {
                Some(v) => {
                    encode_unsigned_varint(1, buf);
                    proof {
                        w = w + uvarint_bytes(1);
                    }
                    match encode_string(&*v, buf, true) {
                        Ok(()) => {},
                        Err(_) => {
                            return Err(SerializationError::ValueTooLarge { message: "failed to encode HostFilter" });
                        },
                    }
                    proof {
                        w = w + (map_encode_err(string_bytes((*v).deep_view(), true), SerializationError::ValueTooLarge { message: "failed to encode HostFilter" }))->Ok_0;
                    }
                    assert(buf@ =~= old(buf)@ + w);
                },
                None => {
                    encode_unsigned_varint(0, buf);
                    proof {
                        w = w + uvarint_bytes(0);
                    }
                    assert(buf@ =~= old(buf)@ + w);
                },
            }
        } else {
            match encode_nullable_string(&self.host_filter, buf, false) {
                Ok(()) => {},
                Err(_) => {
                    return Err(SerializationError::ValueTooLarge { message: "failed to encode HostFilter" });
                },
            }
            proof {
                w = w + (map_encode_err(nullable_string_bytes(self.host_filter.deep_view(), false), SerializationError::ValueTooLarge { message: "failed to encode HostFilter" }))->Ok_0;
            }
            assert(buf@ =~= old(buf)@ + w);
        }
        Ok(())
    }

    /// Fields 6 to 8 of the encoding.
    pub open spec fn spec_encode_flexible_part2(m: DeleteAclsFilterModel, is_flexible: bool) -> Result<Seq<u8>, SerializationError> {
        let r = Ok(Seq::<u8>::empty());
        let r = then(r, map_encode_err(Ok(i8_bytes(m.operation)), SerializationError::ValueTooLarge { message: "failed to encode Operation" }));
        let r = then(r, map_encode_err(Ok(i8_bytes(m.permission_type)), SerializationError::ValueTooLarge { message: "failed to encode PermissionType" }));
        let r = if is_flexible { then(r, Ok(uvarint_bytes(0))) } else { r };
        r
    }

    #[verifier::spinoff_prover]
    fn encode_flexible_part2(&self, buf: &mut Vec<u8>, is_flexible: bool) -> (r: Result<(), SerializationError>)
        ensures
            write_ok(r, old(buf)@, final(buf)@, Self::spec_encode_flexible_part2(self.deep_view(), is_flexible)),
    {
        let ghost mut w: Seq<u8> = Seq::empty();
        put_i8(buf, self.operation);
        proof {
            w = w + (map_encode_err(Ok(i8_bytes(self.operation)), SerializationError::ValueTooLarge { message: "failed to encode Operation" }))->Ok_0;
        }
        assert(buf@ =~= old(buf)@ + w);
        put_i8(buf, self.permission_type);
        proof {
            w = w + (map_encode_err(Ok(i8_bytes(self.permission_type)), SerializationError::ValueTooLarge { message: "failed to encode PermissionType" }))->Ok_0;
        }
        assert(buf@ =~= old(buf)@ + w);
        if is_flexible {
            encode_unsigned_varint(0, buf);
            proof {
                w = w + uvarint_bytes(0);
            }
            assert(buf@ =~= old(buf)@ + w);
        }
        Ok(())
    }

    /// The flexible-aware encoding of the structure.
    pub open spec fn spec_encode_flexible(m: DeleteAclsFilterModel, is_flexible: bool) -> Result<Seq<u8>, SerializationError> {
        let r = Ok(Seq::<u8>::empty());
        let r = then(r, Self::spec_encode_flexible_part1(m, is_flexible));
        let r = then(r, Self::spec_encode_flexible_part2(m, is_flexible));
        r
    }

    /// The structure read by the classic decoder.
    pub open spec fn spec_decode_classic(s: Seq<u8>, pos: int) -> Result<(DeleteAclsFilterModel, int), SerializationError> {
        match map_decode_err(parse_i8(s, pos), SerializationError::Protocol { message: "failed to decode ResourceTypeFilter" }) {
            Err(e) => Err(e),
            Ok((resource_type_filter, pos)) =>
            match map_decode_err(parse_nullable_string(s, pos, false), SerializationError::Protocol { message: "failed to decode ResourceNameFilter" }) {
                Err(e) => Err(e),
                Ok((resource_name_filter, pos)) =>
                match map_decode_err(parse_i8(s, pos), SerializationError::Protocol { message: "failed to decode PatternTypeFilter" }) {
                    Err(e) => Err(e),
                    Ok((pattern_type_filter, pos)) =>
                    match map_decode_err(parse_nullable_string(s, pos, false), SerializationError::Protocol { message: "failed to decode PrincipalFilter" }) {
                        Err(e) => Err(e),
                        Ok((principal_filter, pos)) =>
                        match map_decode_err(parse_nullable_string(s, pos, false), SerializationError::Protocol { message: "failed to decode HostFilter" }) {
                            Err(e) => Err(e),
                            Ok((host_filter, pos)) =>
                            match map_decode_err(parse_i8(s, pos), SerializationError::Protocol { message: "failed to decode Operation" }) {
                                Err(e) => Err(e),
                                Ok((operation, pos)) =>
                                match map_decode_err(parse_i8(s, pos), SerializationError::Protocol { message: "failed to decode PermissionType" }) {
                                    Err(e) => Err(e),
                                    Ok((permission_type, pos)) =>
                                    Ok((DeleteAclsFilterModel { resource_type_filter, resource_name_filter, pattern_type_filter, principal_filter, host_filter, operation, permission_type }, pos))
                                }
                            }
                        }
                    }
                }
            }
        }
    }

    /// The structure read by the flexible-aware decoder.
    pub open spec fn spec_decode_flexible(s: Seq<u8>, pos: int, is_flexible: bool) -> Result<(DeleteAclsFilterModel, int), SerializationError> {
        match map_decode_err(parse_i8(s, pos), SerializationError::Protocol { message: "failed to decode ResourceTypeFilter" }) {
            Err(e) => Err(e),
            Ok((resource_type_filter, pos)) =>
            match (if is_flexible { map_decode_err(parse_nullable_string(s, pos, true), SerializationError::Protocol { message: "failed to decode ResourceNameFilter" }) } else { map_decode_err(parse_nullable_string(s, pos, false), SerializationError::Protocol { message: "failed to decode ResourceNameFilter" }) }) {
                Err(e) => Err(e),
                Ok((resource_name_filter, pos)) =>
                match map_decode_err(parse_i8(s, pos), SerializationError::Protocol { message: "failed to decode PatternTypeFilter" }) {
                    Err(e) => Err(e),
                    Ok((pattern_type_filter, pos)) =>
                    match (if is_flexible { map_decode_err(parse_nullable_string(s, pos, true), SerializationError::Protocol { message: "failed to decode PrincipalFilter" }) } else { map_decode_err(parse_nullable_string(s, pos, false), SerializationError::Protocol { message: "failed to decode PrincipalFilter" }) }) {
                        Err(e) => Err(e),
                        Ok((principal_filter, pos)) =>
                        match (if is_flexible { map_decode_err(parse_nullable_string(s, pos, true), SerializationError::Protocol { message: "failed to decode HostFilter" }) } else { map_decode_err(parse_nullable_string(s, pos, false), SerializationError::Protocol { message: "failed to decode HostFilter" }) }) {
                            Err(e) => Err(e),
                            Ok((host_filter, pos)) =>
                            match map_decode_err(parse_i8(s, pos), SerializationError::Protocol { message: "failed to decode Operation" }) {
                                Err(e) => Err(e),
                                Ok((operation, pos)) =>
                                match map_decode_err(parse_i8(s, pos), SerializationError::Protocol { message: "failed to decode PermissionType" }) {
                                    Err(e) => Err(e),
                                    Ok((permission_type, pos)) =>
                                    match (if is_flexible { parse_uvarint(s, pos) } else { Ok((0u64, pos)) }) {
                                        Err(e) => Err(e),
                                        Ok((_tag_count, pos)) =>
                                        Ok((DeleteAclsFilterModel { resource_type_filter, resource_name_filter, pattern_type_filter, principal_filter, host_filter, operation, permission_type }, pos))
                                    }
                                }
                            }
                        }
                    }
                }
            }
        }
    }

    /// Values of the structure that read back from their classic encoding:
    /// nested values read back.
    pub open spec fn reads_back_classic(m: DeleteAclsFilterModel) -> bool {
        true
    }

    /// A value that can be written and reads back: decoding its encoding, wherever
    /// it stands, gives the value and the position just after it.
    #[verifier::spinoff_prover]
    pub proof fn lemma_classic_read_back(pre: Seq<u8>, m: DeleteAclsFilterModel, post: Seq<u8>)
        requires
            Self::spec_encode_classic(m) is Ok,
            Self::reads_back_classic(m),
        ensures
            Self::spec_decode_classic(pre + Self::spec_encode_classic(m)->Ok_0 + post, pre.len() as int) == Ok::<(DeleteAclsFilterModel, int), SerializationError>((m, pre.len() as int + Self::spec_encode_classic(m)->Ok_0.len())),
    {
        let b0 = i8_bytes(m.resource_type_filter);
        let b1 = (nullable_string_bytes(m.resource_name_filter, false))->Ok_0;
        let b2 = i8_bytes(m.pattern_type_filter);
        let b3 = (nullable_string_bytes(m.principal_filter, false))->Ok_0;
        let b4 = (nullable_string_bytes(m.host_filter, false))->Ok_0;
        let b5 = i8_bytes(m.operation);
        let b6 = i8_bytes(m.permission_type);
        let t7 = post;
        let t6 = b6 + t7;
        let t5 = b5 + t6;
        let t4 = b4 + t5;
        let t3 = b3 + t4;
        let t2 = b2 + t3;
        let t1 = b1 + t2;
        let t0 = b0 + t1;
        let e = Self::spec_encode_classic(m)->Ok_0;
        let p1 = Self::spec_encode_classic_part1(m)->Ok_0;
        assert(p1 =~= Seq::<u8>::empty() + b0 + b1 + b2 + b3 + b4);
        lemma_seq_assoc(((((Seq::<u8>::empty() + b0) + b1) + b2) + b3), b4, t5);
        lemma_seq_assoc((((Seq::<u8>::empty() + b0) + b1) + b2), b3, (b4 + t5));
        lemma_seq_assoc(((Seq::<u8>::empty() + b0) + b1), b2, (b3 + (b4 + t5)));
        lemma_seq_assoc((Seq::<u8>::empty() + b0), b1, (b2 + (b3 + (b4 + t5))));
        lemma_seq_assoc(Seq::<u8>::empty(), b0, (b1 + (b2 + (b3 + (b4 + t5)))));
        lemma_seq_empty_left((b0 + (b1 + (b2 + (b3 + (b4 + t5))))));
        let p2 = Self::spec_encode_classic_part2(m)->Ok_0;
        assert(p2 =~= Seq::<u8>::empty() + b5 + b6);
        lemma_seq_assoc((Seq::<u8>::empty() + b5), b6, t7);
        lemma_seq_assoc(Seq::<u8>::empty(), b5, (b6 + t7));
        lemma_seq_empty_left((b5 + (b6 + t7)));
        assert(e == Seq::<u8>::empty() + p1 + p2);
        lemma_seq_assoc((Seq::<u8>::empty() + p1), p2, t7);
        lemma_seq_assoc(Seq::<u8>::empty(), p1, (p2 + t7));
        lemma_seq_empty_left((p1 + (p2 + t7)));
        let s = pre + e + post;
        lemma_seq_assoc(pre, e, post);
        assert(s == pre + t0);
        let a0 = pre;
        assert(parse_i8(s, a0.len() as int) == Ok::<(i8, int), SerializationError>((m.resource_type_filter, a0.len() as int + b0.len()))) by {
            lemma_seq_assoc(a0, b0, t1);
            lemma_i8_roundtrip(a0, m.resource_type_filter, t1);
        }
        lemma_seq_assoc(a0, b0, t1);
        let a1 = a0 + b0;
        assert(parse_nullable_string(s, a1.len() as int, false) == Ok::<(Option<Seq<char>>, int), SerializationError>((m.resource_name_filter, a1.len() as int + b1.len()))) by {
            assert(nullable_string_bytes(m.resource_name_filter, false) is Ok);
            lemma_seq_assoc(a1, b1, t2);
            lemma_nullable_string_roundtrip(a1, m.resource_name_filter, t2, false);
        }
        lemma_seq_assoc(a1, b1, t2);
        let a2 = a1 + b1;
        assert(parse_i8(s, a2.len() as int) == Ok::<(i8, int), SerializationError>((m.pattern_type_filter, a2.len() as int + b2.len()))) by {
            lemma_seq_assoc(a2, b2, t3);
            lemma_i8_roundtrip(a2, m.pattern_type_filter, t3);
        }
        lemma_seq_assoc(a2, b2, t3);
        let a3 = a2 + b2;
        assert(parse_nullable_string(s, a3.len() as int, false) == Ok::<(Option<Seq<char>>, int), SerializationError>((m.principal_filter, a3.len() as int + b3.len()))) by {
            assert(nullable_string_bytes(m.principal_filter, false) is Ok);
            lemma_seq_assoc(a3, b3, t4);
            lemma_nullable_string_roundtrip(a3, m.principal_filter, t4, false);
        }
        lemma_seq_assoc(a3, b3, t4);
        let a4 = a3 + b3;
        assert(parse_nullable_string(s, a4.len() as int, false) == Ok::<(Option<Seq<char>>, int), SerializationError>((m.host_filter, a4.len() as int + b4.len()))) by {
            assert(nullable_string_bytes(m.host_filter, false) is Ok);
            lemma_seq_assoc(a4, b4, t5);
            lemma_nullable_string_roundtrip(a4, m.host_filter, t5, false);
        }
        lemma_seq_assoc(a4, b4, t5);
        let a5 = a4 + b4;
        assert(parse_i8(s, a5.len() as int) == Ok::<(i8, int), SerializationError>((m.operation, a5.len() as int + b5.len()))) by {
            lemma_seq_assoc(a5, b5, t6);
            lemma_i8_roundtrip(a5, m.operation, t6);
        }
        lemma_seq_assoc(a5, b5, t6);
        let a6 = a5 + b5;
        assert(parse_i8(s, a6.len() as int) == Ok::<(i8, int), SerializationError>((m.permission_type, a6.len() as int + b6.len()))) by {
            lemma_seq_assoc(a6, b6, t7);
            lemma_i8_roundtrip(a6, m.permission_type, t7);
        }
    }

    /// The bytes written: the encoding of each field, in the order of the
    /// protocol's layout. Reading them back, wherever they stand, gives the value,
    /// with each field that the version leaves out at its default.
    #[verifier::spinoff_prover]
    pub proof fn lemma_classic_layout(pre: Seq<u8>, m: DeleteAclsFilterModel, post: Seq<u8>)
        requires
            Self::spec_encode_classic(m) is Ok,
        ensures
            Self::spec_encode_classic(m) == Ok::<Seq<u8>, SerializationError>((i8_bytes(m.resource_type_filter)) + ((nullable_string_bytes(m.resource_name_filter, false))->Ok_0) + (i8_bytes(m.pattern_type_filter)) + ((nullable_string_bytes(m.principal_filter, false))->Ok_0) + ((nullable_string_bytes(m.host_filter, false))->Ok_0) + (i8_bytes(m.operation)) + (i8_bytes(m.permission_type))),
            Self::reads_back_classic(m) ==> Self::spec_decode_classic(pre + ((i8_bytes(m.resource_type_filter)) + ((nullable_string_bytes(m.resource_name_filter, false))->Ok_0) + (i8_bytes(m.pattern_type_filter)) + ((nullable_string_bytes(m.principal_filter, false))->Ok_0) + ((nullable_string_bytes(m.host_filter, false))->Ok_0) + (i8_bytes(m.operation)) + (i8_bytes(m.permission_type))) + post, pre.len() as int) == Ok::<(DeleteAclsFilterModel, int), SerializationError>((m, pre.len() as int + ((i8_bytes(m.resource_type_filter)) + ((nullable_string_bytes(m.resource_name_filter, false))->Ok_0) + (i8_bytes(m.pattern_type_filter)) + ((nullable_string_bytes(m.principal_filter, false))->Ok_0) + ((nullable_string_bytes(m.host_filter, false))->Ok_0) + (i8_bytes(m.operation)) + (i8_bytes(m.permission_type))).len())),
    {
        let b0 = i8_bytes(m.resource_type_filter);
        let b1 = (nullable_string_bytes(m.resource_name_filter, false))->Ok_0;
        let b2 = i8_bytes(m.pattern_type_filter);
        let b3 = (nullable_string_bytes(m.principal_filter, false))->Ok_0;
        let b4 = (nullable_string_bytes(m.host_filter, false))->Ok_0;
        let b5 = i8_bytes(m.operation);
        let b6 = i8_bytes(m.permission_type);
        let e = Self::spec_encode_classic(m)->Ok_0;
        let p1 = Self::spec_encode_classic_part1(m)->Ok_0;
        assert(p1 =~= Seq::<u8>::empty() + b0 + b1 + b2 + b3 + b4);
        let p2 = Self::spec_encode_classic_part2(m)->Ok_0;
        assert(p2 =~= Seq::<u8>::empty() + b5 + b6);
        assert(e == Seq::<u8>::empty() + p1 + p2);
        assert(e =~= b0 + b1 + b2 + b3 + b4 + b5 + b6);
        if Self::reads_back_classic(m) {
            Self::lemma_classic_read_back(pre, m, post);
        }
    }

    /// Writing succeeds exactly when every field that the version carries can be
    /// encoded and every field that it leaves out, where leaving it out is an
    /// error, holds its default.
    #[verifier::spinoff_prover]
    pub proof fn lemma_classic_write_succeeds(m: DeleteAclsFilterModel)
        ensures
            Self::spec_encode_classic(m) is Ok <==> (map_encode_err(Ok(i8_bytes(m.resource_type_filter)), SerializationError::ValueTooLarge { message: "failed to encode ResourceTypeFilter" }) is Ok) && (map_encode_err(nullable_string_bytes(m.resource_name_filter, false), SerializationError::ValueTooLarge { message: "failed to encode ResourceNameFilter" }) is Ok) && (map_encode_err(Ok(i8_bytes(m.pattern_type_filter)), SerializationError::ValueTooLarge { message: "failed to encode PatternTypeFilter" }) is Ok) && (map_encode_err(nullable_string_bytes(m.principal_filter, false), SerializationError::ValueTooLarge { message: "failed to encode PrincipalFilter" }) is Ok) && (map_encode_err(nullable_string_bytes(m.host_filter, false), SerializationError::ValueTooLarge { message: "failed to encode HostFilter" }) is Ok) && (map_encode_err(Ok(i8_bytes(m.operation)), SerializationError::ValueTooLarge { message: "failed to encode Operation" }) is Ok) && (map_encode_err(Ok(i8_bytes(m.permission_type)), SerializationError::ValueTooLarge { message: "failed to encode PermissionType" }) is Ok),
    {
    }

    /// Values of the structure that read back from their flexible-aware encoding:
    /// nested values read back.
    /// In compact mode a present optional value is written after a presence marker
    /// that the decoder does not read, so only absent ones read back.
    pub open spec fn reads_back_flexible(m: DeleteAclsFilterModel, is_flexible: bool) -> bool {
        &&& is_flexible ==> m.resource_name_filter is None
        &&& is_flexible ==> m.principal_filter is None
        &&& is_flexible ==> m.host_filter is None
    }

    /// A value that can be written and reads back: decoding its encoding, wherever
    /// it stands, gives the value and the position just after it.
    #[verifier::spinoff_prover]
    pub proof fn lemma_flexible_read_back(pre: Seq<u8>, m: DeleteAclsFilterModel, post: Seq<u8>, is_flexible: bool)
        requires
            Self::spec_encode_flexible(m, is_flexible) is Ok,
            Self::reads_back_flexible(m, is_flexible),
        ensures
            Self::spec_decode_flexible(pre + Self::spec_encode_flexible(m, is_flexible)->Ok_0 + post, pre.len() as int, is_flexible) == Ok::<(DeleteAclsFilterModel, int), SerializationError>((m, pre.len() as int + Self::spec_encode_flexible(m, is_flexible)->Ok_0.len())),
    {
        let b0 = i8_bytes(m.resource_type_filter);
        let b1 = if is_flexible { match m.resource_name_filter { Some(v) => uvarint_bytes(1) + (string_bytes(v, true))->Ok_0, None => uvarint_bytes(0) } } else { (nullable_string_bytes(m.resource_name_filter, false))->Ok_0 };
        let b2 = i8_bytes(m.pattern_type_filter);
        let b3 = if is_flexible { match m.principal_filter { Some(v) => uvarint_bytes(1) + (string_bytes(v, true))->Ok_0, None => uvarint_bytes(0) } } else { (nullable_string_bytes(m.principal_filter, false))->Ok_0 };
        let b4 = if is_flexible { match m.host_filter { Some(v) => uvarint_bytes(1) + (string_bytes(v, true))->Ok_0, None => uvarint_bytes(0) } } else { (nullable_string_bytes(m.host_filter, false))->Ok_0 };
        let b5 = i8_bytes(m.operation);
        let b6 = i8_bytes(m.permission_type);
        let b7 = if is_flexible { uvarint_bytes(0) } else { Seq::<u8>::empty() };
        let t8 = post;
        let t7 = b7 + t8;
        let t6 = b6 + t7;
        let t5 = b5 + t6;
        let t4 = b4 + t5;
        let t3 = b3 + t4;
        let t2 = b2 + t3;
        let t1 = b1 + t2;
        let t0 = b0 + t1;
        let e = Self::spec_encode_flexible(m, is_flexible)->Ok_0;
        let p1 = Self::spec_encode_flexible_part1(m, is_flexible)->Ok_0;
        assert(p1 =~= Seq::<u8>::empty() + b0 + b1 + b2 + b3 + b4);
        lemma_seq_assoc(((((Seq::<u8>::empty() + b0) + b1) + b2) + b3), b4, t5);
        lemma_seq_assoc((((Seq::<u8>::empty() + b0) + b1) + b2), b3, (b4 + t5));
        lemma_seq_assoc(((Seq::<u8>::empty() + b0) + b1), b2, (b3 + (b4 + t5)));
        lemma_seq_assoc((Seq::<u8>::empty() + b0), b1, (b2 + (b3 + (b4 + t5))));
        lemma_seq_assoc(Seq::<u8>::empty(), b0, (b1 + (b2 + (b3 + (b4 + t5)))));
        lemma_seq_empty_left((b0 + (b1 + (b2 + (b3 + (b4 + t5))))));
        let p2 = Self::spec_encode_flexible_part2(m, is_flexible)->Ok_0;
        assert(p2 =~= Seq::<u8>::empty() + b5 + b6 + b7);
        lemma_seq_assoc(((Seq::<u8>::empty() + b5) + b6), b7, t8);
        lemma_seq_assoc((Seq::<u8>::empty() + b5), b6, (b7 + t8));
        lemma_seq_assoc(Seq::<u8>::empty(), b5, (b6 + (b7 + t8)));
        lemma_seq_empty_left((b5 + (b6 + (b7 + t8))));
        assert(e == Seq::<u8>::empty() + p1 + p2);
        lemma_seq_assoc((Seq::<u8>::empty() + p1), p2, t8);
        lemma_seq_assoc(Seq::<u8>::empty(), p1, (p2 + t8));
        lemma_seq_empty_left((p1 + (p2 + t8)));
        let s = pre + e + post;
        lemma_seq_assoc(pre, e, post);
        assert(s == pre + t0);
        let a0 = pre;
        assert(parse_i8(s, a0.len() as int) == Ok::<(i8, int), SerializationError>((m.resource_type_filter, a0.len() as int + b0.len()))) by {
            lemma_seq_assoc(a0, b0, t1);
            lemma_i8_roundtrip(a0, m.resource_type_filter, t1);
        }
        lemma_seq_assoc(a0, b0, t1);
        let a1 = a0 + b0;
        if is_flexible {
            match m.resource_name_filter {
                Some(v) => {
                    let x = (string_bytes(v, true))->Ok_0;
                    assert(parse_uvarint(s, a1.len() as int) == Ok::<(u64, int), SerializationError>((1u64, a1.len() as int + 1))) by {
                        assert(s =~= a1 + uvarint_bytes(1) + (x + t2));
                        lemma_uvarint_roundtrip(a1, 1, x + t2);
                    }
                    let a1x = a1 + uvarint_bytes(1);
                    assert(parse_string(s, a1x.len() as int, true) == Ok::<(Seq<char>, int), SerializationError>((v, a1x.len() as int + x.len()))) by {
                        assert(s =~= a1x + x + t2);
                        lemma_string_roundtrip(a1x, v, t2, true);
                    }
                },
                None => {
                    assert(parse_nullable_string(s, a1.len() as int, true) == Ok::<(Option<Seq<char>>, int), SerializationError>((None::<Seq<char>>, a1.len() as int + 1))) by {
                        reveal(nullable_string_bytes);
                        assert(s =~= a1 + b1 + t2);
                        lemma_nullable_string_roundtrip(a1, m.resource_name_filter, t2, true);
                    }
                },
            }
        } else {
            assert(parse_nullable_string(s, a1.len() as int, false) == Ok::<(Option<Seq<char>>, int), SerializationError>((m.resource_name_filter, a1.len() as int + b1.len()))) by {
                assert(nullable_string_bytes(m.resource_name_filter, false) is Ok);
                lemma_seq_assoc(a1, b1, t2);
                lemma_nullable_string_roundtrip(a1, m.resource_name_filter, t2, false);
            }
        }
        lemma_seq_assoc(a1, b1, t2);
        let a2 = a1 + b1;
        assert(parse_i8(s, a2.len() as int) == Ok::<(i8, int), SerializationError>((m.pattern_type_filter, a2.len() as int + b2.len()))) by {
            lemma_seq_assoc(a2, b2, t3);
            lemma_i8_roundtrip(a2, m.pattern_type_filter, t3);
        }
        lemma_seq_assoc(a2, b2, t3);
        let a3 = a2 + b2;
        if is_flexible {
            match m.principal_filter {
                Some(v) => {
                    let x = (string_bytes(v, true))->Ok_0;
                    assert(parse_uvarint(s, a3.len() as int) == Ok::<(u64, int), SerializationError>((1u64, a3.len() as int + 1))) by {
                        assert(s =~= a3 + uvarint_bytes(1) + (x + t4));
                        lemma_uvarint_roundtrip(a3, 1, x + t4);
                    }
                    let a1x = a3 + uvarint_bytes(1);
                    assert(parse_string(s, a1x.len() as int, true) == Ok::<(Seq<char>, int), SerializationError>((v, a1x.len() as int + x.len()))) by {
                        assert(s =~= a1x + x + t4);
                        lemma_string_roundtrip(a1x, v, t4, true);
                    }
                },
                None => {
                    assert(parse_nullable_string(s, a3.len() as int, true) == Ok::<(Option<Seq<char>>, int), SerializationError>((None::<Seq<char>>, a3.len() as int + 1))) by {
                        reveal(nullable_string_bytes);
                        assert(s =~= a3 + b3 + t4);
                        lemma_nullable_string_roundtrip(a3, m.principal_filter, t4, true);
                    }
                },
            }
        } else {
            assert(parse_nullable_string(s, a3.len() as int, false) == Ok::<(Option<Seq<char>>, int), SerializationError>((m.principal_filter, a3.len() as int + b3.len()))) by {
                assert(nullable_string_bytes(m.principal_filter, false) is Ok);
                lemma_seq_assoc(a3, b3, t4);
                lemma_nullable_string_roundtrip(a3, m.principal_filter, t4, false);
            }
        }
        lemma_seq_assoc(a3, b3, t4);
        let a4 = a3 + b3;
        if is_flexible {
            match m.host_filter {
                Some(v) => {
                    let x = (string_bytes(v, true))->Ok_0;
                    assert(parse_uvarint(s, a4.len() as int) == Ok::<(u64, int), SerializationError>((1u64, a4.len() as int + 1))) by {
                        assert(s =~= a4 + uvarint_bytes(1) + (x + t5));
                        lemma_uvarint_roundtrip(a4, 1, x + t5);
                    }
                    let a1x = a4 + uvarint_bytes(1);
                    assert(parse_string(s, a1x.len() as int, true) == Ok::<(Seq<char>, int), SerializationError>((v, a1x.len() as int + x.len()))) by {
                        assert(s =~= a1x + x + t5);
                        lemma_string_roundtrip(a1x, v, t5, true);
                    }
                },
                None => {
                    assert(parse_nullable_string(s, a4.len() as int, true) == Ok::<(Option<Seq<char>>, int), SerializationError>((None::<Seq<char>>, a4.len() as int + 1))) by {
                        reveal(nullable_string_bytes);
                        assert(s =~= a4 + b4 + t5);
                        lemma_nullable_string_roundtrip(a4, m.host_filter, t5, true);
                    }
                },
            }
        } else {
            assert(parse_nullable_string(s, a4.len() as int, false) == Ok::<(Option<Seq<char>>, int), SerializationError>((m.host_filter, a4.len() as int + b4.len()))) by {
                assert(nullable_string_bytes(m.host_filter, false) is Ok);
                lemma_seq_assoc(a4, b4, t5);
                lemma_nullable_string_roundtrip(a4, m.host_filter, t5, false);
            }
        }
        lemma_seq_assoc(a4, b4, t5);
        let a5 = a4 + b4;
        assert(parse_i8(s, a5.len() as int) == Ok::<(i8, int), SerializationError>((m.operation, a5.len() as int + b5.len()))) by {
            lemma_seq_assoc(a5, b5, t6);
            lemma_i8_roundtrip(a5, m.operation, t6);
        }
        lemma_seq_assoc(a5, b5, t6);
        let a6 = a5 + b5;
        assert(parse_i8(s, a6.len() as int) == Ok::<(i8, int), SerializationError>((m.permission_type, a6.len() as int + b6.len()))) by {
            lemma_seq_assoc(a6, b6, t7);
            lemma_i8_roundtrip(a6, m.permission_type, t7);
        }
        lemma_seq_assoc(a6, b6, t7);
        let a7 = a6 + b6;
        if is_flexible {
            assert(parse_uvarint(s, a7.len() as int) == Ok::<(u64, int), SerializationError>((0u64, a7.len() as int + b7.len()))) by {
                lemma_seq_assoc(a7, b7, t8);
                lemma_uvarint_roundtrip(a7, 0, t8);
            }
        }
    }

    /// The bytes written: the encoding of each field, in the order of the
    /// protocol's layout. Reading them back, wherever they stand, gives the value,
    /// with each field that the version leaves out at its default.
    #[verifier::spinoff_prover]
    pub proof fn lemma_flexible_layout(pre: Seq<u8>, m: DeleteAclsFilterModel, post: Seq<u8>, is_flexible: bool)
        requires
            Self::spec_encode_flexible(m, is_flexible) is Ok,
        ensures
            Self::spec_encode_flexible(m, is_flexible) == Ok::<Seq<u8>, SerializationError>((i8_bytes(m.resource_type_filter)) + (if is_flexible { match m.resource_name_filter { Some(v) => uvarint_bytes(1) + (string_bytes(v, true))->Ok_0, None => uvarint_bytes(0) } } else { (nullable_string_bytes(m.resource_name_filter, false))->Ok_0 }) + (i8_bytes(m.pattern_type_filter)) + (if is_flexible { match m.principal_filter { Some(v) => uvarint_bytes(1) + (string_bytes(v, true))->Ok_0, None => uvarint_bytes(0) } } else { (nullable_string_bytes(m.principal_filter, false))->Ok_0 }) + (if is_flexible { match m.host_filter { Some(v) => uvarint_bytes(1) + (string_bytes(v, true))->Ok_0, None => uvarint_bytes(0) } } else { (nullable_string_bytes(m.host_filter, false))->Ok_0 }) + (i8_bytes(m.operation)) + (i8_bytes(m.permission_type)) + (if is_flexible { uvarint_bytes(0) } else { Seq::<u8>::empty() })),
            Self::reads_back_flexible(m, is_flexible) ==> Self::spec_decode_flexible(pre + ((i8_bytes(m.resource_type_filter)) + (if is_flexible { match m.resource_name_filter { Some(v) => uvarint_bytes(1) + (string_bytes(v, true))->Ok_0, None => uvarint_bytes(0) } } else { (nullable_string_bytes(m.resource_name_filter, false))->Ok_0 }) + (i8_bytes(m.pattern_type_filter)) + (if is_flexible { match m.principal_filter { Some(v) => uvarint_bytes(1) + (string_bytes(v, true))->Ok_0, None => uvarint_bytes(0) } } else { (nullable_string_bytes(m.principal_filter, false))->Ok_0 }) + (if is_flexible { match m.host_filter { Some(v) => uvarint_bytes(1) + (string_bytes(v, true))->Ok_0, None => uvarint_bytes(0) } } else { (nullable_string_bytes(m.host_filter, false))->Ok_0 }) + (i8_bytes(m.operation)) + (i8_bytes(m.permission_type)) + (if is_flexible { uvarint_bytes(0) } else { Seq::<u8>::empty() })) + post, pre.len() as int, is_flexible) == Ok::<(DeleteAclsFilterModel, int), SerializationError>((m, pre.len() as int + ((i8_bytes(m.resource_type_filter)) + (if is_flexible { match m.resource_name_filter { Some(v) => uvarint_bytes(1) + (string_bytes(v, true))->Ok_0, None => uvarint_bytes(0) } } else { (nullable_string_bytes(m.resource_name_filter, false))->Ok_0 }) + (i8_bytes(m.pattern_type_filter)) + (if is_flexible { match m.principal_filter { Some(v) => uvarint_bytes(1) + (string_bytes(v, true))->Ok_0, None => uvarint_bytes(0) } } else { (nullable_string_bytes(m.principal_filter, false))->Ok_0 }) + (if is_flexible { match m.host_filter { Some(v) => uvarint_bytes(1) + (string_bytes(v, true))->Ok_0, None => uvarint_bytes(0) } } else { (nullable_string_bytes(m.host_filter, false))->Ok_0 }) + (i8_bytes(m.operation)) + (i8_bytes(m.permission_type)) + (if is_flexible { uvarint_bytes(0) } else { Seq::<u8>::empty() })).len())),
    {
        let b0 = i8_bytes(m.resource_type_filter);
        let b1 = if is_flexible { match m.resource_name_filter { Some(v) => uvarint_bytes(1) + (string_bytes(v, true))->Ok_0, None => uvarint_bytes(0) } } else { (nullable_string_bytes(m.resource_name_filter, false))->Ok_0 };
        let b2 = i8_bytes(m.pattern_type_filter);
        let b3 = if is_flexible { match m.principal_filter { Some(v) => uvarint_bytes(1) + (string_bytes(v, true))->Ok_0, None => uvarint_bytes(0) } } else { (nullable_string_bytes(m.principal_filter, false))->Ok_0 };
        let b4 = if is_flexible { match m.host_filter { Some(v) => uvarint_bytes(1) + (string_bytes(v, true))->Ok_0, None => uvarint_bytes(0) } } else { (nullable_string_bytes(m.host_filter, false))->Ok_0 };
        let b5 = i8_bytes(m.operation);
        let b6 = i8_bytes(m.permission_type);
        let b7 = if is_flexible { uvarint_bytes(0) } else { Seq::<u8>::empty() };
        let e = Self::spec_encode_flexible(m, is_flexible)->Ok_0;
        let p1 = Self::spec_encode_flexible_part1(m, is_flexible)->Ok_0;
        assert(p1 =~= Seq::<u8>::empty() + b0 + b1 + b2 + b3 + b4);
        let p2 = Self::spec_encode_flexible_part2(m, is_flexible)->Ok_0;
        assert(p2 =~= Seq::<u8>::empty() + b5 + b6 + b7);
        assert(e == Seq::<u8>::empty() + p1 + p2);
        assert(e =~= b0 + b1 + b2 + b3 + b4 + b5 + b6 + b7);
        if Self::reads_back_flexible(m, is_flexible) {
            Self::lemma_flexible_read_back(pre, m, post, is_flexible);
        }
    }

    /// With the compact encodings off, the flexible-aware layout is the classic
    /// layout: both write the same bytes.
    pub proof fn lemma_flexible_off_writes_classic(m: DeleteAclsFilterModel)
        ensures
            Self::spec_encode_flexible(m, false) == Self::spec_encode_classic(m),
    {
    }

    /// With the compact encodings off, the flexible-aware layout is the classic
    /// layout: both read the same bytes alike.
    pub proof fn lemma_flexible_off_reads_classic(s: Seq<u8>, pos: int)
        ensures
            Self::spec_decode_flexible(s, pos, false) == Self::spec_decode_classic(s, pos),
    {
    }

    /// Writes the structure in the classic layout.
    /// On failure the buffer is left as it was.
    pub fn encode(&self, buf: &mut Vec<u8>) -> (r: Result<(), SerializationError>)
        ensures
            write_exact(r, old(buf)@, final(buf)@, Self::spec_encode_classic(self.deep_view())),
    {
        let start = buf.len();
        let r = self.write_classic(buf);
        if r.is_err() {
            buf.truncate(start);
        }
        r
    }

    #[verifier::spinoff_prover]
    fn write_classic(&self, buf: &mut Vec<u8>) -> (r: Result<(), SerializationError>)
        ensures
            write_ok(r, old(buf)@, final(buf)@, Self::spec_encode_classic(self.deep_view())),
    {
        let ghost mut w: Seq<u8> = Seq::empty();
        self.encode_classic_part1(buf)?;
        proof {
            w = w + (Self::spec_encode_classic_part1(self.deep_view()))->Ok_0;
        }
        assert(buf@ =~= old(buf)@ + w);
        self.encode_classic_part2(buf)?;
        proof {
            w = w + (Self::spec_encode_classic_part2(self.deep_view()))->Ok_0;
        }
        assert(buf@ =~= old(buf)@ + w);
        Ok(())
    }

    /// Writes the structure, with the compact encodings when `is_flexible`.
    /// On failure the buffer is left as it was.
    pub fn encode_flexible(&self, buf: &mut Vec<u8>, is_flexible: bool) -> (r: Result<(), SerializationError>)
        ensures
            write_exact(r, old(buf)@, final(buf)@, Self::spec_encode_flexible(self.deep_view(), is_flexible)),
    {
        let start = buf.len();
        let r = self.write_flexible(buf, is_flexible);
        if r.is_err() {
            buf.truncate(start);
        }
        r
    }

    #[verifier::spinoff_prover]
    fn write_flexible(&self, buf: &mut Vec<u8>, is_flexible: bool) -> (r: Result<(), SerializationError>)
        ensures
            write_ok(r, old(buf)@, final(buf)@, Self::spec_encode_flexible(self.deep_view(), is_flexible)),
    {
        let ghost mut w: Seq<u8> = Seq::empty();
        self.encode_flexible_part1(buf, is_flexible)?;
        proof {
            w = w + (Self::spec_encode_flexible_part1(self.deep_view(), is_flexible))->Ok_0;
        }
        assert(buf@ =~= old(buf)@ + w);
        self.encode_flexible_part2(buf, is_flexible)?;
        proof {
            w = w + (Self::spec_encode_flexible_part2(self.deep_view(), is_flexible))->Ok_0;
        }
        assert(buf@ =~= old(buf)@ + w);
        Ok(())
    }

    /// Reads the structure in the classic layout.
    /// On failure the reader is put back where it started.
    #[verifier::spinoff_prover]
    pub fn decode(buf: &mut Reader) -> (r: Result<Self, SerializationError>)
        ensures
            final(buf).bytes() == old(buf).bytes(),
            read_view_exact(r, Self::spec_decode_classic(old(buf).bytes(), old(buf).pos()), old(buf).pos(), final(buf).pos()),
    {
        let start = buf.position();
        let r = Self::read_classic(buf);
        if r.is_err() {
            buf.set_position(start);
        }
        r
    }

    fn read_classic(buf: &mut Reader) -> (r: Result<Self, SerializationError>)
        ensures
            final(buf).bytes() == old(buf).bytes(),
            read_view_ok(r, Self::spec_decode_classic(old(buf).bytes(), old(buf).pos()), final(buf).pos()),
    {
        let resource_type_filter = match buf.get_i8() { Ok(v) => v, Err(_) => { return Err(SerializationError::Protocol { message: "failed to decode ResourceTypeFilter" }); } };
        let resource_name_filter = match buf.get_nullable_string(false) { Ok(v) => v, Err(_) => { return Err(SerializationError::Protocol { message: "failed to decode ResourceNameFilter" }); } };
        let pattern_type_filter = match buf.get_i8() { Ok(v) => v, Err(_) => { return Err(SerializationError::Protocol { message: "failed to decode PatternTypeFilter" }); } };
        let principal_filter = match buf.get_nullable_string(false) { Ok(v) => v, Err(_) => { return Err(SerializationError::Protocol { message: "failed to decode PrincipalFilter" }); } };
        let host_filter = match buf.get_nullable_string(false) { Ok(v) => v, Err(_) => { return Err(SerializationError::Protocol { message: "failed to decode HostFilter" }); } };
        let operation = match buf.get_i8() { Ok(v) => v, Err(_) => { return Err(SerializationError::Protocol { message: "failed to decode Operation" }); } };
        let permission_type = match buf.get_i8() { Ok(v) => v, Err(_) => { return Err(SerializationError::Protocol { message: "failed to decode PermissionType" }); } };
        Ok(DeleteAclsFilter { resource_type_filter, resource_name_filter, pattern_type_filter, principal_filter, host_filter, operation, permission_type })
    }

    /// Reads the structure, with the compact encodings when `is_flexible`.
    /// On failure the reader is put back where it started.
    #[verifier::spinoff_prover]
    pub fn decode_flexible(buf: &mut Reader, is_flexible: bool) -> (r: Result<Self, SerializationError>)
        ensures
            final(buf).bytes() == old(buf).bytes(),
            read_view_exact(r, Self::spec_decode_flexible(old(buf).bytes(), old(buf).pos(), is_flexible), old(buf).pos(), final(buf).pos()),
    {
        let start = buf.position();
        let r = Self::read_flexible(buf, is_flexible);
        if r.is_err() {
            buf.set_position(start);
        }
        r
    }

    fn read_flexible(buf: &mut Reader, is_flexible: bool) -> (r: Result<Self, SerializationError>)
        ensures
            final(buf).bytes() == old(buf).bytes(),
            read_view_ok(r, Self::spec_decode_flexible(old(buf).bytes(), old(buf).pos(), is_flexible), final(buf).pos()),
    {
        let resource_type_filter = match buf.get_i8() { Ok(v) => v, Err(_) => { return Err(SerializationError::Protocol { message: "failed to decode ResourceTypeFilter" }); } };
        let resource_name_filter = if is_flexible {
            match buf.get_nullable_string(true) { Ok(v) => v, Err(_) => { return Err(SerializationError::Protocol { message: "failed to decode ResourceNameFilter" }); } }
        } else {
            match buf.get_nullable_string(false) { Ok(v) => v, Err(_) => { return Err(SerializationError::Protocol { message: "failed to decode ResourceNameFilter" }); } }
        };
        let pattern_type_filter = match buf.get_i8() { Ok(v) => v, Err(_) => { return Err(SerializationError::Protocol { message: "failed to decode PatternTypeFilter" }); } };
        let principal_filter = if is_flexible {
            match buf.get_nullable_string(true) { Ok(v) => v, Err(_) => { return Err(SerializationError::Protocol { message: "failed to decode PrincipalFilter" }); } }
        } else {
            match buf.get_nullable_string(false) { Ok(v) => v, Err(_) => { return Err(SerializationError::Protocol { message: "failed to decode PrincipalFilter" }); } }
        };
        let host_filter = if is_flexible {
            match buf.get_nullable_string(true) { Ok(v) => v, Err(_) => { return Err(SerializationError::Protocol { message: "failed to decode HostFilter" }); } }
        } else {
            match buf.get_nullable_string(false) { Ok(v) => v, Err(_) => { return Err(SerializationError::Protocol { message: "failed to decode HostFilter" }); } }
        };
        let operation = match buf.get_i8() { Ok(v) => v, Err(_) => { return Err(SerializationError::Protocol { message: "failed to decode Operation" }); } };
        let permission_type = match buf.get_i8() { Ok(v) => v, Err(_) => { return Err(SerializationError::Protocol { message: "failed to decode PermissionType" }); } };
        if is_flexible {
            let (_tag_count, _) = decode_unsigned_varint(buf)?;
        }
        Ok(DeleteAclsFilter { resource_type_filter, resource_name_filter, pattern_type_filter, principal_filter, host_filter, operation, permission_type })
    }
}

impl KafkaCodec for DeleteAclsFilter {
    open spec fn spec_encode(m: DeleteAclsFilterModel, ctx: Ctx) -> Result<Seq<u8>, SerializationError> {
        if ctx.classic {
            Self::spec_encode_classic(m)
        } else {
            Self::spec_encode_flexible(m, ctx.flexible)
        }
    }

    open spec fn reads_back(v: DeleteAclsFilterModel, ctx: Ctx) -> bool {
        if ctx.classic {
            Self::reads_back_classic(v)
        } else {
            Self::reads_back_flexible(v, ctx.flexible)
        }
    }

    proof fn lemma_read_back(pre: Seq<u8>, v: DeleteAclsFilterModel, post: Seq<u8>, ctx: Ctx) {
        if ctx.classic {
            Self::lemma_classic_read_back(pre, v, post);
            assert(Self::spec_decode(pre + Self::spec_encode(v, ctx)->Ok_0 + post, pre.len() as int, ctx)
                == Self::spec_decode_classic(pre + Self::spec_encode_classic(v)->Ok_0 + post, pre.len() as int));
        } else {
            Self::lemma_flexible_read_back(pre, v, post, ctx.flexible);
            assert(Self::spec_decode(pre + Self::spec_encode(v, ctx)->Ok_0 + post, pre.len() as int, ctx)
                == Self::spec_decode_flexible(pre + Self::spec_encode_flexible(v, ctx.flexible)->Ok_0 + post, pre.len() as int, ctx.flexible));
        }
    }

    open spec fn spec_decode(s: Seq<u8>, pos: int, ctx: Ctx) -> Result<(DeleteAclsFilterModel, int), SerializationError> {
        if ctx.classic {
            Self::spec_decode_classic(s, pos)
        } else {
            Self::spec_decode_flexible(s, pos, ctx.flexible)
        }
    }

    fn encode_ctx(&self, buf: &mut Vec<u8>, ctx: Ctx) -> (r: Result<(), SerializationError>) {
        if ctx.classic {
            self.write_classic(buf)
        } else {
            self.write_flexible(buf, ctx.flexible)
        }
    }

    #[verifier::spinoff_prover]
    fn decode_ctx(buf: &mut Reader, ctx: Ctx) -> (r: Result<Self, SerializationError>) {
        if ctx.classic {
            Self::read_classic(buf)
        } else {
            Self::read_flexible(buf, ctx.flexible)
        }
    }
}

} // verus!
