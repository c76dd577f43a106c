//! DescribeDelegationTokenRequest (API key 41).
use vstd::prelude::*;
use crate::roundtrip::{lemma_array_roundtrip, lemma_items_read_back,
    lemma_nullable_array_roundtrip, lemma_seq_assoc, lemma_seq_empty_left, lemma_string_roundtrip,
    lemma_uvarint_roundtrip};
use crate::serialization::{Ctx, KafkaCodec, Reader, SerializationError, array_bytes,
    decode_nullable_array, decode_unsigned_varint, encode_array, encode_nullable_array,
    encode_string, encode_unsigned_varint, lemma_array_bytes_agree, lemma_parse_array_agree,
    map_decode_err, map_encode_err, nullable_array_bytes, parse_array, parse_nullable_array,
    parse_string, parse_uvarint, read_view_exact, read_view_ok, string_bytes, then, uvarint_bytes,
    write_exact, write_ok};
use crate::{ApiKey, ApiVersion};

verus! {

// -------------------------------------------------------
// DescribeDelegationTokenRequest
// -------------------------------------------------------
#[derive(Clone, Debug, Default, PartialEq)]
pub struct DescribeDelegationTokenRequest {
    /// Each owner that we want to describe delegation tokens for, or null to describe all tokens.
    pub owners: Option<Vec<DescribeDelegationTokenOwner>>,
}

/// The contents of `DescribeDelegationTokenRequest`, with strings as characters and
/// nested values by their contents.
pub struct DescribeDelegationTokenRequestModel {
    pub owners: Option<Seq<<DescribeDelegationTokenOwner as DeepView>::V>>,
}

impl DeepView for DescribeDelegationTokenRequest {
    type V = DescribeDelegationTokenRequestModel;

    open spec fn deep_view(&self) -> DescribeDelegationTokenRequestModel {
        DescribeDelegationTokenRequestModel {
            owners: self.owners.deep_view(),
        }
    }
}

impl DescribeDelegationTokenRequest {
    /// The classic encoding of the structure.
    pub open spec fn spec_encode_classic(m: DescribeDelegationTokenRequestModel) -> Result<Seq<u8>, SerializationError> {
        let r = Ok(Seq::<u8>::empty());
        let r = then(r, map_encode_err(nullable_array_bytes::<DescribeDelegationTokenOwner>(m.owners, Ctx { version: 0, flexible: false, classic: true }), SerializationError::ValueTooLarge { message: "failed to encode Owners" }));
        r
    }

    /// The flexible-aware encoding of the structure.
    pub open spec fn spec_encode_flexible(m: DescribeDelegationTokenRequestModel, is_flexible: bool) -> Result<Seq<u8>, SerializationError> {
        let r = Ok(Seq::<u8>::empty());
        let r = if is_flexible { match m.owners { Some(v) => then(then(r, Ok(uvarint_bytes(1))), map_encode_err(array_bytes::<DescribeDelegationTokenOwner>(v, Ctx { version: 0, flexible: true, classic: false }), SerializationError::ValueTooLarge { message: "failed to encode Owners" })), None => then(r, Ok(uvarint_bytes(0))) } } else { then(r, map_encode_err(nullable_array_bytes::<DescribeDelegationTokenOwner>(m.owners, Ctx { version: 0, flexible: false, classic: true }), SerializationError::ValueTooLarge { message: "failed to encode Owners" })) };
        let r = if is_flexible { then(r, Ok(uvarint_bytes(0))) } else { r };
        r
    }

    /// The structure read by the classic decoder.
    pub open spec fn spec_decode_classic(s: Seq<u8>, pos: int) -> Result<(DescribeDelegationTokenRequestModel, int), SerializationError> {
        match map_decode_err(parse_nullable_array::<DescribeDelegationTokenOwner>(s, pos, Ctx { version: 0, flexible: false, classic: true }), SerializationError::Protocol { message: "failed to decode Owners" }) {
            Err(e) => Err(e),
            Ok((owners, pos)) =>
            Ok((DescribeDelegationTokenRequestModel { owners }, pos))
        }
    }

    /// The structure read by the flexible-aware decoder.
    pub open spec fn spec_decode_flexible(s: Seq<u8>, pos: int, is_flexible: bool) -> Result<(DescribeDelegationTokenRequestModel, int), SerializationError> {
        match (if is_flexible { map_decode_err(parse_nullable_array::<DescribeDelegationTokenOwner>(s, pos, Ctx { version: 0, flexible: true, classic: false }), SerializationError::Protocol { message: "failed to decode Owners" }) } else { map_decode_err(parse_nullable_array::<DescribeDelegationTokenOwner>(s, pos, Ctx { version: 0, flexible: false, classic: true }), SerializationError::Protocol { message: "failed to decode Owners" }) }) {
            Err(e) => Err(e),
            Ok((owners, pos)) =>
            match (if is_flexible { parse_uvarint(s, pos) } else { Ok((0u64, pos)) }) {
                Err(e) => Err(e),
                Ok((_tag_count, pos)) =>
                Ok((DescribeDelegationTokenRequestModel { owners }, pos))
            }
        }
    }

    /// Values of the structure that read back from their classic encoding:
    /// nested values read back.
    pub open spec fn reads_back_classic(m: DescribeDelegationTokenRequestModel) -> bool {
        &&& (m.owners matches Some(items) ==> forall|i: int| 0 <= i < items.len() ==> #[trigger] <DescribeDelegationTokenOwner as KafkaCodec>::reads_back(items[i], Ctx { version: 0, flexible: false, classic: true }))
    }

    /// A value that can be written and reads back: decoding its encoding, wherever
    /// it stands, gives the value and the position just after it.
    #[verifier::spinoff_prover]
    pub proof fn lemma_classic_read_back(pre: Seq<u8>, m: DescribeDelegationTokenRequestModel, post: Seq<u8>)
        requires
            Self::spec_encode_classic(m) is Ok,
            Self::reads_back_classic(m),
        ensures
            Self::spec_decode_classic(pre + Self::spec_encode_classic(m)->Ok_0 + post, pre.len() as int) == Ok::<(DescribeDelegationTokenRequestModel, int), SerializationError>((m, pre.len() as int + Self::spec_encode_classic(m)->Ok_0.len())),
    {
        let b0 = (nullable_array_bytes::<DescribeDelegationTokenOwner>(m.owners, Ctx { version: 0, flexible: false, classic: true }))->Ok_0;
        let t1 = post;
        let t0 = b0 + t1;
        let e = Self::spec_encode_classic(m)->Ok_0;
        assert(e =~= Seq::<u8>::empty() + b0);
        lemma_seq_assoc(Seq::<u8>::empty(), b0, post);
        lemma_seq_empty_left((b0 + post));
        let s = pre + e + post;
        lemma_seq_assoc(pre, e, post);
        assert(s == pre + t0);
        let a0 = pre;
        assert(parse_nullable_array::<DescribeDelegationTokenOwner>(s, a0.len() as int, Ctx { version: 0, flexible: false, classic: true }) == Ok::<(Option<Seq<<DescribeDelegationTokenOwner as DeepView>::V>>, int), SerializationError>((m.owners, a0.len() as int + b0.len()))) by {
            assert(nullable_array_bytes::<DescribeDelegationTokenOwner>(m.owners, Ctx { version: 0, flexible: false, classic: true }) is Ok);
            lemma_seq_assoc(a0, b0, t1);
            if let Some(items) = m.owners {
                lemma_items_read_back::<DescribeDelegationTokenOwner>(items, Ctx { version: 0, flexible: false, classic: true });
            }
            lemma_nullable_array_roundtrip::<DescribeDelegationTokenOwner>(a0, m.owners, t1, Ctx { version: 0, flexible: false, classic: true });
        }
    }

    /// The bytes written: the encoding of each field, in the order of the
    /// protocol's layout. Reading them back, wherever they stand, gives the value,
    /// with each field that the version leaves out at its default.
    #[verifier::spinoff_prover]
    pub proof fn lemma_classic_layout(pre: Seq<u8>, m: DescribeDelegationTokenRequestModel, post: Seq<u8>)
        requires
            Self::spec_encode_classic(m) is Ok,
        ensures
            Self::spec_encode_classic(m) == Ok::<Seq<u8>, SerializationError>(((nullable_array_bytes::<DescribeDelegationTokenOwner>(m.owners, Ctx { version: 0, flexible: false, classic: true }))->Ok_0)),
            Self::reads_back_classic(m) ==> Self::spec_decode_classic(pre + (((nullable_array_bytes::<DescribeDelegationTokenOwner>(m.owners, Ctx { version: 0, flexible: false, classic: true }))->Ok_0)) + post, pre.len() as int) == Ok::<(DescribeDelegationTokenRequestModel, int), SerializationError>((m, pre.len() as int + (((nullable_array_bytes::<DescribeDelegationTokenOwner>(m.owners, Ctx { version: 0, flexible: false, classic: true }))->Ok_0)).len())),
    {
        let b0 = (nullable_array_bytes::<DescribeDelegationTokenOwner>(m.owners, Ctx { version: 0, flexible: false, classic: true }))->Ok_0;
        let e = Self::spec_encode_classic(m)->Ok_0;
        assert(e =~= Seq::<u8>::empty() + b0);
        assert(e =~= b0);
        if Self::reads_back_classic(m) {
            Self::lemma_classic_read_back(pre, m, post);
        }
    }

    /// Writing succeeds exactly when every field that the version carries can be
    /// encoded and every field that it leaves out, where leaving it out is an
    /// error, holds its default.
    #[verifier::spinoff_prover]
    pub proof fn lemma_classic_write_succeeds(m: DescribeDelegationTokenRequestModel)
        ensures
            Self::spec_encode_classic(m) is Ok <==> (map_encode_err(nullable_array_bytes::<DescribeDelegationTokenOwner>(m.owners, Ctx { version: 0, flexible: false, classic: true }), SerializationError::ValueTooLarge { message: "failed to encode Owners" }) is Ok),
    {
    }

    /// Values of the structure that read back from their flexible-aware encoding:
    /// nested values read back.
    /// In compact mode a present optional value is written after a presence marker
    /// that the decoder does not read, so only absent ones read back.
    pub open spec fn reads_back_flexible(m: DescribeDelegationTokenRequestModel, is_flexible: bool) -> bool {
        &&& is_flexible ==> m.owners is None
        &&& !is_flexible ==> (m.owners matches Some(items) ==> forall|i: int| 0 <= i < items.len() ==> #[trigger] <DescribeDelegationTokenOwner as KafkaCodec>::reads_back(items[i], Ctx { version: 0, flexible: false, classic: true }))
    }

    /// A value that can be written and reads back: decoding its encoding, wherever
    /// it stands, gives the value and the position just after it.
    #[verifier::spinoff_prover]
    pub proof fn lemma_flexible_read_back(pre: Seq<u8>, m: DescribeDelegationTokenRequestModel, post: Seq<u8>, is_flexible: bool)
        requires
            Self::spec_encode_flexible(m, is_flexible) is Ok,
            Self::reads_back_flexible(m, is_flexible),
        ensures
            Self::spec_decode_flexible(pre + Self::spec_encode_flexible(m, is_flexible)->Ok_0 + post, pre.len() as int, is_flexible) == Ok::<(DescribeDelegationTokenRequestModel, int), SerializationError>((m, pre.len() as int + Self::spec_encode_flexible(m, is_flexible)->Ok_0.len())),
    {
        let b0 = if is_flexible { match m.owners { Some(v) => uvarint_bytes(1) + (array_bytes::<DescribeDelegationTokenOwner>(v, Ctx { version: 0, flexible: true, classic: false }))->Ok_0, None => uvarint_bytes(0) } } else { (nullable_array_bytes::<DescribeDelegationTokenOwner>(m.owners, Ctx { version: 0, flexible: false, classic: true }))->Ok_0 };
        let b1 = if is_flexible { uvarint_bytes(0) } else { Seq::<u8>::empty() };
        let t2 = post;
        let t1 = b1 + t2;
        let t0 = b0 + t1;
        let e = Self::spec_encode_flexible(m, is_flexible)->Ok_0;
        assert(e =~= Seq::<u8>::empty() + b0 + b1);
        lemma_seq_assoc((Seq::<u8>::empty() + b0), b1, post);
        lemma_seq_assoc(Seq::<u8>::empty(), b0, (b1 + post));
        lemma_seq_empty_left((b0 + (b1 + post)));
        let s = pre + e + post;
        lemma_seq_assoc(pre, e, post);
        assert(s == pre + t0);
        let a0 = pre;
        if is_flexible {
            match m.owners {
                Some(v) => {
                    let x = (array_bytes::<DescribeDelegationTokenOwner>(v, Ctx { version: 0, flexible: true, classic: false }))->Ok_0;
                    assert(parse_uvarint(s, a0.len() as int) == Ok::<(u64, int), SerializationError>((1u64, a0.len() as int + 1))) by {
                        assert(s =~= a0 + uvarint_bytes(1) + (x + t1));
                        lemma_uvarint_roundtrip(a0, 1, x + t1);
                    }
                    let a1x = a0 + uvarint_bytes(1);
                    assert(parse_array::<DescribeDelegationTokenOwner>(s, a1x.len() as int, Ctx { version: 0, flexible: true, classic: false }) == Ok::<(Seq<<DescribeDelegationTokenOwner as DeepView>::V>, int), SerializationError>((v, a1x.len() as int + x.len()))) by {
                        assert(s =~= a1x + x + t1);
                        lemma_items_read_back::<DescribeDelegationTokenOwner>(v, Ctx { version: 0, flexible: true, classic: false });
                        lemma_array_roundtrip::<DescribeDelegationTokenOwner>(a1x, v, t1, Ctx { version: 0, flexible: true, classic: false });
                    }
                },
                None => {
                    assert(parse_nullable_array::<DescribeDelegationTokenOwner>(s, a0.len() as int, Ctx { version: 0, flexible: true, classic: false }) == Ok::<(Option<Seq<<DescribeDelegationTokenOwner as DeepView>::V>>, int), SerializationError>((None::<Seq<<DescribeDelegationTokenOwner as DeepView>::V>>, a0.len() as int + 1))) by {
                        reveal(nullable_array_bytes);
                        assert(s =~= a0 + b0 + t1);
                        if let Some(items) = m.owners {
                            lemma_items_read_back::<DescribeDelegationTokenOwner>(items, Ctx { version: 0, flexible: true, classic: false });
                        }
                        lemma_nullable_array_roundtrip::<DescribeDelegationTokenOwner>(a0, m.owners, t1, Ctx { version: 0, flexible: true, classic: false });
                    }
                },
            }
        } else {
            assert(parse_nullable_array::<DescribeDelegationTokenOwner>(s, a0.len() as int, Ctx { version: 0, flexible: false, classic: true }) == Ok::<(Option<Seq<<DescribeDelegationTokenOwner as DeepView>::V>>, int), SerializationError>((m.owners, a0.len() as int + b0.len()))) by {
                assert(nullable_array_bytes::<DescribeDelegationTokenOwner>(m.owners, Ctx { version: 0, flexible: false, classic: true }) is Ok);
                lemma_seq_assoc(a0, b0, t1);
                if let Some(items) = m.owners {
                    lemma_items_read_back::<DescribeDelegationTokenOwner>(items, Ctx { version: 0, flexible: false, classic: true });
                }
                lemma_nullable_array_roundtrip::<DescribeDelegationTokenOwner>(a0, m.owners, t1, Ctx { version: 0, flexible: false, classic: true });
            }
        }
        lemma_seq_assoc(a0, b0, t1);
        let a1 = a0 + b0;
        if is_flexible {
            assert(parse_uvarint(s, a1.len() as int) == Ok::<(u64, int), SerializationError>((0u64, a1.len() as int + b1.len()))) by {
                lemma_seq_assoc(a1, b1, t2);
                lemma_uvarint_roundtrip(a1, 0, t2);
            }
        }
    }

    /// The bytes written: the encoding of each field, in the order of the
    /// protocol's layout. Reading them back, wherever they stand, gives the value,
    /// with each field that the version leaves out at its default.
    #[verifier::spinoff_prover]
    pub proof fn lemma_flexible_layout(pre: Seq<u8>, m: DescribeDelegationTokenRequestModel, post: Seq<u8>, is_flexible: bool)
        requires
            Self::spec_encode_flexible(m, is_flexible) is Ok,
        ensures
            Self::spec_encode_flexible(m, is_flexible) == Ok::<Seq<u8>, SerializationError>((if is_flexible { match m.owners { Some(v) => uvarint_bytes(1) + (array_bytes::<DescribeDelegationTokenOwner>(v, Ctx { version: 0, flexible: true, classic: false }))->Ok_0, None => uvarint_bytes(0) } } else { (nullable_array_bytes::<DescribeDelegationTokenOwner>(m.owners, Ctx { version: 0, flexible: false, classic: true }))->Ok_0 }) + (if is_flexible { uvarint_bytes(0) } else { Seq::<u8>::empty() })),
            Self::reads_back_flexible(m, is_flexible) ==> Self::spec_decode_flexible(pre + ((if is_flexible { match m.owners { Some(v) => uvarint_bytes(1) + (array_bytes::<DescribeDelegationTokenOwner>(v, Ctx { version: 0, flexible: true, classic: false }))->Ok_0, None => uvarint_bytes(0) } } else { (nullable_array_bytes::<DescribeDelegationTokenOwner>(m.owners, Ctx { version: 0, flexible: false, classic: true }))->Ok_0 }) + (if is_flexible { uvarint_bytes(0) } else { Seq::<u8>::empty() })) + post, pre.len() as int, is_flexible) == Ok::<(DescribeDelegationTokenRequestModel, int), SerializationError>((m, pre.len() as int + ((if is_flexible { match m.owners { Some(v) => uvarint_bytes(1) + (array_bytes::<DescribeDelegationTokenOwner>(v, Ctx { version: 0, flexible: true, classic: false }))->Ok_0, None => uvarint_bytes(0) } } else { (nullable_array_bytes::<DescribeDelegationTokenOwner>(m.owners, Ctx { version: 0, flexible: false, classic: true }))->Ok_0 }) + (if is_flexible { uvarint_bytes(0) } else { Seq::<u8>::empty() })).len())),
    {
        let b0 = if is_flexible { match m.owners { Some(v) => uvarint_bytes(1) + (array_bytes::<DescribeDelegationTokenOwner>(v, Ctx { version: 0, flexible: true, classic: false }))->Ok_0, None => uvarint_bytes(0) } } else { (nullable_array_bytes::<DescribeDelegationTokenOwner>(m.owners, Ctx { version: 0, flexible: false, classic: true }))->Ok_0 };
        let b1 = if is_flexible { uvarint_bytes(0) } else { Seq::<u8>::empty() };
        let e = Self::spec_encode_flexible(m, is_flexible)->Ok_0;
        assert(e =~= Seq::<u8>::empty() + b0 + b1);
        assert(e =~= b0 + b1);
        if Self::reads_back_flexible(m, is_flexible) {
            Self::lemma_flexible_read_back(pre, m, post, is_flexible);
        }
    }

    /// With the compact encodings off, the flexible-aware layout is the classic
    /// layout: both write the same bytes.
    pub proof fn lemma_flexible_off_writes_classic(m: DescribeDelegationTokenRequestModel)
        ensures
            Self::spec_encode_flexible(m, false) == Self::spec_encode_classic(m),
    {
        if let Some(v) = m.owners {
            assert forall|i: int| 0 <= i < v.len() implies <DescribeDelegationTokenOwner as KafkaCodec>::spec_encode(#[trigger] v[i], Ctx { version: 0, flexible: false, classic: true }) == <DescribeDelegationTokenOwner as KafkaCodec>::spec_encode(v[i], Ctx { version: 0, flexible: false, classic: false }) by {
                DescribeDelegationTokenOwner::lemma_flexible_off_writes_classic(v[i]);
            }
            lemma_array_bytes_agree::<DescribeDelegationTokenOwner>(v, Ctx { version: 0, flexible: false, classic: true }, Ctx { version: 0, flexible: false, classic: false });
        } else {
            lemma_array_bytes_agree::<DescribeDelegationTokenOwner>(Seq::empty(), Ctx { version: 0, flexible: false, classic: true }, Ctx { version: 0, flexible: false, classic: false });
        }
    }

    /// With the compact encodings off, the flexible-aware layout is the classic
    /// layout: both read the same bytes alike.
    pub proof fn lemma_flexible_off_reads_classic(s: Seq<u8>, pos: int)
        ensures
            Self::spec_decode_flexible(s, pos, false) == Self::spec_decode_classic(s, pos),
    {
        assert forall|p: int| #[trigger] <DescribeDelegationTokenOwner as KafkaCodec>::spec_decode(s, p, Ctx { version: 0, flexible: false, classic: true }) == <DescribeDelegationTokenOwner as KafkaCodec>::spec_decode(s, p, Ctx { version: 0, flexible: false, classic: false }) by {
            DescribeDelegationTokenOwner::lemma_flexible_off_reads_classic(s, p);
        }
        lemma_parse_array_agree::<DescribeDelegationTokenOwner>(s, Ctx { version: 0, flexible: false, classic: true }, Ctx { version: 0, flexible: false, classic: false });
    }

    /// Writes the structure in the classic layout.
    /// On failure the buffer is left as it was.
    pub fn encode(&self, buf: &mut Vec<u8>) -> (r: Result<(), SerializationError>)
        ensures
            write_exact(r, old(buf)@, final(buf)@, Self::spec_encode_classic(self.deep_view())),
    {
        let start = buf.len();
        let r = self.write_classic(buf);
        if r.is_err() {
            buf.truncate(start);
        }
        r
    }

    fn write_classic(&self, buf: &mut Vec<u8>) -> (r: Result<(), SerializationError>)
        ensures
            write_ok(r, old(buf)@, final(buf)@, Self::spec_encode_classic(self.deep_view())),
    {
        let ghost mut w: Seq<u8> = Seq::empty();
        match encode_nullable_array(&self.owners, buf, Ctx { version: 0, flexible: false, classic: true }) {
            Ok(()) => {},
            Err(_) => {
                return Err(SerializationError::ValueTooLarge { message: "failed to encode Owners" });
            },
        }
        proof {
            w = w + (map_encode_err(nullable_array_bytes::<DescribeDelegationTokenOwner>(self.owners.deep_view(), Ctx { version: 0, flexible: false, classic: true }), SerializationError::ValueTooLarge { message: "failed to encode Owners" }))->Ok_0;
        }
        assert(buf@ =~= old(buf)@ + w);
        Ok(())
    }

    /// Writes the structure, with the compact encodings when `is_flexible`.
    /// On failure the buffer is left as it was.
    pub fn encode_flexible(&self, buf: &mut Vec<u8>, is_flexible: bool) -> (r: Result<(), SerializationError>)
        ensures
            write_exact(r, old(buf)@, final(buf)@, Self::spec_encode_flexible(self.deep_view(), is_flexible)),
    {
        let start = buf.len();
        let r = self.write_flexible(buf, is_flexible);
        if r.is_err() {
            buf.truncate(start);
        }
        r
    }

    fn write_flexible(&self, buf: &mut Vec<u8>, is_flexible: bool) -> (r: Result<(), SerializationError>)
        ensures
            write_ok(r, old(buf)@, final(buf)@, Self::spec_encode_flexible(self.deep_view(), is_flexible)),
    {
        let ghost mut w: Seq<u8> = Seq::empty();
        if is_flexible {
            match &self.owners {
                Some(v) => {
                    encode_unsigned_varint(1, buf);
                    proof {
                        w = w + uvarint_bytes(1);
                    }
                    match encode_array(&*v, buf, Ctx { version: 0, flexible: true, classic: false }) {
                        Ok(()) => {},
                        Err(_) => {
                            return Err(SerializationError::ValueTooLarge { message: "failed to encode Owners" });
                        },
                    }
                    proof {
                        w = w + (map_encode_err(array_bytes::<DescribeDelegationTokenOwner>((*v).deep_view(), Ctx { version: 0, flexible: true, classic: false }), SerializationError::ValueTooLarge { message: "failed to encode Owners" }))->Ok_0;
                    }
                    assert(buf@ =~= old(buf)@ + w);
                },
                None => {
                    encode_unsigned_varint(0, buf);
                    proof {
                        w = w + uvarint_bytes(0);
                    }
                    assert(buf@ =~= old(buf)@ + w);
                },
            }
        } else {
            match encode_nullable_array(&self.owners, buf, Ctx { version: 0, flexible: false, classic: true }) {
                Ok(()) => {},
                Err(_) => {
                    return Err(SerializationError::ValueTooLarge { message: "failed to encode Owners" });
                },
            }
            proof {
                w = w + (map_encode_err(nullable_array_bytes::<DescribeDelegationTokenOwner>(self.owners.deep_view(), Ctx { version: 0, flexible: false, classic: true }), SerializationError::ValueTooLarge { message: "failed to encode Owners" }))->Ok_0;
            }
            assert(buf@ =~= old(buf)@ + w);
        }
        if is_flexible {
            encode_unsigned_varint(0, buf);
            proof {
                w = w + uvarint_bytes(0);
            }
            assert(buf@ =~= old(buf)@ + w);
        }
        Ok(())
    }

    /// Reads the structure in the classic layout.
    /// On failure the reader is put back where it started.
    pub fn decode(buf: &mut Reader) -> (r: Result<Self, SerializationError>)
        ensures
            final(buf).bytes() == old(buf).bytes(),
            read_view_exact(r, Self::spec_decode_classic(old(buf).bytes(), old(buf).pos()), old(buf).pos(), final(buf).pos()),
    {
        let start = buf.position();
        let r = Self::read_classic(buf);
        if r.is_err() {
            buf.set_position(start);
        }
        r
    }

    fn read_classic(buf: &mut Reader) -> (r: Result<Self, SerializationError>)
        ensures
            final(buf).bytes() == old(buf).bytes(),
            read_view_ok(r, Self::spec_decode_classic(old(buf).bytes(), old(buf).pos()), final(buf).pos()),
    {
        let owners = match decode_nullable_array::<DescribeDelegationTokenOwner>(buf, Ctx { version: 0, flexible: false, classic: true }) { Ok(v) => v, Err(_) => { return Err(SerializationError::Protocol { message: "failed to decode Owners" }); } };
        Ok(DescribeDelegationTokenRequest { owners })
    }

    /// Reads the structure, with the compact encodings when `is_flexible`.
    /// On failure the reader is put back where it started.
    pub fn decode_flexible(buf: &mut Reader, is_flexible: bool) -> (r: Result<Self, SerializationError>)
        ensures
            final(buf).bytes() == old(buf).bytes(),
            read_view_exact(r, Self::spec_decode_flexible(old(buf).bytes(), old(buf).pos(), is_flexible), old(buf).pos(), final(buf).pos()),
    {
        let start = buf.position();
        let r = Self::read_flexible(buf, is_flexible);
        if r.is_err() {
            buf.set_position(start);
        }
        r
    }

    fn read_flexible(buf: &mut Reader, is_flexible: bool) -> (r: Result<Self, SerializationError>)
        ensures
            final(buf).bytes() == old(buf).bytes(),
            read_view_ok(r, Self::spec_decode_flexible(old(buf).bytes(), old(buf).pos(), is_flexible), final(buf).pos()),
    {
        let owners = if is_flexible {
            match decode_nullable_array::<DescribeDelegationTokenOwner>(buf, Ctx { version: 0, flexible: true, classic: false }) { Ok(v) => v, Err(_) => { return Err(SerializationError::Protocol { message: "failed to decode Owners" }); } }
        } else {
            match decode_nullable_array::<DescribeDelegationTokenOwner>(buf, Ctx { version: 0, flexible: false, classic: true }) { Ok(v) => v, Err(_) => { return Err(SerializationError::Protocol { message: "failed to decode Owners" }); } }
        };
        if is_flexible {
            let (_tag_count, _) = decode_unsigned_varint(buf)?;
        }
        Ok(DescribeDelegationTokenRequest { owners })
    }
}

impl KafkaCodec for DescribeDelegationTokenRequest {
    open spec fn spec_encode(m: DescribeDelegationTokenRequestModel, ctx: Ctx) -> Result<Seq<u8>, SerializationError> {
        if ctx.classic {
            Self::spec_encode_classic(m)
        } else {
            Self::spec_encode_flexible(m, ctx.flexible)
        }
    }

    open spec fn reads_back(v: DescribeDelegationTokenRequestModel, ctx: Ctx) -> bool {
        if ctx.classic {
            Self::reads_back_classic(v)
        } else {
            Self::reads_back_flexible(v, ctx.flexible)
        }
    }

    proof fn lemma_read_back(pre: Seq<u8>, v: DescribeDelegationTokenRequestModel, post: Seq<u8>, ctx: Ctx) {
        if ctx.classic {
            Self::lemma_classic_read_back(pre, v, post);
            assert(Self::spec_decode(pre + Self::spec_encode(v, ctx)->Ok_0 + post, pre.len() as int, ctx)
                == Self::spec_decode_classic(pre + Self::spec_encode_classic(v)->Ok_0 + post, pre.len() as int));
        } else {
            Self::lemma_flexible_read_back(pre, v, post, ctx.flexible);
            assert(Self::spec_decode(pre + Self::spec_encode(v, ctx)->Ok_0 + post, pre.len() as int, ctx)
                == Self::spec_decode_flexible(pre + Self::spec_encode_flexible(v, ctx.flexible)->Ok_0 + post, pre.len() as int, ctx.flexible));
        }
    }

    open spec fn spec_decode(s: Seq<u8>, pos: int, ctx: Ctx) -> Result<(DescribeDelegationTokenRequestModel, int), SerializationError> {
        if ctx.classic {
            Self::spec_decode_classic(s, pos)
        } else {
            Self::spec_decode_flexible(s, pos, ctx.flexible)
        }
    }

    fn encode_ctx(&self, buf: &mut Vec<u8>, ctx: Ctx) -> (r: Result<(), SerializationError>) {
        if ctx.classic {
            self.write_classic(buf)
        } else {
            self.write_flexible(buf, ctx.flexible)
        }
    }

    fn decode_ctx(buf: &mut Reader, ctx: Ctx) -> (r: Result<Self, SerializationError>) {
        if ctx.classic {
            Self::read_classic(buf)
        } else {
            Self::read_flexible(buf, ctx.flexible)
        }
    }
}

impl DescribeDelegationTokenRequest {
    /// The API key of this message.
    pub fn get_api_key() -> (r: ApiKey)
        ensures
            r.0 == 41,
    {
        ApiKey::new(41)
    }

    /// The oldest version of this message.
    pub fn get_min_supported_version() -> (r: ApiVersion)
        ensures
            r.0 == 1,
    {
        ApiVersion::new(1)
    }

    /// The newest version of this message.
    pub fn get_max_supported_version() -> (r: ApiVersion)
        ensures
            r.0 == 3,
    {
        ApiVersion::new(3)
    }

    /// The encoding of a whole message body at `version`.
    pub open spec fn spec_serialize(m: DescribeDelegationTokenRequestModel, version: i16) -> Result<Seq<u8>, SerializationError> {
        let is_flexible = 2 <= version;
        let ctx = Ctx { version, flexible: is_flexible, classic: false };
        let r = Ok(Seq::<u8>::empty());
        let r = then(r, map_encode_err(nullable_array_bytes::<DescribeDelegationTokenOwner>(m.owners, Ctx { version: ctx.version, flexible: ctx.flexible, classic: false }), SerializationError::Encode("failed to encode Owners")));
        let r = if ctx.flexible { then(r, Ok(uvarint_bytes(0))) } else { r };
        r
    }

    /// The message body read at `version`.
    pub open spec fn spec_deserialize(s: Seq<u8>, pos: int, version: i16) -> Result<(DescribeDelegationTokenRequestModel, int), SerializationError> {
        let is_flexible = 2 <= version;
        let ctx = Ctx { version, flexible: is_flexible, classic: false };
        match map_decode_err(parse_nullable_array::<DescribeDelegationTokenOwner>(s, pos, Ctx { version: ctx.version, flexible: ctx.flexible, classic: false }), SerializationError::Decode("failed to decode Owners")) {
            Err(e) => Err(e),
            Ok((owners, pos)) =>
            Ok((DescribeDelegationTokenRequestModel { owners }, pos))
        }
    }

    /// Message bodies that read back when written at `version`: every field that
    /// the version leaves out holds its default, and nested values read back.
    pub open spec fn reads_back_message(m: DescribeDelegationTokenRequestModel, version: i16) -> bool {
        let is_flexible = 2 <= version;
        let ctx = Ctx { version, flexible: is_flexible, classic: false };
        &&& (m.owners matches Some(items) ==> forall|i: int| 0 <= i < items.len() ==> #[trigger] <DescribeDelegationTokenOwner as KafkaCodec>::reads_back(items[i], Ctx { version: ctx.version, flexible: ctx.flexible, classic: false }))
    }

    /// A message body that can be written at `version` and reads back: reading a
    /// body at `version` from its bytes, wherever they stand, gives the same message.
    #[verifier::spinoff_prover]
    pub proof fn lemma_message_read_back(pre: Seq<u8>, m: DescribeDelegationTokenRequestModel, post: Seq<u8>, version: i16)
        requires
            Self::spec_serialize(m, version) is Ok,
            Self::reads_back_message(m, version),
        ensures
            Self::spec_deserialize(pre + Self::spec_serialize(m, version)->Ok_0 + post, pre.len() as int, version) == Ok::<(DescribeDelegationTokenRequestModel, int), SerializationError>((m, pre.len() as int + Self::spec_serialize(m, version)->Ok_0.len() - (if 2 <= version { 1int } else { 0int }))),
    {
        let is_flexible = 2 <= version;
        let ctx = Ctx { version, flexible: is_flexible, classic: false };
        let b0 = (nullable_array_bytes::<DescribeDelegationTokenOwner>(m.owners, Ctx { version: ctx.version, flexible: ctx.flexible, classic: false }))->Ok_0;
        let b1 = if ctx.flexible { uvarint_bytes(0) } else { Seq::<u8>::empty() };
        let t2 = post;
        let t1 = b1 + t2;
        let t0 = b0 + t1;
        let e = Self::spec_serialize(m, version)->Ok_0;
        assert(e =~= Seq::<u8>::empty() + b0 + b1);
        lemma_seq_assoc((Seq::<u8>::empty() + b0), b1, post);
        lemma_seq_assoc(Seq::<u8>::empty(), b0, (b1 + post));
        lemma_seq_empty_left((b0 + (b1 + post)));
        let s = pre + e + post;
        lemma_seq_assoc(pre, e, post);
        assert(s == pre + t0);
        let a0 = pre;
        assert(parse_nullable_array::<DescribeDelegationTokenOwner>(s, a0.len() as int, Ctx { version: ctx.version, flexible: ctx.flexible, classic: false }) == Ok::<(Option<Seq<<DescribeDelegationTokenOwner as DeepView>::V>>, int), SerializationError>((m.owners, a0.len() as int + b0.len()))) by {
            assert(nullable_array_bytes::<DescribeDelegationTokenOwner>(m.owners, Ctx { version: ctx.version, flexible: ctx.flexible, classic: false }) is Ok);
            lemma_seq_assoc(a0, b0, t1);
            if let Some(items) = m.owners {
                lemma_items_read_back::<DescribeDelegationTokenOwner>(items, Ctx { version: ctx.version, flexible: ctx.flexible, classic: false });
            }
            lemma_nullable_array_roundtrip::<DescribeDelegationTokenOwner>(a0, m.owners, t1, Ctx { version: ctx.version, flexible: ctx.flexible, classic: false });
        }
        lemma_seq_assoc(a0, b0, t1);
        let a1 = a0 + b0;
    }

    /// The bytes written: the encoding of each field, in the order of the
    /// protocol's layout. Reading them back, wherever they stand, gives the value,
    /// with each field that the version leaves out at its default.
    #[verifier::spinoff_prover]
    pub proof fn lemma_message_layout(pre: Seq<u8>, m: DescribeDelegationTokenRequestModel, post: Seq<u8>, version: i16)
        requires
            Self::spec_serialize(m, version) is Ok,
        ensures
            Self::spec_serialize(m, version) == Ok::<Seq<u8>, SerializationError>(((nullable_array_bytes::<DescribeDelegationTokenOwner>(m.owners, Ctx { version: version, flexible: (2 <= version), classic: false }))->Ok_0) + (if (2 <= version) { uvarint_bytes(0) } else { Seq::<u8>::empty() })),
            Self::reads_back_message(m, version) ==> Self::spec_deserialize(pre + (((nullable_array_bytes::<DescribeDelegationTokenOwner>(m.owners, Ctx { version: version, flexible: (2 <= version), classic: false }))->Ok_0) + (if (2 <= version) { uvarint_bytes(0) } else { Seq::<u8>::empty() })) + post, pre.len() as int, version) == Ok::<(DescribeDelegationTokenRequestModel, int), SerializationError>((m, pre.len() as int + (((nullable_array_bytes::<DescribeDelegationTokenOwner>(m.owners, Ctx { version: version, flexible: (2 <= version), classic: false }))->Ok_0) + (if (2 <= version) { uvarint_bytes(0) } else { Seq::<u8>::empty() })).len() - (if 2 <= version { 1int } else { 0int }))),
    {
        let is_flexible = 2 <= version;
        let ctx = Ctx { version, flexible: is_flexible, classic: false };
        let b0 = (nullable_array_bytes::<DescribeDelegationTokenOwner>(m.owners, Ctx { version: ctx.version, flexible: ctx.flexible, classic: false }))->Ok_0;
        let b1 = if ctx.flexible { uvarint_bytes(0) } else { Seq::<u8>::empty() };
        let e = Self::spec_serialize(m, version)->Ok_0;
        assert(e =~= Seq::<u8>::empty() + b0 + b1);
        assert(e =~= b0 + b1);
        if Self::reads_back_message(m, version) {
            Self::lemma_message_read_back(pre, m, post, version);
        }
    }

    /// Writing succeeds exactly when every field that the version carries can be
    /// encoded and every field that it leaves out, where leaving it out is an
    /// error, holds its default.
    #[verifier::spinoff_prover]
    pub proof fn lemma_message_write_succeeds(m: DescribeDelegationTokenRequestModel, version: i16)
        ensures
            Self::spec_serialize(m, version) is Ok <==> (map_encode_err(nullable_array_bytes::<DescribeDelegationTokenOwner>(m.owners, Ctx { version: version, flexible: (2 <= version), classic: false }), SerializationError::Encode("failed to encode Owners")) is Ok),
    {
        let is_flexible = 2 <= version;
        let ctx = Ctx { version, flexible: is_flexible, classic: false };
    }

    /// Writes the message body for `version`, which must be a supported version.
    /// On failure the buffer is left as it was.
    pub fn serialize(&self, version: ApiVersion, buf: &mut Vec<u8>) -> (r: Result<(), SerializationError>)
        requires
            1 <= version.0 <= 3,
        ensures
            write_exact(r, old(buf)@, final(buf)@, Self::spec_serialize(self.deep_view(), version.0)),
    {
        let start = buf.len();
        let r = self.write_body(version, buf);
        if r.is_err() {
            buf.truncate(start);
        }
        r
    }

    fn write_body(&self, version: ApiVersion, buf: &mut Vec<u8>) -> (r: Result<(), SerializationError>)
        requires
            1 <= version.0 <= 3,
        ensures
            write_ok(r, old(buf)@, final(buf)@, Self::spec_serialize(self.deep_view(), version.0)),
    {
        let is_flexible = 2 <= version.0;
        let ctx = Ctx::new(version, is_flexible);
        let ghost mut w: Seq<u8> = Seq::empty();
        match encode_nullable_array(&self.owners, buf, Ctx { version: ctx.version, flexible: ctx.flexible, classic: false }) {
            Ok(()) => {},
            Err(_) => {
                return Err(SerializationError::Encode("failed to encode Owners"));
            },
        }
        proof {
            w = w + (map_encode_err(nullable_array_bytes::<DescribeDelegationTokenOwner>(self.owners.deep_view(), Ctx { version: ctx.version, flexible: ctx.flexible, classic: false }), SerializationError::Encode("failed to encode Owners")))->Ok_0;
        }
        assert(buf@ =~= old(buf)@ + w);
        if ctx.flexible {
            encode_unsigned_varint(0, buf);
            proof {
                w = w + uvarint_bytes(0);
            }
            assert(buf@ =~= old(buf)@ + w);
        }
        Ok(())
    }

    /// Reads a message body written for `version`.
    /// On failure the reader is put back where it started.
    pub fn deserialize(version: ApiVersion, buf: &mut Reader) -> (r: Result<Self, SerializationError>)
        ensures
            final(buf).bytes() == old(buf).bytes(),
            read_view_exact(r, Self::spec_deserialize(old(buf).bytes(), old(buf).pos(), version.0), old(buf).pos(), final(buf).pos()),
    {
        let start = buf.position();
        let r = Self::read_body(version, buf);
        if r.is_err() {
            buf.set_position(start);
        }
        r
    }

    fn read_body(version: ApiVersion, buf: &mut Reader) -> (r: Result<Self, SerializationError>)
        ensures
            final(buf).bytes() == old(buf).bytes(),
            read_view_ok(r, Self::spec_deserialize(old(buf).bytes(), old(buf).pos(), version.0), final(buf).pos()),
    {
        let is_flexible = 2 <= version.0;
        let ctx = Ctx::new(version, is_flexible);
        let owners = match decode_nullable_array::<DescribeDelegationTokenOwner>(buf, Ctx { version: ctx.version, flexible: ctx.flexible, classic: false }) { Ok(v) => v, Err(_) => { return Err(SerializationError::Decode("failed to decode Owners")); } };
        Ok(DescribeDelegationTokenRequest { owners })
    }
}

// -------------------------------------------------------
// DescribeDelegationTokenOwner
// -------------------------------------------------------
#[derive(Clone, Debug, Default, PartialEq)]
pub struct DescribeDelegationTokenOwner {
    /// The owner principal type.
    pub principal_type: String,
    /// The owner principal name.
    pub principal_name: String,
}

/// The contents of `DescribeDelegationTokenOwner`, with strings as characters and
/// nested values by their contents.
pub struct DescribeDelegationTokenOwnerModel {
    pub principal_type: Seq<char>,
    pub principal_name: Seq<char>,
}

impl DeepView for DescribeDelegationTokenOwner {
    type V = DescribeDelegationTokenOwnerModel;

    open spec fn deep_view(&self) -> DescribeDelegationTokenOwnerModel {
        DescribeDelegationTokenOwnerModel {
            principal_type: self.principal_type.deep_view(),
            principal_name: self.principal_name.deep_view(),
        }
    }
}

impl DescribeDelegationTokenOwner {
    /// The classic encoding of the structure.
    pub open spec fn spec_encode_classic(m: DescribeDelegationTokenOwnerModel) -> Result<Seq<u8>, SerializationError> {
        let r = Ok(Seq::<u8>::empty());
        let r = then(r, map_encode_err(string_bytes(m.principal_type, false), SerializationError::ValueTooLarge { message: "failed to encode PrincipalType" }));
        let r = then(r, map_encode_err(string_bytes(m.principal_name, false), SerializationError::ValueTooLarge { message: "failed to encode PrincipalName" }));
        r
    }

    /// The flexible-aware encoding of the structure.
    pub open spec fn spec_encode_flexible(m: DescribeDelegationTokenOwnerModel, is_flexible: bool) -> Result<Seq<u8>, SerializationError> {
        let r = Ok(Seq::<u8>::empty());
        let r = then(r, map_encode_err(string_bytes(m.principal_type, is_flexible), SerializationError::ValueTooLarge { message: "failed to encode PrincipalType" }));
        let r = then(r, map_encode_err(string_bytes(m.principal_name, is_flexible), SerializationError::ValueTooLarge { message: "failed to encode PrincipalName" }));
        let r = if is_flexible { then(r, Ok(uvarint_bytes(0))) } else { r };
        r
    }

    /// The structure read by the classic decoder.
    pub open spec fn spec_decode_classic(s: Seq<u8>, pos: int) -> Result<(DescribeDelegationTokenOwnerModel, int), SerializationError> {
        match map_decode_err(parse_string(s, pos, false), SerializationError::Protocol { message: "failed to decode PrincipalType" }) {
            Err(e) => Err(e),
            Ok((principal_type, pos)) =>
            match map_decode_err(parse_string(s, pos, false), SerializationError::Protocol { message: "failed to decode PrincipalName" }) {
                Err(e) => Err(e),
                Ok((principal_name, pos)) =>
                Ok((DescribeDelegationTokenOwnerModel { principal_type, principal_name }, pos))
            }
        }
    }

    /// The structure read by the flexible-aware decoder.
    pub open spec fn spec_decode_flexible(s: Seq<u8>, pos: int, is_flexible: bool) -> Result<(DescribeDelegationTokenOwnerModel, int), SerializationError> {
        match map_decode_err(parse_string(s, pos, is_flexible), SerializationError::Protocol { message: "failed to decode PrincipalType" }) {
            Err(e) => Err(e),
            Ok((principal_type, pos)) =>
            match map_decode_err(parse_string(s, pos, is_flexible), SerializationError::Protocol { message: "failed to decode PrincipalName" }) {
                Err(e) => Err(e),
                Ok((principal_name, pos)) =>
                match (if is_flexible { parse_uvarint(s, pos) } else { Ok((0u64, pos)) }) {
                    Err(e) => Err(e),
                    Ok((_tag_count, pos)) =>
                    Ok((DescribeDelegationTokenOwnerModel { principal_type, principal_name }, pos))
                }
            }
        }
    }

    /// Values of the structure that read back from their classic encoding:
    /// nested values read back.
    pub open spec fn reads_back_classic(m: DescribeDelegationTokenOwnerModel) -> bool {
        true
    }

    /// A value that can be written and reads back: decoding its encoding, wherever
    /// it stands, gives the value and the position just after it.
    #[verifier::spinoff_prover]
    pub proof fn lemma_classic_read_back(pre: Seq<u8>, m: DescribeDelegationTokenOwnerModel, post: Seq<u8>)
        requires
            Self::spec_encode_classic(m) is Ok,
            Self::reads_back_classic(m),
        ensures
            Self::spec_decode_classic(pre + Self::spec_encode_classic(m)->Ok_0 + post, pre.len() as int) == Ok::<(DescribeDelegationTokenOwnerModel, int), SerializationError>((m, pre.len() as int + Self::spec_encode_classic(m)->Ok_0.len())),
    {
        let b0 = (string_bytes(m.principal_type, false))->Ok_0;
        let b1 = (string_bytes(m.principal_name, false))->Ok_0;
        let t2 = post;
        let t1 = b1 + t2;
        let t0 = b0 + t1;
        let e = Self::spec_encode_classic(m)->Ok_0;
        assert(e =~= Seq::<u8>::empty() + b0 + b1);
        lemma_seq_assoc((Seq::<u8>::empty() + b0), b1, post);
        lemma_seq_assoc(Seq::<u8>::empty(), b0, (b1 + post));
        lemma_seq_empty_left((b0 + (b1 + post)));
        let s = pre + e + post;
        lemma_seq_assoc(pre, e, post);
        assert(s == pre + t0);
        let a0 = pre;
        assert(parse_string(s, a0.len() as int, false) == Ok::<(Seq<char>, int), SerializationError>((m.principal_type, a0.len() as int + b0.len()))) by {
            assert(string_bytes(m.principal_type, false) is Ok);
            lemma_seq_assoc(a0, b0, t1);
            lemma_string_roundtrip(a0, m.principal_type, t1, false);
        }
        lemma_seq_assoc(a0, b0, t1);
        let a1 = a0 + b0;
        assert(parse_string(s, a1.len() as int, false) == Ok::<(Seq<char>, int), SerializationError>((m.principal_name, a1.len() as int + b1.len()))) by {
            assert(string_bytes(m.principal_name, false) is Ok);
            lemma_seq_assoc(a1, b1, t2);
            lemma_string_roundtrip(a1, m.principal_name, t2, false);
        }
    }

    /// The bytes written: the encoding of each field, in the order of the
    /// protocol's layout. Reading them back, wherever they stand, gives the value,
    /// with each field that the version leaves out at its default.
    #[verifier::spinoff_prover]
    pub proof fn lemma_classic_layout(pre: Seq<u8>, m: DescribeDelegationTokenOwnerModel, post: Seq<u8>)
        requires
            Self::spec_encode_classic(m) is Ok,
        ensures
            Self::spec_encode_classic(m) == Ok::<Seq<u8>, SerializationError>(((string_bytes(m.principal_type, false))->Ok_0) + ((string_bytes(m.principal_name, false))->Ok_0)),
            Self::reads_back_classic(m) ==> Self::spec_decode_classic(pre + (((string_bytes(m.principal_type, false))->Ok_0) + ((string_bytes(m.principal_name, false))->Ok_0)) + post, pre.len() as int) == Ok::<(DescribeDelegationTokenOwnerModel, int), SerializationError>((m, pre.len() as int + (((string_bytes(m.principal_type, false))->Ok_0) + ((string_bytes(m.principal_name, false))->Ok_0)).len())),
    {
        let b0 = (string_bytes(m.principal_type, false))->Ok_0;
        let b1 = (string_bytes(m.principal_name, false))->Ok_0;
        let e = Self::spec_encode_classic(m)->Ok_0;
        assert(e =~= Seq::<u8>::empty() + b0 + b1);
        assert(e =~= b0 + b1);
        if Self::reads_back_classic(m) {
            Self::lemma_classic_read_back(pre, m, post);
        }
    }

    /// Writing succeeds exactly when every field that the version carries can be
    /// encoded and every field that it leaves out, where leaving it out is an
    /// error, holds its default.
    #[verifier::spinoff_prover]
    pub proof fn lemma_classic_write_succeeds(m: DescribeDelegationTokenOwnerModel)
        ensures
            Self::spec_encode_classic(m) is Ok <==> (map_encode_err(string_bytes(m.principal_type, false), SerializationError::ValueTooLarge { message: "failed to encode PrincipalType" }) is Ok) && (map_encode_err(string_bytes(m.principal_name, false), SerializationError::ValueTooLarge { message: "failed to encode PrincipalName" }) is Ok),
    {
    }

    /// Values of the structure that read back from their flexible-aware encoding:
    /// nested values read back.
    pub open spec fn reads_back_flexible(m: DescribeDelegationTokenOwnerModel, is_flexible: bool) -> bool {
        true
    }

    /// A value that can be written and reads back: decoding its encoding, wherever
    /// it stands, gives the value and the position just after it.
    #[verifier::spinoff_prover]
    pub proof fn lemma_flexible_read_back(pre: Seq<u8>, m: DescribeDelegationTokenOwnerModel, post: Seq<u8>, is_flexible: bool)
        requires
            Self::spec_encode_flexible(m, is_flexible) is Ok,
            Self::reads_back_flexible(m, is_flexible),
        ensures
            Self::spec_decode_flexible(pre + Self::spec_encode_flexible(m, is_flexible)->Ok_0 + post, pre.len() as int, is_flexible) == Ok::<(DescribeDelegationTokenOwnerModel, int), SerializationError>((m, pre.len() as int + Self::spec_encode_flexible(m, is_flexible)->Ok_0.len())),
    {
        let b0 = (string_bytes(m.principal_type, is_flexible))->Ok_0;
        let b1 = (string_bytes(m.principal_name, is_flexible))->Ok_0;
        let b2 = if is_flexible { uvarint_bytes(0) } else { Seq::<u8>::empty() };
        let t3 = post;
        let t2 = b2 + t3;
        let t1 = b1 + t2;
        let t0 = b0 + t1;
        let e = Self::spec_encode_flexible(m, is_flexible)->Ok_0;
        assert(e =~= Seq::<u8>::empty() + b0 + b1 + b2);
        lemma_seq_assoc(((Seq::<u8>::empty() + b0) + b1), b2, post);
        lemma_seq_assoc((Seq::<u8>::empty() + b0), b1, (b2 + post));
        lemma_seq_assoc(Seq::<u8>::empty(), b0, (b1 + (b2 + post)));
        lemma_seq_empty_left((b0 + (b1 + (b2 + post))));
        let s = pre + e + post;
        lemma_seq_assoc(pre, e, post);
        assert(s == pre + t0);
        let a0 = pre;
        assert(parse_string(s, a0.len() as int, is_flexible) == Ok::<(Seq<char>, int), SerializationError>((m.principal_type, a0.len() as int + b0.len()))) by {
            assert(string_bytes(m.principal_type, is_flexible) is Ok);
            lemma_seq_assoc(a0, b0, t1);
            lemma_string_roundtrip(a0, m.principal_type, t1, is_flexible);
        }
        lemma_seq_assoc(a0, b0, t1);
        let a1 = a0 + b0;
        assert(parse_string(s, a1.len() as int, is_flexible) == Ok::<(Seq<char>, int), SerializationError>((m.principal_name, a1.len() as int + b1.len()))) by {
            assert(string_bytes(m.principal_name, is_flexible) is Ok);
            lemma_seq_assoc(a1, b1, t2);
            lemma_string_roundtrip(a1, m.principal_name, t2, is_flexible);
        }
        lemma_seq_assoc(a1, b1, t2);
        let a2 = a1 + b1;
        if is_flexible {
            assert(parse_uvarint(s, a2.len() as int) == Ok::<(u64, int), SerializationError>((0u64, a2.len() as int + b2.len()))) by {
                lemma_seq_assoc(a2, b2, t3);
                lemma_uvarint_roundtrip(a2, 0, t3);
            }
        }
    }

    /// The bytes written: the encoding of each field, in the order of the
    /// protocol's layout. Reading them back, wherever they stand, gives the value,
    /// with each field that the version leaves out at its default.
    #[verifier::spinoff_prover]
    pub proof fn lemma_flexible_layout(pre: Seq<u8>, m: DescribeDelegationTokenOwnerModel, post: Seq<u8>, is_flexible: bool)
        requires
            Self::spec_encode_flexible(m, is_flexible) is Ok,
        ensures
            Self::spec_encode_flexible(m, is_flexible) == Ok::<Seq<u8>, SerializationError>(((string_bytes(m.principal_type, is_flexible))->Ok_0) + ((string_bytes(m.principal_name, is_flexible))->Ok_0) + (if is_flexible { uvarint_bytes(0) } else { Seq::<u8>::empty() })),
            Self::reads_back_flexible(m, is_flexible) ==> Self::spec_decode_flexible(pre + (((string_bytes(m.principal_type, is_flexible))->Ok_0) + ((string_bytes(m.principal_name, is_flexible))->Ok_0) + (if is_flexible { uvarint_bytes(0) } else { Seq::<u8>::empty() })) + post, pre.len() as int, is_flexible) == Ok::<(DescribeDelegationTokenOwnerModel, int), SerializationError>((m, pre.len() as int + (((string_bytes(m.principal_type, is_flexible))->Ok_0) + ((string_bytes(m.principal_name, is_flexible))->Ok_0) + (if is_flexible { uvarint_bytes(0) } else { Seq::<u8>::empty() })).len())),
    {
        let b0 = (string_bytes(m.principal_type, is_flexible))->Ok_0;
        let b1 = (string_bytes(m.principal_name, is_flexible))->Ok_0;
        let b2 = if is_flexible { uvarint_bytes(0) } else { Seq::<u8>::empty() };
        let e = Self::spec_encode_flexible(m, is_flexible)->Ok_0;
        assert(e =~= Seq::<u8>::empty() + b0 + b1 + b2);
        assert(e =~= b0 + b1 + b2);
        if Self::reads_back_flexible(m, is_flexible) {
            Self::lemma_flexible_read_back(pre, m, post, is_flexible);
        }
    }

    /// Writing succeeds exactly when every field that the version carries can be
    /// encoded and every field that it leaves out, where leaving it out is an
    /// error, holds its default.
    #[verifier::spinoff_prover]
    pub proof fn lemma_flexible_write_succeeds(m: DescribeDelegationTokenOwnerModel, is_flexible: bool)
        ensures
            Self::spec_encode_flexible(m, is_flexible) is Ok <==> (map_encode_err(string_bytes(m.principal_type, is_flexible), SerializationError::ValueTooLarge { message: "failed to encode PrincipalType" }) is Ok) && (map_encode_err(string_bytes(m.principal_name, is_flexible), SerializationError::ValueTooLarge { message: "failed to encode PrincipalName" }) is Ok),
    {
    }

    /// With the compact encodings off, the flexible-aware layout is the classic
    /// layout: both write the same bytes.
    pub proof fn lemma_flexible_off_writes_classic(m: DescribeDelegationTokenOwnerModel)
        ensures
            Self::spec_encode_flexible(m, false) == Self::spec_encode_classic(m),
    {
    }

    /// With the compact encodings off, the flexible-aware layout is the classic
    /// layout: both read the same bytes alike.
    pub proof fn lemma_flexible_off_reads_classic(s: Seq<u8>, pos: int)
        ensures
            Self::spec_decode_flexible(s, pos, false) == Self::spec_decode_classic(s, pos),
    {
    }

    /// Writes the structure in the classic layout.
    /// On failure the buffer is left as it was.
    pub fn encode(&self, buf: &mut Vec<u8>) -> (r: Result<(), SerializationError>)
        ensures
            write_exact(r, old(buf)@, final(buf)@, Self::spec_encode_classic(self.deep_view())),
    {
        let start = buf.len();
        let r = self.write_classic(buf);
        if r.is_err() {
            buf.truncate(start);
        }
        r
    }

    fn write_classic(&self, buf: &mut Vec<u8>) -> (r: Result<(), SerializationError>)
        ensures
            write_ok(r, old(buf)@, final(buf)@, Self::spec_encode_classic(self.deep_view())),
    {
        let ghost mut w: Seq<u8> = Seq::empty();
        match encode_string(&self.principal_type, buf, false) {
            Ok(()) => {},
            Err(_) => {
                return Err(SerializationError::ValueTooLarge { message: "failed to encode PrincipalType" });
            },
        }
        proof {
            w = w + (map_encode_err(string_bytes(self.principal_type.deep_view(), false), SerializationError::ValueTooLarge { message: "failed to encode PrincipalType" }))->Ok_0;
        }
        assert(buf@ =~= old(buf)@ + w);
        match encode_string(&self.principal_name, buf, false) {
            Ok(()) => {},
            Err(_) => {
                return Err(SerializationError::ValueTooLarge { message: "failed to encode PrincipalName" });
            },
        }
        proof {
            w = w + (map_encode_err(string_bytes(self.principal_name.deep_view(), false), SerializationError::ValueTooLarge { message: "failed to encode PrincipalName" }))->Ok_0;
        }
        assert(buf@ =~= old(buf)@ + w);
        Ok(())
    }

    /// Writes the structure, with the compact encodings when `is_flexible`.
    /// On failure the buffer is left as it was.
    pub fn encode_flexible(&self, buf: &mut Vec<u8>, is_flexible: bool) -> (r: Result<(), SerializationError>)
        ensures
            write_exact(r, old(buf)@, final(buf)@, Self::spec_encode_flexible(self.deep_view(), is_flexible)),
    {
        let start = buf.len();
        let r = self.write_flexible(buf, is_flexible);
        if r.is_err() {
            buf.truncate(start);
        }
        r
    }

    fn write_flexible(&self, buf: &mut Vec<u8>, is_flexible: bool) -> (r: Result<(), SerializationError>)
        ensures
            write_ok(r, old(buf)@, final(buf)@, Self::spec_encode_flexible(self.deep_view(), is_flexible)),
    {
        let ghost mut w: Seq<u8> = Seq::empty();
        match encode_string(&self.principal_type, buf, is_flexible) {
            Ok(()) => {},
            Err(_) => {
                return Err(SerializationError::ValueTooLarge { message: "failed to encode PrincipalType" });
            },
        }
        proof {
            w = w + (map_encode_err(string_bytes(self.principal_type.deep_view(), is_flexible), SerializationError::ValueTooLarge { message: "failed to encode PrincipalType" }))->Ok_0;
        }
        assert(buf@ =~= old(buf)@ + w);
        match encode_string(&self.principal_name, buf, is_flexible) {
            Ok(()) => {},
            Err(_) => {
                return Err(SerializationError::ValueTooLarge { message: "failed to encode PrincipalName" });
            },
        }
        proof {
            w = w + (map_encode_err(string_bytes(self.principal_name.deep_view(), is_flexible), SerializationError::ValueTooLarge { message: "failed to encode PrincipalName" }))->Ok_0;
        }
        assert(buf@ =~= old(buf)@ + w);
        if is_flexible {
            encode_unsigned_varint(0, buf);
            proof {
                w = w + uvarint_bytes(0);
            }
            assert(buf@ =~= old(buf)@ + w);
        }
        Ok(())
    }

    /// Reads the structure in the classic layout.
    /// On failure the reader is put back where it started.
    pub fn decode(buf: &mut Reader) -> (r: Result<Self, SerializationError>)
        ensures
            final(buf).bytes() == old(buf).bytes(),
            read_view_exact(r, Self::spec_decode_classic(old(buf).bytes(), old(buf).pos()), old(buf).pos(), final(buf).pos()),
    {
        let start = buf.position();
        let r = Self::read_classic(buf);
        if r.is_err() {
            buf.set_position(start);
        }
        r
    }

    fn read_classic(buf: &mut Reader) -> (r: Result<Self, SerializationError>)
        ensures
            final(buf).bytes() == old(buf).bytes(),
            read_view_ok(r, Self::spec_decode_classic(old(buf).bytes(), old(buf).pos()), final(buf).pos()),
    {
        let principal_type = match buf.get_string(false) { Ok(v) => v, Err(_) => { return Err(SerializationError::Protocol { message: "failed to decode PrincipalType" }); } };
        let principal_name = match buf.get_string(false) { Ok(v) => v, Err(_) => { return Err(SerializationError::Protocol { message: "failed to decode PrincipalName" }); } };
        Ok(DescribeDelegationTokenOwner { principal_type, principal_name })
    }

    /// Reads the structure, with the compact encodings when `is_flexible`.
    /// On failure the reader is put back where it started.
    pub fn decode_flexible(buf: &mut Reader, is_flexible: bool) -> (r: Result<Self, SerializationError>)
        ensures
            final(buf).bytes() == old(buf).bytes(),
            read_view_exact(r, Self::spec_decode_flexible(old(buf).bytes(), old(buf).pos(), is_flexible), old(buf).pos(), final(buf).pos()),
    {
        let start = buf.position();
        let r = Self::read_flexible(buf, is_flexible);
        if r.is_err() {
            buf.set_position(start);
        }
        r
    }

    fn read_flexible(buf: &mut Reader, is_flexible: bool) -> (r: Result<Self, SerializationError>)
        ensures
            final(buf).bytes() == old(buf).bytes(),
            read_view_ok(r, Self::spec_decode_flexible(old(buf).bytes(), old(buf).pos(), is_flexible), final(buf).pos()),
    {
        let principal_type = match buf.get_string(is_flexible) { Ok(v) => v, Err(_) => { return Err(SerializationError::Protocol { message: "failed to decode PrincipalType" }); } };
        let principal_name = match buf.get_string(is_flexible) { Ok(v) => v, Err(_) => { return Err(SerializationError::Protocol { message: "failed to decode PrincipalName" }); } };
        if is_flexible {
            let (_tag_count, _) = decode_unsigned_varint(buf)?;
        }
        Ok(DescribeDelegationTokenOwner { principal_type, principal_name })
    }
}

impl KafkaCodec for DescribeDelegationTokenOwner {
    open spec fn spec_encode(m: DescribeDelegationTokenOwnerModel, ctx: Ctx) -> Result<Seq<u8>, SerializationError> {
        if ctx.classic {
            Self::spec_encode_classic(m)
        } else {
            Self::spec_encode_flexible(m, ctx.flexible)
        }
    }

    open spec fn reads_back(v: DescribeDelegationTokenOwnerModel, ctx: Ctx) -> bool {
        if ctx.classic {
            Self::reads_back_classic(v)
        } else {
            Self::reads_back_flexible(v, ctx.flexible)
        }
    }

    proof fn lemma_read_back(pre: Seq<u8>, v: DescribeDelegationTokenOwnerModel, post: Seq<u8>, ctx: Ctx) {
        if ctx.classic {
            Self::lemma_classic_read_back(pre, v, post);
            assert(Self::spec_decode(pre + Self::spec_encode(v, ctx)->Ok_0 + post, pre.len() as int, ctx)
                == Self::spec_decode_classic(pre + Self::spec_encode_classic(v)->Ok_0 + post, pre.len() as int));
        } else {
            Self::lemma_flexible_read_back(pre, v, post, ctx.flexible);
            assert(Self::spec_decode(pre + Self::spec_encode(v, ctx)->Ok_0 + post, pre.len() as int, ctx)
                == Self::spec_decode_flexible(pre + Self::spec_encode_flexible(v, ctx.flexible)->Ok_0 + post, pre.len() as int, ctx.flexible));
        }
    }

    open spec fn spec_decode(s: Seq<u8>, pos: int, ctx: Ctx) -> Result<(DescribeDelegationTokenOwnerModel, int), SerializationError> {
        if ctx.classic {
            Self::spec_decode_classic(s, pos)
        } else {
            Self::spec_decode_flexible(s, pos, ctx.flexible)
        }
    }

    fn encode_ctx(&self, buf: &mut Vec<u8>, ctx: Ctx) -> (r: Result<(), SerializationError>) {
        if ctx.classic {
            self.write_classic(buf)
        } else {
            self.write_flexible(buf, ctx.flexible)
        }
    }

    fn decode_ctx(buf: &mut Reader, ctx: Ctx) -> (r: Result<Self, SerializationError>) {
        if ctx.classic {
            Self::read_classic(buf)
        } else {
            Self::read_flexible(buf, ctx.flexible)
        }
    }
}

} // verus!
