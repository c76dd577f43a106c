//! BeginQuorumEpochResponse (API key 53).
use vstd::prelude::*;
use crate::roundtrip::{lemma_array_roundtrip, lemma_i16_roundtrip, lemma_i32_roundtrip,
    lemma_items_read_back, lemma_seq_assoc, lemma_seq_empty_left, lemma_string_roundtrip,
    lemma_u16_roundtrip, lemma_uvarint_roundtrip};
use crate::serialization::{Ctx, KafkaCodec, Reader, SerializationError, array_bytes, decode_array,
    decode_unsigned_varint, encode_array, encode_string, encode_unsigned_varint, i16_bytes,
    i32_bytes, new_array, parse_array, parse_i16, parse_i32, parse_skip, parse_string, parse_u16,
    parse_uvarint, put_i16, put_i32, put_slice, put_u16, read_view_exact, read_view_ok,
    string_bytes, tagged_field_bytes, then, u16_bytes, unknown_tag_end, uvarint_bytes,
    write_exact, write_ok};
use crate::{ApiKey, ApiVersion};

verus! {

// -------------------------------------------------------
// BeginQuorumEpochResponse
// -------------------------------------------------------
#[derive(Clone, Debug, Default, PartialEq)]
pub struct BeginQuorumEpochResponse {
    /// The top level error code.
    pub error_code: i16,
    /// The topic data.
    pub topics: Vec<TopicData>,
    /// Endpoints for all leaders enumerated in PartitionData.
    /// Available in version 1+.
    pub node_endpoints: Vec<NodeEndpoint>,
}

/// The contents of `BeginQuorumEpochResponse`, with strings as characters and
/// nested values by their contents.
pub struct BeginQuorumEpochResponseModel {
    pub error_code: i16,
    pub topics: Seq<<TopicData as DeepView>::V>,
    pub node_endpoints: Seq<<NodeEndpoint as DeepView>::V>,
}

impl DeepView for BeginQuorumEpochResponse {
    type V = BeginQuorumEpochResponseModel;

    open spec fn deep_view(&self) -> BeginQuorumEpochResponseModel {
        BeginQuorumEpochResponseModel {
            error_code: self.error_code,
            topics: self.topics.deep_view(),
            node_endpoints: self.node_endpoints.deep_view(),
        }
    }
}

impl BeginQuorumEpochResponse {
    /// The encoding of the structure in context `ctx`.
    pub open spec fn spec_encode_body(m: BeginQuorumEpochResponseModel, ctx: Ctx) -> Result<Seq<u8>, SerializationError> {
        let r = Ok(Seq::<u8>::empty());
        let r = then(r, Ok(i16_bytes(m.error_code)));
        let r = then(r, array_bytes::<TopicData>(m.topics, Ctx { version: ctx.version, flexible: ctx.flexible, classic: false }));
        let r = if 1 <= ctx.version && !ctx.flexible { then(r, array_bytes::<NodeEndpoint>(m.node_endpoints, Ctx { version: ctx.version, flexible: ctx.flexible, classic: false })) } else { r };
        let r = if ctx.flexible { then(r, tagged_field_bytes(m.node_endpoints.len() != 0, 0, array_bytes::<NodeEndpoint>(m.node_endpoints, Ctx { version: ctx.version, flexible: true, classic: false }))) } else { r };
        r
    }

    /// The structure read from `s` at `pos` in context `ctx`.
    pub open spec fn spec_decode_body(s: Seq<u8>, pos: int, ctx: Ctx) -> Result<(BeginQuorumEpochResponseModel, int), SerializationError> {
        match parse_i16(s, pos) {
            Err(e) => Err(e),
            Ok((error_code, pos)) =>
            match parse_array::<TopicData>(s, pos, Ctx { version: ctx.version, flexible: ctx.flexible, classic: false }) {
                Err(e) => Err(e),
                Ok((topics, pos)) =>
                match (if 1 <= ctx.version && !ctx.flexible { parse_array::<NodeEndpoint>(s, pos, Ctx { version: ctx.version, flexible: ctx.flexible, classic: false }) } else { Ok((Seq::<<NodeEndpoint as DeepView>::V>::empty(), pos)) }) {
                    Err(e) => Err(e),
                    Ok((node_endpoints, pos)) =>
                    match (if ctx.flexible { match parse_uvarint(s, pos) { Err(e) => Err(e), Ok((n, p)) => Self::spec_read_tags(s, p, n as nat, ctx.version, node_endpoints) } } else { Ok((node_endpoints, pos)) }) {
                        Err(e) => Err(e),
                        Ok((node_endpoints, pos)) =>
                        Ok((BeginQuorumEpochResponseModel { error_code, topics, node_endpoints }, pos))
                    }
                }
            }
        }
    }

    /// Reads `n` tagged fields, keeping the last value of tag 0.
    pub open spec fn spec_read_tags(s: Seq<u8>, pos: int, n: nat, version: i16, cur: Seq<<NodeEndpoint as DeepView>::V>) -> Result<(Seq<<NodeEndpoint as DeepView>::V>, int), SerializationError>
        decreases n,
    {
        if n == 0 {
            Ok((cur, pos))
        } else {
            match parse_uvarint(s, pos) {
                Err(e) => Err(e),
                Ok((id, p1)) => match parse_uvarint(s, p1) {
                    Err(e) => Err(e),
                    Ok((len, p2)) => if id == 0 {
                        match parse_array::<NodeEndpoint>(s, p2, Ctx { version: version, flexible: true, classic: false }) {
                            Err(e) => Err(e),
                            Ok((v, p3)) => Self::spec_read_tags(s, p3, (n - 1) as nat, version, v),
                        }
                    } else {
                        match parse_skip(s, p2, (len as usize) as int) {
                            Err(e) => Err(e),
                            Ok((_, p3)) => Self::spec_read_tags(s, p3, (n - 1) as nat, version, cur),
                        }
                    },
                },
            }
        }
    }

    /// A tagged field whose tag this structure does not know is skipped by its
    /// length: reading one more field than before, where the extra field carries
    /// such a tag, gives the same value and ends where the skipped bytes end.
    pub proof fn lemma_unknown_tag_skipped(s: Seq<u8>, pos: int, n: nat, version: i16, cur: Seq<<NodeEndpoint as DeepView>::V>)
        requires
            Self::spec_read_tags(s, pos, n, version, cur) is Ok,
            unknown_tag_end(s, Self::spec_read_tags(s, pos, n, version, cur)->Ok_0.1, 0) is Some,
        ensures
            Self::spec_read_tags(s, pos, n + 1, version, cur) == Ok::<(Seq<<NodeEndpoint as DeepView>::V>, int), SerializationError>((
                Self::spec_read_tags(s, pos, n, version, cur)->Ok_0.0,
                unknown_tag_end(s, Self::spec_read_tags(s, pos, n, version, cur)->Ok_0.1, 0)->Some_0,
            )),
        decreases n,
    {
        if n == 0 {
            reveal_with_fuel(BeginQuorumEpochResponse::spec_read_tags, 2);
        } else {
            let (id, p1) = parse_uvarint(s, pos)->Ok_0;
            let (len, p2) = parse_uvarint(s, p1)->Ok_0;
            if id == 0 {
                let (v, p3) = (parse_array::<NodeEndpoint>(s, p2, Ctx { version: version, flexible: true, classic: false }))->Ok_0;
                Self::lemma_unknown_tag_skipped(s, p3, (n - 1) as nat, version, v);
            } else {
                let p3 = parse_skip(s, p2, (len as usize) as int)->Ok_0.1;
                Self::lemma_unknown_tag_skipped(s, p3, (n - 1) as nat, version, cur);
            }
        }
    }

    fn read_tags(buf: &mut Reader, count: u64, version: i16, init: Vec<NodeEndpoint>) -> (r: Result<Vec<NodeEndpoint>, SerializationError>)
        ensures
            final(buf).bytes() == old(buf).bytes(),
            read_view_ok(r, Self::spec_read_tags(old(buf).bytes(), old(buf).pos(), count as nat, version, init.deep_view()), final(buf).pos()),
    {
        let mut cur = init;
        let mut i: u64 = 0;
        while i < count
            invariant
                buf.bytes() == old(buf).bytes(),
                i <= count,
                Self::spec_read_tags(old(buf).bytes(), old(buf).pos(), count as nat, version, init.deep_view()) == Self::spec_read_tags(buf.bytes(), buf.pos(), (count - i) as nat, version, cur.deep_view()),
            decreases count - i,
        {
            let (id, _) = decode_unsigned_varint(buf)?;
            let (len, _) = decode_unsigned_varint(buf)?;
            if id == 0 {
                cur = decode_array::<NodeEndpoint>(buf, Ctx { version: version, flexible: true, classic: false })?;
            } else {
                buf.advance(len as usize)?;
            }
            i = i + 1;
        }
        Ok(cur)
    }

    /// Values of the structure that read back from their encoding in `ctx`: every
    /// field that the version leaves out holds its default, and nested values
    /// read back.
    pub open spec fn reads_back_body(m: BeginQuorumEpochResponseModel, ctx: Ctx) -> bool {
        &&& forall|i: int| 0 <= i < m.topics.len() ==> #[trigger] <TopicData as KafkaCodec>::reads_back(m.topics[i], Ctx { version: ctx.version, flexible: ctx.flexible, classic: false })
        &&& (1 <= ctx.version && !ctx.flexible) ==> forall|i: int| 0 <= i < m.node_endpoints.len() ==> #[trigger] <NodeEndpoint as KafkaCodec>::reads_back(m.node_endpoints[i], Ctx { version: ctx.version, flexible: ctx.flexible, classic: false })
        &&& !(1 <= ctx.version && !ctx.flexible) && !ctx.flexible ==> m.node_endpoints == Seq::<<NodeEndpoint as DeepView>::V>::empty()
        &&& ctx.flexible ==> forall|i: int| 0 <= i < m.node_endpoints.len() ==> #[trigger] <NodeEndpoint as KafkaCodec>::reads_back(m.node_endpoints[i], Ctx { version: ctx.version, flexible: true, classic: false })
    }

    /// A value that can be written in `ctx` and reads back: decoding its encoding,
    /// wherever it stands, gives the value and the position just after it.
    #[verifier::spinoff_prover]
    pub proof fn lemma_body_read_back(pre: Seq<u8>, m: BeginQuorumEpochResponseModel, post: Seq<u8>, ctx: Ctx)
        requires
            Self::spec_encode_body(m, ctx) is Ok,
            Self::reads_back_body(m, ctx),
        ensures
            Self::spec_decode_body(pre + Self::spec_encode_body(m, ctx)->Ok_0 + post, pre.len() as int, ctx) == Ok::<(BeginQuorumEpochResponseModel, int), SerializationError>((m, pre.len() as int + Self::spec_encode_body(m, ctx)->Ok_0.len())),
    {
        let b0 = i16_bytes(m.error_code);
        let b1 = (array_bytes::<TopicData>(m.topics, Ctx { version: ctx.version, flexible: ctx.flexible, classic: false }))->Ok_0;
        let b2 = if 1 <= ctx.version && !ctx.flexible { (array_bytes::<NodeEndpoint>(m.node_endpoints, Ctx { version: ctx.version, flexible: ctx.flexible, classic: false }))->Ok_0 } else { Seq::<u8>::empty() };
        let b3 = if ctx.flexible { (tagged_field_bytes(m.node_endpoints.len() != 0, 0, array_bytes::<NodeEndpoint>(m.node_endpoints, Ctx { version: ctx.version, flexible: true, classic: false })))->Ok_0 } else { Seq::<u8>::empty() };
        let t4 = post;
        let t3 = b3 + t4;
        let t2 = b2 + t3;
        let t1 = b1 + t2;
        let t0 = b0 + t1;
        let e = Self::spec_encode_body(m, ctx)->Ok_0;
        assert(e =~= Seq::<u8>::empty() + b0 + b1 + b2 + b3);
        lemma_seq_assoc((((Seq::<u8>::empty() + b0) + b1) + b2), b3, post);
        lemma_seq_assoc(((Seq::<u8>::empty() + b0) + b1), b2, (b3 + post));
        lemma_seq_assoc((Seq::<u8>::empty() + b0), b1, (b2 + (b3 + post)));
        lemma_seq_assoc(Seq::<u8>::empty(), b0, (b1 + (b2 + (b3 + post))));
        lemma_seq_empty_left((b0 + (b1 + (b2 + (b3 + post)))));
        let s = pre + e + post;
        lemma_seq_assoc(pre, e, post);
        assert(s == pre + t0);
        let a0 = pre;
        assert(parse_i16(s, a0.len() as int) == Ok::<(i16, int), SerializationError>((m.error_code, a0.len() as int + b0.len()))) by {
            lemma_seq_assoc(a0, b0, t1);
            lemma_i16_roundtrip(a0, m.error_code, t1);
        }
        lemma_seq_assoc(a0, b0, t1);
        let a1 = a0 + b0;
        assert(parse_array::<TopicData>(s, a1.len() as int, Ctx { version: ctx.version, flexible: ctx.flexible, classic: false }) == Ok::<(Seq<<TopicData as DeepView>::V>, int), SerializationError>((m.topics, a1.len() as int + b1.len()))) by {
            assert(array_bytes::<TopicData>(m.topics, Ctx { version: ctx.version, flexible: ctx.flexible, classic: false }) is Ok);
            lemma_seq_assoc(a1, b1, t2);
            lemma_items_read_back::<TopicData>(m.topics, Ctx { version: ctx.version, flexible: ctx.flexible, classic: false });
            lemma_array_roundtrip::<TopicData>(a1, m.topics, t2, Ctx { version: ctx.version, flexible: ctx.flexible, classic: false });
        }
        lemma_seq_assoc(a1, b1, t2);
        let a2 = a1 + b1;
        if 1 <= ctx.version && !ctx.flexible {
            assert(parse_array::<NodeEndpoint>(s, a2.len() as int, Ctx { version: ctx.version, flexible: ctx.flexible, classic: false }) == Ok::<(Seq<<NodeEndpoint as DeepView>::V>, int), SerializationError>((m.node_endpoints, a2.len() as int + b2.len()))) by {
                assert(array_bytes::<NodeEndpoint>(m.node_endpoints, Ctx { version: ctx.version, flexible: ctx.flexible, classic: false }) is Ok);
                lemma_seq_assoc(a2, b2, t3);
                lemma_items_read_back::<NodeEndpoint>(m.node_endpoints, Ctx { version: ctx.version, flexible: ctx.flexible, classic: false });
                lemma_array_roundtrip::<NodeEndpoint>(a2, m.node_endpoints, t3, Ctx { version: ctx.version, flexible: ctx.flexible, classic: false });
            }
        }
        lemma_seq_assoc(a2, b2, t3);
        let a3 = a2 + b2;
        if ctx.flexible {
            if m.node_endpoints.len() != 0 {
                let x = (array_bytes::<NodeEndpoint>(m.node_endpoints, Ctx { version: ctx.version, flexible: true, classic: false }))->Ok_0;
                let u1 = uvarint_bytes(1);
                let ut = uvarint_bytes(0);
                let ul = uvarint_bytes(x.len() as u64);
                assert(b3 == u1 + ut + ul + x);
                let q1 = a3 + u1;
                let q2 = q1 + ut;
                let q3 = q2 + ul;
                assert(parse_uvarint(s, a3.len() as int) == Ok::<(u64, int), SerializationError>((1u64, a3.len() as int + 1))) by {
                    assert(s =~= a3 + u1 + (ut + ul + x + t4));
                    lemma_uvarint_roundtrip(a3, 1, ut + ul + x + t4);
                }
                assert(parse_uvarint(s, q1.len() as int) == Ok::<(u64, int), SerializationError>((0u64, q1.len() as int + ut.len()))) by {
                    assert(s =~= q1 + ut + (ul + x + t4));
                    lemma_uvarint_roundtrip(q1, 0, ul + x + t4);
                }
                assert(parse_uvarint(s, q2.len() as int) == Ok::<(u64, int), SerializationError>(((x.len() as u64), q2.len() as int + ul.len()))) by {
                    assert(s =~= q2 + ul + (x + t4));
                    lemma_uvarint_roundtrip(q2, x.len() as u64, x + t4);
                }
                assert(parse_array::<NodeEndpoint>(s, q3.len() as int, Ctx { version: ctx.version, flexible: true, classic: false }) == Ok::<(Seq<<NodeEndpoint as DeepView>::V>, int), SerializationError>((m.node_endpoints, q3.len() as int + x.len()))) by {
                    assert(array_bytes::<NodeEndpoint>(m.node_endpoints, Ctx { version: ctx.version, flexible: true, classic: false }) is Ok);
                    assert(s =~= q3 + x + t4);
                    lemma_items_read_back::<NodeEndpoint>(m.node_endpoints, Ctx { version: ctx.version, flexible: true, classic: false });
                    lemma_array_roundtrip::<NodeEndpoint>(q3, m.node_endpoints, t4, Ctx { version: ctx.version, flexible: true, classic: false });
                }
                let end = q3.len() as int + x.len();
                assert(Self::spec_read_tags(s, end, 0nat, ctx.version, m.node_endpoints) == Ok::<(Seq<<NodeEndpoint as DeepView>::V>, int), SerializationError>((m.node_endpoints, end)));
                assert(Self::spec_read_tags(s, a3.len() as int + 1, 1nat, ctx.version, Seq::<<NodeEndpoint as DeepView>::V>::empty()) == Ok::<(Seq<<NodeEndpoint as DeepView>::V>, int), SerializationError>((m.node_endpoints, end)));
            } else {
                assert(b3 == uvarint_bytes(0));
                assert(parse_uvarint(s, a3.len() as int) == Ok::<(u64, int), SerializationError>((0u64, a3.len() as int + 1))) by {
                    lemma_seq_assoc(a3, b3, t4);
                    lemma_uvarint_roundtrip(a3, 0, t4);
                }
                assert(m.node_endpoints =~= Seq::<<NodeEndpoint as DeepView>::V>::empty());
                assert(Self::spec_read_tags(s, a3.len() as int + 1, 0nat, ctx.version, Seq::<<NodeEndpoint as DeepView>::V>::empty()) == Ok::<(Seq<<NodeEndpoint as DeepView>::V>, int), SerializationError>((Seq::<<NodeEndpoint as DeepView>::V>::empty(), a3.len() as int + 1)));
            }
        }
    }

    /// The bytes written: the encoding of each field, in the order of the
    /// protocol's layout. Reading them back, wherever they stand, gives the value,
    /// with each field that the version leaves out at its default.
    #[verifier::spinoff_prover]
    pub proof fn lemma_body_layout(pre: Seq<u8>, m: BeginQuorumEpochResponseModel, post: Seq<u8>, ctx: Ctx)
        requires
            Self::spec_encode_body(m, ctx) is Ok,
        ensures
            Self::spec_encode_body(m, ctx) == Ok::<Seq<u8>, SerializationError>((i16_bytes(m.error_code)) + ((array_bytes::<TopicData>(m.topics, Ctx { version: ctx.version, flexible: ctx.flexible, classic: false }))->Ok_0) + (if 1 <= ctx.version && !ctx.flexible { (array_bytes::<NodeEndpoint>(m.node_endpoints, Ctx { version: ctx.version, flexible: ctx.flexible, classic: false }))->Ok_0 } else { Seq::<u8>::empty() }) + (if ctx.flexible { (tagged_field_bytes(m.node_endpoints.len() != 0, 0, array_bytes::<NodeEndpoint>(m.node_endpoints, Ctx { version: ctx.version, flexible: true, classic: false })))->Ok_0 } else { Seq::<u8>::empty() })),
            Self::reads_back_body(m, ctx) ==> Self::spec_decode_body(pre + ((i16_bytes(m.error_code)) + ((array_bytes::<TopicData>(m.topics, Ctx { version: ctx.version, flexible: ctx.flexible, classic: false }))->Ok_0) + (if 1 <= ctx.version && !ctx.flexible { (array_bytes::<NodeEndpoint>(m.node_endpoints, Ctx { version: ctx.version, flexible: ctx.flexible, classic: false }))->Ok_0 } else { Seq::<u8>::empty() }) + (if ctx.flexible { (tagged_field_bytes(m.node_endpoints.len() != 0, 0, array_bytes::<NodeEndpoint>(m.node_endpoints, Ctx { version: ctx.version, flexible: true, classic: false })))->Ok_0 } else { Seq::<u8>::empty() })) + post, pre.len() as int, ctx) == Ok::<(BeginQuorumEpochResponseModel, int), SerializationError>((m, pre.len() as int + ((i16_bytes(m.error_code)) + ((array_bytes::<TopicData>(m.topics, Ctx { version: ctx.version, flexible: ctx.flexible, classic: false }))->Ok_0) + (if 1 <= ctx.version && !ctx.flexible { (array_bytes::<NodeEndpoint>(m.node_endpoints, Ctx { version: ctx.version, flexible: ctx.flexible, classic: false }))->Ok_0 } else { Seq::<u8>::empty() }) + (if ctx.flexible { (tagged_field_bytes(m.node_endpoints.len() != 0, 0, array_bytes::<NodeEndpoint>(m.node_endpoints, Ctx { version: ctx.version, flexible: true, classic: false })))->Ok_0 } else { Seq::<u8>::empty() })).len())),
    {
        let b0 = i16_bytes(m.error_code);
        let b1 = (array_bytes::<TopicData>(m.topics, Ctx { version: ctx.version, flexible: ctx.flexible, classic: false }))->Ok_0;
        let b2 = if 1 <= ctx.version && !ctx.flexible { (array_bytes::<NodeEndpoint>(m.node_endpoints, Ctx { version: ctx.version, flexible: ctx.flexible, classic: false }))->Ok_0 } else { Seq::<u8>::empty() };
        let b3 = if ctx.flexible { (tagged_field_bytes(m.node_endpoints.len() != 0, 0, array_bytes::<NodeEndpoint>(m.node_endpoints, Ctx { version: ctx.version, flexible: true, classic: false })))->Ok_0 } else { Seq::<u8>::empty() };
        let e = Self::spec_encode_body(m, ctx)->Ok_0;
        assert(e =~= Seq::<u8>::empty() + b0 + b1 + b2 + b3);
        assert(e =~= b0 + b1 + b2 + b3);
        if Self::reads_back_body(m, ctx) {
            Self::lemma_body_read_back(pre, m, post, ctx);
        }
    }

    /// Writes the structure for `version`, with the compact encodings when `is_flexible`.
    /// On failure the buffer is left as it was.
    pub fn encode(&self, buf: &mut Vec<u8>, version: ApiVersion, is_flexible: bool) -> (r: Result<(), SerializationError>)
        ensures
            write_exact(r, old(buf)@, final(buf)@, Self::spec_encode_body(self.deep_view(), Ctx { version: version.0, flexible: is_flexible, classic: false })),
    {
        let start = buf.len();
        let r = self.encode_ctx(buf, Ctx::new(version, is_flexible));
        if r.is_err() {
            buf.truncate(start);
        }
        r
    }

    /// Reads the structure as written for `version`.
    /// On failure the reader is put back where it started.
    pub fn decode(buf: &mut Reader, version: ApiVersion, is_flexible: bool) -> (r: Result<Self, SerializationError>)
        ensures
            final(buf).bytes() == old(buf).bytes(),
            read_view_exact(r, Self::spec_decode_body(old(buf).bytes(), old(buf).pos(), Ctx { version: version.0, flexible: is_flexible, classic: false }), old(buf).pos(), final(buf).pos()),
    {
        let start = buf.position();
        let r = Self::decode_ctx(buf, Ctx::new(version, is_flexible));
        if r.is_err() {
            buf.set_position(start);
        }
        r
    }
}

impl KafkaCodec for BeginQuorumEpochResponse {
    open spec fn spec_encode(m: BeginQuorumEpochResponseModel, ctx: Ctx) -> Result<Seq<u8>, SerializationError> {
        Self::spec_encode_body(m, ctx)
    }

    open spec fn spec_decode(s: Seq<u8>, pos: int, ctx: Ctx) -> Result<(BeginQuorumEpochResponseModel, int), SerializationError> {
        Self::spec_decode_body(s, pos, ctx)
    }

    open spec fn reads_back(v: BeginQuorumEpochResponseModel, ctx: Ctx) -> bool {
        Self::reads_back_body(v, ctx)
    }

    proof fn lemma_read_back(pre: Seq<u8>, v: BeginQuorumEpochResponseModel, post: Seq<u8>, ctx: Ctx) {
        Self::lemma_body_read_back(pre, v, post, ctx);
        assert(Self::spec_decode(pre + Self::spec_encode(v, ctx)->Ok_0 + post, pre.len() as int, ctx)
            == Self::spec_decode_body(pre + Self::spec_encode_body(v, ctx)->Ok_0 + post, pre.len() as int, ctx));
    }

    fn encode_ctx(&self, buf: &mut Vec<u8>, ctx: Ctx) -> (r: Result<(), SerializationError>) {
        let ghost mut w: Seq<u8> = Seq::empty();
        put_i16(buf, self.error_code);
        proof {
            w = w + i16_bytes(self.error_code);
        }
        assert(buf@ =~= old(buf)@ + w);
        encode_array(&self.topics, buf, Ctx { version: ctx.version, flexible: ctx.flexible, classic: false })?;
        proof {
            w = w + (array_bytes::<TopicData>(self.topics.deep_view(), Ctx { version: ctx.version, flexible: ctx.flexible, classic: false }))->Ok_0;
        }
        assert(buf@ =~= old(buf)@ + w);
        if 1 <= ctx.version && !ctx.flexible {
            encode_array(&self.node_endpoints, buf, Ctx { version: ctx.version, flexible: ctx.flexible, classic: false })?;
            proof {
                w = w + (array_bytes::<NodeEndpoint>(self.node_endpoints.deep_view(), Ctx { version: ctx.version, flexible: ctx.flexible, classic: false }))->Ok_0;
            }
            assert(buf@ =~= old(buf)@ + w);
        }
        if ctx.flexible {
            let tag_count: u64 = if self.node_endpoints.len() != 0 { 1 } else { 0 };
            encode_unsigned_varint(tag_count, buf);
            if self.node_endpoints.len() != 0 {
                encode_unsigned_varint(0, buf);
                let mut tmp: Vec<u8> = Vec::new();
                encode_array(&self.node_endpoints, &mut tmp, Ctx { version: ctx.version, flexible: true, classic: false })?;
                encode_unsigned_varint(tmp.len() as u64, buf);
                put_slice(buf, tmp.as_slice());
            }
            proof {
                w = w + (tagged_field_bytes(self.node_endpoints.deep_view().len() != 0, 0, array_bytes::<NodeEndpoint>(self.node_endpoints.deep_view(), Ctx { version: ctx.version, flexible: true, classic: false })))->Ok_0;
            }
            assert(buf@ =~= old(buf)@ + w);
        }
        Ok(())
    }

    fn decode_ctx(buf: &mut Reader, ctx: Ctx) -> (r: Result<Self, SerializationError>) {
        let error_code = buf.get_i16()?;
        let topics = decode_array::<TopicData>(buf, Ctx { version: ctx.version, flexible: ctx.flexible, classic: false })?;
        let mut node_endpoints = if 1 <= ctx.version && !ctx.flexible {
            decode_array::<NodeEndpoint>(buf, Ctx { version: ctx.version, flexible: ctx.flexible, classic: false })?
        } else {
            new_array::<NodeEndpoint>()
        };
        if ctx.flexible {
            let (tag_count, _) = decode_unsigned_varint(buf)?;
            node_endpoints = Self::read_tags(buf, tag_count, ctx.version, node_endpoints)?;
        }
        Ok(BeginQuorumEpochResponse { error_code, topics, node_endpoints })
    }
}

impl BeginQuorumEpochResponse {
    /// The API key of this message.
    pub fn get_api_key() -> (r: ApiKey)
        ensures
            r.0 == 53,
    {
        ApiKey::new(53)
    }

    /// The oldest version of this message.
    pub fn get_min_supported_version() -> (r: ApiVersion)
        ensures
            r.0 == 0,
    {
        ApiVersion::new(0)
    }

    /// The newest version of this message.
    pub fn get_max_supported_version() -> (r: ApiVersion)
        ensures
            r.0 == 1,
    {
        ApiVersion::new(1)
    }

    /// The first version of this message with the compact encodings.
    pub fn get_min_flexible_version() -> (r: ApiVersion)
        ensures
            r.0 == 1,
    {
        ApiVersion::new(1)
    }

    /// The encoding of a whole message body at `version`.
    pub open spec fn spec_serialize(m: BeginQuorumEpochResponseModel, version: i16) -> Result<Seq<u8>, SerializationError> {
        let is_flexible = version >= 1;
        let ctx = Ctx { version, flexible: is_flexible, classic: false };
        let r = Ok(Seq::<u8>::empty());
        let r = then(r, Ok(i16_bytes(m.error_code)));
        let r = then(r, array_bytes::<TopicData>(m.topics, Ctx { version: ctx.version, flexible: ctx.flexible, classic: false }));
        let r = if 1 <= ctx.version && !ctx.flexible { then(r, array_bytes::<NodeEndpoint>(m.node_endpoints, Ctx { version: ctx.version, flexible: ctx.flexible, classic: false })) } else if !(1 <= ctx.version) && m.node_endpoints.len() != 0 { then(r, Err(SerializationError::Encode("field 'NodeEndpoints' is not available in this version"))) } else { r };
        let r = if ctx.flexible { then(r, tagged_field_bytes(m.node_endpoints.len() != 0, 0, array_bytes::<NodeEndpoint>(m.node_endpoints, Ctx { version: ctx.version, flexible: true, classic: false }))) } else { r };
        r
    }

    /// The message body read at `version`.
    pub open spec fn spec_deserialize(s: Seq<u8>, pos: int, version: i16) -> Result<(BeginQuorumEpochResponseModel, int), SerializationError> {
        let is_flexible = version >= 1;
        let ctx = Ctx { version, flexible: is_flexible, classic: false };
        match parse_i16(s, pos) {
            Err(e) => Err(e),
            Ok((error_code, pos)) =>
            match parse_array::<TopicData>(s, pos, Ctx { version: ctx.version, flexible: ctx.flexible, classic: false }) {
                Err(e) => Err(e),
                Ok((topics, pos)) =>
                match (if 1 <= ctx.version && !ctx.flexible { parse_array::<NodeEndpoint>(s, pos, Ctx { version: ctx.version, flexible: ctx.flexible, classic: false }) } else { Ok((Seq::<<NodeEndpoint as DeepView>::V>::empty(), pos)) }) {
                    Err(e) => Err(e),
                    Ok((node_endpoints, pos)) =>
                    match (if ctx.flexible { match parse_uvarint(s, pos) { Err(e) => Err(e), Ok((n, p)) => Self::spec_read_tags(s, p, n as nat, ctx.version, node_endpoints) } } else { Ok((node_endpoints, pos)) }) {
                        Err(e) => Err(e),
                        Ok((node_endpoints, pos)) =>
                        Ok((BeginQuorumEpochResponseModel { error_code, topics, node_endpoints }, pos))
                    }
                }
            }
        }
    }

    /// Message bodies that read back when written at `version`: every field that
    /// the version leaves out holds its default, and nested values read back.
    pub open spec fn reads_back_message(m: BeginQuorumEpochResponseModel, version: i16) -> bool {
        let is_flexible = version >= 1;
        let ctx = Ctx { version, flexible: is_flexible, classic: false };
        &&& forall|i: int| 0 <= i < m.topics.len() ==> #[trigger] <TopicData as KafkaCodec>::reads_back(m.topics[i], Ctx { version: ctx.version, flexible: ctx.flexible, classic: false })
        &&& (1 <= ctx.version && !ctx.flexible) ==> forall|i: int| 0 <= i < m.node_endpoints.len() ==> #[trigger] <NodeEndpoint as KafkaCodec>::reads_back(m.node_endpoints[i], Ctx { version: ctx.version, flexible: ctx.flexible, classic: false })
        &&& !(1 <= ctx.version && !ctx.flexible) && !ctx.flexible ==> m.node_endpoints == Seq::<<NodeEndpoint as DeepView>::V>::empty()
        &&& ctx.flexible ==> forall|i: int| 0 <= i < m.node_endpoints.len() ==> #[trigger] <NodeEndpoint as KafkaCodec>::reads_back(m.node_endpoints[i], Ctx { version: ctx.version, flexible: true, classic: false })
    }

    /// A message body that can be written at `version` and reads back: reading a
    /// body at `version` from its bytes, wherever they stand, gives the same message.
    #[verifier::spinoff_prover]
    pub proof fn lemma_message_read_back(pre: Seq<u8>, m: BeginQuorumEpochResponseModel, post: Seq<u8>, version: i16)
        requires
            Self::spec_serialize(m, version) is Ok,
            Self::reads_back_message(m, version),
        ensures
            Self::spec_deserialize(pre + Self::spec_serialize(m, version)->Ok_0 + post, pre.len() as int, version) == Ok::<(BeginQuorumEpochResponseModel, int), SerializationError>((m, pre.len() as int + Self::spec_serialize(m, version)->Ok_0.len())),
    {
        let is_flexible = version >= 1;
        let ctx = Ctx { version, flexible: is_flexible, classic: false };
        let b0 = i16_bytes(m.error_code);
        let b1 = (array_bytes::<TopicData>(m.topics, Ctx { version: ctx.version, flexible: ctx.flexible, classic: false }))->Ok_0;
        let b2 = if 1 <= ctx.version && !ctx.flexible { (array_bytes::<NodeEndpoint>(m.node_endpoints, Ctx { version: ctx.version, flexible: ctx.flexible, classic: false }))->Ok_0 } else { Seq::<u8>::empty() };
        let b3 = if ctx.flexible { (tagged_field_bytes(m.node_endpoints.len() != 0, 0, array_bytes::<NodeEndpoint>(m.node_endpoints, Ctx { version: ctx.version, flexible: true, classic: false })))->Ok_0 } else { Seq::<u8>::empty() };
        let t4 = post;
        let t3 = b3 + t4;
        let t2 = b2 + t3;
        let t1 = b1 + t2;
        let t0 = b0 + t1;
        let e = Self::spec_serialize(m, version)->Ok_0;
        assert(e =~= Seq::<u8>::empty() + b0 + b1 + b2 + b3);
        lemma_seq_assoc((((Seq::<u8>::empty() + b0) + b1) + b2), b3, post);
        lemma_seq_assoc(((Seq::<u8>::empty() + b0) + b1), b2, (b3 + post));
        lemma_seq_assoc((Seq::<u8>::empty() + b0), b1, (b2 + (b3 + post)));
        lemma_seq_assoc(Seq::<u8>::empty(), b0, (b1 + (b2 + (b3 + post))));
        lemma_seq_empty_left((b0 + (b1 + (b2 + (b3 + post)))));
        let s = pre + e + post;
        lemma_seq_assoc(pre, e, post);
        assert(s == pre + t0);
        let a0 = pre;
        assert(parse_i16(s, a0.len() as int) == Ok::<(i16, int), SerializationError>((m.error_code, a0.len() as int + b0.len()))) by {
            lemma_seq_assoc(a0, b0, t1);
            lemma_i16_roundtrip(a0, m.error_code, t1);
        }
        lemma_seq_assoc(a0, b0, t1);
        let a1 = a0 + b0;
        assert(parse_array::<TopicData>(s, a1.len() as int, Ctx { version: ctx.version, flexible: ctx.flexible, classic: false }) == Ok::<(Seq<<TopicData as DeepView>::V>, int), SerializationError>((m.topics, a1.len() as int + b1.len()))) by {
            assert(array_bytes::<TopicData>(m.topics, Ctx { version: ctx.version, flexible: ctx.flexible, classic: false }) is Ok);
            lemma_seq_assoc(a1, b1, t2);
            lemma_items_read_back::<TopicData>(m.topics, Ctx { version: ctx.version, flexible: ctx.flexible, classic: false });
            lemma_array_roundtrip::<TopicData>(a1, m.topics, t2, Ctx { version: ctx.version, flexible: ctx.flexible, classic: false });
        }
        lemma_seq_assoc(a1, b1, t2);
        let a2 = a1 + b1;
        if 1 <= ctx.version && !ctx.flexible {
            assert(parse_array::<NodeEndpoint>(s, a2.len() as int, Ctx { version: ctx.version, flexible: ctx.flexible, classic: false }) == Ok::<(Seq<<NodeEndpoint as DeepView>::V>, int), SerializationError>((m.node_endpoints, a2.len() as int + b2.len()))) by {
                assert(array_bytes::<NodeEndpoint>(m.node_endpoints, Ctx { version: ctx.version, flexible: ctx.flexible, classic: false }) is Ok);
                lemma_seq_assoc(a2, b2, t3);
                lemma_items_read_back::<NodeEndpoint>(m.node_endpoints, Ctx { version: ctx.version, flexible: ctx.flexible, classic: false });
                lemma_array_roundtrip::<NodeEndpoint>(a2, m.node_endpoints, t3, Ctx { version: ctx.version, flexible: ctx.flexible, classic: false });
            }
        }
        lemma_seq_assoc(a2, b2, t3);
        let a3 = a2 + b2;
        if ctx.flexible {
            if m.node_endpoints.len() != 0 {
                let x = (array_bytes::<NodeEndpoint>(m.node_endpoints, Ctx { version: ctx.version, flexible: true, classic: false }))->Ok_0;
                let u1 = uvarint_bytes(1);
                let ut = uvarint_bytes(0);
                let ul = uvarint_bytes(x.len() as u64);
                assert(b3 == u1 + ut + ul + x);
                let q1 = a3 + u1;
                let q2 = q1 + ut;
                let q3 = q2 + ul;
                assert(parse_uvarint(s, a3.len() as int) == Ok::<(u64, int), SerializationError>((1u64, a3.len() as int + 1))) by {
                    assert(s =~= a3 + u1 + (ut + ul + x + t4));
                    lemma_uvarint_roundtrip(a3, 1, ut + ul + x + t4);
                }
                assert(parse_uvarint(s, q1.len() as int) == Ok::<(u64, int), SerializationError>((0u64, q1.len() as int + ut.len()))) by {
                    assert(s =~= q1 + ut + (ul + x + t4));
                    lemma_uvarint_roundtrip(q1, 0, ul + x + t4);
                }
                assert(parse_uvarint(s, q2.len() as int) == Ok::<(u64, int), SerializationError>(((x.len() as u64), q2.len() as int + ul.len()))) by {
                    assert(s =~= q2 + ul + (x + t4));
                    lemma_uvarint_roundtrip(q2, x.len() as u64, x + t4);
                }
                assert(parse_array::<NodeEndpoint>(s, q3.len() as int, Ctx { version: ctx.version, flexible: true, classic: false }) == Ok::<(Seq<<NodeEndpoint as DeepView>::V>, int), SerializationError>((m.node_endpoints, q3.len() as int + x.len()))) by {
                    assert(array_bytes::<NodeEndpoint>(m.node_endpoints, Ctx { version: ctx.version, flexible: true, classic: false }) is Ok);
                    assert(s =~= q3 + x + t4);
                    lemma_items_read_back::<NodeEndpoint>(m.node_endpoints, Ctx { version: ctx.version, flexible: true, classic: false });
                    lemma_array_roundtrip::<NodeEndpoint>(q3, m.node_endpoints, t4, Ctx { version: ctx.version, flexible: true, classic: false });
                }
                let end = q3.len() as int + x.len();
                assert(Self::spec_read_tags(s, end, 0nat, ctx.version, m.node_endpoints) == Ok::<(Seq<<NodeEndpoint as DeepView>::V>, int), SerializationError>((m.node_endpoints, end)));
                assert(Self::spec_read_tags(s, a3.len() as int + 1, 1nat, ctx.version, Seq::<<NodeEndpoint as DeepView>::V>::empty()) == Ok::<(Seq<<NodeEndpoint as DeepView>::V>, int), SerializationError>((m.node_endpoints, end)));
            } else {
                assert(b3 == uvarint_bytes(0));
                assert(parse_uvarint(s, a3.len() as int) == Ok::<(u64, int), SerializationError>((0u64, a3.len() as int + 1))) by {
                    lemma_seq_assoc(a3, b3, t4);
                    lemma_uvarint_roundtrip(a3, 0, t4);
                }
                assert(m.node_endpoints =~= Seq::<<NodeEndpoint as DeepView>::V>::empty());
                assert(Self::spec_read_tags(s, a3.len() as int + 1, 0nat, ctx.version, Seq::<<NodeEndpoint as DeepView>::V>::empty()) == Ok::<(Seq<<NodeEndpoint as DeepView>::V>, int), SerializationError>((Seq::<<NodeEndpoint as DeepView>::V>::empty(), a3.len() as int + 1)));
            }
        }
    }

    /// The bytes written: the encoding of each field, in the order of the
    /// protocol's layout. Reading them back, wherever they stand, gives the value,
    /// with each field that the version leaves out at its default.
    #[verifier::spinoff_prover]
    pub proof fn lemma_message_layout(pre: Seq<u8>, m: BeginQuorumEpochResponseModel, post: Seq<u8>, version: i16)
        requires
            Self::spec_serialize(m, version) is Ok,
        ensures
            Self::spec_serialize(m, version) == Ok::<Seq<u8>, SerializationError>((i16_bytes(m.error_code)) + ((array_bytes::<TopicData>(m.topics, Ctx { version: version, flexible: (version >= 1), classic: false }))->Ok_0) + (if 1 <= version && !(version >= 1) { (array_bytes::<NodeEndpoint>(m.node_endpoints, Ctx { version: version, flexible: (version >= 1), classic: false }))->Ok_0 } else { Seq::<u8>::empty() }) + (if (version >= 1) { (tagged_field_bytes(m.node_endpoints.len() != 0, 0, array_bytes::<NodeEndpoint>(m.node_endpoints, Ctx { version: version, flexible: true, classic: false })))->Ok_0 } else { Seq::<u8>::empty() })),
            Self::reads_back_message(m, version) ==> Self::spec_deserialize(pre + ((i16_bytes(m.error_code)) + ((array_bytes::<TopicData>(m.topics, Ctx { version: version, flexible: (version >= 1), classic: false }))->Ok_0) + (if 1 <= version && !(version >= 1) { (array_bytes::<NodeEndpoint>(m.node_endpoints, Ctx { version: version, flexible: (version >= 1), classic: false }))->Ok_0 } else { Seq::<u8>::empty() }) + (if (version >= 1) { (tagged_field_bytes(m.node_endpoints.len() != 0, 0, array_bytes::<NodeEndpoint>(m.node_endpoints, Ctx { version: version, flexible: true, classic: false })))->Ok_0 } else { Seq::<u8>::empty() })) + post, pre.len() as int, version) == Ok::<(BeginQuorumEpochResponseModel, int), SerializationError>((m, pre.len() as int + ((i16_bytes(m.error_code)) + ((array_bytes::<TopicData>(m.topics, Ctx { version: version, flexible: (version >= 1), classic: false }))->Ok_0) + (if 1 <= version && !(version >= 1) { (array_bytes::<NodeEndpoint>(m.node_endpoints, Ctx { version: version, flexible: (version >= 1), classic: false }))->Ok_0 } else { Seq::<u8>::empty() }) + (if (version >= 1) { (tagged_field_bytes(m.node_endpoints.len() != 0, 0, array_bytes::<NodeEndpoint>(m.node_endpoints, Ctx { version: version, flexible: true, classic: false })))->Ok_0 } else { Seq::<u8>::empty() })).len())),
    {
        let is_flexible = version >= 1;
        let ctx = Ctx { version, flexible: is_flexible, classic: false };
        let b0 = i16_bytes(m.error_code);
        let b1 = (array_bytes::<TopicData>(m.topics, Ctx { version: ctx.version, flexible: ctx.flexible, classic: false }))->Ok_0;
        let b2 = if 1 <= ctx.version && !ctx.flexible { (array_bytes::<NodeEndpoint>(m.node_endpoints, Ctx { version: ctx.version, flexible: ctx.flexible, classic: false }))->Ok_0 } else { Seq::<u8>::empty() };
        let b3 = if ctx.flexible { (tagged_field_bytes(m.node_endpoints.len() != 0, 0, array_bytes::<NodeEndpoint>(m.node_endpoints, Ctx { version: ctx.version, flexible: true, classic: false })))->Ok_0 } else { Seq::<u8>::empty() };
        let e = Self::spec_serialize(m, version)->Ok_0;
        assert(e =~= Seq::<u8>::empty() + b0 + b1 + b2 + b3);
        assert(e =~= b0 + b1 + b2 + b3);
        if Self::reads_back_message(m, version) {
            Self::lemma_message_read_back(pre, m, post, version);
        }
    }

    /// Writes the message body for `version`, which must be a supported version.
    /// On failure the buffer is left as it was.
    pub fn serialize(&self, version: ApiVersion, buf: &mut Vec<u8>) -> (r: Result<(), SerializationError>)
        requires
            0 <= version.0 <= 1,
        ensures
            write_exact(r, old(buf)@, final(buf)@, Self::spec_serialize(self.deep_view(), version.0)),
    {
        let start = buf.len();
        let r = self.write_body(version, buf);
        if r.is_err() {
            buf.truncate(start);
        }
        r
    }

    fn write_body(&self, version: ApiVersion, buf: &mut Vec<u8>) -> (r: Result<(), SerializationError>)
        requires
            0 <= version.0 <= 1,
        ensures
            write_ok(r, old(buf)@, final(buf)@, Self::spec_serialize(self.deep_view(), version.0)),
    {
        let is_flexible = version.0 >= Self::get_min_flexible_version().0;
        let ctx = Ctx::new(version, is_flexible);
        let ghost mut w: Seq<u8> = Seq::empty();
        put_i16(buf, self.error_code);
        proof {
            w = w + i16_bytes(self.error_code);
        }
        assert(buf@ =~= old(buf)@ + w);
        encode_array(&self.topics, buf, Ctx { version: ctx.version, flexible: ctx.flexible, classic: false })?;
        proof {
            w = w + (array_bytes::<TopicData>(self.topics.deep_view(), Ctx { version: ctx.version, flexible: ctx.flexible, classic: false }))->Ok_0;
        }
        assert(buf@ =~= old(buf)@ + w);
        if 1 <= ctx.version && !ctx.flexible {
            encode_array(&self.node_endpoints, buf, Ctx { version: ctx.version, flexible: ctx.flexible, classic: false })?;
            proof {
                w = w + (array_bytes::<NodeEndpoint>(self.node_endpoints.deep_view(), Ctx { version: ctx.version, flexible: ctx.flexible, classic: false }))->Ok_0;
            }
            assert(buf@ =~= old(buf)@ + w);
        } else if !(1 <= ctx.version) && self.node_endpoints.len() != 0 {
            return Err(SerializationError::Encode("field 'NodeEndpoints' is not available in this version"));
        }
        if ctx.flexible {
            let tag_count: u64 = if self.node_endpoints.len() != 0 { 1 } else { 0 };
            encode_unsigned_varint(tag_count, buf);
            if self.node_endpoints.len() != 0 {
                encode_unsigned_varint(0, buf);
                let mut tmp: Vec<u8> = Vec::new();
                encode_array(&self.node_endpoints, &mut tmp, Ctx { version: ctx.version, flexible: true, classic: false })?;
                encode_unsigned_varint(tmp.len() as u64, buf);
                put_slice(buf, tmp.as_slice());
            }
            proof {
                w = w + (tagged_field_bytes(self.node_endpoints.deep_view().len() != 0, 0, array_bytes::<NodeEndpoint>(self.node_endpoints.deep_view(), Ctx { version: ctx.version, flexible: true, classic: false })))->Ok_0;
            }
            assert(buf@ =~= old(buf)@ + w);
        }
        Ok(())
    }

    /// Reads a message body written for `version`.
    /// On failure the reader is put back where it started.
    pub fn deserialize(version: ApiVersion, buf: &mut Reader) -> (r: Result<Self, SerializationError>)
        ensures
            final(buf).bytes() == old(buf).bytes(),
            read_view_exact(r, Self::spec_deserialize(old(buf).bytes(), old(buf).pos(), version.0), old(buf).pos(), final(buf).pos()),
    {
        let start = buf.position();
        let r = Self::read_body(version, buf);
        if r.is_err() {
            buf.set_position(start);
        }
        r
    }

    fn read_body(version: ApiVersion, buf: &mut Reader) -> (r: Result<Self, SerializationError>)
        ensures
            final(buf).bytes() == old(buf).bytes(),
            read_view_ok(r, Self::spec_deserialize(old(buf).bytes(), old(buf).pos(), version.0), final(buf).pos()),
    {
        let is_flexible = version.0 >= Self::get_min_flexible_version().0;
        let ctx = Ctx::new(version, is_flexible);
        let error_code = buf.get_i16()?;
        let topics = decode_array::<TopicData>(buf, Ctx { version: ctx.version, flexible: ctx.flexible, classic: false })?;
        let mut node_endpoints = if 1 <= ctx.version && !ctx.flexible {
            decode_array::<NodeEndpoint>(buf, Ctx { version: ctx.version, flexible: ctx.flexible, classic: false })?
        } else {
            new_array::<NodeEndpoint>()
        };
        if ctx.flexible {
            let (tag_count, _) = decode_unsigned_varint(buf)?;
            node_endpoints = Self::read_tags(buf, tag_count, ctx.version, node_endpoints)?;
        }
        Ok(BeginQuorumEpochResponse { error_code, topics, node_endpoints })
    }
}

// -------------------------------------------------------
// NodeEndpoint
// -------------------------------------------------------
#[derive(Clone, Debug, Default, PartialEq)]
pub struct NodeEndpoint {
    /// The ID of the associated node.
    /// Available in version 1+.
    pub node_id: i32,
    /// The node's hostname.
    /// Available in version 1+.
    pub host: String,
    /// The node's port.
    /// Available in version 1+.
    pub port: u16,
}

/// The contents of `NodeEndpoint`, with strings as characters and
/// nested values by their contents.
pub struct NodeEndpointModel {
    pub node_id: i32,
    pub host: Seq<char>,
    pub port: u16,
}

impl DeepView for NodeEndpoint {
    type V = NodeEndpointModel;

    open spec fn deep_view(&self) -> NodeEndpointModel {
        NodeEndpointModel {
            node_id: self.node_id,
            host: self.host.deep_view(),
            port: self.port,
        }
    }
}

impl NodeEndpoint {
    /// The encoding of the structure in context `ctx`.
    pub open spec fn spec_encode_body(m: NodeEndpointModel, ctx: Ctx) -> Result<Seq<u8>, SerializationError> {
        let r = Ok(Seq::<u8>::empty());
        let r = if 1 <= ctx.version { then(r, Ok(i32_bytes(m.node_id))) } else { r };
        let r = if 1 <= ctx.version { then(r, string_bytes(m.host, ctx.flexible)) } else { r };
        let r = if 1 <= ctx.version { then(r, Ok(u16_bytes(m.port))) } else { r };
        let r = if ctx.flexible { then(r, Ok(uvarint_bytes(0))) } else { r };
        r
    }

    /// The structure read from `s` at `pos` in context `ctx`.
    pub open spec fn spec_decode_body(s: Seq<u8>, pos: int, ctx: Ctx) -> Result<(NodeEndpointModel, int), SerializationError> {
        match (if 1 <= ctx.version { parse_i32(s, pos) } else { Ok((0i32, pos)) }) {
            Err(e) => Err(e),
            Ok((node_id, pos)) =>
            match (if 1 <= ctx.version { parse_string(s, pos, ctx.flexible) } else { Ok((Seq::<char>::empty(), pos)) }) {
                Err(e) => Err(e),
                Ok((host, pos)) =>
                match (if 1 <= ctx.version { parse_u16(s, pos) } else { Ok((0u16, pos)) }) {
                    Err(e) => Err(e),
                    Ok((port, pos)) =>
                    match (if ctx.flexible { parse_uvarint(s, pos) } else { Ok((0u64, pos)) }) {
                        Err(e) => Err(e),
                        Ok((_tag_count, pos)) =>
                        Ok((NodeEndpointModel { node_id, host, port }, pos))
                    }
                }
            }
        }
    }

    /// The structure as it reads back in context `ctx`: each field that the
    /// version leaves out is at its default.
    #[verifier::opaque]
    pub open spec fn spec_read_as(m: NodeEndpointModel, ctx: Ctx) -> NodeEndpointModel {
        NodeEndpointModel { node_id: if 1 <= ctx.version { m.node_id } else { 0i32 }, host: if 1 <= ctx.version { m.host } else { Seq::<char>::empty() }, port: if 1 <= ctx.version { m.port } else { 0u16 } }
    }

    /// Values that read back in context `ctx`: nested values read back. A field
    /// that the version leaves out is read as its default.
    pub open spec fn reads_back_body(m: NodeEndpointModel, ctx: Ctx) -> bool {
        true
    }

    /// A value that can be written in context `ctx` and reads back: decoding its
    /// encoding, wherever it stands, gives the value as `spec_read_as` gives it and
    /// the position just after it.
    #[verifier::spinoff_prover]
    pub proof fn lemma_body_read_back(pre: Seq<u8>, m: NodeEndpointModel, post: Seq<u8>, ctx: Ctx)
        requires
            Self::spec_encode_body(m, ctx) is Ok,
            Self::reads_back_body(m, ctx),
        ensures
            Self::spec_decode_body(pre + Self::spec_encode_body(m, ctx)->Ok_0 + post, pre.len() as int, ctx) == Ok::<(NodeEndpointModel, int), SerializationError>((Self::spec_read_as(m, ctx), pre.len() as int + Self::spec_encode_body(m, ctx)->Ok_0.len())),
    {
        reveal(NodeEndpoint::spec_read_as);
        let b0 = if 1 <= ctx.version { i32_bytes(m.node_id) } else { Seq::<u8>::empty() };
        let b1 = if 1 <= ctx.version { (string_bytes(m.host, ctx.flexible))->Ok_0 } else { Seq::<u8>::empty() };
        let b2 = if 1 <= ctx.version { u16_bytes(m.port) } else { Seq::<u8>::empty() };
        let b3 = if ctx.flexible { uvarint_bytes(0) } else { Seq::<u8>::empty() };
        let t4 = post;
        let t3 = b3 + t4;
        let t2 = b2 + t3;
        let t1 = b1 + t2;
        let t0 = b0 + t1;
        let e = Self::spec_encode_body(m, ctx)->Ok_0;
        assert(e =~= Seq::<u8>::empty() + b0 + b1 + b2 + b3);
        lemma_seq_assoc((((Seq::<u8>::empty() + b0) + b1) + b2), b3, post);
        lemma_seq_assoc(((Seq::<u8>::empty() + b0) + b1), b2, (b3 + post));
        lemma_seq_assoc((Seq::<u8>::empty() + b0), b1, (b2 + (b3 + post)));
        lemma_seq_assoc(Seq::<u8>::empty(), b0, (b1 + (b2 + (b3 + post))));
        lemma_seq_empty_left((b0 + (b1 + (b2 + (b3 + post)))));
        let s = pre + e + post;
        lemma_seq_assoc(pre, e, post);
        assert(s == pre + t0);
        let a0 = pre;
        if 1 <= ctx.version {
            assert(parse_i32(s, a0.len() as int) == Ok::<(i32, int), SerializationError>((m.node_id, a0.len() as int + b0.len()))) by {
                lemma_seq_assoc(a0, b0, t1);
                lemma_i32_roundtrip(a0, m.node_id, t1);
            }
        }
        lemma_seq_assoc(a0, b0, t1);
        let a1 = a0 + b0;
        if 1 <= ctx.version {
            assert(parse_string(s, a1.len() as int, ctx.flexible) == Ok::<(Seq<char>, int), SerializationError>((m.host, a1.len() as int + b1.len()))) by {
                assert(string_bytes(m.host, ctx.flexible) is Ok);
                lemma_seq_assoc(a1, b1, t2);
                lemma_string_roundtrip(a1, m.host, t2, ctx.flexible);
            }
        }
        lemma_seq_assoc(a1, b1, t2);
        let a2 = a1 + b1;
        if 1 <= ctx.version {
            assert(parse_u16(s, a2.len() as int) == Ok::<(u16, int), SerializationError>((m.port, a2.len() as int + b2.len()))) by {
                lemma_seq_assoc(a2, b2, t3);
                lemma_u16_roundtrip(a2, m.port, t3);
            }
        }
        lemma_seq_assoc(a2, b2, t3);
        let a3 = a2 + b2;
        if ctx.flexible {
            assert(parse_uvarint(s, a3.len() as int) == Ok::<(u64, int), SerializationError>((0u64, a3.len() as int + b3.len()))) by {
                lemma_seq_assoc(a3, b3, t4);
                lemma_uvarint_roundtrip(a3, 0, t4);
            }
        }
    }

    /// The bytes written: the encoding of each field, in the order of the
    /// protocol's layout. Reading them back, wherever they stand, gives the value,
    /// with each field that the version leaves out at its default.
    #[verifier::spinoff_prover]
    pub proof fn lemma_body_layout(pre: Seq<u8>, m: NodeEndpointModel, post: Seq<u8>, ctx: Ctx)
        requires
            Self::spec_encode_body(m, ctx) is Ok,
        ensures
            Self::spec_encode_body(m, ctx) == Ok::<Seq<u8>, SerializationError>((if 1 <= ctx.version { i32_bytes(m.node_id) } else { Seq::<u8>::empty() }) + (if 1 <= ctx.version { (string_bytes(m.host, ctx.flexible))->Ok_0 } else { Seq::<u8>::empty() }) + (if 1 <= ctx.version { u16_bytes(m.port) } else { Seq::<u8>::empty() }) + (if ctx.flexible { uvarint_bytes(0) } else { Seq::<u8>::empty() })),
            Self::reads_back_body(m, ctx) ==> Self::spec_decode_body(pre + ((if 1 <= ctx.version { i32_bytes(m.node_id) } else { Seq::<u8>::empty() }) + (if 1 <= ctx.version { (string_bytes(m.host, ctx.flexible))->Ok_0 } else { Seq::<u8>::empty() }) + (if 1 <= ctx.version { u16_bytes(m.port) } else { Seq::<u8>::empty() }) + (if ctx.flexible { uvarint_bytes(0) } else { Seq::<u8>::empty() })) + post, pre.len() as int, ctx) == Ok::<(NodeEndpointModel, int), SerializationError>((NodeEndpointModel { node_id: if 1 <= ctx.version { m.node_id } else { 0i32 }, host: if 1 <= ctx.version { m.host } else { Seq::<char>::empty() }, port: if 1 <= ctx.version { m.port } else { 0u16 } }, pre.len() as int + ((if 1 <= ctx.version { i32_bytes(m.node_id) } else { Seq::<u8>::empty() }) + (if 1 <= ctx.version { (string_bytes(m.host, ctx.flexible))->Ok_0 } else { Seq::<u8>::empty() }) + (if 1 <= ctx.version { u16_bytes(m.port) } else { Seq::<u8>::empty() }) + (if ctx.flexible { uvarint_bytes(0) } else { Seq::<u8>::empty() })).len())),
    {
        let b0 = if 1 <= ctx.version { i32_bytes(m.node_id) } else { Seq::<u8>::empty() };
        let b1 = if 1 <= ctx.version { (string_bytes(m.host, ctx.flexible))->Ok_0 } else { Seq::<u8>::empty() };
        let b2 = if 1 <= ctx.version { u16_bytes(m.port) } else { Seq::<u8>::empty() };
        let b3 = if ctx.flexible { uvarint_bytes(0) } else { Seq::<u8>::empty() };
        let e = Self::spec_encode_body(m, ctx)->Ok_0;
        assert(e =~= Seq::<u8>::empty() + b0 + b1 + b2 + b3);
        assert(e =~= b0 + b1 + b2 + b3);
        if Self::reads_back_body(m, ctx) {
            Self::lemma_body_read_back(pre, m, post, ctx);
            reveal(NodeEndpoint::spec_read_as);
        }
    }

    /// Writing succeeds exactly when every field that the version carries can be
    /// encoded and every field that it leaves out, where leaving it out is an
    /// error, holds its default.
    #[verifier::spinoff_prover]
    pub proof fn lemma_body_write_succeeds(m: NodeEndpointModel, ctx: Ctx)
        ensures
            Self::spec_encode_body(m, ctx) is Ok <==> ((1 <= ctx.version) ==> string_bytes(m.host, ctx.flexible) is Ok),
    {
    }

    /// Writes the structure for `version`, with the compact encodings when `is_flexible`.
    /// On failure the buffer is left as it was.
    pub fn encode(&self, buf: &mut Vec<u8>, version: ApiVersion, is_flexible: bool) -> (r: Result<(), SerializationError>)
        ensures
            write_exact(r, old(buf)@, final(buf)@, Self::spec_encode_body(self.deep_view(), Ctx { version: version.0, flexible: is_flexible, classic: false })),
    {
        let start = buf.len();
        let r = self.encode_ctx(buf, Ctx::new(version, is_flexible));
        if r.is_err() {
            buf.truncate(start);
        }
        r
    }

    /// Reads the structure as written for `version`.
    /// On failure the reader is put back where it started.
    pub fn decode(buf: &mut Reader, version: ApiVersion, is_flexible: bool) -> (r: Result<Self, SerializationError>)
        ensures
            final(buf).bytes() == old(buf).bytes(),
            read_view_exact(r, Self::spec_decode_body(old(buf).bytes(), old(buf).pos(), Ctx { version: version.0, flexible: is_flexible, classic: false }), old(buf).pos(), final(buf).pos()),
    {
        let start = buf.position();
        let r = Self::decode_ctx(buf, Ctx::new(version, is_flexible));
        if r.is_err() {
            buf.set_position(start);
        }
        r
    }
}

impl KafkaCodec for NodeEndpoint {
    open spec fn spec_encode(m: NodeEndpointModel, ctx: Ctx) -> Result<Seq<u8>, SerializationError> {
        Self::spec_encode_body(m, ctx)
    }

    open spec fn spec_decode(s: Seq<u8>, pos: int, ctx: Ctx) -> Result<(NodeEndpointModel, int), SerializationError> {
        Self::spec_decode_body(s, pos, ctx)
    }

    open spec fn reads_back(v: NodeEndpointModel, ctx: Ctx) -> bool {
        Self::reads_back_body(v, ctx) && Self::spec_read_as(v, ctx) == v
    }

    proof fn lemma_read_back(pre: Seq<u8>, v: NodeEndpointModel, post: Seq<u8>, ctx: Ctx) {
        Self::lemma_body_read_back(pre, v, post, ctx);
        assert(Self::spec_decode(pre + Self::spec_encode(v, ctx)->Ok_0 + post, pre.len() as int, ctx)
            == Self::spec_decode_body(pre + Self::spec_encode_body(v, ctx)->Ok_0 + post, pre.len() as int, ctx));
    }

    fn encode_ctx(&self, buf: &mut Vec<u8>, ctx: Ctx) -> (r: Result<(), SerializationError>) {
        let ghost mut w: Seq<u8> = Seq::empty();
        if 1 <= ctx.version {
            put_i32(buf, self.node_id);
            proof {
                w = w + i32_bytes(self.node_id);
            }
            assert(buf@ =~= old(buf)@ + w);
        }
        if 1 <= ctx.version {
            encode_string(&self.host, buf, ctx.flexible)?;
            proof {
                w = w + (string_bytes(self.host.deep_view(), ctx.flexible))->Ok_0;
            }
            assert(buf@ =~= old(buf)@ + w);
        }
        if 1 <= ctx.version {
            put_u16(buf, self.port);
            proof {
                w = w + u16_bytes(self.port);
            }
            assert(buf@ =~= old(buf)@ + w);
        }
        if ctx.flexible {
            encode_unsigned_varint(0, buf);
            proof {
                w = w + uvarint_bytes(0);
            }
            assert(buf@ =~= old(buf)@ + w);
        }
        Ok(())
    }

    fn decode_ctx(buf: &mut Reader, ctx: Ctx) -> (r: Result<Self, SerializationError>) {
        let node_id = if 1 <= ctx.version {
            buf.get_i32()?
        } else {
            0i32
        };
        let host = if 1 <= ctx.version {
            buf.get_string(ctx.flexible)?
        } else {
            String::new()
        };
        let port = if 1 <= ctx.version {
            buf.get_u16()?
        } else {
            0u16
        };
        if ctx.flexible {
            let (_tag_count, _) = decode_unsigned_varint(buf)?;
        }
        Ok(NodeEndpoint { node_id, host, port })
    }
}

// -------------------------------------------------------
// PartitionData
// -------------------------------------------------------
#[derive(Clone, Debug, Default, PartialEq)]
pub struct PartitionData {
    /// The partition index.
    pub partition_index: i32,
    /// The error code for this partition.
    pub error_code: i16,
    /// The ID of the current leader or -1 if the leader is unknown.
    pub leader_id: i32,
    /// The latest known leader epoch.
    pub leader_epoch: i32,
}

/// The contents of `PartitionData`, with strings as characters and
/// nested values by their contents.
pub struct PartitionDataModel {
    pub partition_index: i32,
    pub error_code: i16,
    pub leader_id: i32,
    pub leader_epoch: i32,
}

impl DeepView for PartitionData {
    type V = PartitionDataModel;

    open spec fn deep_view(&self) -> PartitionDataModel {
        PartitionDataModel {
            partition_index: self.partition_index,
            error_code: self.error_code,
            leader_id: self.leader_id,
            leader_epoch: self.leader_epoch,
        }
    }
}

impl PartitionData {
    /// The encoding of the structure in context `ctx`.
    pub open spec fn spec_encode_body(m: PartitionDataModel, ctx: Ctx) -> Result<Seq<u8>, SerializationError> {
        let r = Ok(Seq::<u8>::empty());
        let r = then(r, Ok(i32_bytes(m.partition_index)));
        let r = then(r, Ok(i16_bytes(m.error_code)));
        let r = then(r, Ok(i32_bytes(m.leader_id)));
        let r = then(r, Ok(i32_bytes(m.leader_epoch)));
        let r = if ctx.flexible { then(r, Ok(uvarint_bytes(0))) } else { r };
        r
    }

    /// The structure read from `s` at `pos` in context `ctx`.
    pub open spec fn spec_decode_body(s: Seq<u8>, pos: int, ctx: Ctx) -> Result<(PartitionDataModel, int), SerializationError> {
        match parse_i32(s, pos) {
            Err(e) => Err(e),
            Ok((partition_index, pos)) =>
            match parse_i16(s, pos) {
                Err(e) => Err(e),
                Ok((error_code, pos)) =>
                match parse_i32(s, pos) {
                    Err(e) => Err(e),
                    Ok((leader_id, pos)) =>
                    match parse_i32(s, pos) {
                        Err(e) => Err(e),
                        Ok((leader_epoch, pos)) =>
                        match (if ctx.flexible { parse_uvarint(s, pos) } else { Ok((0u64, pos)) }) {
                            Err(e) => Err(e),
                            Ok((_tag_count, pos)) =>
                            Ok((PartitionDataModel { partition_index, error_code, leader_id, leader_epoch }, pos))
                        }
                    }
                }
            }
        }
    }

    /// Values of the structure that read back from their encoding in `ctx`: every
    /// field that the version leaves out holds its default, and nested values
    /// read back.
    pub open spec fn reads_back_body(m: PartitionDataModel, ctx: Ctx) -> bool {
        true
    }

    /// A value that can be written in `ctx` and reads back: decoding its encoding,
    /// wherever it stands, gives the value and the position just after it.
    #[verifier::spinoff_prover]
    pub proof fn lemma_body_read_back(pre: Seq<u8>, m: PartitionDataModel, post: Seq<u8>, ctx: Ctx)
        requires
            Self::spec_encode_body(m, ctx) is Ok,
            Self::reads_back_body(m, ctx),
        ensures
            Self::spec_decode_body(pre + Self::spec_encode_body(m, ctx)->Ok_0 + post, pre.len() as int, ctx) == Ok::<(PartitionDataModel, int), SerializationError>((m, pre.len() as int + Self::spec_encode_body(m, ctx)->Ok_0.len())),
    {
        let b0 = i32_bytes(m.partition_index);
        let b1 = i16_bytes(m.error_code);
        let b2 = i32_bytes(m.leader_id);
        let b3 = i32_bytes(m.leader_epoch);
        let b4 = if ctx.flexible { uvarint_bytes(0) } else { Seq::<u8>::empty() };
        let t5 = post;
        let t4 = b4 + t5;
        let t3 = b3 + t4;
        let t2 = b2 + t3;
        let t1 = b1 + t2;
        let t0 = b0 + t1;
        let e = Self::spec_encode_body(m, ctx)->Ok_0;
        assert(e =~= Seq::<u8>::empty() + b0 + b1 + b2 + b3 + b4);
        lemma_seq_assoc(((((Seq::<u8>::empty() + b0) + b1) + b2) + b3), b4, post);
        lemma_seq_assoc((((Seq::<u8>::empty() + b0) + b1) + b2), b3, (b4 + post));
        lemma_seq_assoc(((Seq::<u8>::empty() + b0) + b1), b2, (b3 + (b4 + post)));
        lemma_seq_assoc((Seq::<u8>::empty() + b0), b1, (b2 + (b3 + (b4 + post))));
        lemma_seq_assoc(Seq::<u8>::empty(), b0, (b1 + (b2 + (b3 + (b4 + post)))));
        lemma_seq_empty_left((b0 + (b1 + (b2 + (b3 + (b4 + post))))));
        let s = pre + e + post;
        lemma_seq_assoc(pre, e, post);
        assert(s == pre + t0);
        let a0 = pre;
        assert(parse_i32(s, a0.len() as int) == Ok::<(i32, int), SerializationError>((m.partition_index, a0.len() as int + b0.len()))) by {
            lemma_seq_assoc(a0, b0, t1);
            lemma_i32_roundtrip(a0, m.partition_index, t1);
        }
        lemma_seq_assoc(a0, b0, t1);
        let a1 = a0 + b0;
        assert(parse_i16(s, a1.len() as int) == Ok::<(i16, int), SerializationError>((m.error_code, a1.len() as int + b1.len()))) by {
            lemma_seq_assoc(a1, b1, t2);
            lemma_i16_roundtrip(a1, m.error_code, t2);
        }
        lemma_seq_assoc(a1, b1, t2);
        let a2 = a1 + b1;
        assert(parse_i32(s, a2.len() as int) == Ok::<(i32, int), SerializationError>((m.leader_id, a2.len() as int + b2.len()))) by {
            lemma_seq_assoc(a2, b2, t3);
            lemma_i32_roundtrip(a2, m.leader_id, t3);
        }
        lemma_seq_assoc(a2, b2, t3);
        let a3 = a2 + b2;
        assert(parse_i32(s, a3.len() as int) == Ok::<(i32, int), SerializationError>((m.leader_epoch, a3.len() as int + b3.len()))) by {
            lemma_seq_assoc(a3, b3, t4);
            lemma_i32_roundtrip(a3, m.leader_epoch, t4);
        }
        lemma_seq_assoc(a3, b3, t4);
        let a4 = a3 + b3;
        if ctx.flexible {
            assert(parse_uvarint(s, a4.len() as int) == Ok::<(u64, int), SerializationError>((0u64, a4.len() as int + b4.len()))) by {
                lemma_seq_assoc(a4, b4, t5);
                lemma_uvarint_roundtrip(a4, 0, t5);
            }
        }
    }

    /// The bytes written: the encoding of each field, in the order of the
    /// protocol's layout. Reading them back, wherever they stand, gives the value,
    /// with each field that the version leaves out at its default.
    #[verifier::spinoff_prover]
    pub proof fn lemma_body_layout(pre: Seq<u8>, m: PartitionDataModel, post: Seq<u8>, ctx: Ctx)
        requires
            Self::spec_encode_body(m, ctx) is Ok,
        ensures
            Self::spec_encode_body(m, ctx) == Ok::<Seq<u8>, SerializationError>((i32_bytes(m.partition_index)) + (i16_bytes(m.error_code)) + (i32_bytes(m.leader_id)) + (i32_bytes(m.leader_epoch)) + (if ctx.flexible { uvarint_bytes(0) } else { Seq::<u8>::empty() })),
            Self::reads_back_body(m, ctx) ==> Self::spec_decode_body(pre + ((i32_bytes(m.partition_index)) + (i16_bytes(m.error_code)) + (i32_bytes(m.leader_id)) + (i32_bytes(m.leader_epoch)) + (if ctx.flexible { uvarint_bytes(0) } else { Seq::<u8>::empty() })) + post, pre.len() as int, ctx) == Ok::<(PartitionDataModel, int), SerializationError>((m, pre.len() as int + ((i32_bytes(m.partition_index)) + (i16_bytes(m.error_code)) + (i32_bytes(m.leader_id)) + (i32_bytes(m.leader_epoch)) + (if ctx.flexible { uvarint_bytes(0) } else { Seq::<u8>::empty() })).len())),
    {
        let b0 = i32_bytes(m.partition_index);
        let b1 = i16_bytes(m.error_code);
        let b2 = i32_bytes(m.leader_id);
        let b3 = i32_bytes(m.leader_epoch);
        let b4 = if ctx.flexible { uvarint_bytes(0) } else { Seq::<u8>::empty() };
        let e = Self::spec_encode_body(m, ctx)->Ok_0;
        assert(e =~= Seq::<u8>::empty() + b0 + b1 + b2 + b3 + b4);
        assert(e =~= b0 + b1 + b2 + b3 + b4);
        if Self::reads_back_body(m, ctx) {
            Self::lemma_body_read_back(pre, m, post, ctx);
        }
    }

    /// Writing succeeds exactly when every field that the version carries can be
    /// encoded and every field that it leaves out, where leaving it out is an
    /// error, holds its default.
    #[verifier::spinoff_prover]
    pub proof fn lemma_body_write_succeeds(m: PartitionDataModel, ctx: Ctx)
        ensures
            Self::spec_encode_body(m, ctx) is Ok <==> true,
    {
    }

    /// Writes the structure for `version`, with the compact encodings when `is_flexible`.
    /// On failure the buffer is left as it was.
    pub fn encode(&self, buf: &mut Vec<u8>, version: ApiVersion, is_flexible: bool) -> (r: Result<(), SerializationError>)
        ensures
            write_exact(r, old(buf)@, final(buf)@, Self::spec_encode_body(self.deep_view(), Ctx { version: version.0, flexible: is_flexible, classic: false })),
    {
        let start = buf.len();
        let r = self.encode_ctx(buf, Ctx::new(version, is_flexible));
        if r.is_err() {
            buf.truncate(start);
        }
        r
    }

    /// Reads the structure as written for `version`.
    /// On failure the reader is put back where it started.
    pub fn decode(buf: &mut Reader, version: ApiVersion, is_flexible: bool) -> (r: Result<Self, SerializationError>)
        ensures
            final(buf).bytes() == old(buf).bytes(),
            read_view_exact(r, Self::spec_decode_body(old(buf).bytes(), old(buf).pos(), Ctx { version: version.0, flexible: is_flexible, classic: false }), old(buf).pos(), final(buf).pos()),
    {
        let start = buf.position();
        let r = Self::decode_ctx(buf, Ctx::new(version, is_flexible));
        if r.is_err() {
            buf.set_position(start);
        }
        r
    }
}

impl KafkaCodec for PartitionData {
    open spec fn spec_encode(m: PartitionDataModel, ctx: Ctx) -> Result<Seq<u8>, SerializationError> {
        Self::spec_encode_body(m, ctx)
    }

    open spec fn spec_decode(s: Seq<u8>, pos: int, ctx: Ctx) -> Result<(PartitionDataModel, int), SerializationError> {
        Self::spec_decode_body(s, pos, ctx)
    }

    open spec fn reads_back(v: PartitionDataModel, ctx: Ctx) -> bool {
        Self::reads_back_body(v, ctx)
    }

    proof fn lemma_read_back(pre: Seq<u8>, v: PartitionDataModel, post: Seq<u8>, ctx: Ctx) {
        Self::lemma_body_read_back(pre, v, post, ctx);
        assert(Self::spec_decode(pre + Self::spec_encode(v, ctx)->Ok_0 + post, pre.len() as int, ctx)
            == Self::spec_decode_body(pre + Self::spec_encode_body(v, ctx)->Ok_0 + post, pre.len() as int, ctx));
    }

    fn encode_ctx(&self, buf: &mut Vec<u8>, ctx: Ctx) -> (r: Result<(), SerializationError>) {
        let ghost mut w: Seq<u8> = Seq::empty();
        put_i32(buf, self.partition_index);
        proof {
            w = w + i32_bytes(self.partition_index);
        }
        assert(buf@ =~= old(buf)@ + w);
        put_i16(buf, self.error_code);
        proof {
            w = w + i16_bytes(self.error_code);
        }
        assert(buf@ =~= old(buf)@ + w);
        put_i32(buf, self.leader_id);
        proof {
            w = w + i32_bytes(self.leader_id);
        }
        assert(buf@ =~= old(buf)@ + w);
        put_i32(buf, self.leader_epoch);
        proof {
            w = w + i32_bytes(self.leader_epoch);
        }
        assert(buf@ =~= old(buf)@ + w);
        if ctx.flexible {
            encode_unsigned_varint(0, buf);
            proof {
                w = w + uvarint_bytes(0);
            }
            assert(buf@ =~= old(buf)@ + w);
        }
        Ok(())
    }

    fn decode_ctx(buf: &mut Reader, ctx: Ctx) -> (r: Result<Self, SerializationError>) {
        let partition_index = buf.get_i32()?;
        let error_code = buf.get_i16()?;
        let leader_id = buf.get_i32()?;
        let leader_epoch = buf.get_i32()?;
        if ctx.flexible {
            let (_tag_count, _) = decode_unsigned_varint(buf)?;
        }
        Ok(PartitionData { partition_index, error_code, leader_id, leader_epoch })
    }
}

// -------------------------------------------------------
// TopicData
// -------------------------------------------------------
#[derive(Clone, Debug, Default, PartialEq)]
pub struct TopicData {
    /// The topic name.
    pub topic_name: String,
    /// The partition data.
    pub partitions: Vec<PartitionData>,
}

/// The contents of `TopicData`, with strings as characters and
/// nested values by their contents.
pub struct TopicDataModel {
    pub topic_name: Seq<char>,
    pub partitions: Seq<<PartitionData as DeepView>::V>,
}

impl DeepView for TopicData {
    type V = TopicDataModel;

    open spec fn deep_view(&self) -> TopicDataModel {
        TopicDataModel {
            topic_name: self.topic_name.deep_view(),
            partitions: self.partitions.deep_view(),
        }
    }
}

impl TopicData {
    /// The encoding of the structure in context `ctx`.
    pub open spec fn spec_encode_body(m: TopicDataModel, ctx: Ctx) -> Result<Seq<u8>, SerializationError> {
        let r = Ok(Seq::<u8>::empty());
        let r = then(r, string_bytes(m.topic_name, ctx.flexible));
        let r = then(r, array_bytes::<PartitionData>(m.partitions, Ctx { version: ctx.version, flexible: ctx.flexible, classic: false }));
        let r = if ctx.flexible { then(r, Ok(uvarint_bytes(0))) } else { r };
        r
    }

    /// The structure read from `s` at `pos` in context `ctx`.
    pub open spec fn spec_decode_body(s: Seq<u8>, pos: int, ctx: Ctx) -> Result<(TopicDataModel, int), SerializationError> {
        match parse_string(s, pos, ctx.flexible) {
            Err(e) => Err(e),
            Ok((topic_name, pos)) =>
            match parse_array::<PartitionData>(s, pos, Ctx { version: ctx.version, flexible: ctx.flexible, classic: false }) {
                Err(e) => Err(e),
                Ok((partitions, pos)) =>
                match (if ctx.flexible { parse_uvarint(s, pos) } else { Ok((0u64, pos)) }) {
                    Err(e) => Err(e),
                    Ok((_tag_count, pos)) =>
                    Ok((TopicDataModel { topic_name, partitions }, pos))
                }
            }
        }
    }

    /// Values of the structure that read back from their encoding in `ctx`: every
    /// field that the version leaves out holds its default, and nested values
    /// read back.
    pub open spec fn reads_back_body(m: TopicDataModel, ctx: Ctx) -> bool {
        &&& forall|i: int| 0 <= i < m.partitions.len() ==> #[trigger] <PartitionData as KafkaCodec>::reads_back(m.partitions[i], Ctx { version: ctx.version, flexible: ctx.flexible, classic: false })
    }

    /// A value that can be written in `ctx` and reads back: decoding its encoding,
    /// wherever it stands, gives the value and the position just after it.
    #[verifier::spinoff_prover]
    pub proof fn lemma_body_read_back(pre: Seq<u8>, m: TopicDataModel, post: Seq<u8>, ctx: Ctx)
        requires
            Self::spec_encode_body(m, ctx) is Ok,
            Self::reads_back_body(m, ctx),
        ensures
            Self::spec_decode_body(pre + Self::spec_encode_body(m, ctx)->Ok_0 + post, pre.len() as int, ctx) == Ok::<(TopicDataModel, int), SerializationError>((m, pre.len() as int + Self::spec_encode_body(m, ctx)->Ok_0.len())),
    {
        let b0 = (string_bytes(m.topic_name, ctx.flexible))->Ok_0;
        let b1 = (array_bytes::<PartitionData>(m.partitions, Ctx { version: ctx.version, flexible: ctx.flexible, classic: false }))->Ok_0;
        let b2 = if ctx.flexible { uvarint_bytes(0) } else { Seq::<u8>::empty() };
        let t3 = post;
        let t2 = b2 + t3;
        let t1 = b1 + t2;
        let t0 = b0 + t1;
        let e = Self::spec_encode_body(m, ctx)->Ok_0;
        assert(e =~= Seq::<u8>::empty() + b0 + b1 + b2);
        lemma_seq_assoc(((Seq::<u8>::empty() + b0) + b1), b2, post);
        lemma_seq_assoc((Seq::<u8>::empty() + b0), b1, (b2 + post));
        lemma_seq_assoc(Seq::<u8>::empty(), b0, (b1 + (b2 + post)));
        lemma_seq_empty_left((b0 + (b1 + (b2 + post))));
        let s = pre + e + post;
        lemma_seq_assoc(pre, e, post);
        assert(s == pre + t0);
        let a0 = pre;
        assert(parse_string(s, a0.len() as int, ctx.flexible) == Ok::<(Seq<char>, int), SerializationError>((m.topic_name, a0.len() as int + b0.len()))) by {
            assert(string_bytes(m.topic_name, ctx.flexible) is Ok);
            lemma_seq_assoc(a0, b0, t1);
            lemma_string_roundtrip(a0, m.topic_name, t1, ctx.flexible);
        }
        lemma_seq_assoc(a0, b0, t1);
        let a1 = a0 + b0;
        assert(parse_array::<PartitionData>(s, a1.len() as int, Ctx { version: ctx.version, flexible: ctx.flexible, classic: false }) == Ok::<(Seq<<PartitionData as DeepView>::V>, int), SerializationError>((m.partitions, a1.len() as int + b1.len()))) by {
            assert(array_bytes::<PartitionData>(m.partitions, Ctx { version: ctx.version, flexible: ctx.flexible, classic: false }) is Ok);
            lemma_seq_assoc(a1, b1, t2);
            lemma_items_read_back::<PartitionData>(m.partitions, Ctx { version: ctx.version, flexible: ctx.flexible, classic: false });
            lemma_array_roundtrip::<PartitionData>(a1, m.partitions, t2, Ctx { version: ctx.version, flexible: ctx.flexible, classic: false });
        }
        lemma_seq_assoc(a1, b1, t2);
        let a2 = a1 + b1;
        if ctx.flexible {
            assert(parse_uvarint(s, a2.len() as int) == Ok::<(u64, int), SerializationError>((0u64, a2.len() as int + b2.len()))) by {
                lemma_seq_assoc(a2, b2, t3);
                lemma_uvarint_roundtrip(a2, 0, t3);
            }
        }
    }

    /// The bytes written: the encoding of each field, in the order of the
    /// protocol's layout. Reading them back, wherever they stand, gives the value,
    /// with each field that the version leaves out at its default.
    #[verifier::spinoff_prover]
    pub proof fn lemma_body_layout(pre: Seq<u8>, m: TopicDataModel, post: Seq<u8>, ctx: Ctx)
        requires
            Self::spec_encode_body(m, ctx) is Ok,
        ensures
            Self::spec_encode_body(m, ctx) == Ok::<Seq<u8>, SerializationError>(((string_bytes(m.topic_name, ctx.flexible))->Ok_0) + ((array_bytes::<PartitionData>(m.partitions, Ctx { version: ctx.version, flexible: ctx.flexible, classic: false }))->Ok_0) + (if ctx.flexible { uvarint_bytes(0) } else { Seq::<u8>::empty() })),
            Self::reads_back_body(m, ctx) ==> Self::spec_decode_body(pre + (((string_bytes(m.topic_name, ctx.flexible))->Ok_0) + ((array_bytes::<PartitionData>(m.partitions, Ctx { version: ctx.version, flexible: ctx.flexible, classic: false }))->Ok_0) + (if ctx.flexible { uvarint_bytes(0) } else { Seq::<u8>::empty() })) + post, pre.len() as int, ctx) == Ok::<(TopicDataModel, int), SerializationError>((m, pre.len() as int + (((string_bytes(m.topic_name, ctx.flexible))->Ok_0) + ((array_bytes::<PartitionData>(m.partitions, Ctx { version: ctx.version, flexible: ctx.flexible, classic: false }))->Ok_0) + (if ctx.flexible { uvarint_bytes(0) } else { Seq::<u8>::empty() })).len())),
    {
        let b0 = (string_bytes(m.topic_name, ctx.flexible))->Ok_0;
        let b1 = (array_bytes::<PartitionData>(m.partitions, Ctx { version: ctx.version, flexible: ctx.flexible, classic: false }))->Ok_0;
        let b2 = if ctx.flexible { uvarint_bytes(0) } else { Seq::<u8>::empty() };
        let e = Self::spec_encode_body(m, ctx)->Ok_0;
        assert(e =~= Seq::<u8>::empty() + b0 + b1 + b2);
        assert(e =~= b0 + b1 + b2);
        if Self::reads_back_body(m, ctx) {
            Self::lemma_body_read_back(pre, m, post, ctx);
        }
    }

    /// Writing succeeds exactly when every field that the version carries can be
    /// encoded and every field that it leaves out, where leaving it out is an
    /// error, holds its default.
    #[verifier::spinoff_prover]
    pub proof fn lemma_body_write_succeeds(m: TopicDataModel, ctx: Ctx)
        ensures
            Self::spec_encode_body(m, ctx) is Ok <==> (string_bytes(m.topic_name, ctx.flexible) is Ok) && (array_bytes::<PartitionData>(m.partitions, Ctx { version: ctx.version, flexible: ctx.flexible, classic: false }) is Ok),
    {
    }

    /// Writes the structure for `version`, with the compact encodings when `is_flexible`.
    /// On failure the buffer is left as it was.
    pub fn encode(&self, buf: &mut Vec<u8>, version: ApiVersion, is_flexible: bool) -> (r: Result<(), SerializationError>)
        ensures
            write_exact(r, old(buf)@, final(buf)@, Self::spec_encode_body(self.deep_view(), Ctx { version: version.0, flexible: is_flexible, classic: false })),
    {
        let start = buf.len();
        let r = self.encode_ctx(buf, Ctx::new(version, is_flexible));
        if r.is_err() {
            buf.truncate(start);
        }
        r
    }

    /// Reads the structure as written for `version`.
    /// On failure the reader is put back where it started.
    pub fn decode(buf: &mut Reader, version: ApiVersion, is_flexible: bool) -> (r: Result<Self, SerializationError>)
        ensures
            final(buf).bytes() == old(buf).bytes(),
            read_view_exact(r, Self::spec_decode_body(old(buf).bytes(), old(buf).pos(), Ctx { version: version.0, flexible: is_flexible, classic: false }), old(buf).pos(), final(buf).pos()),
    {
        let start = buf.position();
        let r = Self::decode_ctx(buf, Ctx::new(version, is_flexible));
        if r.is_err() {
            buf.set_position(start);
        }
        r
    }
}

impl KafkaCodec for TopicData {
    open spec fn spec_encode(m: TopicDataModel, ctx: Ctx) -> Result<Seq<u8>, SerializationError> {
        Self::spec_encode_body(m, ctx)
    }

    open spec fn spec_decode(s: Seq<u8>, pos: int, ctx: Ctx) -> Result<(TopicDataModel, int), SerializationError> {
        Self::spec_decode_body(s, pos, ctx)
    }

    open spec fn reads_back(v: TopicDataModel, ctx: Ctx) -> bool {
        Self::reads_back_body(v, ctx)
    }

    proof fn lemma_read_back(pre: Seq<u8>, v: TopicDataModel, post: Seq<u8>, ctx: Ctx) {
        Self::lemma_body_read_back(pre, v, post, ctx);
        assert(Self::spec_decode(pre + Self::spec_encode(v, ctx)->Ok_0 + post, pre.len() as int, ctx)
            == Self::spec_decode_body(pre + Self::spec_encode_body(v, ctx)->Ok_0 + post, pre.len() as int, ctx));
    }

    fn encode_ctx(&self, buf: &mut Vec<u8>, ctx: Ctx) -> (r: Result<(), SerializationError>) {
        let ghost mut w: Seq<u8> = Seq::empty();
        encode_string(&self.topic_name, buf, ctx.flexible)?;
        proof {
            w = w + (string_bytes(self.topic_name.deep_view(), ctx.flexible))->Ok_0;
        }
        assert(buf@ =~= old(buf)@ + w);
        encode_array(&self.partitions, buf, Ctx { version: ctx.version, flexible: ctx.flexible, classic: false })?;
        proof {
            w = w + (array_bytes::<PartitionData>(self.partitions.deep_view(), Ctx { version: ctx.version, flexible: ctx.flexible, classic: false }))->Ok_0;
        }
        assert(buf@ =~= old(buf)@ + w);
        if ctx.flexible {
            encode_unsigned_varint(0, buf);
            proof {
                w = w + uvarint_bytes(0);
            }
            assert(buf@ =~= old(buf)@ + w);
        }
        Ok(())
    }

    fn decode_ctx(buf: &mut Reader, ctx: Ctx) -> (r: Result<Self, SerializationError>) {
        let topic_name = buf.get_string(ctx.flexible)?;
        let partitions = decode_array::<PartitionData>(buf, Ctx { version: ctx.version, flexible: ctx.flexible, classic: false })?;
        if ctx.flexible {
            let (_tag_count, _) = decode_unsigned_varint(buf)?;
        }
        Ok(TopicData { topic_name, partitions })
    }
}

} // verus!
