//! BrokerHeartbeatRequest (API key 63).
use vstd::prelude::*;
use crate::roundtrip::{lemma_array_roundtrip, lemma_bool_roundtrip, lemma_i32_roundtrip,
    lemma_i64_roundtrip, lemma_items_read_back, lemma_seq_assoc, lemma_seq_empty_left,
    lemma_uvarint_roundtrip};
use crate::serialization::{Ctx, KafkaCodec, Reader, SerializationError, array_bytes, bool_bytes,
    decode_array, decode_unsigned_varint, encode_array, encode_unsigned_varint, i32_bytes,
    i64_bytes, new_array, parse_array, parse_bool, parse_i32, parse_i64, parse_skip,
    parse_uvarint, put_bool, put_i32, put_i64, put_slice, read_view_exact, read_view_ok,
    tagged_field_bytes, then, unknown_tag_end, uvarint_bytes, write_exact, write_ok};
use crate::{ApiKey, ApiVersion};

verus! {

// -------------------------------------------------------
// BrokerHeartbeatRequest
// -------------------------------------------------------
#[derive(Clone, Debug, Default, PartialEq)]
pub struct BrokerHeartbeatRequest {
    /// The broker ID.
    pub broker_id: i32,
    /// The broker epoch.
    pub broker_epoch: i64,
    /// The highest metadata offset which the broker has reached.
    pub current_metadata_offset: i64,
    /// True if the broker wants to be fenced, false otherwise.
    pub want_fence: bool,
    /// True if the broker wants to be shut down, false otherwise.
    pub want_shut_down: bool,
    /// Log directories that failed and went offline.
    /// Available in version 1+.
    pub offline_log_dirs: Vec<[u8; 16]>,
}

/// The contents of `BrokerHeartbeatRequest`, with strings as characters and
/// nested values by their contents.
pub struct BrokerHeartbeatRequestModel {
    pub broker_id: i32,
    pub broker_epoch: i64,
    pub current_metadata_offset: i64,
    pub want_fence: bool,
    pub want_shut_down: bool,
    pub offline_log_dirs: Seq<<[u8; 16] as DeepView>::V>,
}

impl DeepView for BrokerHeartbeatRequest {
    type V = BrokerHeartbeatRequestModel;

    open spec fn deep_view(&self) -> BrokerHeartbeatRequestModel {
        BrokerHeartbeatRequestModel {
            broker_id: self.broker_id,
            broker_epoch: self.broker_epoch,
            current_metadata_offset: self.current_metadata_offset,
            want_fence: self.want_fence,
            want_shut_down: self.want_shut_down,
            offline_log_dirs: self.offline_log_dirs.deep_view(),
        }
    }
}

impl BrokerHeartbeatRequest {
    /// Fields 1 to 7 of the encoding.
    pub open spec fn spec_encode_body_part1(m: BrokerHeartbeatRequestModel, ctx: Ctx) -> Result<Seq<u8>, SerializationError> {
        let r = Ok(Seq::<u8>::empty());
        let r = then(r, Ok(i32_bytes(m.broker_id)));
        let r = then(r, Ok(i64_bytes(m.broker_epoch)));
        let r = then(r, Ok(i64_bytes(m.current_metadata_offset)));
        let r = then(r, Ok(bool_bytes(m.want_fence)));
        let r = then(r, Ok(bool_bytes(m.want_shut_down)));
        let r = if 1 <= ctx.version && !ctx.flexible { then(r, array_bytes::<[u8; 16]>(m.offline_log_dirs, Ctx { version: ctx.version, flexible: ctx.flexible, classic: false })) } else { r };
        let r = if ctx.flexible { then(r, tagged_field_bytes(m.offline_log_dirs.len() != 0, 0, array_bytes::<[u8; 16]>(m.offline_log_dirs, Ctx { version: ctx.version, flexible: true, classic: false }))) } else { r };
        r
    }

    #[verifier::spinoff_prover]
    #[verifier::rlimit(100)]
    fn encode_body_part1(&self, buf: &mut Vec<u8>, ctx: Ctx) -> (r: Result<(), SerializationError>)
        ensures
            write_ok(r, old(buf)@, final(buf)@, Self::spec_encode_body_part1(self.deep_view(), ctx)),
    {
        let ghost mut w: Seq<u8> = Seq::empty();
        put_i32(buf, self.broker_id);
        proof {
            w = w + i32_bytes(self.broker_id);
        }
        assert(buf@ =~= old(buf)@ + w);
        put_i64(buf, self.broker_epoch);
        proof {
            w = w + i64_bytes(self.broker_epoch);
        }
        assert(buf@ =~= old(buf)@ + w);
        put_i64(buf, self.current_metadata_offset);
        proof {
            w = w + i64_bytes(self.current_metadata_offset);
        }
        assert(buf@ =~= old(buf)@ + w);
        put_bool(buf, self.want_fence);
        proof {
            w = w + bool_bytes(self.want_fence);
        }
        assert(buf@ =~= old(buf)@ + w);
        put_bool(buf, self.want_shut_down);
        proof {
            w = w + bool_bytes(self.want_shut_down);
        }
        assert(buf@ =~= old(buf)@ + w);
        if 1 <= ctx.version && !ctx.flexible {
            encode_array(&self.offline_log_dirs, buf, Ctx { version: ctx.version, flexible: ctx.flexible, classic: false })?;
            proof {
                w = w + (array_bytes::<[u8; 16]>(self.offline_log_dirs.deep_view(), Ctx { version: ctx.version, flexible: ctx.flexible, classic: false }))->Ok_0;
            }
            assert(buf@ =~= old(buf)@ + w);
        }
        if ctx.flexible {
            let tag_count: u64 = if self.offline_log_dirs.len() != 0 { 1 } else { 0 };
            encode_unsigned_varint(tag_count, buf);
            if self.offline_log_dirs.len() != 0 {
                encode_unsigned_varint(0, buf);
                let mut tmp: Vec<u8> = Vec::new();
                encode_array(&self.offline_log_dirs, &mut tmp, Ctx { version: ctx.version, flexible: true, classic: false })?;
                encode_unsigned_varint(tmp.len() as u64, buf);
                put_slice(buf, tmp.as_slice());
            }
            proof {
                w = w + (tagged_field_bytes(self.offline_log_dirs.deep_view().len() != 0, 0, array_bytes::<[u8; 16]>(self.offline_log_dirs.deep_view(), Ctx { version: ctx.version, flexible: true, classic: false })))->Ok_0;
            }
            assert(buf@ =~= old(buf)@ + w);
        }
        Ok(())
    }

    /// The encoding of the structure in context `ctx`.
    pub open spec fn spec_encode_body(m: BrokerHeartbeatRequestModel, ctx: Ctx) -> Result<Seq<u8>, SerializationError> {
        let r = Ok(Seq::<u8>::empty());
        let r = then(r, Self::spec_encode_body_part1(m, ctx));
        r
    }

    /// The structure read from `s` at `pos` in context `ctx`.
    pub open spec fn spec_decode_body(s: Seq<u8>, pos: int, ctx: Ctx) -> Result<(BrokerHeartbeatRequestModel, int), SerializationError> {
        match parse_i32(s, pos) {
            Err(e) => Err(e),
            Ok((broker_id, pos)) =>
            match parse_i64(s, pos) {
                Err(e) => Err(e),
                Ok((broker_epoch, pos)) =>
                match parse_i64(s, pos) {
                    Err(e) => Err(e),
                    Ok((current_metadata_offset, pos)) =>
                    match parse_bool(s, pos) {
                        Err(e) => Err(e),
                        Ok((want_fence, pos)) =>
                        match parse_bool(s, pos) {
                            Err(e) => Err(e),
                            Ok((want_shut_down, pos)) =>
                            match (if 1 <= ctx.version && !ctx.flexible { parse_array::<[u8; 16]>(s, pos, Ctx { version: ctx.version, flexible: ctx.flexible, classic: false }) } else { Ok((Seq::<<[u8; 16] as DeepView>::V>::empty(), pos)) }) {
                                Err(e) => Err(e),
                                Ok((offline_log_dirs, pos)) =>
                                match (if ctx.flexible { match parse_uvarint(s, pos) { Err(e) => Err(e), Ok((n, p)) => Self::spec_read_tags(s, p, n as nat, ctx.version, offline_log_dirs) } } else { Ok((offline_log_dirs, pos)) }) {
                                    Err(e) => Err(e),
                                    Ok((offline_log_dirs, pos)) =>
                                    Ok((BrokerHeartbeatRequestModel { broker_id, broker_epoch, current_metadata_offset, want_fence, want_shut_down, offline_log_dirs }, pos))
                                }
                            }
                        }
                    }
                }
            }
        }
    }

    /// Reads `n` tagged fields, keeping the last value of tag 0.
    pub open spec fn spec_read_tags(s: Seq<u8>, pos: int, n: nat, version: i16, cur: Seq<<[u8; 16] as DeepView>::V>) -> Result<(Seq<<[u8; 16] as DeepView>::V>, int), SerializationError>
        decreases n,
    {
        if n == 0 {
            Ok((cur, pos))
        } else {
            match parse_uvarint(s, pos) {
                Err(e) => Err(e),
                Ok((id, p1)) => match parse_uvarint(s, p1) {
                    Err(e) => Err(e),
                    Ok((len, p2)) => if id == 0 {
                        match parse_array::<[u8; 16]>(s, p2, Ctx { version: version, flexible: true, classic: false }) {
                            Err(e) => Err(e),
                            Ok((v, p3)) => Self::spec_read_tags(s, p3, (n - 1) as nat, version, v),
                        }
                    } else {
                        match parse_skip(s, p2, (len as usize) as int) {
                            Err(e) => Err(e),
                            Ok((_, p3)) => Self::spec_read_tags(s, p3, (n - 1) as nat, version, cur),
                        }
                    },
                },
            }
        }
    }

    /// A tagged field whose tag this structure does not know is skipped by its
    /// length: reading one more field than before, where the extra field carries
    /// such a tag, gives the same value and ends where the skipped bytes end.
    pub proof fn lemma_unknown_tag_skipped(s: Seq<u8>, pos: int, n: nat, version: i16, cur: Seq<<[u8; 16] as DeepView>::V>)
        requires
            Self::spec_read_tags(s, pos, n, version, cur) is Ok,
            unknown_tag_end(s, Self::spec_read_tags(s, pos, n, version, cur)->Ok_0.1, 0) is Some,
        ensures
            Self::spec_read_tags(s, pos, n + 1, version, cur) == Ok::<(Seq<<[u8; 16] as DeepView>::V>, int), SerializationError>((
                Self::spec_read_tags(s, pos, n, version, cur)->Ok_0.0,
                unknown_tag_end(s, Self::spec_read_tags(s, pos, n, version, cur)->Ok_0.1, 0)->Some_0,
            )),
        decreases n,
    {
        if n == 0 {
            reveal_with_fuel(BrokerHeartbeatRequest::spec_read_tags, 2);
        } else {
            let (id, p1) = parse_uvarint(s, pos)->Ok_0;
            let (len, p2) = parse_uvarint(s, p1)->Ok_0;
            if id == 0 {
                let (v, p3) = (parse_array::<[u8; 16]>(s, p2, Ctx { version: version, flexible: true, classic: false }))->Ok_0;
                Self::lemma_unknown_tag_skipped(s, p3, (n - 1) as nat, version, v);
            } else {
                let p3 = parse_skip(s, p2, (len as usize) as int)->Ok_0.1;
                Self::lemma_unknown_tag_skipped(s, p3, (n - 1) as nat, version, cur);
            }
        }
    }

    fn read_tags(buf: &mut Reader, count: u64, version: i16, init: Vec<[u8; 16]>) -> (r: Result<Vec<[u8; 16]>, SerializationError>)
        ensures
            final(buf).bytes() == old(buf).bytes(),
            read_view_ok(r, Self::spec_read_tags(old(buf).bytes(), old(buf).pos(), count as nat, version, init.deep_view()), final(buf).pos()),
    {
        let mut cur = init;
        let mut i: u64 = 0;
        while i < count
            invariant
                buf.bytes() == old(buf).bytes(),
                i <= count,
                Self::spec_read_tags(old(buf).bytes(), old(buf).pos(), count as nat, version, init.deep_view()) == Self::spec_read_tags(buf.bytes(), buf.pos(), (count - i) as nat, version, cur.deep_view()),
            decreases count - i,
        {
            let (id, _) = decode_unsigned_varint(buf)?;
            let (len, _) = decode_unsigned_varint(buf)?;
            if id == 0 {
                cur = decode_array::<[u8; 16]>(buf, Ctx { version: version, flexible: true, classic: false })?;
            } else {
                buf.advance(len as usize)?;
            }
            i = i + 1;
        }
        Ok(cur)
    }

    /// Values of the structure that read back from their encoding in `ctx`: every
    /// field that the version leaves out holds its default, and nested values
    /// read back.
    pub open spec fn reads_back_body(m: BrokerHeartbeatRequestModel, ctx: Ctx) -> bool {
        &&& (1 <= ctx.version && !ctx.flexible) ==> forall|i: int| 0 <= i < m.offline_log_dirs.len() ==> #[trigger] <[u8; 16] as KafkaCodec>::reads_back(m.offline_log_dirs[i], Ctx { version: ctx.version, flexible: ctx.flexible, classic: false })
        &&& !(1 <= ctx.version && !ctx.flexible) && !ctx.flexible ==> m.offline_log_dirs == Seq::<<[u8; 16] as DeepView>::V>::empty()
        &&& ctx.flexible ==> forall|i: int| 0 <= i < m.offline_log_dirs.len() ==> #[trigger] <[u8; 16] as KafkaCodec>::reads_back(m.offline_log_dirs[i], Ctx { version: ctx.version, flexible: true, classic: false })
    }

    /// A value that can be written in `ctx` and reads back: decoding its encoding,
    /// wherever it stands, gives the value and the position just after it.
    #[verifier::spinoff_prover]
    #[verifier::rlimit(100)]
    pub proof fn lemma_body_read_back(pre: Seq<u8>, m: BrokerHeartbeatRequestModel, post: Seq<u8>, ctx: Ctx)
        requires
            Self::spec_encode_body(m, ctx) is Ok,
            Self::reads_back_body(m, ctx),
        ensures
            Self::spec_decode_body(pre + Self::spec_encode_body(m, ctx)->Ok_0 + post, pre.len() as int, ctx) == Ok::<(BrokerHeartbeatRequestModel, int), SerializationError>((m, pre.len() as int + Self::spec_encode_body(m, ctx)->Ok_0.len())),
    {
        let b0 = i32_bytes(m.broker_id);
        let b1 = i64_bytes(m.broker_epoch);
        let b2 = i64_bytes(m.current_metadata_offset);
        let b3 = bool_bytes(m.want_fence);
        let b4 = bool_bytes(m.want_shut_down);
        let b5 = if 1 <= ctx.version && !ctx.flexible { (array_bytes::<[u8; 16]>(m.offline_log_dirs, Ctx { version: ctx.version, flexible: ctx.flexible, classic: false }))->Ok_0 } else { Seq::<u8>::empty() };
        let b6 = if ctx.flexible { (tagged_field_bytes(m.offline_log_dirs.len() != 0, 0, array_bytes::<[u8; 16]>(m.offline_log_dirs, Ctx { version: ctx.version, flexible: true, classic: false })))->Ok_0 } else { Seq::<u8>::empty() };
        let t7 = post;
        let t6 = b6 + t7;
        let t5 = b5 + t6;
        let t4 = b4 + t5;
        let t3 = b3 + t4;
        let t2 = b2 + t3;
        let t1 = b1 + t2;
        let t0 = b0 + t1;
        let e = Self::spec_encode_body(m, ctx)->Ok_0;
        let p1 = Self::spec_encode_body_part1(m, ctx)->Ok_0;
        assert(p1 =~= Seq::<u8>::empty() + b0 + b1 + b2 + b3 + b4 + b5 + b6);
        lemma_seq_assoc(((((((Seq::<u8>::empty() + b0) + b1) + b2) + b3) + b4) + b5), b6, t7);
        lemma_seq_assoc((((((Seq::<u8>::empty() + b0) + b1) + b2) + b3) + b4), b5, (b6 + t7));
        lemma_seq_assoc(((((Seq::<u8>::empty() + b0) + b1) + b2) + b3), b4, (b5 + (b6 + t7)));
        lemma_seq_assoc((((Seq::<u8>::empty() + b0) + b1) + b2), b3, (b4 + (b5 + (b6 + t7))));
        lemma_seq_assoc(((Seq::<u8>::empty() + b0) + b1), b2, (b3 + (b4 + (b5 + (b6 + t7)))));
        lemma_seq_assoc((Seq::<u8>::empty() + b0), b1, (b2 + (b3 + (b4 + (b5 + (b6 + t7))))));
        lemma_seq_assoc(Seq::<u8>::empty(), b0, (b1 + (b2 + (b3 + (b4 + (b5 + (b6 + t7)))))));
        lemma_seq_empty_left((b0 + (b1 + (b2 + (b3 + (b4 + (b5 + (b6 + t7))))))));
        assert(e == Seq::<u8>::empty() + p1);
        lemma_seq_assoc(Seq::<u8>::empty(), p1, t7);
        lemma_seq_empty_left((p1 + t7));
        let s = pre + e + post;
        lemma_seq_assoc(pre, e, post);
        assert(s == pre + t0);
        let a0 = pre;
        assert(parse_i32(s, a0.len() as int) == Ok::<(i32, int), SerializationError>((m.broker_id, a0.len() as int + b0.len()))) by {
            lemma_seq_assoc(a0, b0, t1);
            lemma_i32_roundtrip(a0, m.broker_id, t1);
        }
        lemma_seq_assoc(a0, b0, t1);
        let a1 = a0 + b0;
        assert(parse_i64(s, a1.len() as int) == Ok::<(i64, int), SerializationError>((m.broker_epoch, a1.len() as int + b1.len()))) by {
            lemma_seq_assoc(a1, b1, t2);
            lemma_i64_roundtrip(a1, m.broker_epoch, t2);
        }
        lemma_seq_assoc(a1, b1, t2);
        let a2 = a1 + b1;
        assert(parse_i64(s, a2.len() as int) == Ok::<(i64, int), SerializationError>((m.current_metadata_offset, a2.len() as int + b2.len()))) by {
            lemma_seq_assoc(a2, b2, t3);
            lemma_i64_roundtrip(a2, m.current_metadata_offset, t3);
        }
        lemma_seq_assoc(a2, b2, t3);
        let a3 = a2 + b2;
        assert(parse_bool(s, a3.len() as int) == Ok::<(bool, int), SerializationError>((m.want_fence, a3.len() as int + b3.len()))) by {
            lemma_seq_assoc(a3, b3, t4);
            lemma_bool_roundtrip(a3, m.want_fence, t4);
        }
        lemma_seq_assoc(a3, b3, t4);
        let a4 = a3 + b3;
        assert(parse_bool(s, a4.len() as int) == Ok::<(bool, int), SerializationError>((m.want_shut_down, a4.len() as int + b4.len()))) by {
            lemma_seq_assoc(a4, b4, t5);
            lemma_bool_roundtrip(a4, m.want_shut_down, t5);
        }
        lemma_seq_assoc(a4, b4, t5);
        let a5 = a4 + b4;
        if 1 <= ctx.version && !ctx.flexible {
            assert(parse_array::<[u8; 16]>(s, a5.len() as int, Ctx { version: ctx.version, flexible: ctx.flexible, classic: false }) == Ok::<(Seq<<[u8; 16] as DeepView>::V>, int), SerializationError>((m.offline_log_dirs, a5.len() as int + b5.len()))) by {
                assert(array_bytes::<[u8; 16]>(m.offline_log_dirs, Ctx { version: ctx.version, flexible: ctx.flexible, classic: false }) is Ok);
                lemma_seq_assoc(a5, b5, t6);
                lemma_items_read_back::<[u8; 16]>(m.offline_log_dirs, Ctx { version: ctx.version, flexible: ctx.flexible, classic: false });
                lemma_array_roundtrip::<[u8; 16]>(a5, m.offline_log_dirs, t6, Ctx { version: ctx.version, flexible: ctx.flexible, classic: false });
            }
        }
        lemma_seq_assoc(a5, b5, t6);
        let a6 = a5 + b5;
        if ctx.flexible {
            if m.offline_log_dirs.len() != 0 {
                let x = (array_bytes::<[u8; 16]>(m.offline_log_dirs, Ctx { version: ctx.version, flexible: true, classic: false }))->Ok_0;
                let u1 = uvarint_bytes(1);
                let ut = uvarint_bytes(0);
                let ul = uvarint_bytes(x.len() as u64);
                assert(b6 == u1 + ut + ul + x);
                let q1 = a6 + u1;
                let q2 = q1 + ut;
                let q3 = q2 + ul;
                assert(parse_uvarint(s, a6.len() as int) == Ok::<(u64, int), SerializationError>((1u64, a6.len() as int + 1))) by {
                    assert(s =~= a6 + u1 + (ut + ul + x + t7));
                    lemma_uvarint_roundtrip(a6, 1, ut + ul + x + t7);
                }
                assert(parse_uvarint(s, q1.len() as int) == Ok::<(u64, int), SerializationError>((0u64, q1.len() as int + ut.len()))) by {
                    assert(s =~= q1 + ut + (ul + x + t7));
                    lemma_uvarint_roundtrip(q1, 0, ul + x + t7);
                }
                assert(parse_uvarint(s, q2.len() as int) == Ok::<(u64, int), SerializationError>(((x.len() as u64), q2.len() as int + ul.len()))) by {
                    assert(s =~= q2 + ul + (x + t7));
                    lemma_uvarint_roundtrip(q2, x.len() as u64, x + t7);
                }
                assert(parse_array::<[u8; 16]>(s, q3.len() as int, Ctx { version: ctx.version, flexible: true, classic: false }) == Ok::<(Seq<<[u8; 16] as DeepView>::V>, int), SerializationError>((m.offline_log_dirs, q3.len() as int + x.len()))) by {
                    assert(array_bytes::<[u8; 16]>(m.offline_log_dirs, Ctx { version: ctx.version, flexible: true, classic: false }) is Ok);
                    assert(s =~= q3 + x + t7);
                    lemma_items_read_back::<[u8; 16]>(m.offline_log_dirs, Ctx { version: ctx.version, flexible: true, classic: false });
                    lemma_array_roundtrip::<[u8; 16]>(q3, m.offline_log_dirs, t7, Ctx { version: ctx.version, flexible: true, classic: false });
                }
                let end = q3.len() as int + x.len();
                assert(Self::spec_read_tags(s, end, 0nat, ctx.version, m.offline_log_dirs) == Ok::<(Seq<<[u8; 16] as DeepView>::V>, int), SerializationError>((m.offline_log_dirs, end)));
                assert(Self::spec_read_tags(s, a6.len() as int + 1, 1nat, ctx.version, Seq::<<[u8; 16] as DeepView>::V>::empty()) == Ok::<(Seq<<[u8; 16] as DeepView>::V>, int), SerializationError>((m.offline_log_dirs, end)));
            } else {
                assert(b6 == uvarint_bytes(0));
                assert(parse_uvarint(s, a6.len() as int) == Ok::<(u64, int), SerializationError>((0u64, a6.len() as int + 1))) by {
                    lemma_seq_assoc(a6, b6, t7);
                    lemma_uvarint_roundtrip(a6, 0, t7);
                }
                assert(m.offline_log_dirs =~= Seq::<<[u8; 16] as DeepView>::V>::empty());
                assert(Self::spec_read_tags(s, a6.len() as int + 1, 0nat, ctx.version, Seq::<<[u8; 16] as DeepView>::V>::empty()) == Ok::<(Seq<<[u8; 16] as DeepView>::V>, int), SerializationError>((Seq::<<[u8; 16] as DeepView>::V>::empty(), a6.len() as int + 1)));
            }
        }
    }

    /// The bytes written: the encoding of each field, in the order of the
    /// protocol's layout. Reading them back, wherever they stand, gives the value,
    /// with each field that the version leaves out at its default.
    #[verifier::spinoff_prover]
    pub proof fn lemma_body_layout(pre: Seq<u8>, m: BrokerHeartbeatRequestModel, post: Seq<u8>, ctx: Ctx)
        requires
            Self::spec_encode_body(m, ctx) is Ok,
        ensures
            Self::spec_encode_body(m, ctx) == Ok::<Seq<u8>, SerializationError>((i32_bytes(m.broker_id)) + (i64_bytes(m.broker_epoch)) + (i64_bytes(m.current_metadata_offset)) + (bool_bytes(m.want_fence)) + (bool_bytes(m.want_shut_down)) + (if 1 <= ctx.version && !ctx.flexible { (array_bytes::<[u8; 16]>(m.offline_log_dirs, Ctx { version: ctx.version, flexible: ctx.flexible, classic: false }))->Ok_0 } else { Seq::<u8>::empty() }) + (if ctx.flexible { (tagged_field_bytes(m.offline_log_dirs.len() != 0, 0, array_bytes::<[u8; 16]>(m.offline_log_dirs, Ctx { version: ctx.version, flexible: true, classic: false })))->Ok_0 } else { Seq::<u8>::empty() })),
            Self::reads_back_body(m, ctx) ==> Self::spec_decode_body(pre + ((i32_bytes(m.broker_id)) + (i64_bytes(m.broker_epoch)) + (i64_bytes(m.current_metadata_offset)) + (bool_bytes(m.want_fence)) + (bool_bytes(m.want_shut_down)) + (if 1 <= ctx.version && !ctx.flexible { (array_bytes::<[u8; 16]>(m.offline_log_dirs, Ctx { version: ctx.version, flexible: ctx.flexible, classic: false }))->Ok_0 } else { Seq::<u8>::empty() }) + (if ctx.flexible { (tagged_field_bytes(m.offline_log_dirs.len() != 0, 0, array_bytes::<[u8; 16]>(m.offline_log_dirs, Ctx { version: ctx.version, flexible: true, classic: false })))->Ok_0 } else { Seq::<u8>::empty() })) + post, pre.len() as int, ctx) == Ok::<(BrokerHeartbeatRequestModel, int), SerializationError>((m, pre.len() as int + ((i32_bytes(m.broker_id)) + (i64_bytes(m.broker_epoch)) + (i64_bytes(m.current_metadata_offset)) + (bool_bytes(m.want_fence)) + (bool_bytes(m.want_shut_down)) + (if 1 <= ctx.version && !ctx.flexible { (array_bytes::<[u8; 16]>(m.offline_log_dirs, Ctx { version: ctx.version, flexible: ctx.flexible, classic: false }))->Ok_0 } else { Seq::<u8>::empty() }) + (if ctx.flexible { (tagged_field_bytes(m.offline_log_dirs.len() != 0, 0, array_bytes::<[u8; 16]>(m.offline_log_dirs, Ctx { version: ctx.version, flexible: true, classic: false })))->Ok_0 } else { Seq::<u8>::empty() })).len())),
    {
        let b0 = i32_bytes(m.broker_id);
        let b1 = i64_bytes(m.broker_epoch);
        let b2 = i64_bytes(m.current_metadata_offset);
        let b3 = bool_bytes(m.want_fence);
        let b4 = bool_bytes(m.want_shut_down);
        let b5 = if 1 <= ctx.version && !ctx.flexible { (array_bytes::<[u8; 16]>(m.offline_log_dirs, Ctx { version: ctx.version, flexible: ctx.flexible, classic: false }))->Ok_0 } else { Seq::<u8>::empty() };
        let b6 = if ctx.flexible { (tagged_field_bytes(m.offline_log_dirs.len() != 0, 0, array_bytes::<[u8; 16]>(m.offline_log_dirs, Ctx { version: ctx.version, flexible: true, classic: false })))->Ok_0 } else { Seq::<u8>::empty() };
        let e = Self::spec_encode_body(m, ctx)->Ok_0;
        let p1 = Self::spec_encode_body_part1(m, ctx)->Ok_0;
        assert(p1 =~= Seq::<u8>::empty() + b0 + b1 + b2 + b3 + b4 + b5 + b6);
        assert(e == Seq::<u8>::empty() + p1);
        assert(e =~= b0 + b1 + b2 + b3 + b4 + b5 + b6);
        if Self::reads_back_body(m, ctx) {
            Self::lemma_body_read_back(pre, m, post, ctx);
        }
    }

    /// Writes the structure for `version`, with the compact encodings when `is_flexible`.
    /// On failure the buffer is left as it was.
    pub fn encode(&self, buf: &mut Vec<u8>, version: ApiVersion, is_flexible: bool) -> (r: Result<(), SerializationError>)
        ensures
            write_exact(r, old(buf)@, final(buf)@, Self::spec_encode_body(self.deep_view(), Ctx { version: version.0, flexible: is_flexible, classic: false })),
    {
        let start = buf.len();
        let r = self.encode_ctx(buf, Ctx::new(version, is_flexible));
        if r.is_err() {
            buf.truncate(start);
        }
        r
    }

    /// Reads the structure as written for `version`.
    /// On failure the reader is put back where it started.
    #[verifier::spinoff_prover]
    pub fn decode(buf: &mut Reader, version: ApiVersion, is_flexible: bool) -> (r: Result<Self, SerializationError>)
        ensures
            final(buf).bytes() == old(buf).bytes(),
            read_view_exact(r, Self::spec_decode_body(old(buf).bytes(), old(buf).pos(), Ctx { version: version.0, flexible: is_flexible, classic: false }), old(buf).pos(), final(buf).pos()),
    {
        let start = buf.position();
        let r = Self::decode_ctx(buf, Ctx::new(version, is_flexible));
        if r.is_err() {
            buf.set_position(start);
        }
        r
    }
}

impl KafkaCodec for BrokerHeartbeatRequest {
    open spec fn spec_encode(m: BrokerHeartbeatRequestModel, ctx: Ctx) -> Result<Seq<u8>, SerializationError> {
        Self::spec_encode_body(m, ctx)
    }

    open spec fn spec_decode(s: Seq<u8>, pos: int, ctx: Ctx) -> Result<(BrokerHeartbeatRequestModel, int), SerializationError> {
        Self::spec_decode_body(s, pos, ctx)
    }

    open spec fn reads_back(v: BrokerHeartbeatRequestModel, ctx: Ctx) -> bool {
        Self::reads_back_body(v, ctx)
    }

    proof fn lemma_read_back(pre: Seq<u8>, v: BrokerHeartbeatRequestModel, post: Seq<u8>, ctx: Ctx) {
        Self::lemma_body_read_back(pre, v, post, ctx);
        assert(Self::spec_decode(pre + Self::spec_encode(v, ctx)->Ok_0 + post, pre.len() as int, ctx)
            == Self::spec_decode_body(pre + Self::spec_encode_body(v, ctx)->Ok_0 + post, pre.len() as int, ctx));
    }

    #[verifier::spinoff_prover]
    fn encode_ctx(&self, buf: &mut Vec<u8>, ctx: Ctx) -> (r: Result<(), SerializationError>) {
        let ghost mut w: Seq<u8> = Seq::empty();
        self.encode_body_part1(buf, ctx)?;
        proof {
            w = w + (Self::spec_encode_body_part1(self.deep_view(), ctx))->Ok_0;
        }
        assert(buf@ =~= old(buf)@ + w);
        Ok(())
    }

    #[verifier::spinoff_prover]
    fn decode_ctx(buf: &mut Reader, ctx: Ctx) -> (r: Result<Self, SerializationError>) {
        let broker_id = buf.get_i32()?;
        let broker_epoch = buf.get_i64()?;
        let current_metadata_offset = buf.get_i64()?;
        let want_fence = buf.get_bool()?;
        let want_shut_down = buf.get_bool()?;
        let mut offline_log_dirs = if 1 <= ctx.version && !ctx.flexible {
            decode_array::<[u8; 16]>(buf, Ctx { version: ctx.version, flexible: ctx.flexible, classic: false })?
        } else {
            new_array::<[u8; 16]>()
        };
        if ctx.flexible {
            let (tag_count, _) = decode_unsigned_varint(buf)?;
            offline_log_dirs = Self::read_tags(buf, tag_count, ctx.version, offline_log_dirs)?;
        }
        Ok(BrokerHeartbeatRequest { broker_id, broker_epoch, current_metadata_offset, want_fence, want_shut_down, offline_log_dirs })
    }
}

impl BrokerHeartbeatRequest {
    /// The API key of this message.
    pub fn get_api_key() -> (r: ApiKey)
        ensures
            r.0 == 63,
    {
        ApiKey::new(63)
    }

    /// The oldest version of this message.
    pub fn get_min_supported_version() -> (r: ApiVersion)
        ensures
            r.0 == 0,
    {
        ApiVersion::new(0)
    }

    /// The newest version of this message.
    pub fn get_max_supported_version() -> (r: ApiVersion)
        ensures
            r.0 == 1,
    {
        ApiVersion::new(1)
    }

    /// The first version of this message with the compact encodings.
    pub fn get_min_flexible_version() -> (r: ApiVersion)
        ensures
            r.0 == 0,
    {
        ApiVersion::new(0)
    }

    /// Fields 1 to 7 of the encoding.
    pub open spec fn spec_serialize_part1(m: BrokerHeartbeatRequestModel, ctx: Ctx) -> Result<Seq<u8>, SerializationError> {
        let r = Ok(Seq::<u8>::empty());
        let r = then(r, Ok(i32_bytes(m.broker_id)));
        let r = then(r, Ok(i64_bytes(m.broker_epoch)));
        let r = then(r, Ok(i64_bytes(m.current_metadata_offset)));
        let r = then(r, Ok(bool_bytes(m.want_fence)));
        let r = then(r, Ok(bool_bytes(m.want_shut_down)));
        let r = if 1 <= ctx.version && !ctx.flexible { then(r, array_bytes::<[u8; 16]>(m.offline_log_dirs, Ctx { version: ctx.version, flexible: ctx.flexible, classic: false })) } else if !(1 <= ctx.version) && m.offline_log_dirs.len() != 0 { then(r, Err(SerializationError::Encode("field 'OfflineLogDirs' is not available in this version"))) } else { r };
        let r = if ctx.flexible { then(r, tagged_field_bytes(m.offline_log_dirs.len() != 0, 0, array_bytes::<[u8; 16]>(m.offline_log_dirs, Ctx { version: ctx.version, flexible: true, classic: false }))) } else { r };
        r
    }

    #[verifier::spinoff_prover]
    #[verifier::rlimit(100)]
    fn serialize_part1(&self, buf: &mut Vec<u8>, ctx: Ctx) -> (r: Result<(), SerializationError>)
        ensures
            write_ok(r, old(buf)@, final(buf)@, Self::spec_serialize_part1(self.deep_view(), ctx)),
    {
        let ghost mut w: Seq<u8> = Seq::empty();
        put_i32(buf, self.broker_id);
        proof {
            w = w + i32_bytes(self.broker_id);
        }
        assert(buf@ =~= old(buf)@ + w);
        put_i64(buf, self.broker_epoch);
        proof {
            w = w + i64_bytes(self.broker_epoch);
        }
        assert(buf@ =~= old(buf)@ + w);
        put_i64(buf, self.current_metadata_offset);
        proof {
            w = w + i64_bytes(self.current_metadata_offset);
        }
        assert(buf@ =~= old(buf)@ + w);
        put_bool(buf, self.want_fence);
        proof {
            w = w + bool_bytes(self.want_fence);
        }
        assert(buf@ =~= old(buf)@ + w);
        put_bool(buf, self.want_shut_down);
        proof {
            w = w + bool_bytes(self.want_shut_down);
        }
        assert(buf@ =~= old(buf)@ + w);
        if 1 <= ctx.version && !ctx.flexible {
            encode_array(&self.offline_log_dirs, buf, Ctx { version: ctx.version, flexible: ctx.flexible, classic: false })?;
            proof {
                w = w + (array_bytes::<[u8; 16]>(self.offline_log_dirs.deep_view(), Ctx { version: ctx.version, flexible: ctx.flexible, classic: false }))->Ok_0;
            }
            assert(buf@ =~= old(buf)@ + w);
        } else if !(1 <= ctx.version) && self.offline_log_dirs.len() != 0 {
            return Err(SerializationError::Encode("field 'OfflineLogDirs' is not available in this version"));
        }
        if ctx.flexible {
            let tag_count: u64 = if self.offline_log_dirs.len() != 0 { 1 } else { 0 };
            encode_unsigned_varint(tag_count, buf);
            if self.offline_log_dirs.len() != 0 {
                encode_unsigned_varint(0, buf);
                let mut tmp: Vec<u8> = Vec::new();
                encode_array(&self.offline_log_dirs, &mut tmp, Ctx { version: ctx.version, flexible: true, classic: false })?;
                encode_unsigned_varint(tmp.len() as u64, buf);
                put_slice(buf, tmp.as_slice());
            }
            proof {
                w = w + (tagged_field_bytes(self.offline_log_dirs.deep_view().len() != 0, 0, array_bytes::<[u8; 16]>(self.offline_log_dirs.deep_view(), Ctx { version: ctx.version, flexible: true, classic: false })))->Ok_0;
            }
            assert(buf@ =~= old(buf)@ + w);
        }
        Ok(())
    }

    /// The encoding of a whole message body at `version`.
    pub open spec fn spec_serialize(m: BrokerHeartbeatRequestModel, version: i16) -> Result<Seq<u8>, SerializationError> {
        let is_flexible = version >= 0;
        let ctx = Ctx { version, flexible: is_flexible, classic: false };
        let r = Ok(Seq::<u8>::empty());
        let r = then(r, Self::spec_serialize_part1(m, ctx));
        r
    }

    /// The message body read at `version`.
    pub open spec fn spec_deserialize(s: Seq<u8>, pos: int, version: i16) -> Result<(BrokerHeartbeatRequestModel, int), SerializationError> {
        let is_flexible = version >= 0;
        let ctx = Ctx { version, flexible: is_flexible, classic: false };
        match parse_i32(s, pos) {
            Err(e) => Err(e),
            Ok((broker_id, pos)) =>
            match parse_i64(s, pos) {
                Err(e) => Err(e),
                Ok((broker_epoch, pos)) =>
                match parse_i64(s, pos) {
                    Err(e) => Err(e),
                    Ok((current_metadata_offset, pos)) =>
                    match parse_bool(s, pos) {
                        Err(e) => Err(e),
                        Ok((want_fence, pos)) =>
                        match parse_bool(s, pos) {
                            Err(e) => Err(e),
                            Ok((want_shut_down, pos)) =>
                            match (if 1 <= ctx.version && !ctx.flexible { parse_array::<[u8; 16]>(s, pos, Ctx { version: ctx.version, flexible: ctx.flexible, classic: false }) } else { Ok((Seq::<<[u8; 16] as DeepView>::V>::empty(), pos)) }) {
                                Err(e) => Err(e),
                                Ok((offline_log_dirs, pos)) =>
                                match (if ctx.flexible { match parse_uvarint(s, pos) { Err(e) => Err(e), Ok((n, p)) => Self::spec_read_tags(s, p, n as nat, ctx.version, offline_log_dirs) } } else { Ok((offline_log_dirs, pos)) }) {
                                    Err(e) => Err(e),
                                    Ok((offline_log_dirs, pos)) =>
                                    Ok((BrokerHeartbeatRequestModel { broker_id, broker_epoch, current_metadata_offset, want_fence, want_shut_down, offline_log_dirs }, pos))
                                }
                            }
                        }
                    }
                }
            }
        }
    }

    /// Message bodies that read back when written at `version`: every field that
    /// the version leaves out holds its default, and nested values read back.
    pub open spec fn reads_back_message(m: BrokerHeartbeatRequestModel, version: i16) -> bool {
        let is_flexible = version >= 0;
        let ctx = Ctx { version, flexible: is_flexible, classic: false };
        &&& (1 <= ctx.version && !ctx.flexible) ==> forall|i: int| 0 <= i < m.offline_log_dirs.len() ==> #[trigger] <[u8; 16] as KafkaCodec>::reads_back(m.offline_log_dirs[i], Ctx { version: ctx.version, flexible: ctx.flexible, classic: false })
        &&& !(1 <= ctx.version && !ctx.flexible) && !ctx.flexible ==> m.offline_log_dirs == Seq::<<[u8; 16] as DeepView>::V>::empty()
        &&& ctx.flexible ==> forall|i: int| 0 <= i < m.offline_log_dirs.len() ==> #[trigger] <[u8; 16] as KafkaCodec>::reads_back(m.offline_log_dirs[i], Ctx { version: ctx.version, flexible: true, classic: false })
    }

    /// A message body that can be written at `version` and reads back: reading a
    /// body at `version` from its bytes, wherever they stand, gives the same message.
    #[verifier::spinoff_prover]
    #[verifier::rlimit(100)]
    pub proof fn lemma_message_read_back(pre: Seq<u8>, m: BrokerHeartbeatRequestModel, post: Seq<u8>, version: i16)
        requires
            Self::spec_serialize(m, version) is Ok,
            Self::reads_back_message(m, version),
        ensures
            Self::spec_deserialize(pre + Self::spec_serialize(m, version)->Ok_0 + post, pre.len() as int, version) == Ok::<(BrokerHeartbeatRequestModel, int), SerializationError>((m, pre.len() as int + Self::spec_serialize(m, version)->Ok_0.len())),
    {
        let is_flexible = version >= 0;
        let ctx = Ctx { version, flexible: is_flexible, classic: false };
        let b0 = i32_bytes(m.broker_id);
        let b1 = i64_bytes(m.broker_epoch);
        let b2 = i64_bytes(m.current_metadata_offset);
        let b3 = bool_bytes(m.want_fence);
        let b4 = bool_bytes(m.want_shut_down);
        let b5 = if 1 <= ctx.version && !ctx.flexible { (array_bytes::<[u8; 16]>(m.offline_log_dirs, Ctx { version: ctx.version, flexible: ctx.flexible, classic: false }))->Ok_0 } else { Seq::<u8>::empty() };
        let b6 = if ctx.flexible { (tagged_field_bytes(m.offline_log_dirs.len() != 0, 0, array_bytes::<[u8; 16]>(m.offline_log_dirs, Ctx { version: ctx.version, flexible: true, classic: false })))->Ok_0 } else { Seq::<u8>::empty() };
        let t7 = post;
        let t6 = b6 + t7;
        let t5 = b5 + t6;
        let t4 = b4 + t5;
        let t3 = b3 + t4;
        let t2 = b2 + t3;
        let t1 = b1 + t2;
        let t0 = b0 + t1;
        let e = Self::spec_serialize(m, version)->Ok_0;
        let p1 = Self::spec_serialize_part1(m, ctx)->Ok_0;
        assert(p1 =~= Seq::<u8>::empty() + b0 + b1 + b2 + b3 + b4 + b5 + b6);
        lemma_seq_assoc(((((((Seq::<u8>::empty() + b0) + b1) + b2) + b3) + b4) + b5), b6, t7);
        lemma_seq_assoc((((((Seq::<u8>::empty() + b0) + b1) + b2) + b3) + b4), b5, (b6 + t7));
        lemma_seq_assoc(((((Seq::<u8>::empty() + b0) + b1) + b2) + b3), b4, (b5 + (b6 + t7)));
        lemma_seq_assoc((((Seq::<u8>::empty() + b0) + b1) + b2), b3, (b4 + (b5 + (b6 + t7))));
        lemma_seq_assoc(((Seq::<u8>::empty() + b0) + b1), b2, (b3 + (b4 + (b5 + (b6 + t7)))));
        lemma_seq_assoc((Seq::<u8>::empty() + b0), b1, (b2 + (b3 + (b4 + (b5 + (b6 + t7))))));
        lemma_seq_assoc(Seq::<u8>::empty(), b0, (b1 + (b2 + (b3 + (b4 + (b5 + (b6 + t7)))))));
        lemma_seq_empty_left((b0 + (b1 + (b2 + (b3 + (b4 + (b5 + (b6 + t7))))))));
        assert(e == Seq::<u8>::empty() + p1);
        lemma_seq_assoc(Seq::<u8>::empty(), p1, t7);
        lemma_seq_empty_left((p1 + t7));
        let s = pre + e + post;
        lemma_seq_assoc(pre, e, post);
        assert(s == pre + t0);
        let a0 = pre;
        assert(parse_i32(s, a0.len() as int) == Ok::<(i32, int), SerializationError>((m.broker_id, a0.len() as int + b0.len()))) by {
            lemma_seq_assoc(a0, b0, t1);
            lemma_i32_roundtrip(a0, m.broker_id, t1);
        }
        lemma_seq_assoc(a0, b0, t1);
        let a1 = a0 + b0;
        assert(parse_i64(s, a1.len() as int) == Ok::<(i64, int), SerializationError>((m.broker_epoch, a1.len() as int + b1.len()))) by {
            lemma_seq_assoc(a1, b1, t2);
            lemma_i64_roundtrip(a1, m.broker_epoch, t2);
        }
        lemma_seq_assoc(a1, b1, t2);
        let a2 = a1 + b1;
        assert(parse_i64(s, a2.len() as int) == Ok::<(i64, int), SerializationError>((m.current_metadata_offset, a2.len() as int + b2.len()))) by {
            lemma_seq_assoc(a2, b2, t3);
            lemma_i64_roundtrip(a2, m.current_metadata_offset, t3);
        }
        lemma_seq_assoc(a2, b2, t3);
        let a3 = a2 + b2;
        assert(parse_bool(s, a3.len() as int) == Ok::<(bool, int), SerializationError>((m.want_fence, a3.len() as int + b3.len()))) by {
            lemma_seq_assoc(a3, b3, t4);
            lemma_bool_roundtrip(a3, m.want_fence, t4);
        }
        lemma_seq_assoc(a3, b3, t4);
        let a4 = a3 + b3;
        assert(parse_bool(s, a4.len() as int) == Ok::<(bool, int), SerializationError>((m.want_shut_down, a4.len() as int + b4.len()))) by {
            lemma_seq_assoc(a4, b4, t5);
            lemma_bool_roundtrip(a4, m.want_shut_down, t5);
        }
        lemma_seq_assoc(a4, b4, t5);
        let a5 = a4 + b4;
        if 1 <= ctx.version && !ctx.flexible {
            assert(parse_array::<[u8; 16]>(s, a5.len() as int, Ctx { version: ctx.version, flexible: ctx.flexible, classic: false }) == Ok::<(Seq<<[u8; 16] as DeepView>::V>, int), SerializationError>((m.offline_log_dirs, a5.len() as int + b5.len()))) by {
                assert(array_bytes::<[u8; 16]>(m.offline_log_dirs, Ctx { version: ctx.version, flexible: ctx.flexible, classic: false }) is Ok);
                lemma_seq_assoc(a5, b5, t6);
                lemma_items_read_back::<[u8; 16]>(m.offline_log_dirs, Ctx { version: ctx.version, flexible: ctx.flexible, classic: false });
                lemma_array_roundtrip::<[u8; 16]>(a5, m.offline_log_dirs, t6, Ctx { version: ctx.version, flexible: ctx.flexible, classic: false });
            }
        }
        lemma_seq_assoc(a5, b5, t6);
        let a6 = a5 + b5;
        if ctx.flexible {
            if m.offline_log_dirs.len() != 0 {
                let x = (array_bytes::<[u8; 16]>(m.offline_log_dirs, Ctx { version: ctx.version, flexible: true, classic: false }))->Ok_0;
                let u1 = uvarint_bytes(1);
                let ut = uvarint_bytes(0);
                let ul = uvarint_bytes(x.len() as u64);
                assert(b6 == u1 + ut + ul + x);
                let q1 = a6 + u1;
                let q2 = q1 + ut;
                let q3 = q2 + ul;
                assert(parse_uvarint(s, a6.len() as int) == Ok::<(u64, int), SerializationError>((1u64, a6.len() as int + 1))) by {
                    assert(s =~= a6 + u1 + (ut + ul + x + t7));
                    lemma_uvarint_roundtrip(a6, 1, ut + ul + x + t7);
                }
                assert(parse_uvarint(s, q1.len() as int) == Ok::<(u64, int), SerializationError>((0u64, q1.len() as int + ut.len()))) by {
                    assert(s =~= q1 + ut + (ul + x + t7));
                    lemma_uvarint_roundtrip(q1, 0, ul + x + t7);
                }
                assert(parse_uvarint(s, q2.len() as int) == Ok::<(u64, int), SerializationError>(((x.len() as u64), q2.len() as int + ul.len()))) by {
                    assert(s =~= q2 + ul + (x + t7));
                    lemma_uvarint_roundtrip(q2, x.len() as u64, x + t7);
                }
                assert(parse_array::<[u8; 16]>(s, q3.len() as int, Ctx { version: ctx.version, flexible: true, classic: false }) == Ok::<(Seq<<[u8; 16] as DeepView>::V>, int), SerializationError>((m.offline_log_dirs, q3.len() as int + x.len()))) by {
                    assert(array_bytes::<[u8; 16]>(m.offline_log_dirs, Ctx { version: ctx.version, flexible: true, classic: false }) is Ok);
                    assert(s =~= q3 + x + t7);
                    lemma_items_read_back::<[u8; 16]>(m.offline_log_dirs, Ctx { version: ctx.version, flexible: true, classic: false });
                    lemma_array_roundtrip::<[u8; 16]>(q3, m.offline_log_dirs, t7, Ctx { version: ctx.version, flexible: true, classic: false });
                }
                let end = q3.len() as int + x.len();
                assert(Self::spec_read_tags(s, end, 0nat, ctx.version, m.offline_log_dirs) == Ok::<(Seq<<[u8; 16] as DeepView>::V>, int), SerializationError>((m.offline_log_dirs, end)));
                assert(Self::spec_read_tags(s, a6.len() as int + 1, 1nat, ctx.version, Seq::<<[u8; 16] as DeepView>::V>::empty()) == Ok::<(Seq<<[u8; 16] as DeepView>::V>, int), SerializationError>((m.offline_log_dirs, end)));
            } else {
                assert(b6 == uvarint_bytes(0));
                assert(parse_uvarint(s, a6.len() as int) == Ok::<(u64, int), SerializationError>((0u64, a6.len() as int + 1))) by {
                    lemma_seq_assoc(a6, b6, t7);
                    lemma_uvarint_roundtrip(a6, 0, t7);
                }
                assert(m.offline_log_dirs =~= Seq::<<[u8; 16] as DeepView>::V>::empty());
                assert(Self::spec_read_tags(s, a6.len() as int + 1, 0nat, ctx.version, Seq::<<[u8; 16] as DeepView>::V>::empty()) == Ok::<(Seq<<[u8; 16] as DeepView>::V>, int), SerializationError>((Seq::<<[u8; 16] as DeepView>::V>::empty(), a6.len() as int + 1)));
            }
        }
    }

    /// The bytes written: the encoding of each field, in the order of the
    /// protocol's layout. Reading them back, wherever they stand, gives the value,
    /// with each field that the version leaves out at its default.
    #[verifier::spinoff_prover]
    pub proof fn lemma_message_layout(pre: Seq<u8>, m: BrokerHeartbeatRequestModel, post: Seq<u8>, version: i16)
        requires
            Self::spec_serialize(m, version) is Ok,
        ensures
            Self::spec_serialize(m, version) == Ok::<Seq<u8>, SerializationError>((i32_bytes(m.broker_id)) + (i64_bytes(m.broker_epoch)) + (i64_bytes(m.current_metadata_offset)) + (bool_bytes(m.want_fence)) + (bool_bytes(m.want_shut_down)) + (if 1 <= version && !(version >= 0) { (array_bytes::<[u8; 16]>(m.offline_log_dirs, Ctx { version: version, flexible: (version >= 0), classic: false }))->Ok_0 } else { Seq::<u8>::empty() }) + (if (version >= 0) { (tagged_field_bytes(m.offline_log_dirs.len() != 0, 0, array_bytes::<[u8; 16]>(m.offline_log_dirs, Ctx { version: version, flexible: true, classic: false })))->Ok_0 } else { Seq::<u8>::empty() })),
            Self::reads_back_message(m, version) ==> Self::spec_deserialize(pre + ((i32_bytes(m.broker_id)) + (i64_bytes(m.broker_epoch)) + (i64_bytes(m.current_metadata_offset)) + (bool_bytes(m.want_fence)) + (bool_bytes(m.want_shut_down)) + (if 1 <= version && !(version >= 0) { (array_bytes::<[u8; 16]>(m.offline_log_dirs, Ctx { version: version, flexible: (version >= 0), classic: false }))->Ok_0 } else { Seq::<u8>::empty() }) + (if (version >= 0) { (tagged_field_bytes(m.offline_log_dirs.len() != 0, 0, array_bytes::<[u8; 16]>(m.offline_log_dirs, Ctx { version: version, flexible: true, classic: false })))->Ok_0 } else { Seq::<u8>::empty() })) + post, pre.len() as int, version) == Ok::<(BrokerHeartbeatRequestModel, int), SerializationError>((m, pre.len() as int + ((i32_bytes(m.broker_id)) + (i64_bytes(m.broker_epoch)) + (i64_bytes(m.current_metadata_offset)) + (bool_bytes(m.want_fence)) + (bool_bytes(m.want_shut_down)) + (if 1 <= version && !(version >= 0) { (array_bytes::<[u8; 16]>(m.offline_log_dirs, Ctx { version: version, flexible: (version >= 0), classic: false }))->Ok_0 } else { Seq::<u8>::empty() }) + (if (version >= 0) { (tagged_field_bytes(m.offline_log_dirs.len() != 0, 0, array_bytes::<[u8; 16]>(m.offline_log_dirs, Ctx { version: version, flexible: true, classic: false })))->Ok_0 } else { Seq::<u8>::empty() })).len())),
    {
        let is_flexible = version >= 0;
        let ctx = Ctx { version, flexible: is_flexible, classic: false };
        let b0 = i32_bytes(m.broker_id);
        let b1 = i64_bytes(m.broker_epoch);
        let b2 = i64_bytes(m.current_metadata_offset);
        let b3 = bool_bytes(m.want_fence);
        let b4 = bool_bytes(m.want_shut_down);
        let b5 = if 1 <= ctx.version && !ctx.flexible { (array_bytes::<[u8; 16]>(m.offline_log_dirs, Ctx { version: ctx.version, flexible: ctx.flexible, classic: false }))->Ok_0 } else { Seq::<u8>::empty() };
        let b6 = if ctx.flexible { (tagged_field_bytes(m.offline_log_dirs.len() != 0, 0, array_bytes::<[u8; 16]>(m.offline_log_dirs, Ctx { version: ctx.version, flexible: true, classic: false })))->Ok_0 } else { Seq::<u8>::empty() };
        let e = Self::spec_serialize(m, version)->Ok_0;
        let p1 = Self::spec_serialize_part1(m, ctx)->Ok_0;
        assert(p1 =~= Seq::<u8>::empty() + b0 + b1 + b2 + b3 + b4 + b5 + b6);
        assert(e == Seq::<u8>::empty() + p1);
        assert(e =~= b0 + b1 + b2 + b3 + b4 + b5 + b6);
        if Self::reads_back_message(m, version) {
            Self::lemma_message_read_back(pre, m, post, version);
        }
    }

    /// Writes the message body for `version`, which must be a supported version.
    /// On failure the buffer is left as it was.
    pub fn serialize(&self, version: ApiVersion, buf: &mut Vec<u8>) -> (r: Result<(), SerializationError>)
        requires
            0 <= version.0 <= 1,
        ensures
            write_exact(r, old(buf)@, final(buf)@, Self::spec_serialize(self.deep_view(), version.0)),
    {
        let start = buf.len();
        let r = self.write_body(version, buf);
        if r.is_err() {
            buf.truncate(start);
        }
        r
    }

    #[verifier::spinoff_prover]
    fn write_body(&self, version: ApiVersion, buf: &mut Vec<u8>) -> (r: Result<(), SerializationError>)
        requires
            0 <= version.0 <= 1,
        ensures
            write_ok(r, old(buf)@, final(buf)@, Self::spec_serialize(self.deep_view(), version.0)),
    {
        let is_flexible = version.0 >= Self::get_min_flexible_version().0;
        let ctx = Ctx::new(version, is_flexible);
        let ghost mut w: Seq<u8> = Seq::empty();
        self.serialize_part1(buf, ctx)?;
        proof {
            w = w + (Self::spec_serialize_part1(self.deep_view(), ctx))->Ok_0;
        }
        assert(buf@ =~= old(buf)@ + w);
        Ok(())
    }

    /// Reads a message body written for `version`.
    /// On failure the reader is put back where it started.
    #[verifier::spinoff_prover]
    pub fn deserialize(version: ApiVersion, buf: &mut Reader) -> (r: Result<Self, SerializationError>)
        ensures
            final(buf).bytes() == old(buf).bytes(),
            read_view_exact(r, Self::spec_deserialize(old(buf).bytes(), old(buf).pos(), version.0), old(buf).pos(), final(buf).pos()),
    {
        let start = buf.position();
        let r = Self::read_body(version, buf);
        if r.is_err() {
            buf.set_position(start);
        }
        r
    }

    fn read_body(version: ApiVersion, buf: &mut Reader) -> (r: Result<Self, SerializationError>)
        ensures
            final(buf).bytes() == old(buf).bytes(),
            read_view_ok(r, Self::spec_deserialize(old(buf).bytes(), old(buf).pos(), version.0), final(buf).pos()),
    {
        let is_flexible = version.0 >= Self::get_min_flexible_version().0;
        let ctx = Ctx::new(version, is_flexible);
        let broker_id = buf.get_i32()?;
        let broker_epoch = buf.get_i64()?;
        let current_metadata_offset = buf.get_i64()?;
        let want_fence = buf.get_bool()?;
        let want_shut_down = buf.get_bool()?;
        let mut offline_log_dirs = if 1 <= ctx.version && !ctx.flexible {
            decode_array::<[u8; 16]>(buf, Ctx { version: ctx.version, flexible: ctx.flexible, classic: false })?
        } else {
            new_array::<[u8; 16]>()
        };
        if ctx.flexible {
            let (tag_count, _) = decode_unsigned_varint(buf)?;
            offline_log_dirs = Self::read_tags(buf, tag_count, ctx.version, offline_log_dirs)?;
        }
        Ok(BrokerHeartbeatRequest { broker_id, broker_epoch, current_metadata_offset, want_fence, want_shut_down, offline_log_dirs })
    }
}

} // verus!
