//! ElectLeadersRequest (API key 43).
use indexmap::IndexMap;
use vstd::prelude::*;
use crate::ordered_map::{decode_entry, decode_map_len, encode_entry, encode_map_len,
    encode_null_len32, entries_bytes, entries_read_back, entries_view, entry_bytes, insert_entry,
    key_index, keys_distinct, lemma_insert_entry_view, lemma_keys_distinct_view, lemma_map_step,
    lemma_nullable_map_roundtrip, lemma_parse_entries_err, map_bytes, nullable_map_bytes,
    parse_entries, parse_map, parse_nullable_map};
use crate::roundtrip::{lemma_array_roundtrip, lemma_i32_roundtrip, lemma_i8_roundtrip,
    lemma_items_read_back, lemma_seq_assoc, lemma_seq_empty_left, lemma_uvarint_roundtrip};
use crate::serialization::{Ctx, KafkaCodec, MAX_LEN32, Reader, SerializationError, array_bytes,
    decode_array, decode_unsigned_varint, encode_array, encode_unsigned_varint, i32_bytes,
    i8_bytes, len32_bytes, parse_array, parse_i32, parse_i8, parse_uvarint, put_i32, put_i8,
    read_view_exact, read_view_ok, then, uvarint_bytes, write_exact, write_ok};
use crate::{ApiKey, ApiVersion};

verus! {

// -------------------------------------------------------
// Maps from string keys to `TopicPartitions`
// -------------------------------------------------------

/// The entries of a map of `TopicPartitions` values, in order, each key by its characters.
pub uninterp spec fn topic_partitions_map_entries(m: IndexMap<String, TopicPartitions>) -> Seq<(Seq<char>, TopicPartitions)>;

/// The entries of a map of `TopicPartitions` values, each value by its contents.
pub open spec fn topic_partitions_map_view(m: IndexMap<String, TopicPartitions>) -> Seq<(Seq<char>, TopicPartitionsModel)> {
    entries_view(topic_partitions_map_entries(m))
}

/// The entries of an optional map, each value by its contents.
pub open spec fn topic_partitions_map_opt_view(m: Option<IndexMap<String, TopicPartitions>>) -> Option<Seq<(Seq<char>, TopicPartitionsModel)>> {
    match m {
        Some(x) => Some(topic_partitions_map_view(x)),
        None => None,
    }
}

/// Calls `IndexMap::new`, which returns a map without entries.
#[verifier::external_body]
fn topic_partitions_map_new() -> (r: IndexMap<String, TopicPartitions>)
    ensures
        topic_partitions_map_entries(r) == Seq::<(Seq<char>, TopicPartitions)>::empty(),
{
    IndexMap::new()
}

/// Calls `IndexMap::len`, which returns the number of entries.
#[verifier::external_body]
fn topic_partitions_map_len(m: &IndexMap<String, TopicPartitions>) -> (r: usize)
    ensures
        r == topic_partitions_map_entries(*m).len(),
{
    m.len()
}

/// Calls `IndexMap::get_index`, which returns the entry at position `i`
/// in insertion order, or nothing when `i` is not below the length; the
/// key of that entry is the key of no other entry of the map.
#[verifier::external_body]
fn topic_partitions_map_get_index(m: &IndexMap<String, TopicPartitions>, i: usize) -> (r: Option<(&String, &TopicPartitions)>)
    ensures
        r is Some <==> i < topic_partitions_map_entries(*m).len(),
        r matches Some(kv) ==> kv.0@ == topic_partitions_map_entries(*m)[i as int].0,
        r matches Some(kv) ==> *kv.1 == topic_partitions_map_entries(*m)[i as int].1,
        r matches Some(kv) ==> forall|j: int| 0 <= j < topic_partitions_map_entries(*m).len() && j != i ==> #[trigger] topic_partitions_map_entries(*m)[j].0 != kv.0@,
{
    m.get_index(i)
}

/// Calls `IndexMap::insert`: a key already present keeps its place and
/// takes the new value, and the old value is returned; a new key is
/// added last, and nothing is returned.
#[verifier::external_body]
fn topic_partitions_map_insert(m: &mut IndexMap<String, TopicPartitions>, k: String, v: TopicPartitions) -> (r: Option<TopicPartitions>)
    ensures
        topic_partitions_map_entries(*final(m)) == insert_entry(topic_partitions_map_entries(*old(m)), k@, v),
        r == (match key_index(topic_partitions_map_entries(*old(m)), k@) {
            Some(i) => Some(topic_partitions_map_entries(*old(m))[i].1),
            None => None::<TopicPartitions>,
        }),
{
    m.insert(k, v)
}

/// The number of entries of a map of `TopicPartitions` values; its keys are distinct.
pub fn topic_partitions_map_entry_count(m: &IndexMap<String, TopicPartitions>) -> (r: usize)
    ensures
        r == topic_partitions_map_view(*m).len(),
        keys_distinct(topic_partitions_map_view(*m)),
{
    let n = topic_partitions_map_len(m);
    let mut i: usize = 0;
    while i < n
        invariant
            n == topic_partitions_map_entries(*m).len(),
            i <= n,
            forall|a: int, b: int| 0 <= a < b < n && a < i ==> #[trigger] topic_partitions_map_entries(*m)[a].0 != #[trigger] topic_partitions_map_entries(*m)[b].0,
        decreases n - i,
    {
        let e = topic_partitions_map_get_index(m, i);
        assert(e is Some);
        i = i + 1;
    }
    proof {
        lemma_keys_distinct_view(topic_partitions_map_entries(*m));
    }
    n
}

/// Writes a map of `TopicPartitions` values: its number of entries, then each key and value.
pub fn encode_topic_partitions_map(m: &IndexMap<String, TopicPartitions>, buf: &mut Vec<u8>, ctx: Ctx) -> (r: Result<(), SerializationError>)
    ensures
        write_ok(r, old(buf)@, final(buf)@, map_bytes::<String, TopicPartitions>(topic_partitions_map_view(*m), ctx)),
        keys_distinct(topic_partitions_map_view(*m)),
{
    let ghost es = topic_partitions_map_view(*m);
    let n = topic_partitions_map_entry_count(m);
    encode_map_len(n, buf, ctx)?;
    let ghost head = old(buf)@ + len32_bytes(n as nat, ctx.flexible);
    let ghost mut written: Seq<u8> = Seq::empty();
    assert(es.take(0) =~= Seq::<(Seq<char>, TopicPartitionsModel)>::empty());
    assert(buf@ =~= head + written);
    let mut i: usize = 0;
    while i < n
        invariant
            es == topic_partitions_map_view(*m),
            n == es.len(),
            keys_distinct(es),
            n <= MAX_LEN32,
            i <= n,
            head == old(buf)@ + len32_bytes(n as nat, ctx.flexible),
            buf@ =~= head + written,
            entries_bytes::<String, TopicPartitions>(es.take(i as int), ctx) == Ok::<Seq<u8>, SerializationError>(written),
        decreases n - i,
    {
        let ghost before = buf@;
        if let Some((k, v)) = topic_partitions_map_get_index(m, i) {
            assert(es[i as int] == (k.deep_view(), v.deep_view()));
            let res = encode_entry(k, v, buf, ctx);
            proof {
                lemma_map_step::<String, TopicPartitions>(es, i as int, ctx, res);
            }
            match res {
                Ok(()) => {
                    proof {
                        written = written + entry_bytes::<String, TopicPartitions>(es[i as int].0, es[i as int].1, ctx)->Ok_0;
                    }
                },
                Err(e) => {
                    assert(buf@.subrange(0, old(buf)@.len() as int) =~= before.subrange(0, old(buf)@.len() as int));
                    return Err(e);
                },
            }
        }
        i = i + 1;
    }
    assert(es.take(n as int) =~= es);
    Ok(())
}

/// Reads `n` entries of a map of `TopicPartitions` values, inserting each in turn.
fn decode_topic_partitions_map_entries(buf: &mut Reader, n: u64, ctx: Ctx) -> (r: Result<IndexMap<String, TopicPartitions>, SerializationError>)
    ensures
        final(buf).bytes() == old(buf).bytes(),
        match parse_entries::<String, TopicPartitions>(old(buf).bytes(), old(buf).pos(), n as nat, ctx) {
            Ok((es, p)) => r matches Ok(m) && topic_partitions_map_view(m) == es && final(buf).pos() == p,
            Err(e) => r == Err::<IndexMap<String, TopicPartitions>, SerializationError>(e),
        },
{
    let ghost s = buf.bytes();
    let ghost p0 = buf.pos();
    let mut m = topic_partitions_map_new();
    assert(topic_partitions_map_view(m) =~= Seq::<(Seq<char>, TopicPartitionsModel)>::empty());
    let mut i: u64 = 0;
    while i < n
        invariant
            buf.bytes() == s,
            s == old(buf).bytes(),
            p0 == old(buf).pos(),
            i <= n,
            parse_entries::<String, TopicPartitions>(s, p0, i as nat, ctx) == Ok::<(Seq<(Seq<char>, TopicPartitionsModel)>, int), SerializationError>((topic_partitions_map_view(m), buf.pos())),
        decreases n - i,
    {
        match decode_entry::<String, TopicPartitions>(buf, ctx) {
            Ok((k, v)) => {
                proof {
                    lemma_insert_entry_view(topic_partitions_map_entries(m), k@, v);
                }
                topic_partitions_map_insert(&mut m, k, v);
            },
            Err(e) => {
                proof {
                    lemma_parse_entries_err::<String, TopicPartitions>(s, p0, (i + 1) as nat, n as nat, ctx, e);
                }
                return Err(e);
            },
        }
        i = i + 1;
    }
    Ok(m)
}

/// Reads a map of `TopicPartitions` values; a null length is invalid.
pub fn decode_topic_partitions_map(buf: &mut Reader, ctx: Ctx) -> (r: Result<IndexMap<String, TopicPartitions>, SerializationError>)
    ensures
        final(buf).bytes() == old(buf).bytes(),
        match parse_map::<String, TopicPartitions>(old(buf).bytes(), old(buf).pos(), ctx) {
            Ok((es, p)) => r matches Ok(m) && topic_partitions_map_view(m) == es && final(buf).pos() == p,
            Err(e) => r == Err::<IndexMap<String, TopicPartitions>, SerializationError>(e),
        },
{
    let n = decode_map_len(buf, ctx)?;
    decode_topic_partitions_map_entries(buf, n, ctx)
}

/// Writes an optional map of `TopicPartitions` values; `None` is the null length.
pub fn encode_nullable_topic_partitions_map(m: &Option<IndexMap<String, TopicPartitions>>, buf: &mut Vec<u8>, ctx: Ctx) -> (r: Result<(), SerializationError>)
    ensures
        write_ok(r, old(buf)@, final(buf)@, nullable_map_bytes::<String, TopicPartitions>(topic_partitions_map_opt_view(*m), ctx)),
{
    match m {
        None => {
            encode_null_len32(buf, ctx);
            Ok(())
        },
        Some(x) => encode_topic_partitions_map(x, buf, ctx),
    }
}

/// Reads an optional map of `TopicPartitions` values; the null length gives `None`.
pub fn decode_nullable_topic_partitions_map(buf: &mut Reader, ctx: Ctx) -> (r: Result<Option<IndexMap<String, TopicPartitions>>, SerializationError>)
    ensures
        final(buf).bytes() == old(buf).bytes(),
        match parse_nullable_map::<String, TopicPartitions>(old(buf).bytes(), old(buf).pos(), ctx) {
            Ok((es, p)) => r matches Ok(m) && topic_partitions_map_opt_view(m) == es && final(buf).pos() == p,
            Err(e) => r == Err::<Option<IndexMap<String, TopicPartitions>>, SerializationError>(e),
        },
{
    match buf.get_len32(ctx.flexible)? {
        None => Ok(None),
        Some(n) => {
            let m = decode_topic_partitions_map_entries(buf, n, ctx)?;
            Ok(Some(m))
        },
    }
}

// -------------------------------------------------------
// ElectLeadersRequest
// -------------------------------------------------------
#[derive(Clone, Debug, PartialEq)]
pub struct ElectLeadersRequest {
    /// Type of elections to conduct for the partition. A value of '0' elects the preferred replica. A value of '1' elects the first live replica if there are no in-sync replica.
    /// Available in version 1+.
    pub election_type: i8,
    /// The topic partitions to elect leaders.
    /// IndexMap key `Topic` (string): The name of a topic.
    pub topic_partitions: Option<IndexMap<String, TopicPartitions>>,
    /// The time in ms to wait for the election to complete.
    pub timeout_ms: i32,
}

/// The contents of `ElectLeadersRequest`, with strings as characters and
/// nested values by their contents.
pub struct ElectLeadersRequestModel {
    pub election_type: i8,
    pub topic_partitions: Option<Seq<(Seq<char>, TopicPartitionsModel)>>,
    pub timeout_ms: i32,
}

impl DeepView for ElectLeadersRequest {
    type V = ElectLeadersRequestModel;

    open spec fn deep_view(&self) -> ElectLeadersRequestModel {
        ElectLeadersRequestModel {
            election_type: self.election_type,
            topic_partitions: topic_partitions_map_opt_view(self.topic_partitions),
            timeout_ms: self.timeout_ms,
        }
    }
}

impl Default for ElectLeadersRequest {
    fn default() -> (r: ElectLeadersRequest)
        ensures
            r.election_type == 0i8,
            topic_partitions_map_opt_view(r.topic_partitions) is None,
            r.timeout_ms == 60000i32,
    {
        ElectLeadersRequest {
            election_type: 0i8,
            topic_partitions: None,
            timeout_ms: 60000i32,
        }
    }
}

impl ElectLeadersRequest {
    /// The encoding of the structure in context `ctx`.
    pub open spec fn spec_encode_body(m: ElectLeadersRequestModel, ctx: Ctx) -> Result<Seq<u8>, SerializationError> {
        let r = Ok(Seq::<u8>::empty());
        let r = if 1 <= ctx.version { then(r, Ok(i8_bytes(m.election_type))) } else { r };
        let r = then(r, nullable_map_bytes::<String, TopicPartitions>(m.topic_partitions, Ctx { version: ctx.version, flexible: ctx.flexible, classic: false }));
        let r = then(r, Ok(i32_bytes(m.timeout_ms)));
        let r = if ctx.flexible { then(r, Ok(uvarint_bytes(0))) } else { r };
        r
    }

    /// The structure read from `s` at `pos` in context `ctx`.
    pub open spec fn spec_decode_body(s: Seq<u8>, pos: int, ctx: Ctx) -> Result<(ElectLeadersRequestModel, int), SerializationError> {
        match (if 1 <= ctx.version { parse_i8(s, pos) } else { Ok((0i8, pos)) }) {
            Err(e) => Err(e),
            Ok((election_type, pos)) =>
            match parse_nullable_map::<String, TopicPartitions>(s, pos, Ctx { version: ctx.version, flexible: ctx.flexible, classic: false }) {
                Err(e) => Err(e),
                Ok((topic_partitions, pos)) =>
                match parse_i32(s, pos) {
                    Err(e) => Err(e),
                    Ok((timeout_ms, pos)) =>
                    match (if ctx.flexible { parse_uvarint(s, pos) } else { Ok((0u64, pos)) }) {
                        Err(e) => Err(e),
                        Ok((_tag_count, pos)) =>
                        Ok((ElectLeadersRequestModel { election_type, topic_partitions, timeout_ms }, pos))
                    }
                }
            }
        }
    }

    /// The structure as it reads back in context `ctx`: each field that the
    /// version leaves out is at its default.
    #[verifier::opaque]
    pub open spec fn spec_read_as(m: ElectLeadersRequestModel, ctx: Ctx) -> ElectLeadersRequestModel {
        ElectLeadersRequestModel { election_type: if 1 <= ctx.version { m.election_type } else { 0i8 }, topic_partitions: m.topic_partitions, timeout_ms: m.timeout_ms }
    }

    /// Values that read back in context `ctx`: nested values read back. A field
    /// that the version leaves out is read as its default.
    pub open spec fn reads_back_body(m: ElectLeadersRequestModel, ctx: Ctx) -> bool {
        &&& (m.topic_partitions matches Some(es) ==> keys_distinct(es) && entries_read_back::<String, TopicPartitions>(es, Ctx { version: ctx.version, flexible: ctx.flexible, classic: false }))
    }

    /// A value that can be written in context `ctx` and reads back: decoding its
    /// encoding, wherever it stands, gives the value as `spec_read_as` gives it and
    /// the position just after it.
    #[verifier::spinoff_prover]
    pub proof fn lemma_body_read_back(pre: Seq<u8>, m: ElectLeadersRequestModel, post: Seq<u8>, ctx: Ctx)
        requires
            Self::spec_encode_body(m, ctx) is Ok,
            Self::reads_back_body(m, ctx),
        ensures
            Self::spec_decode_body(pre + Self::spec_encode_body(m, ctx)->Ok_0 + post, pre.len() as int, ctx) == Ok::<(ElectLeadersRequestModel, int), SerializationError>((Self::spec_read_as(m, ctx), pre.len() as int + Self::spec_encode_body(m, ctx)->Ok_0.len())),
    {
        reveal(ElectLeadersRequest::spec_read_as);
        let b0 = if 1 <= ctx.version { i8_bytes(m.election_type) } else { Seq::<u8>::empty() };
        let b1 = (nullable_map_bytes::<String, TopicPartitions>(m.topic_partitions, Ctx { version: ctx.version, flexible: ctx.flexible, classic: false }))->Ok_0;
        let b2 = i32_bytes(m.timeout_ms);
        let b3 = if ctx.flexible { uvarint_bytes(0) } else { Seq::<u8>::empty() };
        let t4 = post;
        let t3 = b3 + t4;
        let t2 = b2 + t3;
        let t1 = b1 + t2;
        let t0 = b0 + t1;
        let e = Self::spec_encode_body(m, ctx)->Ok_0;
        assert(e =~= Seq::<u8>::empty() + b0 + b1 + b2 + b3);
        lemma_seq_assoc((((Seq::<u8>::empty() + b0) + b1) + b2), b3, post);
        lemma_seq_assoc(((Seq::<u8>::empty() + b0) + b1), b2, (b3 + post));
        lemma_seq_assoc((Seq::<u8>::empty() + b0), b1, (b2 + (b3 + post)));
        lemma_seq_assoc(Seq::<u8>::empty(), b0, (b1 + (b2 + (b3 + post))));
        lemma_seq_empty_left((b0 + (b1 + (b2 + (b3 + post)))));
        let s = pre + e + post;
        lemma_seq_assoc(pre, e, post);
        assert(s == pre + t0);
        let a0 = pre;
        if 1 <= ctx.version {
            assert(parse_i8(s, a0.len() as int) == Ok::<(i8, int), SerializationError>((m.election_type, a0.len() as int + b0.len()))) by {
                lemma_seq_assoc(a0, b0, t1);
                lemma_i8_roundtrip(a0, m.election_type, t1);
            }
        }
        lemma_seq_assoc(a0, b0, t1);
        let a1 = a0 + b0;
        assert(parse_nullable_map::<String, TopicPartitions>(s, a1.len() as int, Ctx { version: ctx.version, flexible: ctx.flexible, classic: false }) == Ok::<(Option<Seq<(Seq<char>, TopicPartitionsModel)>>, int), SerializationError>((m.topic_partitions, a1.len() as int + b1.len()))) by {
            assert(nullable_map_bytes::<String, TopicPartitions>(m.topic_partitions, Ctx { version: ctx.version, flexible: ctx.flexible, classic: false }) is Ok);
            lemma_seq_assoc(a1, b1, t2);
            lemma_nullable_map_roundtrip::<String, TopicPartitions>(a1, m.topic_partitions, t2, Ctx { version: ctx.version, flexible: ctx.flexible, classic: false });
        }
        lemma_seq_assoc(a1, b1, t2);
        let a2 = a1 + b1;
        assert(parse_i32(s, a2.len() as int) == Ok::<(i32, int), SerializationError>((m.timeout_ms, a2.len() as int + b2.len()))) by {
            lemma_seq_assoc(a2, b2, t3);
            lemma_i32_roundtrip(a2, m.timeout_ms, t3);
        }
        lemma_seq_assoc(a2, b2, t3);
        let a3 = a2 + b2;
        if ctx.flexible {
            assert(parse_uvarint(s, a3.len() as int) == Ok::<(u64, int), SerializationError>((0u64, a3.len() as int + b3.len()))) by {
                lemma_seq_assoc(a3, b3, t4);
                lemma_uvarint_roundtrip(a3, 0, t4);
            }
        }
    }

    /// The bytes written: the encoding of each field, in the order of the
    /// protocol's layout. Reading them back, wherever they stand, gives the value,
    /// with each field that the version leaves out at its default.
    #[verifier::spinoff_prover]
    pub proof fn lemma_body_layout(pre: Seq<u8>, m: ElectLeadersRequestModel, post: Seq<u8>, ctx: Ctx)
        requires
            Self::spec_encode_body(m, ctx) is Ok,
        ensures
            Self::spec_encode_body(m, ctx) == Ok::<Seq<u8>, SerializationError>((if 1 <= ctx.version { i8_bytes(m.election_type) } else { Seq::<u8>::empty() }) + ((nullable_map_bytes::<String, TopicPartitions>(m.topic_partitions, Ctx { version: ctx.version, flexible: ctx.flexible, classic: false }))->Ok_0) + (i32_bytes(m.timeout_ms)) + (if ctx.flexible { uvarint_bytes(0) } else { Seq::<u8>::empty() })),
            Self::reads_back_body(m, ctx) ==> Self::spec_decode_body(pre + ((if 1 <= ctx.version { i8_bytes(m.election_type) } else { Seq::<u8>::empty() }) + ((nullable_map_bytes::<String, TopicPartitions>(m.topic_partitions, Ctx { version: ctx.version, flexible: ctx.flexible, classic: false }))->Ok_0) + (i32_bytes(m.timeout_ms)) + (if ctx.flexible { uvarint_bytes(0) } else { Seq::<u8>::empty() })) + post, pre.len() as int, ctx) == Ok::<(ElectLeadersRequestModel, int), SerializationError>((ElectLeadersRequestModel { election_type: if 1 <= ctx.version { m.election_type } else { 0i8 }, topic_partitions: m.topic_partitions, timeout_ms: m.timeout_ms }, pre.len() as int + ((if 1 <= ctx.version { i8_bytes(m.election_type) } else { Seq::<u8>::empty() }) + ((nullable_map_bytes::<String, TopicPartitions>(m.topic_partitions, Ctx { version: ctx.version, flexible: ctx.flexible, classic: false }))->Ok_0) + (i32_bytes(m.timeout_ms)) + (if ctx.flexible { uvarint_bytes(0) } else { Seq::<u8>::empty() })).len())),
    {
        let b0 = if 1 <= ctx.version { i8_bytes(m.election_type) } else { Seq::<u8>::empty() };
        let b1 = (nullable_map_bytes::<String, TopicPartitions>(m.topic_partitions, Ctx { version: ctx.version, flexible: ctx.flexible, classic: false }))->Ok_0;
        let b2 = i32_bytes(m.timeout_ms);
        let b3 = if ctx.flexible { uvarint_bytes(0) } else { Seq::<u8>::empty() };
        let e = Self::spec_encode_body(m, ctx)->Ok_0;
        assert(e =~= Seq::<u8>::empty() + b0 + b1 + b2 + b3);
        assert(e =~= b0 + b1 + b2 + b3);
        if Self::reads_back_body(m, ctx) {
            Self::lemma_body_read_back(pre, m, post, ctx);
            reveal(ElectLeadersRequest::spec_read_as);
        }
    }

    /// Writing succeeds exactly when every field that the version carries can be
    /// encoded and every field that it leaves out, where leaving it out is an
    /// error, holds its default.
    #[verifier::spinoff_prover]
    pub proof fn lemma_body_write_succeeds(m: ElectLeadersRequestModel, ctx: Ctx)
        ensures
            Self::spec_encode_body(m, ctx) is Ok <==> (nullable_map_bytes::<String, TopicPartitions>(m.topic_partitions, Ctx { version: ctx.version, flexible: ctx.flexible, classic: false }) is Ok),
    {
    }

    /// Writes the structure for `version`, with the compact encodings when `is_flexible`.
    /// On failure the buffer is left as it was.
    pub fn encode(&self, buf: &mut Vec<u8>, version: ApiVersion, is_flexible: bool) -> (r: Result<(), SerializationError>)
        ensures
            write_exact(r, old(buf)@, final(buf)@, Self::spec_encode_body(self.deep_view(), Ctx { version: version.0, flexible: is_flexible, classic: false })),
    {
        let start = buf.len();
        let r = self.encode_ctx(buf, Ctx::new(version, is_flexible));
        if r.is_err() {
            buf.truncate(start);
        }
        r
    }

    /// Reads the structure as written for `version`.
    /// On failure the reader is put back where it started.
    pub fn decode(buf: &mut Reader, version: ApiVersion, is_flexible: bool) -> (r: Result<Self, SerializationError>)
        ensures
            final(buf).bytes() == old(buf).bytes(),
            read_view_exact(r, Self::spec_decode_body(old(buf).bytes(), old(buf).pos(), Ctx { version: version.0, flexible: is_flexible, classic: false }), old(buf).pos(), final(buf).pos()),
    {
        let start = buf.position();
        let r = Self::decode_ctx(buf, Ctx::new(version, is_flexible));
        if r.is_err() {
            buf.set_position(start);
        }
        r
    }
}

impl KafkaCodec for ElectLeadersRequest {
    open spec fn spec_encode(m: ElectLeadersRequestModel, ctx: Ctx) -> Result<Seq<u8>, SerializationError> {
        Self::spec_encode_body(m, ctx)
    }

    open spec fn spec_decode(s: Seq<u8>, pos: int, ctx: Ctx) -> Result<(ElectLeadersRequestModel, int), SerializationError> {
        Self::spec_decode_body(s, pos, ctx)
    }

    open spec fn reads_back(v: ElectLeadersRequestModel, ctx: Ctx) -> bool {
        Self::reads_back_body(v, ctx) && Self::spec_read_as(v, ctx) == v
    }

    proof fn lemma_read_back(pre: Seq<u8>, v: ElectLeadersRequestModel, post: Seq<u8>, ctx: Ctx) {
        Self::lemma_body_read_back(pre, v, post, ctx);
        assert(Self::spec_decode(pre + Self::spec_encode(v, ctx)->Ok_0 + post, pre.len() as int, ctx)
            == Self::spec_decode_body(pre + Self::spec_encode_body(v, ctx)->Ok_0 + post, pre.len() as int, ctx));
    }

    fn encode_ctx(&self, buf: &mut Vec<u8>, ctx: Ctx) -> (r: Result<(), SerializationError>) {
        let ghost mut w: Seq<u8> = Seq::empty();
        if 1 <= ctx.version {
            put_i8(buf, self.election_type);
            proof {
                w = w + i8_bytes(self.election_type);
            }
            assert(buf@ =~= old(buf)@ + w);
        }
        encode_nullable_topic_partitions_map(&self.topic_partitions, buf, Ctx { version: ctx.version, flexible: ctx.flexible, classic: false })?;
        proof {
            w = w + (nullable_map_bytes::<String, TopicPartitions>(topic_partitions_map_opt_view(self.topic_partitions), Ctx { version: ctx.version, flexible: ctx.flexible, classic: false }))->Ok_0;
        }
        assert(buf@ =~= old(buf)@ + w);
        put_i32(buf, self.timeout_ms);
        proof {
            w = w + i32_bytes(self.timeout_ms);
        }
        assert(buf@ =~= old(buf)@ + w);
        if ctx.flexible {
            encode_unsigned_varint(0, buf);
            proof {
                w = w + uvarint_bytes(0);
            }
            assert(buf@ =~= old(buf)@ + w);
        }
        Ok(())
    }

    fn decode_ctx(buf: &mut Reader, ctx: Ctx) -> (r: Result<Self, SerializationError>) {
        let election_type = if 1 <= ctx.version {
            buf.get_i8()?
        } else {
            0i8
        };
        let topic_partitions = decode_nullable_topic_partitions_map(buf, Ctx { version: ctx.version, flexible: ctx.flexible, classic: false })?;
        let timeout_ms = buf.get_i32()?;
        if ctx.flexible {
            let (_tag_count, _) = decode_unsigned_varint(buf)?;
        }
        Ok(ElectLeadersRequest { election_type, topic_partitions, timeout_ms })
    }
}

impl ElectLeadersRequest {
    /// The API key of this message.
    pub fn get_api_key() -> (r: ApiKey)
        ensures
            r.0 == 43,
    {
        ApiKey::new(43)
    }

    /// The oldest version of this message.
    pub fn get_min_supported_version() -> (r: ApiVersion)
        ensures
            r.0 == 0,
    {
        ApiVersion::new(0)
    }

    /// The newest version of this message.
    pub fn get_max_supported_version() -> (r: ApiVersion)
        ensures
            r.0 == 2,
    {
        ApiVersion::new(2)
    }

    /// The first version of this message with the compact encodings.
    pub fn get_min_flexible_version() -> (r: ApiVersion)
        ensures
            r.0 == 2,
    {
        ApiVersion::new(2)
    }

    /// The encoding of a whole message body at `version`.
    pub open spec fn spec_serialize(m: ElectLeadersRequestModel, version: i16) -> Result<Seq<u8>, SerializationError> {
        let is_flexible = version >= 2;
        let ctx = Ctx { version, flexible: is_flexible, classic: false };
        let r = Ok(Seq::<u8>::empty());
        let r = if 1 <= ctx.version { then(r, Ok(i8_bytes(m.election_type))) } else if m.election_type != 0 { then(r, Err(SerializationError::FieldNotAvailable { field: "ElectionType", version: ctx.version, api_name: "ElectLeadersRequest" })) } else { r };
        let r = then(r, nullable_map_bytes::<String, TopicPartitions>(m.topic_partitions, Ctx { version: ctx.version, flexible: ctx.flexible, classic: false }));
        let r = then(r, Ok(i32_bytes(m.timeout_ms)));
        let r = if ctx.flexible { then(r, Ok(uvarint_bytes(0))) } else { r };
        r
    }

    /// The message body read at `version`.
    pub open spec fn spec_deserialize(s: Seq<u8>, pos: int, version: i16) -> Result<(ElectLeadersRequestModel, int), SerializationError> {
        let is_flexible = version >= 2;
        let ctx = Ctx { version, flexible: is_flexible, classic: false };
        match (if 1 <= ctx.version { parse_i8(s, pos) } else { Ok((0i8, pos)) }) {
            Err(e) => Err(e),
            Ok((election_type, pos)) =>
            match parse_nullable_map::<String, TopicPartitions>(s, pos, Ctx { version: ctx.version, flexible: ctx.flexible, classic: false }) {
                Err(e) => Err(e),
                Ok((topic_partitions, pos)) =>
                match parse_i32(s, pos) {
                    Err(e) => Err(e),
                    Ok((timeout_ms, pos)) =>
                    match (if ctx.flexible { parse_uvarint(s, pos) } else { Ok((0u64, pos)) }) {
                        Err(e) => Err(e),
                        Ok((_tag_count, pos)) =>
                        Ok((ElectLeadersRequestModel { election_type, topic_partitions, timeout_ms }, pos))
                    }
                }
            }
        }
    }

    /// Message bodies that read back when written at `version`: nested values read
    /// back. A field that the version leaves out is read as its default.
    pub open spec fn reads_back_message(m: ElectLeadersRequestModel, version: i16) -> bool {
        let is_flexible = version >= 2;
        let ctx = Ctx { version, flexible: is_flexible, classic: false };
        &&& (m.topic_partitions matches Some(es) ==> keys_distinct(es) && entries_read_back::<String, TopicPartitions>(es, Ctx { version: ctx.version, flexible: ctx.flexible, classic: false }))
    }

    /// A message body that can be written at `version` and reads back: reading a
    /// body at `version` from its bytes, wherever they stand, gives the same message,
    /// with each field that the version leaves out at its default.
    #[verifier::spinoff_prover]
    pub proof fn lemma_message_read_back(pre: Seq<u8>, m: ElectLeadersRequestModel, post: Seq<u8>, version: i16)
        requires
            Self::spec_serialize(m, version) is Ok,
            Self::reads_back_message(m, version),
        ensures
            Self::spec_deserialize(pre + Self::spec_serialize(m, version)->Ok_0 + post, pre.len() as int, version) == Ok::<(ElectLeadersRequestModel, int), SerializationError>((ElectLeadersRequestModel { election_type: if 1 <= version { m.election_type } else { 0i8 }, topic_partitions: m.topic_partitions, timeout_ms: m.timeout_ms }, pre.len() as int + Self::spec_serialize(m, version)->Ok_0.len())),
    {
        let is_flexible = version >= 2;
        let ctx = Ctx { version, flexible: is_flexible, classic: false };
        let b0 = if 1 <= ctx.version { i8_bytes(m.election_type) } else { Seq::<u8>::empty() };
        let b1 = (nullable_map_bytes::<String, TopicPartitions>(m.topic_partitions, Ctx { version: ctx.version, flexible: ctx.flexible, classic: false }))->Ok_0;
        let b2 = i32_bytes(m.timeout_ms);
        let b3 = if ctx.flexible { uvarint_bytes(0) } else { Seq::<u8>::empty() };
        let t4 = post;
        let t3 = b3 + t4;
        let t2 = b2 + t3;
        let t1 = b1 + t2;
        let t0 = b0 + t1;
        let e = Self::spec_serialize(m, version)->Ok_0;
        assert(e =~= Seq::<u8>::empty() + b0 + b1 + b2 + b3);
        lemma_seq_assoc((((Seq::<u8>::empty() + b0) + b1) + b2), b3, post);
        lemma_seq_assoc(((Seq::<u8>::empty() + b0) + b1), b2, (b3 + post));
        lemma_seq_assoc((Seq::<u8>::empty() + b0), b1, (b2 + (b3 + post)));
        lemma_seq_assoc(Seq::<u8>::empty(), b0, (b1 + (b2 + (b3 + post))));
        lemma_seq_empty_left((b0 + (b1 + (b2 + (b3 + post)))));
        let s = pre + e + post;
        lemma_seq_assoc(pre, e, post);
        assert(s == pre + t0);
        let a0 = pre;
        if 1 <= ctx.version {
            assert(parse_i8(s, a0.len() as int) == Ok::<(i8, int), SerializationError>((m.election_type, a0.len() as int + b0.len()))) by {
                lemma_seq_assoc(a0, b0, t1);
                lemma_i8_roundtrip(a0, m.election_type, t1);
            }
        }
        lemma_seq_assoc(a0, b0, t1);
        let a1 = a0 + b0;
        assert(parse_nullable_map::<String, TopicPartitions>(s, a1.len() as int, Ctx { version: ctx.version, flexible: ctx.flexible, classic: false }) == Ok::<(Option<Seq<(Seq<char>, TopicPartitionsModel)>>, int), SerializationError>((m.topic_partitions, a1.len() as int + b1.len()))) by {
            assert(nullable_map_bytes::<String, TopicPartitions>(m.topic_partitions, Ctx { version: ctx.version, flexible: ctx.flexible, classic: false }) is Ok);
            lemma_seq_assoc(a1, b1, t2);
            lemma_nullable_map_roundtrip::<String, TopicPartitions>(a1, m.topic_partitions, t2, Ctx { version: ctx.version, flexible: ctx.flexible, classic: false });
        }
        lemma_seq_assoc(a1, b1, t2);
        let a2 = a1 + b1;
        assert(parse_i32(s, a2.len() as int) == Ok::<(i32, int), SerializationError>((m.timeout_ms, a2.len() as int + b2.len()))) by {
            lemma_seq_assoc(a2, b2, t3);
            lemma_i32_roundtrip(a2, m.timeout_ms, t3);
        }
        lemma_seq_assoc(a2, b2, t3);
        let a3 = a2 + b2;
        if ctx.flexible {
            assert(parse_uvarint(s, a3.len() as int) == Ok::<(u64, int), SerializationError>((0u64, a3.len() as int + b3.len()))) by {
                lemma_seq_assoc(a3, b3, t4);
                lemma_uvarint_roundtrip(a3, 0, t4);
            }
        }
    }

    /// The bytes written: the encoding of each field, in the order of the
    /// protocol's layout. Reading them back, wherever they stand, gives the value,
    /// with each field that the version leaves out at its default.
    #[verifier::spinoff_prover]
    pub proof fn lemma_message_layout(pre: Seq<u8>, m: ElectLeadersRequestModel, post: Seq<u8>, version: i16)
        requires
            Self::spec_serialize(m, version) is Ok,
        ensures
            Self::spec_serialize(m, version) == Ok::<Seq<u8>, SerializationError>((if 1 <= version { i8_bytes(m.election_type) } else { Seq::<u8>::empty() }) + ((nullable_map_bytes::<String, TopicPartitions>(m.topic_partitions, Ctx { version: version, flexible: (version >= 2), classic: false }))->Ok_0) + (i32_bytes(m.timeout_ms)) + (if (version >= 2) { uvarint_bytes(0) } else { Seq::<u8>::empty() })),
            Self::reads_back_message(m, version) ==> Self::spec_deserialize(pre + ((if 1 <= version { i8_bytes(m.election_type) } else { Seq::<u8>::empty() }) + ((nullable_map_bytes::<String, TopicPartitions>(m.topic_partitions, Ctx { version: version, flexible: (version >= 2), classic: false }))->Ok_0) + (i32_bytes(m.timeout_ms)) + (if (version >= 2) { uvarint_bytes(0) } else { Seq::<u8>::empty() })) + post, pre.len() as int, version) == Ok::<(ElectLeadersRequestModel, int), SerializationError>((ElectLeadersRequestModel { election_type: if 1 <= version { m.election_type } else { 0i8 }, topic_partitions: m.topic_partitions, timeout_ms: m.timeout_ms }, pre.len() as int + ((if 1 <= version { i8_bytes(m.election_type) } else { Seq::<u8>::empty() }) + ((nullable_map_bytes::<String, TopicPartitions>(m.topic_partitions, Ctx { version: version, flexible: (version >= 2), classic: false }))->Ok_0) + (i32_bytes(m.timeout_ms)) + (if (version >= 2) { uvarint_bytes(0) } else { Seq::<u8>::empty() })).len())),
    {
        let is_flexible = version >= 2;
        let ctx = Ctx { version, flexible: is_flexible, classic: false };
        let b0 = if 1 <= ctx.version { i8_bytes(m.election_type) } else { Seq::<u8>::empty() };
        let b1 = (nullable_map_bytes::<String, TopicPartitions>(m.topic_partitions, Ctx { version: ctx.version, flexible: ctx.flexible, classic: false }))->Ok_0;
        let b2 = i32_bytes(m.timeout_ms);
        let b3 = if ctx.flexible { uvarint_bytes(0) } else { Seq::<u8>::empty() };
        let e = Self::spec_serialize(m, version)->Ok_0;
        assert(e =~= Seq::<u8>::empty() + b0 + b1 + b2 + b3);
        assert(e =~= b0 + b1 + b2 + b3);
        if Self::reads_back_message(m, version) {
            Self::lemma_message_read_back(pre, m, post, version);
        }
    }

    /// Writing succeeds exactly when every field that the version carries can be
    /// encoded and every field that it leaves out, where leaving it out is an
    /// error, holds its default.
    #[verifier::spinoff_prover]
    pub proof fn lemma_message_write_succeeds(m: ElectLeadersRequestModel, version: i16)
        ensures
            Self::spec_serialize(m, version) is Ok <==> (!(1 <= version) ==> !(m.election_type != 0)) && (nullable_map_bytes::<String, TopicPartitions>(m.topic_partitions, Ctx { version: version, flexible: (version >= 2), classic: false }) is Ok),
    {
        let is_flexible = version >= 2;
        let ctx = Ctx { version, flexible: is_flexible, classic: false };
    }

    /// Writes the message body for `version`, which must be a supported version.
    /// On failure the buffer is left as it was.
    pub fn serialize(&self, version: ApiVersion, buf: &mut Vec<u8>) -> (r: Result<(), SerializationError>)
        requires
            0 <= version.0 <= 2,
        ensures
            write_exact(r, old(buf)@, final(buf)@, Self::spec_serialize(self.deep_view(), version.0)),
    {
        let start = buf.len();
        let r = self.write_body(version, buf);
        if r.is_err() {
            buf.truncate(start);
        }
        r
    }

    fn write_body(&self, version: ApiVersion, buf: &mut Vec<u8>) -> (r: Result<(), SerializationError>)
        requires
            0 <= version.0 <= 2,
        ensures
            write_ok(r, old(buf)@, final(buf)@, Self::spec_serialize(self.deep_view(), version.0)),
    {
        let is_flexible = version.0 >= Self::get_min_flexible_version().0;
        let ctx = Ctx::new(version, is_flexible);
        let ghost mut w: Seq<u8> = Seq::empty();
        if 1 <= ctx.version {
            put_i8(buf, self.election_type);
            proof {
                w = w + i8_bytes(self.election_type);
            }
            assert(buf@ =~= old(buf)@ + w);
        } else if self.election_type != 0 {
            return Err(SerializationError::FieldNotAvailable { field: "ElectionType", version: ctx.version, api_name: "ElectLeadersRequest" });
        }
        encode_nullable_topic_partitions_map(&self.topic_partitions, buf, Ctx { version: ctx.version, flexible: ctx.flexible, classic: false })?;
        proof {
            w = w + (nullable_map_bytes::<String, TopicPartitions>(topic_partitions_map_opt_view(self.topic_partitions), Ctx { version: ctx.version, flexible: ctx.flexible, classic: false }))->Ok_0;
        }
        assert(buf@ =~= old(buf)@ + w);
        put_i32(buf, self.timeout_ms);
        proof {
            w = w + i32_bytes(self.timeout_ms);
        }
        assert(buf@ =~= old(buf)@ + w);
        if ctx.flexible {
            encode_unsigned_varint(0, buf);
            proof {
                w = w + uvarint_bytes(0);
            }
            assert(buf@ =~= old(buf)@ + w);
        }
        Ok(())
    }

    /// Reads a message body written for `version`.
    /// On failure the reader is put back where it started.
    pub fn deserialize(version: ApiVersion, buf: &mut Reader) -> (r: Result<Self, SerializationError>)
        ensures
            final(buf).bytes() == old(buf).bytes(),
            read_view_exact(r, Self::spec_deserialize(old(buf).bytes(), old(buf).pos(), version.0), old(buf).pos(), final(buf).pos()),
    {
        let start = buf.position();
        let r = Self::read_body(version, buf);
        if r.is_err() {
            buf.set_position(start);
        }
        r
    }

    fn read_body(version: ApiVersion, buf: &mut Reader) -> (r: Result<Self, SerializationError>)
        ensures
            final(buf).bytes() == old(buf).bytes(),
            read_view_ok(r, Self::spec_deserialize(old(buf).bytes(), old(buf).pos(), version.0), final(buf).pos()),
    {
        let is_flexible = version.0 >= Self::get_min_flexible_version().0;
        let ctx = Ctx::new(version, is_flexible);
        let election_type = if 1 <= ctx.version {
            buf.get_i8()?
        } else {
            0i8
        };
        let topic_partitions = decode_nullable_topic_partitions_map(buf, Ctx { version: ctx.version, flexible: ctx.flexible, classic: false })?;
        let timeout_ms = buf.get_i32()?;
        if ctx.flexible {
            let (_tag_count, _) = decode_unsigned_varint(buf)?;
        }
        Ok(ElectLeadersRequest { election_type, topic_partitions, timeout_ms })
    }
}

// -------------------------------------------------------
// TopicPartitions
// -------------------------------------------------------
#[derive(Clone, Debug, Default, PartialEq)]
pub struct TopicPartitions {
    /// The partitions of this topic whose leader should be elected.
    pub partitions: Vec<i32>,
}

/// The contents of `TopicPartitions`, with strings as characters and
/// nested values by their contents.
pub struct TopicPartitionsModel {
    pub partitions: Seq<<i32 as DeepView>::V>,
}

impl DeepView for TopicPartitions {
    type V = TopicPartitionsModel;

    open spec fn deep_view(&self) -> TopicPartitionsModel {
        TopicPartitionsModel {
            partitions: self.partitions.deep_view(),
        }
    }
}

impl TopicPartitions {
    /// The encoding of the structure in context `ctx`.
    pub open spec fn spec_encode_body(m: TopicPartitionsModel, ctx: Ctx) -> Result<Seq<u8>, SerializationError> {
        let r = Ok(Seq::<u8>::empty());
        let r = then(r, array_bytes::<i32>(m.partitions, Ctx { version: ctx.version, flexible: ctx.flexible, classic: false }));
        let r = if ctx.flexible { then(r, Ok(uvarint_bytes(0))) } else { r };
        r
    }

    /// The structure read from `s` at `pos` in context `ctx`.
    pub open spec fn spec_decode_body(s: Seq<u8>, pos: int, ctx: Ctx) -> Result<(TopicPartitionsModel, int), SerializationError> {
        match parse_array::<i32>(s, pos, Ctx { version: ctx.version, flexible: ctx.flexible, classic: false }) {
            Err(e) => Err(e),
            Ok((partitions, pos)) =>
            match (if ctx.flexible { parse_uvarint(s, pos) } else { Ok((0u64, pos)) }) {
                Err(e) => Err(e),
                Ok((_tag_count, pos)) =>
                Ok((TopicPartitionsModel { partitions }, pos))
            }
        }
    }

    /// Values of the structure that read back from their encoding in `ctx`: every
    /// field that the version leaves out holds its default, and nested values
    /// read back.
    pub open spec fn reads_back_body(m: TopicPartitionsModel, ctx: Ctx) -> bool {
        &&& forall|i: int| 0 <= i < m.partitions.len() ==> #[trigger] <i32 as KafkaCodec>::reads_back(m.partitions[i], Ctx { version: ctx.version, flexible: ctx.flexible, classic: false })
    }

    /// A value that can be written in `ctx` and reads back: decoding its encoding,
    /// wherever it stands, gives the value and the position just after it.
    #[verifier::spinoff_prover]
    pub proof fn lemma_body_read_back(pre: Seq<u8>, m: TopicPartitionsModel, post: Seq<u8>, ctx: Ctx)
        requires
            Self::spec_encode_body(m, ctx) is Ok,
            Self::reads_back_body(m, ctx),
        ensures
            Self::spec_decode_body(pre + Self::spec_encode_body(m, ctx)->Ok_0 + post, pre.len() as int, ctx) == Ok::<(TopicPartitionsModel, int), SerializationError>((m, pre.len() as int + Self::spec_encode_body(m, ctx)->Ok_0.len())),
    {
        let b0 = (array_bytes::<i32>(m.partitions, Ctx { version: ctx.version, flexible: ctx.flexible, classic: false }))->Ok_0;
        let b1 = if ctx.flexible { uvarint_bytes(0) } else { Seq::<u8>::empty() };
        let t2 = post;
        let t1 = b1 + t2;
        let t0 = b0 + t1;
        let e = Self::spec_encode_body(m, ctx)->Ok_0;
        assert(e =~= Seq::<u8>::empty() + b0 + b1);
        lemma_seq_assoc((Seq::<u8>::empty() + b0), b1, post);
        lemma_seq_assoc(Seq::<u8>::empty(), b0, (b1 + post));
        lemma_seq_empty_left((b0 + (b1 + post)));
        let s = pre + e + post;
        lemma_seq_assoc(pre, e, post);
        assert(s == pre + t0);
        let a0 = pre;
        assert(parse_array::<i32>(s, a0.len() as int, Ctx { version: ctx.version, flexible: ctx.flexible, classic: false }) == Ok::<(Seq<<i32 as DeepView>::V>, int), SerializationError>((m.partitions, a0.len() as int + b0.len()))) by {
            assert(array_bytes::<i32>(m.partitions, Ctx { version: ctx.version, flexible: ctx.flexible, classic: false }) is Ok);
            lemma_seq_assoc(a0, b0, t1);
            lemma_items_read_back::<i32>(m.partitions, Ctx { version: ctx.version, flexible: ctx.flexible, classic: false });
            lemma_array_roundtrip::<i32>(a0, m.partitions, t1, Ctx { version: ctx.version, flexible: ctx.flexible, classic: false });
        }
        lemma_seq_assoc(a0, b0, t1);
        let a1 = a0 + b0;
        if ctx.flexible {
            assert(parse_uvarint(s, a1.len() as int) == Ok::<(u64, int), SerializationError>((0u64, a1.len() as int + b1.len()))) by {
                lemma_seq_assoc(a1, b1, t2);
                lemma_uvarint_roundtrip(a1, 0, t2);
            }
        }
    }

    /// The bytes written: the encoding of each field, in the order of the
    /// protocol's layout. Reading them back, wherever they stand, gives the value,
    /// with each field that the version leaves out at its default.
    #[verifier::spinoff_prover]
    pub proof fn lemma_body_layout(pre: Seq<u8>, m: TopicPartitionsModel, post: Seq<u8>, ctx: Ctx)
        requires
            Self::spec_encode_body(m, ctx) is Ok,
        ensures
            Self::spec_encode_body(m, ctx) == Ok::<Seq<u8>, SerializationError>(((array_bytes::<i32>(m.partitions, Ctx { version: ctx.version, flexible: ctx.flexible, classic: false }))->Ok_0) + (if ctx.flexible { uvarint_bytes(0) } else { Seq::<u8>::empty() })),
            Self::reads_back_body(m, ctx) ==> Self::spec_decode_body(pre + (((array_bytes::<i32>(m.partitions, Ctx { version: ctx.version, flexible: ctx.flexible, classic: false }))->Ok_0) + (if ctx.flexible { uvarint_bytes(0) } else { Seq::<u8>::empty() })) + post, pre.len() as int, ctx) == Ok::<(TopicPartitionsModel, int), SerializationError>((m, pre.len() as int + (((array_bytes::<i32>(m.partitions, Ctx { version: ctx.version, flexible: ctx.flexible, classic: false }))->Ok_0) + (if ctx.flexible { uvarint_bytes(0) } else { Seq::<u8>::empty() })).len())),
    {
        let b0 = (array_bytes::<i32>(m.partitions, Ctx { version: ctx.version, flexible: ctx.flexible, classic: false }))->Ok_0;
        let b1 = if ctx.flexible { uvarint_bytes(0) } else { Seq::<u8>::empty() };
        let e = Self::spec_encode_body(m, ctx)->Ok_0;
        assert(e =~= Seq::<u8>::empty() + b0 + b1);
        assert(e =~= b0 + b1);
        if Self::reads_back_body(m, ctx) {
            Self::lemma_body_read_back(pre, m, post, ctx);
        }
    }

    /// Writing succeeds exactly when every field that the version carries can be
    /// encoded and every field that it leaves out, where leaving it out is an
    /// error, holds its default.
    #[verifier::spinoff_prover]
    pub proof fn lemma_body_write_succeeds(m: TopicPartitionsModel, ctx: Ctx)
        ensures
            Self::spec_encode_body(m, ctx) is Ok <==> (array_bytes::<i32>(m.partitions, Ctx { version: ctx.version, flexible: ctx.flexible, classic: false }) is Ok),
    {
    }

    /// Writes the structure for `version`, with the compact encodings when `is_flexible`.
    /// On failure the buffer is left as it was.
    pub fn encode(&self, buf: &mut Vec<u8>, version: ApiVersion, is_flexible: bool) -> (r: Result<(), SerializationError>)
        ensures
            write_exact(r, old(buf)@, final(buf)@, Self::spec_encode_body(self.deep_view(), Ctx { version: version.0, flexible: is_flexible, classic: false })),
    {
        let start = buf.len();
        let r = self.encode_ctx(buf, Ctx::new(version, is_flexible));
        if r.is_err() {
            buf.truncate(start);
        }
        r
    }

    /// Reads the structure as written for `version`.
    /// On failure the reader is put back where it started.
    pub fn decode(buf: &mut Reader, version: ApiVersion, is_flexible: bool) -> (r: Result<Self, SerializationError>)
        ensures
            final(buf).bytes() == old(buf).bytes(),
            read_view_exact(r, Self::spec_decode_body(old(buf).bytes(), old(buf).pos(), Ctx { version: version.0, flexible: is_flexible, classic: false }), old(buf).pos(), final(buf).pos()),
    {
        let start = buf.position();
        let r = Self::decode_ctx(buf, Ctx::new(version, is_flexible));
        if r.is_err() {
            buf.set_position(start);
        }
        r
    }
}

impl KafkaCodec for TopicPartitions {
    open spec fn spec_encode(m: TopicPartitionsModel, ctx: Ctx) -> Result<Seq<u8>, SerializationError> {
        Self::spec_encode_body(m, ctx)
    }

    open spec fn spec_decode(s: Seq<u8>, pos: int, ctx: Ctx) -> Result<(TopicPartitionsModel, int), SerializationError> {
        Self::spec_decode_body(s, pos, ctx)
    }

    open spec fn reads_back(v: TopicPartitionsModel, ctx: Ctx) -> bool {
        Self::reads_back_body(v, ctx)
    }

    proof fn lemma_read_back(pre: Seq<u8>, v: TopicPartitionsModel, post: Seq<u8>, ctx: Ctx) {
        Self::lemma_body_read_back(pre, v, post, ctx);
        assert(Self::spec_decode(pre + Self::spec_encode(v, ctx)->Ok_0 + post, pre.len() as int, ctx)
            == Self::spec_decode_body(pre + Self::spec_encode_body(v, ctx)->Ok_0 + post, pre.len() as int, ctx));
    }

    fn encode_ctx(&self, buf: &mut Vec<u8>, ctx: Ctx) -> (r: Result<(), SerializationError>) {
        let ghost mut w: Seq<u8> = Seq::empty();
        encode_array(&self.partitions, buf, Ctx { version: ctx.version, flexible: ctx.flexible, classic: false })?;
        proof {
            w = w + (array_bytes::<i32>(self.partitions.deep_view(), Ctx { version: ctx.version, flexible: ctx.flexible, classic: false }))->Ok_0;
        }
        assert(buf@ =~= old(buf)@ + w);
        if ctx.flexible {
            encode_unsigned_varint(0, buf);
            proof {
                w = w + uvarint_bytes(0);
            }
            assert(buf@ =~= old(buf)@ + w);
        }
        Ok(())
    }

    fn decode_ctx(buf: &mut Reader, ctx: Ctx) -> (r: Result<Self, SerializationError>) {
        let partitions = decode_array::<i32>(buf, Ctx { version: ctx.version, flexible: ctx.flexible, classic: false })?;
        if ctx.flexible {
            let (_tag_count, _) = decode_unsigned_varint(buf)?;
        }
        Ok(TopicPartitions { partitions })
    }
}

} // verus!
