//! ConsumerProtocolAssignment.
use indexmap::IndexMap;
use vstd::prelude::*;
use crate::ordered_map::{decode_entry, decode_map_len, encode_entry, encode_map_len,
    entries_bytes, entries_read_back, entries_view, entry_bytes, insert_entry, key_index,
    keys_distinct, lemma_insert_entry_view, lemma_keys_distinct_view, lemma_map_roundtrip,
    lemma_map_step, lemma_parse_entries_err, map_bytes, parse_entries, parse_map};
use crate::roundtrip::{lemma_array_roundtrip, lemma_items_read_back,
    lemma_nullable_bytes_roundtrip, lemma_seq_assoc, lemma_seq_empty_left,
    lemma_uvarint_roundtrip};
use crate::serialization::{Ctx, KafkaCodec, MAX_LEN32, Reader, SerializationError, array_bytes,
    decode_array, decode_unsigned_varint, encode_array, encode_nullable_bytes,
    encode_unsigned_varint, len32_bytes, nullable_bytes_bytes, opt_bytes_view, parse_array,
    parse_nullable_bytes, parse_uvarint, read_view_exact, then, uvarint_bytes, write_exact,
    write_ok};
use crate::ApiVersion;

verus! {

// -------------------------------------------------------
// Maps from string keys to `TopicPartition`
// -------------------------------------------------------

/// The entries of a map of `TopicPartition` values, in order, each key by its characters.
pub uninterp spec fn topic_partition_map_entries(m: IndexMap<String, TopicPartition>) -> Seq<(Seq<char>, TopicPartition)>;

/// The entries of a map of `TopicPartition` values, each value by its contents.
pub open spec fn topic_partition_map_view(m: IndexMap<String, TopicPartition>) -> Seq<(Seq<char>, TopicPartitionModel)> {
    entries_view(topic_partition_map_entries(m))
}

/// Calls `IndexMap::new`, which returns a map without entries.
#[verifier::external_body]
fn topic_partition_map_new() -> (r: IndexMap<String, TopicPartition>)
    ensures
        topic_partition_map_entries(r) == Seq::<(Seq<char>, TopicPartition)>::empty(),
{
    IndexMap::new()
}

/// Calls `IndexMap::len`, which returns the number of entries.
#[verifier::external_body]
fn topic_partition_map_len(m: &IndexMap<String, TopicPartition>) -> (r: usize)
    ensures
        r == topic_partition_map_entries(*m).len(),
{
    m.len()
}

/// Calls `IndexMap::get_index`, which returns the entry at position `i`
/// in insertion order, or nothing when `i` is not below the length; the
/// key of that entry is the key of no other entry of the map.
#[verifier::external_body]
fn topic_partition_map_get_index(m: &IndexMap<String, TopicPartition>, i: usize) -> (r: Option<(&String, &TopicPartition)>)
    ensures
        r is Some <==> i < topic_partition_map_entries(*m).len(),
        r matches Some(kv) ==> kv.0@ == topic_partition_map_entries(*m)[i as int].0,
        r matches Some(kv) ==> *kv.1 == topic_partition_map_entries(*m)[i as int].1,
        r matches Some(kv) ==> forall|j: int| 0 <= j < topic_partition_map_entries(*m).len() && j != i ==> #[trigger] topic_partition_map_entries(*m)[j].0 != kv.0@,
{
    m.get_index(i)
}

/// Calls `IndexMap::insert`: a key already present keeps its place and
/// takes the new value, and the old value is returned; a new key is
/// added last, and nothing is returned.
#[verifier::external_body]
fn topic_partition_map_insert(m: &mut IndexMap<String, TopicPartition>, k: String, v: TopicPartition) -> (r: Option<TopicPartition>)
    ensures
        topic_partition_map_entries(*final(m)) == insert_entry(topic_partition_map_entries(*old(m)), k@, v),
        r == (match key_index(topic_partition_map_entries(*old(m)), k@) {
            Some(i) => Some(topic_partition_map_entries(*old(m))[i].1),
            None => None::<TopicPartition>,
        }),
{
    m.insert(k, v)
}

/// The number of entries of a map of `TopicPartition` values; its keys are distinct.
pub fn topic_partition_map_entry_count(m: &IndexMap<String, TopicPartition>) -> (r: usize)
    ensures
        r == topic_partition_map_view(*m).len(),
        keys_distinct(topic_partition_map_view(*m)),
{
    let n = topic_partition_map_len(m);
    let mut i: usize = 0;
    while i < n
        invariant
            n == topic_partition_map_entries(*m).len(),
            i <= n,
            forall|a: int, b: int| 0 <= a < b < n && a < i ==> #[trigger] topic_partition_map_entries(*m)[a].0 != #[trigger] topic_partition_map_entries(*m)[b].0,
        decreases n - i,
    {
        let e = topic_partition_map_get_index(m, i);
        assert(e is Some);
        i = i + 1;
    }
    proof {
        lemma_keys_distinct_view(topic_partition_map_entries(*m));
    }
    n
}

/// Writes a map of `TopicPartition` values: its number of entries, then each key and value.
pub fn encode_topic_partition_map(m: &IndexMap<String, TopicPartition>, buf: &mut Vec<u8>, ctx: Ctx) -> (r: Result<(), SerializationError>)
    ensures
        write_ok(r, old(buf)@, final(buf)@, map_bytes::<String, TopicPartition>(topic_partition_map_view(*m), ctx)),
        keys_distinct(topic_partition_map_view(*m)),
{
    let ghost es = topic_partition_map_view(*m);
    let n = topic_partition_map_entry_count(m);
    encode_map_len(n, buf, ctx)?;
    let ghost head = old(buf)@ + len32_bytes(n as nat, ctx.flexible);
    let ghost mut written: Seq<u8> = Seq::empty();
    assert(es.take(0) =~= Seq::<(Seq<char>, TopicPartitionModel)>::empty());
    assert(buf@ =~= head + written);
    let mut i: usize = 0;
    while i < n
        invariant
            es == topic_partition_map_view(*m),
            n == es.len(),
            keys_distinct(es),
            n <= MAX_LEN32,
            i <= n,
            head == old(buf)@ + len32_bytes(n as nat, ctx.flexible),
            buf@ =~= head + written,
            entries_bytes::<String, TopicPartition>(es.take(i as int), ctx) == Ok::<Seq<u8>, SerializationError>(written),
        decreases n - i,
    {
        let ghost before = buf@;
        if let Some((k, v)) = topic_partition_map_get_index(m, i) {
            assert(es[i as int] == (k.deep_view(), v.deep_view()));
            let res = encode_entry(k, v, buf, ctx);
            proof {
                lemma_map_step::<String, TopicPartition>(es, i as int, ctx, res);
            }
            match res {
                Ok(()) => {
                    proof {
                        written = written + entry_bytes::<String, TopicPartition>(es[i as int].0, es[i as int].1, ctx)->Ok_0;
                    }
                },
                Err(e) => {
                    assert(buf@.subrange(0, old(buf)@.len() as int) =~= before.subrange(0, old(buf)@.len() as int));
                    return Err(e);
                },
            }
        }
        i = i + 1;
    }
    assert(es.take(n as int) =~= es);
    Ok(())
}

/// Reads `n` entries of a map of `TopicPartition` values, inserting each in turn.
fn decode_topic_partition_map_entries(buf: &mut Reader, n: u64, ctx: Ctx) -> (r: Result<IndexMap<String, TopicPartition>, SerializationError>)
    ensures
        final(buf).bytes() == old(buf).bytes(),
        match parse_entries::<String, TopicPartition>(old(buf).bytes(), old(buf).pos(), n as nat, ctx) {
            Ok((es, p)) => r matches Ok(m) && topic_partition_map_view(m) == es && final(buf).pos() == p,
            Err(e) => r == Err::<IndexMap<String, TopicPartition>, SerializationError>(e),
        },
{
    let ghost s = buf.bytes();
    let ghost p0 = buf.pos();
    let mut m = topic_partition_map_new();
    assert(topic_partition_map_view(m) =~= Seq::<(Seq<char>, TopicPartitionModel)>::empty());
    let mut i: u64 = 0;
    while i < n
        invariant
            buf.bytes() == s,
            s == old(buf).bytes(),
            p0 == old(buf).pos(),
            i <= n,
            parse_entries::<String, TopicPartition>(s, p0, i as nat, ctx) == Ok::<(Seq<(Seq<char>, TopicPartitionModel)>, int), SerializationError>((topic_partition_map_view(m), buf.pos())),
        decreases n - i,
    {
        match decode_entry::<String, TopicPartition>(buf, ctx) {
            Ok((k, v)) => {
                proof {
                    lemma_insert_entry_view(topic_partition_map_entries(m), k@, v);
                }
                topic_partition_map_insert(&mut m, k, v);
            },
            Err(e) => {
                proof {
                    lemma_parse_entries_err::<String, TopicPartition>(s, p0, (i + 1) as nat, n as nat, ctx, e);
                }
                return Err(e);
            },
        }
        i = i + 1;
    }
    Ok(m)
}

/// Reads a map of `TopicPartition` values; a null length is invalid.
pub fn decode_topic_partition_map(buf: &mut Reader, ctx: Ctx) -> (r: Result<IndexMap<String, TopicPartition>, SerializationError>)
    ensures
        final(buf).bytes() == old(buf).bytes(),
        match parse_map::<String, TopicPartition>(old(buf).bytes(), old(buf).pos(), ctx) {
            Ok((es, p)) => r matches Ok(m) && topic_partition_map_view(m) == es && final(buf).pos() == p,
            Err(e) => r == Err::<IndexMap<String, TopicPartition>, SerializationError>(e),
        },
{
    let n = decode_map_len(buf, ctx)?;
    decode_topic_partition_map_entries(buf, n, ctx)
}

// -------------------------------------------------------
// ConsumerProtocolAssignment
// -------------------------------------------------------
#[derive(Clone, Debug, Default, PartialEq)]
pub struct ConsumerProtocolAssignment {
    /// The list of topics and partitions assigned to this consumer.
    /// IndexMap key `Topic` (string): The topic name.
    pub assigned_partitions: IndexMap<String, TopicPartition>,
    /// User data.
    pub user_data: Option<Vec<u8>>,
}

/// The contents of `ConsumerProtocolAssignment`, with strings as characters and
/// nested values by their contents.
pub struct ConsumerProtocolAssignmentModel {
    pub assigned_partitions: Seq<(Seq<char>, TopicPartitionModel)>,
    pub user_data: Option<Seq<u8>>,
}

impl DeepView for ConsumerProtocolAssignment {
    type V = ConsumerProtocolAssignmentModel;

    open spec fn deep_view(&self) -> ConsumerProtocolAssignmentModel {
        ConsumerProtocolAssignmentModel {
            assigned_partitions: topic_partition_map_view(self.assigned_partitions),
            user_data: opt_bytes_view(&self.user_data),
        }
    }
}

impl ConsumerProtocolAssignment {
    /// The encoding of the structure in context `ctx`.
    pub open spec fn spec_encode_body(m: ConsumerProtocolAssignmentModel, ctx: Ctx) -> Result<Seq<u8>, SerializationError> {
        let r = Ok(Seq::<u8>::empty());
        let r = then(r, map_bytes::<String, TopicPartition>(m.assigned_partitions, Ctx { version: ctx.version, flexible: ctx.flexible, classic: false }));
        let r = then(r, nullable_bytes_bytes(m.user_data, ctx.flexible));
        let r = if ctx.flexible { then(r, Ok(uvarint_bytes(0))) } else { r };
        r
    }

    /// The structure read from `s` at `pos` in context `ctx`.
    pub open spec fn spec_decode_body(s: Seq<u8>, pos: int, ctx: Ctx) -> Result<(ConsumerProtocolAssignmentModel, int), SerializationError> {
        match parse_map::<String, TopicPartition>(s, pos, Ctx { version: ctx.version, flexible: ctx.flexible, classic: false }) {
            Err(e) => Err(e),
            Ok((assigned_partitions, pos)) =>
            match parse_nullable_bytes(s, pos, ctx.flexible) {
                Err(e) => Err(e),
                Ok((user_data, pos)) =>
                match (if ctx.flexible { parse_uvarint(s, pos) } else { Ok((0u64, pos)) }) {
                    Err(e) => Err(e),
                    Ok((_tag_count, pos)) =>
                    Ok((ConsumerProtocolAssignmentModel { assigned_partitions, user_data }, pos))
                }
            }
        }
    }

    /// Values of the structure that read back from their encoding in `ctx`: every
    /// field that the version leaves out holds its default, and nested values
    /// read back.
    pub open spec fn reads_back_body(m: ConsumerProtocolAssignmentModel, ctx: Ctx) -> bool {
        &&& (keys_distinct(m.assigned_partitions) && entries_read_back::<String, TopicPartition>(m.assigned_partitions, Ctx { version: ctx.version, flexible: ctx.flexible, classic: false }))
    }

    /// A value that can be written in `ctx` and reads back: decoding its encoding,
    /// wherever it stands, gives the value and the position just after it.
    #[verifier::spinoff_prover]
    pub proof fn lemma_body_read_back(pre: Seq<u8>, m: ConsumerProtocolAssignmentModel, post: Seq<u8>, ctx: Ctx)
        requires
            Self::spec_encode_body(m, ctx) is Ok,
            Self::reads_back_body(m, ctx),
        ensures
            Self::spec_decode_body(pre + Self::spec_encode_body(m, ctx)->Ok_0 + post, pre.len() as int, ctx) == Ok::<(ConsumerProtocolAssignmentModel, int), SerializationError>((m, pre.len() as int + Self::spec_encode_body(m, ctx)->Ok_0.len())),
    {
        let b0 = (map_bytes::<String, TopicPartition>(m.assigned_partitions, Ctx { version: ctx.version, flexible: ctx.flexible, classic: false }))->Ok_0;
        let b1 = (nullable_bytes_bytes(m.user_data, ctx.flexible))->Ok_0;
        let b2 = if ctx.flexible { uvarint_bytes(0) } else { Seq::<u8>::empty() };
        let t3 = post;
        let t2 = b2 + t3;
        let t1 = b1 + t2;
        let t0 = b0 + t1;
        let e = Self::spec_encode_body(m, ctx)->Ok_0;
        assert(e =~= Seq::<u8>::empty() + b0 + b1 + b2);
        lemma_seq_assoc(((Seq::<u8>::empty() + b0) + b1), b2, post);
        lemma_seq_assoc((Seq::<u8>::empty() + b0), b1, (b2 + post));
        lemma_seq_assoc(Seq::<u8>::empty(), b0, (b1 + (b2 + post)));
        lemma_seq_empty_left((b0 + (b1 + (b2 + post))));
        let s = pre + e + post;
        lemma_seq_assoc(pre, e, post);
        assert(s == pre + t0);
        let a0 = pre;
        assert(parse_map::<String, TopicPartition>(s, a0.len() as int, Ctx { version: ctx.version, flexible: ctx.flexible, classic: false }) == Ok::<(Seq<(Seq<char>, TopicPartitionModel)>, int), SerializationError>((m.assigned_partitions, a0.len() as int + b0.len()))) by {
            assert(map_bytes::<String, TopicPartition>(m.assigned_partitions, Ctx { version: ctx.version, flexible: ctx.flexible, classic: false }) is Ok);
            lemma_seq_assoc(a0, b0, t1);
            lemma_map_roundtrip::<String, TopicPartition>(a0, m.assigned_partitions, t1, Ctx { version: ctx.version, flexible: ctx.flexible, classic: false });
        }
        lemma_seq_assoc(a0, b0, t1);
        let a1 = a0 + b0;
        assert(parse_nullable_bytes(s, a1.len() as int, ctx.flexible) == Ok::<(Option<Seq<u8>>, int), SerializationError>((m.user_data, a1.len() as int + b1.len()))) by {
            assert(nullable_bytes_bytes(m.user_data, ctx.flexible) is Ok);
            lemma_seq_assoc(a1, b1, t2);
            lemma_nullable_bytes_roundtrip(a1, m.user_data, t2, ctx.flexible);
        }
        lemma_seq_assoc(a1, b1, t2);
        let a2 = a1 + b1;
        if ctx.flexible {
            assert(parse_uvarint(s, a2.len() as int) == Ok::<(u64, int), SerializationError>((0u64, a2.len() as int + b2.len()))) by {
                lemma_seq_assoc(a2, b2, t3);
                lemma_uvarint_roundtrip(a2, 0, t3);
            }
        }
    }

    /// The bytes written: the encoding of each field, in the order of the
    /// protocol's layout. Reading them back, wherever they stand, gives the value,
    /// with each field that the version leaves out at its default.
    #[verifier::spinoff_prover]
    pub proof fn lemma_body_layout(pre: Seq<u8>, m: ConsumerProtocolAssignmentModel, post: Seq<u8>, ctx: Ctx)
        requires
            Self::spec_encode_body(m, ctx) is Ok,
        ensures
            Self::spec_encode_body(m, ctx) == Ok::<Seq<u8>, SerializationError>(((map_bytes::<String, TopicPartition>(m.assigned_partitions, Ctx { version: ctx.version, flexible: ctx.flexible, classic: false }))->Ok_0) + ((nullable_bytes_bytes(m.user_data, ctx.flexible))->Ok_0) + (if ctx.flexible { uvarint_bytes(0) } else { Seq::<u8>::empty() })),
            Self::reads_back_body(m, ctx) ==> Self::spec_decode_body(pre + (((map_bytes::<String, TopicPartition>(m.assigned_partitions, Ctx { version: ctx.version, flexible: ctx.flexible, classic: false }))->Ok_0) + ((nullable_bytes_bytes(m.user_data, ctx.flexible))->Ok_0) + (if ctx.flexible { uvarint_bytes(0) } else { Seq::<u8>::empty() })) + post, pre.len() as int, ctx) == Ok::<(ConsumerProtocolAssignmentModel, int), SerializationError>((m, pre.len() as int + (((map_bytes::<String, TopicPartition>(m.assigned_partitions, Ctx { version: ctx.version, flexible: ctx.flexible, classic: false }))->Ok_0) + ((nullable_bytes_bytes(m.user_data, ctx.flexible))->Ok_0) + (if ctx.flexible { uvarint_bytes(0) } else { Seq::<u8>::empty() })).len())),
    {
        let b0 = (map_bytes::<String, TopicPartition>(m.assigned_partitions, Ctx { version: ctx.version, flexible: ctx.flexible, classic: false }))->Ok_0;
        let b1 = (nullable_bytes_bytes(m.user_data, ctx.flexible))->Ok_0;
        let b2 = if ctx.flexible { uvarint_bytes(0) } else { Seq::<u8>::empty() };
        let e = Self::spec_encode_body(m, ctx)->Ok_0;
        assert(e =~= Seq::<u8>::empty() + b0 + b1 + b2);
        assert(e =~= b0 + b1 + b2);
        if Self::reads_back_body(m, ctx) {
            Self::lemma_body_read_back(pre, m, post, ctx);
        }
    }

    /// Writing succeeds exactly when every field that the version carries can be
    /// encoded and every field that it leaves out, where leaving it out is an
    /// error, holds its default.
    #[verifier::spinoff_prover]
    pub proof fn lemma_body_write_succeeds(m: ConsumerProtocolAssignmentModel, ctx: Ctx)
        ensures
            Self::spec_encode_body(m, ctx) is Ok <==> (map_bytes::<String, TopicPartition>(m.assigned_partitions, Ctx { version: ctx.version, flexible: ctx.flexible, classic: false }) is Ok) && (nullable_bytes_bytes(m.user_data, ctx.flexible) is Ok),
    {
    }

    /// Writes the structure for `version`, with the compact encodings when `is_flexible`.
    /// On failure the buffer is left as it was.
    pub fn encode(&self, buf: &mut Vec<u8>, version: ApiVersion, is_flexible: bool) -> (r: Result<(), SerializationError>)
        ensures
            write_exact(r, old(buf)@, final(buf)@, Self::spec_encode_body(self.deep_view(), Ctx { version: version.0, flexible: is_flexible, classic: false })),
    {
        let start = buf.len();
        let r = self.encode_ctx(buf, Ctx::new(version, is_flexible));
        if r.is_err() {
            buf.truncate(start);
        }
        r
    }

    /// Reads the structure as written for `version`.
    /// On failure the reader is put back where it started.
    pub fn decode(buf: &mut Reader, version: ApiVersion, is_flexible: bool) -> (r: Result<Self, SerializationError>)
        ensures
            final(buf).bytes() == old(buf).bytes(),
            read_view_exact(r, Self::spec_decode_body(old(buf).bytes(), old(buf).pos(), Ctx { version: version.0, flexible: is_flexible, classic: false }), old(buf).pos(), final(buf).pos()),
    {
        let start = buf.position();
        let r = Self::decode_ctx(buf, Ctx::new(version, is_flexible));
        if r.is_err() {
            buf.set_position(start);
        }
        r
    }
}

impl KafkaCodec for ConsumerProtocolAssignment {
    open spec fn spec_encode(m: ConsumerProtocolAssignmentModel, ctx: Ctx) -> Result<Seq<u8>, SerializationError> {
        Self::spec_encode_body(m, ctx)
    }

    open spec fn spec_decode(s: Seq<u8>, pos: int, ctx: Ctx) -> Result<(ConsumerProtocolAssignmentModel, int), SerializationError> {
        Self::spec_decode_body(s, pos, ctx)
    }

    open spec fn reads_back(v: ConsumerProtocolAssignmentModel, ctx: Ctx) -> bool {
        Self::reads_back_body(v, ctx)
    }

    proof fn lemma_read_back(pre: Seq<u8>, v: ConsumerProtocolAssignmentModel, post: Seq<u8>, ctx: Ctx) {
        Self::lemma_body_read_back(pre, v, post, ctx);
        assert(Self::spec_decode(pre + Self::spec_encode(v, ctx)->Ok_0 + post, pre.len() as int, ctx)
            == Self::spec_decode_body(pre + Self::spec_encode_body(v, ctx)->Ok_0 + post, pre.len() as int, ctx));
    }

    fn encode_ctx(&self, buf: &mut Vec<u8>, ctx: Ctx) -> (r: Result<(), SerializationError>) {
        let ghost mut w: Seq<u8> = Seq::empty();
        encode_topic_partition_map(&self.assigned_partitions, buf, Ctx { version: ctx.version, flexible: ctx.flexible, classic: false })?;
        proof {
            w = w + (map_bytes::<String, TopicPartition>(topic_partition_map_view(self.assigned_partitions), Ctx { version: ctx.version, flexible: ctx.flexible, classic: false }))->Ok_0;
        }
        assert(buf@ =~= old(buf)@ + w);
        encode_nullable_bytes(&self.user_data, buf, ctx.flexible)?;
        proof {
            w = w + (nullable_bytes_bytes(opt_bytes_view(&self.user_data), ctx.flexible))->Ok_0;
        }
        assert(buf@ =~= old(buf)@ + w);
        if ctx.flexible {
            encode_unsigned_varint(0, buf);
            proof {
                w = w + uvarint_bytes(0);
            }
            assert(buf@ =~= old(buf)@ + w);
        }
        Ok(())
    }

    fn decode_ctx(buf: &mut Reader, ctx: Ctx) -> (r: Result<Self, SerializationError>) {
        let assigned_partitions = decode_topic_partition_map(buf, Ctx { version: ctx.version, flexible: ctx.flexible, classic: false })?;
        let user_data = buf.get_nullable_bytes(ctx.flexible)?;
        if ctx.flexible {
            let (_tag_count, _) = decode_unsigned_varint(buf)?;
        }
        Ok(ConsumerProtocolAssignment { assigned_partitions, user_data })
    }
}

// -------------------------------------------------------
// TopicPartition
// -------------------------------------------------------
#[derive(Clone, Debug, Default, PartialEq)]
pub struct TopicPartition {
    /// The list of partitions assigned to this consumer.
    pub partitions: Vec<i32>,
}

/// The contents of `TopicPartition`, with strings as characters and
/// nested values by their contents.
pub struct TopicPartitionModel {
    pub partitions: Seq<<i32 as DeepView>::V>,
}

impl DeepView for TopicPartition {
    type V = TopicPartitionModel;

    open spec fn deep_view(&self) -> TopicPartitionModel {
        TopicPartitionModel {
            partitions: self.partitions.deep_view(),
        }
    }
}

impl TopicPartition {
    /// The encoding of the structure in context `ctx`.
    pub open spec fn spec_encode_body(m: TopicPartitionModel, ctx: Ctx) -> Result<Seq<u8>, SerializationError> {
        let r = Ok(Seq::<u8>::empty());
        let r = then(r, array_bytes::<i32>(m.partitions, Ctx { version: ctx.version, flexible: ctx.flexible, classic: false }));
        let r = if ctx.flexible { then(r, Ok(uvarint_bytes(0))) } else { r };
        r
    }

    /// The structure read from `s` at `pos` in context `ctx`.
    pub open spec fn spec_decode_body(s: Seq<u8>, pos: int, ctx: Ctx) -> Result<(TopicPartitionModel, int), SerializationError> {
        match parse_array::<i32>(s, pos, Ctx { version: ctx.version, flexible: ctx.flexible, classic: false }) {
            Err(e) => Err(e),
            Ok((partitions, pos)) =>
            match (if ctx.flexible { parse_uvarint(s, pos) } else { Ok((0u64, pos)) }) {
                Err(e) => Err(e),
                Ok((_tag_count, pos)) =>
                Ok((TopicPartitionModel { partitions }, pos))
            }
        }
    }

    /// Values of the structure that read back from their encoding in `ctx`: every
    /// field that the version leaves out holds its default, and nested values
    /// read back.
    pub open spec fn reads_back_body(m: TopicPartitionModel, ctx: Ctx) -> bool {
        &&& forall|i: int| 0 <= i < m.partitions.len() ==> #[trigger] <i32 as KafkaCodec>::reads_back(m.partitions[i], Ctx { version: ctx.version, flexible: ctx.flexible, classic: false })
    }

    /// A value that can be written in `ctx` and reads back: decoding its encoding,
    /// wherever it stands, gives the value and the position just after it.
    #[verifier::spinoff_prover]
    pub proof fn lemma_body_read_back(pre: Seq<u8>, m: TopicPartitionModel, post: Seq<u8>, ctx: Ctx)
        requires
            Self::spec_encode_body(m, ctx) is Ok,
            Self::reads_back_body(m, ctx),
        ensures
            Self::spec_decode_body(pre + Self::spec_encode_body(m, ctx)->Ok_0 + post, pre.len() as int, ctx) == Ok::<(TopicPartitionModel, int), SerializationError>((m, pre.len() as int + Self::spec_encode_body(m, ctx)->Ok_0.len())),
    {
        let b0 = (array_bytes::<i32>(m.partitions, Ctx { version: ctx.version, flexible: ctx.flexible, classic: false }))->Ok_0;
        let b1 = if ctx.flexible { uvarint_bytes(0) } else { Seq::<u8>::empty() };
        let t2 = post;
        let t1 = b1 + t2;
        let t0 = b0 + t1;
        let e = Self::spec_encode_body(m, ctx)->Ok_0;
        assert(e =~= Seq::<u8>::empty() + b0 + b1);
        lemma_seq_assoc((Seq::<u8>::empty() + b0), b1, post);
        lemma_seq_assoc(Seq::<u8>::empty(), b0, (b1 + post));
        lemma_seq_empty_left((b0 + (b1 + post)));
        let s = pre + e + post;
        lemma_seq_assoc(pre, e, post);
        assert(s == pre + t0);
        let a0 = pre;
        assert(parse_array::<i32>(s, a0.len() as int, Ctx { version: ctx.version, flexible: ctx.flexible, classic: false }) == Ok::<(Seq<<i32 as DeepView>::V>, int), SerializationError>((m.partitions, a0.len() as int + b0.len()))) by {
            assert(array_bytes::<i32>(m.partitions, Ctx { version: ctx.version, flexible: ctx.flexible, classic: false }) is Ok);
            lemma_seq_assoc(a0, b0, t1);
            lemma_items_read_back::<i32>(m.partitions, Ctx { version: ctx.version, flexible: ctx.flexible, classic: false });
            lemma_array_roundtrip::<i32>(a0, m.partitions, t1, Ctx { version: ctx.version, flexible: ctx.flexible, classic: false });
        }
        lemma_seq_assoc(a0, b0, t1);
        let a1 = a0 + b0;
        if ctx.flexible {
            assert(parse_uvarint(s, a1.len() as int) == Ok::<(u64, int), SerializationError>((0u64, a1.len() as int + b1.len()))) by {
                lemma_seq_assoc(a1, b1, t2);
                lemma_uvarint_roundtrip(a1, 0, t2);
            }
        }
    }

    /// The bytes written: the encoding of each field, in the order of the
    /// protocol's layout. Reading them back, wherever they stand, gives the value,
    /// with each field that the version leaves out at its default.
    #[verifier::spinoff_prover]
    pub proof fn lemma_body_layout(pre: Seq<u8>, m: TopicPartitionModel, post: Seq<u8>, ctx: Ctx)
        requires
            Self::spec_encode_body(m, ctx) is Ok,
        ensures
            Self::spec_encode_body(m, ctx) == Ok::<Seq<u8>, SerializationError>(((array_bytes::<i32>(m.partitions, Ctx { version: ctx.version, flexible: ctx.flexible, classic: false }))->Ok_0) + (if ctx.flexible { uvarint_bytes(0) } else { Seq::<u8>::empty() })),
            Self::reads_back_body(m, ctx) ==> Self::spec_decode_body(pre + (((array_bytes::<i32>(m.partitions, Ctx { version: ctx.version, flexible: ctx.flexible, classic: false }))->Ok_0) + (if ctx.flexible { uvarint_bytes(0) } else { Seq::<u8>::empty() })) + post, pre.len() as int, ctx) == Ok::<(TopicPartitionModel, int), SerializationError>((m, pre.len() as int + (((array_bytes::<i32>(m.partitions, Ctx { version: ctx.version, flexible: ctx.flexible, classic: false }))->Ok_0) + (if ctx.flexible { uvarint_bytes(0) } else { Seq::<u8>::empty() })).len())),
    {
        let b0 = (array_bytes::<i32>(m.partitions, Ctx { version: ctx.version, flexible: ctx.flexible, classic: false }))->Ok_0;
        let b1 = if ctx.flexible { uvarint_bytes(0) } else { Seq::<u8>::empty() };
        let e = Self::spec_encode_body(m, ctx)->Ok_0;
        assert(e =~= Seq::<u8>::empty() + b0 + b1);
        assert(e =~= b0 + b1);
        if Self::reads_back_body(m, ctx) {
            Self::lemma_body_read_back(pre, m, post, ctx);
        }
    }

    /// Writing succeeds exactly when every field that the version carries can be
    /// encoded and every field that it leaves out, where leaving it out is an
    /// error, holds its default.
    #[verifier::spinoff_prover]
    pub proof fn lemma_body_write_succeeds(m: TopicPartitionModel, ctx: Ctx)
        ensures
            Self::spec_encode_body(m, ctx) is Ok <==> (array_bytes::<i32>(m.partitions, Ctx { version: ctx.version, flexible: ctx.flexible, classic: false }) is Ok),
    {
    }

    /// Writes the structure for `version`, with the compact encodings when `is_flexible`.
    /// On failure the buffer is left as it was.
    pub fn encode(&self, buf: &mut Vec<u8>, version: ApiVersion, is_flexible: bool) -> (r: Result<(), SerializationError>)
        ensures
            write_exact(r, old(buf)@, final(buf)@, Self::spec_encode_body(self.deep_view(), Ctx { version: version.0, flexible: is_flexible, classic: false })),
    {
        let start = buf.len();
        let r = self.encode_ctx(buf, Ctx::new(version, is_flexible));
        if r.is_err() {
            buf.truncate(start);
        }
        r
    }

    /// Reads the structure as written for `version`.
    /// On failure the reader is put back where it started.
    pub fn decode(buf: &mut Reader, version: ApiVersion, is_flexible: bool) -> (r: Result<Self, SerializationError>)
        ensures
            final(buf).bytes() == old(buf).bytes(),
            read_view_exact(r, Self::spec_decode_body(old(buf).bytes(), old(buf).pos(), Ctx { version: version.0, flexible: is_flexible, classic: false }), old(buf).pos(), final(buf).pos()),
    {
        let start = buf.position();
        let r = Self::decode_ctx(buf, Ctx::new(version, is_flexible));
        if r.is_err() {
            buf.set_position(start);
        }
        r
    }
}

impl KafkaCodec for TopicPartition {
    open spec fn spec_encode(m: TopicPartitionModel, ctx: Ctx) -> Result<Seq<u8>, SerializationError> {
        Self::spec_encode_body(m, ctx)
    }

    open spec fn spec_decode(s: Seq<u8>, pos: int, ctx: Ctx) -> Result<(TopicPartitionModel, int), SerializationError> {
        Self::spec_decode_body(s, pos, ctx)
    }

    open spec fn reads_back(v: TopicPartitionModel, ctx: Ctx) -> bool {
        Self::reads_back_body(v, ctx)
    }

    proof fn lemma_read_back(pre: Seq<u8>, v: TopicPartitionModel, post: Seq<u8>, ctx: Ctx) {
        Self::lemma_body_read_back(pre, v, post, ctx);
        assert(Self::spec_decode(pre + Self::spec_encode(v, ctx)->Ok_0 + post, pre.len() as int, ctx)
            == Self::spec_decode_body(pre + Self::spec_encode_body(v, ctx)->Ok_0 + post, pre.len() as int, ctx));
    }

    fn encode_ctx(&self, buf: &mut Vec<u8>, ctx: Ctx) -> (r: Result<(), SerializationError>) {
        let ghost mut w: Seq<u8> = Seq::empty();
        encode_array(&self.partitions, buf, Ctx { version: ctx.version, flexible: ctx.flexible, classic: false })?;
        proof {
            w = w + (array_bytes::<i32>(self.partitions.deep_view(), Ctx { version: ctx.version, flexible: ctx.flexible, classic: false }))->Ok_0;
        }
        assert(buf@ =~= old(buf)@ + w);
        if ctx.flexible {
            encode_unsigned_varint(0, buf);
            proof {
                w = w + uvarint_bytes(0);
            }
            assert(buf@ =~= old(buf)@ + w);
        }
        Ok(())
    }

    fn decode_ctx(buf: &mut Reader, ctx: Ctx) -> (r: Result<Self, SerializationError>) {
        let partitions = decode_array::<i32>(buf, Ctx { version: ctx.version, flexible: ctx.flexible, classic: false })?;
        if ctx.flexible {
            let (_tag_count, _) = decode_unsigned_varint(buf)?;
        }
        Ok(TopicPartition { partitions })
    }
}

} // verus!
