//! CreateTopicsRequest (API key 19).
use indexmap::IndexMap;
use vstd::prelude::*;
use crate::ordered_map::{decode_entry, decode_map_len, encode_entry, encode_map_len,
    entries_bytes, entries_read_back, entries_view, entry_bytes, insert_entry, key_index,
    keys_distinct, lemma_insert_entry_view, lemma_keys_distinct_view, lemma_map_roundtrip,
    lemma_map_step, lemma_parse_entries_err, map_bytes, parse_entries, parse_map};
use crate::roundtrip::{lemma_array_roundtrip, lemma_bool_roundtrip, lemma_i16_roundtrip,
    lemma_i32_roundtrip, lemma_items_read_back, lemma_nullable_string_roundtrip, lemma_seq_assoc,
    lemma_seq_empty_left, lemma_uvarint_roundtrip};
use crate::serialization::{Ctx, KafkaCodec, MAX_LEN32, Reader, SerializationError, array_bytes,
    bool_bytes, decode_array, decode_unsigned_varint, encode_array, encode_nullable_string,
    encode_unsigned_varint, i16_bytes, i32_bytes, len32_bytes, nullable_string_bytes, parse_array,
    parse_bool, parse_i16, parse_i32, parse_nullable_string, parse_uvarint, put_bool, put_i16,
    put_i32, read_view_exact, read_view_ok, then, uvarint_bytes, write_exact, write_ok};
use crate::{ApiKey, ApiVersion};

verus! {

// -------------------------------------------------------
// Maps from string keys to `CreatableTopic`
// -------------------------------------------------------

/// The entries of a map of `CreatableTopic` values, in order, each key by its characters.
pub uninterp spec fn creatable_topic_map_entries(m: IndexMap<String, CreatableTopic>) -> Seq<(Seq<char>, CreatableTopic)>;

/// The entries of a map of `CreatableTopic` values, each value by its contents.
pub open spec fn creatable_topic_map_view(m: IndexMap<String, CreatableTopic>) -> Seq<(Seq<char>, CreatableTopicModel)> {
    entries_view(creatable_topic_map_entries(m))
}

/// Calls `IndexMap::new`, which returns a map without entries.
#[verifier::external_body]
fn creatable_topic_map_new() -> (r: IndexMap<String, CreatableTopic>)
    ensures
        creatable_topic_map_entries(r) == Seq::<(Seq<char>, CreatableTopic)>::empty(),
{
    IndexMap::new()
}

/// Calls `IndexMap::len`, which returns the number of entries.
#[verifier::external_body]
fn creatable_topic_map_len(m: &IndexMap<String, CreatableTopic>) -> (r: usize)
    ensures
        r == creatable_topic_map_entries(*m).len(),
{
    m.len()
}

/// Calls `IndexMap::get_index`, which returns the entry at position `i`
/// in insertion order, or nothing when `i` is not below the length; the
/// key of that entry is the key of no other entry of the map.
#[verifier::external_body]
fn creatable_topic_map_get_index(m: &IndexMap<String, CreatableTopic>, i: usize) -> (r: Option<(&String, &CreatableTopic)>)
    ensures
        r is Some <==> i < creatable_topic_map_entries(*m).len(),
        r matches Some(kv) ==> kv.0@ == creatable_topic_map_entries(*m)[i as int].0,
        r matches Some(kv) ==> *kv.1 == creatable_topic_map_entries(*m)[i as int].1,
        r matches Some(kv) ==> forall|j: int| 0 <= j < creatable_topic_map_entries(*m).len() && j != i ==> #[trigger] creatable_topic_map_entries(*m)[j].0 != kv.0@,
{
    m.get_index(i)
}

/// Calls `IndexMap::insert`: a key already present keeps its place and
/// takes the new value, and the old value is returned; a new key is
/// added last, and nothing is returned.
#[verifier::external_body]
fn creatable_topic_map_insert(m: &mut IndexMap<String, CreatableTopic>, k: String, v: CreatableTopic) -> (r: Option<CreatableTopic>)
    ensures
        creatable_topic_map_entries(*final(m)) == insert_entry(creatable_topic_map_entries(*old(m)), k@, v),
        r == (match key_index(creatable_topic_map_entries(*old(m)), k@) {
            Some(i) => Some(creatable_topic_map_entries(*old(m))[i].1),
            None => None::<CreatableTopic>,
        }),
{
    m.insert(k, v)
}

/// The number of entries of a map of `CreatableTopic` values; its keys are distinct.
pub fn creatable_topic_map_entry_count(m: &IndexMap<String, CreatableTopic>) -> (r: usize)
    ensures
        r == creatable_topic_map_view(*m).len(),
        keys_distinct(creatable_topic_map_view(*m)),
{
    let n = creatable_topic_map_len(m);
    let mut i: usize = 0;
    while i < n
        invariant
            n == creatable_topic_map_entries(*m).len(),
            i <= n,
            forall|a: int, b: int| 0 <= a < b < n && a < i ==> #[trigger] creatable_topic_map_entries(*m)[a].0 != #[trigger] creatable_topic_map_entries(*m)[b].0,
        decreases n - i,
    {
        let e = creatable_topic_map_get_index(m, i);
        assert(e is Some);
        i = i + 1;
    }
    proof {
        lemma_keys_distinct_view(creatable_topic_map_entries(*m));
    }
    n
}

/// Writes a map of `CreatableTopic` values: its number of entries, then each key and value.
pub fn encode_creatable_topic_map(m: &IndexMap<String, CreatableTopic>, buf: &mut Vec<u8>, ctx: Ctx) -> (r: Result<(), SerializationError>)
    ensures
        write_ok(r, old(buf)@, final(buf)@, map_bytes::<String, CreatableTopic>(creatable_topic_map_view(*m), ctx)),
        keys_distinct(creatable_topic_map_view(*m)),
{
    let ghost es = creatable_topic_map_view(*m);
    let n = creatable_topic_map_entry_count(m);
    encode_map_len(n, buf, ctx)?;
    let ghost head = old(buf)@ + len32_bytes(n as nat, ctx.flexible);
    let ghost mut written: Seq<u8> = Seq::empty();
    assert(es.take(0) =~= Seq::<(Seq<char>, CreatableTopicModel)>::empty());
    assert(buf@ =~= head + written);
    let mut i: usize = 0;
    while i < n
        invariant
            es == creatable_topic_map_view(*m),
            n == es.len(),
            keys_distinct(es),
            n <= MAX_LEN32,
            i <= n,
            head == old(buf)@ + len32_bytes(n as nat, ctx.flexible),
            buf@ =~= head + written,
            entries_bytes::<String, CreatableTopic>(es.take(i as int), ctx) == Ok::<Seq<u8>, SerializationError>(written),
        decreases n - i,
    {
        let ghost before = buf@;
        if let Some((k, v)) = creatable_topic_map_get_index(m, i) {
            assert(es[i as int] == (k.deep_view(), v.deep_view()));
            let res = encode_entry(k, v, buf, ctx);
            proof {
                lemma_map_step::<String, CreatableTopic>(es, i as int, ctx, res);
            }
            match res {
                Ok(()) => {
                    proof {
                        written = written + entry_bytes::<String, CreatableTopic>(es[i as int].0, es[i as int].1, ctx)->Ok_0;
                    }
                },
                Err(e) => {
                    assert(buf@.subrange(0, old(buf)@.len() as int) =~= before.subrange(0, old(buf)@.len() as int));
                    return Err(e);
                },
            }
        }
        i = i + 1;
    }
    assert(es.take(n as int) =~= es);
    Ok(())
}

/// Reads `n` entries of a map of `CreatableTopic` values, inserting each in turn.
fn decode_creatable_topic_map_entries(buf: &mut Reader, n: u64, ctx: Ctx) -> (r: Result<IndexMap<String, CreatableTopic>, SerializationError>)
    ensures
        final(buf).bytes() == old(buf).bytes(),
        match parse_entries::<String, CreatableTopic>(old(buf).bytes(), old(buf).pos(), n as nat, ctx) {
            Ok((es, p)) => r matches Ok(m) && creatable_topic_map_view(m) == es && final(buf).pos() == p,
            Err(e) => r == Err::<IndexMap<String, CreatableTopic>, SerializationError>(e),
        },
{
    let ghost s = buf.bytes();
    let ghost p0 = buf.pos();
    let mut m = creatable_topic_map_new();
    assert(creatable_topic_map_view(m) =~= Seq::<(Seq<char>, CreatableTopicModel)>::empty());
    let mut i: u64 = 0;
    while i < n
        invariant
            buf.bytes() == s,
            s == old(buf).bytes(),
            p0 == old(buf).pos(),
            i <= n,
            parse_entries::<String, CreatableTopic>(s, p0, i as nat, ctx) == Ok::<(Seq<(Seq<char>, CreatableTopicModel)>, int), SerializationError>((creatable_topic_map_view(m), buf.pos())),
        decreases n - i,
    {
        match decode_entry::<String, CreatableTopic>(buf, ctx) {
            Ok((k, v)) => {
                proof {
                    lemma_insert_entry_view(creatable_topic_map_entries(m), k@, v);
                }
                creatable_topic_map_insert(&mut m, k, v);
            },
            Err(e) => {
                proof {
                    lemma_parse_entries_err::<String, CreatableTopic>(s, p0, (i + 1) as nat, n as nat, ctx, e);
                }
                return Err(e);
            },
        }
        i = i + 1;
    }
    Ok(m)
}

/// Reads a map of `CreatableTopic` values; a null length is invalid.
pub fn decode_creatable_topic_map(buf: &mut Reader, ctx: Ctx) -> (r: Result<IndexMap<String, CreatableTopic>, SerializationError>)
    ensures
        final(buf).bytes() == old(buf).bytes(),
        match parse_map::<String, CreatableTopic>(old(buf).bytes(), old(buf).pos(), ctx) {
            Ok((es, p)) => r matches Ok(m) && creatable_topic_map_view(m) == es && final(buf).pos() == p,
            Err(e) => r == Err::<IndexMap<String, CreatableTopic>, SerializationError>(e),
        },
{
    let n = decode_map_len(buf, ctx)?;
    decode_creatable_topic_map_entries(buf, n, ctx)
}

// -------------------------------------------------------
// Maps from INT32 keys to `CreatableReplicaAssignment`
// -------------------------------------------------------

/// The entries of a map of `CreatableReplicaAssignment` values, in order, each key by its value.
pub uninterp spec fn creatable_replica_assignment_map_entries(m: IndexMap<i32, CreatableReplicaAssignment>) -> Seq<(i32, CreatableReplicaAssignment)>;

/// The entries of a map of `CreatableReplicaAssignment` values, each value by its contents.
pub open spec fn creatable_replica_assignment_map_view(m: IndexMap<i32, CreatableReplicaAssignment>) -> Seq<(i32, CreatableReplicaAssignmentModel)> {
    entries_view(creatable_replica_assignment_map_entries(m))
}

/// Calls `IndexMap::new`, which returns a map without entries.
#[verifier::external_body]
fn creatable_replica_assignment_map_new() -> (r: IndexMap<i32, CreatableReplicaAssignment>)
    ensures
        creatable_replica_assignment_map_entries(r) == Seq::<(i32, CreatableReplicaAssignment)>::empty(),
{
    IndexMap::new()
}

/// Calls `IndexMap::len`, which returns the number of entries.
#[verifier::external_body]
fn creatable_replica_assignment_map_len(m: &IndexMap<i32, CreatableReplicaAssignment>) -> (r: usize)
    ensures
        r == creatable_replica_assignment_map_entries(*m).len(),
{
    m.len()
}

/// Calls `IndexMap::get_index`, which returns the entry at position `i`
/// in insertion order, or nothing when `i` is not below the length; the
/// key of that entry is the key of no other entry of the map.
#[verifier::external_body]
fn creatable_replica_assignment_map_get_index(m: &IndexMap<i32, CreatableReplicaAssignment>, i: usize) -> (r: Option<(&i32, &CreatableReplicaAssignment)>)
    ensures
        r is Some <==> i < creatable_replica_assignment_map_entries(*m).len(),
        r matches Some(kv) ==> *kv.0 == creatable_replica_assignment_map_entries(*m)[i as int].0,
        r matches Some(kv) ==> *kv.1 == creatable_replica_assignment_map_entries(*m)[i as int].1,
        r matches Some(kv) ==> forall|j: int| 0 <= j < creatable_replica_assignment_map_entries(*m).len() && j != i ==> #[trigger] creatable_replica_assignment_map_entries(*m)[j].0 != *kv.0,
{
    m.get_index(i)
}

/// Calls `IndexMap::insert`: a key already present keeps its place and
/// takes the new value, and the old value is returned; a new key is
/// added last, and nothing is returned.
#[verifier::external_body]
fn creatable_replica_assignment_map_insert(m: &mut IndexMap<i32, CreatableReplicaAssignment>, k: i32, v: CreatableReplicaAssignment) -> (r: Option<CreatableReplicaAssignment>)
    ensures
        creatable_replica_assignment_map_entries(*final(m)) == insert_entry(creatable_replica_assignment_map_entries(*old(m)), k, v),
        r == (match key_index(creatable_replica_assignment_map_entries(*old(m)), k) {
            Some(i) => Some(creatable_replica_assignment_map_entries(*old(m))[i].1),
            None => None::<CreatableReplicaAssignment>,
        }),
{
    m.insert(k, v)
}

/// The number of entries of a map of `CreatableReplicaAssignment` values; its keys are distinct.
pub fn creatable_replica_assignment_map_entry_count(m: &IndexMap<i32, CreatableReplicaAssignment>) -> (r: usize)
    ensures
        r == creatable_replica_assignment_map_view(*m).len(),
        keys_distinct(creatable_replica_assignment_map_view(*m)),
{
    let n = creatable_replica_assignment_map_len(m);
    let mut i: usize = 0;
    while i < n
        invariant
            n == creatable_replica_assignment_map_entries(*m).len(),
            i <= n,
            forall|a: int, b: int| 0 <= a < b < n && a < i ==> #[trigger] creatable_replica_assignment_map_entries(*m)[a].0 != #[trigger] creatable_replica_assignment_map_entries(*m)[b].0,
        decreases n - i,
    {
        let e = creatable_replica_assignment_map_get_index(m, i);
        assert(e is Some);
        i = i + 1;
    }
    proof {
        lemma_keys_distinct_view(creatable_replica_assignment_map_entries(*m));
    }
    n
}

/// Writes a map of `CreatableReplicaAssignment` values: its number of entries, then each key and value.
pub fn encode_creatable_replica_assignment_map(m: &IndexMap<i32, CreatableReplicaAssignment>, buf: &mut Vec<u8>, ctx: Ctx) -> (r: Result<(), SerializationError>)
    ensures
        write_ok(r, old(buf)@, final(buf)@, map_bytes::<i32, CreatableReplicaAssignment>(creatable_replica_assignment_map_view(*m), ctx)),
        keys_distinct(creatable_replica_assignment_map_view(*m)),
{
    let ghost es = creatable_replica_assignment_map_view(*m);
    let n = creatable_replica_assignment_map_entry_count(m);
    encode_map_len(n, buf, ctx)?;
    let ghost head = old(buf)@ + len32_bytes(n as nat, ctx.flexible);
    let ghost mut written: Seq<u8> = Seq::empty();
    assert(es.take(0) =~= Seq::<(i32, CreatableReplicaAssignmentModel)>::empty());
    assert(buf@ =~= head + written);
    let mut i: usize = 0;
    while i < n
        invariant
            es == creatable_replica_assignment_map_view(*m),
            n == es.len(),
            keys_distinct(es),
            n <= MAX_LEN32,
            i <= n,
            head == old(buf)@ + len32_bytes(n as nat, ctx.flexible),
            buf@ =~= head + written,
            entries_bytes::<i32, CreatableReplicaAssignment>(es.take(i as int), ctx) == Ok::<Seq<u8>, SerializationError>(written),
        decreases n - i,
    {
        let ghost before = buf@;
        if let Some((k, v)) = creatable_replica_assignment_map_get_index(m, i) {
            assert(es[i as int] == (k.deep_view(), v.deep_view()));
            let res = encode_entry(k, v, buf, ctx);
            proof {
                lemma_map_step::<i32, CreatableReplicaAssignment>(es, i as int, ctx, res);
            }
            match res {
                Ok(()) => {
                    proof {
                        written = written + entry_bytes::<i32, CreatableReplicaAssignment>(es[i as int].0, es[i as int].1, ctx)->Ok_0;
                    }
                },
                Err(e) => {
                    assert(buf@.subrange(0, old(buf)@.len() as int) =~= before.subrange(0, old(buf)@.len() as int));
                    return Err(e);
                },
            }
        }
        i = i + 1;
    }
    assert(es.take(n as int) =~= es);
    Ok(())
}

/// Reads `n` entries of a map of `CreatableReplicaAssignment` values, inserting each in turn.
fn decode_creatable_replica_assignment_map_entries(buf: &mut Reader, n: u64, ctx: Ctx) -> (r: Result<IndexMap<i32, CreatableReplicaAssignment>, SerializationError>)
    ensures
        final(buf).bytes() == old(buf).bytes(),
        match parse_entries::<i32, CreatableReplicaAssignment>(old(buf).bytes(), old(buf).pos(), n as nat, ctx) {
            Ok((es, p)) => r matches Ok(m) && creatable_replica_assignment_map_view(m) == es && final(buf).pos() == p,
            Err(e) => r == Err::<IndexMap<i32, CreatableReplicaAssignment>, SerializationError>(e),
        },
{
    let ghost s = buf.bytes();
    let ghost p0 = buf.pos();
    let mut m = creatable_replica_assignment_map_new();
    assert(creatable_replica_assignment_map_view(m) =~= Seq::<(i32, CreatableReplicaAssignmentModel)>::empty());
    let mut i: u64 = 0;
    while i < n
        invariant
            buf.bytes() == s,
            s == old(buf).bytes(),
            p0 == old(buf).pos(),
            i <= n,
            parse_entries::<i32, CreatableReplicaAssignment>(s, p0, i as nat, ctx) == Ok::<(Seq<(i32, CreatableReplicaAssignmentModel)>, int), SerializationError>((creatable_replica_assignment_map_view(m), buf.pos())),
        decreases n - i,
    {
        match decode_entry::<i32, CreatableReplicaAssignment>(buf, ctx) {
            Ok((k, v)) => {
                proof {
                    lemma_insert_entry_view(creatable_replica_assignment_map_entries(m), k, v);
                }
                creatable_replica_assignment_map_insert(&mut m, k, v);
            },
            Err(e) => {
                proof {
                    lemma_parse_entries_err::<i32, CreatableReplicaAssignment>(s, p0, (i + 1) as nat, n as nat, ctx, e);
                }
                return Err(e);
            },
        }
        i = i + 1;
    }
    Ok(m)
}

/// Reads a map of `CreatableReplicaAssignment` values; a null length is invalid.
pub fn decode_creatable_replica_assignment_map(buf: &mut Reader, ctx: Ctx) -> (r: Result<IndexMap<i32, CreatableReplicaAssignment>, SerializationError>)
    ensures
        final(buf).bytes() == old(buf).bytes(),
        match parse_map::<i32, CreatableReplicaAssignment>(old(buf).bytes(), old(buf).pos(), ctx) {
            Ok((es, p)) => r matches Ok(m) && creatable_replica_assignment_map_view(m) == es && final(buf).pos() == p,
            Err(e) => r == Err::<IndexMap<i32, CreatableReplicaAssignment>, SerializationError>(e),
        },
{
    let n = decode_map_len(buf, ctx)?;
    decode_creatable_replica_assignment_map_entries(buf, n, ctx)
}

// -------------------------------------------------------
// Maps from string keys to `CreatableTopicConfig`
// -------------------------------------------------------

/// The entries of a map of `CreatableTopicConfig` values, in order, each key by its characters.
pub uninterp spec fn creatable_topic_config_map_entries(m: IndexMap<String, CreatableTopicConfig>) -> Seq<(Seq<char>, CreatableTopicConfig)>;

/// The entries of a map of `CreatableTopicConfig` values, each value by its contents.
pub open spec fn creatable_topic_config_map_view(m: IndexMap<String, CreatableTopicConfig>) -> Seq<(Seq<char>, CreatableTopicConfigModel)> {
    entries_view(creatable_topic_config_map_entries(m))
}

/// Calls `IndexMap::new`, which returns a map without entries.
#[verifier::external_body]
fn creatable_topic_config_map_new() -> (r: IndexMap<String, CreatableTopicConfig>)
    ensures
        creatable_topic_config_map_entries(r) == Seq::<(Seq<char>, CreatableTopicConfig)>::empty(),
{
    IndexMap::new()
}

/// Calls `IndexMap::len`, which returns the number of entries.
#[verifier::external_body]
fn creatable_topic_config_map_len(m: &IndexMap<String, CreatableTopicConfig>) -> (r: usize)
    ensures
        r == creatable_topic_config_map_entries(*m).len(),
{
    m.len()
}

/// Calls `IndexMap::get_index`, which returns the entry at position `i`
/// in insertion order, or nothing when `i` is not below the length; the
/// key of that entry is the key of no other entry of the map.
#[verifier::external_body]
fn creatable_topic_config_map_get_index(m: &IndexMap<String, CreatableTopicConfig>, i: usize) -> (r: Option<(&String, &CreatableTopicConfig)>)
    ensures
        r is Some <==> i < creatable_topic_config_map_entries(*m).len(),
        r matches Some(kv) ==> kv.0@ == creatable_topic_config_map_entries(*m)[i as int].0,
        r matches Some(kv) ==> *kv.1 == creatable_topic_config_map_entries(*m)[i as int].1,
        r matches Some(kv) ==> forall|j: int| 0 <= j < creatable_topic_config_map_entries(*m).len() && j != i ==> #[trigger] creatable_topic_config_map_entries(*m)[j].0 != kv.0@,
{
    m.get_index(i)
}

/// Calls `IndexMap::insert`: a key already present keeps its place and
/// takes the new value, and the old value is returned; a new key is
/// added last, and nothing is returned.
#[verifier::external_body]
fn creatable_topic_config_map_insert(m: &mut IndexMap<String, CreatableTopicConfig>, k: String, v: CreatableTopicConfig) -> (r: Option<CreatableTopicConfig>)
    ensures
        creatable_topic_config_map_entries(*final(m)) == insert_entry(creatable_topic_config_map_entries(*old(m)), k@, v),
        r == (match key_index(creatable_topic_config_map_entries(*old(m)), k@) {
            Some(i) => Some(creatable_topic_config_map_entries(*old(m))[i].1),
            None => None::<CreatableTopicConfig>,
        }),
{
    m.insert(k, v)
}

/// The number of entries of a map of `CreatableTopicConfig` values; its keys are distinct.
pub fn creatable_topic_config_map_entry_count(m: &IndexMap<String, CreatableTopicConfig>) -> (r: usize)
    ensures
        r == creatable_topic_config_map_view(*m).len(),
        keys_distinct(creatable_topic_config_map_view(*m)),
{
    let n = creatable_topic_config_map_len(m);
    let mut i: usize = 0;
    while i < n
        invariant
            n == creatable_topic_config_map_entries(*m).len(),
            i <= n,
            forall|a: int, b: int| 0 <= a < b < n && a < i ==> #[trigger] creatable_topic_config_map_entries(*m)[a].0 != #[trigger] creatable_topic_config_map_entries(*m)[b].0,
        decreases n - i,
    {
        let e = creatable_topic_config_map_get_index(m, i);
        assert(e is Some);
        i = i + 1;
    }
    proof {
        lemma_keys_distinct_view(creatable_topic_config_map_entries(*m));
    }
    n
}

/// Writes a map of `CreatableTopicConfig` values: its number of entries, then each key and value.
pub fn encode_creatable_topic_config_map(m: &IndexMap<String, CreatableTopicConfig>, buf: &mut Vec<u8>, ctx: Ctx) -> (r: Result<(), SerializationError>)
    ensures
        write_ok(r, old(buf)@, final(buf)@, map_bytes::<String, CreatableTopicConfig>(creatable_topic_config_map_view(*m), ctx)),
        keys_distinct(creatable_topic_config_map_view(*m)),
{
    let ghost es = creatable_topic_config_map_view(*m);
    let n = creatable_topic_config_map_entry_count(m);
    encode_map_len(n, buf, ctx)?;
    let ghost head = old(buf)@ + len32_bytes(n as nat, ctx.flexible);
    let ghost mut written: Seq<u8> = Seq::empty();
    assert(es.take(0) =~= Seq::<(Seq<char>, CreatableTopicConfigModel)>::empty());
    assert(buf@ =~= head + written);
    let mut i: usize = 0;
    while i < n
        invariant
            es == creatable_topic_config_map_view(*m),
            n == es.len(),
            keys_distinct(es),
            n <= MAX_LEN32,
            i <= n,
            head == old(buf)@ + len32_bytes(n as nat, ctx.flexible),
            buf@ =~= head + written,
            entries_bytes::<String, CreatableTopicConfig>(es.take(i as int), ctx) == Ok::<Seq<u8>, SerializationError>(written),
        decreases n - i,
    {
        let ghost before = buf@;
        if let Some((k, v)) = creatable_topic_config_map_get_index(m, i) {
            assert(es[i as int] == (k.deep_view(), v.deep_view()));
            let res = encode_entry(k, v, buf, ctx);
            proof {
                lemma_map_step::<String, CreatableTopicConfig>(es, i as int, ctx, res);
            }
            match res {
                Ok(()) => {
                    proof {
                        written = written + entry_bytes::<String, CreatableTopicConfig>(es[i as int].0, es[i as int].1, ctx)->Ok_0;
                    }
                },
                Err(e) => {
                    assert(buf@.subrange(0, old(buf)@.len() as int) =~= before.subrange(0, old(buf)@.len() as int));
                    return Err(e);
                },
            }
        }
        i = i + 1;
    }
    assert(es.take(n as int) =~= es);
    Ok(())
}

/// Reads `n` entries of a map of `CreatableTopicConfig` values, inserting each in turn.
fn decode_creatable_topic_config_map_entries(buf: &mut Reader, n: u64, ctx: Ctx) -> (r: Result<IndexMap<String, CreatableTopicConfig>, SerializationError>)
    ensures
        final(buf).bytes() == old(buf).bytes(),
        match parse_entries::<String, CreatableTopicConfig>(old(buf).bytes(), old(buf).pos(), n as nat, ctx) {
            Ok((es, p)) => r matches Ok(m) && creatable_topic_config_map_view(m) == es && final(buf).pos() == p,
            Err(e) => r == Err::<IndexMap<String, CreatableTopicConfig>, SerializationError>(e),
        },
{
    let ghost s = buf.bytes();
    let ghost p0 = buf.pos();
    let mut m = creatable_topic_config_map_new();
    assert(creatable_topic_config_map_view(m) =~= Seq::<(Seq<char>, CreatableTopicConfigModel)>::empty());
    let mut i: u64 = 0;
    while i < n
        invariant
            buf.bytes() == s,
            s == old(buf).bytes(),
            p0 == old(buf).pos(),
            i <= n,
            parse_entries::<String, CreatableTopicConfig>(s, p0, i as nat, ctx) == Ok::<(Seq<(Seq<char>, CreatableTopicConfigModel)>, int), SerializationError>((creatable_topic_config_map_view(m), buf.pos())),
        decreases n - i,
    {
        match decode_entry::<String, CreatableTopicConfig>(buf, ctx) {
            Ok((k, v)) => {
                proof {
                    lemma_insert_entry_view(creatable_topic_config_map_entries(m), k@, v);
                }
                creatable_topic_config_map_insert(&mut m, k, v);
            },
            Err(e) => {
                proof {
                    lemma_parse_entries_err::<String, CreatableTopicConfig>(s, p0, (i + 1) as nat, n as nat, ctx, e);
                }
                return Err(e);
            },
        }
        i = i + 1;
    }
    Ok(m)
}

/// Reads a map of `CreatableTopicConfig` values; a null length is invalid.
pub fn decode_creatable_topic_config_map(buf: &mut Reader, ctx: Ctx) -> (r: Result<IndexMap<String, CreatableTopicConfig>, SerializationError>)
    ensures
        final(buf).bytes() == old(buf).bytes(),
        match parse_map::<String, CreatableTopicConfig>(old(buf).bytes(), old(buf).pos(), ctx) {
            Ok((es, p)) => r matches Ok(m) && creatable_topic_config_map_view(m) == es && final(buf).pos() == p,
            Err(e) => r == Err::<IndexMap<String, CreatableTopicConfig>, SerializationError>(e),
        },
{
    let n = decode_map_len(buf, ctx)?;
    decode_creatable_topic_config_map_entries(buf, n, ctx)
}

// -------------------------------------------------------
// CreateTopicsRequest
// -------------------------------------------------------
#[derive(Clone, Debug, PartialEq)]
pub struct CreateTopicsRequest {
    /// The topics to create.
    /// IndexMap key `Name` (string): The topic name.
    pub topics: IndexMap<String, CreatableTopic>,
    /// How long to wait in milliseconds before timing out the request.
    pub timeout_ms: i32,
    /// If true, check that the topics can be created as specified, but don't create anything.
    /// Available in version 1+.
    pub validate_only: bool,
}

/// The contents of `CreateTopicsRequest`, with strings as characters and
/// nested values by their contents.
pub struct CreateTopicsRequestModel {
    pub topics: Seq<(Seq<char>, CreatableTopicModel)>,
    pub timeout_ms: i32,
    pub validate_only: bool,
}

impl DeepView for CreateTopicsRequest {
    type V = CreateTopicsRequestModel;

    open spec fn deep_view(&self) -> CreateTopicsRequestModel {
        CreateTopicsRequestModel {
            topics: creatable_topic_map_view(self.topics),
            timeout_ms: self.timeout_ms,
            validate_only: self.validate_only,
        }
    }
}

impl Default for CreateTopicsRequest {
    fn default() -> (r: CreateTopicsRequest)
        ensures
            creatable_topic_map_view(r.topics) == Seq::<(Seq<char>, CreatableTopicModel)>::empty(),
            r.timeout_ms == 60000i32,
            r.validate_only == false,
    {
        CreateTopicsRequest {
            topics: creatable_topic_map_new(),
            timeout_ms: 60000i32,
            validate_only: false,
        }
    }
}

impl CreateTopicsRequest {
    /// The encoding of the structure in context `ctx`.
    pub open spec fn spec_encode_body(m: CreateTopicsRequestModel, ctx: Ctx) -> Result<Seq<u8>, SerializationError> {
        let r = Ok(Seq::<u8>::empty());
        let r = then(r, map_bytes::<String, CreatableTopic>(m.topics, Ctx { version: ctx.version, flexible: ctx.flexible, classic: false }));
        let r = then(r, Ok(i32_bytes(m.timeout_ms)));
        let r = if 1 <= ctx.version { then(r, Ok(bool_bytes(m.validate_only))) } else { r };
        let r = if ctx.flexible { then(r, Ok(uvarint_bytes(0))) } else { r };
        r
    }

    /// The structure read from `s` at `pos` in context `ctx`.
    pub open spec fn spec_decode_body(s: Seq<u8>, pos: int, ctx: Ctx) -> Result<(CreateTopicsRequestModel, int), SerializationError> {
        match parse_map::<String, CreatableTopic>(s, pos, Ctx { version: ctx.version, flexible: ctx.flexible, classic: false }) {
            Err(e) => Err(e),
            Ok((topics, pos)) =>
            match parse_i32(s, pos) {
                Err(e) => Err(e),
                Ok((timeout_ms, pos)) =>
                match (if 1 <= ctx.version { parse_bool(s, pos) } else { Ok((false, pos)) }) {
                    Err(e) => Err(e),
                    Ok((validate_only, pos)) =>
                    match (if ctx.flexible { parse_uvarint(s, pos) } else { Ok((0u64, pos)) }) {
                        Err(e) => Err(e),
                        Ok((_tag_count, pos)) =>
                        Ok((CreateTopicsRequestModel { topics, timeout_ms, validate_only }, pos))
                    }
                }
            }
        }
    }

    /// The structure as it reads back in context `ctx`: each field that the
    /// version leaves out is at its default.
    #[verifier::opaque]
    pub open spec fn spec_read_as(m: CreateTopicsRequestModel, ctx: Ctx) -> CreateTopicsRequestModel {
        CreateTopicsRequestModel { topics: m.topics, timeout_ms: m.timeout_ms, validate_only: if 1 <= ctx.version { m.validate_only } else { false } }
    }

    /// Values that read back in context `ctx`: nested values read back. A field
    /// that the version leaves out is read as its default.
    pub open spec fn reads_back_body(m: CreateTopicsRequestModel, ctx: Ctx) -> bool {
        &&& (keys_distinct(m.topics) && entries_read_back::<String, CreatableTopic>(m.topics, Ctx { version: ctx.version, flexible: ctx.flexible, classic: false }))
    }

    /// A value that can be written in context `ctx` and reads back: decoding its
    /// encoding, wherever it stands, gives the value as `spec_read_as` gives it and
    /// the position just after it.
    #[verifier::spinoff_prover]
    pub proof fn lemma_body_read_back(pre: Seq<u8>, m: CreateTopicsRequestModel, post: Seq<u8>, ctx: Ctx)
        requires
            Self::spec_encode_body(m, ctx) is Ok,
            Self::reads_back_body(m, ctx),
        ensures
            Self::spec_decode_body(pre + Self::spec_encode_body(m, ctx)->Ok_0 + post, pre.len() as int, ctx) == Ok::<(CreateTopicsRequestModel, int), SerializationError>((Self::spec_read_as(m, ctx), pre.len() as int + Self::spec_encode_body(m, ctx)->Ok_0.len())),
    {
        reveal(CreateTopicsRequest::spec_read_as);
        let b0 = (map_bytes::<String, CreatableTopic>(m.topics, Ctx { version: ctx.version, flexible: ctx.flexible, classic: false }))->Ok_0;
        let b1 = i32_bytes(m.timeout_ms);
        let b2 = if 1 <= ctx.version { bool_bytes(m.validate_only) } else { Seq::<u8>::empty() };
        let b3 = if ctx.flexible { uvarint_bytes(0) } else { Seq::<u8>::empty() };
        let t4 = post;
        let t3 = b3 + t4;
        let t2 = b2 + t3;
        let t1 = b1 + t2;
        let t0 = b0 + t1;
        let e = Self::spec_encode_body(m, ctx)->Ok_0;
        assert(e =~= Seq::<u8>::empty() + b0 + b1 + b2 + b3);
        lemma_seq_assoc((((Seq::<u8>::empty() + b0) + b1) + b2), b3, post);
        lemma_seq_assoc(((Seq::<u8>::empty() + b0) + b1), b2, (b3 + post));
        lemma_seq_assoc((Seq::<u8>::empty() + b0), b1, (b2 + (b3 + post)));
        lemma_seq_assoc(Seq::<u8>::empty(), b0, (b1 + (b2 + (b3 + post))));
        lemma_seq_empty_left((b0 + (b1 + (b2 + (b3 + post)))));
        let s = pre + e + post;
        lemma_seq_assoc(pre, e, post);
        assert(s == pre + t0);
        let a0 = pre;
        assert(parse_map::<String, CreatableTopic>(s, a0.len() as int, Ctx { version: ctx.version, flexible: ctx.flexible, classic: false }) == Ok::<(Seq<(Seq<char>, CreatableTopicModel)>, int), SerializationError>((m.topics, a0.len() as int + b0.len()))) by {
            assert(map_bytes::<String, CreatableTopic>(m.topics, Ctx { version: ctx.version, flexible: ctx.flexible, classic: false }) is Ok);
            lemma_seq_assoc(a0, b0, t1);
            lemma_map_roundtrip::<String, CreatableTopic>(a0, m.topics, t1, Ctx { version: ctx.version, flexible: ctx.flexible, classic: false });
        }
        lemma_seq_assoc(a0, b0, t1);
        let a1 = a0 + b0;
        assert(parse_i32(s, a1.len() as int) == Ok::<(i32, int), SerializationError>((m.timeout_ms, a1.len() as int + b1.len()))) by {
            lemma_seq_assoc(a1, b1, t2);
            lemma_i32_roundtrip(a1, m.timeout_ms, t2);
        }
        lemma_seq_assoc(a1, b1, t2);
        let a2 = a1 + b1;
        if 1 <= ctx.version {
            assert(parse_bool(s, a2.len() as int) == Ok::<(bool, int), SerializationError>((m.validate_only, a2.len() as int + b2.len()))) by {
                lemma_seq_assoc(a2, b2, t3);
                lemma_bool_roundtrip(a2, m.validate_only, t3);
            }
        }
        lemma_seq_assoc(a2, b2, t3);
        let a3 = a2 + b2;
        if ctx.flexible {
            assert(parse_uvarint(s, a3.len() as int) == Ok::<(u64, int), SerializationError>((0u64, a3.len() as int + b3.len()))) by {
                lemma_seq_assoc(a3, b3, t4);
                lemma_uvarint_roundtrip(a3, 0, t4);
            }
        }
    }

    /// The bytes written: the encoding of each field, in the order of the
    /// protocol's layout. Reading them back, wherever they stand, gives the value,
    /// with each field that the version leaves out at its default.
    #[verifier::spinoff_prover]
    pub proof fn lemma_body_layout(pre: Seq<u8>, m: CreateTopicsRequestModel, post: Seq<u8>, ctx: Ctx)
        requires
            Self::spec_encode_body(m, ctx) is Ok,
        ensures
            Self::spec_encode_body(m, ctx) == Ok::<Seq<u8>, SerializationError>(((map_bytes::<String, CreatableTopic>(m.topics, Ctx { version: ctx.version, flexible: ctx.flexible, classic: false }))->Ok_0) + (i32_bytes(m.timeout_ms)) + (if 1 <= ctx.version { bool_bytes(m.validate_only) } else { Seq::<u8>::empty() }) + (if ctx.flexible { uvarint_bytes(0) } else { Seq::<u8>::empty() })),
            Self::reads_back_body(m, ctx) ==> Self::spec_decode_body(pre + (((map_bytes::<String, CreatableTopic>(m.topics, Ctx { version: ctx.version, flexible: ctx.flexible, classic: false }))->Ok_0) + (i32_bytes(m.timeout_ms)) + (if 1 <= ctx.version { bool_bytes(m.validate_only) } else { Seq::<u8>::empty() }) + (if ctx.flexible { uvarint_bytes(0) } else { Seq::<u8>::empty() })) + post, pre.len() as int, ctx) == Ok::<(CreateTopicsRequestModel, int), SerializationError>((CreateTopicsRequestModel { topics: m.topics, timeout_ms: m.timeout_ms, validate_only: if 1 <= ctx.version { m.validate_only } else { false } }, pre.len() as int + (((map_bytes::<String, CreatableTopic>(m.topics, Ctx { version: ctx.version, flexible: ctx.flexible, classic: false }))->Ok_0) + (i32_bytes(m.timeout_ms)) + (if 1 <= ctx.version { bool_bytes(m.validate_only) } else { Seq::<u8>::empty() }) + (if ctx.flexible { uvarint_bytes(0) } else { Seq::<u8>::empty() })).len())),
    {
        let b0 = (map_bytes::<String, CreatableTopic>(m.topics, Ctx { version: ctx.version, flexible: ctx.flexible, classic: false }))->Ok_0;
        let b1 = i32_bytes(m.timeout_ms);
        let b2 = if 1 <= ctx.version { bool_bytes(m.validate_only) } else { Seq::<u8>::empty() };
        let b3 = if ctx.flexible { uvarint_bytes(0) } else { Seq::<u8>::empty() };
        let e = Self::spec_encode_body(m, ctx)->Ok_0;
        assert(e =~= Seq::<u8>::empty() + b0 + b1 + b2 + b3);
        assert(e =~= b0 + b1 + b2 + b3);
        if Self::reads_back_body(m, ctx) {
            Self::lemma_body_read_back(pre, m, post, ctx);
            reveal(CreateTopicsRequest::spec_read_as);
        }
    }

    /// Writing succeeds exactly when every field that the version carries can be
    /// encoded and every field that it leaves out, where leaving it out is an
    /// error, holds its default.
    #[verifier::spinoff_prover]
    pub proof fn lemma_body_write_succeeds(m: CreateTopicsRequestModel, ctx: Ctx)
        ensures
            Self::spec_encode_body(m, ctx) is Ok <==> (map_bytes::<String, CreatableTopic>(m.topics, Ctx { version: ctx.version, flexible: ctx.flexible, classic: false }) is Ok),
    {
    }

    /// Writes the structure for `version`, with the compact encodings when `is_flexible`.
    /// On failure the buffer is left as it was.
    pub fn encode(&self, buf: &mut Vec<u8>, version: ApiVersion, is_flexible: bool) -> (r: Result<(), SerializationError>)
        ensures
            write_exact(r, old(buf)@, final(buf)@, Self::spec_encode_body(self.deep_view(), Ctx { version: version.0, flexible: is_flexible, classic: false })),
    {
        let start = buf.len();
        let r = self.encode_ctx(buf, Ctx::new(version, is_flexible));
        if r.is_err() {
            buf.truncate(start);
        }
        r
    }

    /// Reads the structure as written for `version`.
    /// On failure the reader is put back where it started.
    pub fn decode(buf: &mut Reader, version: ApiVersion, is_flexible: bool) -> (r: Result<Self, SerializationError>)
        ensures
            final(buf).bytes() == old(buf).bytes(),
            read_view_exact(r, Self::spec_decode_body(old(buf).bytes(), old(buf).pos(), Ctx { version: version.0, flexible: is_flexible, classic: false }), old(buf).pos(), final(buf).pos()),
    {
        let start = buf.position();
        let r = Self::decode_ctx(buf, Ctx::new(version, is_flexible));
        if r.is_err() {
            buf.set_position(start);
        }
        r
    }
}

impl KafkaCodec for CreateTopicsRequest {
    open spec fn spec_encode(m: CreateTopicsRequestModel, ctx: Ctx) -> Result<Seq<u8>, SerializationError> {
        Self::spec_encode_body(m, ctx)
    }

    open spec fn spec_decode(s: Seq<u8>, pos: int, ctx: Ctx) -> Result<(CreateTopicsRequestModel, int), SerializationError> {
        Self::spec_decode_body(s, pos, ctx)
    }

    open spec fn reads_back(v: CreateTopicsRequestModel, ctx: Ctx) -> bool {
        Self::reads_back_body(v, ctx) && Self::spec_read_as(v, ctx) == v
    }

    proof fn lemma_read_back(pre: Seq<u8>, v: CreateTopicsRequestModel, post: Seq<u8>, ctx: Ctx) {
        Self::lemma_body_read_back(pre, v, post, ctx);
        assert(Self::spec_decode(pre + Self::spec_encode(v, ctx)->Ok_0 + post, pre.len() as int, ctx)
            == Self::spec_decode_body(pre + Self::spec_encode_body(v, ctx)->Ok_0 + post, pre.len() as int, ctx));
    }

    fn encode_ctx(&self, buf: &mut Vec<u8>, ctx: Ctx) -> (r: Result<(), SerializationError>) {
        let ghost mut w: Seq<u8> = Seq::empty();
        encode_creatable_topic_map(&self.topics, buf, Ctx { version: ctx.version, flexible: ctx.flexible, classic: false })?;
        proof {
            w = w + (map_bytes::<String, CreatableTopic>(creatable_topic_map_view(self.topics), Ctx { version: ctx.version, flexible: ctx.flexible, classic: false }))->Ok_0;
        }
        assert(buf@ =~= old(buf)@ + w);
        put_i32(buf, self.timeout_ms);
        proof {
            w = w + i32_bytes(self.timeout_ms);
        }
        assert(buf@ =~= old(buf)@ + w);
        if 1 <= ctx.version {
            put_bool(buf, self.validate_only);
            proof {
                w = w + bool_bytes(self.validate_only);
            }
            assert(buf@ =~= old(buf)@ + w);
        }
        if ctx.flexible {
            encode_unsigned_varint(0, buf);
            proof {
                w = w + uvarint_bytes(0);
            }
            assert(buf@ =~= old(buf)@ + w);
        }
        Ok(())
    }

    fn decode_ctx(buf: &mut Reader, ctx: Ctx) -> (r: Result<Self, SerializationError>) {
        let topics = decode_creatable_topic_map(buf, Ctx { version: ctx.version, flexible: ctx.flexible, classic: false })?;
        let timeout_ms = buf.get_i32()?;
        let validate_only = if 1 <= ctx.version {
            buf.get_bool()?
        } else {
            false
        };
        if ctx.flexible {
            let (_tag_count, _) = decode_unsigned_varint(buf)?;
        }
        Ok(CreateTopicsRequest { topics, timeout_ms, validate_only })
    }
}

impl CreateTopicsRequest {
    /// The API key of this message.
    pub fn get_api_key() -> (r: ApiKey)
        ensures
            r.0 == 19,
    {
        ApiKey::new(19)
    }

    /// The oldest version of this message.
    pub fn get_min_supported_version() -> (r: ApiVersion)
        ensures
            r.0 == 2,
    {
        ApiVersion::new(2)
    }

    /// The newest version of this message.
    pub fn get_max_supported_version() -> (r: ApiVersion)
        ensures
            r.0 == 7,
    {
        ApiVersion::new(7)
    }

    /// The first version of this message with the compact encodings.
    pub fn get_min_flexible_version() -> (r: ApiVersion)
        ensures
            r.0 == 5,
    {
        ApiVersion::new(5)
    }

    /// The encoding of a whole message body at `version`.
    pub open spec fn spec_serialize(m: CreateTopicsRequestModel, version: i16) -> Result<Seq<u8>, SerializationError> {
        let is_flexible = version >= 5;
        let ctx = Ctx { version, flexible: is_flexible, classic: false };
        let r = Ok(Seq::<u8>::empty());
        let r = then(r, map_bytes::<String, CreatableTopic>(m.topics, Ctx { version: ctx.version, flexible: ctx.flexible, classic: false }));
        let r = then(r, Ok(i32_bytes(m.timeout_ms)));
        let r = if 1 <= ctx.version { then(r, Ok(bool_bytes(m.validate_only))) } else if m.validate_only { then(r, Err(SerializationError::FieldNotAvailable { field: "validateOnly", version: ctx.version, api_name: "CreateTopicsRequest" })) } else { r };
        let r = if ctx.flexible { then(r, Ok(uvarint_bytes(0))) } else { r };
        r
    }

    /// The message body read at `version`.
    pub open spec fn spec_deserialize(s: Seq<u8>, pos: int, version: i16) -> Result<(CreateTopicsRequestModel, int), SerializationError> {
        let is_flexible = version >= 5;
        let ctx = Ctx { version, flexible: is_flexible, classic: false };
        match parse_map::<String, CreatableTopic>(s, pos, Ctx { version: ctx.version, flexible: ctx.flexible, classic: false }) {
            Err(e) => Err(e),
            Ok((topics, pos)) =>
            match parse_i32(s, pos) {
                Err(e) => Err(e),
                Ok((timeout_ms, pos)) =>
                match (if 1 <= ctx.version { parse_bool(s, pos) } else { Ok((false, pos)) }) {
                    Err(e) => Err(e),
                    Ok((validate_only, pos)) =>
                    match (if ctx.flexible { parse_uvarint(s, pos) } else { Ok((0u64, pos)) }) {
                        Err(e) => Err(e),
                        Ok((_tag_count, pos)) =>
                        Ok((CreateTopicsRequestModel { topics, timeout_ms, validate_only }, pos))
                    }
                }
            }
        }
    }

    /// Message bodies that read back when written at `version`: nested values read
    /// back. A field that the version leaves out is read as its default.
    pub open spec fn reads_back_message(m: CreateTopicsRequestModel, version: i16) -> bool {
        let is_flexible = version >= 5;
        let ctx = Ctx { version, flexible: is_flexible, classic: false };
        &&& (keys_distinct(m.topics) && entries_read_back::<String, CreatableTopic>(m.topics, Ctx { version: ctx.version, flexible: ctx.flexible, classic: false }))
    }

    /// A message body that can be written at `version` and reads back: reading a
    /// body at `version` from its bytes, wherever they stand, gives the same message,
    /// with each field that the version leaves out at its default.
    #[verifier::spinoff_prover]
    pub proof fn lemma_message_read_back(pre: Seq<u8>, m: CreateTopicsRequestModel, post: Seq<u8>, version: i16)
        requires
            Self::spec_serialize(m, version) is Ok,
            Self::reads_back_message(m, version),
        ensures
            Self::spec_deserialize(pre + Self::spec_serialize(m, version)->Ok_0 + post, pre.len() as int, version) == Ok::<(CreateTopicsRequestModel, int), SerializationError>((CreateTopicsRequestModel { topics: m.topics, timeout_ms: m.timeout_ms, validate_only: if 1 <= version { m.validate_only } else { false } }, pre.len() as int + Self::spec_serialize(m, version)->Ok_0.len())),
    {
        let is_flexible = version >= 5;
        let ctx = Ctx { version, flexible: is_flexible, classic: false };
        let b0 = (map_bytes::<String, CreatableTopic>(m.topics, Ctx { version: ctx.version, flexible: ctx.flexible, classic: false }))->Ok_0;
        let b1 = i32_bytes(m.timeout_ms);
        let b2 = if 1 <= ctx.version { bool_bytes(m.validate_only) } else { Seq::<u8>::empty() };
        let b3 = if ctx.flexible { uvarint_bytes(0) } else { Seq::<u8>::empty() };
        let t4 = post;
        let t3 = b3 + t4;
        let t2 = b2 + t3;
        let t1 = b1 + t2;
        let t0 = b0 + t1;
        let e = Self::spec_serialize(m, version)->Ok_0;
        assert(e =~= Seq::<u8>::empty() + b0 + b1 + b2 + b3);
        lemma_seq_assoc((((Seq::<u8>::empty() + b0) + b1) + b2), b3, post);
        lemma_seq_assoc(((Seq::<u8>::empty() + b0) + b1), b2, (b3 + post));
        lemma_seq_assoc((Seq::<u8>::empty() + b0), b1, (b2 + (b3 + post)));
        lemma_seq_assoc(Seq::<u8>::empty(), b0, (b1 + (b2 + (b3 + post))));
        lemma_seq_empty_left((b0 + (b1 + (b2 + (b3 + post)))));
        let s = pre + e + post;
        lemma_seq_assoc(pre, e, post);
        assert(s == pre + t0);
        let a0 = pre;
        assert(parse_map::<String, CreatableTopic>(s, a0.len() as int, Ctx { version: ctx.version, flexible: ctx.flexible, classic: false }) == Ok::<(Seq<(Seq<char>, CreatableTopicModel)>, int), SerializationError>((m.topics, a0.len() as int + b0.len()))) by {
            assert(map_bytes::<String, CreatableTopic>(m.topics, Ctx { version: ctx.version, flexible: ctx.flexible, classic: false }) is Ok);
            lemma_seq_assoc(a0, b0, t1);
            lemma_map_roundtrip::<String, CreatableTopic>(a0, m.topics, t1, Ctx { version: ctx.version, flexible: ctx.flexible, classic: false });
        }
        lemma_seq_assoc(a0, b0, t1);
        let a1 = a0 + b0;
        assert(parse_i32(s, a1.len() as int) == Ok::<(i32, int), SerializationError>((m.timeout_ms, a1.len() as int + b1.len()))) by {
            lemma_seq_assoc(a1, b1, t2);
            lemma_i32_roundtrip(a1, m.timeout_ms, t2);
        }
        lemma_seq_assoc(a1, b1, t2);
        let a2 = a1 + b1;
        if 1 <= ctx.version {
            assert(parse_bool(s, a2.len() as int) == Ok::<(bool, int), SerializationError>((m.validate_only, a2.len() as int + b2.len()))) by {
                lemma_seq_assoc(a2, b2, t3);
                lemma_bool_roundtrip(a2, m.validate_only, t3);
            }
        }
        lemma_seq_assoc(a2, b2, t3);
        let a3 = a2 + b2;
        if ctx.flexible {
            assert(parse_uvarint(s, a3.len() as int) == Ok::<(u64, int), SerializationError>((0u64, a3.len() as int + b3.len()))) by {
                lemma_seq_assoc(a3, b3, t4);
                lemma_uvarint_roundtrip(a3, 0, t4);
            }
        }
    }

    /// The bytes written: the encoding of each field, in the order of the
    /// protocol's layout. Reading them back, wherever they stand, gives the value,
    /// with each field that the version leaves out at its default.
    #[verifier::spinoff_prover]
    pub proof fn lemma_message_layout(pre: Seq<u8>, m: CreateTopicsRequestModel, post: Seq<u8>, version: i16)
        requires
            Self::spec_serialize(m, version) is Ok,
        ensures
            Self::spec_serialize(m, version) == Ok::<Seq<u8>, SerializationError>(((map_bytes::<String, CreatableTopic>(m.topics, Ctx { version: version, flexible: (version >= 5), classic: false }))->Ok_0) + (i32_bytes(m.timeout_ms)) + (if 1 <= version { bool_bytes(m.validate_only) } else { Seq::<u8>::empty() }) + (if (version >= 5) { uvarint_bytes(0) } else { Seq::<u8>::empty() })),
            Self::reads_back_message(m, version) ==> Self::spec_deserialize(pre + (((map_bytes::<String, CreatableTopic>(m.topics, Ctx { version: version, flexible: (version >= 5), classic: false }))->Ok_0) + (i32_bytes(m.timeout_ms)) + (if 1 <= version { bool_bytes(m.validate_only) } else { Seq::<u8>::empty() }) + (if (version >= 5) { uvarint_bytes(0) } else { Seq::<u8>::empty() })) + post, pre.len() as int, version) == Ok::<(CreateTopicsRequestModel, int), SerializationError>((CreateTopicsRequestModel { topics: m.topics, timeout_ms: m.timeout_ms, validate_only: if 1 <= version { m.validate_only } else { false } }, pre.len() as int + (((map_bytes::<String, CreatableTopic>(m.topics, Ctx { version: version, flexible: (version >= 5), classic: false }))->Ok_0) + (i32_bytes(m.timeout_ms)) + (if 1 <= version { bool_bytes(m.validate_only) } else { Seq::<u8>::empty() }) + (if (version >= 5) { uvarint_bytes(0) } else { Seq::<u8>::empty() })).len())),
    {
        let is_flexible = version >= 5;
        let ctx = Ctx { version, flexible: is_flexible, classic: false };
        let b0 = (map_bytes::<String, CreatableTopic>(m.topics, Ctx { version: ctx.version, flexible: ctx.flexible, classic: false }))->Ok_0;
        let b1 = i32_bytes(m.timeout_ms);
        let b2 = if 1 <= ctx.version { bool_bytes(m.validate_only) } else { Seq::<u8>::empty() };
        let b3 = if ctx.flexible { uvarint_bytes(0) } else { Seq::<u8>::empty() };
        let e = Self::spec_serialize(m, version)->Ok_0;
        assert(e =~= Seq::<u8>::empty() + b0 + b1 + b2 + b3);
        assert(e =~= b0 + b1 + b2 + b3);
        if Self::reads_back_message(m, version) {
            Self::lemma_message_read_back(pre, m, post, version);
        }
    }

    /// Writing succeeds exactly when every field that the version carries can be
    /// encoded and every field that it leaves out, where leaving it out is an
    /// error, holds its default.
    #[verifier::spinoff_prover]
    pub proof fn lemma_message_write_succeeds(m: CreateTopicsRequestModel, version: i16)
        ensures
            Self::spec_serialize(m, version) is Ok <==> (map_bytes::<String, CreatableTopic>(m.topics, Ctx { version: version, flexible: (version >= 5), classic: false }) is Ok) && (!(1 <= version) ==> !(m.validate_only)),
    {
        let is_flexible = version >= 5;
        let ctx = Ctx { version, flexible: is_flexible, classic: false };
    }

    /// Writes the message body for `version`, which must be a supported version.
    /// On failure the buffer is left as it was.
    pub fn serialize(&self, version: ApiVersion, buf: &mut Vec<u8>) -> (r: Result<(), SerializationError>)
        requires
            2 <= version.0 <= 7,
        ensures
            write_exact(r, old(buf)@, final(buf)@, Self::spec_serialize(self.deep_view(), version.0)),
    {
        let start = buf.len();
        let r = self.write_body(version, buf);
        if r.is_err() {
            buf.truncate(start);
        }
        r
    }

    fn write_body(&self, version: ApiVersion, buf: &mut Vec<u8>) -> (r: Result<(), SerializationError>)
        requires
            2 <= version.0 <= 7,
        ensures
            write_ok(r, old(buf)@, final(buf)@, Self::spec_serialize(self.deep_view(), version.0)),
    {
        let is_flexible = version.0 >= Self::get_min_flexible_version().0;
        let ctx = Ctx::new(version, is_flexible);
        let ghost mut w: Seq<u8> = Seq::empty();
        encode_creatable_topic_map(&self.topics, buf, Ctx { version: ctx.version, flexible: ctx.flexible, classic: false })?;
        proof {
            w = w + (map_bytes::<String, CreatableTopic>(creatable_topic_map_view(self.topics), Ctx { version: ctx.version, flexible: ctx.flexible, classic: false }))->Ok_0;
        }
        assert(buf@ =~= old(buf)@ + w);
        put_i32(buf, self.timeout_ms);
        proof {
            w = w + i32_bytes(self.timeout_ms);
        }
        assert(buf@ =~= old(buf)@ + w);
        if 1 <= ctx.version {
            put_bool(buf, self.validate_only);
            proof {
                w = w + bool_bytes(self.validate_only);
            }
            assert(buf@ =~= old(buf)@ + w);
        } else if self.validate_only {
            return Err(SerializationError::FieldNotAvailable { field: "validateOnly", version: ctx.version, api_name: "CreateTopicsRequest" });
        }
        if ctx.flexible {
            encode_unsigned_varint(0, buf);
            proof {
                w = w + uvarint_bytes(0);
            }
            assert(buf@ =~= old(buf)@ + w);
        }
        Ok(())
    }

    /// Reads a message body written for `version`.
    /// On failure the reader is put back where it started.
    pub fn deserialize(version: ApiVersion, buf: &mut Reader) -> (r: Result<Self, SerializationError>)
        ensures
            final(buf).bytes() == old(buf).bytes(),
            read_view_exact(r, Self::spec_deserialize(old(buf).bytes(), old(buf).pos(), version.0), old(buf).pos(), final(buf).pos()),
    {
        let start = buf.position();
        let r = Self::read_body(version, buf);
        if r.is_err() {
            buf.set_position(start);
        }
        r
    }

    fn read_body(version: ApiVersion, buf: &mut Reader) -> (r: Result<Self, SerializationError>)
        ensures
            final(buf).bytes() == old(buf).bytes(),
            read_view_ok(r, Self::spec_deserialize(old(buf).bytes(), old(buf).pos(), version.0), final(buf).pos()),
    {
        let is_flexible = version.0 >= Self::get_min_flexible_version().0;
        let ctx = Ctx::new(version, is_flexible);
        let topics = decode_creatable_topic_map(buf, Ctx { version: ctx.version, flexible: ctx.flexible, classic: false })?;
        let timeout_ms = buf.get_i32()?;
        let validate_only = if 1 <= ctx.version {
            buf.get_bool()?
        } else {
            false
        };
        if ctx.flexible {
            let (_tag_count, _) = decode_unsigned_varint(buf)?;
        }
        Ok(CreateTopicsRequest { topics, timeout_ms, validate_only })
    }
}

// -------------------------------------------------------
// CreatableReplicaAssignment
// -------------------------------------------------------
#[derive(Clone, Debug, Default, PartialEq)]
pub struct CreatableReplicaAssignment {
    /// The brokers to place the partition on.
    pub broker_ids: Vec<i32>,
}

/// The contents of `CreatableReplicaAssignment`, with strings as characters and
/// nested values by their contents.
pub struct CreatableReplicaAssignmentModel {
    pub broker_ids: Seq<<i32 as DeepView>::V>,
}

impl DeepView for CreatableReplicaAssignment {
    type V = CreatableReplicaAssignmentModel;

    open spec fn deep_view(&self) -> CreatableReplicaAssignmentModel {
        CreatableReplicaAssignmentModel {
            broker_ids: self.broker_ids.deep_view(),
        }
    }
}

impl CreatableReplicaAssignment {
    /// The encoding of the structure in context `ctx`.
    pub open spec fn spec_encode_body(m: CreatableReplicaAssignmentModel, ctx: Ctx) -> Result<Seq<u8>, SerializationError> {
        let r = Ok(Seq::<u8>::empty());
        let r = then(r, array_bytes::<i32>(m.broker_ids, Ctx { version: ctx.version, flexible: ctx.flexible, classic: false }));
        let r = if ctx.flexible { then(r, Ok(uvarint_bytes(0))) } else { r };
        r
    }

    /// The structure read from `s` at `pos` in context `ctx`.
    pub open spec fn spec_decode_body(s: Seq<u8>, pos: int, ctx: Ctx) -> Result<(CreatableReplicaAssignmentModel, int), SerializationError> {
        match parse_array::<i32>(s, pos, Ctx { version: ctx.version, flexible: ctx.flexible, classic: false }) {
            Err(e) => Err(e),
            Ok((broker_ids, pos)) =>
            match (if ctx.flexible { parse_uvarint(s, pos) } else { Ok((0u64, pos)) }) {
                Err(e) => Err(e),
                Ok((_tag_count, pos)) =>
                Ok((CreatableReplicaAssignmentModel { broker_ids }, pos))
            }
        }
    }

    /// Values of the structure that read back from their encoding in `ctx`: every
    /// field that the version leaves out holds its default, and nested values
    /// read back.
    pub open spec fn reads_back_body(m: CreatableReplicaAssignmentModel, ctx: Ctx) -> bool {
        &&& forall|i: int| 0 <= i < m.broker_ids.len() ==> #[trigger] <i32 as KafkaCodec>::reads_back(m.broker_ids[i], Ctx { version: ctx.version, flexible: ctx.flexible, classic: false })
    }

    /// A value that can be written in `ctx` and reads back: decoding its encoding,
    /// wherever it stands, gives the value and the position just after it.
    #[verifier::spinoff_prover]
    pub proof fn lemma_body_read_back(pre: Seq<u8>, m: CreatableReplicaAssignmentModel, post: Seq<u8>, ctx: Ctx)
        requires
            Self::spec_encode_body(m, ctx) is Ok,
            Self::reads_back_body(m, ctx),
        ensures
            Self::spec_decode_body(pre + Self::spec_encode_body(m, ctx)->Ok_0 + post, pre.len() as int, ctx) == Ok::<(CreatableReplicaAssignmentModel, int), SerializationError>((m, pre.len() as int + Self::spec_encode_body(m, ctx)->Ok_0.len())),
    {
        let b0 = (array_bytes::<i32>(m.broker_ids, Ctx { version: ctx.version, flexible: ctx.flexible, classic: false }))->Ok_0;
        let b1 = if ctx.flexible { uvarint_bytes(0) } else { Seq::<u8>::empty() };
        let t2 = post;
        let t1 = b1 + t2;
        let t0 = b0 + t1;
        let e = Self::spec_encode_body(m, ctx)->Ok_0;
        assert(e =~= Seq::<u8>::empty() + b0 + b1);
        lemma_seq_assoc((Seq::<u8>::empty() + b0), b1, post);
        lemma_seq_assoc(Seq::<u8>::empty(), b0, (b1 + post));
        lemma_seq_empty_left((b0 + (b1 + post)));
        let s = pre + e + post;
        lemma_seq_assoc(pre, e, post);
        assert(s == pre + t0);
        let a0 = pre;
        assert(parse_array::<i32>(s, a0.len() as int, Ctx { version: ctx.version, flexible: ctx.flexible, classic: false }) == Ok::<(Seq<<i32 as DeepView>::V>, int), SerializationError>((m.broker_ids, a0.len() as int + b0.len()))) by {
            assert(array_bytes::<i32>(m.broker_ids, Ctx { version: ctx.version, flexible: ctx.flexible, classic: false }) is Ok);
            lemma_seq_assoc(a0, b0, t1);
            lemma_items_read_back::<i32>(m.broker_ids, Ctx { version: ctx.version, flexible: ctx.flexible, classic: false });
            lemma_array_roundtrip::<i32>(a0, m.broker_ids, t1, Ctx { version: ctx.version, flexible: ctx.flexible, classic: false });
        }
        lemma_seq_assoc(a0, b0, t1);
        let a1 = a0 + b0;
        if ctx.flexible {
            assert(parse_uvarint(s, a1.len() as int) == Ok::<(u64, int), SerializationError>((0u64, a1.len() as int + b1.len()))) by {
                lemma_seq_assoc(a1, b1, t2);
                lemma_uvarint_roundtrip(a1, 0, t2);
            }
        }
    }

    /// The bytes written: the encoding of each field, in the order of the
    /// protocol's layout. Reading them back, wherever they stand, gives the value,
    /// with each field that the version leaves out at its default.
    #[verifier::spinoff_prover]
    pub proof fn lemma_body_layout(pre: Seq<u8>, m: CreatableReplicaAssignmentModel, post: Seq<u8>, ctx: Ctx)
        requires
            Self::spec_encode_body(m, ctx) is Ok,
        ensures
            Self::spec_encode_body(m, ctx) == Ok::<Seq<u8>, SerializationError>(((array_bytes::<i32>(m.broker_ids, Ctx { version: ctx.version, flexible: ctx.flexible, classic: false }))->Ok_0) + (if ctx.flexible { uvarint_bytes(0) } else { Seq::<u8>::empty() })),
            Self::reads_back_body(m, ctx) ==> Self::spec_decode_body(pre + (((array_bytes::<i32>(m.broker_ids, Ctx { version: ctx.version, flexible: ctx.flexible, classic: false }))->Ok_0) + (if ctx.flexible { uvarint_bytes(0) } else { Seq::<u8>::empty() })) + post, pre.len() as int, ctx) == Ok::<(CreatableReplicaAssignmentModel, int), SerializationError>((m, pre.len() as int + (((array_bytes::<i32>(m.broker_ids, Ctx { version: ctx.version, flexible: ctx.flexible, classic: false }))->Ok_0) + (if ctx.flexible { uvarint_bytes(0) } else { Seq::<u8>::empty() })).len())),
    {
        let b0 = (array_bytes::<i32>(m.broker_ids, Ctx { version: ctx.version, flexible: ctx.flexible, classic: false }))->Ok_0;
        let b1 = if ctx.flexible { uvarint_bytes(0) } else { Seq::<u8>::empty() };
        let e = Self::spec_encode_body(m, ctx)->Ok_0;
        assert(e =~= Seq::<u8>::empty() + b0 + b1);
        assert(e =~= b0 + b1);
        if Self::reads_back_body(m, ctx) {
            Self::lemma_body_read_back(pre, m, post, ctx);
        }
    }

    /// Writing succeeds exactly when every field that the version carries can be
    /// encoded and every field that it leaves out, where leaving it out is an
    /// error, holds its default.
    #[verifier::spinoff_prover]
    pub proof fn lemma_body_write_succeeds(m: CreatableReplicaAssignmentModel, ctx: Ctx)
        ensures
            Self::spec_encode_body(m, ctx) is Ok <==> (array_bytes::<i32>(m.broker_ids, Ctx { version: ctx.version, flexible: ctx.flexible, classic: false }) is Ok),
    {
    }

    /// Writes the structure for `version`, with the compact encodings when `is_flexible`.
    /// On failure the buffer is left as it was.
    pub fn encode(&self, buf: &mut Vec<u8>, version: ApiVersion, is_flexible: bool) -> (r: Result<(), SerializationError>)
        ensures
            write_exact(r, old(buf)@, final(buf)@, Self::spec_encode_body(self.deep_view(), Ctx { version: version.0, flexible: is_flexible, classic: false })),
    {
        let start = buf.len();
        let r = self.encode_ctx(buf, Ctx::new(version, is_flexible));
        if r.is_err() {
            buf.truncate(start);
        }
        r
    }

    /// Reads the structure as written for `version`.
    /// On failure the reader is put back where it started.
    pub fn decode(buf: &mut Reader, version: ApiVersion, is_flexible: bool) -> (r: Result<Self, SerializationError>)
        ensures
            final(buf).bytes() == old(buf).bytes(),
            read_view_exact(r, Self::spec_decode_body(old(buf).bytes(), old(buf).pos(), Ctx { version: version.0, flexible: is_flexible, classic: false }), old(buf).pos(), final(buf).pos()),
    {
        let start = buf.position();
        let r = Self::decode_ctx(buf, Ctx::new(version, is_flexible));
        if r.is_err() {
            buf.set_position(start);
        }
        r
    }
}

impl KafkaCodec for CreatableReplicaAssignment {
    open spec fn spec_encode(m: CreatableReplicaAssignmentModel, ctx: Ctx) -> Result<Seq<u8>, SerializationError> {
        Self::spec_encode_body(m, ctx)
    }

    open spec fn spec_decode(s: Seq<u8>, pos: int, ctx: Ctx) -> Result<(CreatableReplicaAssignmentModel, int), SerializationError> {
        Self::spec_decode_body(s, pos, ctx)
    }

    open spec fn reads_back(v: CreatableReplicaAssignmentModel, ctx: Ctx) -> bool {
        Self::reads_back_body(v, ctx)
    }

    proof fn lemma_read_back(pre: Seq<u8>, v: CreatableReplicaAssignmentModel, post: Seq<u8>, ctx: Ctx) {
        Self::lemma_body_read_back(pre, v, post, ctx);
        assert(Self::spec_decode(pre + Self::spec_encode(v, ctx)->Ok_0 + post, pre.len() as int, ctx)
            == Self::spec_decode_body(pre + Self::spec_encode_body(v, ctx)->Ok_0 + post, pre.len() as int, ctx));
    }

    fn encode_ctx(&self, buf: &mut Vec<u8>, ctx: Ctx) -> (r: Result<(), SerializationError>) {
        let ghost mut w: Seq<u8> = Seq::empty();
        encode_array(&self.broker_ids, buf, Ctx { version: ctx.version, flexible: ctx.flexible, classic: false })?;
        proof {
            w = w + (array_bytes::<i32>(self.broker_ids.deep_view(), Ctx { version: ctx.version, flexible: ctx.flexible, classic: false }))->Ok_0;
        }
        assert(buf@ =~= old(buf)@ + w);
        if ctx.flexible {
            encode_unsigned_varint(0, buf);
            proof {
                w = w + uvarint_bytes(0);
            }
            assert(buf@ =~= old(buf)@ + w);
        }
        Ok(())
    }

    fn decode_ctx(buf: &mut Reader, ctx: Ctx) -> (r: Result<Self, SerializationError>) {
        let broker_ids = decode_array::<i32>(buf, Ctx { version: ctx.version, flexible: ctx.flexible, classic: false })?;
        if ctx.flexible {
            let (_tag_count, _) = decode_unsigned_varint(buf)?;
        }
        Ok(CreatableReplicaAssignment { broker_ids })
    }
}

// -------------------------------------------------------
// CreatableTopic
// -------------------------------------------------------
#[derive(Clone, Debug, Default, PartialEq)]
pub struct CreatableTopic {
    /// The number of partitions to create in the topic, or -1 if we are either specifying a manual partition assignment or using the default partitions.
    pub num_partitions: i32,
    /// The number of replicas to create for each partition in the topic, or -1 if we are either specifying a manual partition assignment or using the default replication factor.
    pub replication_factor: i16,
    /// The manual partition assignment, or the empty array if we are using automatic assignment.
    /// IndexMap key `PartitionIndex` (int32): The partition index.
    pub assignments: IndexMap<i32, CreatableReplicaAssignment>,
    /// The custom topic configurations to set.
    /// IndexMap key `Name` (string): The configuration name.
    pub configs: IndexMap<String, CreatableTopicConfig>,
}

/// The contents of `CreatableTopic`, with strings as characters and
/// nested values by their contents.
pub struct CreatableTopicModel {
    pub num_partitions: i32,
    pub replication_factor: i16,
    pub assignments: Seq<(i32, CreatableReplicaAssignmentModel)>,
    pub configs: Seq<(Seq<char>, CreatableTopicConfigModel)>,
}

impl DeepView for CreatableTopic {
    type V = CreatableTopicModel;

    open spec fn deep_view(&self) -> CreatableTopicModel {
        CreatableTopicModel {
            num_partitions: self.num_partitions,
            replication_factor: self.replication_factor,
            assignments: creatable_replica_assignment_map_view(self.assignments),
            configs: creatable_topic_config_map_view(self.configs),
        }
    }
}

impl CreatableTopic {
    /// The encoding of the structure in context `ctx`.
    pub open spec fn spec_encode_body(m: CreatableTopicModel, ctx: Ctx) -> Result<Seq<u8>, SerializationError> {
        let r = Ok(Seq::<u8>::empty());
        let r = then(r, Ok(i32_bytes(m.num_partitions)));
        let r = then(r, Ok(i16_bytes(m.replication_factor)));
        let r = then(r, map_bytes::<i32, CreatableReplicaAssignment>(m.assignments, Ctx { version: ctx.version, flexible: ctx.flexible, classic: false }));
        let r = then(r, map_bytes::<String, CreatableTopicConfig>(m.configs, Ctx { version: ctx.version, flexible: ctx.flexible, classic: false }));
        let r = if ctx.flexible { then(r, Ok(uvarint_bytes(0))) } else { r };
        r
    }

    /// The structure read from `s` at `pos` in context `ctx`.
    pub open spec fn spec_decode_body(s: Seq<u8>, pos: int, ctx: Ctx) -> Result<(CreatableTopicModel, int), SerializationError> {
        match parse_i32(s, pos) {
            Err(e) => Err(e),
            Ok((num_partitions, pos)) =>
            match parse_i16(s, pos) {
                Err(e) => Err(e),
                Ok((replication_factor, pos)) =>
                match parse_map::<i32, CreatableReplicaAssignment>(s, pos, Ctx { version: ctx.version, flexible: ctx.flexible, classic: false }) {
                    Err(e) => Err(e),
                    Ok((assignments, pos)) =>
                    match parse_map::<String, CreatableTopicConfig>(s, pos, Ctx { version: ctx.version, flexible: ctx.flexible, classic: false }) {
                        Err(e) => Err(e),
                        Ok((configs, pos)) =>
                        match (if ctx.flexible { parse_uvarint(s, pos) } else { Ok((0u64, pos)) }) {
                            Err(e) => Err(e),
                            Ok((_tag_count, pos)) =>
                            Ok((CreatableTopicModel { num_partitions, replication_factor, assignments, configs }, pos))
                        }
                    }
                }
            }
        }
    }

    /// Values of the structure that read back from their encoding in `ctx`: every
    /// field that the version leaves out holds its default, and nested values
    /// read back.
    pub open spec fn reads_back_body(m: CreatableTopicModel, ctx: Ctx) -> bool {
        &&& (keys_distinct(m.assignments) && entries_read_back::<i32, CreatableReplicaAssignment>(m.assignments, Ctx { version: ctx.version, flexible: ctx.flexible, classic: false }))
        &&& (keys_distinct(m.configs) && entries_read_back::<String, CreatableTopicConfig>(m.configs, Ctx { version: ctx.version, flexible: ctx.flexible, classic: false }))
    }

    /// A value that can be written in `ctx` and reads back: decoding its encoding,
    /// wherever it stands, gives the value and the position just after it.
    #[verifier::spinoff_prover]
    pub proof fn lemma_body_read_back(pre: Seq<u8>, m: CreatableTopicModel, post: Seq<u8>, ctx: Ctx)
        requires
            Self::spec_encode_body(m, ctx) is Ok,
            Self::reads_back_body(m, ctx),
        ensures
            Self::spec_decode_body(pre + Self::spec_encode_body(m, ctx)->Ok_0 + post, pre.len() as int, ctx) == Ok::<(CreatableTopicModel, int), SerializationError>((m, pre.len() as int + Self::spec_encode_body(m, ctx)->Ok_0.len())),
    {
        let b0 = i32_bytes(m.num_partitions);
        let b1 = i16_bytes(m.replication_factor);
        let b2 = (map_bytes::<i32, CreatableReplicaAssignment>(m.assignments, Ctx { version: ctx.version, flexible: ctx.flexible, classic: false }))->Ok_0;
        let b3 = (map_bytes::<String, CreatableTopicConfig>(m.configs, Ctx { version: ctx.version, flexible: ctx.flexible, classic: false }))->Ok_0;
        let b4 = if ctx.flexible { uvarint_bytes(0) } else { Seq::<u8>::empty() };
        let t5 = post;
        let t4 = b4 + t5;
        let t3 = b3 + t4;
        let t2 = b2 + t3;
        let t1 = b1 + t2;
        let t0 = b0 + t1;
        let e = Self::spec_encode_body(m, ctx)->Ok_0;
        assert(e =~= Seq::<u8>::empty() + b0 + b1 + b2 + b3 + b4);
        lemma_seq_assoc(((((Seq::<u8>::empty() + b0) + b1) + b2) + b3), b4, post);
        lemma_seq_assoc((((Seq::<u8>::empty() + b0) + b1) + b2), b3, (b4 + post));
        lemma_seq_assoc(((Seq::<u8>::empty() + b0) + b1), b2, (b3 + (b4 + post)));
        lemma_seq_assoc((Seq::<u8>::empty() + b0), b1, (b2 + (b3 + (b4 + post))));
        lemma_seq_assoc(Seq::<u8>::empty(), b0, (b1 + (b2 + (b3 + (b4 + post)))));
        lemma_seq_empty_left((b0 + (b1 + (b2 + (b3 + (b4 + post))))));
        let s = pre + e + post;
        lemma_seq_assoc(pre, e, post);
        assert(s == pre + t0);
        let a0 = pre;
        assert(parse_i32(s, a0.len() as int) == Ok::<(i32, int), SerializationError>((m.num_partitions, a0.len() as int + b0.len()))) by {
            lemma_seq_assoc(a0, b0, t1);
            lemma_i32_roundtrip(a0, m.num_partitions, t1);
        }
        lemma_seq_assoc(a0, b0, t1);
        let a1 = a0 + b0;
        assert(parse_i16(s, a1.len() as int) == Ok::<(i16, int), SerializationError>((m.replication_factor, a1.len() as int + b1.len()))) by {
            lemma_seq_assoc(a1, b1, t2);
            lemma_i16_roundtrip(a1, m.replication_factor, t2);
        }
        lemma_seq_assoc(a1, b1, t2);
        let a2 = a1 + b1;
        assert(parse_map::<i32, CreatableReplicaAssignment>(s, a2.len() as int, Ctx { version: ctx.version, flexible: ctx.flexible, classic: false }) == Ok::<(Seq<(i32, CreatableReplicaAssignmentModel)>, int), SerializationError>((m.assignments, a2.len() as int + b2.len()))) by {
            assert(map_bytes::<i32, CreatableReplicaAssignment>(m.assignments, Ctx { version: ctx.version, flexible: ctx.flexible, classic: false }) is Ok);
            lemma_seq_assoc(a2, b2, t3);
            lemma_map_roundtrip::<i32, CreatableReplicaAssignment>(a2, m.assignments, t3, Ctx { version: ctx.version, flexible: ctx.flexible, classic: false });
        }
        lemma_seq_assoc(a2, b2, t3);
        let a3 = a2 + b2;
        assert(parse_map::<String, CreatableTopicConfig>(s, a3.len() as int, Ctx { version: ctx.version, flexible: ctx.flexible, classic: false }) == Ok::<(Seq<(Seq<char>, CreatableTopicConfigModel)>, int), SerializationError>((m.configs, a3.len() as int + b3.len()))) by {
            assert(map_bytes::<String, CreatableTopicConfig>(m.configs, Ctx { version: ctx.version, flexible: ctx.flexible, classic: false }) is Ok);
            lemma_seq_assoc(a3, b3, t4);
            lemma_map_roundtrip::<String, CreatableTopicConfig>(a3, m.configs, t4, Ctx { version: ctx.version, flexible: ctx.flexible, classic: false });
        }
        lemma_seq_assoc(a3, b3, t4);
        let a4 = a3 + b3;
        if ctx.flexible {
            assert(parse_uvarint(s, a4.len() as int) == Ok::<(u64, int), SerializationError>((0u64, a4.len() as int + b4.len()))) by {
                lemma_seq_assoc(a4, b4, t5);
                lemma_uvarint_roundtrip(a4, 0, t5);
            }
        }
    }

    /// The bytes written: the encoding of each field, in the order of the
    /// protocol's layout. Reading them back, wherever they stand, gives the value,
    /// with each field that the version leaves out at its default.
    #[verifier::spinoff_prover]
    pub proof fn lemma_body_layout(pre: Seq<u8>, m: CreatableTopicModel, post: Seq<u8>, ctx: Ctx)
        requires
            Self::spec_encode_body(m, ctx) is Ok,
        ensures
            Self::spec_encode_body(m, ctx) == Ok::<Seq<u8>, SerializationError>((i32_bytes(m.num_partitions)) + (i16_bytes(m.replication_factor)) + ((map_bytes::<i32, CreatableReplicaAssignment>(m.assignments, Ctx { version: ctx.version, flexible: ctx.flexible, classic: false }))->Ok_0) + ((map_bytes::<String, CreatableTopicConfig>(m.configs, Ctx { version: ctx.version, flexible: ctx.flexible, classic: false }))->Ok_0) + (if ctx.flexible { uvarint_bytes(0) } else { Seq::<u8>::empty() })),
            Self::reads_back_body(m, ctx) ==> Self::spec_decode_body(pre + ((i32_bytes(m.num_partitions)) + (i16_bytes(m.replication_factor)) + ((map_bytes::<i32, CreatableReplicaAssignment>(m.assignments, Ctx { version: ctx.version, flexible: ctx.flexible, classic: false }))->Ok_0) + ((map_bytes::<String, CreatableTopicConfig>(m.configs, Ctx { version: ctx.version, flexible: ctx.flexible, classic: false }))->Ok_0) + (if ctx.flexible { uvarint_bytes(0) } else { Seq::<u8>::empty() })) + post, pre.len() as int, ctx) == Ok::<(CreatableTopicModel, int), SerializationError>((m, pre.len() as int + ((i32_bytes(m.num_partitions)) + (i16_bytes(m.replication_factor)) + ((map_bytes::<i32, CreatableReplicaAssignment>(m.assignments, Ctx { version: ctx.version, flexible: ctx.flexible, classic: false }))->Ok_0) + ((map_bytes::<String, CreatableTopicConfig>(m.configs, Ctx { version: ctx.version, flexible: ctx.flexible, classic: false }))->Ok_0) + (if ctx.flexible { uvarint_bytes(0) } else { Seq::<u8>::empty() })).len())),
    {
        let b0 = i32_bytes(m.num_partitions);
        let b1 = i16_bytes(m.replication_factor);
        let b2 = (map_bytes::<i32, CreatableReplicaAssignment>(m.assignments, Ctx { version: ctx.version, flexible: ctx.flexible, classic: false }))->Ok_0;
        let b3 = (map_bytes::<String, CreatableTopicConfig>(m.configs, Ctx { version: ctx.version, flexible: ctx.flexible, classic: false }))->Ok_0;
        let b4 = if ctx.flexible { uvarint_bytes(0) } else { Seq::<u8>::empty() };
        let e = Self::spec_encode_body(m, ctx)->Ok_0;
        assert(e =~= Seq::<u8>::empty() + b0 + b1 + b2 + b3 + b4);
        assert(e =~= b0 + b1 + b2 + b3 + b4);
        if Self::reads_back_body(m, ctx) {
            Self::lemma_body_read_back(pre, m, post, ctx);
        }
    }

    /// Writing succeeds exactly when every field that the version carries can be
    /// encoded and every field that it leaves out, where leaving it out is an
    /// error, holds its default.
    #[verifier::spinoff_prover]
    pub proof fn lemma_body_write_succeeds(m: CreatableTopicModel, ctx: Ctx)
        ensures
            Self::spec_encode_body(m, ctx) is Ok <==> (map_bytes::<i32, CreatableReplicaAssignment>(m.assignments, Ctx { version: ctx.version, flexible: ctx.flexible, classic: false }) is Ok) && (map_bytes::<String, CreatableTopicConfig>(m.configs, Ctx { version: ctx.version, flexible: ctx.flexible, classic: false }) is Ok),
    {
    }

    /// Writes the structure for `version`, with the compact encodings when `is_flexible`.
    /// On failure the buffer is left as it was.
    pub fn encode(&self, buf: &mut Vec<u8>, version: ApiVersion, is_flexible: bool) -> (r: Result<(), SerializationError>)
        ensures
            write_exact(r, old(buf)@, final(buf)@, Self::spec_encode_body(self.deep_view(), Ctx { version: version.0, flexible: is_flexible, classic: false })),
    {
        let start = buf.len();
        let r = self.encode_ctx(buf, Ctx::new(version, is_flexible));
        if r.is_err() {
            buf.truncate(start);
        }
        r
    }

    /// Reads the structure as written for `version`.
    /// On failure the reader is put back where it started.
    pub fn decode(buf: &mut Reader, version: ApiVersion, is_flexible: bool) -> (r: Result<Self, SerializationError>)
        ensures
            final(buf).bytes() == old(buf).bytes(),
            read_view_exact(r, Self::spec_decode_body(old(buf).bytes(), old(buf).pos(), Ctx { version: version.0, flexible: is_flexible, classic: false }), old(buf).pos(), final(buf).pos()),
    {
        let start = buf.position();
        let r = Self::decode_ctx(buf, Ctx::new(version, is_flexible));
        if r.is_err() {
            buf.set_position(start);
        }
        r
    }
}

impl KafkaCodec for CreatableTopic {
    open spec fn spec_encode(m: CreatableTopicModel, ctx: Ctx) -> Result<Seq<u8>, SerializationError> {
        Self::spec_encode_body(m, ctx)
    }

    open spec fn spec_decode(s: Seq<u8>, pos: int, ctx: Ctx) -> Result<(CreatableTopicModel, int), SerializationError> {
        Self::spec_decode_body(s, pos, ctx)
    }

    open spec fn reads_back(v: CreatableTopicModel, ctx: Ctx) -> bool {
        Self::reads_back_body(v, ctx)
    }

    proof fn lemma_read_back(pre: Seq<u8>, v: CreatableTopicModel, post: Seq<u8>, ctx: Ctx) {
        Self::lemma_body_read_back(pre, v, post, ctx);
        assert(Self::spec_decode(pre + Self::spec_encode(v, ctx)->Ok_0 + post, pre.len() as int, ctx)
            == Self::spec_decode_body(pre + Self::spec_encode_body(v, ctx)->Ok_0 + post, pre.len() as int, ctx));
    }

    fn encode_ctx(&self, buf: &mut Vec<u8>, ctx: Ctx) -> (r: Result<(), SerializationError>) {
        let ghost mut w: Seq<u8> = Seq::empty();
        put_i32(buf, self.num_partitions);
        proof {
            w = w + i32_bytes(self.num_partitions);
        }
        assert(buf@ =~= old(buf)@ + w);
        put_i16(buf, self.replication_factor);
        proof {
            w = w + i16_bytes(self.replication_factor);
        }
        assert(buf@ =~= old(buf)@ + w);
        encode_creatable_replica_assignment_map(&self.assignments, buf, Ctx { version: ctx.version, flexible: ctx.flexible, classic: false })?;
        proof {
            w = w + (map_bytes::<i32, CreatableReplicaAssignment>(creatable_replica_assignment_map_view(self.assignments), Ctx { version: ctx.version, flexible: ctx.flexible, classic: false }))->Ok_0;
        }
        assert(buf@ =~= old(buf)@ + w);
        encode_creatable_topic_config_map(&self.configs, buf, Ctx { version: ctx.version, flexible: ctx.flexible, classic: false })?;
        proof {
            w = w + (map_bytes::<String, CreatableTopicConfig>(creatable_topic_config_map_view(self.configs), Ctx { version: ctx.version, flexible: ctx.flexible, classic: false }))->Ok_0;
        }
        assert(buf@ =~= old(buf)@ + w);
        if ctx.flexible {
            encode_unsigned_varint(0, buf);
            proof {
                w = w + uvarint_bytes(0);
            }
            assert(buf@ =~= old(buf)@ + w);
        }
        Ok(())
    }

    fn decode_ctx(buf: &mut Reader, ctx: Ctx) -> (r: Result<Self, SerializationError>) {
        let num_partitions = buf.get_i32()?;
        let replication_factor = buf.get_i16()?;
        let assignments = decode_creatable_replica_assignment_map(buf, Ctx { version: ctx.version, flexible: ctx.flexible, classic: false })?;
        let configs = decode_creatable_topic_config_map(buf, Ctx { version: ctx.version, flexible: ctx.flexible, classic: false })?;
        if ctx.flexible {
            let (_tag_count, _) = decode_unsigned_varint(buf)?;
        }
        Ok(CreatableTopic { num_partitions, replication_factor, assignments, configs })
    }
}

// -------------------------------------------------------
// CreatableTopicConfig
// -------------------------------------------------------
#[derive(Clone, Debug, Default, PartialEq)]
pub struct CreatableTopicConfig {
    /// The configuration value.
    pub value: Option<String>,
}

/// The contents of `CreatableTopicConfig`, with strings as characters and
/// nested values by their contents.
pub struct CreatableTopicConfigModel {
    pub value: Option<Seq<char>>,
}

impl DeepView for CreatableTopicConfig {
    type V = CreatableTopicConfigModel;

    open spec fn deep_view(&self) -> CreatableTopicConfigModel {
        CreatableTopicConfigModel {
            value: self.value.deep_view(),
        }
    }
}

impl CreatableTopicConfig {
    /// The encoding of the structure in context `ctx`.
    pub open spec fn spec_encode_body(m: CreatableTopicConfigModel, ctx: Ctx) -> Result<Seq<u8>, SerializationError> {
        let r = Ok(Seq::<u8>::empty());
        let r = then(r, nullable_string_bytes(m.value, ctx.flexible));
        let r = if ctx.flexible { then(r, Ok(uvarint_bytes(0))) } else { r };
        r
    }

    /// The structure read from `s` at `pos` in context `ctx`.
    pub open spec fn spec_decode_body(s: Seq<u8>, pos: int, ctx: Ctx) -> Result<(CreatableTopicConfigModel, int), SerializationError> {
        match parse_nullable_string(s, pos, ctx.flexible) {
            Err(e) => Err(e),
            Ok((value, pos)) =>
            match (if ctx.flexible { parse_uvarint(s, pos) } else { Ok((0u64, pos)) }) {
                Err(e) => Err(e),
                Ok((_tag_count, pos)) =>
                Ok((CreatableTopicConfigModel { value }, pos))
            }
        }
    }

    /// Values of the structure that read back from their encoding in `ctx`: every
    /// field that the version leaves out holds its default, and nested values
    /// read back.
    pub open spec fn reads_back_body(m: CreatableTopicConfigModel, ctx: Ctx) -> bool {
        true
    }

    /// A value that can be written in `ctx` and reads back: decoding its encoding,
    /// wherever it stands, gives the value and the position just after it.
    #[verifier::spinoff_prover]
    pub proof fn lemma_body_read_back(pre: Seq<u8>, m: CreatableTopicConfigModel, post: Seq<u8>, ctx: Ctx)
        requires
            Self::spec_encode_body(m, ctx) is Ok,
            Self::reads_back_body(m, ctx),
        ensures
            Self::spec_decode_body(pre + Self::spec_encode_body(m, ctx)->Ok_0 + post, pre.len() as int, ctx) == Ok::<(CreatableTopicConfigModel, int), SerializationError>((m, pre.len() as int + Self::spec_encode_body(m, ctx)->Ok_0.len())),
    {
        let b0 = (nullable_string_bytes(m.value, ctx.flexible))->Ok_0;
        let b1 = if ctx.flexible { uvarint_bytes(0) } else { Seq::<u8>::empty() };
        let t2 = post;
        let t1 = b1 + t2;
        let t0 = b0 + t1;
        let e = Self::spec_encode_body(m, ctx)->Ok_0;
        assert(e =~= Seq::<u8>::empty() + b0 + b1);
        lemma_seq_assoc((Seq::<u8>::empty() + b0), b1, post);
        lemma_seq_assoc(Seq::<u8>::empty(), b0, (b1 + post));
        lemma_seq_empty_left((b0 + (b1 + post)));
        let s = pre + e + post;
        lemma_seq_assoc(pre, e, post);
        assert(s == pre + t0);
        let a0 = pre;
        assert(parse_nullable_string(s, a0.len() as int, ctx.flexible) == Ok::<(Option<Seq<char>>, int), SerializationError>((m.value, a0.len() as int + b0.len()))) by {
            assert(nullable_string_bytes(m.value, ctx.flexible) is Ok);
            lemma_seq_assoc(a0, b0, t1);
            lemma_nullable_string_roundtrip(a0, m.value, t1, ctx.flexible);
        }
        lemma_seq_assoc(a0, b0, t1);
        let a1 = a0 + b0;
        if ctx.flexible {
            assert(parse_uvarint(s, a1.len() as int) == Ok::<(u64, int), SerializationError>((0u64, a1.len() as int + b1.len()))) by {
                lemma_seq_assoc(a1, b1, t2);
                lemma_uvarint_roundtrip(a1, 0, t2);
            }
        }
    }

    /// The bytes written: the encoding of each field, in the order of the
    /// protocol's layout. Reading them back, wherever they stand, gives the value,
    /// with each field that the version leaves out at its default.
    #[verifier::spinoff_prover]
    pub proof fn lemma_body_layout(pre: Seq<u8>, m: CreatableTopicConfigModel, post: Seq<u8>, ctx: Ctx)
        requires
            Self::spec_encode_body(m, ctx) is Ok,
        ensures
            Self::spec_encode_body(m, ctx) == Ok::<Seq<u8>, SerializationError>(((nullable_string_bytes(m.value, ctx.flexible))->Ok_0) + (if ctx.flexible { uvarint_bytes(0) } else { Seq::<u8>::empty() })),
            Self::reads_back_body(m, ctx) ==> Self::spec_decode_body(pre + (((nullable_string_bytes(m.value, ctx.flexible))->Ok_0) + (if ctx.flexible { uvarint_bytes(0) } else { Seq::<u8>::empty() })) + post, pre.len() as int, ctx) == Ok::<(CreatableTopicConfigModel, int), SerializationError>((m, pre.len() as int + (((nullable_string_bytes(m.value, ctx.flexible))->Ok_0) + (if ctx.flexible { uvarint_bytes(0) } else { Seq::<u8>::empty() })).len())),
    {
        let b0 = (nullable_string_bytes(m.value, ctx.flexible))->Ok_0;
        let b1 = if ctx.flexible { uvarint_bytes(0) } else { Seq::<u8>::empty() };
        let e = Self::spec_encode_body(m, ctx)->Ok_0;
        assert(e =~= Seq::<u8>::empty() + b0 + b1);
        assert(e =~= b0 + b1);
        if Self::reads_back_body(m, ctx) {
            Self::lemma_body_read_back(pre, m, post, ctx);
        }
    }

    /// Writing succeeds exactly when every field that the version carries can be
    /// encoded and every field that it leaves out, where leaving it out is an
    /// error, holds its default.
    #[verifier::spinoff_prover]
    pub proof fn lemma_body_write_succeeds(m: CreatableTopicConfigModel, ctx: Ctx)
        ensures
            Self::spec_encode_body(m, ctx) is Ok <==> (nullable_string_bytes(m.value, ctx.flexible) is Ok),
    {
    }

    /// Writes the structure for `version`, with the compact encodings when `is_flexible`.
    /// On failure the buffer is left as it was.
    pub fn encode(&self, buf: &mut Vec<u8>, version: ApiVersion, is_flexible: bool) -> (r: Result<(), SerializationError>)
        ensures
            write_exact(r, old(buf)@, final(buf)@, Self::spec_encode_body(self.deep_view(), Ctx { version: version.0, flexible: is_flexible, classic: false })),
    {
        let start = buf.len();
        let r = self.encode_ctx(buf, Ctx::new(version, is_flexible));
        if r.is_err() {
            buf.truncate(start);
        }
        r
    }

    /// Reads the structure as written for `version`.
    /// On failure the reader is put back where it started.
    pub fn decode(buf: &mut Reader, version: ApiVersion, is_flexible: bool) -> (r: Result<Self, SerializationError>)
        ensures
            final(buf).bytes() == old(buf).bytes(),
            read_view_exact(r, Self::spec_decode_body(old(buf).bytes(), old(buf).pos(), Ctx { version: version.0, flexible: is_flexible, classic: false }), old(buf).pos(), final(buf).pos()),
    {
        let start = buf.position();
        let r = Self::decode_ctx(buf, Ctx::new(version, is_flexible));
        if r.is_err() {
            buf.set_position(start);
        }
        r
    }
}

impl KafkaCodec for CreatableTopicConfig {
    open spec fn spec_encode(m: CreatableTopicConfigModel, ctx: Ctx) -> Result<Seq<u8>, SerializationError> {
        Self::spec_encode_body(m, ctx)
    }

    open spec fn spec_decode(s: Seq<u8>, pos: int, ctx: Ctx) -> Result<(CreatableTopicConfigModel, int), SerializationError> {
        Self::spec_decode_body(s, pos, ctx)
    }

    open spec fn reads_back(v: CreatableTopicConfigModel, ctx: Ctx) -> bool {
        Self::reads_back_body(v, ctx)
    }

    proof fn lemma_read_back(pre: Seq<u8>, v: CreatableTopicConfigModel, post: Seq<u8>, ctx: Ctx) {
        Self::lemma_body_read_back(pre, v, post, ctx);
        assert(Self::spec_decode(pre + Self::spec_encode(v, ctx)->Ok_0 + post, pre.len() as int, ctx)
            == Self::spec_decode_body(pre + Self::spec_encode_body(v, ctx)->Ok_0 + post, pre.len() as int, ctx));
    }

    fn encode_ctx(&self, buf: &mut Vec<u8>, ctx: Ctx) -> (r: Result<(), SerializationError>) {
        let ghost mut w: Seq<u8> = Seq::empty();
        encode_nullable_string(&self.value, buf, ctx.flexible)?;
        proof {
            w = w + (nullable_string_bytes(self.value.deep_view(), ctx.flexible))->Ok_0;
        }
        assert(buf@ =~= old(buf)@ + w);
        if ctx.flexible {
            encode_unsigned_varint(0, buf);
            proof {
                w = w + uvarint_bytes(0);
            }
            assert(buf@ =~= old(buf)@ + w);
        }
        Ok(())
    }

    fn decode_ctx(buf: &mut Reader, ctx: Ctx) -> (r: Result<Self, SerializationError>) {
        let value = buf.get_nullable_string(ctx.flexible)?;
        if ctx.flexible {
            let (_tag_count, _) = decode_unsigned_varint(buf)?;
        }
        Ok(CreatableTopicConfig { value })
    }
}

} // verus!
