//! Keyed collections that keep the order in which keys were first inserted,
//! and their wire encoding: a length, then each entry as its key followed
//! by its value.
//!
//! The collections themselves are `indexmap::IndexMap`s; each message module
//! that holds one names its entries and declares the few calls it makes.
//! What is common to all of them, the order of entries after an insert and
//! the bytes of a map, is stated and proved here.
use indexmap::IndexMap;
use vstd::prelude::*;
use crate::serialization::{
    encode_unsigned_varint, i32_bytes, len32_bytes, parse_len32, put_i32, put_len32, then, uvarint_bytes,
    write_ok, Ctx, KafkaCodec, Reader, SerializationError, MAX_LEN32,
};
use crate::roundtrip::{lemma_i32_roundtrip, lemma_len32_roundtrip, lemma_uvarint_roundtrip};

verus! {

/// `indexmap::IndexMap`, whose contents each message module names.
#[verifier::external_type_specification]
#[verifier::external_body]
#[verifier::reject_recursive_types(K)]
#[verifier::reject_recursive_types(V)]
#[verifier::reject_recursive_types(S)]
pub struct ExIndexMap<K, V, S>(IndexMap<K, V, S>);

/// `IndexMap::clone`, which the messages that hold a map derive `Clone`
/// through. Nothing is stated of the copy: the message modules name the
/// entries of each kind of map, and a generic statement could not speak of them.
pub assume_specification<K, V, S>[ <IndexMap<K, V, S> as Clone>::clone ](m: &IndexMap<K, V, S>) -> (r: IndexMap<K, V, S>)
    where
        K: Clone,
        V: Clone,
        S: Clone,
;

/// The index of the first entry whose key is `k`, if there is one.
pub open spec fn key_index<K, V>(es: Seq<(K, V)>, k: K) -> Option<int>
    decreases es.len(),
{
    if es.len() == 0 {
        None
    } else if es[0].0 == k {
        Some(0)
    } else {
        match key_index(es.drop_first(), k) {
            Some(i) => Some(i + 1),
            None => None,
        }
    }
}

/// The entries after inserting `k` with `v`: a key already present keeps
/// its place and takes the new value; a new key goes last.
pub open spec fn insert_entry<K, V>(es: Seq<(K, V)>, k: K, v: V) -> Seq<(K, V)> {
    match key_index(es, k) {
        Some(i) => es.update(i, (k, v)),
        None => es.push((k, v)),
    }
}

/// The entries with each value taken by its contents.
pub open spec fn entries_view<KV, V: DeepView>(es: Seq<(KV, V)>) -> Seq<(KV, V::V)> {
    es.map_values(|e: (KV, V)| (e.0, e.1.deep_view()))
}

/// Encoding of one entry: the key, then the value.
pub open spec fn entry_bytes<K: KafkaCodec, V: KafkaCodec>(k: K::V, v: V::V, ctx: Ctx) -> Result<Seq<u8>, SerializationError> {
    then(K::spec_encode(k, ctx), V::spec_encode(v, ctx))
}

/// Concatenated encodings of the entries, in order.
pub open spec fn entries_bytes<K: KafkaCodec, V: KafkaCodec>(es: Seq<(K::V, V::V)>, ctx: Ctx) -> Result<Seq<u8>, SerializationError>
    decreases es.len(),
{
    if es.len() == 0 {
        Ok(Seq::empty())
    } else {
        then(entries_bytes::<K, V>(es.drop_last(), ctx), entry_bytes::<K, V>(es.last().0, es.last().1, ctx))
    }
}

/// Encoding of a map: its number of entries, then the entries.
pub open spec fn map_bytes<K: KafkaCodec, V: KafkaCodec>(es: Seq<(K::V, V::V)>, ctx: Ctx) -> Result<Seq<u8>, SerializationError> {
    if es.len() <= MAX_LEN32 {
        then(Ok(len32_bytes(es.len(), ctx.flexible)), entries_bytes::<K, V>(es, ctx))
    } else {
        Err(SerializationError::ValueTooLarge { message: "map too long" })
    }
}

/// Encoding of an optional map: the null length, or the map.
pub open spec fn nullable_map_bytes<K: KafkaCodec, V: KafkaCodec>(es: Option<Seq<(K::V, V::V)>>, ctx: Ctx) -> Result<Seq<u8>, SerializationError> {
    match es {
        None => Ok(null_len32_bytes(ctx.flexible)),
        Some(v) => map_bytes::<K, V>(v, ctx),
    }
}

/// The null length: -1 as an INT32, or 0 as a varint.
pub open spec fn null_len32_bytes(flexible: bool) -> Seq<u8> {
    if flexible {
        uvarint_bytes(0)
    } else {
        i32_bytes(-1i32)
    }
}

/// Decoding one entry at `pos`: a key, then a value.
pub open spec fn parse_entry<K: KafkaCodec, V: KafkaCodec>(s: Seq<u8>, pos: int, ctx: Ctx) -> Result<((K::V, V::V), int), SerializationError> {
    match K::spec_decode(s, pos, ctx) {
        Ok((k, p)) => match V::spec_decode(s, p, ctx) {
            Ok((v, q)) => Ok(((k, v), q)),
            Err(e) => Err(e),
        },
        Err(e) => Err(e),
    }
}

/// Decoding `n` entries from `pos`, inserting each into the map in turn.
pub open spec fn parse_entries<K: KafkaCodec, V: KafkaCodec>(s: Seq<u8>, pos: int, n: nat, ctx: Ctx) -> Result<(Seq<(K::V, V::V)>, int), SerializationError>
    decreases n,
{
    if n == 0 {
        Ok((Seq::empty(), pos))
    } else {
        match parse_entries::<K, V>(s, pos, (n - 1) as nat, ctx) {
            Ok((es, p)) => match parse_entry::<K, V>(s, p, ctx) {
                Ok((kv, q)) => Ok((insert_entry(es, kv.0, kv.1), q)),
                Err(e) => Err(e),
            },
            Err(e) => Err(e),
        }
    }
}

/// Decoding a map: a null length is invalid.
pub open spec fn parse_map<K: KafkaCodec, V: KafkaCodec>(s: Seq<u8>, pos: int, ctx: Ctx) -> Result<(Seq<(K::V, V::V)>, int), SerializationError> {
    match parse_len32(s, pos, ctx.flexible) {
        Ok((None, _)) => Err(SerializationError::InvalidLength),
        Ok((Some(n), p)) => parse_entries::<K, V>(s, p, n, ctx),
        Err(e) => Err(e),
    }
}

/// Decoding an optional map: the null length gives `None`.
pub open spec fn parse_nullable_map<K: KafkaCodec, V: KafkaCodec>(s: Seq<u8>, pos: int, ctx: Ctx) -> Result<(Option<Seq<(K::V, V::V)>>, int), SerializationError> {
    match parse_len32(s, pos, ctx.flexible) {
        Ok((None, p)) => Ok((None, p)),
        Ok((Some(n), p)) => match parse_entries::<K, V>(s, p, n, ctx) {
            Ok((es, q)) => Ok((Some(es), q)),
            Err(e) => Err(e),
        },
        Err(e) => Err(e),
    }
}

proof fn lemma_key_index_view<KV, V: DeepView>(es: Seq<(KV, V)>, k: KV)
    ensures
        key_index(entries_view(es), k) == key_index(es, k),
    decreases es.len(),
{
    if es.len() > 0 {
        assert(entries_view(es).drop_first() =~= entries_view(es.drop_first()));
        lemma_key_index_view(es.drop_first(), k);
    }
}

proof fn lemma_key_index_bounds<K, V>(es: Seq<(K, V)>, k: K)
    ensures
        key_index(es, k) matches Some(i) ==> 0 <= i < es.len() && es[i].0 == k,
    decreases es.len(),
{
    if es.len() > 0 {
        lemma_key_index_bounds(es.drop_first(), k);
    }
}

/// Inserting commutes with taking the values by their contents.
pub proof fn lemma_insert_entry_view<KV, V: DeepView>(es: Seq<(KV, V)>, k: KV, v: V)
    ensures
        entries_view(insert_entry(es, k, v)) == insert_entry(entries_view(es), k, v.deep_view()),
{
    lemma_key_index_view(es, k);
    lemma_key_index_bounds(es, k);
    match key_index(es, k) {
        Some(i) => {
            assert(entries_view(es.update(i, (k, v))) =~= entries_view(es).update(i, (k, v.deep_view())));
        },
        None => {
            assert(entries_view(es.push((k, v))) =~= entries_view(es).push((k, v.deep_view())));
        },
    }
}

proof fn lemma_entries_bytes_err<K: KafkaCodec, V: KafkaCodec>(es: Seq<(K::V, V::V)>, i: int, j: int, ctx: Ctx, e: SerializationError)
    requires
        0 <= i <= j <= es.len(),
        entries_bytes::<K, V>(es.take(i), ctx) == Err::<Seq<u8>, SerializationError>(e),
    ensures
        entries_bytes::<K, V>(es.take(j), ctx) == Err::<Seq<u8>, SerializationError>(e),
    decreases j - i,
{
    if j > i {
        lemma_entries_bytes_err::<K, V>(es, i, j - 1, ctx, e);
        assert(es.take(j).drop_last() =~= es.take(j - 1));
    }
}

/// Writes one entry: the key, then the value.
pub fn encode_entry<K: KafkaCodec, V: KafkaCodec>(k: &K, v: &V, buf: &mut Vec<u8>, ctx: Ctx) -> (r: Result<(), SerializationError>)
    ensures
        write_ok(r, old(buf)@, final(buf)@, entry_bytes::<K, V>(k.deep_view(), v.deep_view(), ctx)),
{
    let ghost start = buf@;
    k.encode_ctx(buf, ctx)?;
    let ghost mid = buf@;
    match v.encode_ctx(buf, ctx) {
        Ok(()) => {
            assert(buf@ =~= start + (K::spec_encode(k.deep_view(), ctx)->Ok_0 + V::spec_encode(v.deep_view(), ctx)->Ok_0));
            Ok(())
        },
        Err(e) => {
            assert(buf@.subrange(0, start.len() as int) =~= mid.subrange(0, start.len() as int));
            Err(e)
        },
    }
}

/// Writes the length of a map of `n` entries, or fails when `n` is too large.
pub fn encode_map_len(n: usize, buf: &mut Vec<u8>, ctx: Ctx) -> (r: Result<(), SerializationError>)
    ensures
        n <= MAX_LEN32 ==> r is Ok && final(buf)@ == old(buf)@ + len32_bytes(n as nat, ctx.flexible),
        n > MAX_LEN32 ==> r == Err::<(), SerializationError>(SerializationError::ValueTooLarge { message: "map too long" })
            && final(buf)@ == old(buf)@,
{
    if n <= MAX_LEN32 {
        put_len32(buf, n, ctx.flexible);
        Ok(())
    } else {
        Err(SerializationError::ValueTooLarge { message: "map too long" })
    }
}

/// Writes the null length.
pub fn encode_null_len32(buf: &mut Vec<u8>, ctx: Ctx)
    ensures
        final(buf)@ == old(buf)@ + null_len32_bytes(ctx.flexible),
{
    if ctx.flexible {
        encode_unsigned_varint(0, buf);
    } else {
        put_i32(buf, -1);
    }
}

/// One step of writing a map: after the first `i` entries, writing entry `i`.
/// On success the written bytes cover the first `i + 1` entries; on failure
/// the whole map's encoding fails with the same error.
pub proof fn lemma_map_step<K: KafkaCodec, V: KafkaCodec>(es: Seq<(K::V, V::V)>, i: int, ctx: Ctx, r: Result<(), SerializationError>)
    requires
        0 <= i < es.len(),
        entries_bytes::<K, V>(es.take(i), ctx) is Ok,
        r is Err ==> entry_bytes::<K, V>(es[i].0, es[i].1, ctx) == Err::<Seq<u8>, SerializationError>(r->Err_0),
        r is Ok ==> entry_bytes::<K, V>(es[i].0, es[i].1, ctx) is Ok,
    ensures
        r is Ok ==> entries_bytes::<K, V>(es.take(i + 1), ctx) == Ok::<Seq<u8>, SerializationError>(
            entries_bytes::<K, V>(es.take(i), ctx)->Ok_0 + entry_bytes::<K, V>(es[i].0, es[i].1, ctx)->Ok_0,
        ),
        r is Err ==> entries_bytes::<K, V>(es, ctx) == Err::<Seq<u8>, SerializationError>(r->Err_0),
{
    assert(es.take(i + 1).drop_last() =~= es.take(i));
    assert(es.take(i + 1).last() == es[i]);
    if r is Err {
        lemma_entries_bytes_err::<K, V>(es, i + 1, es.len() as int, ctx, r->Err_0);
        assert(es.take(es.len() as int) =~= es);
    }
}

/// Reads one entry: a key, then a value.
pub fn decode_entry<K: KafkaCodec, V: KafkaCodec>(buf: &mut Reader, ctx: Ctx) -> (r: Result<(K, V), SerializationError>)
    ensures
        final(buf).bytes() == old(buf).bytes(),
        match parse_entry::<K, V>(old(buf).bytes(), old(buf).pos(), ctx) {
            Ok((kv, p)) => r matches Ok((k, v)) && k.deep_view() == kv.0 && v.deep_view() == kv.1 && final(buf).pos() == p,
            Err(e) => r == Err::<(K, V), SerializationError>(e),
        },
{
    let k = K::decode_ctx(buf, ctx)?;
    let v = V::decode_ctx(buf, ctx)?;
    Ok((k, v))
}

/// Reads the length of a map: a null length is invalid.
pub fn decode_map_len(buf: &mut Reader, ctx: Ctx) -> (r: Result<u64, SerializationError>)
    ensures
        final(buf).bytes() == old(buf).bytes(),
        match parse_len32(old(buf).bytes(), old(buf).pos(), ctx.flexible) {
            Ok((None, _)) => r == Err::<u64, SerializationError>(SerializationError::InvalidLength),
            Ok((Some(n), p)) => r == Ok::<u64, SerializationError>(n as u64) && final(buf).pos() == p,
            Err(e) => r == Err::<u64, SerializationError>(e),
        },
{
    match buf.get_len32(ctx.flexible)? {
        None => Err(SerializationError::InvalidLength),
        Some(n) => Ok(n),
    }
}

/// A failure while reading entry `i` is the failure of reading all `n`.
pub proof fn lemma_parse_entries_err<K: KafkaCodec, V: KafkaCodec>(s: Seq<u8>, pos: int, i: nat, n: nat, ctx: Ctx, e: SerializationError)
    requires
        i <= n,
        parse_entries::<K, V>(s, pos, i, ctx) == Err::<(Seq<(K::V, V::V)>, int), SerializationError>(e),
    ensures
        parse_entries::<K, V>(s, pos, n, ctx) == Err::<(Seq<(K::V, V::V)>, int), SerializationError>(e),
    decreases n - i,
{
    if n > i {
        lemma_parse_entries_err::<K, V>(s, pos, i, (n - 1) as nat, ctx, e);
    }
}

/// No two entries share a key, as in every map.
pub open spec fn keys_distinct<K, V>(es: Seq<(K, V)>) -> bool {
    forall|i: int, j: int| 0 <= i < j < es.len() ==> es[i].0 != es[j].0
}

/// Every key and every value of the entries reads back by its type's law.
pub open spec fn entries_read_back<K: KafkaCodec, V: KafkaCodec>(es: Seq<(K::V, V::V)>, ctx: Ctx) -> bool {
    forall|i: int| 0 <= i < es.len() ==> K::reads_back(#[trigger] es[i].0, ctx) && V::reads_back(es[i].1, ctx)
}

/// Taking the values by their contents keeps the keys, so distinct keys stay distinct.
pub proof fn lemma_keys_distinct_view<KV, V: DeepView>(es: Seq<(KV, V)>)
    requires
        keys_distinct(es),
    ensures
        keys_distinct(entries_view(es)),
{
}

proof fn lemma_key_index_absent<K, V>(es: Seq<(K, V)>, k: K)
    requires
        forall|i: int| 0 <= i < es.len() ==> es[i].0 != k,
    ensures
        key_index(es, k) is None,
{
    lemma_key_index_bounds(es, k);
}

proof fn lemma_entries_roundtrip<K: KafkaCodec, V: KafkaCodec>(pre: Seq<u8>, es: Seq<(K::V, V::V)>, post: Seq<u8>, ctx: Ctx)
    requires
        entries_bytes::<K, V>(es, ctx) is Ok,
        keys_distinct(es),
        entries_read_back::<K, V>(es, ctx),
    ensures
        parse_entries::<K, V>(pre + entries_bytes::<K, V>(es, ctx)->Ok_0 + post, pre.len() as int, es.len(), ctx)
            == Ok::<(Seq<(K::V, V::V)>, int), SerializationError>(
            (es, pre.len() as int + entries_bytes::<K, V>(es, ctx)->Ok_0.len()),
        ),
    decreases es.len(),
{
    if es.len() == 0 {
        assert(pre + entries_bytes::<K, V>(es, ctx)->Ok_0 + post =~= pre + post);
        assert(es =~= Seq::<(K::V, V::V)>::empty());
    } else {
        let init = es.drop_last();
        let n = es.len() - 1;
        let (k, v) = es[n];
        assert(es.last() == (k, v));
        let bi = entries_bytes::<K, V>(init, ctx)->Ok_0;
        let bk = K::spec_encode(k, ctx)->Ok_0;
        let bv = V::spec_encode(v, ctx)->Ok_0;
        assert(keys_distinct(init)) by {
            assert forall|i: int, j: int| 0 <= i < j < init.len() implies init[i].0 != init[j].0 by {
                assert(init[i] == es[i] && init[j] == es[j]);
            }
        }
        assert(entries_read_back::<K, V>(init, ctx)) by {
            assert forall|i: int| 0 <= i < init.len() implies K::reads_back(#[trigger] init[i].0, ctx) && V::reads_back(init[i].1, ctx) by {
                assert(init[i] == es[i]);
            }
        }
        assert(K::reads_back(es[n].0, ctx) && V::reads_back(es[n].1, ctx));
        lemma_entries_roundtrip::<K, V>(pre, init, bk + bv + post, ctx);
        let s = pre + entries_bytes::<K, V>(es, ctx)->Ok_0 + post;
        assert(s =~= pre + bi + (bk + bv + post));
        let a = pre + bi;
        assert(s =~= a + bk + (bv + post));
        K::lemma_read_back(a, k, bv + post, ctx);
        assert(s =~= (a + bk) + bv + post);
        V::lemma_read_back(a + bk, v, post, ctx);
        assert forall|i: int| 0 <= i < init.len() implies init[i].0 != k by {
            assert(init[i] == es[i]);
        }
        lemma_key_index_absent(init, k);
        assert(init.push((k, v)) =~= es);
    }
}

/// A map whose keys are distinct and whose keys and values read back, and
/// that could be written, reads back from its encoding, in the same order.
pub proof fn lemma_map_roundtrip<K: KafkaCodec, V: KafkaCodec>(pre: Seq<u8>, es: Seq<(K::V, V::V)>, post: Seq<u8>, ctx: Ctx)
    requires
        map_bytes::<K, V>(es, ctx) is Ok,
        keys_distinct(es),
        entries_read_back::<K, V>(es, ctx),
    ensures
        parse_map::<K, V>(pre + map_bytes::<K, V>(es, ctx)->Ok_0 + post, pre.len() as int, ctx)
            == Ok::<(Seq<(K::V, V::V)>, int), SerializationError>(
            (es, pre.len() as int + map_bytes::<K, V>(es, ctx)->Ok_0.len()),
        ),
{
    let hd = len32_bytes(es.len(), ctx.flexible);
    let b = entries_bytes::<K, V>(es, ctx)->Ok_0;
    let s = pre + map_bytes::<K, V>(es, ctx)->Ok_0 + post;
    assert(s =~= pre + hd + (b + post));
    lemma_len32_roundtrip(pre, es.len(), b + post, ctx.flexible);
    assert(s =~= (pre + hd) + b + post);
    lemma_entries_roundtrip::<K, V>(pre + hd, es, post, ctx);
}

/// An optional map as in `lemma_map_roundtrip` reads back from its encoding.
pub proof fn lemma_nullable_map_roundtrip<K: KafkaCodec, V: KafkaCodec>(pre: Seq<u8>, es: Option<Seq<(K::V, V::V)>>, post: Seq<u8>, ctx: Ctx)
    requires
        nullable_map_bytes::<K, V>(es, ctx) is Ok,
        es matches Some(x) ==> keys_distinct(x) && entries_read_back::<K, V>(x, ctx),
    ensures
        parse_nullable_map::<K, V>(pre + nullable_map_bytes::<K, V>(es, ctx)->Ok_0 + post, pre.len() as int, ctx)
            == Ok::<(Option<Seq<(K::V, V::V)>>, int), SerializationError>(
            (es, pre.len() as int + nullable_map_bytes::<K, V>(es, ctx)->Ok_0.len()),
        ),
{
    match es {
        None => {
            if ctx.flexible {
                lemma_uvarint_roundtrip(pre, 0, post);
            } else {
                lemma_i32_roundtrip(pre, -1i32, post);
            }
        },
        Some(x) => {
            let hd = len32_bytes(x.len(), ctx.flexible);
            let b = entries_bytes::<K, V>(x, ctx)->Ok_0;
            let s = pre + map_bytes::<K, V>(x, ctx)->Ok_0 + post;
            assert(s =~= pre + hd + (b + post));
            lemma_len32_roundtrip(pre, x.len(), b + post, ctx.flexible);
            assert(s =~= (pre + hd) + b + post);
            lemma_entries_roundtrip::<K, V>(pre + hd, x, post, ctx);
        },
    }
}

/// An entry is written as its key's encoding followed by its value's.
pub proof fn lemma_entry_layout<K: KafkaCodec, V: KafkaCodec>(k: K::V, v: V::V, ctx: Ctx)
    ensures
        entry_bytes::<K, V>(k, v, ctx) is Ok <==> (K::spec_encode(k, ctx) is Ok && V::spec_encode(v, ctx) is Ok),
        entry_bytes::<K, V>(k, v, ctx) is Ok ==> entry_bytes::<K, V>(k, v, ctx)->Ok_0
            == K::spec_encode(k, ctx)->Ok_0 + V::spec_encode(v, ctx)->Ok_0,
{
}

/// A map is written as its number of entries, then its entries in insertion
/// order, the last entry last.
pub proof fn lemma_map_layout<K: KafkaCodec, V: KafkaCodec>(es: Seq<(K::V, V::V)>, ctx: Ctx)
    requires
        map_bytes::<K, V>(es, ctx) is Ok,
    ensures
        entries_bytes::<K, V>(es, ctx) is Ok,
        map_bytes::<K, V>(es, ctx)->Ok_0 == len32_bytes(es.len(), ctx.flexible) + entries_bytes::<K, V>(es, ctx)->Ok_0,
        es.len() > 0 ==> entries_bytes::<K, V>(es, ctx)->Ok_0
            == entries_bytes::<K, V>(es.drop_last(), ctx)->Ok_0 + entry_bytes::<K, V>(es.last().0, es.last().1, ctx)->Ok_0,
{
}

} // verus!
