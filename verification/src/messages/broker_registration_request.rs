//! BrokerRegistrationRequest (API key 62).
use indexmap::IndexMap;
use vstd::prelude::*;
use crate::ordered_map::{decode_entry, decode_map_len, encode_entry, encode_map_len,
    entries_bytes, entries_read_back, entries_view, entry_bytes, insert_entry, key_index,
    keys_distinct, lemma_insert_entry_view, lemma_keys_distinct_view, lemma_map_roundtrip,
    lemma_map_step, lemma_parse_entries_err, map_bytes, parse_entries, parse_map};
use crate::roundtrip::{lemma_array_roundtrip, lemma_bool_roundtrip, lemma_i16_roundtrip,
    lemma_i32_roundtrip, lemma_i64_roundtrip, lemma_items_read_back,
    lemma_nullable_string_roundtrip, lemma_seq_assoc, lemma_seq_empty_left,
    lemma_string_roundtrip, lemma_u16_roundtrip, lemma_uuid_roundtrip, lemma_uvarint_roundtrip};
use crate::serialization::{Ctx, KafkaCodec, MAX_LEN32, Reader, SerializationError, array_bytes,
    bool_bytes, decode_array, decode_unsigned_varint, encode_array, encode_nullable_string,
    encode_string, encode_unsigned_varint, encode_uuid, i16_bytes, i32_bytes, i64_bytes,
    len32_bytes, new_array, nullable_string_bytes, parse_array, parse_bool, parse_i16, parse_i32,
    parse_i64, parse_nullable_string, parse_raw, parse_string, parse_u16, parse_uvarint, put_bool,
    put_i16, put_i32, put_i64, put_u16, read_view_exact, read_view_ok, string_bytes, then,
    u16_bytes, uvarint_bytes, write_exact, write_ok, zero_uuid, zero_uuid_bytes};
use crate::{ApiKey, ApiVersion};

verus! {

// -------------------------------------------------------
// Maps from string keys to `Listener`
// -------------------------------------------------------

/// The entries of a map of `Listener` values, in order, each key by its characters.
pub uninterp spec fn listener_map_entries(m: IndexMap<String, Listener>) -> Seq<(Seq<char>, Listener)>;

/// The entries of a map of `Listener` values, each value by its contents.
pub open spec fn listener_map_view(m: IndexMap<String, Listener>) -> Seq<(Seq<char>, ListenerModel)> {
    entries_view(listener_map_entries(m))
}

/// Calls `IndexMap::new`, which returns a map without entries.
#[verifier::external_body]
fn listener_map_new() -> (r: IndexMap<String, Listener>)
    ensures
        listener_map_entries(r) == Seq::<(Seq<char>, Listener)>::empty(),
{
    IndexMap::new()
}

/// Calls `IndexMap::len`, which returns the number of entries.
#[verifier::external_body]
fn listener_map_len(m: &IndexMap<String, Listener>) -> (r: usize)
    ensures
        r == listener_map_entries(*m).len(),
{
    m.len()
}

/// Calls `IndexMap::get_index`, which returns the entry at position `i`
/// in insertion order, or nothing when `i` is not below the length; the
/// key of that entry is the key of no other entry of the map.
#[verifier::external_body]
fn listener_map_get_index(m: &IndexMap<String, Listener>, i: usize) -> (r: Option<(&String, &Listener)>)
    ensures
        r is Some <==> i < listener_map_entries(*m).len(),
        r matches Some(kv) ==> kv.0@ == listener_map_entries(*m)[i as int].0,
        r matches Some(kv) ==> *kv.1 == listener_map_entries(*m)[i as int].1,
        r matches Some(kv) ==> forall|j: int| 0 <= j < listener_map_entries(*m).len() && j != i ==> #[trigger] listener_map_entries(*m)[j].0 != kv.0@,
{
    m.get_index(i)
}

/// Calls `IndexMap::insert`: a key already present keeps its place and
/// takes the new value, and the old value is returned; a new key is
/// added last, and nothing is returned.
#[verifier::external_body]
fn listener_map_insert(m: &mut IndexMap<String, Listener>, k: String, v: Listener) -> (r: Option<Listener>)
    ensures
        listener_map_entries(*final(m)) == insert_entry(listener_map_entries(*old(m)), k@, v),
        r == (match key_index(listener_map_entries(*old(m)), k@) {
            Some(i) => Some(listener_map_entries(*old(m))[i].1),
            None => None::<Listener>,
        }),
{
    m.insert(k, v)
}

/// The number of entries of a map of `Listener` values; its keys are distinct.
pub fn listener_map_entry_count(m: &IndexMap<String, Listener>) -> (r: usize)
    ensures
        r == listener_map_view(*m).len(),
        keys_distinct(listener_map_view(*m)),
{
    let n = listener_map_len(m);
    let mut i: usize = 0;
    while i < n
        invariant
            n == listener_map_entries(*m).len(),
            i <= n,
            forall|a: int, b: int| 0 <= a < b < n && a < i ==> #[trigger] listener_map_entries(*m)[a].0 != #[trigger] listener_map_entries(*m)[b].0,
        decreases n - i,
    {
        let e = listener_map_get_index(m, i);
        assert(e is Some);
        i = i + 1;
    }
    proof {
        lemma_keys_distinct_view(listener_map_entries(*m));
    }
    n
}

/// Writes a map of `Listener` values: its number of entries, then each key and value.
pub fn encode_listener_map(m: &IndexMap<String, Listener>, buf: &mut Vec<u8>, ctx: Ctx) -> (r: Result<(), SerializationError>)
    ensures
        write_ok(r, old(buf)@, final(buf)@, map_bytes::<String, Listener>(listener_map_view(*m), ctx)),
        keys_distinct(listener_map_view(*m)),
{
    let ghost es = listener_map_view(*m);
    let n = listener_map_entry_count(m);
    encode_map_len(n, buf, ctx)?;
    let ghost head = old(buf)@ + len32_bytes(n as nat, ctx.flexible);
    let ghost mut written: Seq<u8> = Seq::empty();
    assert(es.take(0) =~= Seq::<(Seq<char>, ListenerModel)>::empty());
    assert(buf@ =~= head + written);
    let mut i: usize = 0;
    while i < n
        invariant
            es == listener_map_view(*m),
            n == es.len(),
            keys_distinct(es),
            n <= MAX_LEN32,
            i <= n,
            head == old(buf)@ + len32_bytes(n as nat, ctx.flexible),
            buf@ =~= head + written,
            entries_bytes::<String, Listener>(es.take(i as int), ctx) == Ok::<Seq<u8>, SerializationError>(written),
        decreases n - i,
    {
        let ghost before = buf@;
        if let Some((k, v)) = listener_map_get_index(m, i) {
            assert(es[i as int] == (k.deep_view(), v.deep_view()));
            let res = encode_entry(k, v, buf, ctx);
            proof {
                lemma_map_step::<String, Listener>(es, i as int, ctx, res);
            }
            match res {
                Ok(()) => {
                    proof {
                        written = written + entry_bytes::<String, Listener>(es[i as int].0, es[i as int].1, ctx)->Ok_0;
                    }
                },
                Err(e) => {
                    assert(buf@.subrange(0, old(buf)@.len() as int) =~= before.subrange(0, old(buf)@.len() as int));
                    return Err(e);
                },
            }
        }
        i = i + 1;
    }
    assert(es.take(n as int) =~= es);
    Ok(())
}

/// Reads `n` entries of a map of `Listener` values, inserting each in turn.
fn decode_listener_map_entries(buf: &mut Reader, n: u64, ctx: Ctx) -> (r: Result<IndexMap<String, Listener>, SerializationError>)
    ensures
        final(buf).bytes() == old(buf).bytes(),
        match parse_entries::<String, Listener>(old(buf).bytes(), old(buf).pos(), n as nat, ctx) {
            Ok((es, p)) => r matches Ok(m) && listener_map_view(m) == es && final(buf).pos() == p,
            Err(e) => r == Err::<IndexMap<String, Listener>, SerializationError>(e),
        },
{
    let ghost s = buf.bytes();
    let ghost p0 = buf.pos();
    let mut m = listener_map_new();
    assert(listener_map_view(m) =~= Seq::<(Seq<char>, ListenerModel)>::empty());
    let mut i: u64 = 0;
    while i < n
        invariant
            buf.bytes() == s,
            s == old(buf).bytes(),
            p0 == old(buf).pos(),
            i <= n,
            parse_entries::<String, Listener>(s, p0, i as nat, ctx) == Ok::<(Seq<(Seq<char>, ListenerModel)>, int), SerializationError>((listener_map_view(m), buf.pos())),
        decreases n - i,
    {
        match decode_entry::<String, Listener>(buf, ctx) {
            Ok((k, v)) => {
                proof {
                    lemma_insert_entry_view(listener_map_entries(m), k@, v);
                }
                listener_map_insert(&mut m, k, v);
            },
            Err(e) => {
                proof {
                    lemma_parse_entries_err::<String, Listener>(s, p0, (i + 1) as nat, n as nat, ctx, e);
                }
                return Err(e);
            },
        }
        i = i + 1;
    }
    Ok(m)
}

/// Reads a map of `Listener` values; a null length is invalid.
pub fn decode_listener_map(buf: &mut Reader, ctx: Ctx) -> (r: Result<IndexMap<String, Listener>, SerializationError>)
    ensures
        final(buf).bytes() == old(buf).bytes(),
        match parse_map::<String, Listener>(old(buf).bytes(), old(buf).pos(), ctx) {
            Ok((es, p)) => r matches Ok(m) && listener_map_view(m) == es && final(buf).pos() == p,
            Err(e) => r == Err::<IndexMap<String, Listener>, SerializationError>(e),
        },
{
    let n = decode_map_len(buf, ctx)?;
    decode_listener_map_entries(buf, n, ctx)
}

// -------------------------------------------------------
// Maps from string keys to `Feature`
// -------------------------------------------------------

/// The entries of a map of `Feature` values, in order, each key by its characters.
pub uninterp spec fn feature_map_entries(m: IndexMap<String, Feature>) -> Seq<(Seq<char>, Feature)>;

/// The entries of a map of `Feature` values, each value by its contents.
pub open spec fn feature_map_view(m: IndexMap<String, Feature>) -> Seq<(Seq<char>, FeatureModel)> {
    entries_view(feature_map_entries(m))
}

/// Calls `IndexMap::new`, which returns a map without entries.
#[verifier::external_body]
fn feature_map_new() -> (r: IndexMap<String, Feature>)
    ensures
        feature_map_entries(r) == Seq::<(Seq<char>, Feature)>::empty(),
{
    IndexMap::new()
}

/// Calls `IndexMap::len`, which returns the number of entries.
#[verifier::external_body]
fn feature_map_len(m: &IndexMap<String, Feature>) -> (r: usize)
    ensures
        r == feature_map_entries(*m).len(),
{
    m.len()
}

/// Calls `IndexMap::get_index`, which returns the entry at position `i`
/// in insertion order, or nothing when `i` is not below the length; the
/// key of that entry is the key of no other entry of the map.
#[verifier::external_body]
fn feature_map_get_index(m: &IndexMap<String, Feature>, i: usize) -> (r: Option<(&String, &Feature)>)
    ensures
        r is Some <==> i < feature_map_entries(*m).len(),
        r matches Some(kv) ==> kv.0@ == feature_map_entries(*m)[i as int].0,
        r matches Some(kv) ==> *kv.1 == feature_map_entries(*m)[i as int].1,
        r matches Some(kv) ==> forall|j: int| 0 <= j < feature_map_entries(*m).len() && j != i ==> #[trigger] feature_map_entries(*m)[j].0 != kv.0@,
{
    m.get_index(i)
}

/// Calls `IndexMap::insert`: a key already present keeps its place and
/// takes the new value, and the old value is returned; a new key is
/// added last, and nothing is returned.
#[verifier::external_body]
fn feature_map_insert(m: &mut IndexMap<String, Feature>, k: String, v: Feature) -> (r: Option<Feature>)
    ensures
        feature_map_entries(*final(m)) == insert_entry(feature_map_entries(*old(m)), k@, v),
        r == (match key_index(feature_map_entries(*old(m)), k@) {
            Some(i) => Some(feature_map_entries(*old(m))[i].1),
            None => None::<Feature>,
        }),
{
    m.insert(k, v)
}

/// The number of entries of a map of `Feature` values; its keys are distinct.
pub fn feature_map_entry_count(m: &IndexMap<String, Feature>) -> (r: usize)
    ensures
        r == feature_map_view(*m).len(),
        keys_distinct(feature_map_view(*m)),
{
    let n = feature_map_len(m);
    let mut i: usize = 0;
    while i < n
        invariant
            n == feature_map_entries(*m).len(),
            i <= n,
            forall|a: int, b: int| 0 <= a < b < n && a < i ==> #[trigger] feature_map_entries(*m)[a].0 != #[trigger] feature_map_entries(*m)[b].0,
        decreases n - i,
    {
        let e = feature_map_get_index(m, i);
        assert(e is Some);
        i = i + 1;
    }
    proof {
        lemma_keys_distinct_view(feature_map_entries(*m));
    }
    n
}

/// Writes a map of `Feature` values: its number of entries, then each key and value.
pub fn encode_feature_map(m: &IndexMap<String, Feature>, buf: &mut Vec<u8>, ctx: Ctx) -> (r: Result<(), SerializationError>)
    ensures
        write_ok(r, old(buf)@, final(buf)@, map_bytes::<String, Feature>(feature_map_view(*m), ctx)),
        keys_distinct(feature_map_view(*m)),
{
    let ghost es = feature_map_view(*m);
    let n = feature_map_entry_count(m);
    encode_map_len(n, buf, ctx)?;
    let ghost head = old(buf)@ + len32_bytes(n as nat, ctx.flexible);
    let ghost mut written: Seq<u8> = Seq::empty();
    assert(es.take(0) =~= Seq::<(Seq<char>, FeatureModel)>::empty());
    assert(buf@ =~= head + written);
    let mut i: usize = 0;
    while i < n
        invariant
            es == feature_map_view(*m),
            n == es.len(),
            keys_distinct(es),
            n <= MAX_LEN32,
            i <= n,
            head == old(buf)@ + len32_bytes(n as nat, ctx.flexible),
            buf@ =~= head + written,
            entries_bytes::<String, Feature>(es.take(i as int), ctx) == Ok::<Seq<u8>, SerializationError>(written),
        decreases n - i,
    {
        let ghost before = buf@;
        if let Some((k, v)) = feature_map_get_index(m, i) {
            assert(es[i as int] == (k.deep_view(), v.deep_view()));
            let res = encode_entry(k, v, buf, ctx);
            proof {
                lemma_map_step::<String, Feature>(es, i as int, ctx, res);
            }
            match res {
                Ok(()) => {
                    proof {
                        written = written + entry_bytes::<String, Feature>(es[i as int].0, es[i as int].1, ctx)->Ok_0;
                    }
                },
                Err(e) => {
                    assert(buf@.subrange(0, old(buf)@.len() as int) =~= before.subrange(0, old(buf)@.len() as int));
                    return Err(e);
                },
            }
        }
        i = i + 1;
    }
    assert(es.take(n as int) =~= es);
    Ok(())
}

/// Reads `n` entries of a map of `Feature` values, inserting each in turn.
fn decode_feature_map_entries(buf: &mut Reader, n: u64, ctx: Ctx) -> (r: Result<IndexMap<String, Feature>, SerializationError>)
    ensures
        final(buf).bytes() == old(buf).bytes(),
        match parse_entries::<String, Feature>(old(buf).bytes(), old(buf).pos(), n as nat, ctx) {
            Ok((es, p)) => r matches Ok(m) && feature_map_view(m) == es && final(buf).pos() == p,
            Err(e) => r == Err::<IndexMap<String, Feature>, SerializationError>(e),
        },
{
    let ghost s = buf.bytes();
    let ghost p0 = buf.pos();
    let mut m = feature_map_new();
    assert(feature_map_view(m) =~= Seq::<(Seq<char>, FeatureModel)>::empty());
    let mut i: u64 = 0;
    while i < n
        invariant
            buf.bytes() == s,
            s == old(buf).bytes(),
            p0 == old(buf).pos(),
            i <= n,
            parse_entries::<String, Feature>(s, p0, i as nat, ctx) == Ok::<(Seq<(Seq<char>, FeatureModel)>, int), SerializationError>((feature_map_view(m), buf.pos())),
        decreases n - i,
    {
        match decode_entry::<String, Feature>(buf, ctx) {
            Ok((k, v)) => {
                proof {
                    lemma_insert_entry_view(feature_map_entries(m), k@, v);
                }
                feature_map_insert(&mut m, k, v);
            },
            Err(e) => {
                proof {
                    lemma_parse_entries_err::<String, Feature>(s, p0, (i + 1) as nat, n as nat, ctx, e);
                }
                return Err(e);
            },
        }
        i = i + 1;
    }
    Ok(m)
}

/// Reads a map of `Feature` values; a null length is invalid.
pub fn decode_feature_map(buf: &mut Reader, ctx: Ctx) -> (r: Result<IndexMap<String, Feature>, SerializationError>)
    ensures
        final(buf).bytes() == old(buf).bytes(),
        match parse_map::<String, Feature>(old(buf).bytes(), old(buf).pos(), ctx) {
            Ok((es, p)) => r matches Ok(m) && feature_map_view(m) == es && final(buf).pos() == p,
            Err(e) => r == Err::<IndexMap<String, Feature>, SerializationError>(e),
        },
{
    let n = decode_map_len(buf, ctx)?;
    decode_feature_map_entries(buf, n, ctx)
}

// -------------------------------------------------------
// BrokerRegistrationRequest
// -------------------------------------------------------
#[derive(Clone, Debug, PartialEq)]
pub struct BrokerRegistrationRequest {
    /// The broker ID.
    pub broker_id: i32,
    /// The cluster id of the broker process.
    pub cluster_id: String,
    /// The incarnation id of the broker process.
    pub incarnation_id: [u8; 16],
    /// The listeners of this broker.
    /// IndexMap key `Name` (string): The name of the endpoint.
    pub listeners: IndexMap<String, Listener>,
    /// The features on this broker. Note: in v0-v3, features with MinSupportedVersion = 0 are omitted.
    /// IndexMap key `Name` (string): The feature name.
    pub features: IndexMap<String, Feature>,
    /// The rack which this broker is in.
    pub rack: Option<String>,
    /// If the required configurations for ZK migration are present, this value is set to true.
    /// Available in version 1+.
    pub is_migrating_zk_broker: bool,
    /// Log directories configured in this broker which are available.
    /// Available in version 2+.
    pub log_dirs: Vec<[u8; 16]>,
    /// The epoch before a clean shutdown.
    /// Available in version 3+.
    pub previous_broker_epoch: i64,
}

/// The contents of `BrokerRegistrationRequest`, with strings as characters and
/// nested values by their contents.
pub struct BrokerRegistrationRequestModel {
    pub broker_id: i32,
    pub cluster_id: Seq<char>,
    pub incarnation_id: Seq<u8>,
    pub listeners: Seq<(Seq<char>, ListenerModel)>,
    pub features: Seq<(Seq<char>, FeatureModel)>,
    pub rack: Option<Seq<char>>,
    pub is_migrating_zk_broker: bool,
    pub log_dirs: Seq<<[u8; 16] as DeepView>::V>,
    pub previous_broker_epoch: i64,
}

impl DeepView for BrokerRegistrationRequest {
    type V = BrokerRegistrationRequestModel;

    open spec fn deep_view(&self) -> BrokerRegistrationRequestModel {
        BrokerRegistrationRequestModel {
            broker_id: self.broker_id,
            cluster_id: self.cluster_id.deep_view(),
            incarnation_id: self.incarnation_id@,
            listeners: listener_map_view(self.listeners),
            features: feature_map_view(self.features),
            rack: self.rack.deep_view(),
            is_migrating_zk_broker: self.is_migrating_zk_broker,
            log_dirs: self.log_dirs.deep_view(),
            previous_broker_epoch: self.previous_broker_epoch,
        }
    }
}

impl Default for BrokerRegistrationRequest {
    fn default() -> (r: BrokerRegistrationRequest)
        ensures
            r.broker_id == 0i32,
            r.cluster_id@.len() == 0,
            r.incarnation_id@ == zero_uuid_bytes(),
            listener_map_view(r.listeners) == Seq::<(Seq<char>, ListenerModel)>::empty(),
            feature_map_view(r.features) == Seq::<(Seq<char>, FeatureModel)>::empty(),
            r.rack.deep_view() is None,
            r.is_migrating_zk_broker == false,
            r.log_dirs@.len() == 0,
            r.previous_broker_epoch == -1i64,
    {
        BrokerRegistrationRequest {
            broker_id: 0i32,
            cluster_id: String::new(),
            incarnation_id: zero_uuid(),
            listeners: listener_map_new(),
            features: feature_map_new(),
            rack: None,
            is_migrating_zk_broker: false,
            log_dirs: Vec::new(),
            previous_broker_epoch: -1i64,
        }
    }
}

impl BrokerRegistrationRequest {
    /// Fields 1 to 5 of the encoding.
    pub open spec fn spec_encode_body_part1(m: BrokerRegistrationRequestModel, ctx: Ctx) -> Result<Seq<u8>, SerializationError> {
        let r = Ok(Seq::<u8>::empty());
        let r = then(r, Ok(i32_bytes(m.broker_id)));
        let r = then(r, string_bytes(m.cluster_id, ctx.flexible));
        let r = then(r, Ok(m.incarnation_id));
        let r = then(r, map_bytes::<String, Listener>(m.listeners, Ctx { version: ctx.version, flexible: ctx.flexible, classic: false }));
        let r = then(r, map_bytes::<String, Feature>(m.features, Ctx { version: ctx.version, flexible: ctx.flexible, classic: false }));
        r
    }

    #[verifier::spinoff_prover]
    fn encode_body_part1(&self, buf: &mut Vec<u8>, ctx: Ctx) -> (r: Result<(), SerializationError>)
        ensures
            write_ok(r, old(buf)@, final(buf)@, Self::spec_encode_body_part1(self.deep_view(), ctx)),
    {
        let ghost mut w: Seq<u8> = Seq::empty();
        put_i32(buf, self.broker_id);
        proof {
            w = w + i32_bytes(self.broker_id);
        }
        assert(buf@ =~= old(buf)@ + w);
        encode_string(&self.cluster_id, buf, ctx.flexible)?;
        proof {
            w = w + (string_bytes(self.cluster_id.deep_view(), ctx.flexible))->Ok_0;
        }
        assert(buf@ =~= old(buf)@ + w);
        encode_uuid(&self.incarnation_id, buf);
        proof {
            w = w + self.incarnation_id@;
        }
        assert(buf@ =~= old(buf)@ + w);
        encode_listener_map(&self.listeners, buf, Ctx { version: ctx.version, flexible: ctx.flexible, classic: false })?;
        proof {
            w = w + (map_bytes::<String, Listener>(listener_map_view(self.listeners), Ctx { version: ctx.version, flexible: ctx.flexible, classic: false }))->Ok_0;
        }
        assert(buf@ =~= old(buf)@ + w);
        encode_feature_map(&self.features, buf, Ctx { version: ctx.version, flexible: ctx.flexible, classic: false })?;
        proof {
            w = w + (map_bytes::<String, Feature>(feature_map_view(self.features), Ctx { version: ctx.version, flexible: ctx.flexible, classic: false }))->Ok_0;
        }
        assert(buf@ =~= old(buf)@ + w);
        Ok(())
    }

    /// Fields 6 to 10 of the encoding.
    pub open spec fn spec_encode_body_part2(m: BrokerRegistrationRequestModel, ctx: Ctx) -> Result<Seq<u8>, SerializationError> {
        let r = Ok(Seq::<u8>::empty());
        let r = then(r, nullable_string_bytes(m.rack, ctx.flexible));
        let r = if 1 <= ctx.version { then(r, Ok(bool_bytes(m.is_migrating_zk_broker))) } else { r };
        let r = if 2 <= ctx.version { then(r, array_bytes::<[u8; 16]>(m.log_dirs, Ctx { version: ctx.version, flexible: ctx.flexible, classic: false })) } else { r };
        let r = if 3 <= ctx.version { then(r, Ok(i64_bytes(m.previous_broker_epoch))) } else { r };
        let r = if ctx.flexible { then(r, Ok(uvarint_bytes(0))) } else { r };
        r
    }

    #[verifier::spinoff_prover]
    fn encode_body_part2(&self, buf: &mut Vec<u8>, ctx: Ctx) -> (r: Result<(), SerializationError>)
        ensures
            write_ok(r, old(buf)@, final(buf)@, Self::spec_encode_body_part2(self.deep_view(), ctx)),
    {
        let ghost mut w: Seq<u8> = Seq::empty();
        encode_nullable_string(&self.rack, buf, ctx.flexible)?;
        proof {
            w = w + (nullable_string_bytes(self.rack.deep_view(), ctx.flexible))->Ok_0;
        }
        assert(buf@ =~= old(buf)@ + w);
        if 1 <= ctx.version {
            put_bool(buf, self.is_migrating_zk_broker);
            proof {
                w = w + bool_bytes(self.is_migrating_zk_broker);
            }
            assert(buf@ =~= old(buf)@ + w);
        }
        if 2 <= ctx.version {
            encode_array(&self.log_dirs, buf, Ctx { version: ctx.version, flexible: ctx.flexible, classic: false })?;
            proof {
                w = w + (array_bytes::<[u8; 16]>(self.log_dirs.deep_view(), Ctx { version: ctx.version, flexible: ctx.flexible, classic: false }))->Ok_0;
            }
            assert(buf@ =~= old(buf)@ + w);
        }
        if 3 <= ctx.version {
            put_i64(buf, self.previous_broker_epoch);
            proof {
                w = w + i64_bytes(self.previous_broker_epoch);
            }
            assert(buf@ =~= old(buf)@ + w);
        }
        if ctx.flexible {
            encode_unsigned_varint(0, buf);
            proof {
                w = w + uvarint_bytes(0);
            }
            assert(buf@ =~= old(buf)@ + w);
        }
        Ok(())
    }

    /// The encoding of the structure in context `ctx`.
    pub open spec fn spec_encode_body(m: BrokerRegistrationRequestModel, ctx: Ctx) -> Result<Seq<u8>, SerializationError> {
        let r = Ok(Seq::<u8>::empty());
        let r = then(r, Self::spec_encode_body_part1(m, ctx));
        let r = then(r, Self::spec_encode_body_part2(m, ctx));
        r
    }

    /// The structure read from `s` at `pos` in context `ctx`.
    pub open spec fn spec_decode_body(s: Seq<u8>, pos: int, ctx: Ctx) -> Result<(BrokerRegistrationRequestModel, int), SerializationError> {
        match parse_i32(s, pos) {
            Err(e) => Err(e),
            Ok((broker_id, pos)) =>
            match parse_string(s, pos, ctx.flexible) {
                Err(e) => Err(e),
                Ok((cluster_id, pos)) =>
                match parse_raw(s, pos, 16) {
                    Err(e) => Err(e),
                    Ok((incarnation_id, pos)) =>
                    match parse_map::<String, Listener>(s, pos, Ctx { version: ctx.version, flexible: ctx.flexible, classic: false }) {
                        Err(e) => Err(e),
                        Ok((listeners, pos)) =>
                        match parse_map::<String, Feature>(s, pos, Ctx { version: ctx.version, flexible: ctx.flexible, classic: false }) {
                            Err(e) => Err(e),
                            Ok((features, pos)) =>
                            match parse_nullable_string(s, pos, ctx.flexible) {
                                Err(e) => Err(e),
                                Ok((rack, pos)) =>
                                match (if 1 <= ctx.version { parse_bool(s, pos) } else { Ok((false, pos)) }) {
                                    Err(e) => Err(e),
                                    Ok((is_migrating_zk_broker, pos)) =>
                                    match (if 2 <= ctx.version { parse_array::<[u8; 16]>(s, pos, Ctx { version: ctx.version, flexible: ctx.flexible, classic: false }) } else { Ok((Seq::<<[u8; 16] as DeepView>::V>::empty(), pos)) }) {
                                        Err(e) => Err(e),
                                        Ok((log_dirs, pos)) =>
                                        match (if 3 <= ctx.version { parse_i64(s, pos) } else { Ok((-1i64, pos)) }) {
                                            Err(e) => Err(e),
                                            Ok((previous_broker_epoch, pos)) =>
                                            match (if ctx.flexible { parse_uvarint(s, pos) } else { Ok((0u64, pos)) }) {
                                                Err(e) => Err(e),
                                                Ok((_tag_count, pos)) =>
                                                Ok((BrokerRegistrationRequestModel { broker_id, cluster_id, incarnation_id, listeners, features, rack, is_migrating_zk_broker, log_dirs, previous_broker_epoch }, pos))
                                            }
                                        }
                                    }
                                }
                            }
                        }
                    }
                }
            }
        }
    }

    /// The structure as it reads back in context `ctx`: each field that the
    /// version leaves out is at its default.
    #[verifier::opaque]
    pub open spec fn spec_read_as(m: BrokerRegistrationRequestModel, ctx: Ctx) -> BrokerRegistrationRequestModel {
        BrokerRegistrationRequestModel { broker_id: m.broker_id, cluster_id: m.cluster_id, incarnation_id: m.incarnation_id, listeners: m.listeners, features: m.features, rack: m.rack, is_migrating_zk_broker: if 1 <= ctx.version { m.is_migrating_zk_broker } else { false }, log_dirs: if 2 <= ctx.version { m.log_dirs } else { Seq::<<[u8; 16] as DeepView>::V>::empty() }, previous_broker_epoch: if 3 <= ctx.version { m.previous_broker_epoch } else { -1i64 } }
    }

    /// Values that read back in context `ctx`: nested values read back. A field
    /// that the version leaves out is read as its default.
    pub open spec fn reads_back_body(m: BrokerRegistrationRequestModel, ctx: Ctx) -> bool {
        &&& m.incarnation_id.len() == 16
        &&& (keys_distinct(m.listeners) && entries_read_back::<String, Listener>(m.listeners, Ctx { version: ctx.version, flexible: ctx.flexible, classic: false }))
        &&& (keys_distinct(m.features) && entries_read_back::<String, Feature>(m.features, Ctx { version: ctx.version, flexible: ctx.flexible, classic: false }))
        &&& (2 <= ctx.version) ==> forall|i: int| 0 <= i < m.log_dirs.len() ==> #[trigger] <[u8; 16] as KafkaCodec>::reads_back(m.log_dirs[i], Ctx { version: ctx.version, flexible: ctx.flexible, classic: false })
    }

    /// A value that can be written in context `ctx` and reads back: decoding its
    /// encoding, wherever it stands, gives the value as `spec_read_as` gives it and
    /// the position just after it.
    #[verifier::spinoff_prover]
    pub proof fn lemma_body_read_back(pre: Seq<u8>, m: BrokerRegistrationRequestModel, post: Seq<u8>, ctx: Ctx)
        requires
            Self::spec_encode_body(m, ctx) is Ok,
            Self::reads_back_body(m, ctx),
        ensures
            Self::spec_decode_body(pre + Self::spec_encode_body(m, ctx)->Ok_0 + post, pre.len() as int, ctx) == Ok::<(BrokerRegistrationRequestModel, int), SerializationError>((Self::spec_read_as(m, ctx), pre.len() as int + Self::spec_encode_body(m, ctx)->Ok_0.len())),
    {
        reveal(BrokerRegistrationRequest::spec_read_as);
        let b0 = i32_bytes(m.broker_id);
        let b1 = (string_bytes(m.cluster_id, ctx.flexible))->Ok_0;
        let b2 = m.incarnation_id;
        let b3 = (map_bytes::<String, Listener>(m.listeners, Ctx { version: ctx.version, flexible: ctx.flexible, classic: false }))->Ok_0;
        let b4 = (map_bytes::<String, Feature>(m.features, Ctx { version: ctx.version, flexible: ctx.flexible, classic: false }))->Ok_0;
        let b5 = (nullable_string_bytes(m.rack, ctx.flexible))->Ok_0;
        let b6 = if 1 <= ctx.version { bool_bytes(m.is_migrating_zk_broker) } else { Seq::<u8>::empty() };
        let b7 = if 2 <= ctx.version { (array_bytes::<[u8; 16]>(m.log_dirs, Ctx { version: ctx.version, flexible: ctx.flexible, classic: false }))->Ok_0 } else { Seq::<u8>::empty() };
        let b8 = if 3 <= ctx.version { i64_bytes(m.previous_broker_epoch) } else { Seq::<u8>::empty() };
        let b9 = if ctx.flexible { uvarint_bytes(0) } else { Seq::<u8>::empty() };
        let t10 = post;
        let t9 = b9 + t10;
        let t8 = b8 + t9;
        let t7 = b7 + t8;
        let t6 = b6 + t7;
        let t5 = b5 + t6;
        let t4 = b4 + t5;
        let t3 = b3 + t4;
        let t2 = b2 + t3;
        let t1 = b1 + t2;
        let t0 = b0 + t1;
        let e = Self::spec_encode_body(m, ctx)->Ok_0;
        let p1 = Self::spec_encode_body_part1(m, ctx)->Ok_0;
        assert(p1 =~= Seq::<u8>::empty() + b0 + b1 + b2 + b3 + b4);
        lemma_seq_assoc(((((Seq::<u8>::empty() + b0) + b1) + b2) + b3), b4, t5);
        lemma_seq_assoc((((Seq::<u8>::empty() + b0) + b1) + b2), b3, (b4 + t5));
        lemma_seq_assoc(((Seq::<u8>::empty() + b0) + b1), b2, (b3 + (b4 + t5)));
        lemma_seq_assoc((Seq::<u8>::empty() + b0), b1, (b2 + (b3 + (b4 + t5))));
        lemma_seq_assoc(Seq::<u8>::empty(), b0, (b1 + (b2 + (b3 + (b4 + t5)))));
        lemma_seq_empty_left((b0 + (b1 + (b2 + (b3 + (b4 + t5))))));
        let p2 = Self::spec_encode_body_part2(m, ctx)->Ok_0;
        assert(p2 =~= Seq::<u8>::empty() + b5 + b6 + b7 + b8 + b9);
        lemma_seq_assoc(((((Seq::<u8>::empty() + b5) + b6) + b7) + b8), b9, t10);
        lemma_seq_assoc((((Seq::<u8>::empty() + b5) + b6) + b7), b8, (b9 + t10));
        lemma_seq_assoc(((Seq::<u8>::empty() + b5) + b6), b7, (b8 + (b9 + t10)));
        lemma_seq_assoc((Seq::<u8>::empty() + b5), b6, (b7 + (b8 + (b9 + t10))));
        lemma_seq_assoc(Seq::<u8>::empty(), b5, (b6 + (b7 + (b8 + (b9 + t10)))));
        lemma_seq_empty_left((b5 + (b6 + (b7 + (b8 + (b9 + t10))))));
        assert(e == Seq::<u8>::empty() + p1 + p2);
        lemma_seq_assoc((Seq::<u8>::empty() + p1), p2, t10);
        lemma_seq_assoc(Seq::<u8>::empty(), p1, (p2 + t10));
        lemma_seq_empty_left((p1 + (p2 + t10)));
        let s = pre + e + post;
        lemma_seq_assoc(pre, e, post);
        assert(s == pre + t0);
        let a0 = pre;
        assert(parse_i32(s, a0.len() as int) == Ok::<(i32, int), SerializationError>((m.broker_id, a0.len() as int + b0.len()))) by {
            lemma_seq_assoc(a0, b0, t1);
            lemma_i32_roundtrip(a0, m.broker_id, t1);
        }
        lemma_seq_assoc(a0, b0, t1);
        let a1 = a0 + b0;
        assert(parse_string(s, a1.len() as int, ctx.flexible) == Ok::<(Seq<char>, int), SerializationError>((m.cluster_id, a1.len() as int + b1.len()))) by {
            assert(string_bytes(m.cluster_id, ctx.flexible) is Ok);
            lemma_seq_assoc(a1, b1, t2);
            lemma_string_roundtrip(a1, m.cluster_id, t2, ctx.flexible);
        }
        lemma_seq_assoc(a1, b1, t2);
        let a2 = a1 + b1;
        assert(parse_raw(s, a2.len() as int, 16) == Ok::<(Seq<u8>, int), SerializationError>((m.incarnation_id, a2.len() as int + b2.len()))) by {
            lemma_seq_assoc(a2, b2, t3);
            lemma_uuid_roundtrip(a2, m.incarnation_id, t3);
        }
        lemma_seq_assoc(a2, b2, t3);
        let a3 = a2 + b2;
        assert(parse_map::<String, Listener>(s, a3.len() as int, Ctx { version: ctx.version, flexible: ctx.flexible, classic: false }) == Ok::<(Seq<(Seq<char>, ListenerModel)>, int), SerializationError>((m.listeners, a3.len() as int + b3.len()))) by {
            assert(map_bytes::<String, Listener>(m.listeners, Ctx { version: ctx.version, flexible: ctx.flexible, classic: false }) is Ok);
            lemma_seq_assoc(a3, b3, t4);
            lemma_map_roundtrip::<String, Listener>(a3, m.listeners, t4, Ctx { version: ctx.version, flexible: ctx.flexible, classic: false });
        }
        lemma_seq_assoc(a3, b3, t4);
        let a4 = a3 + b3;
        assert(parse_map::<String, Feature>(s, a4.len() as int, Ctx { version: ctx.version, flexible: ctx.flexible, classic: false }) == Ok::<(Seq<(Seq<char>, FeatureModel)>, int), SerializationError>((m.features, a4.len() as int + b4.len()))) by {
            assert(map_bytes::<String, Feature>(m.features, Ctx { version: ctx.version, flexible: ctx.flexible, classic: false }) is Ok);
            lemma_seq_assoc(a4, b4, t5);
            lemma_map_roundtrip::<String, Feature>(a4, m.features, t5, Ctx { version: ctx.version, flexible: ctx.flexible, classic: false });
        }
        lemma_seq_assoc(a4, b4, t5);
        let a5 = a4 + b4;
        assert(parse_nullable_string(s, a5.len() as int, ctx.flexible) == Ok::<(Option<Seq<char>>, int), SerializationError>((m.rack, a5.len() as int + b5.len()))) by {
            assert(nullable_string_bytes(m.rack, ctx.flexible) is Ok);
            lemma_seq_assoc(a5, b5, t6);
            lemma_nullable_string_roundtrip(a5, m.rack, t6, ctx.flexible);
        }
        lemma_seq_assoc(a5, b5, t6);
        let a6 = a5 + b5;
        if 1 <= ctx.version {
            assert(parse_bool(s, a6.len() as int) == Ok::<(bool, int), SerializationError>((m.is_migrating_zk_broker, a6.len() as int + b6.len()))) by {
                lemma_seq_assoc(a6, b6, t7);
                lemma_bool_roundtrip(a6, m.is_migrating_zk_broker, t7);
            }
        }
        lemma_seq_assoc(a6, b6, t7);
        let a7 = a6 + b6;
        if 2 <= ctx.version {
            assert(parse_array::<[u8; 16]>(s, a7.len() as int, Ctx { version: ctx.version, flexible: ctx.flexible, classic: false }) == Ok::<(Seq<<[u8; 16] as DeepView>::V>, int), SerializationError>((m.log_dirs, a7.len() as int + b7.len()))) by {
                assert(array_bytes::<[u8; 16]>(m.log_dirs, Ctx { version: ctx.version, flexible: ctx.flexible, classic: false }) is Ok);
                lemma_seq_assoc(a7, b7, t8);
                lemma_items_read_back::<[u8; 16]>(m.log_dirs, Ctx { version: ctx.version, flexible: ctx.flexible, classic: false });
                lemma_array_roundtrip::<[u8; 16]>(a7, m.log_dirs, t8, Ctx { version: ctx.version, flexible: ctx.flexible, classic: false });
            }
        }
        lemma_seq_assoc(a7, b7, t8);
        let a8 = a7 + b7;
        if 3 <= ctx.version {
            assert(parse_i64(s, a8.len() as int) == Ok::<(i64, int), SerializationError>((m.previous_broker_epoch, a8.len() as int + b8.len()))) by {
                lemma_seq_assoc(a8, b8, t9);
                lemma_i64_roundtrip(a8, m.previous_broker_epoch, t9);
            }
        }
        lemma_seq_assoc(a8, b8, t9);
        let a9 = a8 + b8;
        if ctx.flexible {
            assert(parse_uvarint(s, a9.len() as int) == Ok::<(u64, int), SerializationError>((0u64, a9.len() as int + b9.len()))) by {
                lemma_seq_assoc(a9, b9, t10);
                lemma_uvarint_roundtrip(a9, 0, t10);
            }
        }
    }

    /// The bytes written: the encoding of each field, in the order of the
    /// protocol's layout. Reading them back, wherever they stand, gives the value,
    /// with each field that the version leaves out at its default.
    #[verifier::spinoff_prover]
    pub proof fn lemma_body_layout(pre: Seq<u8>, m: BrokerRegistrationRequestModel, post: Seq<u8>, ctx: Ctx)
        requires
            Self::spec_encode_body(m, ctx) is Ok,
        ensures
            Self::spec_encode_body(m, ctx) == Ok::<Seq<u8>, SerializationError>((i32_bytes(m.broker_id)) + ((string_bytes(m.cluster_id, ctx.flexible))->Ok_0) + (m.incarnation_id) + ((map_bytes::<String, Listener>(m.listeners, Ctx { version: ctx.version, flexible: ctx.flexible, classic: false }))->Ok_0) + ((map_bytes::<String, Feature>(m.features, Ctx { version: ctx.version, flexible: ctx.flexible, classic: false }))->Ok_0) + ((nullable_string_bytes(m.rack, ctx.flexible))->Ok_0) + (if 1 <= ctx.version { bool_bytes(m.is_migrating_zk_broker) } else { Seq::<u8>::empty() }) + (if 2 <= ctx.version { (array_bytes::<[u8; 16]>(m.log_dirs, Ctx { version: ctx.version, flexible: ctx.flexible, classic: false }))->Ok_0 } else { Seq::<u8>::empty() }) + (if 3 <= ctx.version { i64_bytes(m.previous_broker_epoch) } else { Seq::<u8>::empty() }) + (if ctx.flexible { uvarint_bytes(0) } else { Seq::<u8>::empty() })),
            Self::reads_back_body(m, ctx) ==> Self::spec_decode_body(pre + ((i32_bytes(m.broker_id)) + ((string_bytes(m.cluster_id, ctx.flexible))->Ok_0) + (m.incarnation_id) + ((map_bytes::<String, Listener>(m.listeners, Ctx { version: ctx.version, flexible: ctx.flexible, classic: false }))->Ok_0) + ((map_bytes::<String, Feature>(m.features, Ctx { version: ctx.version, flexible: ctx.flexible, classic: false }))->Ok_0) + ((nullable_string_bytes(m.rack, ctx.flexible))->Ok_0) + (if 1 <= ctx.version { bool_bytes(m.is_migrating_zk_broker) } else { Seq::<u8>::empty() }) + (if 2 <= ctx.version { (array_bytes::<[u8; 16]>(m.log_dirs, Ctx { version: ctx.version, flexible: ctx.flexible, classic: false }))->Ok_0 } else { Seq::<u8>::empty() }) + (if 3 <= ctx.version { i64_bytes(m.previous_broker_epoch) } else { Seq::<u8>::empty() }) + (if ctx.flexible { uvarint_bytes(0) } else { Seq::<u8>::empty() })) + post, pre.len() as int, ctx) == Ok::<(BrokerRegistrationRequestModel, int), SerializationError>((BrokerRegistrationRequestModel { broker_id: m.broker_id, cluster_id: m.cluster_id, incarnation_id: m.incarnation_id, listeners: m.listeners, features: m.features, rack: m.rack, is_migrating_zk_broker: if 1 <= ctx.version { m.is_migrating_zk_broker } else { false }, log_dirs: if 2 <= ctx.version { m.log_dirs } else { Seq::<<[u8; 16] as DeepView>::V>::empty() }, previous_broker_epoch: if 3 <= ctx.version { m.previous_broker_epoch } else { -1i64 } }, pre.len() as int + ((i32_bytes(m.broker_id)) + ((string_bytes(m.cluster_id, ctx.flexible))->Ok_0) + (m.incarnation_id) + ((map_bytes::<String, Listener>(m.listeners, Ctx { version: ctx.version, flexible: ctx.flexible, classic: false }))->Ok_0) + ((map_bytes::<String, Feature>(m.features, Ctx { version: ctx.version, flexible: ctx.flexible, classic: false }))->Ok_0) + ((nullable_string_bytes(m.rack, ctx.flexible))->Ok_0) + (if 1 <= ctx.version { bool_bytes(m.is_migrating_zk_broker) } else { Seq::<u8>::empty() }) + (if 2 <= ctx.version { (array_bytes::<[u8; 16]>(m.log_dirs, Ctx { version: ctx.version, flexible: ctx.flexible, classic: false }))->Ok_0 } else { Seq::<u8>::empty() }) + (if 3 <= ctx.version { i64_bytes(m.previous_broker_epoch) } else { Seq::<u8>::empty() }) + (if ctx.flexible { uvarint_bytes(0) } else { Seq::<u8>::empty() })).len())),
    {
        let b0 = i32_bytes(m.broker_id);
        let b1 = (string_bytes(m.cluster_id, ctx.flexible))->Ok_0;
        let b2 = m.incarnation_id;
        let b3 = (map_bytes::<String, Listener>(m.listeners, Ctx { version: ctx.version, flexible: ctx.flexible, classic: false }))->Ok_0;
        let b4 = (map_bytes::<String, Feature>(m.features, Ctx { version: ctx.version, flexible: ctx.flexible, classic: false }))->Ok_0;
        let b5 = (nullable_string_bytes(m.rack, ctx.flexible))->Ok_0;
        let b6 = if 1 <= ctx.version { bool_bytes(m.is_migrating_zk_broker) } else { Seq::<u8>::empty() };
        let b7 = if 2 <= ctx.version { (array_bytes::<[u8; 16]>(m.log_dirs, Ctx { version: ctx.version, flexible: ctx.flexible, classic: false }))->Ok_0 } else { Seq::<u8>::empty() };
        let b8 = if 3 <= ctx.version { i64_bytes(m.previous_broker_epoch) } else { Seq::<u8>::empty() };
        let b9 = if ctx.flexible { uvarint_bytes(0) } else { Seq::<u8>::empty() };
        let e = Self::spec_encode_body(m, ctx)->Ok_0;
        let p1 = Self::spec_encode_body_part1(m, ctx)->Ok_0;
        assert(p1 =~= Seq::<u8>::empty() + b0 + b1 + b2 + b3 + b4);
        let p2 = Self::spec_encode_body_part2(m, ctx)->Ok_0;
        assert(p2 =~= Seq::<u8>::empty() + b5 + b6 + b7 + b8 + b9);
        assert(e == Seq::<u8>::empty() + p1 + p2);
        assert(e =~= b0 + b1 + b2 + b3 + b4 + b5 + b6 + b7 + b8 + b9);
        if Self::reads_back_body(m, ctx) {
            Self::lemma_body_read_back(pre, m, post, ctx);
            reveal(BrokerRegistrationRequest::spec_read_as);
        }
    }

    /// Writing succeeds exactly when every field that the version carries can be
    /// encoded and every field that it leaves out, where leaving it out is an
    /// error, holds its default.
    #[verifier::spinoff_prover]
    pub proof fn lemma_body_write_succeeds(m: BrokerRegistrationRequestModel, ctx: Ctx)
        ensures
            Self::spec_encode_body(m, ctx) is Ok <==> (string_bytes(m.cluster_id, ctx.flexible) is Ok) && (map_bytes::<String, Listener>(m.listeners, Ctx { version: ctx.version, flexible: ctx.flexible, classic: false }) is Ok) && (map_bytes::<String, Feature>(m.features, Ctx { version: ctx.version, flexible: ctx.flexible, classic: false }) is Ok) && (nullable_string_bytes(m.rack, ctx.flexible) is Ok) && ((2 <= ctx.version) ==> array_bytes::<[u8; 16]>(m.log_dirs, Ctx { version: ctx.version, flexible: ctx.flexible, classic: false }) is Ok),
    {
    }

    /// Writes the structure for `version`, with the compact encodings when `is_flexible`.
    /// On failure the buffer is left as it was.
    pub fn encode(&self, buf: &mut Vec<u8>, version: ApiVersion, is_flexible: bool) -> (r: Result<(), SerializationError>)
        ensures
            write_exact(r, old(buf)@, final(buf)@, Self::spec_encode_body(self.deep_view(), Ctx { version: version.0, flexible: is_flexible, classic: false })),
    {
        let start = buf.len();
        let r = self.encode_ctx(buf, Ctx::new(version, is_flexible));
        if r.is_err() {
            buf.truncate(start);
        }
        r
    }

    /// Reads the structure as written for `version`.
    /// On failure the reader is put back where it started.
    #[verifier::spinoff_prover]
    pub fn decode(buf: &mut Reader, version: ApiVersion, is_flexible: bool) -> (r: Result<Self, SerializationError>)
        ensures
            final(buf).bytes() == old(buf).bytes(),
            read_view_exact(r, Self::spec_decode_body(old(buf).bytes(), old(buf).pos(), Ctx { version: version.0, flexible: is_flexible, classic: false }), old(buf).pos(), final(buf).pos()),
    {
        let start = buf.position();
        let r = Self::decode_ctx(buf, Ctx::new(version, is_flexible));
        if r.is_err() {
            buf.set_position(start);
        }
        r
    }
}

impl KafkaCodec for BrokerRegistrationRequest {
    open spec fn spec_encode(m: BrokerRegistrationRequestModel, ctx: Ctx) -> Result<Seq<u8>, SerializationError> {
        Self::spec_encode_body(m, ctx)
    }

    open spec fn spec_decode(s: Seq<u8>, pos: int, ctx: Ctx) -> Result<(BrokerRegistrationRequestModel, int), SerializationError> {
        Self::spec_decode_body(s, pos, ctx)
    }

    open spec fn reads_back(v: BrokerRegistrationRequestModel, ctx: Ctx) -> bool {
        Self::reads_back_body(v, ctx) && Self::spec_read_as(v, ctx) == v
    }

    proof fn lemma_read_back(pre: Seq<u8>, v: BrokerRegistrationRequestModel, post: Seq<u8>, ctx: Ctx) {
        Self::lemma_body_read_back(pre, v, post, ctx);
        assert(Self::spec_decode(pre + Self::spec_encode(v, ctx)->Ok_0 + post, pre.len() as int, ctx)
            == Self::spec_decode_body(pre + Self::spec_encode_body(v, ctx)->Ok_0 + post, pre.len() as int, ctx));
    }

    #[verifier::spinoff_prover]
    fn encode_ctx(&self, buf: &mut Vec<u8>, ctx: Ctx) -> (r: Result<(), SerializationError>) {
        let ghost mut w: Seq<u8> = Seq::empty();
        self.encode_body_part1(buf, ctx)?;
        proof {
            w = w + (Self::spec_encode_body_part1(self.deep_view(), ctx))->Ok_0;
        }
        assert(buf@ =~= old(buf)@ + w);
        self.encode_body_part2(buf, ctx)?;
        proof {
            w = w + (Self::spec_encode_body_part2(self.deep_view(), ctx))->Ok_0;
        }
        assert(buf@ =~= old(buf)@ + w);
        Ok(())
    }

    #[verifier::spinoff_prover]
    fn decode_ctx(buf: &mut Reader, ctx: Ctx) -> (r: Result<Self, SerializationError>) {
        let broker_id = buf.get_i32()?;
        let cluster_id = buf.get_string(ctx.flexible)?;
        let incarnation_id = buf.get_uuid()?;
        let listeners = decode_listener_map(buf, Ctx { version: ctx.version, flexible: ctx.flexible, classic: false })?;
        let features = decode_feature_map(buf, Ctx { version: ctx.version, flexible: ctx.flexible, classic: false })?;
        let rack = buf.get_nullable_string(ctx.flexible)?;
        let is_migrating_zk_broker = if 1 <= ctx.version {
            buf.get_bool()?
        } else {
            false
        };
        let log_dirs = if 2 <= ctx.version {
            decode_array::<[u8; 16]>(buf, Ctx { version: ctx.version, flexible: ctx.flexible, classic: false })?
        } else {
            new_array::<[u8; 16]>()
        };
        let previous_broker_epoch = if 3 <= ctx.version {
            buf.get_i64()?
        } else {
            -1i64
        };
        if ctx.flexible {
            let (_tag_count, _) = decode_unsigned_varint(buf)?;
        }
        Ok(BrokerRegistrationRequest { broker_id, cluster_id, incarnation_id, listeners, features, rack, is_migrating_zk_broker, log_dirs, previous_broker_epoch })
    }
}

impl BrokerRegistrationRequest {
    /// The API key of this message.
    pub fn get_api_key() -> (r: ApiKey)
        ensures
            r.0 == 62,
    {
        ApiKey::new(62)
    }

    /// The oldest version of this message.
    pub fn get_min_supported_version() -> (r: ApiVersion)
        ensures
            r.0 == 0,
    {
        ApiVersion::new(0)
    }

    /// The newest version of this message.
    pub fn get_max_supported_version() -> (r: ApiVersion)
        ensures
            r.0 == 4,
    {
        ApiVersion::new(4)
    }

    /// The first version of this message with the compact encodings.
    pub fn get_min_flexible_version() -> (r: ApiVersion)
        ensures
            r.0 == 0,
    {
        ApiVersion::new(0)
    }

    /// Fields 1 to 5 of the encoding.
    pub open spec fn spec_serialize_part1(m: BrokerRegistrationRequestModel, ctx: Ctx) -> Result<Seq<u8>, SerializationError> {
        let r = Ok(Seq::<u8>::empty());
        let r = then(r, Ok(i32_bytes(m.broker_id)));
        let r = then(r, string_bytes(m.cluster_id, ctx.flexible));
        let r = then(r, Ok(m.incarnation_id));
        let r = then(r, map_bytes::<String, Listener>(m.listeners, Ctx { version: ctx.version, flexible: ctx.flexible, classic: false }));
        let r = then(r, map_bytes::<String, Feature>(m.features, Ctx { version: ctx.version, flexible: ctx.flexible, classic: false }));
        r
    }

    #[verifier::spinoff_prover]
    fn serialize_part1(&self, buf: &mut Vec<u8>, ctx: Ctx) -> (r: Result<(), SerializationError>)
        ensures
            write_ok(r, old(buf)@, final(buf)@, Self::spec_serialize_part1(self.deep_view(), ctx)),
    {
        let ghost mut w: Seq<u8> = Seq::empty();
        put_i32(buf, self.broker_id);
        proof {
            w = w + i32_bytes(self.broker_id);
        }
        assert(buf@ =~= old(buf)@ + w);
        encode_string(&self.cluster_id, buf, ctx.flexible)?;
        proof {
            w = w + (string_bytes(self.cluster_id.deep_view(), ctx.flexible))->Ok_0;
        }
        assert(buf@ =~= old(buf)@ + w);
        encode_uuid(&self.incarnation_id, buf);
        proof {
            w = w + self.incarnation_id@;
        }
        assert(buf@ =~= old(buf)@ + w);
        encode_listener_map(&self.listeners, buf, Ctx { version: ctx.version, flexible: ctx.flexible, classic: false })?;
        proof {
            w = w + (map_bytes::<String, Listener>(listener_map_view(self.listeners), Ctx { version: ctx.version, flexible: ctx.flexible, classic: false }))->Ok_0;
        }
        assert(buf@ =~= old(buf)@ + w);
        encode_feature_map(&self.features, buf, Ctx { version: ctx.version, flexible: ctx.flexible, classic: false })?;
        proof {
            w = w + (map_bytes::<String, Feature>(feature_map_view(self.features), Ctx { version: ctx.version, flexible: ctx.flexible, classic: false }))->Ok_0;
        }
        assert(buf@ =~= old(buf)@ + w);
        Ok(())
    }

    /// Fields 6 to 10 of the encoding.
    pub open spec fn spec_serialize_part2(m: BrokerRegistrationRequestModel, ctx: Ctx) -> Result<Seq<u8>, SerializationError> {
        let r = Ok(Seq::<u8>::empty());
        let r = then(r, nullable_string_bytes(m.rack, ctx.flexible));
        let r = if 1 <= ctx.version { then(r, Ok(bool_bytes(m.is_migrating_zk_broker))) } else if m.is_migrating_zk_broker { then(r, Err(SerializationError::FieldNotAvailable { field: "IsMigratingZkBroker", version: ctx.version, api_name: "BrokerRegistrationRequest" })) } else { r };
        let r = if 2 <= ctx.version { then(r, array_bytes::<[u8; 16]>(m.log_dirs, Ctx { version: ctx.version, flexible: ctx.flexible, classic: false })) } else if m.log_dirs.len() != 0 { then(r, Err(SerializationError::FieldNotAvailable { field: "LogDirs", version: ctx.version, api_name: "BrokerRegistrationRequest" })) } else { r };
        let r = if 3 <= ctx.version { then(r, Ok(i64_bytes(m.previous_broker_epoch))) } else if m.previous_broker_epoch != -1 { then(r, Err(SerializationError::FieldNotAvailable { field: "PreviousBrokerEpoch", version: ctx.version, api_name: "BrokerRegistrationRequest" })) } else { r };
        let r = if ctx.flexible { then(r, Ok(uvarint_bytes(0))) } else { r };
        r
    }

    #[verifier::spinoff_prover]
    fn serialize_part2(&self, buf: &mut Vec<u8>, ctx: Ctx) -> (r: Result<(), SerializationError>)
        ensures
            write_ok(r, old(buf)@, final(buf)@, Self::spec_serialize_part2(self.deep_view(), ctx)),
    {
        let ghost mut w: Seq<u8> = Seq::empty();
        encode_nullable_string(&self.rack, buf, ctx.flexible)?;
        proof {
            w = w + (nullable_string_bytes(self.rack.deep_view(), ctx.flexible))->Ok_0;
        }
        assert(buf@ =~= old(buf)@ + w);
        if 1 <= ctx.version {
            put_bool(buf, self.is_migrating_zk_broker);
            proof {
                w = w + bool_bytes(self.is_migrating_zk_broker);
            }
            assert(buf@ =~= old(buf)@ + w);
        } else if self.is_migrating_zk_broker {
            return Err(SerializationError::FieldNotAvailable { field: "IsMigratingZkBroker", version: ctx.version, api_name: "BrokerRegistrationRequest" });
        }
        if 2 <= ctx.version {
            encode_array(&self.log_dirs, buf, Ctx { version: ctx.version, flexible: ctx.flexible, classic: false })?;
            proof {
                w = w + (array_bytes::<[u8; 16]>(self.log_dirs.deep_view(), Ctx { version: ctx.version, flexible: ctx.flexible, classic: false }))->Ok_0;
            }
            assert(buf@ =~= old(buf)@ + w);
        } else if self.log_dirs.len() != 0 {
            return Err(SerializationError::FieldNotAvailable { field: "LogDirs", version: ctx.version, api_name: "BrokerRegistrationRequest" });
        }
        if 3 <= ctx.version {
            put_i64(buf, self.previous_broker_epoch);
            proof {
                w = w + i64_bytes(self.previous_broker_epoch);
            }
            assert(buf@ =~= old(buf)@ + w);
        } else if self.previous_broker_epoch != -1 {
            return Err(SerializationError::FieldNotAvailable { field: "PreviousBrokerEpoch", version: ctx.version, api_name: "BrokerRegistrationRequest" });
        }
        if ctx.flexible {
            encode_unsigned_varint(0, buf);
            proof {
                w = w + uvarint_bytes(0);
            }
            assert(buf@ =~= old(buf)@ + w);
        }
        Ok(())
    }

    /// The encoding of a whole message body at `version`.
    pub open spec fn spec_serialize(m: BrokerRegistrationRequestModel, version: i16) -> Result<Seq<u8>, SerializationError> {
        let is_flexible = version >= 0;
        let ctx = Ctx { version, flexible: is_flexible, classic: false };
        let r = Ok(Seq::<u8>::empty());
        let r = then(r, Self::spec_serialize_part1(m, ctx));
        let r = then(r, Self::spec_serialize_part2(m, ctx));
        r
    }

    /// The message body read at `version`.
    pub open spec fn spec_deserialize(s: Seq<u8>, pos: int, version: i16) -> Result<(BrokerRegistrationRequestModel, int), SerializationError> {
        let is_flexible = version >= 0;
        let ctx = Ctx { version, flexible: is_flexible, classic: false };
        match parse_i32(s, pos) {
            Err(e) => Err(e),
            Ok((broker_id, pos)) =>
            match parse_string(s, pos, ctx.flexible) {
                Err(e) => Err(e),
                Ok((cluster_id, pos)) =>
                match parse_raw(s, pos, 16) {
                    Err(e) => Err(e),
                    Ok((incarnation_id, pos)) =>
                    match parse_map::<String, Listener>(s, pos, Ctx { version: ctx.version, flexible: ctx.flexible, classic: false }) {
                        Err(e) => Err(e),
                        Ok((listeners, pos)) =>
                        match parse_map::<String, Feature>(s, pos, Ctx { version: ctx.version, flexible: ctx.flexible, classic: false }) {
                            Err(e) => Err(e),
                            Ok((features, pos)) =>
                            match parse_nullable_string(s, pos, ctx.flexible) {
                                Err(e) => Err(e),
                                Ok((rack, pos)) =>
                                match (if 1 <= ctx.version { parse_bool(s, pos) } else { Ok((false, pos)) }) {
                                    Err(e) => Err(e),
                                    Ok((is_migrating_zk_broker, pos)) =>
                                    match (if 2 <= ctx.version { parse_array::<[u8; 16]>(s, pos, Ctx { version: ctx.version, flexible: ctx.flexible, classic: false }) } else { Ok((Seq::<<[u8; 16] as DeepView>::V>::empty(), pos)) }) {
                                        Err(e) => Err(e),
                                        Ok((log_dirs, pos)) =>
                                        match (if 3 <= ctx.version { parse_i64(s, pos) } else { Ok((-1i64, pos)) }) {
                                            Err(e) => Err(e),
                                            Ok((previous_broker_epoch, pos)) =>
                                            match (if ctx.flexible { parse_uvarint(s, pos) } else { Ok((0u64, pos)) }) {
                                                Err(e) => Err(e),
                                                Ok((_tag_count, pos)) =>
                                                Ok((BrokerRegistrationRequestModel { broker_id, cluster_id, incarnation_id, listeners, features, rack, is_migrating_zk_broker, log_dirs, previous_broker_epoch }, pos))
                                            }
                                        }
                                    }
                                }
                            }
                        }
                    }
                }
            }
        }
    }

    /// Message bodies that read back when written at `version`: nested values read
    /// back. A field that the version leaves out is read as its default.
    pub open spec fn reads_back_message(m: BrokerRegistrationRequestModel, version: i16) -> bool {
        let is_flexible = version >= 0;
        let ctx = Ctx { version, flexible: is_flexible, classic: false };
        &&& m.incarnation_id.len() == 16
        &&& (keys_distinct(m.listeners) && entries_read_back::<String, Listener>(m.listeners, Ctx { version: ctx.version, flexible: ctx.flexible, classic: false }))
        &&& (keys_distinct(m.features) && entries_read_back::<String, Feature>(m.features, Ctx { version: ctx.version, flexible: ctx.flexible, classic: false }))
        &&& (2 <= ctx.version) ==> forall|i: int| 0 <= i < m.log_dirs.len() ==> #[trigger] <[u8; 16] as KafkaCodec>::reads_back(m.log_dirs[i], Ctx { version: ctx.version, flexible: ctx.flexible, classic: false })
    }

    /// A message body that can be written at `version` and reads back: reading a
    /// body at `version` from its bytes, wherever they stand, gives the same message,
    /// with each field that the version leaves out at its default.
    #[verifier::spinoff_prover]
    pub proof fn lemma_message_read_back(pre: Seq<u8>, m: BrokerRegistrationRequestModel, post: Seq<u8>, version: i16)
        requires
            Self::spec_serialize(m, version) is Ok,
            Self::reads_back_message(m, version),
        ensures
            Self::spec_deserialize(pre + Self::spec_serialize(m, version)->Ok_0 + post, pre.len() as int, version) == Ok::<(BrokerRegistrationRequestModel, int), SerializationError>((BrokerRegistrationRequestModel { broker_id: m.broker_id, cluster_id: m.cluster_id, incarnation_id: m.incarnation_id, listeners: m.listeners, features: m.features, rack: m.rack, is_migrating_zk_broker: if 1 <= version { m.is_migrating_zk_broker } else { false }, log_dirs: if 2 <= version { m.log_dirs } else { Seq::<<[u8; 16] as DeepView>::V>::empty() }, previous_broker_epoch: if 3 <= version { m.previous_broker_epoch } else { -1i64 } }, pre.len() as int + Self::spec_serialize(m, version)->Ok_0.len())),
    {
        let is_flexible = version >= 0;
        let ctx = Ctx { version, flexible: is_flexible, classic: false };
        let b0 = i32_bytes(m.broker_id);
        let b1 = (string_bytes(m.cluster_id, ctx.flexible))->Ok_0;
        let b2 = m.incarnation_id;
        let b3 = (map_bytes::<String, Listener>(m.listeners, Ctx { version: ctx.version, flexible: ctx.flexible, classic: false }))->Ok_0;
        let b4 = (map_bytes::<String, Feature>(m.features, Ctx { version: ctx.version, flexible: ctx.flexible, classic: false }))->Ok_0;
        let b5 = (nullable_string_bytes(m.rack, ctx.flexible))->Ok_0;
        let b6 = if 1 <= ctx.version { bool_bytes(m.is_migrating_zk_broker) } else { Seq::<u8>::empty() };
        let b7 = if 2 <= ctx.version { (array_bytes::<[u8; 16]>(m.log_dirs, Ctx { version: ctx.version, flexible: ctx.flexible, classic: false }))->Ok_0 } else { Seq::<u8>::empty() };
        let b8 = if 3 <= ctx.version { i64_bytes(m.previous_broker_epoch) } else { Seq::<u8>::empty() };
        let b9 = if ctx.flexible { uvarint_bytes(0) } else { Seq::<u8>::empty() };
        let t10 = post;
        let t9 = b9 + t10;
        let t8 = b8 + t9;
        let t7 = b7 + t8;
        let t6 = b6 + t7;
        let t5 = b5 + t6;
        let t4 = b4 + t5;
        let t3 = b3 + t4;
        let t2 = b2 + t3;
        let t1 = b1 + t2;
        let t0 = b0 + t1;
        let e = Self::spec_serialize(m, version)->Ok_0;
        let p1 = Self::spec_serialize_part1(m, ctx)->Ok_0;
        assert(p1 =~= Seq::<u8>::empty() + b0 + b1 + b2 + b3 + b4);
        lemma_seq_assoc(((((Seq::<u8>::empty() + b0) + b1) + b2) + b3), b4, t5);
        lemma_seq_assoc((((Seq::<u8>::empty() + b0) + b1) + b2), b3, (b4 + t5));
        lemma_seq_assoc(((Seq::<u8>::empty() + b0) + b1), b2, (b3 + (b4 + t5)));
        lemma_seq_assoc((Seq::<u8>::empty() + b0), b1, (b2 + (b3 + (b4 + t5))));
        lemma_seq_assoc(Seq::<u8>::empty(), b0, (b1 + (b2 + (b3 + (b4 + t5)))));
        lemma_seq_empty_left((b0 + (b1 + (b2 + (b3 + (b4 + t5))))));
        let p2 = Self::spec_serialize_part2(m, ctx)->Ok_0;
        assert(p2 =~= Seq::<u8>::empty() + b5 + b6 + b7 + b8 + b9);
        lemma_seq_assoc(((((Seq::<u8>::empty() + b5) + b6) + b7) + b8), b9, t10);
        lemma_seq_assoc((((Seq::<u8>::empty() + b5) + b6) + b7), b8, (b9 + t10));
        lemma_seq_assoc(((Seq::<u8>::empty() + b5) + b6), b7, (b8 + (b9 + t10)));
        lemma_seq_assoc((Seq::<u8>::empty() + b5), b6, (b7 + (b8 + (b9 + t10))));
        lemma_seq_assoc(Seq::<u8>::empty(), b5, (b6 + (b7 + (b8 + (b9 + t10)))));
        lemma_seq_empty_left((b5 + (b6 + (b7 + (b8 + (b9 + t10))))));
        assert(e == Seq::<u8>::empty() + p1 + p2);
        lemma_seq_assoc((Seq::<u8>::empty() + p1), p2, t10);
        lemma_seq_assoc(Seq::<u8>::empty(), p1, (p2 + t10));
        lemma_seq_empty_left((p1 + (p2 + t10)));
        let s = pre + e + post;
        lemma_seq_assoc(pre, e, post);
        assert(s == pre + t0);
        let a0 = pre;
        assert(parse_i32(s, a0.len() as int) == Ok::<(i32, int), SerializationError>((m.broker_id, a0.len() as int + b0.len()))) by {
            lemma_seq_assoc(a0, b0, t1);
            lemma_i32_roundtrip(a0, m.broker_id, t1);
        }
        lemma_seq_assoc(a0, b0, t1);
        let a1 = a0 + b0;
        assert(parse_string(s, a1.len() as int, ctx.flexible) == Ok::<(Seq<char>, int), SerializationError>((m.cluster_id, a1.len() as int + b1.len()))) by {
            assert(string_bytes(m.cluster_id, ctx.flexible) is Ok);
            lemma_seq_assoc(a1, b1, t2);
            lemma_string_roundtrip(a1, m.cluster_id, t2, ctx.flexible);
        }
        lemma_seq_assoc(a1, b1, t2);
        let a2 = a1 + b1;
        assert(parse_raw(s, a2.len() as int, 16) == Ok::<(Seq<u8>, int), SerializationError>((m.incarnation_id, a2.len() as int + b2.len()))) by {
            lemma_seq_assoc(a2, b2, t3);
            lemma_uuid_roundtrip(a2, m.incarnation_id, t3);
        }
        lemma_seq_assoc(a2, b2, t3);
        let a3 = a2 + b2;
        assert(parse_map::<String, Listener>(s, a3.len() as int, Ctx { version: ctx.version, flexible: ctx.flexible, classic: false }) == Ok::<(Seq<(Seq<char>, ListenerModel)>, int), SerializationError>((m.listeners, a3.len() as int + b3.len()))) by {
            assert(map_bytes::<String, Listener>(m.listeners, Ctx { version: ctx.version, flexible: ctx.flexible, classic: false }) is Ok);
            lemma_seq_assoc(a3, b3, t4);
            lemma_map_roundtrip::<String, Listener>(a3, m.listeners, t4, Ctx { version: ctx.version, flexible: ctx.flexible, classic: false });
        }
        lemma_seq_assoc(a3, b3, t4);
        let a4 = a3 + b3;
        assert(parse_map::<String, Feature>(s, a4.len() as int, Ctx { version: ctx.version, flexible: ctx.flexible, classic: false }) == Ok::<(Seq<(Seq<char>, FeatureModel)>, int), SerializationError>((m.features, a4.len() as int + b4.len()))) by {
            assert(map_bytes::<String, Feature>(m.features, Ctx { version: ctx.version, flexible: ctx.flexible, classic: false }) is Ok);
            lemma_seq_assoc(a4, b4, t5);
            lemma_map_roundtrip::<String, Feature>(a4, m.features, t5, Ctx { version: ctx.version, flexible: ctx.flexible, classic: false });
        }
        lemma_seq_assoc(a4, b4, t5);
        let a5 = a4 + b4;
        assert(parse_nullable_string(s, a5.len() as int, ctx.flexible) == Ok::<(Option<Seq<char>>, int), SerializationError>((m.rack, a5.len() as int + b5.len()))) by {
            assert(nullable_string_bytes(m.rack, ctx.flexible) is Ok);
            lemma_seq_assoc(a5, b5, t6);
            lemma_nullable_string_roundtrip(a5, m.rack, t6, ctx.flexible);
        }
        lemma_seq_assoc(a5, b5, t6);
        let a6 = a5 + b5;
        if 1 <= ctx.version {
            assert(parse_bool(s, a6.len() as int) == Ok::<(bool, int), SerializationError>((m.is_migrating_zk_broker, a6.len() as int + b6.len()))) by {
                lemma_seq_assoc(a6, b6, t7);
                lemma_bool_roundtrip(a6, m.is_migrating_zk_broker, t7);
            }
        }
        lemma_seq_assoc(a6, b6, t7);
        let a7 = a6 + b6;
        if 2 <= ctx.version {
            assert(parse_array::<[u8; 16]>(s, a7.len() as int, Ctx { version: ctx.version, flexible: ctx.flexible, classic: false }) == Ok::<(Seq<<[u8; 16] as DeepView>::V>, int), SerializationError>((m.log_dirs, a7.len() as int + b7.len()))) by {
                assert(array_bytes::<[u8; 16]>(m.log_dirs, Ctx { version: ctx.version, flexible: ctx.flexible, classic: false }) is Ok);
                lemma_seq_assoc(a7, b7, t8);
                lemma_items_read_back::<[u8; 16]>(m.log_dirs, Ctx { version: ctx.version, flexible: ctx.flexible, classic: false });
                lemma_array_roundtrip::<[u8; 16]>(a7, m.log_dirs, t8, Ctx { version: ctx.version, flexible: ctx.flexible, classic: false });
            }
        }
        lemma_seq_assoc(a7, b7, t8);
        let a8 = a7 + b7;
        if 3 <= ctx.version {
            assert(parse_i64(s, a8.len() as int) == Ok::<(i64, int), SerializationError>((m.previous_broker_epoch, a8.len() as int + b8.len()))) by {
                lemma_seq_assoc(a8, b8, t9);
                lemma_i64_roundtrip(a8, m.previous_broker_epoch, t9);
            }
        }
        lemma_seq_assoc(a8, b8, t9);
        let a9 = a8 + b8;
        if ctx.flexible {
            assert(parse_uvarint(s, a9.len() as int) == Ok::<(u64, int), SerializationError>((0u64, a9.len() as int + b9.len()))) by {
                lemma_seq_assoc(a9, b9, t10);
                lemma_uvarint_roundtrip(a9, 0, t10);
            }
        }
    }

    /// The bytes written: the encoding of each field, in the order of the
    /// protocol's layout. Reading them back, wherever they stand, gives the value,
    /// with each field that the version leaves out at its default.
    #[verifier::spinoff_prover]
    pub proof fn lemma_message_layout(pre: Seq<u8>, m: BrokerRegistrationRequestModel, post: Seq<u8>, version: i16)
        requires
            Self::spec_serialize(m, version) is Ok,
        ensures
            Self::spec_serialize(m, version) == Ok::<Seq<u8>, SerializationError>((i32_bytes(m.broker_id)) + ((string_bytes(m.cluster_id, (version >= 0)))->Ok_0) + (m.incarnation_id) + ((map_bytes::<String, Listener>(m.listeners, Ctx { version: version, flexible: (version >= 0), classic: false }))->Ok_0) + ((map_bytes::<String, Feature>(m.features, Ctx { version: version, flexible: (version >= 0), classic: false }))->Ok_0) + ((nullable_string_bytes(m.rack, (version >= 0)))->Ok_0) + (if 1 <= version { bool_bytes(m.is_migrating_zk_broker) } else { Seq::<u8>::empty() }) + (if 2 <= version { (array_bytes::<[u8; 16]>(m.log_dirs, Ctx { version: version, flexible: (version >= 0), classic: false }))->Ok_0 } else { Seq::<u8>::empty() }) + (if 3 <= version { i64_bytes(m.previous_broker_epoch) } else { Seq::<u8>::empty() }) + (if (version >= 0) { uvarint_bytes(0) } else { Seq::<u8>::empty() })),
            Self::reads_back_message(m, version) ==> Self::spec_deserialize(pre + ((i32_bytes(m.broker_id)) + ((string_bytes(m.cluster_id, (version >= 0)))->Ok_0) + (m.incarnation_id) + ((map_bytes::<String, Listener>(m.listeners, Ctx { version: version, flexible: (version >= 0), classic: false }))->Ok_0) + ((map_bytes::<String, Feature>(m.features, Ctx { version: version, flexible: (version >= 0), classic: false }))->Ok_0) + ((nullable_string_bytes(m.rack, (version >= 0)))->Ok_0) + (if 1 <= version { bool_bytes(m.is_migrating_zk_broker) } else { Seq::<u8>::empty() }) + (if 2 <= version { (array_bytes::<[u8; 16]>(m.log_dirs, Ctx { version: version, flexible: (version >= 0), classic: false }))->Ok_0 } else { Seq::<u8>::empty() }) + (if 3 <= version { i64_bytes(m.previous_broker_epoch) } else { Seq::<u8>::empty() }) + (if (version >= 0) { uvarint_bytes(0) } else { Seq::<u8>::empty() })) + post, pre.len() as int, version) == Ok::<(BrokerRegistrationRequestModel, int), SerializationError>((BrokerRegistrationRequestModel { broker_id: m.broker_id, cluster_id: m.cluster_id, incarnation_id: m.incarnation_id, listeners: m.listeners, features: m.features, rack: m.rack, is_migrating_zk_broker: if 1 <= version { m.is_migrating_zk_broker } else { false }, log_dirs: if 2 <= version { m.log_dirs } else { Seq::<<[u8; 16] as DeepView>::V>::empty() }, previous_broker_epoch: if 3 <= version { m.previous_broker_epoch } else { -1i64 } }, pre.len() as int + ((i32_bytes(m.broker_id)) + ((string_bytes(m.cluster_id, (version >= 0)))->Ok_0) + (m.incarnation_id) + ((map_bytes::<String, Listener>(m.listeners, Ctx { version: version, flexible: (version >= 0), classic: false }))->Ok_0) + ((map_bytes::<String, Feature>(m.features, Ctx { version: version, flexible: (version >= 0), classic: false }))->Ok_0) + ((nullable_string_bytes(m.rack, (version >= 0)))->Ok_0) + (if 1 <= version { bool_bytes(m.is_migrating_zk_broker) } else { Seq::<u8>::empty() }) + (if 2 <= version { (array_bytes::<[u8; 16]>(m.log_dirs, Ctx { version: version, flexible: (version >= 0), classic: false }))->Ok_0 } else { Seq::<u8>::empty() }) + (if 3 <= version { i64_bytes(m.previous_broker_epoch) } else { Seq::<u8>::empty() }) + (if (version >= 0) { uvarint_bytes(0) } else { Seq::<u8>::empty() })).len())),
    {
        let is_flexible = version >= 0;
        let ctx = Ctx { version, flexible: is_flexible, classic: false };
        let b0 = i32_bytes(m.broker_id);
        let b1 = (string_bytes(m.cluster_id, ctx.flexible))->Ok_0;
        let b2 = m.incarnation_id;
        let b3 = (map_bytes::<String, Listener>(m.listeners, Ctx { version: ctx.version, flexible: ctx.flexible, classic: false }))->Ok_0;
        let b4 = (map_bytes::<String, Feature>(m.features, Ctx { version: ctx.version, flexible: ctx.flexible, classic: false }))->Ok_0;
        let b5 = (nullable_string_bytes(m.rack, ctx.flexible))->Ok_0;
        let b6 = if 1 <= ctx.version { bool_bytes(m.is_migrating_zk_broker) } else { Seq::<u8>::empty() };
        let b7 = if 2 <= ctx.version { (array_bytes::<[u8; 16]>(m.log_dirs, Ctx { version: ctx.version, flexible: ctx.flexible, classic: false }))->Ok_0 } else { Seq::<u8>::empty() };
        let b8 = if 3 <= ctx.version { i64_bytes(m.previous_broker_epoch) } else { Seq::<u8>::empty() };
        let b9 = if ctx.flexible { uvarint_bytes(0) } else { Seq::<u8>::empty() };
        let e = Self::spec_serialize(m, version)->Ok_0;
        let p1 = Self::spec_serialize_part1(m, ctx)->Ok_0;
        assert(p1 =~= Seq::<u8>::empty() + b0 + b1 + b2 + b3 + b4);
        let p2 = Self::spec_serialize_part2(m, ctx)->Ok_0;
        assert(p2 =~= Seq::<u8>::empty() + b5 + b6 + b7 + b8 + b9);
        assert(e == Seq::<u8>::empty() + p1 + p2);
        assert(e =~= b0 + b1 + b2 + b3 + b4 + b5 + b6 + b7 + b8 + b9);
        if Self::reads_back_message(m, version) {
            Self::lemma_message_read_back(pre, m, post, version);
        }
    }

    /// Writing succeeds exactly when every field that the version carries can be
    /// encoded and every field that it leaves out, where leaving it out is an
    /// error, holds its default.
    #[verifier::spinoff_prover]
    pub proof fn lemma_message_write_succeeds(m: BrokerRegistrationRequestModel, version: i16)
        ensures
            Self::spec_serialize(m, version) is Ok <==> (string_bytes(m.cluster_id, (version >= 0)) is Ok) && (map_bytes::<String, Listener>(m.listeners, Ctx { version: version, flexible: (version >= 0), classic: false }) is Ok) && (map_bytes::<String, Feature>(m.features, Ctx { version: version, flexible: (version >= 0), classic: false }) is Ok) && (nullable_string_bytes(m.rack, (version >= 0)) is Ok) && (!(1 <= version) ==> !(m.is_migrating_zk_broker)) && ((2 <= version) ==> array_bytes::<[u8; 16]>(m.log_dirs, Ctx { version: version, flexible: (version >= 0), classic: false }) is Ok) && (!(2 <= version) ==> !(m.log_dirs.len() != 0)) && (!(3 <= version) ==> !(m.previous_broker_epoch != -1)),
    {
        let is_flexible = version >= 0;
        let ctx = Ctx { version, flexible: is_flexible, classic: false };
    }

    /// Writes the message body for `version`, which must be a supported version.
    /// On failure the buffer is left as it was.
    pub fn serialize(&self, version: ApiVersion, buf: &mut Vec<u8>) -> (r: Result<(), SerializationError>)
        requires
            0 <= version.0 <= 4,
        ensures
            write_exact(r, old(buf)@, final(buf)@, Self::spec_serialize(self.deep_view(), version.0)),
    {
        let start = buf.len();
        let r = self.write_body(version, buf);
        if r.is_err() {
            buf.truncate(start);
        }
        r
    }

    #[verifier::spinoff_prover]
    fn write_body(&self, version: ApiVersion, buf: &mut Vec<u8>) -> (r: Result<(), SerializationError>)
        requires
            0 <= version.0 <= 4,
        ensures
            write_ok(r, old(buf)@, final(buf)@, Self::spec_serialize(self.deep_view(), version.0)),
    {
        let is_flexible = version.0 >= Self::get_min_flexible_version().0;
        let ctx = Ctx::new(version, is_flexible);
        let ghost mut w: Seq<u8> = Seq::empty();
        self.serialize_part1(buf, ctx)?;
        proof {
            w = w + (Self::spec_serialize_part1(self.deep_view(), ctx))->Ok_0;
        }
        assert(buf@ =~= old(buf)@ + w);
        self.serialize_part2(buf, ctx)?;
        proof {
            w = w + (Self::spec_serialize_part2(self.deep_view(), ctx))->Ok_0;
        }
        assert(buf@ =~= old(buf)@ + w);
        Ok(())
    }

    /// Reads a message body written for `version`.
    /// On failure the reader is put back where it started.
    #[verifier::spinoff_prover]
    pub fn deserialize(version: ApiVersion, buf: &mut Reader) -> (r: Result<Self, SerializationError>)
        ensures
            final(buf).bytes() == old(buf).bytes(),
            read_view_exact(r, Self::spec_deserialize(old(buf).bytes(), old(buf).pos(), version.0), old(buf).pos(), final(buf).pos()),
    {
        let start = buf.position();
        let r = Self::read_body(version, buf);
        if r.is_err() {
            buf.set_position(start);
        }
        r
    }

    fn read_body(version: ApiVersion, buf: &mut Reader) -> (r: Result<Self, SerializationError>)
        ensures
            final(buf).bytes() == old(buf).bytes(),
            read_view_ok(r, Self::spec_deserialize(old(buf).bytes(), old(buf).pos(), version.0), final(buf).pos()),
    {
        let is_flexible = version.0 >= Self::get_min_flexible_version().0;
        let ctx = Ctx::new(version, is_flexible);
        let broker_id = buf.get_i32()?;
        let cluster_id = buf.get_string(ctx.flexible)?;
        let incarnation_id = buf.get_uuid()?;
        let listeners = decode_listener_map(buf, Ctx { version: ctx.version, flexible: ctx.flexible, classic: false })?;
        let features = decode_feature_map(buf, Ctx { version: ctx.version, flexible: ctx.flexible, classic: false })?;
        let rack = buf.get_nullable_string(ctx.flexible)?;
        let is_migrating_zk_broker = if 1 <= ctx.version {
            buf.get_bool()?
        } else {
            false
        };
        let log_dirs = if 2 <= ctx.version {
            decode_array::<[u8; 16]>(buf, Ctx { version: ctx.version, flexible: ctx.flexible, classic: false })?
        } else {
            new_array::<[u8; 16]>()
        };
        let previous_broker_epoch = if 3 <= ctx.version {
            buf.get_i64()?
        } else {
            -1i64
        };
        if ctx.flexible {
            let (_tag_count, _) = decode_unsigned_varint(buf)?;
        }
        Ok(BrokerRegistrationRequest { broker_id, cluster_id, incarnation_id, listeners, features, rack, is_migrating_zk_broker, log_dirs, previous_broker_epoch })
    }
}

// -------------------------------------------------------
// Feature
// -------------------------------------------------------
#[derive(Clone, Debug, Default, PartialEq)]
pub struct Feature {
    /// The minimum supported feature level.
    pub min_supported_version: i16,
    /// The maximum supported feature level.
    pub max_supported_version: i16,
}

/// The contents of `Feature`, with strings as characters and
/// nested values by their contents.
pub struct FeatureModel {
    pub min_supported_version: i16,
    pub max_supported_version: i16,
}

impl DeepView for Feature {
    type V = FeatureModel;

    open spec fn deep_view(&self) -> FeatureModel {
        FeatureModel {
            min_supported_version: self.min_supported_version,
            max_supported_version: self.max_supported_version,
        }
    }
}

impl Feature {
    /// The encoding of the structure in context `ctx`.
    pub open spec fn spec_encode_body(m: FeatureModel, ctx: Ctx) -> Result<Seq<u8>, SerializationError> {
        let r = Ok(Seq::<u8>::empty());
        let r = then(r, Ok(i16_bytes(m.min_supported_version)));
        let r = then(r, Ok(i16_bytes(m.max_supported_version)));
        let r = if ctx.flexible { then(r, Ok(uvarint_bytes(0))) } else { r };
        r
    }

    /// The structure read from `s` at `pos` in context `ctx`.
    pub open spec fn spec_decode_body(s: Seq<u8>, pos: int, ctx: Ctx) -> Result<(FeatureModel, int), SerializationError> {
        match parse_i16(s, pos) {
            Err(e) => Err(e),
            Ok((min_supported_version, pos)) =>
            match parse_i16(s, pos) {
                Err(e) => Err(e),
                Ok((max_supported_version, pos)) =>
                match (if ctx.flexible { parse_uvarint(s, pos) } else { Ok((0u64, pos)) }) {
                    Err(e) => Err(e),
                    Ok((_tag_count, pos)) =>
                    Ok((FeatureModel { min_supported_version, max_supported_version }, pos))
                }
            }
        }
    }

    /// Values of the structure that read back from their encoding in `ctx`: every
    /// field that the version leaves out holds its default, and nested values
    /// read back.
    pub open spec fn reads_back_body(m: FeatureModel, ctx: Ctx) -> bool {
        true
    }

    /// A value that can be written in `ctx` and reads back: decoding its encoding,
    /// wherever it stands, gives the value and the position just after it.
    #[verifier::spinoff_prover]
    pub proof fn lemma_body_read_back(pre: Seq<u8>, m: FeatureModel, post: Seq<u8>, ctx: Ctx)
        requires
            Self::spec_encode_body(m, ctx) is Ok,
            Self::reads_back_body(m, ctx),
        ensures
            Self::spec_decode_body(pre + Self::spec_encode_body(m, ctx)->Ok_0 + post, pre.len() as int, ctx) == Ok::<(FeatureModel, int), SerializationError>((m, pre.len() as int + Self::spec_encode_body(m, ctx)->Ok_0.len())),
    {
        let b0 = i16_bytes(m.min_supported_version);
        let b1 = i16_bytes(m.max_supported_version);
        let b2 = if ctx.flexible { uvarint_bytes(0) } else { Seq::<u8>::empty() };
        let t3 = post;
        let t2 = b2 + t3;
        let t1 = b1 + t2;
        let t0 = b0 + t1;
        let e = Self::spec_encode_body(m, ctx)->Ok_0;
        assert(e =~= Seq::<u8>::empty() + b0 + b1 + b2);
        lemma_seq_assoc(((Seq::<u8>::empty() + b0) + b1), b2, post);
        lemma_seq_assoc((Seq::<u8>::empty() + b0), b1, (b2 + post));
        lemma_seq_assoc(Seq::<u8>::empty(), b0, (b1 + (b2 + post)));
        lemma_seq_empty_left((b0 + (b1 + (b2 + post))));
        let s = pre + e + post;
        lemma_seq_assoc(pre, e, post);
        assert(s == pre + t0);
        let a0 = pre;
        assert(parse_i16(s, a0.len() as int) == Ok::<(i16, int), SerializationError>((m.min_supported_version, a0.len() as int + b0.len()))) by {
            lemma_seq_assoc(a0, b0, t1);
            lemma_i16_roundtrip(a0, m.min_supported_version, t1);
        }
        lemma_seq_assoc(a0, b0, t1);
        let a1 = a0 + b0;
        assert(parse_i16(s, a1.len() as int) == Ok::<(i16, int), SerializationError>((m.max_supported_version, a1.len() as int + b1.len()))) by {
            lemma_seq_assoc(a1, b1, t2);
            lemma_i16_roundtrip(a1, m.max_supported_version, t2);
        }
        lemma_seq_assoc(a1, b1, t2);
        let a2 = a1 + b1;
        if ctx.flexible {
            assert(parse_uvarint(s, a2.len() as int) == Ok::<(u64, int), SerializationError>((0u64, a2.len() as int + b2.len()))) by {
                lemma_seq_assoc(a2, b2, t3);
                lemma_uvarint_roundtrip(a2, 0, t3);
            }
        }
    }

    /// The bytes written: the encoding of each field, in the order of the
    /// protocol's layout. Reading them back, wherever they stand, gives the value,
    /// with each field that the version leaves out at its default.
    #[verifier::spinoff_prover]
    pub proof fn lemma_body_layout(pre: Seq<u8>, m: FeatureModel, post: Seq<u8>, ctx: Ctx)
        requires
            Self::spec_encode_body(m, ctx) is Ok,
        ensures
            Self::spec_encode_body(m, ctx) == Ok::<Seq<u8>, SerializationError>((i16_bytes(m.min_supported_version)) + (i16_bytes(m.max_supported_version)) + (if ctx.flexible { uvarint_bytes(0) } else { Seq::<u8>::empty() })),
            Self::reads_back_body(m, ctx) ==> Self::spec_decode_body(pre + ((i16_bytes(m.min_supported_version)) + (i16_bytes(m.max_supported_version)) + (if ctx.flexible { uvarint_bytes(0) } else { Seq::<u8>::empty() })) + post, pre.len() as int, ctx) == Ok::<(FeatureModel, int), SerializationError>((m, pre.len() as int + ((i16_bytes(m.min_supported_version)) + (i16_bytes(m.max_supported_version)) + (if ctx.flexible { uvarint_bytes(0) } else { Seq::<u8>::empty() })).len())),
    {
        let b0 = i16_bytes(m.min_supported_version);
        let b1 = i16_bytes(m.max_supported_version);
        let b2 = if ctx.flexible { uvarint_bytes(0) } else { Seq::<u8>::empty() };
        let e = Self::spec_encode_body(m, ctx)->Ok_0;
        assert(e =~= Seq::<u8>::empty() + b0 + b1 + b2);
        assert(e =~= b0 + b1 + b2);
        if Self::reads_back_body(m, ctx) {
            Self::lemma_body_read_back(pre, m, post, ctx);
        }
    }

    /// Writing succeeds exactly when every field that the version carries can be
    /// encoded and every field that it leaves out, where leaving it out is an
    /// error, holds its default.
    #[verifier::spinoff_prover]
    pub proof fn lemma_body_write_succeeds(m: FeatureModel, ctx: Ctx)
        ensures
            Self::spec_encode_body(m, ctx) is Ok <==> true,
    {
    }

    /// Writes the structure for `version`, with the compact encodings when `is_flexible`.
    /// On failure the buffer is left as it was.
    pub fn encode(&self, buf: &mut Vec<u8>, version: ApiVersion, is_flexible: bool) -> (r: Result<(), SerializationError>)
        ensures
            write_exact(r, old(buf)@, final(buf)@, Self::spec_encode_body(self.deep_view(), Ctx { version: version.0, flexible: is_flexible, classic: false })),
    {
        let start = buf.len();
        let r = self.encode_ctx(buf, Ctx::new(version, is_flexible));
        if r.is_err() {
            buf.truncate(start);
        }
        r
    }

    /// Reads the structure as written for `version`.
    /// On failure the reader is put back where it started.
    pub fn decode(buf: &mut Reader, version: ApiVersion, is_flexible: bool) -> (r: Result<Self, SerializationError>)
        ensures
            final(buf).bytes() == old(buf).bytes(),
            read_view_exact(r, Self::spec_decode_body(old(buf).bytes(), old(buf).pos(), Ctx { version: version.0, flexible: is_flexible, classic: false }), old(buf).pos(), final(buf).pos()),
    {
        let start = buf.position();
        let r = Self::decode_ctx(buf, Ctx::new(version, is_flexible));
        if r.is_err() {
            buf.set_position(start);
        }
        r
    }
}

impl KafkaCodec for Feature {
    open spec fn spec_encode(m: FeatureModel, ctx: Ctx) -> Result<Seq<u8>, SerializationError> {
        Self::spec_encode_body(m, ctx)
    }

    open spec fn spec_decode(s: Seq<u8>, pos: int, ctx: Ctx) -> Result<(FeatureModel, int), SerializationError> {
        Self::spec_decode_body(s, pos, ctx)
    }

    open spec fn reads_back(v: FeatureModel, ctx: Ctx) -> bool {
        Self::reads_back_body(v, ctx)
    }

    proof fn lemma_read_back(pre: Seq<u8>, v: FeatureModel, post: Seq<u8>, ctx: Ctx) {
        Self::lemma_body_read_back(pre, v, post, ctx);
        assert(Self::spec_decode(pre + Self::spec_encode(v, ctx)->Ok_0 + post, pre.len() as int, ctx)
            == Self::spec_decode_body(pre + Self::spec_encode_body(v, ctx)->Ok_0 + post, pre.len() as int, ctx));
    }

    fn encode_ctx(&self, buf: &mut Vec<u8>, ctx: Ctx) -> (r: Result<(), SerializationError>) {
        let ghost mut w: Seq<u8> = Seq::empty();
        put_i16(buf, self.min_supported_version);
        proof {
            w = w + i16_bytes(self.min_supported_version);
        }
        assert(buf@ =~= old(buf)@ + w);
        put_i16(buf, self.max_supported_version);
        proof {
            w = w + i16_bytes(self.max_supported_version);
        }
        assert(buf@ =~= old(buf)@ + w);
        if ctx.flexible {
            encode_unsigned_varint(0, buf);
            proof {
                w = w + uvarint_bytes(0);
            }
            assert(buf@ =~= old(buf)@ + w);
        }
        Ok(())
    }

    fn decode_ctx(buf: &mut Reader, ctx: Ctx) -> (r: Result<Self, SerializationError>) {
        let min_supported_version = buf.get_i16()?;
        let max_supported_version = buf.get_i16()?;
        if ctx.flexible {
            let (_tag_count, _) = decode_unsigned_varint(buf)?;
        }
        Ok(Feature { min_supported_version, max_supported_version })
    }
}

// -------------------------------------------------------
// Listener
// -------------------------------------------------------
#[derive(Clone, Debug, Default, PartialEq)]
pub struct Listener {
    /// The hostname.
    pub host: String,
    /// The port.
    pub port: u16,
    /// The security protocol.
    pub security_protocol: i16,
}

/// The contents of `Listener`, with strings as characters and
/// nested values by their contents.
pub struct ListenerModel {
    pub host: Seq<char>,
    pub port: u16,
    pub security_protocol: i16,
}

impl DeepView for Listener {
    type V = ListenerModel;

    open spec fn deep_view(&self) -> ListenerModel {
        ListenerModel {
            host: self.host.deep_view(),
            port: self.port,
            security_protocol: self.security_protocol,
        }
    }
}

impl Listener {
    /// The encoding of the structure in context `ctx`.
    pub open spec fn spec_encode_body(m: ListenerModel, ctx: Ctx) -> Result<Seq<u8>, SerializationError> {
        let r = Ok(Seq::<u8>::empty());
        let r = then(r, string_bytes(m.host, ctx.flexible));
        let r = then(r, Ok(u16_bytes(m.port)));
        let r = then(r, Ok(i16_bytes(m.security_protocol)));
        let r = if ctx.flexible { then(r, Ok(uvarint_bytes(0))) } else { r };
        r
    }

    /// The structure read from `s` at `pos` in context `ctx`.
    pub open spec fn spec_decode_body(s: Seq<u8>, pos: int, ctx: Ctx) -> Result<(ListenerModel, int), SerializationError> {
        match parse_string(s, pos, ctx.flexible) {
            Err(e) => Err(e),
            Ok((host, pos)) =>
            match parse_u16(s, pos) {
                Err(e) => Err(e),
                Ok((port, pos)) =>
                match parse_i16(s, pos) {
                    Err(e) => Err(e),
                    Ok((security_protocol, pos)) =>
                    match (if ctx.flexible { parse_uvarint(s, pos) } else { Ok((0u64, pos)) }) {
                        Err(e) => Err(e),
                        Ok((_tag_count, pos)) =>
                        Ok((ListenerModel { host, port, security_protocol }, pos))
                    }
                }
            }
        }
    }

    /// Values of the structure that read back from their encoding in `ctx`: every
    /// field that the version leaves out holds its default, and nested values
    /// read back.
    pub open spec fn reads_back_body(m: ListenerModel, ctx: Ctx) -> bool {
        true
    }

    /// A value that can be written in `ctx` and reads back: decoding its encoding,
    /// wherever it stands, gives the value and the position just after it.
    #[verifier::spinoff_prover]
    pub proof fn lemma_body_read_back(pre: Seq<u8>, m: ListenerModel, post: Seq<u8>, ctx: Ctx)
        requires
            Self::spec_encode_body(m, ctx) is Ok,
            Self::reads_back_body(m, ctx),
        ensures
            Self::spec_decode_body(pre + Self::spec_encode_body(m, ctx)->Ok_0 + post, pre.len() as int, ctx) == Ok::<(ListenerModel, int), SerializationError>((m, pre.len() as int + Self::spec_encode_body(m, ctx)->Ok_0.len())),
    {
        let b0 = (string_bytes(m.host, ctx.flexible))->Ok_0;
        let b1 = u16_bytes(m.port);
        let b2 = i16_bytes(m.security_protocol);
        let b3 = if ctx.flexible { uvarint_bytes(0) } else { Seq::<u8>::empty() };
        let t4 = post;
        let t3 = b3 + t4;
        let t2 = b2 + t3;
        let t1 = b1 + t2;
        let t0 = b0 + t1;
        let e = Self::spec_encode_body(m, ctx)->Ok_0;
        assert(e =~= Seq::<u8>::empty() + b0 + b1 + b2 + b3);
        lemma_seq_assoc((((Seq::<u8>::empty() + b0) + b1) + b2), b3, post);
        lemma_seq_assoc(((Seq::<u8>::empty() + b0) + b1), b2, (b3 + post));
        lemma_seq_assoc((Seq::<u8>::empty() + b0), b1, (b2 + (b3 + post)));
        lemma_seq_assoc(Seq::<u8>::empty(), b0, (b1 + (b2 + (b3 + post))));
        lemma_seq_empty_left((b0 + (b1 + (b2 + (b3 + post)))));
        let s = pre + e + post;
        lemma_seq_assoc(pre, e, post);
        assert(s == pre + t0);
        let a0 = pre;
        assert(parse_string(s, a0.len() as int, ctx.flexible) == Ok::<(Seq<char>, int), SerializationError>((m.host, a0.len() as int + b0.len()))) by {
            assert(string_bytes(m.host, ctx.flexible) is Ok);
            lemma_seq_assoc(a0, b0, t1);
            lemma_string_roundtrip(a0, m.host, t1, ctx.flexible);
        }
        lemma_seq_assoc(a0, b0, t1);
        let a1 = a0 + b0;
        assert(parse_u16(s, a1.len() as int) == Ok::<(u16, int), SerializationError>((m.port, a1.len() as int + b1.len()))) by {
            lemma_seq_assoc(a1, b1, t2);
            lemma_u16_roundtrip(a1, m.port, t2);
        }
        lemma_seq_assoc(a1, b1, t2);
        let a2 = a1 + b1;
        assert(parse_i16(s, a2.len() as int) == Ok::<(i16, int), SerializationError>((m.security_protocol, a2.len() as int + b2.len()))) by {
            lemma_seq_assoc(a2, b2, t3);
            lemma_i16_roundtrip(a2, m.security_protocol, t3);
        }
        lemma_seq_assoc(a2, b2, t3);
        let a3 = a2 + b2;
        if ctx.flexible {
            assert(parse_uvarint(s, a3.len() as int) == Ok::<(u64, int), SerializationError>((0u64, a3.len() as int + b3.len()))) by {
                lemma_seq_assoc(a3, b3, t4);
                lemma_uvarint_roundtrip(a3, 0, t4);
            }
        }
    }

    /// The bytes written: the encoding of each field, in the order of the
    /// protocol's layout. Reading them back, wherever they stand, gives the value,
    /// with each field that the version leaves out at its default.
    #[verifier::spinoff_prover]
    pub proof fn lemma_body_layout(pre: Seq<u8>, m: ListenerModel, post: Seq<u8>, ctx: Ctx)
        requires
            Self::spec_encode_body(m, ctx) is Ok,
        ensures
            Self::spec_encode_body(m, ctx) == Ok::<Seq<u8>, SerializationError>(((string_bytes(m.host, ctx.flexible))->Ok_0) + (u16_bytes(m.port)) + (i16_bytes(m.security_protocol)) + (if ctx.flexible { uvarint_bytes(0) } else { Seq::<u8>::empty() })),
            Self::reads_back_body(m, ctx) ==> Self::spec_decode_body(pre + (((string_bytes(m.host, ctx.flexible))->Ok_0) + (u16_bytes(m.port)) + (i16_bytes(m.security_protocol)) + (if ctx.flexible { uvarint_bytes(0) } else { Seq::<u8>::empty() })) + post, pre.len() as int, ctx) == Ok::<(ListenerModel, int), SerializationError>((m, pre.len() as int + (((string_bytes(m.host, ctx.flexible))->Ok_0) + (u16_bytes(m.port)) + (i16_bytes(m.security_protocol)) + (if ctx.flexible { uvarint_bytes(0) } else { Seq::<u8>::empty() })).len())),
    {
        let b0 = (string_bytes(m.host, ctx.flexible))->Ok_0;
        let b1 = u16_bytes(m.port);
        let b2 = i16_bytes(m.security_protocol);
        let b3 = if ctx.flexible { uvarint_bytes(0) } else { Seq::<u8>::empty() };
        let e = Self::spec_encode_body(m, ctx)->Ok_0;
        assert(e =~= Seq::<u8>::empty() + b0 + b1 + b2 + b3);
        assert(e =~= b0 + b1 + b2 + b3);
        if Self::reads_back_body(m, ctx) {
            Self::lemma_body_read_back(pre, m, post, ctx);
        }
    }

    /// Writing succeeds exactly when every field that the version carries can be
    /// encoded and every field that it leaves out, where leaving it out is an
    /// error, holds its default.
    #[verifier::spinoff_prover]
    pub proof fn lemma_body_write_succeeds(m: ListenerModel, ctx: Ctx)
        ensures
            Self::spec_encode_body(m, ctx) is Ok <==> (string_bytes(m.host, ctx.flexible) is Ok),
    {
    }

    /// Writes the structure for `version`, with the compact encodings when `is_flexible`.
    /// On failure the buffer is left as it was.
    pub fn encode(&self, buf: &mut Vec<u8>, version: ApiVersion, is_flexible: bool) -> (r: Result<(), SerializationError>)
        ensures
            write_exact(r, old(buf)@, final(buf)@, Self::spec_encode_body(self.deep_view(), Ctx { version: version.0, flexible: is_flexible, classic: false })),
    {
        let start = buf.len();
        let r = self.encode_ctx(buf, Ctx::new(version, is_flexible));
        if r.is_err() {
            buf.truncate(start);
        }
        r
    }

    /// Reads the structure as written for `version`.
    /// On failure the reader is put back where it started.
    pub fn decode(buf: &mut Reader, version: ApiVersion, is_flexible: bool) -> (r: Result<Self, SerializationError>)
        ensures
            final(buf).bytes() == old(buf).bytes(),
            read_view_exact(r, Self::spec_decode_body(old(buf).bytes(), old(buf).pos(), Ctx { version: version.0, flexible: is_flexible, classic: false }), old(buf).pos(), final(buf).pos()),
    {
        let start = buf.position();
        let r = Self::decode_ctx(buf, Ctx::new(version, is_flexible));
        if r.is_err() {
            buf.set_position(start);
        }
        r
    }
}

impl KafkaCodec for Listener {
    open spec fn spec_encode(m: ListenerModel, ctx: Ctx) -> Result<Seq<u8>, SerializationError> {
        Self::spec_encode_body(m, ctx)
    }

    open spec fn spec_decode(s: Seq<u8>, pos: int, ctx: Ctx) -> Result<(ListenerModel, int), SerializationError> {
        Self::spec_decode_body(s, pos, ctx)
    }

    open spec fn reads_back(v: ListenerModel, ctx: Ctx) -> bool {
        Self::reads_back_body(v, ctx)
    }

    proof fn lemma_read_back(pre: Seq<u8>, v: ListenerModel, post: Seq<u8>, ctx: Ctx) {
        Self::lemma_body_read_back(pre, v, post, ctx);
        assert(Self::spec_decode(pre + Self::spec_encode(v, ctx)->Ok_0 + post, pre.len() as int, ctx)
            == Self::spec_decode_body(pre + Self::spec_encode_body(v, ctx)->Ok_0 + post, pre.len() as int, ctx));
    }

    fn encode_ctx(&self, buf: &mut Vec<u8>, ctx: Ctx) -> (r: Result<(), SerializationError>) {
        let ghost mut w: Seq<u8> = Seq::empty();
        encode_string(&self.host, buf, ctx.flexible)?;
        proof {
            w = w + (string_bytes(self.host.deep_view(), ctx.flexible))->Ok_0;
        }
        assert(buf@ =~= old(buf)@ + w);
        put_u16(buf, self.port);
        proof {
            w = w + u16_bytes(self.port);
        }
        assert(buf@ =~= old(buf)@ + w);
        put_i16(buf, self.security_protocol);
        proof {
            w = w + i16_bytes(self.security_protocol);
        }
        assert(buf@ =~= old(buf)@ + w);
        if ctx.flexible {
            encode_unsigned_varint(0, buf);
            proof {
                w = w + uvarint_bytes(0);
            }
            assert(buf@ =~= old(buf)@ + w);
        }
        Ok(())
    }

    fn decode_ctx(buf: &mut Reader, ctx: Ctx) -> (r: Result<Self, SerializationError>) {
        let host = buf.get_string(ctx.flexible)?;
        let port = buf.get_u16()?;
        let security_protocol = buf.get_i16()?;
        if ctx.flexible {
            let (_tag_count, _) = decode_unsigned_varint(buf)?;
        }
        Ok(Listener { host, port, security_protocol })
    }
}

} // verus!
