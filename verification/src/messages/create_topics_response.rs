//! CreateTopicsResponse (API key 19).
use indexmap::IndexMap;
use vstd::prelude::*;
use crate::ordered_map::{decode_entry, decode_map_len, encode_entry, encode_map_len,
    entries_bytes, entries_read_back, entries_view, entry_bytes, insert_entry, key_index,
    keys_distinct, lemma_insert_entry_view, lemma_keys_distinct_view, lemma_map_roundtrip,
    lemma_map_step, lemma_parse_entries_err, map_bytes, parse_entries, parse_map};
use crate::roundtrip::{lemma_bool_roundtrip, lemma_i16_roundtrip, lemma_i32_roundtrip,
    lemma_i8_roundtrip, lemma_items_read_back, lemma_nullable_array_roundtrip,
    lemma_nullable_string_roundtrip, lemma_seq_assoc, lemma_seq_empty_left,
    lemma_string_roundtrip, lemma_uuid_roundtrip, lemma_uvarint_roundtrip};
use crate::serialization::{Ctx, KafkaCodec, MAX_LEN32, Reader, SerializationError, bool_bytes,
    decode_nullable_array, decode_unsigned_varint, encode_nullable_array, encode_nullable_string,
    encode_string, encode_unsigned_varint, encode_uuid, i16_bytes, i32_bytes, i8_bytes,
    len32_bytes, nullable_array_bytes, nullable_string_bytes, parse_bool, parse_i16, parse_i32,
    parse_i8, parse_nullable_array, parse_nullable_string, parse_raw, parse_skip, parse_string,
    parse_uvarint, put_bool, put_i16, put_i32, put_i8, put_slice, read_view_exact, read_view_ok,
    string_bytes, tagged_field_bytes, then, unknown_tag_end, uvarint_bytes, write_exact, write_ok,
    zero_uuid, zero_uuid_bytes};
use crate::{ApiKey, ApiVersion};

verus! {

// -------------------------------------------------------
// Maps from string keys to `CreatableTopicResult`
// -------------------------------------------------------

/// The entries of a map of `CreatableTopicResult` values, in order, each key by its characters.
pub uninterp spec fn creatable_topic_result_map_entries(m: IndexMap<String, CreatableTopicResult>) -> Seq<(Seq<char>, CreatableTopicResult)>;

/// The entries of a map of `CreatableTopicResult` values, each value by its contents.
pub open spec fn creatable_topic_result_map_view(m: IndexMap<String, CreatableTopicResult>) -> Seq<(Seq<char>, CreatableTopicResultModel)> {
    entries_view(creatable_topic_result_map_entries(m))
}

/// Calls `IndexMap::new`, which returns a map without entries.
#[verifier::external_body]
fn creatable_topic_result_map_new() -> (r: IndexMap<String, CreatableTopicResult>)
    ensures
        creatable_topic_result_map_entries(r) == Seq::<(Seq<char>, CreatableTopicResult)>::empty(),
{
    IndexMap::new()
}

/// Calls `IndexMap::len`, which returns the number of entries.
#[verifier::external_body]
fn creatable_topic_result_map_len(m: &IndexMap<String, CreatableTopicResult>) -> (r: usize)
    ensures
        r == creatable_topic_result_map_entries(*m).len(),
{
    m.len()
}

/// Calls `IndexMap::get_index`, which returns the entry at position `i`
/// in insertion order, or nothing when `i` is not below the length; the
/// key of that entry is the key of no other entry of the map.
#[verifier::external_body]
fn creatable_topic_result_map_get_index(m: &IndexMap<String, CreatableTopicResult>, i: usize) -> (r: Option<(&String, &CreatableTopicResult)>)
    ensures
        r is Some <==> i < creatable_topic_result_map_entries(*m).len(),
        r matches Some(kv) ==> kv.0@ == creatable_topic_result_map_entries(*m)[i as int].0,
        r matches Some(kv) ==> *kv.1 == creatable_topic_result_map_entries(*m)[i as int].1,
        r matches Some(kv) ==> forall|j: int| 0 <= j < creatable_topic_result_map_entries(*m).len() && j != i ==> #[trigger] creatable_topic_result_map_entries(*m)[j].0 != kv.0@,
{
    m.get_index(i)
}

/// Calls `IndexMap::insert`: a key already present keeps its place and
/// takes the new value, and the old value is returned; a new key is
/// added last, and nothing is returned.
#[verifier::external_body]
fn creatable_topic_result_map_insert(m: &mut IndexMap<String, CreatableTopicResult>, k: String, v: CreatableTopicResult) -> (r: Option<CreatableTopicResult>)
    ensures
        creatable_topic_result_map_entries(*final(m)) == insert_entry(creatable_topic_result_map_entries(*old(m)), k@, v),
        r == (match key_index(creatable_topic_result_map_entries(*old(m)), k@) {
            Some(i) => Some(creatable_topic_result_map_entries(*old(m))[i].1),
            None => None::<CreatableTopicResult>,
        }),
{
    m.insert(k, v)
}

/// The number of entries of a map of `CreatableTopicResult` values; its keys are distinct.
pub fn creatable_topic_result_map_entry_count(m: &IndexMap<String, CreatableTopicResult>) -> (r: usize)
    ensures
        r == creatable_topic_result_map_view(*m).len(),
        keys_distinct(creatable_topic_result_map_view(*m)),
{
    let n = creatable_topic_result_map_len(m);
    let mut i: usize = 0;
    while i < n
        invariant
            n == creatable_topic_result_map_entries(*m).len(),
            i <= n,
            forall|a: int, b: int| 0 <= a < b < n && a < i ==> #[trigger] creatable_topic_result_map_entries(*m)[a].0 != #[trigger] creatable_topic_result_map_entries(*m)[b].0,
        decreases n - i,
    {
        let e = creatable_topic_result_map_get_index(m, i);
        assert(e is Some);
        i = i + 1;
    }
    proof {
        lemma_keys_distinct_view(creatable_topic_result_map_entries(*m));
    }
    n
}

/// Writes a map of `CreatableTopicResult` values: its number of entries, then each key and value.
pub fn encode_creatable_topic_result_map(m: &IndexMap<String, CreatableTopicResult>, buf: &mut Vec<u8>, ctx: Ctx) -> (r: Result<(), SerializationError>)
    ensures
        write_ok(r, old(buf)@, final(buf)@, map_bytes::<String, CreatableTopicResult>(creatable_topic_result_map_view(*m), ctx)),
        keys_distinct(creatable_topic_result_map_view(*m)),
{
    let ghost es = creatable_topic_result_map_view(*m);
    let n = creatable_topic_result_map_entry_count(m);
    encode_map_len(n, buf, ctx)?;
    let ghost head = old(buf)@ + len32_bytes(n as nat, ctx.flexible);
    let ghost mut written: Seq<u8> = Seq::empty();
    assert(es.take(0) =~= Seq::<(Seq<char>, CreatableTopicResultModel)>::empty());
    assert(buf@ =~= head + written);
    let mut i: usize = 0;
    while i < n
        invariant
            es == creatable_topic_result_map_view(*m),
            n == es.len(),
            keys_distinct(es),
            n <= MAX_LEN32,
            i <= n,
            head == old(buf)@ + len32_bytes(n as nat, ctx.flexible),
            buf@ =~= head + written,
            entries_bytes::<String, CreatableTopicResult>(es.take(i as int), ctx) == Ok::<Seq<u8>, SerializationError>(written),
        decreases n - i,
    {
        let ghost before = buf@;
        if let Some((k, v)) = creatable_topic_result_map_get_index(m, i) {
            assert(es[i as int] == (k.deep_view(), v.deep_view()));
            let res = encode_entry(k, v, buf, ctx);
            proof {
                lemma_map_step::<String, CreatableTopicResult>(es, i as int, ctx, res);
            }
            match res {
                Ok(()) => {
                    proof {
                        written = written + entry_bytes::<String, CreatableTopicResult>(es[i as int].0, es[i as int].1, ctx)->Ok_0;
                    }
                },
                Err(e) => {
                    assert(buf@.subrange(0, old(buf)@.len() as int) =~= before.subrange(0, old(buf)@.len() as int));
                    return Err(e);
                },
            }
        }
        i = i + 1;
    }
    assert(es.take(n as int) =~= es);
    Ok(())
}

/// Reads `n` entries of a map of `CreatableTopicResult` values, inserting each in turn.
fn decode_creatable_topic_result_map_entries(buf: &mut Reader, n: u64, ctx: Ctx) -> (r: Result<IndexMap<String, CreatableTopicResult>, SerializationError>)
    ensures
        final(buf).bytes() == old(buf).bytes(),
        match parse_entries::<String, CreatableTopicResult>(old(buf).bytes(), old(buf).pos(), n as nat, ctx) {
            Ok((es, p)) => r matches Ok(m) && creatable_topic_result_map_view(m) == es && final(buf).pos() == p,
            Err(e) => r == Err::<IndexMap<String, CreatableTopicResult>, SerializationError>(e),
        },
{
    let ghost s = buf.bytes();
    let ghost p0 = buf.pos();
    let mut m = creatable_topic_result_map_new();
    assert(creatable_topic_result_map_view(m) =~= Seq::<(Seq<char>, CreatableTopicResultModel)>::empty());
    let mut i: u64 = 0;
    while i < n
        invariant
            buf.bytes() == s,
            s == old(buf).bytes(),
            p0 == old(buf).pos(),
            i <= n,
            parse_entries::<String, CreatableTopicResult>(s, p0, i as nat, ctx) == Ok::<(Seq<(Seq<char>, CreatableTopicResultModel)>, int), SerializationError>((creatable_topic_result_map_view(m), buf.pos())),
        decreases n - i,
    {
        match decode_entry::<String, CreatableTopicResult>(buf, ctx) {
            Ok((k, v)) => {
                proof {
                    lemma_insert_entry_view(creatable_topic_result_map_entries(m), k@, v);
                }
                creatable_topic_result_map_insert(&mut m, k, v);
            },
            Err(e) => {
                proof {
                    lemma_parse_entries_err::<String, CreatableTopicResult>(s, p0, (i + 1) as nat, n as nat, ctx, e);
                }
                return Err(e);
            },
        }
        i = i + 1;
    }
    Ok(m)
}

/// Reads a map of `CreatableTopicResult` values; a null length is invalid.
pub fn decode_creatable_topic_result_map(buf: &mut Reader, ctx: Ctx) -> (r: Result<IndexMap<String, CreatableTopicResult>, SerializationError>)
    ensures
        final(buf).bytes() == old(buf).bytes(),
        match parse_map::<String, CreatableTopicResult>(old(buf).bytes(), old(buf).pos(), ctx) {
            Ok((es, p)) => r matches Ok(m) && creatable_topic_result_map_view(m) == es && final(buf).pos() == p,
            Err(e) => r == Err::<IndexMap<String, CreatableTopicResult>, SerializationError>(e),
        },
{
    let n = decode_map_len(buf, ctx)?;
    decode_creatable_topic_result_map_entries(buf, n, ctx)
}

// -------------------------------------------------------
// CreateTopicsResponse
// -------------------------------------------------------
#[derive(Clone, Debug, Default, PartialEq)]
pub struct CreateTopicsResponse {
    /// The duration in milliseconds for which the request was throttled due to a quota violation, or zero if the request did not violate any quota.
    /// Available in version 2+.
    pub throttle_time_ms: i32,
    /// Results for each topic we tried to create.
    /// IndexMap key `Name` (string): The topic name.
    pub topics: IndexMap<String, CreatableTopicResult>,
}

/// The contents of `CreateTopicsResponse`, with strings as characters and
/// nested values by their contents.
pub struct CreateTopicsResponseModel {
    pub throttle_time_ms: i32,
    pub topics: Seq<(Seq<char>, CreatableTopicResultModel)>,
}

impl DeepView for CreateTopicsResponse {
    type V = CreateTopicsResponseModel;

    open spec fn deep_view(&self) -> CreateTopicsResponseModel {
        CreateTopicsResponseModel {
            throttle_time_ms: self.throttle_time_ms,
            topics: creatable_topic_result_map_view(self.topics),
        }
    }
}

impl CreateTopicsResponse {
    /// The encoding of the structure in context `ctx`.
    pub open spec fn spec_encode_body(m: CreateTopicsResponseModel, ctx: Ctx) -> Result<Seq<u8>, SerializationError> {
        let r = Ok(Seq::<u8>::empty());
        let r = if 2 <= ctx.version { then(r, Ok(i32_bytes(m.throttle_time_ms))) } else { r };
        let r = then(r, map_bytes::<String, CreatableTopicResult>(m.topics, Ctx { version: ctx.version, flexible: ctx.flexible, classic: false }));
        let r = if ctx.flexible { then(r, Ok(uvarint_bytes(0))) } else { r };
        r
    }

    /// The structure read from `s` at `pos` in context `ctx`.
    pub open spec fn spec_decode_body(s: Seq<u8>, pos: int, ctx: Ctx) -> Result<(CreateTopicsResponseModel, int), SerializationError> {
        match (if 2 <= ctx.version { parse_i32(s, pos) } else { Ok((0i32, pos)) }) {
            Err(e) => Err(e),
            Ok((throttle_time_ms, pos)) =>
            match parse_map::<String, CreatableTopicResult>(s, pos, Ctx { version: ctx.version, flexible: ctx.flexible, classic: false }) {
                Err(e) => Err(e),
                Ok((topics, pos)) =>
                match (if ctx.flexible { parse_uvarint(s, pos) } else { Ok((0u64, pos)) }) {
                    Err(e) => Err(e),
                    Ok((_tag_count, pos)) =>
                    Ok((CreateTopicsResponseModel { throttle_time_ms, topics }, pos))
                }
            }
        }
    }

    /// The structure as it reads back in context `ctx`: each field that the
    /// version leaves out is at its default.
    #[verifier::opaque]
    pub open spec fn spec_read_as(m: CreateTopicsResponseModel, ctx: Ctx) -> CreateTopicsResponseModel {
        CreateTopicsResponseModel { throttle_time_ms: if 2 <= ctx.version { m.throttle_time_ms } else { 0i32 }, topics: m.topics }
    }

    /// Values that read back in context `ctx`: nested values read back. A field
    /// that the version leaves out is read as its default.
    pub open spec fn reads_back_body(m: CreateTopicsResponseModel, ctx: Ctx) -> bool {
        &&& (keys_distinct(m.topics) && entries_read_back::<String, CreatableTopicResult>(m.topics, Ctx { version: ctx.version, flexible: ctx.flexible, classic: false }))
    }

    /// A value that can be written in context `ctx` and reads back: decoding its
    /// encoding, wherever it stands, gives the value as `spec_read_as` gives it and
    /// the position just after it.
    #[verifier::spinoff_prover]
    pub proof fn lemma_body_read_back(pre: Seq<u8>, m: CreateTopicsResponseModel, post: Seq<u8>, ctx: Ctx)
        requires
            Self::spec_encode_body(m, ctx) is Ok,
            Self::reads_back_body(m, ctx),
        ensures
            Self::spec_decode_body(pre + Self::spec_encode_body(m, ctx)->Ok_0 + post, pre.len() as int, ctx) == Ok::<(CreateTopicsResponseModel, int), SerializationError>((Self::spec_read_as(m, ctx), pre.len() as int + Self::spec_encode_body(m, ctx)->Ok_0.len())),
    {
        reveal(CreateTopicsResponse::spec_read_as);
        let b0 = if 2 <= ctx.version { i32_bytes(m.throttle_time_ms) } else { Seq::<u8>::empty() };
        let b1 = (map_bytes::<String, CreatableTopicResult>(m.topics, Ctx { version: ctx.version, flexible: ctx.flexible, classic: false }))->Ok_0;
        let b2 = if ctx.flexible { uvarint_bytes(0) } else { Seq::<u8>::empty() };
        let t3 = post;
        let t2 = b2 + t3;
        let t1 = b1 + t2;
        let t0 = b0 + t1;
        let e = Self::spec_encode_body(m, ctx)->Ok_0;
        assert(e =~= Seq::<u8>::empty() + b0 + b1 + b2);
        lemma_seq_assoc(((Seq::<u8>::empty() + b0) + b1), b2, post);
        lemma_seq_assoc((Seq::<u8>::empty() + b0), b1, (b2 + post));
        lemma_seq_assoc(Seq::<u8>::empty(), b0, (b1 + (b2 + post)));
        lemma_seq_empty_left((b0 + (b1 + (b2 + post))));
        let s = pre + e + post;
        lemma_seq_assoc(pre, e, post);
        assert(s == pre + t0);
        let a0 = pre;
        if 2 <= ctx.version {
            assert(parse_i32(s, a0.len() as int) == Ok::<(i32, int), SerializationError>((m.throttle_time_ms, a0.len() as int + b0.len()))) by {
                lemma_seq_assoc(a0, b0, t1);
                lemma_i32_roundtrip(a0, m.throttle_time_ms, t1);
            }
        }
        lemma_seq_assoc(a0, b0, t1);
        let a1 = a0 + b0;
        assert(parse_map::<String, CreatableTopicResult>(s, a1.len() as int, Ctx { version: ctx.version, flexible: ctx.flexible, classic: false }) == Ok::<(Seq<(Seq<char>, CreatableTopicResultModel)>, int), SerializationError>((m.topics, a1.len() as int + b1.len()))) by {
            assert(map_bytes::<String, CreatableTopicResult>(m.topics, Ctx { version: ctx.version, flexible: ctx.flexible, classic: false }) is Ok);
            lemma_seq_assoc(a1, b1, t2);
            lemma_map_roundtrip::<String, CreatableTopicResult>(a1, m.topics, t2, Ctx { version: ctx.version, flexible: ctx.flexible, classic: false });
        }
        lemma_seq_assoc(a1, b1, t2);
        let a2 = a1 + b1;
        if ctx.flexible {
            assert(parse_uvarint(s, a2.len() as int) == Ok::<(u64, int), SerializationError>((0u64, a2.len() as int + b2.len()))) by {
                lemma_seq_assoc(a2, b2, t3);
                lemma_uvarint_roundtrip(a2, 0, t3);
            }
        }
    }

    /// The bytes written: the encoding of each field, in the order of the
    /// protocol's layout. Reading them back, wherever they stand, gives the value,
    /// with each field that the version leaves out at its default.
    #[verifier::spinoff_prover]
    pub proof fn lemma_body_layout(pre: Seq<u8>, m: CreateTopicsResponseModel, post: Seq<u8>, ctx: Ctx)
        requires
            Self::spec_encode_body(m, ctx) is Ok,
        ensures
            Self::spec_encode_body(m, ctx) == Ok::<Seq<u8>, SerializationError>((if 2 <= ctx.version { i32_bytes(m.throttle_time_ms) } else { Seq::<u8>::empty() }) + ((map_bytes::<String, CreatableTopicResult>(m.topics, Ctx { version: ctx.version, flexible: ctx.flexible, classic: false }))->Ok_0) + (if ctx.flexible { uvarint_bytes(0) } else { Seq::<u8>::empty() })),
            Self::reads_back_body(m, ctx) ==> Self::spec_decode_body(pre + ((if 2 <= ctx.version { i32_bytes(m.throttle_time_ms) } else { Seq::<u8>::empty() }) + ((map_bytes::<String, CreatableTopicResult>(m.topics, Ctx { version: ctx.version, flexible: ctx.flexible, classic: false }))->Ok_0) + (if ctx.flexible { uvarint_bytes(0) } else { Seq::<u8>::empty() })) + post, pre.len() as int, ctx) == Ok::<(CreateTopicsResponseModel, int), SerializationError>((CreateTopicsResponseModel { throttle_time_ms: if 2 <= ctx.version { m.throttle_time_ms } else { 0i32 }, topics: m.topics }, pre.len() as int + ((if 2 <= ctx.version { i32_bytes(m.throttle_time_ms) } else { Seq::<u8>::empty() }) + ((map_bytes::<String, CreatableTopicResult>(m.topics, Ctx { version: ctx.version, flexible: ctx.flexible, classic: false }))->Ok_0) + (if ctx.flexible { uvarint_bytes(0) } else { Seq::<u8>::empty() })).len())),
    {
        let b0 = if 2 <= ctx.version { i32_bytes(m.throttle_time_ms) } else { Seq::<u8>::empty() };
        let b1 = (map_bytes::<String, CreatableTopicResult>(m.topics, Ctx { version: ctx.version, flexible: ctx.flexible, classic: false }))->Ok_0;
        let b2 = if ctx.flexible { uvarint_bytes(0) } else { Seq::<u8>::empty() };
        let e = Self::spec_encode_body(m, ctx)->Ok_0;
        assert(e =~= Seq::<u8>::empty() + b0 + b1 + b2);
        assert(e =~= b0 + b1 + b2);
        if Self::reads_back_body(m, ctx) {
            Self::lemma_body_read_back(pre, m, post, ctx);
            reveal(CreateTopicsResponse::spec_read_as);
        }
    }

    /// Writing succeeds exactly when every field that the version carries can be
    /// encoded and every field that it leaves out, where leaving it out is an
    /// error, holds its default.
    #[verifier::spinoff_prover]
    pub proof fn lemma_body_write_succeeds(m: CreateTopicsResponseModel, ctx: Ctx)
        ensures
            Self::spec_encode_body(m, ctx) is Ok <==> (map_bytes::<String, CreatableTopicResult>(m.topics, Ctx { version: ctx.version, flexible: ctx.flexible, classic: false }) is Ok),
    {
    }

    /// Writes the structure for `version`, with the compact encodings when `is_flexible`.
    /// On failure the buffer is left as it was.
    pub fn encode(&self, buf: &mut Vec<u8>, version: ApiVersion, is_flexible: bool) -> (r: Result<(), SerializationError>)
        ensures
            write_exact(r, old(buf)@, final(buf)@, Self::spec_encode_body(self.deep_view(), Ctx { version: version.0, flexible: is_flexible, classic: false })),
    {
        let start = buf.len();
        let r = self.encode_ctx(buf, Ctx::new(version, is_flexible));
        if r.is_err() {
            buf.truncate(start);
        }
        r
    }

    /// Reads the structure as written for `version`.
    /// On failure the reader is put back where it started.
    pub fn decode(buf: &mut Reader, version: ApiVersion, is_flexible: bool) -> (r: Result<Self, SerializationError>)
        ensures
            final(buf).bytes() == old(buf).bytes(),
            read_view_exact(r, Self::spec_decode_body(old(buf).bytes(), old(buf).pos(), Ctx { version: version.0, flexible: is_flexible, classic: false }), old(buf).pos(), final(buf).pos()),
    {
        let start = buf.position();
        let r = Self::decode_ctx(buf, Ctx::new(version, is_flexible));
        if r.is_err() {
            buf.set_position(start);
        }
        r
    }
}

impl KafkaCodec for CreateTopicsResponse {
    open spec fn spec_encode(m: CreateTopicsResponseModel, ctx: Ctx) -> Result<Seq<u8>, SerializationError> {
        Self::spec_encode_body(m, ctx)
    }

    open spec fn spec_decode(s: Seq<u8>, pos: int, ctx: Ctx) -> Result<(CreateTopicsResponseModel, int), SerializationError> {
        Self::spec_decode_body(s, pos, ctx)
    }

    open spec fn reads_back(v: CreateTopicsResponseModel, ctx: Ctx) -> bool {
        Self::reads_back_body(v, ctx) && Self::spec_read_as(v, ctx) == v
    }

    proof fn lemma_read_back(pre: Seq<u8>, v: CreateTopicsResponseModel, post: Seq<u8>, ctx: Ctx) {
        Self::lemma_body_read_back(pre, v, post, ctx);
        assert(Self::spec_decode(pre + Self::spec_encode(v, ctx)->Ok_0 + post, pre.len() as int, ctx)
            == Self::spec_decode_body(pre + Self::spec_encode_body(v, ctx)->Ok_0 + post, pre.len() as int, ctx));
    }

    fn encode_ctx(&self, buf: &mut Vec<u8>, ctx: Ctx) -> (r: Result<(), SerializationError>) {
        let ghost mut w: Seq<u8> = Seq::empty();
        if 2 <= ctx.version {
            put_i32(buf, self.throttle_time_ms);
            proof {
                w = w + i32_bytes(self.throttle_time_ms);
            }
            assert(buf@ =~= old(buf)@ + w);
        }
        encode_creatable_topic_result_map(&self.topics, buf, Ctx { version: ctx.version, flexible: ctx.flexible, classic: false })?;
        proof {
            w = w + (map_bytes::<String, CreatableTopicResult>(creatable_topic_result_map_view(self.topics), Ctx { version: ctx.version, flexible: ctx.flexible, classic: false }))->Ok_0;
        }
        assert(buf@ =~= old(buf)@ + w);
        if ctx.flexible {
            encode_unsigned_varint(0, buf);
            proof {
                w = w + uvarint_bytes(0);
            }
            assert(buf@ =~= old(buf)@ + w);
        }
        Ok(())
    }

    fn decode_ctx(buf: &mut Reader, ctx: Ctx) -> (r: Result<Self, SerializationError>) {
        let throttle_time_ms = if 2 <= ctx.version {
            buf.get_i32()?
        } else {
            0i32
        };
        let topics = decode_creatable_topic_result_map(buf, Ctx { version: ctx.version, flexible: ctx.flexible, classic: false })?;
        if ctx.flexible {
            let (_tag_count, _) = decode_unsigned_varint(buf)?;
        }
        Ok(CreateTopicsResponse { throttle_time_ms, topics })
    }
}

impl CreateTopicsResponse {
    /// The API key of this message.
    pub fn get_api_key() -> (r: ApiKey)
        ensures
            r.0 == 19,
    {
        ApiKey::new(19)
    }

    /// The oldest version of this message.
    pub fn get_min_supported_version() -> (r: ApiVersion)
        ensures
            r.0 == 2,
    {
        ApiVersion::new(2)
    }

    /// The newest version of this message.
    pub fn get_max_supported_version() -> (r: ApiVersion)
        ensures
            r.0 == 7,
    {
        ApiVersion::new(7)
    }

    /// The first version of this message with the compact encodings.
    pub fn get_min_flexible_version() -> (r: ApiVersion)
        ensures
            r.0 == 5,
    {
        ApiVersion::new(5)
    }

    /// The encoding of a whole message body at `version`.
    pub open spec fn spec_serialize(m: CreateTopicsResponseModel, version: i16) -> Result<Seq<u8>, SerializationError> {
        let is_flexible = version >= 5;
        let ctx = Ctx { version, flexible: is_flexible, classic: false };
        let r = Ok(Seq::<u8>::empty());
        let r = if 2 <= ctx.version { then(r, Ok(i32_bytes(m.throttle_time_ms))) } else if m.throttle_time_ms != 0 { then(r, Err(SerializationError::FieldNotAvailable { field: "ThrottleTimeMs", version: ctx.version, api_name: "CreateTopicsResponse" })) } else { r };
        let r = then(r, map_bytes::<String, CreatableTopicResult>(m.topics, Ctx { version: ctx.version, flexible: ctx.flexible, classic: false }));
        let r = if ctx.flexible { then(r, Ok(uvarint_bytes(0))) } else { r };
        r
    }

    /// The message body read at `version`.
    pub open spec fn spec_deserialize(s: Seq<u8>, pos: int, version: i16) -> Result<(CreateTopicsResponseModel, int), SerializationError> {
        let is_flexible = version >= 5;
        let ctx = Ctx { version, flexible: is_flexible, classic: false };
        match (if 2 <= ctx.version { parse_i32(s, pos) } else { Ok((0i32, pos)) }) {
            Err(e) => Err(e),
            Ok((throttle_time_ms, pos)) =>
            match parse_map::<String, CreatableTopicResult>(s, pos, Ctx { version: ctx.version, flexible: ctx.flexible, classic: false }) {
                Err(e) => Err(e),
                Ok((topics, pos)) =>
                match (if ctx.flexible { parse_uvarint(s, pos) } else { Ok((0u64, pos)) }) {
                    Err(e) => Err(e),
                    Ok((_tag_count, pos)) =>
                    Ok((CreateTopicsResponseModel { throttle_time_ms, topics }, pos))
                }
            }
        }
    }

    /// Message bodies that read back when written at `version`: nested values read
    /// back. A field that the version leaves out is read as its default.
    pub open spec fn reads_back_message(m: CreateTopicsResponseModel, version: i16) -> bool {
        let is_flexible = version >= 5;
        let ctx = Ctx { version, flexible: is_flexible, classic: false };
        &&& (keys_distinct(m.topics) && entries_read_back::<String, CreatableTopicResult>(m.topics, Ctx { version: ctx.version, flexible: ctx.flexible, classic: false }))
    }

    /// A message body that can be written at `version` and reads back: reading a
    /// body at `version` from its bytes, wherever they stand, gives the same message,
    /// with each field that the version leaves out at its default.
    #[verifier::spinoff_prover]
    pub proof fn lemma_message_read_back(pre: Seq<u8>, m: CreateTopicsResponseModel, post: Seq<u8>, version: i16)
        requires
            Self::spec_serialize(m, version) is Ok,
            Self::reads_back_message(m, version),
        ensures
            Self::spec_deserialize(pre + Self::spec_serialize(m, version)->Ok_0 + post, pre.len() as int, version) == Ok::<(CreateTopicsResponseModel, int), SerializationError>((CreateTopicsResponseModel { throttle_time_ms: if 2 <= version { m.throttle_time_ms } else { 0i32 }, topics: m.topics }, pre.len() as int + Self::spec_serialize(m, version)->Ok_0.len())),
    {
        let is_flexible = version >= 5;
        let ctx = Ctx { version, flexible: is_flexible, classic: false };
        let b0 = if 2 <= ctx.version { i32_bytes(m.throttle_time_ms) } else { Seq::<u8>::empty() };
        let b1 = (map_bytes::<String, CreatableTopicResult>(m.topics, Ctx { version: ctx.version, flexible: ctx.flexible, classic: false }))->Ok_0;
        let b2 = if ctx.flexible { uvarint_bytes(0) } else { Seq::<u8>::empty() };
        let t3 = post;
        let t2 = b2 + t3;
        let t1 = b1 + t2;
        let t0 = b0 + t1;
        let e = Self::spec_serialize(m, version)->Ok_0;
        assert(e =~= Seq::<u8>::empty() + b0 + b1 + b2);
        lemma_seq_assoc(((Seq::<u8>::empty() + b0) + b1), b2, post);
        lemma_seq_assoc((Seq::<u8>::empty() + b0), b1, (b2 + post));
        lemma_seq_assoc(Seq::<u8>::empty(), b0, (b1 + (b2 + post)));
        lemma_seq_empty_left((b0 + (b1 + (b2 + post))));
        let s = pre + e + post;
        lemma_seq_assoc(pre, e, post);
        assert(s == pre + t0);
        let a0 = pre;
        if 2 <= ctx.version {
            assert(parse_i32(s, a0.len() as int) == Ok::<(i32, int), SerializationError>((m.throttle_time_ms, a0.len() as int + b0.len()))) by {
                lemma_seq_assoc(a0, b0, t1);
                lemma_i32_roundtrip(a0, m.throttle_time_ms, t1);
            }
        }
        lemma_seq_assoc(a0, b0, t1);
        let a1 = a0 + b0;
        assert(parse_map::<String, CreatableTopicResult>(s, a1.len() as int, Ctx { version: ctx.version, flexible: ctx.flexible, classic: false }) == Ok::<(Seq<(Seq<char>, CreatableTopicResultModel)>, int), SerializationError>((m.topics, a1.len() as int + b1.len()))) by {
            assert(map_bytes::<String, CreatableTopicResult>(m.topics, Ctx { version: ctx.version, flexible: ctx.flexible, classic: false }) is Ok);
            lemma_seq_assoc(a1, b1, t2);
            lemma_map_roundtrip::<String, CreatableTopicResult>(a1, m.topics, t2, Ctx { version: ctx.version, flexible: ctx.flexible, classic: false });
        }
        lemma_seq_assoc(a1, b1, t2);
        let a2 = a1 + b1;
        if ctx.flexible {
            assert(parse_uvarint(s, a2.len() as int) == Ok::<(u64, int), SerializationError>((0u64, a2.len() as int + b2.len()))) by {
                lemma_seq_assoc(a2, b2, t3);
                lemma_uvarint_roundtrip(a2, 0, t3);
            }
        }
    }

    /// The bytes written: the encoding of each field, in the order of the
    /// protocol's layout. Reading them back, wherever they stand, gives the value,
    /// with each field that the version leaves out at its default.
    #[verifier::spinoff_prover]
    pub proof fn lemma_message_layout(pre: Seq<u8>, m: CreateTopicsResponseModel, post: Seq<u8>, version: i16)
        requires
            Self::spec_serialize(m, version) is Ok,
        ensures
            Self::spec_serialize(m, version) == Ok::<Seq<u8>, SerializationError>((if 2 <= version { i32_bytes(m.throttle_time_ms) } else { Seq::<u8>::empty() }) + ((map_bytes::<String, CreatableTopicResult>(m.topics, Ctx { version: version, flexible: (version >= 5), classic: false }))->Ok_0) + (if (version >= 5) { uvarint_bytes(0) } else { Seq::<u8>::empty() })),
            Self::reads_back_message(m, version) ==> Self::spec_deserialize(pre + ((if 2 <= version { i32_bytes(m.throttle_time_ms) } else { Seq::<u8>::empty() }) + ((map_bytes::<String, CreatableTopicResult>(m.topics, Ctx { version: version, flexible: (version >= 5), classic: false }))->Ok_0) + (if (version >= 5) { uvarint_bytes(0) } else { Seq::<u8>::empty() })) + post, pre.len() as int, version) == Ok::<(CreateTopicsResponseModel, int), SerializationError>((CreateTopicsResponseModel { throttle_time_ms: if 2 <= version { m.throttle_time_ms } else { 0i32 }, topics: m.topics }, pre.len() as int + ((if 2 <= version { i32_bytes(m.throttle_time_ms) } else { Seq::<u8>::empty() }) + ((map_bytes::<String, CreatableTopicResult>(m.topics, Ctx { version: version, flexible: (version >= 5), classic: false }))->Ok_0) + (if (version >= 5) { uvarint_bytes(0) } else { Seq::<u8>::empty() })).len())),
    {
        let is_flexible = version >= 5;
        let ctx = Ctx { version, flexible: is_flexible, classic: false };
        let b0 = if 2 <= ctx.version { i32_bytes(m.throttle_time_ms) } else { Seq::<u8>::empty() };
        let b1 = (map_bytes::<String, CreatableTopicResult>(m.topics, Ctx { version: ctx.version, flexible: ctx.flexible, classic: false }))->Ok_0;
        let b2 = if ctx.flexible { uvarint_bytes(0) } else { Seq::<u8>::empty() };
        let e = Self::spec_serialize(m, version)->Ok_0;
        assert(e =~= Seq::<u8>::empty() + b0 + b1 + b2);
        assert(e =~= b0 + b1 + b2);
        if Self::reads_back_message(m, version) {
            Self::lemma_message_read_back(pre, m, post, version);
        }
    }

    /// Writing succeeds exactly when every field that the version carries can be
    /// encoded and every field that it leaves out, where leaving it out is an
    /// error, holds its default.
    #[verifier::spinoff_prover]
    pub proof fn lemma_message_write_succeeds(m: CreateTopicsResponseModel, version: i16)
        ensures
            Self::spec_serialize(m, version) is Ok <==> (!(2 <= version) ==> !(m.throttle_time_ms != 0)) && (map_bytes::<String, CreatableTopicResult>(m.topics, Ctx { version: version, flexible: (version >= 5), classic: false }) is Ok),
    {
        let is_flexible = version >= 5;
        let ctx = Ctx { version, flexible: is_flexible, classic: false };
    }

    /// Writes the message body for `version`, which must be a supported version.
    /// On failure the buffer is left as it was.
    pub fn serialize(&self, version: ApiVersion, buf: &mut Vec<u8>) -> (r: Result<(), SerializationError>)
        requires
            2 <= version.0 <= 7,
        ensures
            write_exact(r, old(buf)@, final(buf)@, Self::spec_serialize(self.deep_view(), version.0)),
    {
        let start = buf.len();
        let r = self.write_body(version, buf);
        if r.is_err() {
            buf.truncate(start);
        }
        r
    }

    fn write_body(&self, version: ApiVersion, buf: &mut Vec<u8>) -> (r: Result<(), SerializationError>)
        requires
            2 <= version.0 <= 7,
        ensures
            write_ok(r, old(buf)@, final(buf)@, Self::spec_serialize(self.deep_view(), version.0)),
    {
        let is_flexible = version.0 >= Self::get_min_flexible_version().0;
        let ctx = Ctx::new(version, is_flexible);
        let ghost mut w: Seq<u8> = Seq::empty();
        if 2 <= ctx.version {
            put_i32(buf, self.throttle_time_ms);
            proof {
                w = w + i32_bytes(self.throttle_time_ms);
            }
            assert(buf@ =~= old(buf)@ + w);
        } else if self.throttle_time_ms != 0 {
            return Err(SerializationError::FieldNotAvailable { field: "ThrottleTimeMs", version: ctx.version, api_name: "CreateTopicsResponse" });
        }
        encode_creatable_topic_result_map(&self.topics, buf, Ctx { version: ctx.version, flexible: ctx.flexible, classic: false })?;
        proof {
            w = w + (map_bytes::<String, CreatableTopicResult>(creatable_topic_result_map_view(self.topics), Ctx { version: ctx.version, flexible: ctx.flexible, classic: false }))->Ok_0;
        }
        assert(buf@ =~= old(buf)@ + w);
        if ctx.flexible {
            encode_unsigned_varint(0, buf);
            proof {
                w = w + uvarint_bytes(0);
            }
            assert(buf@ =~= old(buf)@ + w);
        }
        Ok(())
    }

    /// Reads a message body written for `version`.
    /// On failure the reader is put back where it started.
    pub fn deserialize(version: ApiVersion, buf: &mut Reader) -> (r: Result<Self, SerializationError>)
        ensures
            final(buf).bytes() == old(buf).bytes(),
            read_view_exact(r, Self::spec_deserialize(old(buf).bytes(), old(buf).pos(), version.0), old(buf).pos(), final(buf).pos()),
    {
        let start = buf.position();
        let r = Self::read_body(version, buf);
        if r.is_err() {
            buf.set_position(start);
        }
        r
    }

    fn read_body(version: ApiVersion, buf: &mut Reader) -> (r: Result<Self, SerializationError>)
        ensures
            final(buf).bytes() == old(buf).bytes(),
            read_view_ok(r, Self::spec_deserialize(old(buf).bytes(), old(buf).pos(), version.0), final(buf).pos()),
    {
        let is_flexible = version.0 >= Self::get_min_flexible_version().0;
        let ctx = Ctx::new(version, is_flexible);
        let throttle_time_ms = if 2 <= ctx.version {
            buf.get_i32()?
        } else {
            0i32
        };
        let topics = decode_creatable_topic_result_map(buf, Ctx { version: ctx.version, flexible: ctx.flexible, classic: false })?;
        if ctx.flexible {
            let (_tag_count, _) = decode_unsigned_varint(buf)?;
        }
        Ok(CreateTopicsResponse { throttle_time_ms, topics })
    }
}

// -------------------------------------------------------
// CreatableTopicConfigs
// -------------------------------------------------------
#[derive(Clone, Debug, Default, PartialEq)]
pub struct CreatableTopicConfigs {
    /// The configuration name.
    /// Available in version 5+.
    pub name: String,
    /// The configuration value.
    /// Available in version 5+.
    pub value: Option<String>,
    /// True if the configuration is read-only.
    /// Available in version 5+.
    pub read_only: bool,
    /// The configuration source.
    /// Available in version 5+.
    pub config_source: i8,
    /// True if this configuration is sensitive.
    /// Available in version 5+.
    pub is_sensitive: bool,
}

/// The contents of `CreatableTopicConfigs`, with strings as characters and
/// nested values by their contents.
pub struct CreatableTopicConfigsModel {
    pub name: Seq<char>,
    pub value: Option<Seq<char>>,
    pub read_only: bool,
    pub config_source: i8,
    pub is_sensitive: bool,
}

impl DeepView for CreatableTopicConfigs {
    type V = CreatableTopicConfigsModel;

    open spec fn deep_view(&self) -> CreatableTopicConfigsModel {
        CreatableTopicConfigsModel {
            name: self.name.deep_view(),
            value: self.value.deep_view(),
            read_only: self.read_only,
            config_source: self.config_source,
            is_sensitive: self.is_sensitive,
        }
    }
}

impl CreatableTopicConfigs {
    /// The encoding of the structure in context `ctx`.
    pub open spec fn spec_encode_body(m: CreatableTopicConfigsModel, ctx: Ctx) -> Result<Seq<u8>, SerializationError> {
        let r = Ok(Seq::<u8>::empty());
        let r = if 5 <= ctx.version { then(r, string_bytes(m.name, ctx.flexible)) } else { r };
        let r = if 5 <= ctx.version { then(r, nullable_string_bytes(m.value, ctx.flexible)) } else { r };
        let r = if 5 <= ctx.version { then(r, Ok(bool_bytes(m.read_only))) } else { r };
        let r = if 5 <= ctx.version { then(r, Ok(i8_bytes(m.config_source))) } else { r };
        let r = if 5 <= ctx.version { then(r, Ok(bool_bytes(m.is_sensitive))) } else { r };
        let r = if ctx.flexible { then(r, Ok(uvarint_bytes(0))) } else { r };
        r
    }

    /// The structure read from `s` at `pos` in context `ctx`.
    pub open spec fn spec_decode_body(s: Seq<u8>, pos: int, ctx: Ctx) -> Result<(CreatableTopicConfigsModel, int), SerializationError> {
        match (if 5 <= ctx.version { parse_string(s, pos, ctx.flexible) } else { Ok((Seq::<char>::empty(), pos)) }) {
            Err(e) => Err(e),
            Ok((name, pos)) =>
            match (if 5 <= ctx.version { parse_nullable_string(s, pos, ctx.flexible) } else { Ok((None, pos)) }) {
                Err(e) => Err(e),
                Ok((value, pos)) =>
                match (if 5 <= ctx.version { parse_bool(s, pos) } else { Ok((false, pos)) }) {
                    Err(e) => Err(e),
                    Ok((read_only, pos)) =>
                    match (if 5 <= ctx.version { parse_i8(s, pos) } else { Ok((0i8, pos)) }) {
                        Err(e) => Err(e),
                        Ok((config_source, pos)) =>
                        match (if 5 <= ctx.version { parse_bool(s, pos) } else { Ok((false, pos)) }) {
                            Err(e) => Err(e),
                            Ok((is_sensitive, pos)) =>
                            match (if ctx.flexible { parse_uvarint(s, pos) } else { Ok((0u64, pos)) }) {
                                Err(e) => Err(e),
                                Ok((_tag_count, pos)) =>
                                Ok((CreatableTopicConfigsModel { name, value, read_only, config_source, is_sensitive }, pos))
                            }
                        }
                    }
                }
            }
        }
    }

    /// The structure as it reads back in context `ctx`: each field that the
    /// version leaves out is at its default.
    #[verifier::opaque]
    pub open spec fn spec_read_as(m: CreatableTopicConfigsModel, ctx: Ctx) -> CreatableTopicConfigsModel {
        CreatableTopicConfigsModel { name: if 5 <= ctx.version { m.name } else { Seq::<char>::empty() }, value: if 5 <= ctx.version { m.value } else { None }, read_only: if 5 <= ctx.version { m.read_only } else { false }, config_source: if 5 <= ctx.version { m.config_source } else { 0i8 }, is_sensitive: if 5 <= ctx.version { m.is_sensitive } else { false } }
    }

    /// Values that read back in context `ctx`: nested values read back. A field
    /// that the version leaves out is read as its default.
    pub open spec fn reads_back_body(m: CreatableTopicConfigsModel, ctx: Ctx) -> bool {
        true
    }

    /// A value that can be written in context `ctx` and reads back: decoding its
    /// encoding, wherever it stands, gives the value as `spec_read_as` gives it and
    /// the position just after it.
    #[verifier::spinoff_prover]
    pub proof fn lemma_body_read_back(pre: Seq<u8>, m: CreatableTopicConfigsModel, post: Seq<u8>, ctx: Ctx)
        requires
            Self::spec_encode_body(m, ctx) is Ok,
            Self::reads_back_body(m, ctx),
        ensures
            Self::spec_decode_body(pre + Self::spec_encode_body(m, ctx)->Ok_0 + post, pre.len() as int, ctx) == Ok::<(CreatableTopicConfigsModel, int), SerializationError>((Self::spec_read_as(m, ctx), pre.len() as int + Self::spec_encode_body(m, ctx)->Ok_0.len())),
    {
        reveal(CreatableTopicConfigs::spec_read_as);
        let b0 = if 5 <= ctx.version { (string_bytes(m.name, ctx.flexible))->Ok_0 } else { Seq::<u8>::empty() };
        let b1 = if 5 <= ctx.version { (nullable_string_bytes(m.value, ctx.flexible))->Ok_0 } else { Seq::<u8>::empty() };
        let b2 = if 5 <= ctx.version { bool_bytes(m.read_only) } else { Seq::<u8>::empty() };
        let b3 = if 5 <= ctx.version { i8_bytes(m.config_source) } else { Seq::<u8>::empty() };
        let b4 = if 5 <= ctx.version { bool_bytes(m.is_sensitive) } else { Seq::<u8>::empty() };
        let b5 = if ctx.flexible { uvarint_bytes(0) } else { Seq::<u8>::empty() };
        let t6 = post;
        let t5 = b5 + t6;
        let t4 = b4 + t5;
        let t3 = b3 + t4;
        let t2 = b2 + t3;
        let t1 = b1 + t2;
        let t0 = b0 + t1;
        let e = Self::spec_encode_body(m, ctx)->Ok_0;
        assert(e =~= Seq::<u8>::empty() + b0 + b1 + b2 + b3 + b4 + b5);
        lemma_seq_assoc((((((Seq::<u8>::empty() + b0) + b1) + b2) + b3) + b4), b5, post);
        lemma_seq_assoc(((((Seq::<u8>::empty() + b0) + b1) + b2) + b3), b4, (b5 + post));
        lemma_seq_assoc((((Seq::<u8>::empty() + b0) + b1) + b2), b3, (b4 + (b5 + post)));
        lemma_seq_assoc(((Seq::<u8>::empty() + b0) + b1), b2, (b3 + (b4 + (b5 + post))));
        lemma_seq_assoc((Seq::<u8>::empty() + b0), b1, (b2 + (b3 + (b4 + (b5 + post)))));
        lemma_seq_assoc(Seq::<u8>::empty(), b0, (b1 + (b2 + (b3 + (b4 + (b5 + post))))));
        lemma_seq_empty_left((b0 + (b1 + (b2 + (b3 + (b4 + (b5 + post)))))));
        let s = pre + e + post;
        lemma_seq_assoc(pre, e, post);
        assert(s == pre + t0);
        let a0 = pre;
        if 5 <= ctx.version {
            assert(parse_string(s, a0.len() as int, ctx.flexible) == Ok::<(Seq<char>, int), SerializationError>((m.name, a0.len() as int + b0.len()))) by {
                assert(string_bytes(m.name, ctx.flexible) is Ok);
                lemma_seq_assoc(a0, b0, t1);
                lemma_string_roundtrip(a0, m.name, t1, ctx.flexible);
            }
        }
        lemma_seq_assoc(a0, b0, t1);
        let a1 = a0 + b0;
        if 5 <= ctx.version {
            assert(parse_nullable_string(s, a1.len() as int, ctx.flexible) == Ok::<(Option<Seq<char>>, int), SerializationError>((m.value, a1.len() as int + b1.len()))) by {
                assert(nullable_string_bytes(m.value, ctx.flexible) is Ok);
                lemma_seq_assoc(a1, b1, t2);
                lemma_nullable_string_roundtrip(a1, m.value, t2, ctx.flexible);
            }
        }
        lemma_seq_assoc(a1, b1, t2);
        let a2 = a1 + b1;
        if 5 <= ctx.version {
            assert(parse_bool(s, a2.len() as int) == Ok::<(bool, int), SerializationError>((m.read_only, a2.len() as int + b2.len()))) by {
                lemma_seq_assoc(a2, b2, t3);
                lemma_bool_roundtrip(a2, m.read_only, t3);
            }
        }
        lemma_seq_assoc(a2, b2, t3);
        let a3 = a2 + b2;
        if 5 <= ctx.version {
            assert(parse_i8(s, a3.len() as int) == Ok::<(i8, int), SerializationError>((m.config_source, a3.len() as int + b3.len()))) by {
                lemma_seq_assoc(a3, b3, t4);
                lemma_i8_roundtrip(a3, m.config_source, t4);
            }
        }
        lemma_seq_assoc(a3, b3, t4);
        let a4 = a3 + b3;
        if 5 <= ctx.version {
            assert(parse_bool(s, a4.len() as int) == Ok::<(bool, int), SerializationError>((m.is_sensitive, a4.len() as int + b4.len()))) by {
                lemma_seq_assoc(a4, b4, t5);
                lemma_bool_roundtrip(a4, m.is_sensitive, t5);
            }
        }
        lemma_seq_assoc(a4, b4, t5);
        let a5 = a4 + b4;
        if ctx.flexible {
            assert(parse_uvarint(s, a5.len() as int) == Ok::<(u64, int), SerializationError>((0u64, a5.len() as int + b5.len()))) by {
                lemma_seq_assoc(a5, b5, t6);
                lemma_uvarint_roundtrip(a5, 0, t6);
            }
        }
    }

    /// The bytes written: the encoding of each field, in the order of the
    /// protocol's layout. Reading them back, wherever they stand, gives the value,
    /// with each field that the version leaves out at its default.
    #[verifier::spinoff_prover]
    pub proof fn lemma_body_layout(pre: Seq<u8>, m: CreatableTopicConfigsModel, post: Seq<u8>, ctx: Ctx)
        requires
            Self::spec_encode_body(m, ctx) is Ok,
        ensures
            Self::spec_encode_body(m, ctx) == Ok::<Seq<u8>, SerializationError>((if 5 <= ctx.version { (string_bytes(m.name, ctx.flexible))->Ok_0 } else { Seq::<u8>::empty() }) + (if 5 <= ctx.version { (nullable_string_bytes(m.value, ctx.flexible))->Ok_0 } else { Seq::<u8>::empty() }) + (if 5 <= ctx.version { bool_bytes(m.read_only) } else { Seq::<u8>::empty() }) + (if 5 <= ctx.version { i8_bytes(m.config_source) } else { Seq::<u8>::empty() }) + (if 5 <= ctx.version { bool_bytes(m.is_sensitive) } else { Seq::<u8>::empty() }) + (if ctx.flexible { uvarint_bytes(0) } else { Seq::<u8>::empty() })),
            Self::reads_back_body(m, ctx) ==> Self::spec_decode_body(pre + ((if 5 <= ctx.version { (string_bytes(m.name, ctx.flexible))->Ok_0 } else { Seq::<u8>::empty() }) + (if 5 <= ctx.version { (nullable_string_bytes(m.value, ctx.flexible))->Ok_0 } else { Seq::<u8>::empty() }) + (if 5 <= ctx.version { bool_bytes(m.read_only) } else { Seq::<u8>::empty() }) + (if 5 <= ctx.version { i8_bytes(m.config_source) } else { Seq::<u8>::empty() }) + (if 5 <= ctx.version { bool_bytes(m.is_sensitive) } else { Seq::<u8>::empty() }) + (if ctx.flexible { uvarint_bytes(0) } else { Seq::<u8>::empty() })) + post, pre.len() as int, ctx) == Ok::<(CreatableTopicConfigsModel, int), SerializationError>((CreatableTopicConfigsModel { name: if 5 <= ctx.version { m.name } else { Seq::<char>::empty() }, value: if 5 <= ctx.version { m.value } else { None }, read_only: if 5 <= ctx.version { m.read_only } else { false }, config_source: if 5 <= ctx.version { m.config_source } else { 0i8 }, is_sensitive: if 5 <= ctx.version { m.is_sensitive } else { false } }, pre.len() as int + ((if 5 <= ctx.version { (string_bytes(m.name, ctx.flexible))->Ok_0 } else { Seq::<u8>::empty() }) + (if 5 <= ctx.version { (nullable_string_bytes(m.value, ctx.flexible))->Ok_0 } else { Seq::<u8>::empty() }) + (if 5 <= ctx.version { bool_bytes(m.read_only) } else { Seq::<u8>::empty() }) + (if 5 <= ctx.version { i8_bytes(m.config_source) } else { Seq::<u8>::empty() }) + (if 5 <= ctx.version { bool_bytes(m.is_sensitive) } else { Seq::<u8>::empty() }) + (if ctx.flexible { uvarint_bytes(0) } else { Seq::<u8>::empty() })).len())),
    {
        let b0 = if 5 <= ctx.version { (string_bytes(m.name, ctx.flexible))->Ok_0 } else { Seq::<u8>::empty() };
        let b1 = if 5 <= ctx.version { (nullable_string_bytes(m.value, ctx.flexible))->Ok_0 } else { Seq::<u8>::empty() };
        let b2 = if 5 <= ctx.version { bool_bytes(m.read_only) } else { Seq::<u8>::empty() };
        let b3 = if 5 <= ctx.version { i8_bytes(m.config_source) } else { Seq::<u8>::empty() };
        let b4 = if 5 <= ctx.version { bool_bytes(m.is_sensitive) } else { Seq::<u8>::empty() };
        let b5 = if ctx.flexible { uvarint_bytes(0) } else { Seq::<u8>::empty() };
        let e = Self::spec_encode_body(m, ctx)->Ok_0;
        assert(e =~= Seq::<u8>::empty() + b0 + b1 + b2 + b3 + b4 + b5);
        assert(e =~= b0 + b1 + b2 + b3 + b4 + b5);
        if Self::reads_back_body(m, ctx) {
            Self::lemma_body_read_back(pre, m, post, ctx);
            reveal(CreatableTopicConfigs::spec_read_as);
        }
    }

    /// Writing succeeds exactly when every field that the version carries can be
    /// encoded and every field that it leaves out, where leaving it out is an
    /// error, holds its default.
    #[verifier::spinoff_prover]
    pub proof fn lemma_body_write_succeeds(m: CreatableTopicConfigsModel, ctx: Ctx)
        ensures
            Self::spec_encode_body(m, ctx) is Ok <==> ((5 <= ctx.version) ==> string_bytes(m.name, ctx.flexible) is Ok) && ((5 <= ctx.version) ==> nullable_string_bytes(m.value, ctx.flexible) is Ok),
    {
    }

    /// Writes the structure for `version`, with the compact encodings when `is_flexible`.
    /// On failure the buffer is left as it was.
    pub fn encode(&self, buf: &mut Vec<u8>, version: ApiVersion, is_flexible: bool) -> (r: Result<(), SerializationError>)
        ensures
            write_exact(r, old(buf)@, final(buf)@, Self::spec_encode_body(self.deep_view(), Ctx { version: version.0, flexible: is_flexible, classic: false })),
    {
        let start = buf.len();
        let r = self.encode_ctx(buf, Ctx::new(version, is_flexible));
        if r.is_err() {
            buf.truncate(start);
        }
        r
    }

    /// Reads the structure as written for `version`.
    /// On failure the reader is put back where it started.
    pub fn decode(buf: &mut Reader, version: ApiVersion, is_flexible: bool) -> (r: Result<Self, SerializationError>)
        ensures
            final(buf).bytes() == old(buf).bytes(),
            read_view_exact(r, Self::spec_decode_body(old(buf).bytes(), old(buf).pos(), Ctx { version: version.0, flexible: is_flexible, classic: false }), old(buf).pos(), final(buf).pos()),
    {
        let start = buf.position();
        let r = Self::decode_ctx(buf, Ctx::new(version, is_flexible));
        if r.is_err() {
            buf.set_position(start);
        }
        r
    }
}

impl KafkaCodec for CreatableTopicConfigs {
    open spec fn spec_encode(m: CreatableTopicConfigsModel, ctx: Ctx) -> Result<Seq<u8>, SerializationError> {
        Self::spec_encode_body(m, ctx)
    }

    open spec fn spec_decode(s: Seq<u8>, pos: int, ctx: Ctx) -> Result<(CreatableTopicConfigsModel, int), SerializationError> {
        Self::spec_decode_body(s, pos, ctx)
    }

    open spec fn reads_back(v: CreatableTopicConfigsModel, ctx: Ctx) -> bool {
        Self::reads_back_body(v, ctx) && Self::spec_read_as(v, ctx) == v
    }

    proof fn lemma_read_back(pre: Seq<u8>, v: CreatableTopicConfigsModel, post: Seq<u8>, ctx: Ctx) {
        Self::lemma_body_read_back(pre, v, post, ctx);
        assert(Self::spec_decode(pre + Self::spec_encode(v, ctx)->Ok_0 + post, pre.len() as int, ctx)
            == Self::spec_decode_body(pre + Self::spec_encode_body(v, ctx)->Ok_0 + post, pre.len() as int, ctx));
    }

    fn encode_ctx(&self, buf: &mut Vec<u8>, ctx: Ctx) -> (r: Result<(), SerializationError>) {
        let ghost mut w: Seq<u8> = Seq::empty();
        if 5 <= ctx.version {
            encode_string(&self.name, buf, ctx.flexible)?;
            proof {
                w = w + (string_bytes(self.name.deep_view(), ctx.flexible))->Ok_0;
            }
            assert(buf@ =~= old(buf)@ + w);
        }
        if 5 <= ctx.version {
            encode_nullable_string(&self.value, buf, ctx.flexible)?;
            proof {
                w = w + (nullable_string_bytes(self.value.deep_view(), ctx.flexible))->Ok_0;
            }
            assert(buf@ =~= old(buf)@ + w);
        }
        if 5 <= ctx.version {
            put_bool(buf, self.read_only);
            proof {
                w = w + bool_bytes(self.read_only);
            }
            assert(buf@ =~= old(buf)@ + w);
        }
        if 5 <= ctx.version {
            put_i8(buf, self.config_source);
            proof {
                w = w + i8_bytes(self.config_source);
            }
            assert(buf@ =~= old(buf)@ + w);
        }
        if 5 <= ctx.version {
            put_bool(buf, self.is_sensitive);
            proof {
                w = w + bool_bytes(self.is_sensitive);
            }
            assert(buf@ =~= old(buf)@ + w);
        }
        if ctx.flexible {
            encode_unsigned_varint(0, buf);
            proof {
                w = w + uvarint_bytes(0);
            }
            assert(buf@ =~= old(buf)@ + w);
        }
        Ok(())
    }

    fn decode_ctx(buf: &mut Reader, ctx: Ctx) -> (r: Result<Self, SerializationError>) {
        let name = if 5 <= ctx.version {
            buf.get_string(ctx.flexible)?
        } else {
            String::new()
        };
        let value = if 5 <= ctx.version {
            buf.get_nullable_string(ctx.flexible)?
        } else {
            None
        };
        let read_only = if 5 <= ctx.version {
            buf.get_bool()?
        } else {
            false
        };
        let config_source = if 5 <= ctx.version {
            buf.get_i8()?
        } else {
            0i8
        };
        let is_sensitive = if 5 <= ctx.version {
            buf.get_bool()?
        } else {
            false
        };
        if ctx.flexible {
            let (_tag_count, _) = decode_unsigned_varint(buf)?;
        }
        Ok(CreatableTopicConfigs { name, value, read_only, config_source, is_sensitive })
    }
}

// -------------------------------------------------------
// CreatableTopicResult
// -------------------------------------------------------
#[derive(Clone, Debug, Default, PartialEq)]
pub struct CreatableTopicResult {
    /// The unique topic ID.
    /// Available in version 7+.
    pub topic_id: [u8; 16],
    /// The error code, or 0 if there was no error.
    pub error_code: i16,
    /// The error message, or null if there was no error.
    /// Available in version 1+.
    pub error_message: Option<String>,
    /// Optional topic config error returned if configs are not returned in the response.
    /// Available in version 5+.
    pub topic_config_error_code: i16,
    /// Number of partitions of the topic.
    /// Available in version 5+.
    pub num_partitions: i32,
    /// Replication factor of the topic.
    /// Available in version 5+.
    pub replication_factor: i16,
    /// Configuration of the topic.
    /// Available in version 5+.
    pub configs: Option<Vec<CreatableTopicConfigs>>,
}

/// The contents of `CreatableTopicResult`, with strings as characters and
/// nested values by their contents.
pub struct CreatableTopicResultModel {
    pub topic_id: Seq<u8>,
    pub error_code: i16,
    pub error_message: Option<Seq<char>>,
    pub topic_config_error_code: i16,
    pub num_partitions: i32,
    pub replication_factor: i16,
    pub configs: Option<Seq<<CreatableTopicConfigs as DeepView>::V>>,
}

impl DeepView for CreatableTopicResult {
    type V = CreatableTopicResultModel;

    open spec fn deep_view(&self) -> CreatableTopicResultModel {
        CreatableTopicResultModel {
            topic_id: self.topic_id@,
            error_code: self.error_code,
            error_message: self.error_message.deep_view(),
            topic_config_error_code: self.topic_config_error_code,
            num_partitions: self.num_partitions,
            replication_factor: self.replication_factor,
            configs: self.configs.deep_view(),
        }
    }
}

impl CreatableTopicResult {
    /// Fields 1 to 5 of the encoding.
    pub open spec fn spec_encode_body_part1(m: CreatableTopicResultModel, ctx: Ctx) -> Result<Seq<u8>, SerializationError> {
        let r = Ok(Seq::<u8>::empty());
        let r = if 7 <= ctx.version { then(r, Ok(m.topic_id)) } else { r };
        let r = then(r, Ok(i16_bytes(m.error_code)));
        let r = if 1 <= ctx.version { then(r, nullable_string_bytes(m.error_message, ctx.flexible)) } else { r };
        let r = if 5 <= ctx.version && !ctx.flexible { then(r, Ok(i16_bytes(m.topic_config_error_code))) } else { r };
        let r = if 5 <= ctx.version { then(r, Ok(i32_bytes(m.num_partitions))) } else { r };
        r
    }

    #[verifier::spinoff_prover]
    fn encode_body_part1(&self, buf: &mut Vec<u8>, ctx: Ctx) -> (r: Result<(), SerializationError>)
        ensures
            write_ok(r, old(buf)@, final(buf)@, Self::spec_encode_body_part1(self.deep_view(), ctx)),
    {
        let ghost mut w: Seq<u8> = Seq::empty();
        if 7 <= ctx.version {
            encode_uuid(&self.topic_id, buf);
            proof {
                w = w + self.topic_id@;
            }
            assert(buf@ =~= old(buf)@ + w);
        }
        put_i16(buf, self.error_code);
        proof {
            w = w + i16_bytes(self.error_code);
        }
        assert(buf@ =~= old(buf)@ + w);
        if 1 <= ctx.version {
            encode_nullable_string(&self.error_message, buf, ctx.flexible)?;
            proof {
                w = w + (nullable_string_bytes(self.error_message.deep_view(), ctx.flexible))->Ok_0;
            }
            assert(buf@ =~= old(buf)@ + w);
        }
        if 5 <= ctx.version && !ctx.flexible {
            put_i16(buf, self.topic_config_error_code);
            proof {
                w = w + i16_bytes(self.topic_config_error_code);
            }
            assert(buf@ =~= old(buf)@ + w);
        }
        if 5 <= ctx.version {
            put_i32(buf, self.num_partitions);
            proof {
                w = w + i32_bytes(self.num_partitions);
            }
            assert(buf@ =~= old(buf)@ + w);
        }
        Ok(())
    }

    /// Fields 6 to 8 of the encoding.
    pub open spec fn spec_encode_body_part2(m: CreatableTopicResultModel, ctx: Ctx) -> Result<Seq<u8>, SerializationError> {
        let r = Ok(Seq::<u8>::empty());
        let r = if 5 <= ctx.version { then(r, Ok(i16_bytes(m.replication_factor))) } else { r };
        let r = if 5 <= ctx.version { then(r, nullable_array_bytes::<CreatableTopicConfigs>(m.configs, Ctx { version: ctx.version, flexible: ctx.flexible, classic: false })) } else { r };
        let r = if ctx.flexible { then(r, tagged_field_bytes(m.topic_config_error_code != 0, 0, Ok(i16_bytes(m.topic_config_error_code)))) } else { r };
        r
    }

    #[verifier::spinoff_prover]
    fn encode_body_part2(&self, buf: &mut Vec<u8>, ctx: Ctx) -> (r: Result<(), SerializationError>)
        ensures
            write_ok(r, old(buf)@, final(buf)@, Self::spec_encode_body_part2(self.deep_view(), ctx)),
    {
        let ghost mut w: Seq<u8> = Seq::empty();
        if 5 <= ctx.version {
            put_i16(buf, self.replication_factor);
            proof {
                w = w + i16_bytes(self.replication_factor);
            }
            assert(buf@ =~= old(buf)@ + w);
        }
        if 5 <= ctx.version {
            encode_nullable_array(&self.configs, buf, Ctx { version: ctx.version, flexible: ctx.flexible, classic: false })?;
            proof {
                w = w + (nullable_array_bytes::<CreatableTopicConfigs>(self.configs.deep_view(), Ctx { version: ctx.version, flexible: ctx.flexible, classic: false }))->Ok_0;
            }
            assert(buf@ =~= old(buf)@ + w);
        }
        if ctx.flexible {
            let tag_count: u64 = if self.topic_config_error_code != 0 { 1 } else { 0 };
            encode_unsigned_varint(tag_count, buf);
            if self.topic_config_error_code != 0 {
                encode_unsigned_varint(0, buf);
                let mut tmp: Vec<u8> = Vec::new();
                put_i16(&mut tmp, self.topic_config_error_code);
                encode_unsigned_varint(tmp.len() as u64, buf);
                put_slice(buf, tmp.as_slice());
            }
            proof {
                w = w + (tagged_field_bytes(self.topic_config_error_code != 0, 0, Ok(i16_bytes(self.topic_config_error_code))))->Ok_0;
            }
            assert(buf@ =~= old(buf)@ + w);
        }
        Ok(())
    }

    /// The encoding of the structure in context `ctx`.
    pub open spec fn spec_encode_body(m: CreatableTopicResultModel, ctx: Ctx) -> Result<Seq<u8>, SerializationError> {
        let r = Ok(Seq::<u8>::empty());
        let r = then(r, Self::spec_encode_body_part1(m, ctx));
        let r = then(r, Self::spec_encode_body_part2(m, ctx));
        r
    }

    /// The structure read from `s` at `pos` in context `ctx`.
    pub open spec fn spec_decode_body(s: Seq<u8>, pos: int, ctx: Ctx) -> Result<(CreatableTopicResultModel, int), SerializationError> {
        match (if 7 <= ctx.version { parse_raw(s, pos, 16) } else { Ok((zero_uuid_bytes(), pos)) }) {
            Err(e) => Err(e),
            Ok((topic_id, pos)) =>
            match parse_i16(s, pos) {
                Err(e) => Err(e),
                Ok((error_code, pos)) =>
                match (if 1 <= ctx.version { parse_nullable_string(s, pos, ctx.flexible) } else { Ok((None, pos)) }) {
                    Err(e) => Err(e),
                    Ok((error_message, pos)) =>
                    match (if 5 <= ctx.version && !ctx.flexible { parse_i16(s, pos) } else { Ok((0i16, pos)) }) {
                        Err(e) => Err(e),
                        Ok((topic_config_error_code, pos)) =>
                        match (if 5 <= ctx.version { parse_i32(s, pos) } else { Ok((0i32, pos)) }) {
                            Err(e) => Err(e),
                            Ok((num_partitions, pos)) =>
                            match (if 5 <= ctx.version { parse_i16(s, pos) } else { Ok((0i16, pos)) }) {
                                Err(e) => Err(e),
                                Ok((replication_factor, pos)) =>
                                match (if 5 <= ctx.version { parse_nullable_array::<CreatableTopicConfigs>(s, pos, Ctx { version: ctx.version, flexible: ctx.flexible, classic: false }) } else { Ok((None, pos)) }) {
                                    Err(e) => Err(e),
                                    Ok((configs, pos)) =>
                                    match (if ctx.flexible { match parse_uvarint(s, pos) { Err(e) => Err(e), Ok((n, p)) => Self::spec_read_tags(s, p, n as nat, ctx.version, topic_config_error_code) } } else { Ok((topic_config_error_code, pos)) }) {
                                        Err(e) => Err(e),
                                        Ok((topic_config_error_code, pos)) =>
                                        Ok((CreatableTopicResultModel { topic_id, error_code, error_message, topic_config_error_code, num_partitions, replication_factor, configs }, pos))
                                    }
                                }
                            }
                        }
                    }
                }
            }
        }
    }

    /// Reads `n` tagged fields, keeping the last value of tag 0.
    pub open spec fn spec_read_tags(s: Seq<u8>, pos: int, n: nat, version: i16, cur: i16) -> Result<(i16, int), SerializationError>
        decreases n,
    {
        if n == 0 {
            Ok((cur, pos))
        } else {
            match parse_uvarint(s, pos) {
                Err(e) => Err(e),
                Ok((id, p1)) => match parse_uvarint(s, p1) {
                    Err(e) => Err(e),
                    Ok((len, p2)) => if id == 0 {
                        match parse_i16(s, p2) {
                            Err(e) => Err(e),
                            Ok((v, p3)) => Self::spec_read_tags(s, p3, (n - 1) as nat, version, v),
                        }
                    } else {
                        match parse_skip(s, p2, (len as usize) as int) {
                            Err(e) => Err(e),
                            Ok((_, p3)) => Self::spec_read_tags(s, p3, (n - 1) as nat, version, cur),
                        }
                    },
                },
            }
        }
    }

    /// A tagged field whose tag this structure does not know is skipped by its
    /// length: reading one more field than before, where the extra field carries
    /// such a tag, gives the same value and ends where the skipped bytes end.
    pub proof fn lemma_unknown_tag_skipped(s: Seq<u8>, pos: int, n: nat, version: i16, cur: i16)
        requires
            Self::spec_read_tags(s, pos, n, version, cur) is Ok,
            unknown_tag_end(s, Self::spec_read_tags(s, pos, n, version, cur)->Ok_0.1, 0) is Some,
        ensures
            Self::spec_read_tags(s, pos, n + 1, version, cur) == Ok::<(i16, int), SerializationError>((
                Self::spec_read_tags(s, pos, n, version, cur)->Ok_0.0,
                unknown_tag_end(s, Self::spec_read_tags(s, pos, n, version, cur)->Ok_0.1, 0)->Some_0,
            )),
        decreases n,
    {
        if n == 0 {
            reveal_with_fuel(CreatableTopicResult::spec_read_tags, 2);
        } else {
            let (id, p1) = parse_uvarint(s, pos)->Ok_0;
            let (len, p2) = parse_uvarint(s, p1)->Ok_0;
            if id == 0 {
                let (v, p3) = (parse_i16(s, p2))->Ok_0;
                Self::lemma_unknown_tag_skipped(s, p3, (n - 1) as nat, version, v);
            } else {
                let p3 = parse_skip(s, p2, (len as usize) as int)->Ok_0.1;
                Self::lemma_unknown_tag_skipped(s, p3, (n - 1) as nat, version, cur);
            }
        }
    }

    fn read_tags(buf: &mut Reader, count: u64, version: i16, init: i16) -> (r: Result<i16, SerializationError>)
        ensures
            final(buf).bytes() == old(buf).bytes(),
            read_view_ok(r, Self::spec_read_tags(old(buf).bytes(), old(buf).pos(), count as nat, version, init), final(buf).pos()),
    {
        let mut cur = init;
        let mut i: u64 = 0;
        while i < count
            invariant
                buf.bytes() == old(buf).bytes(),
                i <= count,
                Self::spec_read_tags(old(buf).bytes(), old(buf).pos(), count as nat, version, init) == Self::spec_read_tags(buf.bytes(), buf.pos(), (count - i) as nat, version, cur),
            decreases count - i,
        {
            let (id, _) = decode_unsigned_varint(buf)?;
            let (len, _) = decode_unsigned_varint(buf)?;
            if id == 0 {
                cur = buf.get_i16()?;
            } else {
                buf.advance(len as usize)?;
            }
            i = i + 1;
        }
        Ok(cur)
    }

    /// The structure as it reads back in context `ctx`: each field that the
    /// version leaves out is at its default.
    #[verifier::opaque]
    pub open spec fn spec_read_as(m: CreatableTopicResultModel, ctx: Ctx) -> CreatableTopicResultModel {
        CreatableTopicResultModel { topic_id: if 7 <= ctx.version { m.topic_id } else { zero_uuid_bytes() }, error_code: m.error_code, error_message: if 1 <= ctx.version { m.error_message } else { None }, topic_config_error_code: m.topic_config_error_code, num_partitions: if 5 <= ctx.version { m.num_partitions } else { 0i32 }, replication_factor: if 5 <= ctx.version { m.replication_factor } else { 0i16 }, configs: if 5 <= ctx.version { m.configs } else { None } }
    }

    /// Values that read back in context `ctx`: nested values read back. A field
    /// that the version leaves out is read as its default.
    pub open spec fn reads_back_body(m: CreatableTopicResultModel, ctx: Ctx) -> bool {
        &&& (7 <= ctx.version) ==> m.topic_id.len() == 16
        &&& !(5 <= ctx.version && !ctx.flexible) && !ctx.flexible ==> m.topic_config_error_code == 0i16
        &&& (5 <= ctx.version) ==> (m.configs matches Some(items) ==> forall|i: int| 0 <= i < items.len() ==> #[trigger] <CreatableTopicConfigs as KafkaCodec>::reads_back(items[i], Ctx { version: ctx.version, flexible: ctx.flexible, classic: false }))
    }

    /// A value that can be written in context `ctx` and reads back: decoding its
    /// encoding, wherever it stands, gives the value as `spec_read_as` gives it and
    /// the position just after it.
    #[verifier::spinoff_prover]
    #[verifier::rlimit(100)]
    pub proof fn lemma_body_read_back(pre: Seq<u8>, m: CreatableTopicResultModel, post: Seq<u8>, ctx: Ctx)
        requires
            Self::spec_encode_body(m, ctx) is Ok,
            Self::reads_back_body(m, ctx),
        ensures
            Self::spec_decode_body(pre + Self::spec_encode_body(m, ctx)->Ok_0 + post, pre.len() as int, ctx) == Ok::<(CreatableTopicResultModel, int), SerializationError>((Self::spec_read_as(m, ctx), pre.len() as int + Self::spec_encode_body(m, ctx)->Ok_0.len())),
    {
        reveal(CreatableTopicResult::spec_read_as);
        let b0 = if 7 <= ctx.version { m.topic_id } else { Seq::<u8>::empty() };
        let b1 = i16_bytes(m.error_code);
        let b2 = if 1 <= ctx.version { (nullable_string_bytes(m.error_message, ctx.flexible))->Ok_0 } else { Seq::<u8>::empty() };
        let b3 = if 5 <= ctx.version && !ctx.flexible { i16_bytes(m.topic_config_error_code) } else { Seq::<u8>::empty() };
        let b4 = if 5 <= ctx.version { i32_bytes(m.num_partitions) } else { Seq::<u8>::empty() };
        let b5 = if 5 <= ctx.version { i16_bytes(m.replication_factor) } else { Seq::<u8>::empty() };
        let b6 = if 5 <= ctx.version { (nullable_array_bytes::<CreatableTopicConfigs>(m.configs, Ctx { version: ctx.version, flexible: ctx.flexible, classic: false }))->Ok_0 } else { Seq::<u8>::empty() };
        let b7 = if ctx.flexible { (tagged_field_bytes(m.topic_config_error_code != 0, 0, Ok(i16_bytes(m.topic_config_error_code))))->Ok_0 } else { Seq::<u8>::empty() };
        let t8 = post;
        let t7 = b7 + t8;
        let t6 = b6 + t7;
        let t5 = b5 + t6;
        let t4 = b4 + t5;
        let t3 = b3 + t4;
        let t2 = b2 + t3;
        let t1 = b1 + t2;
        let t0 = b0 + t1;
        let e = Self::spec_encode_body(m, ctx)->Ok_0;
        let p1 = Self::spec_encode_body_part1(m, ctx)->Ok_0;
        assert(p1 =~= Seq::<u8>::empty() + b0 + b1 + b2 + b3 + b4);
        lemma_seq_assoc(((((Seq::<u8>::empty() + b0) + b1) + b2) + b3), b4, t5);
        lemma_seq_assoc((((Seq::<u8>::empty() + b0) + b1) + b2), b3, (b4 + t5));
        lemma_seq_assoc(((Seq::<u8>::empty() + b0) + b1), b2, (b3 + (b4 + t5)));
        lemma_seq_assoc((Seq::<u8>::empty() + b0), b1, (b2 + (b3 + (b4 + t5))));
        lemma_seq_assoc(Seq::<u8>::empty(), b0, (b1 + (b2 + (b3 + (b4 + t5)))));
        lemma_seq_empty_left((b0 + (b1 + (b2 + (b3 + (b4 + t5))))));
        let p2 = Self::spec_encode_body_part2(m, ctx)->Ok_0;
        assert(p2 =~= Seq::<u8>::empty() + b5 + b6 + b7);
        lemma_seq_assoc(((Seq::<u8>::empty() + b5) + b6), b7, t8);
        lemma_seq_assoc((Seq::<u8>::empty() + b5), b6, (b7 + t8));
        lemma_seq_assoc(Seq::<u8>::empty(), b5, (b6 + (b7 + t8)));
        lemma_seq_empty_left((b5 + (b6 + (b7 + t8))));
        assert(e == Seq::<u8>::empty() + p1 + p2);
        lemma_seq_assoc((Seq::<u8>::empty() + p1), p2, t8);
        lemma_seq_assoc(Seq::<u8>::empty(), p1, (p2 + t8));
        lemma_seq_empty_left((p1 + (p2 + t8)));
        let s = pre + e + post;
        lemma_seq_assoc(pre, e, post);
        assert(s == pre + t0);
        let a0 = pre;
        if 7 <= ctx.version {
            assert(parse_raw(s, a0.len() as int, 16) == Ok::<(Seq<u8>, int), SerializationError>((m.topic_id, a0.len() as int + b0.len()))) by {
                lemma_seq_assoc(a0, b0, t1);
                lemma_uuid_roundtrip(a0, m.topic_id, t1);
            }
        }
        lemma_seq_assoc(a0, b0, t1);
        let a1 = a0 + b0;
        assert(parse_i16(s, a1.len() as int) == Ok::<(i16, int), SerializationError>((m.error_code, a1.len() as int + b1.len()))) by {
            lemma_seq_assoc(a1, b1, t2);
            lemma_i16_roundtrip(a1, m.error_code, t2);
        }
        lemma_seq_assoc(a1, b1, t2);
        let a2 = a1 + b1;
        if 1 <= ctx.version {
            assert(parse_nullable_string(s, a2.len() as int, ctx.flexible) == Ok::<(Option<Seq<char>>, int), SerializationError>((m.error_message, a2.len() as int + b2.len()))) by {
                assert(nullable_string_bytes(m.error_message, ctx.flexible) is Ok);
                lemma_seq_assoc(a2, b2, t3);
                lemma_nullable_string_roundtrip(a2, m.error_message, t3, ctx.flexible);
            }
        }
        lemma_seq_assoc(a2, b2, t3);
        let a3 = a2 + b2;
        if 5 <= ctx.version && !ctx.flexible {
            assert(parse_i16(s, a3.len() as int) == Ok::<(i16, int), SerializationError>((m.topic_config_error_code, a3.len() as int + b3.len()))) by {
                lemma_seq_assoc(a3, b3, t4);
                lemma_i16_roundtrip(a3, m.topic_config_error_code, t4);
            }
        }
        lemma_seq_assoc(a3, b3, t4);
        let a4 = a3 + b3;
        if 5 <= ctx.version {
            assert(parse_i32(s, a4.len() as int) == Ok::<(i32, int), SerializationError>((m.num_partitions, a4.len() as int + b4.len()))) by {
                lemma_seq_assoc(a4, b4, t5);
                lemma_i32_roundtrip(a4, m.num_partitions, t5);
            }
        }
        lemma_seq_assoc(a4, b4, t5);
        let a5 = a4 + b4;
        if 5 <= ctx.version {
            assert(parse_i16(s, a5.len() as int) == Ok::<(i16, int), SerializationError>((m.replication_factor, a5.len() as int + b5.len()))) by {
                lemma_seq_assoc(a5, b5, t6);
                lemma_i16_roundtrip(a5, m.replication_factor, t6);
            }
        }
        lemma_seq_assoc(a5, b5, t6);
        let a6 = a5 + b5;
        if 5 <= ctx.version {
            assert(parse_nullable_array::<CreatableTopicConfigs>(s, a6.len() as int, Ctx { version: ctx.version, flexible: ctx.flexible, classic: false }) == Ok::<(Option<Seq<<CreatableTopicConfigs as DeepView>::V>>, int), SerializationError>((m.configs, a6.len() as int + b6.len()))) by {
                assert(nullable_array_bytes::<CreatableTopicConfigs>(m.configs, Ctx { version: ctx.version, flexible: ctx.flexible, classic: false }) is Ok);
                lemma_seq_assoc(a6, b6, t7);
                if let Some(items) = m.configs {
                    lemma_items_read_back::<CreatableTopicConfigs>(items, Ctx { version: ctx.version, flexible: ctx.flexible, classic: false });
                }
                lemma_nullable_array_roundtrip::<CreatableTopicConfigs>(a6, m.configs, t7, Ctx { version: ctx.version, flexible: ctx.flexible, classic: false });
            }
        }
        lemma_seq_assoc(a6, b6, t7);
        let a7 = a6 + b6;
        if ctx.flexible {
            if m.topic_config_error_code != 0 {
                let x = i16_bytes(m.topic_config_error_code);
                let u1 = uvarint_bytes(1);
                let ut = uvarint_bytes(0);
                let ul = uvarint_bytes(x.len() as u64);
                assert(b7 == u1 + ut + ul + x);
                let q1 = a7 + u1;
                let q2 = q1 + ut;
                let q3 = q2 + ul;
                assert(parse_uvarint(s, a7.len() as int) == Ok::<(u64, int), SerializationError>((1u64, a7.len() as int + 1))) by {
                    assert(s =~= a7 + u1 + (ut + ul + x + t8));
                    lemma_uvarint_roundtrip(a7, 1, ut + ul + x + t8);
                }
                assert(parse_uvarint(s, q1.len() as int) == Ok::<(u64, int), SerializationError>((0u64, q1.len() as int + ut.len()))) by {
                    assert(s =~= q1 + ut + (ul + x + t8));
                    lemma_uvarint_roundtrip(q1, 0, ul + x + t8);
                }
                assert(parse_uvarint(s, q2.len() as int) == Ok::<(u64, int), SerializationError>(((x.len() as u64), q2.len() as int + ul.len()))) by {
                    assert(s =~= q2 + ul + (x + t8));
                    lemma_uvarint_roundtrip(q2, x.len() as u64, x + t8);
                }
                assert(parse_i16(s, q3.len() as int) == Ok::<(i16, int), SerializationError>((m.topic_config_error_code, q3.len() as int + x.len()))) by {
                    assert(s =~= q3 + x + t8);
                    lemma_i16_roundtrip(q3, m.topic_config_error_code, t8);
                }
                let end = q3.len() as int + x.len();
                assert(Self::spec_read_tags(s, end, 0nat, ctx.version, m.topic_config_error_code) == Ok::<(i16, int), SerializationError>((m.topic_config_error_code, end)));
                assert(Self::spec_read_tags(s, a7.len() as int + 1, 1nat, ctx.version, 0i16) == Ok::<(i16, int), SerializationError>((m.topic_config_error_code, end)));
            } else {
                assert(b7 == uvarint_bytes(0));
                assert(parse_uvarint(s, a7.len() as int) == Ok::<(u64, int), SerializationError>((0u64, a7.len() as int + 1))) by {
                    lemma_seq_assoc(a7, b7, t8);
                    lemma_uvarint_roundtrip(a7, 0, t8);
                }
                assert(m.topic_config_error_code == 0i16);
                assert(Self::spec_read_tags(s, a7.len() as int + 1, 0nat, ctx.version, 0i16) == Ok::<(i16, int), SerializationError>((0i16, a7.len() as int + 1)));
            }
        }
    }

    /// The bytes written: the encoding of each field, in the order of the
    /// protocol's layout. Reading them back, wherever they stand, gives the value,
    /// with each field that the version leaves out at its default.
    #[verifier::spinoff_prover]
    pub proof fn lemma_body_layout(pre: Seq<u8>, m: CreatableTopicResultModel, post: Seq<u8>, ctx: Ctx)
        requires
            Self::spec_encode_body(m, ctx) is Ok,
        ensures
            Self::spec_encode_body(m, ctx) == Ok::<Seq<u8>, SerializationError>((if 7 <= ctx.version { m.topic_id } else { Seq::<u8>::empty() }) + (i16_bytes(m.error_code)) + (if 1 <= ctx.version { (nullable_string_bytes(m.error_message, ctx.flexible))->Ok_0 } else { Seq::<u8>::empty() }) + (if 5 <= ctx.version && !ctx.flexible { i16_bytes(m.topic_config_error_code) } else { Seq::<u8>::empty() }) + (if 5 <= ctx.version { i32_bytes(m.num_partitions) } else { Seq::<u8>::empty() }) + (if 5 <= ctx.version { i16_bytes(m.replication_factor) } else { Seq::<u8>::empty() }) + (if 5 <= ctx.version { (nullable_array_bytes::<CreatableTopicConfigs>(m.configs, Ctx { version: ctx.version, flexible: ctx.flexible, classic: false }))->Ok_0 } else { Seq::<u8>::empty() }) + (if ctx.flexible { (tagged_field_bytes(m.topic_config_error_code != 0, 0, Ok(i16_bytes(m.topic_config_error_code))))->Ok_0 } else { Seq::<u8>::empty() })),
            Self::reads_back_body(m, ctx) ==> Self::spec_decode_body(pre + ((if 7 <= ctx.version { m.topic_id } else { Seq::<u8>::empty() }) + (i16_bytes(m.error_code)) + (if 1 <= ctx.version { (nullable_string_bytes(m.error_message, ctx.flexible))->Ok_0 } else { Seq::<u8>::empty() }) + (if 5 <= ctx.version && !ctx.flexible { i16_bytes(m.topic_config_error_code) } else { Seq::<u8>::empty() }) + (if 5 <= ctx.version { i32_bytes(m.num_partitions) } else { Seq::<u8>::empty() }) + (if 5 <= ctx.version { i16_bytes(m.replication_factor) } else { Seq::<u8>::empty() }) + (if 5 <= ctx.version { (nullable_array_bytes::<CreatableTopicConfigs>(m.configs, Ctx { version: ctx.version, flexible: ctx.flexible, classic: false }))->Ok_0 } else { Seq::<u8>::empty() }) + (if ctx.flexible { (tagged_field_bytes(m.topic_config_error_code != 0, 0, Ok(i16_bytes(m.topic_config_error_code))))->Ok_0 } else { Seq::<u8>::empty() })) + post, pre.len() as int, ctx) == Ok::<(CreatableTopicResultModel, int), SerializationError>((CreatableTopicResultModel { topic_id: if 7 <= ctx.version { m.topic_id } else { zero_uuid_bytes() }, error_code: m.error_code, error_message: if 1 <= ctx.version { m.error_message } else { None }, topic_config_error_code: m.topic_config_error_code, num_partitions: if 5 <= ctx.version { m.num_partitions } else { 0i32 }, replication_factor: if 5 <= ctx.version { m.replication_factor } else { 0i16 }, configs: if 5 <= ctx.version { m.configs } else { None } }, pre.len() as int + ((if 7 <= ctx.version { m.topic_id } else { Seq::<u8>::empty() }) + (i16_bytes(m.error_code)) + (if 1 <= ctx.version { (nullable_string_bytes(m.error_message, ctx.flexible))->Ok_0 } else { Seq::<u8>::empty() }) + (if 5 <= ctx.version && !ctx.flexible { i16_bytes(m.topic_config_error_code) } else { Seq::<u8>::empty() }) + (if 5 <= ctx.version { i32_bytes(m.num_partitions) } else { Seq::<u8>::empty() }) + (if 5 <= ctx.version { i16_bytes(m.replication_factor) } else { Seq::<u8>::empty() }) + (if 5 <= ctx.version { (nullable_array_bytes::<CreatableTopicConfigs>(m.configs, Ctx { version: ctx.version, flexible: ctx.flexible, classic: false }))->Ok_0 } else { Seq::<u8>::empty() }) + (if ctx.flexible { (tagged_field_bytes(m.topic_config_error_code != 0, 0, Ok(i16_bytes(m.topic_config_error_code))))->Ok_0 } else { Seq::<u8>::empty() })).len())),
    {
        let b0 = if 7 <= ctx.version { m.topic_id } else { Seq::<u8>::empty() };
        let b1 = i16_bytes(m.error_code);
        let b2 = if 1 <= ctx.version { (nullable_string_bytes(m.error_message, ctx.flexible))->Ok_0 } else { Seq::<u8>::empty() };
        let b3 = if 5 <= ctx.version && !ctx.flexible { i16_bytes(m.topic_config_error_code) } else { Seq::<u8>::empty() };
        let b4 = if 5 <= ctx.version { i32_bytes(m.num_partitions) } else { Seq::<u8>::empty() };
        let b5 = if 5 <= ctx.version { i16_bytes(m.replication_factor) } else { Seq::<u8>::empty() };
        let b6 = if 5 <= ctx.version { (nullable_array_bytes::<CreatableTopicConfigs>(m.configs, Ctx { version: ctx.version, flexible: ctx.flexible, classic: false }))->Ok_0 } else { Seq::<u8>::empty() };
        let b7 = if ctx.flexible { (tagged_field_bytes(m.topic_config_error_code != 0, 0, Ok(i16_bytes(m.topic_config_error_code))))->Ok_0 } else { Seq::<u8>::empty() };
        let e = Self::spec_encode_body(m, ctx)->Ok_0;
        let p1 = Self::spec_encode_body_part1(m, ctx)->Ok_0;
        assert(p1 =~= Seq::<u8>::empty() + b0 + b1 + b2 + b3 + b4);
        let p2 = Self::spec_encode_body_part2(m, ctx)->Ok_0;
        assert(p2 =~= Seq::<u8>::empty() + b5 + b6 + b7);
        assert(e == Seq::<u8>::empty() + p1 + p2);
        assert(e =~= b0 + b1 + b2 + b3 + b4 + b5 + b6 + b7);
        if Self::reads_back_body(m, ctx) {
            Self::lemma_body_read_back(pre, m, post, ctx);
            reveal(CreatableTopicResult::spec_read_as);
        }
    }

    /// Writes the structure for `version`, with the compact encodings when `is_flexible`.
    /// On failure the buffer is left as it was.
    pub fn encode(&self, buf: &mut Vec<u8>, version: ApiVersion, is_flexible: bool) -> (r: Result<(), SerializationError>)
        ensures
            write_exact(r, old(buf)@, final(buf)@, Self::spec_encode_body(self.deep_view(), Ctx { version: version.0, flexible: is_flexible, classic: false })),
    {
        let start = buf.len();
        let r = self.encode_ctx(buf, Ctx::new(version, is_flexible));
        if r.is_err() {
            buf.truncate(start);
        }
        r
    }

    /// Reads the structure as written for `version`.
    /// On failure the reader is put back where it started.
    #[verifier::spinoff_prover]
    pub fn decode(buf: &mut Reader, version: ApiVersion, is_flexible: bool) -> (r: Result<Self, SerializationError>)
        ensures
            final(buf).bytes() == old(buf).bytes(),
            read_view_exact(r, Self::spec_decode_body(old(buf).bytes(), old(buf).pos(), Ctx { version: version.0, flexible: is_flexible, classic: false }), old(buf).pos(), final(buf).pos()),
    {
        let start = buf.position();
        let r = Self::decode_ctx(buf, Ctx::new(version, is_flexible));
        if r.is_err() {
            buf.set_position(start);
        }
        r
    }
}

impl KafkaCodec for CreatableTopicResult {
    open spec fn spec_encode(m: CreatableTopicResultModel, ctx: Ctx) -> Result<Seq<u8>, SerializationError> {
        Self::spec_encode_body(m, ctx)
    }

    open spec fn spec_decode(s: Seq<u8>, pos: int, ctx: Ctx) -> Result<(CreatableTopicResultModel, int), SerializationError> {
        Self::spec_decode_body(s, pos, ctx)
    }

    open spec fn reads_back(v: CreatableTopicResultModel, ctx: Ctx) -> bool {
        Self::reads_back_body(v, ctx) && Self::spec_read_as(v, ctx) == v
    }

    proof fn lemma_read_back(pre: Seq<u8>, v: CreatableTopicResultModel, post: Seq<u8>, ctx: Ctx) {
        Self::lemma_body_read_back(pre, v, post, ctx);
        assert(Self::spec_decode(pre + Self::spec_encode(v, ctx)->Ok_0 + post, pre.len() as int, ctx)
            == Self::spec_decode_body(pre + Self::spec_encode_body(v, ctx)->Ok_0 + post, pre.len() as int, ctx));
    }

    #[verifier::spinoff_prover]
    fn encode_ctx(&self, buf: &mut Vec<u8>, ctx: Ctx) -> (r: Result<(), SerializationError>) {
        let ghost mut w: Seq<u8> = Seq::empty();
        self.encode_body_part1(buf, ctx)?;
        proof {
            w = w + (Self::spec_encode_body_part1(self.deep_view(), ctx))->Ok_0;
        }
        assert(buf@ =~= old(buf)@ + w);
        self.encode_body_part2(buf, ctx)?;
        proof {
            w = w + (Self::spec_encode_body_part2(self.deep_view(), ctx))->Ok_0;
        }
        assert(buf@ =~= old(buf)@ + w);
        Ok(())
    }

    #[verifier::spinoff_prover]
    fn decode_ctx(buf: &mut Reader, ctx: Ctx) -> (r: Result<Self, SerializationError>) {
        let topic_id = if 7 <= ctx.version {
            buf.get_uuid()?
        } else {
            zero_uuid()
        };
        let error_code = buf.get_i16()?;
        let error_message = if 1 <= ctx.version {
            buf.get_nullable_string(ctx.flexible)?
        } else {
            None
        };
        let mut topic_config_error_code = if 5 <= ctx.version && !ctx.flexible {
            buf.get_i16()?
        } else {
            0i16
        };
        let num_partitions = if 5 <= ctx.version {
            buf.get_i32()?
        } else {
            0i32
        };
        let replication_factor = if 5 <= ctx.version {
            buf.get_i16()?
        } else {
            0i16
        };
        let configs = if 5 <= ctx.version {
            decode_nullable_array::<CreatableTopicConfigs>(buf, Ctx { version: ctx.version, flexible: ctx.flexible, classic: false })?
        } else {
            None
        };
        if ctx.flexible {
            let (tag_count, _) = decode_unsigned_varint(buf)?;
            topic_config_error_code = Self::read_tags(buf, tag_count, ctx.version, topic_config_error_code)?;
        }
        Ok(CreatableTopicResult { topic_id, error_code, error_message, topic_config_error_code, num_partitions, replication_factor, configs })
    }
}

} // verus!
