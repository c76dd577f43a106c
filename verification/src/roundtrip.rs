//! What a read gives back of a write: for every wire type, decoding the
//! bytes that its encoder produced, wherever they stand in a buffer, gives
//! back the value and the position just after those bytes.
use vstd::prelude::*;
use vstd::utf8::{decode_utf8, encode_utf8, encode_utf8_decode_utf8, encode_utf8_valid_utf8, valid_utf8};
use crate::serialization::{
    bool_bytes, bytes_bytes, i16_bytes, i32_bytes, i64_bytes, i8_bytes, len32_bytes, max_str_len,
    nullable_bytes_bytes, nullable_string_bytes, parse_bool, parse_bytes, parse_i16, parse_i32,
    parse_i64, parse_i8, parse_len16, parse_len32, parse_nullable_bytes, parse_nullable_string,
    parse_raw, parse_string, parse_u16, parse_u32, parse_u64, parse_uvarint, parse_uvarint_from, pow128,
    array_bytes, items_bytes, then, nullable_array_bytes, parse_array, parse_items, parse_nullable_array,
    str_len_bytes, string_bytes, Ctx, KafkaCodec, u16_bytes, u16_of, u32_bytes, u32_of, u64_bytes, u64_of,
    uvarint_bytes, SerializationError, MAX_LEN32,
};

verus! {

/// Concatenation is associative.
pub proof fn lemma_seq_assoc(a: Seq<u8>, b: Seq<u8>, c: Seq<u8>)
    ensures
        a + (b + c) == (a + b) + c,
{
    assert(a + (b + c) =~= (a + b) + c);
}

/// The empty sequence is a left unit of concatenation.
pub proof fn lemma_seq_empty_left(a: Seq<u8>)
    ensures
        Seq::<u8>::empty() + a == a,
{
    assert(Seq::<u8>::empty() + a =~= a);
}

proof fn lemma_u16_bits(x: u16)
    ensures
        u16_of((x >> 8u16) as u8, x as u8) == x,
{
    assert(u16_of((x >> 8u16) as u8, x as u8) == x) by (bit_vector);
}

proof fn lemma_u32_bits(x: u32)
    ensures
        u32_of((x >> 24u32) as u8, (x >> 16u32) as u8, (x >> 8u32) as u8, x as u8) == x,
{
    assert(u32_of((x >> 24u32) as u8, (x >> 16u32) as u8, (x >> 8u32) as u8, x as u8) == x) by (bit_vector);
}

proof fn lemma_u64_bits(x: u64)
    ensures
        u64_of(
            (x >> 56u64) as u8,
            (x >> 48u64) as u8,
            (x >> 40u64) as u8,
            (x >> 32u64) as u8,
            (x >> 24u64) as u8,
            (x >> 16u64) as u8,
            (x >> 8u64) as u8,
            x as u8,
        ) == x,
{
    assert(u64_of(
        (x >> 56u64) as u8,
        (x >> 48u64) as u8,
        (x >> 40u64) as u8,
        (x >> 32u64) as u8,
        (x >> 24u64) as u8,
        (x >> 16u64) as u8,
        (x >> 8u64) as u8,
        x as u8,
    ) == x) by (bit_vector);
}

/// An `i8` reads back from its encoding.
pub proof fn lemma_i8_roundtrip(pre: Seq<u8>, v: i8, post: Seq<u8>)
    ensures
        parse_i8(pre + i8_bytes(v) + post, pre.len() as int)
            == Ok::<(i8, int), SerializationError>((v, pre.len() + 1int)),
{
    reveal(parse_i8);

    let s = pre + i8_bytes(v) + post;
    assert(s[pre.len() as int] == v as u8);
    assert((v as u8) as i8 == v) by (bit_vector);
}

/// A `bool` reads back from its encoding.
pub proof fn lemma_bool_roundtrip(pre: Seq<u8>, v: bool, post: Seq<u8>)
    ensures
        parse_bool(pre + bool_bytes(v) + post, pre.len() as int)
            == Ok::<(bool, int), SerializationError>((v, pre.len() + 1int)),
{
    reveal(parse_bool);

    let s = pre + bool_bytes(v) + post;
    assert(s[pre.len() as int] == bool_bytes(v)[0]);
}

/// A `u16` reads back from its big-endian encoding.
pub proof fn lemma_u16_roundtrip(pre: Seq<u8>, v: u16, post: Seq<u8>)
    ensures
        parse_u16(pre + u16_bytes(v) + post, pre.len() as int)
            == Ok::<(u16, int), SerializationError>((v, pre.len() + 2int)),
{
    reveal(parse_u16);

    let s = pre + u16_bytes(v) + post;
    let n = pre.len() as int;
    assert(s[n] == u16_bytes(v)[0] && s[n + 1] == u16_bytes(v)[1]);
    lemma_u16_bits(v);
}

/// An `i16` reads back from its encoding.
pub proof fn lemma_i16_roundtrip(pre: Seq<u8>, v: i16, post: Seq<u8>)
    ensures
        parse_i16(pre + i16_bytes(v) + post, pre.len() as int)
            == Ok::<(i16, int), SerializationError>((v, pre.len() + 2int)),
{
    reveal(parse_i16);

    let s = pre + i16_bytes(v) + post;
    let n = pre.len() as int;
    let u = v as u16;
    assert(s[n] == u16_bytes(u)[0] && s[n + 1] == u16_bytes(u)[1]);
    lemma_u16_bits(u);
    assert((u as i16) == v) by (bit_vector)
        requires
            u == v as u16,
    ;
}

/// A `u32` reads back from its big-endian encoding.
pub proof fn lemma_u32_roundtrip(pre: Seq<u8>, v: u32, post: Seq<u8>)
    ensures
        parse_u32(pre + u32_bytes(v) + post, pre.len() as int)
            == Ok::<(u32, int), SerializationError>((v, pre.len() + 4int)),
{
    reveal(parse_u32);

    let s = pre + u32_bytes(v) + post;
    let n = pre.len() as int;
    assert(s[n] == u32_bytes(v)[0] && s[n + 1] == u32_bytes(v)[1] && s[n + 2] == u32_bytes(v)[2]
        && s[n + 3] == u32_bytes(v)[3]);
    lemma_u32_bits(v);
}

/// An `i32` reads back from its encoding.
pub proof fn lemma_i32_roundtrip(pre: Seq<u8>, v: i32, post: Seq<u8>)
    ensures
        parse_i32(pre + i32_bytes(v) + post, pre.len() as int)
            == Ok::<(i32, int), SerializationError>((v, pre.len() + 4int)),
{
    reveal(parse_i32);

    let s = pre + i32_bytes(v) + post;
    let n = pre.len() as int;
    let u = v as u32;
    assert(s[n] == u32_bytes(u)[0] && s[n + 1] == u32_bytes(u)[1] && s[n + 2] == u32_bytes(u)[2]
        && s[n + 3] == u32_bytes(u)[3]);
    lemma_u32_bits(u);
    assert((u as i32) == v) by (bit_vector)
        requires
            u == v as u32,
    ;
}

/// A `u64` reads back from its big-endian encoding.
pub proof fn lemma_u64_roundtrip(pre: Seq<u8>, v: u64, post: Seq<u8>)
    ensures
        parse_u64(pre + u64_bytes(v) + post, pre.len() as int)
            == Ok::<(u64, int), SerializationError>((v, pre.len() + 8int)),
{
    reveal(parse_u64);

    let s = pre + u64_bytes(v) + post;
    let n = pre.len() as int;
    let b = u64_bytes(v);
    assert forall|k: int| 0 <= k < 8 implies s[n + k] == b[k] by {}
    assert(s[n] == b[0] && s[n + 1] == b[1] && s[n + 2] == b[2] && s[n + 3] == b[3]);
    assert(s[n + 4] == b[4] && s[n + 5] == b[5] && s[n + 6] == b[6] && s[n + 7] == b[7]);
    lemma_u64_bits(v);
}

/// An `i64` reads back from its encoding.
pub proof fn lemma_i64_roundtrip(pre: Seq<u8>, v: i64, post: Seq<u8>)
    ensures
        parse_i64(pre + i64_bytes(v) + post, pre.len() as int)
            == Ok::<(i64, int), SerializationError>((v, pre.len() + 8int)),
{
    reveal(parse_i64);

    let u = v as u64;
    lemma_u64_roundtrip(pre, u, post);
    assert((u as i64) == v) by (bit_vector)
        requires
            u == v as u64,
    ;
}

proof fn lemma_pow128_step(n: nat)
    ensures
        pow128(n + 1) == 128 * pow128(n),
        pow128(n) >= 1,
    decreases n,
{
    if n > 0 {
        lemma_pow128_step((n - 1) as nat);
    }
}

proof fn lemma_uvarint_from(s: Seq<u8>, pos: int, count: nat, acc: int, v: u64)
    requires
        0 <= pos,
        pos + uvarint_bytes(v).len() <= s.len(),
        s.subrange(pos, pos + uvarint_bytes(v).len()) == uvarint_bytes(v),
        count <= 9,
        v < pow128((10 - count) as nat),
        0 <= acc < pow128(count),
        acc + v * pow128(count) <= u64::MAX,
    ensures
        parse_uvarint_from(s, pos, count, acc, pow128(count)) == Ok::<(u64, int), SerializationError>(
            ((acc + v * pow128(count)) as u64, pos + uvarint_bytes(v).len()),
        ),
    decreases v,
{
    let b = uvarint_bytes(v);
    let scale = pow128(count);
    assert(s[pos] == s.subrange(pos, pos + b.len())[0]);
    lemma_pow128_step(count);
    if v >= 128 {
        let q = (v / 128) as u64;
        let rest = uvarint_bytes(q);
        assert(b == seq![(v % 128 + 128) as u8] + rest);
        assert(s.subrange(pos + 1, pos + 1 + rest.len()) =~= s.subrange(pos, pos + b.len()).subrange(1, b.len() as int));
        assert(s.subrange(pos + 1, pos + 1 + rest.len()) =~= rest);
        if count == 9 {
            lemma_pow128_step(0);
            assert(pow128(1) == 128);
        }
        lemma_pow128_step((9 - count) as nat);
        assert(((9 - count) as nat) + 1 == (10 - count) as nat);
        let big = pow128((9 - count) as nat);
        assert(q < big) by (nonlinear_arith)
            requires
                v < 128 * big,
                q == v / 128,
        ;
        let acc2 = acc + (v % 128) * scale;
        assert(acc2 < 128 * scale && acc2 + q * (scale * 128) == acc + v * scale) by (nonlinear_arith)
            requires
                0 <= acc < scale,
                acc2 == acc + (v % 128) * scale,
                q == v / 128,
                v >= 0,
        ;
        lemma_uvarint_from(s, pos + 1, count + 1, acc2, q);
        assert(pow128(count + 1) == scale * 128);
    } else {
        assert(b == seq![v as u8]);
    }
}

/// A varint reads back from its encoding.
pub proof fn lemma_uvarint_roundtrip(pre: Seq<u8>, v: u64, post: Seq<u8>)
    ensures
        parse_uvarint(pre + uvarint_bytes(v) + post, pre.len() as int)
            == Ok::<(u64, int), SerializationError>((v, pre.len() as int + uvarint_bytes(v).len())),
{
    reveal(parse_uvarint);

    let s = pre + uvarint_bytes(v) + post;
    let n = pre.len() as int;
    assert(s.subrange(n, n + uvarint_bytes(v).len()) =~= uvarint_bytes(v));
    reveal_with_fuel(pow128, 11);
    assert(pow128(0) == 1);
    assert(pow128(10) == 0x40_0000_0000_0000_0000);
    lemma_uvarint_from(s, n, 0, 0, v);
}

/// A length prefix of a string reads back as that length.
proof fn lemma_len16_roundtrip(pre: Seq<u8>, n: nat, post: Seq<u8>, flexible: bool)
    requires
        n <= max_str_len(flexible),
    ensures
        parse_len16(pre + str_len_bytes(n, flexible) + post, pre.len() as int, flexible)
            == Ok::<(Option<nat>, int), SerializationError>((Some(n), pre.len() as int + str_len_bytes(n, flexible).len())),
{
    if flexible {
        lemma_uvarint_roundtrip(pre, (n + 1) as u64, post);
    } else {
        lemma_i16_roundtrip(pre, n as i16, post);
    }
}

/// A length prefix of a byte blob or an array reads back as that length.
pub proof fn lemma_len32_roundtrip(pre: Seq<u8>, n: nat, post: Seq<u8>, flexible: bool)
    requires
        n <= MAX_LEN32,
    ensures
        parse_len32(pre + len32_bytes(n, flexible) + post, pre.len() as int, flexible)
            == Ok::<(Option<nat>, int), SerializationError>((Some(n), pre.len() as int + len32_bytes(n, flexible).len())),
{
    if flexible {
        lemma_uvarint_roundtrip(pre, (n + 1) as u64, post);
    } else {
        lemma_i32_roundtrip(pre, n as i32, post);
    }
}

/// A string that could be written reads back from its encoding.
pub proof fn lemma_string_roundtrip(pre: Seq<u8>, v: Seq<char>, post: Seq<u8>, flexible: bool)
    requires
        string_bytes(v, flexible) is Ok,
    ensures
        parse_string(pre + string_bytes(v, flexible)->Ok_0 + post, pre.len() as int, flexible)
            == Ok::<(Seq<char>, int), SerializationError>((v, pre.len() as int + string_bytes(v, flexible)->Ok_0.len())),
{
    reveal(string_bytes);
    reveal(parse_string);

    let b = encode_utf8(v);
    let hd = str_len_bytes(b.len(), flexible);
    let s = pre + string_bytes(v, flexible)->Ok_0 + post;
    assert(s =~= pre + hd + (b + post));
    lemma_len16_roundtrip(pre, b.len(), b + post, flexible);
    let p = (pre.len() + hd.len()) as int;
    assert(s.subrange(p, p + b.len()) =~= b);
    encode_utf8_valid_utf8(v);
    encode_utf8_decode_utf8(v);
}

/// A nullable string that could be written reads back from its encoding.
pub proof fn lemma_nullable_string_roundtrip(pre: Seq<u8>, v: Option<Seq<char>>, post: Seq<u8>, flexible: bool)
    requires
        nullable_string_bytes(v, flexible) is Ok,
    ensures
        parse_nullable_string(pre + nullable_string_bytes(v, flexible)->Ok_0 + post, pre.len() as int, flexible)
            == Ok::<(Option<Seq<char>>, int), SerializationError>(
            (v, pre.len() as int + nullable_string_bytes(v, flexible)->Ok_0.len()),
        ),
{
    reveal(nullable_string_bytes);
    reveal(string_bytes);
    reveal(parse_nullable_string);

    match v {
        None => {
            if flexible {
                lemma_uvarint_roundtrip(pre, 0, post);
            } else {
                lemma_i16_roundtrip(pre, -1i16, post);
            }
        },
        Some(x) => {
            let b = encode_utf8(x);
            let hd = str_len_bytes(b.len(), flexible);
            let s = pre + string_bytes(x, flexible)->Ok_0 + post;
            assert(s =~= pre + hd + (b + post));
            lemma_len16_roundtrip(pre, b.len(), b + post, flexible);
            let p = (pre.len() + hd.len()) as int;
            assert(s.subrange(p, p + b.len()) =~= b);
            encode_utf8_valid_utf8(x);
            encode_utf8_decode_utf8(x);
        },
    }
}

/// A byte blob that could be written reads back from its encoding.
pub proof fn lemma_bytes_roundtrip(pre: Seq<u8>, v: Seq<u8>, post: Seq<u8>, flexible: bool)
    requires
        bytes_bytes(v, flexible) is Ok,
    ensures
        parse_bytes(pre + bytes_bytes(v, flexible)->Ok_0 + post, pre.len() as int, flexible)
            == Ok::<(Seq<u8>, int), SerializationError>((v, pre.len() as int + bytes_bytes(v, flexible)->Ok_0.len())),
{
    reveal(bytes_bytes);
    reveal(parse_bytes);

    let hd = len32_bytes(v.len(), flexible);
    let s = pre + bytes_bytes(v, flexible)->Ok_0 + post;
    assert(s =~= pre + hd + (v + post));
    lemma_len32_roundtrip(pre, v.len(), v + post, flexible);
    let p = (pre.len() + hd.len()) as int;
    assert(s.subrange(p, p + v.len()) =~= v);
}

/// A nullable byte blob that could be written reads back from its encoding.
pub proof fn lemma_nullable_bytes_roundtrip(pre: Seq<u8>, v: Option<Seq<u8>>, post: Seq<u8>, flexible: bool)
    requires
        nullable_bytes_bytes(v, flexible) is Ok,
    ensures
        parse_nullable_bytes(pre + nullable_bytes_bytes(v, flexible)->Ok_0 + post, pre.len() as int, flexible)
            == Ok::<(Option<Seq<u8>>, int), SerializationError>(
            (v, pre.len() as int + nullable_bytes_bytes(v, flexible)->Ok_0.len()),
        ),
{
    reveal(nullable_bytes_bytes);
    reveal(bytes_bytes);
    reveal(parse_nullable_bytes);

    match v {
        None => {
            if flexible {
                lemma_uvarint_roundtrip(pre, 0, post);
            } else {
                lemma_i32_roundtrip(pre, -1i32, post);
            }
        },
        Some(x) => {
            let hd = len32_bytes(x.len(), flexible);
            let s = pre + bytes_bytes(x, flexible)->Ok_0 + post;
            assert(s =~= pre + hd + (x + post));
            lemma_len32_roundtrip(pre, x.len(), x + post, flexible);
            let p = (pre.len() + hd.len()) as int;
            assert(s.subrange(p, p + x.len()) =~= x);
        },
    }
}

/// Sixteen raw bytes (an identifier) read back as themselves.
pub proof fn lemma_uuid_roundtrip(pre: Seq<u8>, v: Seq<u8>, post: Seq<u8>)
    requires
        v.len() == 16,
    ensures
        parse_raw(pre + v + post, pre.len() as int, 16)
            == Ok::<(Seq<u8>, int), SerializationError>((v, pre.len() as int + 16)),
{
    let s = pre + v + post;
    assert(s.subrange(pre.len() as int, pre.len() as int + 16) =~= v);
}

/// Every item of `items` that can be written in context `ctx` reads back
/// from its encoding, wherever that encoding stands.
pub open spec fn items_read_back<T: KafkaCodec>(items: Seq<T::V>, ctx: Ctx) -> bool {
    forall|i: int, pre: Seq<u8>, post: Seq<u8>|
        0 <= i < items.len() && T::spec_encode(items[i], ctx) is Ok ==> #[trigger] T::spec_decode(
            pre + T::spec_encode(items[i], ctx)->Ok_0 + post,
            pre.len() as int,
            ctx,
        ) == Ok::<(T::V, int), SerializationError>(
            (items[i], pre.len() as int + T::spec_encode(items[i], ctx)->Ok_0.len()),
        )
}

proof fn lemma_items_roundtrip<T: KafkaCodec>(pre: Seq<u8>, items: Seq<T::V>, post: Seq<u8>, ctx: Ctx)
    requires
        items_bytes::<T>(items, ctx) is Ok,
        items_read_back::<T>(items, ctx),
    ensures
        parse_items::<T>(pre + items_bytes::<T>(items, ctx)->Ok_0 + post, pre.len() as int, items.len(), ctx)
            == Ok::<(Seq<T::V>, int), SerializationError>(
            (items, pre.len() as int + items_bytes::<T>(items, ctx)->Ok_0.len()),
        ),
    decreases items.len(),
{
    if items.len() == 0 {
        assert(pre + items_bytes::<T>(items, ctx)->Ok_0 + post =~= pre + post);
        assert(items =~= Seq::<T::V>::empty());
    } else {
        let init = items.drop_last();
        let last = items.last();
        let bi = items_bytes::<T>(init, ctx)->Ok_0;
        let bl = T::spec_encode(last, ctx)->Ok_0;
        assert(items_read_back::<T>(init, ctx)) by {
            assert forall|i: int, p: Seq<u8>, q: Seq<u8>|
                0 <= i < init.len() && T::spec_encode(init[i], ctx) is Ok implies #[trigger] T::spec_decode(
                    p + T::spec_encode(init[i], ctx)->Ok_0 + q,
                    p.len() as int,
                    ctx,
                ) == Ok::<(T::V, int), SerializationError>(
                    (init[i], p.len() as int + T::spec_encode(init[i], ctx)->Ok_0.len()),
                ) by {
                assert(init[i] == items[i]);
            }
        }
        lemma_items_roundtrip::<T>(pre, init, bl + post, ctx);
        let s = pre + items_bytes::<T>(items, ctx)->Ok_0 + post;
        assert(s =~= pre + bi + (bl + post));
        assert(s =~= (pre + bi) + bl + post);
        let k = items.len() - 1;
        assert(items[k] == last);
        assert(items_bytes::<T>(items, ctx) == then(items_bytes::<T>(init, ctx), T::spec_encode(last, ctx)));
        assert(T::spec_encode(items[k], ctx) is Ok);
        assert(T::spec_decode((pre + bi) + T::spec_encode(items[k], ctx)->Ok_0 + post, (pre + bi).len() as int, ctx)
            == Ok::<(T::V, int), SerializationError>((items[k], (pre + bi).len() as int + bl.len())));
        assert(init.push(last) =~= items);
        assert(parse_items::<T>(s, pre.len() as int, (init.len() + 1) as nat, ctx) == match parse_items::<T>(s, pre.len() as int, init.len(), ctx) {
            Ok((xs, p)) => match T::spec_decode(s, p, ctx) {
                Ok((x, q)) => Ok((xs.push(x), q)),
                Err(e) => Err(e),
            },
            Err(e) => Err(e),
        });
    }
}

/// An array whose items read back, and that could be written, reads back
/// from its encoding.
pub proof fn lemma_array_roundtrip<T: KafkaCodec>(pre: Seq<u8>, items: Seq<T::V>, post: Seq<u8>, ctx: Ctx)
    requires
        array_bytes::<T>(items, ctx) is Ok,
        items_read_back::<T>(items, ctx),
    ensures
        parse_array::<T>(pre + array_bytes::<T>(items, ctx)->Ok_0 + post, pre.len() as int, ctx)
            == Ok::<(Seq<T::V>, int), SerializationError>(
            (items, pre.len() as int + array_bytes::<T>(items, ctx)->Ok_0.len()),
        ),
{
    reveal(array_bytes);
    reveal(parse_array);

    let hd = len32_bytes(items.len(), ctx.flexible);
    let b = items_bytes::<T>(items, ctx)->Ok_0;
    let s = pre + array_bytes::<T>(items, ctx)->Ok_0 + post;
    assert(s =~= pre + hd + (b + post));
    lemma_len32_roundtrip(pre, items.len(), b + post, ctx.flexible);
    assert(s =~= (pre + hd) + b + post);
    lemma_items_roundtrip::<T>(pre + hd, items, post, ctx);
}

/// A nullable array whose items read back, and that could be written,
/// reads back from its encoding.
pub proof fn lemma_nullable_array_roundtrip<T: KafkaCodec>(pre: Seq<u8>, items: Option<Seq<T::V>>, post: Seq<u8>, ctx: Ctx)
    requires
        nullable_array_bytes::<T>(items, ctx) is Ok,
        items matches Some(v) ==> items_read_back::<T>(v, ctx),
    ensures
        parse_nullable_array::<T>(pre + nullable_array_bytes::<T>(items, ctx)->Ok_0 + post, pre.len() as int, ctx)
            == Ok::<(Option<Seq<T::V>>, int), SerializationError>(
            (items, pre.len() as int + nullable_array_bytes::<T>(items, ctx)->Ok_0.len()),
        ),
{
    reveal(nullable_array_bytes);
    reveal(array_bytes);
    reveal(parse_nullable_array);

    match items {
        None => {
            if ctx.flexible {
                lemma_uvarint_roundtrip(pre, 0, post);
            } else {
                lemma_i32_roundtrip(pre, -1i32, post);
            }
        },
        Some(v) => {
            let hd = len32_bytes(v.len(), ctx.flexible);
            let b = items_bytes::<T>(v, ctx)->Ok_0;
            let s = pre + array_bytes::<T>(v, ctx)->Ok_0 + post;
            assert(s =~= pre + hd + (b + post));
            lemma_len32_roundtrip(pre, v.len(), b + post, ctx.flexible);
            assert(s =~= (pre + hd) + b + post);
            lemma_items_roundtrip::<T>(pre + hd, v, post, ctx);
        },
    }
}

/// Items that each read back, by the element type's own law, read back
/// wherever they stand.
pub proof fn lemma_items_read_back<T: KafkaCodec>(items: Seq<T::V>, ctx: Ctx)
    requires
        forall|i: int| 0 <= i < items.len() ==> #[trigger] T::reads_back(items[i], ctx),
    ensures
        items_read_back::<T>(items, ctx),
{
    assert forall|i: int, pre: Seq<u8>, post: Seq<u8>|
        0 <= i < items.len() && T::spec_encode(items[i], ctx) is Ok implies #[trigger] T::spec_decode(
            pre + T::spec_encode(items[i], ctx)->Ok_0 + post,
            pre.len() as int,
            ctx,
        ) == Ok::<(T::V, int), SerializationError>(
            (items[i], pre.len() as int + T::spec_encode(items[i], ctx)->Ok_0.len()),
        ) by {
        T::lemma_read_back(pre, items[i], post, ctx);
    }
}

} // verus!
