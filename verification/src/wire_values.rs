//! What the wire bytes mean as numbers: fixed-width integers are written
//! most significant byte first, signed ones in two's complement, and
//! unsigned varints seven bits at a time, least significant group first,
//! with the high bit of every byte but the last set.
use vstd::prelude::*;
use vstd::utf8::encode_utf8;
use crate::serialization::{
    array_bytes, bytes_bytes, i16_bytes, i32_bytes, i64_bytes, items_bytes, nullable_array_bytes, nullable_bytes_bytes,
    nullable_string_bytes, string_bytes, u16_bytes, u32_bytes, u64_bytes, uvarint_bytes, Ctx, KafkaCodec,
};

verus! {

/// The number that a little-endian sequence of seven-bit groups stands for:
/// the low seven bits of each byte, the first byte the least significant.
pub open spec fn base128_value(b: Seq<u8>) -> int
    decreases b.len(),
{
    if b.len() == 0 {
        0
    } else {
        (b[0] % 128) as int + 128 * base128_value(b.drop_first())
    }
}

/// A `u16` is written as two bytes, most significant first.
pub proof fn lemma_u16_bytes_value(x: u16)
    ensures
        u16_bytes(x).len() == 2,
        u16_bytes(x)[0] * 256 + u16_bytes(x)[1] == x,
{
    let b0 = (x >> 8u16) as u8;
    let b1 = x as u8;
    assert(b0 as u32 * 256 + b1 as u32 == x as u32) by (bit_vector)
        requires
            b0 == (x >> 8u16) as u8,
            b1 == x as u8,
    ;
}

/// A `u32` is written as four bytes, most significant first.
pub proof fn lemma_u32_bytes_value(x: u32)
    ensures
        u32_bytes(x).len() == 4,
        u32_bytes(x)[0] * 0x100_0000 + u32_bytes(x)[1] * 0x1_0000 + u32_bytes(x)[2] * 0x100 + u32_bytes(x)[3] == x,
{
    let b0 = (x >> 24u32) as u8;
    let b1 = (x >> 16u32) as u8;
    let b2 = (x >> 8u32) as u8;
    let b3 = x as u8;
    assert(b0 as u64 * 0x100_0000 + b1 as u64 * 0x1_0000 + b2 as u64 * 0x100 + b3 as u64 == x as u64) by (bit_vector)
        requires
            b0 == (x >> 24u32) as u8,
            b1 == (x >> 16u32) as u8,
            b2 == (x >> 8u32) as u8,
            b3 == x as u8,
    ;
}

/// A `u64` is written as eight bytes, most significant first: the bytes of
/// its high half, then those of its low half.
pub proof fn lemma_u64_bytes_value(x: u64)
    ensures
        u64_bytes(x).len() == 8,
        u64_bytes(x) == u32_bytes((x / 0x1_0000_0000) as u32) + u32_bytes((x % 0x1_0000_0000) as u32),
        (x / 0x1_0000_0000) * 0x1_0000_0000 + (x % 0x1_0000_0000) == x,
{
    let hi = (x >> 32u64) as u32;
    let lo = x as u32;
    assert(hi == (x / 0x1_0000_0000) as u32 && lo == (x % 0x1_0000_0000) as u32) by (bit_vector)
        requires
            hi == (x >> 32u64) as u32,
            lo == x as u32,
    ;
    assert((x >> 56u64) as u8 == (hi >> 24u32) as u8 && (x >> 48u64) as u8 == (hi >> 16u32) as u8
        && (x >> 40u64) as u8 == (hi >> 8u32) as u8 && (x >> 32u64) as u8 == hi as u8) by (bit_vector)
        requires
            hi == (x >> 32u64) as u32,
    ;
    assert((x >> 24u64) as u8 == (lo >> 24u32) as u8 && (x >> 16u64) as u8 == (lo >> 16u32) as u8
        && (x >> 8u64) as u8 == (lo >> 8u32) as u8 && x as u8 == lo as u8) by (bit_vector)
        requires
            lo == x as u32,
    ;
    assert(u64_bytes(x) =~= u32_bytes(hi) + u32_bytes(lo));
}

/// An `i16` is written as the two bytes of its two's-complement value.
pub proof fn lemma_i16_bytes_value(v: i16)
    ensures
        i16_bytes(v).len() == 2,
        i16_bytes(v)[0] * 256 + i16_bytes(v)[1] == (if v < 0 { v + 0x1_0000 } else { v as int }),
{
    let u = v as u16;
    lemma_u16_bytes_value(u);
    assert(u as int == (if v < 0 { v + 0x1_0000 } else { v as int })) by (bit_vector)
        requires
            u == v as u16,
    ;
}

/// An `i32` is written as the four bytes of its two's-complement value.
pub proof fn lemma_i32_bytes_value(v: i32)
    ensures
        i32_bytes(v).len() == 4,
        i32_bytes(v)[0] * 0x100_0000 + i32_bytes(v)[1] * 0x1_0000 + i32_bytes(v)[2] * 0x100 + i32_bytes(v)[3]
            == (if v < 0 { v + 0x1_0000_0000 } else { v as int }),
{
    let u = v as u32;
    lemma_u32_bytes_value(u);
    assert(u as int == (if v < 0 { v + 0x1_0000_0000 } else { v as int })) by (bit_vector)
        requires
            u == v as u32,
    ;
}

/// An `i64` is written as the eight bytes of its two's-complement value.
pub proof fn lemma_i64_bytes_value(v: i64)
    ensures
        i64_bytes(v) == u64_bytes(if v < 0 { (v + 0x1_0000_0000_0000_0000) as u64 } else { v as u64 }),
{
    let u = v as u64;
    assert(u == (if v < 0 { (v + 0x1_0000_0000_0000_0000) as u64 } else { v as u64 })) by (bit_vector)
        requires
            u == v as u64,
    ;
}

/// An unsigned varint is a run of bytes whose high bit is set on every byte
/// but the last, and whose seven-bit groups, least significant first, make
/// up the value.
pub proof fn lemma_uvarint_bytes_value(v: u64)
    ensures
        1 <= uvarint_bytes(v).len(),
        forall|i: int| 0 <= i < uvarint_bytes(v).len() - 1 ==> uvarint_bytes(v)[i] >= 128,
        uvarint_bytes(v)[uvarint_bytes(v).len() - 1] < 128,
        base128_value(uvarint_bytes(v)) == v,
    decreases v,
{
    let b = uvarint_bytes(v);
    if v < 128 {
        assert(b =~= seq![v as u8]);
        assert(b.drop_first() =~= Seq::<u8>::empty());
        assert(base128_value(b.drop_first()) == 0);
        assert(b[0] == v);
        assert(base128_value(b) == (b[0] % 128) as int + 128 * base128_value(b.drop_first()));
    } else {
        let q = v / 128;
        let r = v % 128;
        lemma_uvarint_bytes_value(q);
        let rest = uvarint_bytes(q);
        assert(b == seq![(r + 128) as u8] + rest);
        assert(b.drop_first() =~= rest);
        assert(b[0] == r + 128);
        assert((b[0] % 128) as int == r);
        assert(base128_value(b) == (b[0] % 128) as int + 128 * base128_value(b.drop_first()));
        assert(v == r + 128 * q) by (nonlinear_arith)
            requires
                q == v / 128,
                r == v % 128,
        ;
        assert forall|i: int| 0 <= i < b.len() - 1 implies b[i] >= 128 by {
            if i > 0 {
                assert(b[i] == rest[i - 1]);
            }
        }
        assert(b[b.len() - 1] == rest[rest.len() - 1]);
    }
}

/// A string is its UTF-8 bytes after their number: that number as two bytes,
/// most significant first, in the classic layout, and as the unsigned varint
/// of the number plus one in the compact layout.
pub proof fn lemma_string_layout(s: Seq<char>, flexible: bool)
    requires
        string_bytes(s, flexible) is Ok,
    ensures
        !flexible ==> string_bytes(s, flexible)->Ok_0 == seq![(encode_utf8(s).len() / 256) as u8, (encode_utf8(s).len() % 256) as u8] + encode_utf8(s),
        flexible ==> string_bytes(s, flexible)->Ok_0 == uvarint_bytes((encode_utf8(s).len() + 1) as u64) + encode_utf8(s),
{
    reveal(string_bytes);
    let n = encode_utf8(s).len();
    if !flexible {
        let x = n as i16;
        lemma_i16_bytes_value(x);
        let b = i16_bytes(x);
        assert(b[0] == n / 256 && b[1] == n % 256);
        assert(b =~= seq![(n / 256) as u8, (n % 256) as u8]);
    }
}

/// A byte blob is its bytes after their number: that number as four bytes,
/// most significant first, in the classic layout, and as the unsigned varint
/// of the number plus one in the compact layout.
pub proof fn lemma_bytes_layout(b: Seq<u8>, flexible: bool)
    requires
        bytes_bytes(b, flexible) is Ok,
    ensures
        !flexible ==> bytes_bytes(b, flexible)->Ok_0 == count32_bytes(b.len()) + b,
        flexible ==> bytes_bytes(b, flexible)->Ok_0 == uvarint_bytes((b.len() + 1) as u64) + b,
{
    reveal(bytes_bytes);
    if !flexible {
        lemma_count32(b.len());
    }
}

/// A non-null array is its items after their number: that number as four
/// bytes, most significant first, in the classic layout, and as the unsigned
/// varint of the number plus one in the compact layout.
pub proof fn lemma_array_layout<T: KafkaCodec>(items: Seq<T::V>, ctx: Ctx)
    requires
        array_bytes::<T>(items, ctx) is Ok,
    ensures
        items_bytes::<T>(items, ctx) is Ok,
        !ctx.flexible ==> array_bytes::<T>(items, ctx)->Ok_0 == count32_bytes(items.len()) + items_bytes::<T>(items, ctx)->Ok_0,
        ctx.flexible ==> array_bytes::<T>(items, ctx)->Ok_0 == uvarint_bytes((items.len() + 1) as u64) + items_bytes::<T>(items, ctx)->Ok_0,
{
    reveal(array_bytes);
    if !ctx.flexible {
        lemma_count32(items.len());
    }
}

/// A null string, byte blob or array is all one bits in its classic length
/// field (two bytes for a string, four otherwise) and a single zero byte in
/// the compact layout.
pub proof fn lemma_null_layout<T: KafkaCodec>(ctx: Ctx)
    ensures
        nullable_string_bytes(None, false) == Ok::<Seq<u8>, crate::serialization::SerializationError>(seq![0xffu8, 0xffu8]),
        nullable_string_bytes(None, true) == Ok::<Seq<u8>, crate::serialization::SerializationError>(seq![0u8]),
        nullable_bytes_bytes(None, false) == Ok::<Seq<u8>, crate::serialization::SerializationError>(seq![0xffu8, 0xffu8, 0xffu8, 0xffu8]),
        nullable_bytes_bytes(None, true) == Ok::<Seq<u8>, crate::serialization::SerializationError>(seq![0u8]),
        nullable_array_bytes::<T>(None, ctx) == Ok::<Seq<u8>, crate::serialization::SerializationError>(
            if ctx.flexible { seq![0u8] } else { seq![0xffu8, 0xffu8, 0xffu8, 0xffu8] }),
{
    reveal(nullable_string_bytes);
    reveal(nullable_bytes_bytes);
    reveal(nullable_array_bytes);
    lemma_i16_bytes_value(-1i16);
    lemma_i32_bytes_value(-1i32);
    assert(i16_bytes(-1i16) =~= seq![0xffu8, 0xffu8]);
    assert(i32_bytes(-1i32) =~= seq![0xffu8, 0xffu8, 0xffu8, 0xffu8]);
    assert(uvarint_bytes(0) =~= seq![0u8]);
}

/// A count of at most 0x7fff_ffff as four bytes, most significant first.
pub open spec fn count32_bytes(n: nat) -> Seq<u8> {
    seq![(n / 0x100_0000) as u8, ((n / 0x1_0000) % 256) as u8, ((n / 0x100) % 256) as u8, (n % 256) as u8]
}

proof fn lemma_count32(n: nat)
    requires
        n <= 0x7fff_ffff,
    ensures
        i32_bytes(n as i32) == count32_bytes(n),
{
    lemma_i32_bytes_value(n as i32);
    let b = i32_bytes(n as i32);
    assert(b[0] * 0x100_0000 + b[1] * 0x1_0000 + b[2] * 0x100 + b[3] == n);
    assert(b[0] == n / 0x100_0000 && b[1] == (n / 0x1_0000) % 256 && b[2] == (n / 0x100) % 256 && b[3] == n % 256);
    assert(b =~= count32_bytes(n));
}

} // verus!
