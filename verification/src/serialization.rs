//! Kafka wire primitives: big-endian integers, unsigned varints, strings,
//! byte blobs, UUIDs and arrays, together with the `KafkaCodec` trait that
//! every message structure implements.
//!
//! Every encoder appends exactly the bytes given by a spec function to the
//! output buffer; every decoder reads from a `Reader` exactly what the
//! corresponding `parse_*` spec function describes.
use vstd::prelude::*;
use vstd::utf8::*;
use crate::roundtrip::{lemma_i32_roundtrip, lemma_i64_roundtrip, lemma_string_roundtrip, lemma_uuid_roundtrip};
use crate::ApiVersion;

verus! {

/// Errors raised while encoding or decoding Kafka messages.
#[derive(Debug, Clone, Copy, PartialEq, Eq)]
pub enum SerializationError {
    /// A message-level encode failure, described by its message.
    Encode(&'static str),
    /// A message-level decode failure, described by its message.
    Decode(&'static str),
    /// A field with a non-default value cannot be written in this version.
    FieldNotAvailable { field: &'static str, version: i16, api_name: &'static str },
    /// A field could not be encoded.
    ValueTooLarge { message: &'static str },
    /// A field could not be decoded.
    Protocol { message: &'static str },
    /// The input ended before the value was complete.
    UnexpectedEof,
    /// A length prefix is negative where no null is allowed, or too large.
    InvalidLength,
    /// String bytes are not valid UTF-8.
    InvalidUtf8,
    /// An unsigned varint is longer than ten bytes or exceeds 64 bits.
    VarintOverflow,
}

/// How a value is laid out on the wire: the API version, whether the
/// compact ("flexible") encodings are in use, and whether the classic
/// struct layout of the pre-flexible encoders is requested.
#[derive(Debug, Clone, Copy, PartialEq, Eq)]
pub struct Ctx {
    pub version: i16,
    pub flexible: bool,
    pub classic: bool,
}

impl Ctx {
    /// Context for a versioned codec.
    pub fn new(version: ApiVersion, flexible: bool) -> (r: Ctx)
        ensures
            r == (Ctx { version: version.0, flexible, classic: false }),
    {
        Ctx { version: version.0, flexible, classic: false }
    }

    /// Context for the classic layout (never compact).
    pub fn classic() -> (r: Ctx)
        ensures
            r == (Ctx { version: 0, flexible: false, classic: true }),
    {
        Ctx { version: 0, flexible: false, classic: true }
    }

    /// Context for the flexible layout chooser.
    pub fn flex(flexible: bool) -> (r: Ctx)
        ensures
            r == (Ctx { version: 0, flexible, classic: false }),
    {
        Ctx { version: 0, flexible, classic: false }
    }
}

/// A read cursor over an owned byte buffer.
pub struct Reader {
    data: Vec<u8>,
    pos: usize,
}

impl Reader {
    /// All bytes of the buffer, consumed or not.
    pub closed spec fn bytes(&self) -> Seq<u8> {
        self.data@
    }

    /// The index of the next unread byte.
    pub closed spec fn pos(&self) -> int {
        self.pos as int
    }

    /// A reader positioned at the start of `data`.
    pub fn new(data: Vec<u8>) -> (r: Reader)
        ensures
            r.bytes() == data@,
            r.pos() == 0,
    {
        Reader { data, pos: 0 }
    }

    /// A reader over a copy of `data`.
    pub fn from_slice(data: &[u8]) -> (r: Reader)
        ensures
            r.bytes() == data@,
            r.pos() == 0,
    {
        let mut v: Vec<u8> = Vec::new();
        put_slice(&mut v, data);
        Reader { data: v, pos: 0 }
    }

    /// Number of bytes not yet read.
    pub fn remaining(&self) -> (r: usize)
        ensures
            r == if self.pos() <= self.bytes().len() { self.bytes().len() - self.pos() } else { 0 },
    {
        if self.pos <= self.data.len() {
            self.data.len() - self.pos
        } else {
            0
        }
    }

    /// Moves the read position to `p`, keeping the bytes.
    pub fn set_position(&mut self, p: usize)
        ensures
            final(self).bytes() == old(self).bytes(),
            final(self).pos() == p,
    {
        self.pos = p;
    }

    /// Index of the next unread byte.
    pub fn position(&self) -> (r: usize)
        ensures
            r == self.pos(),
    {
        self.pos
    }

    /// Reads one byte.
    pub fn get_u8(&mut self) -> (r: Result<u8, SerializationError>)
        ensures
            final(self).bytes() == old(self).bytes(),
            read_ok(r, parse_u8(old(self).bytes(), old(self).pos()), final(self).pos()),
    {
        if self.pos < self.data.len() {
            let b = self.data[self.pos];
            self.pos = self.pos + 1;
            Ok(b)
        } else {
            Err(SerializationError::UnexpectedEof)
        }
    }

    /// Skips `n` bytes.
    pub fn advance(&mut self, n: usize) -> (r: Result<(), SerializationError>)
        ensures
            final(self).bytes() == old(self).bytes(),
            read_ok(r, parse_skip(old(self).bytes(), old(self).pos(), n as int), final(self).pos()),
    {
        if self.pos <= self.data.len() && n <= self.data.len() - self.pos {
            self.pos = self.pos + n;
            Ok(())
        } else {
            Err(SerializationError::UnexpectedEof)
        }
    }

    /// Reads `n` bytes into a fresh vector.
    pub fn take_bytes(&mut self, n: usize) -> (r: Result<Vec<u8>, SerializationError>)
        ensures
            final(self).bytes() == old(self).bytes(),
            read_bytes_ok(r, parse_raw(old(self).bytes(), old(self).pos(), n as int), final(self).pos()),
    {
        if self.pos <= self.data.len() && n <= self.data.len() - self.pos {
            let start = self.pos;
            let out = copy_range(&self.data, start, n);
            self.pos = start + n;
            Ok(out)
        } else {
            Err(SerializationError::UnexpectedEof)
        }
    }
}

/// A copy of `n` bytes of `data` starting at `start`.
fn copy_range(data: &Vec<u8>, start: usize, n: usize) -> (out: Vec<u8>)
    requires
        start + n <= data@.len(),
    ensures
        out@ == data@.subrange(start as int, start + n),
{
    let mut out: Vec<u8> = Vec::new();
    let mut i: usize = 0;
    let len = data.len();
    while i < n
        invariant
            len == data@.len(),
            start + n <= data@.len(),
            i <= n,
            out@ == data@.subrange(start as int, start + i),
        decreases n - i,
    {
        out.push(data[start + i]);
        i = i + 1;
        assert(out@ =~= data@.subrange(start as int, start + i));
    }
    out
}

/// Outcome of a read of raw bytes.
pub open spec fn read_bytes_ok(r: Result<Vec<u8>, SerializationError>, spec: Result<(Seq<u8>, int), SerializationError>, new_pos: int) -> bool {
    match spec {
        Ok((v, p)) => r is Ok && r->Ok_0@ == v && new_pos == p,
        Err(e) => r == Err::<Vec<u8>, SerializationError>(e),
    }
}

/// Outcome of a read of a value of a type without a distinct view.
pub open spec fn read_ok<T>(r: Result<T, SerializationError>, spec: Result<(T, int), SerializationError>, new_pos: int) -> bool {
    match spec {
        Ok((v, p)) => r == Ok::<T, SerializationError>(v) && new_pos == p,
        Err(e) => r == Err::<T, SerializationError>(e),
    }
}

/// Outcome of a read of a value described by its deep view.
pub open spec fn read_view_ok<T: DeepView>(r: Result<T, SerializationError>, spec: Result<(T::V, int), SerializationError>, new_pos: int) -> bool {
    match spec {
        Ok((v, p)) => r is Ok && r->Ok_0.deep_view() == v && new_pos == p,
        Err(e) => r == Err::<T, SerializationError>(e),
    }
}

/// Outcome of a write: on success the buffer grew by exactly the spec bytes;
/// on failure the old contents are still a prefix.
pub open spec fn write_ok(r: Result<(), SerializationError>, before: Seq<u8>, after: Seq<u8>, spec: Result<Seq<u8>, SerializationError>) -> bool {
    match spec {
        Ok(b) => r == Ok::<(), SerializationError>(()) && after =~= before + b,
        Err(e) => r == Err::<(), SerializationError>(e) && before.len() <= after.len() && after.subrange(0, before.len() as int) =~= before,
    }
}

/// Outcome of a write that undoes itself on failure: on success the buffer
/// grew by exactly the spec bytes; on failure it is left as it was.
pub open spec fn write_exact(r: Result<(), SerializationError>, before: Seq<u8>, after: Seq<u8>, spec: Result<Seq<u8>, SerializationError>) -> bool {
    match spec {
        Ok(b) => r == Ok::<(), SerializationError>(()) && after =~= before + b,
        Err(e) => r == Err::<(), SerializationError>(e) && after =~= before,
    }
}

/// Outcome of a read that undoes itself on failure: on success the value's
/// contents and the new position are the spec's; on failure the reader is
/// back where it started.
pub open spec fn read_view_exact<T: DeepView>(r: Result<T, SerializationError>, spec: Result<(T::V, int), SerializationError>, old_pos: int, new_pos: int) -> bool {
    match spec {
        Ok((v, p)) => r is Ok && r->Ok_0.deep_view() == v && new_pos == p,
        Err(e) => r == Err::<T, SerializationError>(e) && new_pos == old_pos,
    }
}

/// One byte at `pos`.
pub open spec fn parse_u8(s: Seq<u8>, pos: int) -> Result<(u8, int), SerializationError> {
    if 0 <= pos < s.len() {
        Ok((s[pos], pos + 1))
    } else {
        Err(SerializationError::UnexpectedEof)
    }
}

/// Skipping `n` bytes from `pos`.
pub open spec fn parse_skip(s: Seq<u8>, pos: int, n: int) -> Result<((), int), SerializationError> {
    if 0 <= pos && 0 <= n && pos + n <= s.len() {
        Ok(((), pos + n))
    } else {
        Err(SerializationError::UnexpectedEof)
    }
}

/// Where a tagged field ends that stands at `pos` and carries a tag other
/// than `known`: its tag and its length read as unsigned varints, then that
/// many bytes. Nothing when the bytes at `pos` hold no such field.
pub open spec fn unknown_tag_end(s: Seq<u8>, pos: int, known: u64) -> Option<int> {
    match parse_uvarint(s, pos) {
        Ok((id, p1)) => if id == known {
            None
        } else {
            match parse_uvarint(s, p1) {
                Ok((len, p2)) => match parse_skip(s, p2, (len as usize) as int) {
                    Ok((_, p3)) => Some(p3),
                    Err(_) => None,
                },
                Err(_) => None,
            }
        },
        Err(_) => None,
    }
}

/// `n` raw bytes from `pos`.
pub open spec fn parse_raw(s: Seq<u8>, pos: int, n: int) -> Result<(Seq<u8>, int), SerializationError> {
    if 0 <= pos && 0 <= n && pos + n <= s.len() {
        Ok((s.subrange(pos, pos + n), pos + n))
    } else {
        Err(SerializationError::UnexpectedEof)
    }
}

/// Appends the bytes of `data` to `buf`.
pub fn put_slice(buf: &mut Vec<u8>, data: &[u8])
    ensures
        final(buf)@ == old(buf)@ + data@,
{
    let ghost start = buf@;
    let mut i: usize = 0;
    while i < data.len()
        invariant
            i <= data@.len(),
            buf@ == start + data@.subrange(0, i as int),
        decreases data.len() - i,
    {
        buf.push(data[i]);
        i = i + 1;
        assert(buf@ =~= start + data@.subrange(0, i as int));
    }
    assert(data@.subrange(0, data@.len() as int) =~= data@);
}


// ---------------------------------------------------------------------
// Fixed-width integers, big-endian.
// ---------------------------------------------------------------------

/// Big-endian bytes of a 16-bit value.
pub open spec fn u16_bytes(x: u16) -> Seq<u8> {
    seq![(x >> 8u16) as u8, x as u8]
}

/// The 16-bit value of two big-endian bytes.
pub open spec fn u16_of(b0: u8, b1: u8) -> u16 {
    ((b0 as u16) << 8u16) | (b1 as u16)
}

/// Big-endian bytes of a 32-bit value.
pub open spec fn u32_bytes(x: u32) -> Seq<u8> {
    seq![(x >> 24u32) as u8, (x >> 16u32) as u8, (x >> 8u32) as u8, x as u8]
}

/// The 32-bit value of four big-endian bytes.
pub open spec fn u32_of(b0: u8, b1: u8, b2: u8, b3: u8) -> u32 {
    ((b0 as u32) << 24u32) | ((b1 as u32) << 16u32) | ((b2 as u32) << 8u32) | (b3 as u32)
}

/// Big-endian bytes of a 64-bit value.
pub open spec fn u64_bytes(x: u64) -> Seq<u8> {
    seq![
        (x >> 56u64) as u8,
        (x >> 48u64) as u8,
        (x >> 40u64) as u8,
        (x >> 32u64) as u8,
        (x >> 24u64) as u8,
        (x >> 16u64) as u8,
        (x >> 8u64) as u8,
        x as u8,
    ]
}

/// The 64-bit value of eight big-endian bytes.
pub open spec fn u64_of(b0: u8, b1: u8, b2: u8, b3: u8, b4: u8, b5: u8, b6: u8, b7: u8) -> u64 {
    ((b0 as u64) << 56u64) | ((b1 as u64) << 48u64) | ((b2 as u64) << 40u64) | ((b3 as u64) << 32u64)
        | ((b4 as u64) << 24u64) | ((b5 as u64) << 16u64) | ((b6 as u64) << 8u64) | (b7 as u64)
}

/// Encoding of an `i8`: its two's-complement byte.
pub open spec fn i8_bytes(v: i8) -> Seq<u8> {
    seq![v as u8]
}

/// Encoding of an `i16`.
pub open spec fn i16_bytes(v: i16) -> Seq<u8> {
    u16_bytes(v as u16)
}

/// Encoding of an `i32`.
pub open spec fn i32_bytes(v: i32) -> Seq<u8> {
    u32_bytes(v as u32)
}

/// Encoding of an `i64`.
pub open spec fn i64_bytes(v: i64) -> Seq<u8> {
    u64_bytes(v as u64)
}

/// Encoding of a `bool`: one byte, 1 or 0.
pub open spec fn bool_bytes(v: bool) -> Seq<u8> {
    seq![if v { 1u8 } else { 0u8 }]
}

#[verifier::opaque]
pub open spec fn parse_i8(s: Seq<u8>, pos: int) -> Result<(i8, int), SerializationError> {
    if 0 <= pos && pos + 1 <= s.len() {
        Ok((s[pos] as i8, pos + 1))
    } else {
        Err(SerializationError::UnexpectedEof)
    }
}

/// Decoding of a `bool`: any non-zero byte is `true`.
#[verifier::opaque]
pub open spec fn parse_bool(s: Seq<u8>, pos: int) -> Result<(bool, int), SerializationError> {
    if 0 <= pos && pos + 1 <= s.len() {
        Ok((s[pos] != 0, pos + 1))
    } else {
        Err(SerializationError::UnexpectedEof)
    }
}

#[verifier::opaque]
pub open spec fn parse_u16(s: Seq<u8>, pos: int) -> Result<(u16, int), SerializationError> {
    if 0 <= pos && pos + 2 <= s.len() {
        Ok((u16_of(s[pos], s[pos + 1]), pos + 2))
    } else {
        Err(SerializationError::UnexpectedEof)
    }
}

#[verifier::opaque]
pub open spec fn parse_i16(s: Seq<u8>, pos: int) -> Result<(i16, int), SerializationError> {
    if 0 <= pos && pos + 2 <= s.len() {
        Ok((u16_of(s[pos], s[pos + 1]) as i16, pos + 2))
    } else {
        Err(SerializationError::UnexpectedEof)
    }
}

#[verifier::opaque]
pub open spec fn parse_u32(s: Seq<u8>, pos: int) -> Result<(u32, int), SerializationError> {
    if 0 <= pos && pos + 4 <= s.len() {
        Ok((u32_of(s[pos], s[pos + 1], s[pos + 2], s[pos + 3]), pos + 4))
    } else {
        Err(SerializationError::UnexpectedEof)
    }
}

#[verifier::opaque]
pub open spec fn parse_i32(s: Seq<u8>, pos: int) -> Result<(i32, int), SerializationError> {
    if 0 <= pos && pos + 4 <= s.len() {
        Ok((u32_of(s[pos], s[pos + 1], s[pos + 2], s[pos + 3]) as i32, pos + 4))
    } else {
        Err(SerializationError::UnexpectedEof)
    }
}

#[verifier::opaque]
pub open spec fn parse_u64(s: Seq<u8>, pos: int) -> Result<(u64, int), SerializationError> {
    if 0 <= pos && pos + 8 <= s.len() {
        Ok((u64_of(s[pos], s[pos + 1], s[pos + 2], s[pos + 3], s[pos + 4], s[pos + 5], s[pos + 6], s[pos + 7]), pos + 8))
    } else {
        Err(SerializationError::UnexpectedEof)
    }
}

#[verifier::opaque]
pub open spec fn parse_i64(s: Seq<u8>, pos: int) -> Result<(i64, int), SerializationError> {
    match parse_u64(s, pos) {
        Ok((u, p)) => Ok((u as i64, p)),
        Err(e) => Err(e),
    }
}

/// Appends an `i8` as one byte.
pub fn put_i8(buf: &mut Vec<u8>, v: i8)
    ensures
        final(buf)@ == old(buf)@ + i8_bytes(v),
{
    buf.push(v as u8);
}

/// Appends a `bool` as the byte 1 or 0.
pub fn put_bool(buf: &mut Vec<u8>, v: bool)
    ensures
        final(buf)@ == old(buf)@ + bool_bytes(v),
{
    buf.push(if v { 1u8 } else { 0u8 });
}

/// Appends a `u16`, big-endian.
pub fn put_u16(buf: &mut Vec<u8>, x: u16)
    ensures
        final(buf)@ == old(buf)@ + u16_bytes(x),
{
    buf.push((x >> 8u16) as u8);
    buf.push(x as u8);
}

/// Appends an `i16`, big-endian.
pub fn put_i16(buf: &mut Vec<u8>, v: i16)
    ensures
        final(buf)@ == old(buf)@ + i16_bytes(v),
{
    put_u16(buf, v as u16);
}

/// Appends a `u32`, big-endian.
pub fn put_u32(buf: &mut Vec<u8>, x: u32)
    ensures
        final(buf)@ == old(buf)@ + u32_bytes(x),
{
    buf.push((x >> 24u32) as u8);
    buf.push((x >> 16u32) as u8);
    buf.push((x >> 8u32) as u8);
    buf.push(x as u8);
}

/// Appends an `i32`, big-endian.
pub fn put_i32(buf: &mut Vec<u8>, v: i32)
    ensures
        final(buf)@ == old(buf)@ + i32_bytes(v),
{
    put_u32(buf, v as u32);
}

/// Appends a `u64`, big-endian.
pub fn put_u64(buf: &mut Vec<u8>, x: u64)
    ensures
        final(buf)@ == old(buf)@ + u64_bytes(x),
{
    buf.push((x >> 56u64) as u8);
    buf.push((x >> 48u64) as u8);
    buf.push((x >> 40u64) as u8);
    buf.push((x >> 32u64) as u8);
    buf.push((x >> 24u64) as u8);
    buf.push((x >> 16u64) as u8);
    buf.push((x >> 8u64) as u8);
    buf.push(x as u8);
}

/// Appends an `i64`, big-endian.
pub fn put_i64(buf: &mut Vec<u8>, v: i64)
    ensures
        final(buf)@ == old(buf)@ + i64_bytes(v),
{
    put_u64(buf, v as u64);
}

impl Reader {
    pub fn get_i8(&mut self) -> (r: Result<i8, SerializationError>)
        ensures
            final(self).bytes() == old(self).bytes(),
            read_ok(r, parse_i8(old(self).bytes(), old(self).pos()), final(self).pos()),
    {
        proof {
            reveal(parse_i8);
        }
        let b = self.get_u8()?;
        Ok(b as i8)
    }

    pub fn get_bool(&mut self) -> (r: Result<bool, SerializationError>)
        ensures
            final(self).bytes() == old(self).bytes(),
            read_ok(r, parse_bool(old(self).bytes(), old(self).pos()), final(self).pos()),
    {
        proof {
            reveal(parse_bool);
        }
        let b = self.get_u8()?;
        Ok(b != 0)
    }

    pub fn get_u16(&mut self) -> (r: Result<u16, SerializationError>)
        ensures
            final(self).bytes() == old(self).bytes(),
            read_ok(r, parse_u16(old(self).bytes(), old(self).pos()), final(self).pos()),
    {
        proof {
            reveal(parse_u16);
        }
        if self.pos <= self.data.len() && 2 <= self.data.len() - self.pos {
            let p = self.pos;
            let b0 = self.data[p];
            let b1 = self.data[p + 1];
            self.pos = p + 2;
            Ok(((b0 as u16) << 8u16) | (b1 as u16))
        } else {
            Err(SerializationError::UnexpectedEof)
        }
    }

    pub fn get_i16(&mut self) -> (r: Result<i16, SerializationError>)
        ensures
            final(self).bytes() == old(self).bytes(),
            read_ok(r, parse_i16(old(self).bytes(), old(self).pos()), final(self).pos()),
    {
        proof {
            reveal(parse_i16);
            reveal(parse_u16);
        }
        let u = self.get_u16()?;
        Ok(u as i16)
    }

    pub fn get_u32(&mut self) -> (r: Result<u32, SerializationError>)
        ensures
            final(self).bytes() == old(self).bytes(),
            read_ok(r, parse_u32(old(self).bytes(), old(self).pos()), final(self).pos()),
    {
        proof {
            reveal(parse_u32);
        }
        if self.pos <= self.data.len() && 4 <= self.data.len() - self.pos {
            let p = self.pos;
            let b0 = self.data[p];
            let b1 = self.data[p + 1];
            let b2 = self.data[p + 2];
            let b3 = self.data[p + 3];
            self.pos = p + 4;
            Ok(((b0 as u32) << 24u32) | ((b1 as u32) << 16u32) | ((b2 as u32) << 8u32) | (b3 as u32))
        } else {
            Err(SerializationError::UnexpectedEof)
        }
    }

    pub fn get_i32(&mut self) -> (r: Result<i32, SerializationError>)
        ensures
            final(self).bytes() == old(self).bytes(),
            read_ok(r, parse_i32(old(self).bytes(), old(self).pos()), final(self).pos()),
    {
        proof {
            reveal(parse_i32);
            reveal(parse_u32);
        }
        let u = self.get_u32()?;
        Ok(u as i32)
    }

    pub fn get_u64(&mut self) -> (r: Result<u64, SerializationError>)
        ensures
            final(self).bytes() == old(self).bytes(),
            read_ok(r, parse_u64(old(self).bytes(), old(self).pos()), final(self).pos()),
    {
        proof {
            reveal(parse_u64);
        }
        if self.pos <= self.data.len() && 8 <= self.data.len() - self.pos {
            let p = self.pos;
            let b0 = self.data[p];
            let b1 = self.data[p + 1];
            let b2 = self.data[p + 2];
            let b3 = self.data[p + 3];
            let b4 = self.data[p + 4];
            let b5 = self.data[p + 5];
            let b6 = self.data[p + 6];
            let b7 = self.data[p + 7];
            self.pos = p + 8;
            Ok(((b0 as u64) << 56u64) | ((b1 as u64) << 48u64) | ((b2 as u64) << 40u64) | ((b3 as u64) << 32u64)
                | ((b4 as u64) << 24u64) | ((b5 as u64) << 16u64) | ((b6 as u64) << 8u64) | (b7 as u64))
        } else {
            Err(SerializationError::UnexpectedEof)
        }
    }

    pub fn get_i64(&mut self) -> (r: Result<i64, SerializationError>)
        ensures
            final(self).bytes() == old(self).bytes(),
            read_ok(r, parse_i64(old(self).bytes(), old(self).pos()), final(self).pos()),
    {
        proof {
            reveal(parse_i64);
            reveal(parse_u64);
        }
        let u = self.get_u64()?;
        Ok(u as i64)
    }
}


// ---------------------------------------------------------------------
// Unsigned varints: seven bits per byte, least significant group first,
// high bit set on every byte but the last.
// ---------------------------------------------------------------------

/// The varint encoding of `v`.
pub open spec fn uvarint_bytes(v: u64) -> Seq<u8>
    decreases v,
{
    if v < 128 {
        seq![v as u8]
    } else {
        seq![(v % 128 + 128) as u8] + uvarint_bytes(v / 128)
    }
}

/// Powers of 128.
pub open spec fn pow128(n: nat) -> int
    decreases n,
{
    if n == 0 {
        1
    } else {
        128 * pow128((n - 1) as nat)
    }
}

/// Decoding a varint from `pos`, where `count` bytes were already read,
/// `acc` is the value they hold and `scale` the weight of the next group.
/// At most ten bytes are read, and the value must fit in 64 bits.
pub open spec fn parse_uvarint_from(s: Seq<u8>, pos: int, count: nat, acc: int, scale: int) -> Result<(u64, int), SerializationError>
    decreases 10 - count,
{
    if count >= 10 {
        Err(SerializationError::VarintOverflow)
    } else if !(0 <= pos < s.len()) {
        Err(SerializationError::UnexpectedEof)
    } else {
        let b = s[pos];
        let acc2 = acc + (b % 128) * scale;
        if b < 128 {
            if acc2 <= u64::MAX {
                Ok((acc2 as u64, pos + 1))
            } else {
                Err(SerializationError::VarintOverflow)
            }
        } else {
            parse_uvarint_from(s, pos + 1, count + 1, acc2, scale * 128)
        }
    }
}

/// Decoding an unsigned varint at `pos`.
#[verifier::opaque]
pub open spec fn parse_uvarint(s: Seq<u8>, pos: int) -> Result<(u64, int), SerializationError> {
    parse_uvarint_from(s, pos, 0, 0, 1)
}

/// Outcome of a varint read, which also reports how many bytes it took.
pub open spec fn read_varint_ok(r: Result<(u64, usize), SerializationError>, spec: Result<(u64, int), SerializationError>, old_pos: int, new_pos: int) -> bool {
    match spec {
        Ok((v, p)) => r == Ok::<(u64, usize), SerializationError>((v, (p - old_pos) as usize)) && new_pos == p,
        Err(e) => r == Err::<(u64, usize), SerializationError>(e),
    }
}

proof fn lemma_pow128_bound(n: nat)
    requires
        n <= 9,
    ensures
        1 <= pow128(n) <= 0x8000_0000_0000_0000,
{
    lemma_pow128_pos(n);
    lemma_pow128_mono(n, 9);
    reveal_with_fuel(pow128, 10);
}

proof fn lemma_pow128_mono(a: nat, b: nat)
    requires
        a <= b,
    ensures
        pow128(a) <= pow128(b),
    decreases b,
{
    if a < b {
        lemma_pow128_mono(a, (b - 1) as nat);
        lemma_pow128_pos((b - 1) as nat);
    }
}

proof fn lemma_pow128_pos(n: nat)
    ensures
        pow128(n) >= 1,
    decreases n,
{
    if n > 0 {
        lemma_pow128_pos((n - 1) as nat);
    }
}

/// Appends the varint encoding of `v`.
pub fn encode_unsigned_varint(v: u64, buf: &mut Vec<u8>)
    ensures
        final(buf)@ == old(buf)@ + uvarint_bytes(v),
{
    let ghost start = buf@;
    let ghost orig = v;
    let mut x = v;
    while x >= 128
        invariant
            buf@ + uvarint_bytes(x) == start + uvarint_bytes(orig),
        decreases x,
    {
        let ghost before = buf@;
        buf.push((x % 128 + 128) as u8);
        assert(buf@ + uvarint_bytes(x / 128) =~= before + uvarint_bytes(x));
        x = x / 128;
    }
    buf.push(x as u8);
    assert(buf@ =~= start + uvarint_bytes(orig));
}

/// Reads an unsigned varint, returning its value and the number of bytes it took.
pub fn decode_unsigned_varint(buf: &mut Reader) -> (r: Result<(u64, usize), SerializationError>)
    ensures
        final(buf).bytes() == old(buf).bytes(),
        read_varint_ok(r, parse_uvarint(old(buf).bytes(), old(buf).pos()), old(buf).pos(), final(buf).pos()),
{
    proof {
        reveal(parse_uvarint);
    }
    let start = buf.pos;
    let ghost s = buf.data@;
    let mut count: usize = 0;
    let mut acc: u128 = 0;
    let mut scale: u128 = 1;
    loop
        invariant
            buf.data@ == s,
            s == old(buf).bytes(),
            start == old(buf).pos(),
            count <= 9,
            buf.pos == start + count,
            scale == pow128(count as nat),
            acc < scale,
            parse_uvarint(s, start as int) == parse_uvarint_from(s, buf.pos as int, count as nat, acc as int, scale as int),
        decreases 10 - count,
    {
        proof {
            lemma_pow128_bound(count as nat);
        }
        if buf.pos >= buf.data.len() {
            return Err(SerializationError::UnexpectedEof);
        }
        let b = buf.data[buf.pos];
        buf.pos = buf.pos + 1;
        let low = (b % 128) as u128;
        assert(low * scale <= 127 * scale) by (nonlinear_arith)
            requires
                low <= 127,
        ;
        acc = acc + low * scale;
        if b < 128 {
            if acc <= 0xffff_ffff_ffff_ffffu128 {
                return Ok((acc as u64, count + 1));
            } else {
                return Err(SerializationError::VarintOverflow);
            }
        }
        if count + 1 >= 10 {
            proof {
                reveal_with_fuel(parse_uvarint_from, 2);
            }
            return Err(SerializationError::VarintOverflow);
        }
        count = count + 1;
        scale = scale * 128;
    }
}


// ---------------------------------------------------------------------
// Strings and byte blobs.
//
// Classic strings carry an INT16 length, classic byte blobs and arrays an
// INT32 length; compact (flexible) ones carry the length plus one as an
// unsigned varint. A null is length -1 (classic) or 0 (compact).
// ---------------------------------------------------------------------

/// Length prefix of a classic string (INT16) or a compact one (varint of n + 1).
pub open spec fn str_len_bytes(n: nat, flexible: bool) -> Seq<u8> {
    if flexible {
        uvarint_bytes((n + 1) as u64)
    } else {
        i16_bytes(n as i16)
    }
}

/// Largest byte length a string can have in the given layout.
pub open spec fn max_str_len(flexible: bool) -> int {
    if flexible { 0x7fff_fffe } else { 0x7fff }
}

/// Encoding of a non-null string.
#[verifier::opaque]
pub open spec fn string_bytes(s: Seq<char>, flexible: bool) -> Result<Seq<u8>, SerializationError> {
    let b = encode_utf8(s);
    if b.len() <= max_str_len(flexible) {
        Ok(str_len_bytes(b.len(), flexible) + b)
    } else {
        Err(SerializationError::ValueTooLarge { message: "string too long" })
    }
}

/// Encoding of a nullable string.
#[verifier::opaque]
pub open spec fn nullable_string_bytes(s: Option<Seq<char>>, flexible: bool) -> Result<Seq<u8>, SerializationError> {
    match s {
        None => Ok(if flexible { uvarint_bytes(0) } else { i16_bytes(-1i16) }),
        Some(v) => string_bytes(v, flexible),
    }
}

/// Length prefix of a classic byte blob or array (INT32) or a compact one.
pub open spec fn len32_bytes(n: nat, flexible: bool) -> Seq<u8> {
    if flexible {
        uvarint_bytes((n + 1) as u64)
    } else {
        i32_bytes(n as i32)
    }
}

/// Largest length a byte blob or array can have.
pub const MAX_LEN32: usize = 0x7fff_fffe;

/// Encoding of a non-null byte blob.
#[verifier::opaque]
pub open spec fn bytes_bytes(b: Seq<u8>, flexible: bool) -> Result<Seq<u8>, SerializationError> {
    if b.len() <= MAX_LEN32 {
        Ok(len32_bytes(b.len(), flexible) + b)
    } else {
        Err(SerializationError::ValueTooLarge { message: "bytes too long" })
    }
}

/// Encoding of a nullable byte blob.
#[verifier::opaque]
pub open spec fn nullable_bytes_bytes(b: Option<Seq<u8>>, flexible: bool) -> Result<Seq<u8>, SerializationError> {
    match b {
        None => Ok(if flexible { uvarint_bytes(0) } else { i32_bytes(-1i32) }),
        Some(v) => bytes_bytes(v, flexible),
    }
}

/// Decoding a length prefix: `Some(n)` for a length, `None` for the null marker.
/// A classic length below -1 is invalid.
pub open spec fn parse_len16(s: Seq<u8>, pos: int, flexible: bool) -> Result<(Option<nat>, int), SerializationError> {
    if flexible {
        match parse_uvarint(s, pos) {
            Ok((n, p)) => Ok((if n == 0 { None } else { Some((n - 1) as nat) }, p)),
            Err(e) => Err(e),
        }
    } else {
        match parse_i16(s, pos) {
            Ok((n, p)) => if n == -1 {
                Ok((None, p))
            } else if n < 0 {
                Err(SerializationError::InvalidLength)
            } else {
                Ok((Some(n as nat), p))
            },
            Err(e) => Err(e),
        }
    }
}

/// Decoding an INT32 (classic) or varint (compact) length prefix.
pub open spec fn parse_len32(s: Seq<u8>, pos: int, flexible: bool) -> Result<(Option<nat>, int), SerializationError> {
    if flexible {
        match parse_uvarint(s, pos) {
            Ok((n, p)) => Ok((if n == 0 { None } else { Some((n - 1) as nat) }, p)),
            Err(e) => Err(e),
        }
    } else {
        match parse_i32(s, pos) {
            Ok((n, p)) => if n == -1 {
                Ok((None, p))
            } else if n < 0 {
                Err(SerializationError::InvalidLength)
            } else {
                Ok((Some(n as nat), p))
            },
            Err(e) => Err(e),
        }
    }
}

/// Decoding the UTF-8 payload of a string of `n` bytes.
pub open spec fn parse_utf8(s: Seq<u8>, pos: int, n: nat) -> Result<(Seq<char>, int), SerializationError> {
    match parse_raw(s, pos, n as int) {
        Ok((b, p)) => if valid_utf8(b) {
            Ok((decode_utf8(b), p))
        } else {
            Err(SerializationError::InvalidUtf8)
        },
        Err(e) => Err(e),
    }
}

/// Decoding a nullable string.
#[verifier::opaque]
pub open spec fn parse_nullable_string(s: Seq<u8>, pos: int, flexible: bool) -> Result<(Option<Seq<char>>, int), SerializationError> {
    match parse_len16(s, pos, flexible) {
        Ok((None, p)) => Ok((None, p)),
        Ok((Some(n), p)) => match parse_utf8(s, p, n) {
            Ok((v, q)) => Ok((Some(v), q)),
            Err(e) => Err(e),
        },
        Err(e) => Err(e),
    }
}

/// Decoding a non-null string: the null marker is an invalid length.
#[verifier::opaque]
pub open spec fn parse_string(s: Seq<u8>, pos: int, flexible: bool) -> Result<(Seq<char>, int), SerializationError> {
    match parse_len16(s, pos, flexible) {
        Ok((None, _)) => Err(SerializationError::InvalidLength),
        Ok((Some(n), p)) => parse_utf8(s, p, n),
        Err(e) => Err(e),
    }
}

/// Decoding a nullable byte blob.
#[verifier::opaque]
pub open spec fn parse_nullable_bytes(s: Seq<u8>, pos: int, flexible: bool) -> Result<(Option<Seq<u8>>, int), SerializationError> {
    match parse_len32(s, pos, flexible) {
        Ok((None, p)) => Ok((None, p)),
        Ok((Some(n), p)) => match parse_raw(s, p, n as int) {
            Ok((v, q)) => Ok((Some(v), q)),
            Err(e) => Err(e),
        },
        Err(e) => Err(e),
    }
}

/// Decoding a non-null byte blob.
#[verifier::opaque]
pub open spec fn parse_bytes(s: Seq<u8>, pos: int, flexible: bool) -> Result<(Seq<u8>, int), SerializationError> {
    match parse_len32(s, pos, flexible) {
        Ok((None, _)) => Err(SerializationError::InvalidLength),
        Ok((Some(n), p)) => parse_raw(s, p, n as int),
        Err(e) => Err(e),
    }
}

/// Calls `String::from_utf8`, whose documentation says that it succeeds
/// exactly on well-formed UTF-8 and keeps the bytes as the string's contents;
/// the contract states this with vstd's model of UTF-8.
#[verifier::external_body]
fn string_from_utf8(bytes: Vec<u8>) -> (r: Option<String>)
    ensures
        r is Some <==> valid_utf8(bytes@),
        r matches Some(st) ==> st@ == decode_utf8(bytes@),
{
    String::from_utf8(bytes).ok()
}

/// Writes a length prefix for a string.
fn put_str_len(buf: &mut Vec<u8>, n: usize, flexible: bool)
    requires
        n <= max_str_len(flexible),
    ensures
        final(buf)@ == old(buf)@ + str_len_bytes(n as nat, flexible),
{
    if flexible {
        encode_unsigned_varint((n + 1) as u64, buf);
    } else {
        put_i16(buf, n as i16);
    }
}

/// Writes an INT32 or varint length prefix.
pub(crate) fn put_len32(buf: &mut Vec<u8>, n: usize, flexible: bool)
    requires
        n <= MAX_LEN32,
    ensures
        final(buf)@ == old(buf)@ + len32_bytes(n as nat, flexible),
{
    if flexible {
        encode_unsigned_varint((n + 1) as u64, buf);
    } else {
        put_i32(buf, n as i32);
    }
}

/// Writes a non-null string.
pub fn encode_string(v: &String, buf: &mut Vec<u8>, flexible: bool) -> (r: Result<(), SerializationError>)
    ensures
        write_ok(r, old(buf)@, final(buf)@, string_bytes(v@, flexible)),
{
    proof {
        reveal(string_bytes);
    }
    let b = v.as_str().as_bytes();
    let limit: usize = if flexible { 0x7fff_fffe } else { 0x7fff };
    if b.len() <= limit {
        put_str_len(buf, b.len(), flexible);
        put_slice(buf, b);
        Ok(())
    } else {
        Err(SerializationError::ValueTooLarge { message: "string too long" })
    }
}

/// Writes a nullable string.
pub fn encode_nullable_string(v: &Option<String>, buf: &mut Vec<u8>, flexible: bool) -> (r: Result<(), SerializationError>)
    ensures
        write_ok(r, old(buf)@, final(buf)@, nullable_string_bytes(v.deep_view(), flexible)),
{
    proof {
        reveal(nullable_string_bytes);
        reveal(string_bytes);
    }
    match v {
        None => {
            if flexible {
                encode_unsigned_varint(0, buf);
            } else {
                put_i16(buf, -1);
            }
            Ok(())
        },
        Some(s) => encode_string(s, buf, flexible),
    }
}

/// Writes a non-null byte blob.
pub fn encode_bytes(v: &Vec<u8>, buf: &mut Vec<u8>, flexible: bool) -> (r: Result<(), SerializationError>)
    ensures
        write_ok(r, old(buf)@, final(buf)@, bytes_bytes(v@, flexible)),
{
    proof {
        reveal(bytes_bytes);
    }
    if v.len() <= 0x7fff_fffe {
        put_len32(buf, v.len(), flexible);
        put_slice(buf, v.as_slice());
        Ok(())
    } else {
        Err(SerializationError::ValueTooLarge { message: "bytes too long" })
    }
}

/// Writes a nullable byte blob.
pub fn encode_nullable_bytes(v: &Option<Vec<u8>>, buf: &mut Vec<u8>, flexible: bool) -> (r: Result<(), SerializationError>)
    ensures
        write_ok(r, old(buf)@, final(buf)@, nullable_bytes_bytes(opt_bytes_view(v), flexible)),
{
    proof {
        reveal(nullable_bytes_bytes);
        reveal(bytes_bytes);
    }
    match v {
        None => {
            if flexible {
                encode_unsigned_varint(0, buf);
            } else {
                put_i32(buf, -1);
            }
            Ok(())
        },
        Some(b) => encode_bytes(b, buf, flexible),
    }
}

/// The contents of an optional byte blob.
pub open spec fn opt_bytes_view(v: &Option<Vec<u8>>) -> Option<Seq<u8>> {
    match v {
        Some(b) => Some(b@),
        None => None,
    }
}

/// Outcome of reading an optional byte blob.
pub open spec fn read_opt_bytes_ok(r: Result<Option<Vec<u8>>, SerializationError>, spec: Result<(Option<Seq<u8>>, int), SerializationError>, new_pos: int) -> bool {
    match spec {
        Ok((v, p)) => r is Ok && opt_bytes_view(&r->Ok_0) == v && new_pos == p,
        Err(e) => r == Err::<Option<Vec<u8>>, SerializationError>(e),
    }
}

/// Outcome of reading a length prefix.
pub open spec fn read_len_ok(r: Result<Option<u64>, SerializationError>, spec: Result<(Option<nat>, int), SerializationError>, new_pos: int) -> bool {
    match spec {
        Ok((n, p)) => r is Ok && new_pos == p && match n {
            None => r->Ok_0 is None,
            Some(k) => r->Ok_0 == Some(k as u64) && k <= u64::MAX,
        },
        Err(e) => r == Err::<Option<u64>, SerializationError>(e),
    }
}

/// Outcome of reading a value of a type viewed as itself.
pub open spec fn read_opt_str_ok(r: Result<Option<String>, SerializationError>, spec: Result<(Option<Seq<char>>, int), SerializationError>, new_pos: int) -> bool {
    match spec {
        Ok((v, p)) => r is Ok && r->Ok_0.deep_view() == v && new_pos == p,
        Err(e) => r == Err::<Option<String>, SerializationError>(e),
    }
}

/// Outcome of reading a string.
pub open spec fn read_str_ok(r: Result<String, SerializationError>, spec: Result<(Seq<char>, int), SerializationError>, new_pos: int) -> bool {
    match spec {
        Ok((v, p)) => r is Ok && r->Ok_0@ == v && new_pos == p,
        Err(e) => r == Err::<String, SerializationError>(e),
    }
}

impl Reader {
    /// Reads a string length prefix.
    pub fn get_len16(&mut self, flexible: bool) -> (r: Result<Option<u64>, SerializationError>)
        ensures
            final(self).bytes() == old(self).bytes(),
            read_len_ok(r, parse_len16(old(self).bytes(), old(self).pos(), flexible), final(self).pos()),
    {
        if flexible {
            let (n, _) = decode_unsigned_varint(self)?;
            if n == 0 {
                Ok(None)
            } else {
                Ok(Some(n - 1))
            }
        } else {
            let n = self.get_i16()?;
            if n == -1 {
                Ok(None)
            } else if n < 0 {
                Err(SerializationError::InvalidLength)
            } else {
                Ok(Some(n as u64))
            }
        }
    }

    /// Reads a byte-blob or array length prefix.
    pub fn get_len32(&mut self, flexible: bool) -> (r: Result<Option<u64>, SerializationError>)
        ensures
            final(self).bytes() == old(self).bytes(),
            read_len_ok(r, parse_len32(old(self).bytes(), old(self).pos(), flexible), final(self).pos()),
    {
        if flexible {
            let (n, _) = decode_unsigned_varint(self)?;
            if n == 0 {
                Ok(None)
            } else {
                Ok(Some(n - 1))
            }
        } else {
            let n = self.get_i32()?;
            if n == -1 {
                Ok(None)
            } else if n < 0 {
                Err(SerializationError::InvalidLength)
            } else {
                Ok(Some(n as u64))
            }
        }
    }

    /// Reads `n` raw bytes, where `n` may exceed the address space.
    pub fn get_raw(&mut self, n: u64) -> (r: Result<Vec<u8>, SerializationError>)
        ensures
            final(self).bytes() == old(self).bytes(),
            read_bytes_ok(r, parse_raw(old(self).bytes(), old(self).pos(), n as int), final(self).pos()),
    {
        let rem = self.remaining();
        if n > rem as u64 {
            Err(SerializationError::UnexpectedEof)
        } else {
            self.take_bytes(n as usize)
        }
    }

    /// Reads `n` bytes of UTF-8 text.
    fn get_utf8(&mut self, n: u64) -> (r: Result<String, SerializationError>)
        ensures
            final(self).bytes() == old(self).bytes(),
            read_str_ok(r, parse_utf8(old(self).bytes(), old(self).pos(), n as nat), final(self).pos()),
    {
        let b = self.get_raw(n)?;
        match string_from_utf8(b) {
            Some(st) => Ok(st),
            None => Err(SerializationError::InvalidUtf8),
        }
    }

    /// Reads a non-null string.
    pub fn get_string(&mut self, flexible: bool) -> (r: Result<String, SerializationError>)
        ensures
            final(self).bytes() == old(self).bytes(),
            read_str_ok(r, parse_string(old(self).bytes(), old(self).pos(), flexible), final(self).pos()),
    {
        proof {
            reveal(parse_string);
        }
        match self.get_len16(flexible)? {
            None => Err(SerializationError::InvalidLength),
            Some(n) => self.get_utf8(n),
        }
    }

    /// Reads a nullable string.
    pub fn get_nullable_string(&mut self, flexible: bool) -> (r: Result<Option<String>, SerializationError>)
        ensures
            final(self).bytes() == old(self).bytes(),
            read_opt_str_ok(r, parse_nullable_string(old(self).bytes(), old(self).pos(), flexible), final(self).pos()),
    {
        proof {
            reveal(parse_nullable_string);
        }
        match self.get_len16(flexible)? {
            None => Ok(None),
            Some(n) => {
                let st = self.get_utf8(n)?;
                Ok(Some(st))
            },
        }
    }

    /// Reads a non-null byte blob.
    pub fn get_bytes(&mut self, flexible: bool) -> (r: Result<Vec<u8>, SerializationError>)
        ensures
            final(self).bytes() == old(self).bytes(),
            read_bytes_ok(r, parse_bytes(old(self).bytes(), old(self).pos(), flexible), final(self).pos()),
    {
        proof {
            reveal(parse_bytes);
        }
        match self.get_len32(flexible)? {
            None => Err(SerializationError::InvalidLength),
            Some(n) => self.get_raw(n),
        }
    }

    /// Reads a nullable byte blob.
    pub fn get_nullable_bytes(&mut self, flexible: bool) -> (r: Result<Option<Vec<u8>>, SerializationError>)
        ensures
            final(self).bytes() == old(self).bytes(),
            read_opt_bytes_ok(r, parse_nullable_bytes(old(self).bytes(), old(self).pos(), flexible), final(self).pos()),
    {
        proof {
            reveal(parse_nullable_bytes);
        }
        match self.get_len32(flexible)? {
            None => Ok(None),
            Some(n) => {
                let b = self.get_raw(n)?;
                Ok(Some(b))
            },
        }
    }
}


// ---------------------------------------------------------------------
// UUIDs: sixteen raw bytes.
// ---------------------------------------------------------------------

/// The all-zero identifier, used where a version has no identifier field.
pub open spec fn zero_uuid_bytes() -> Seq<u8> {
    Seq::new(16, |i: int| 0u8)
}

/// Returns the all-zero identifier.
pub fn zero_uuid() -> (r: [u8; 16])
    ensures
        r@ == zero_uuid_bytes(),
{
    let r = [0u8; 16];
    proof {
        broadcast use vstd::array::group_array_axioms;

        assert(r == vstd::array::spec_array_fill_for_copy_type::<u8, 16>(0u8));
        assert(r@.len() == 16);
        assert(r@ =~= zero_uuid_bytes());
    }
    r
}

/// Appends the sixteen bytes of an identifier.
pub fn encode_uuid(v: &[u8; 16], buf: &mut Vec<u8>)
    ensures
        final(buf)@ == old(buf)@ + v@,
{
    put_slice(buf, v.as_slice());
}

impl Reader {
    /// Reads sixteen raw bytes.
    pub fn get_uuid(&mut self) -> (r: Result<[u8; 16], SerializationError>)
        ensures
            final(self).bytes() == old(self).bytes(),
            match parse_raw(old(self).bytes(), old(self).pos(), 16) {
                Ok((v, p)) => r is Ok && r->Ok_0@ == v && final(self).pos() == p,
                Err(e) => r == Err::<[u8; 16], SerializationError>(e),
            },
    {
        if self.pos <= self.data.len() && 16 <= self.data.len() - self.pos {
            let p = self.pos;
            let len = self.data.len();
            let mut out = [0u8; 16];
            let mut i: usize = 0;
            while i < 16
                invariant
                    len == self.data@.len(),
                    self.data@ == old(self).bytes(),
                    p == old(self).pos(),
                    p + 16 <= self.data@.len(),
                    i <= 16,
                    forall|j: int| 0 <= j < i ==> out@[j] == self.data@[p + j],
                decreases 16 - i,
            {
                out[i] = self.data[p + i];
                i = i + 1;
            }
            assert(out@ =~= self.data@.subrange(p as int, p + 16));
            self.pos = p + 16;
            Ok(out)
        } else {
            Err(SerializationError::UnexpectedEof)
        }
    }
}

// ---------------------------------------------------------------------
// The codec trait and arrays.
// ---------------------------------------------------------------------

/// Sequencing of two encodings: the first error wins.
pub open spec fn then(a: Result<Seq<u8>, SerializationError>, b: Result<Seq<u8>, SerializationError>) -> Result<Seq<u8>, SerializationError> {
    match a {
        Ok(x) => match b {
            Ok(y) => Ok(x + y),
            Err(e) => Err(e),
        },
        Err(e) => Err(e),
    }
}

/// A value with a Kafka wire encoding that depends on the context.
pub trait KafkaCodec: Sized + DeepView {
    /// The bytes that encode the value with the given view.
    spec fn spec_encode(v: <Self as DeepView>::V, ctx: Ctx) -> Result<Seq<u8>, SerializationError>;

    /// The value read from `s` at `pos`, and the position after it.
    spec fn spec_decode(s: Seq<u8>, pos: int, ctx: Ctx) -> Result<(<Self as DeepView>::V, int), SerializationError>;

    /// Values that read back unchanged from their encoding in `ctx`.
    spec fn reads_back(v: <Self as DeepView>::V, ctx: Ctx) -> bool;

    /// A value that reads back and can be written: decoding its encoding,
    /// wherever it stands in a buffer, gives the value back and the
    /// position just after the encoding.
    proof fn lemma_read_back(pre: Seq<u8>, v: <Self as DeepView>::V, post: Seq<u8>, ctx: Ctx)
        requires
            Self::spec_encode(v, ctx) is Ok,
            Self::reads_back(v, ctx),
        ensures
            Self::spec_decode(pre + Self::spec_encode(v, ctx)->Ok_0 + post, pre.len() as int, ctx)
                == Ok::<(<Self as DeepView>::V, int), SerializationError>(
                (v, pre.len() as int + Self::spec_encode(v, ctx)->Ok_0.len()),
            ),
    ;

    fn encode_ctx(&self, buf: &mut Vec<u8>, ctx: Ctx) -> (r: Result<(), SerializationError>)
        ensures
            write_ok(r, old(buf)@, final(buf)@, Self::spec_encode(self.deep_view(), ctx)),
    ;

    fn decode_ctx(buf: &mut Reader, ctx: Ctx) -> (r: Result<Self, SerializationError>)
        ensures
            final(buf).bytes() == old(buf).bytes(),
            read_view_ok(r, Self::spec_decode(old(buf).bytes(), old(buf).pos(), ctx), final(buf).pos()),
    ;
}

impl KafkaCodec for i32 {
    open spec fn spec_encode(v: i32, ctx: Ctx) -> Result<Seq<u8>, SerializationError> {
        Ok(i32_bytes(v))
    }

    open spec fn spec_decode(s: Seq<u8>, pos: int, ctx: Ctx) -> Result<(i32, int), SerializationError> {
        parse_i32(s, pos)
    }

    open spec fn reads_back(v: i32, ctx: Ctx) -> bool {
        true
    }

    proof fn lemma_read_back(pre: Seq<u8>, v: i32, post: Seq<u8>, ctx: Ctx) {
        lemma_i32_roundtrip(pre, v, post);
    }

    fn encode_ctx(&self, buf: &mut Vec<u8>, ctx: Ctx) -> (r: Result<(), SerializationError>) {
        put_i32(buf, *self);
        Ok(())
    }

    fn decode_ctx(buf: &mut Reader, ctx: Ctx) -> (r: Result<i32, SerializationError>) {
        buf.get_i32()
    }
}

impl KafkaCodec for i64 {
    open spec fn spec_encode(v: i64, ctx: Ctx) -> Result<Seq<u8>, SerializationError> {
        Ok(i64_bytes(v))
    }

    open spec fn spec_decode(s: Seq<u8>, pos: int, ctx: Ctx) -> Result<(i64, int), SerializationError> {
        parse_i64(s, pos)
    }

    open spec fn reads_back(v: i64, ctx: Ctx) -> bool {
        true
    }

    proof fn lemma_read_back(pre: Seq<u8>, v: i64, post: Seq<u8>, ctx: Ctx) {
        lemma_i64_roundtrip(pre, v, post);
    }

    fn encode_ctx(&self, buf: &mut Vec<u8>, ctx: Ctx) -> (r: Result<(), SerializationError>) {
        put_i64(buf, *self);
        Ok(())
    }

    fn decode_ctx(buf: &mut Reader, ctx: Ctx) -> (r: Result<i64, SerializationError>) {
        buf.get_i64()
    }
}

impl KafkaCodec for String {
    open spec fn spec_encode(v: Seq<char>, ctx: Ctx) -> Result<Seq<u8>, SerializationError> {
        string_bytes(v, ctx.flexible)
    }

    open spec fn spec_decode(s: Seq<u8>, pos: int, ctx: Ctx) -> Result<(Seq<char>, int), SerializationError> {
        parse_string(s, pos, ctx.flexible)
    }

    open spec fn reads_back(v: Seq<char>, ctx: Ctx) -> bool {
        true
    }

    proof fn lemma_read_back(pre: Seq<u8>, v: Seq<char>, post: Seq<u8>, ctx: Ctx) {
        lemma_string_roundtrip(pre, v, post, ctx.flexible);
    }

    fn encode_ctx(&self, buf: &mut Vec<u8>, ctx: Ctx) -> (r: Result<(), SerializationError>) {
        encode_string(self, buf, ctx.flexible)
    }

    fn decode_ctx(buf: &mut Reader, ctx: Ctx) -> (r: Result<String, SerializationError>) {
        buf.get_string(ctx.flexible)
    }
}

impl KafkaCodec for [u8; 16] {
    open spec fn spec_encode(v: Seq<u8>, ctx: Ctx) -> Result<Seq<u8>, SerializationError> {
        Ok(v)
    }

    open spec fn spec_decode(s: Seq<u8>, pos: int, ctx: Ctx) -> Result<(Seq<u8>, int), SerializationError> {
        parse_raw(s, pos, 16)
    }

    /// Every identifier has sixteen bytes.
    open spec fn reads_back(v: Seq<u8>, ctx: Ctx) -> bool {
        v.len() == 16
    }

    proof fn lemma_read_back(pre: Seq<u8>, v: Seq<u8>, post: Seq<u8>, ctx: Ctx) {
        lemma_uuid_roundtrip(pre, v, post);
    }

    fn encode_ctx(&self, buf: &mut Vec<u8>, ctx: Ctx) -> (r: Result<(), SerializationError>) {
        proof {
            assert(self.deep_view() =~= self@);
        }
        encode_uuid(self, buf);
        Ok(())
    }

    fn decode_ctx(buf: &mut Reader, ctx: Ctx) -> (r: Result<[u8; 16], SerializationError>) {
        let u = buf.get_uuid()?;
        proof {
            assert(u.deep_view() =~= u@);
        }
        Ok(u)
    }
}

/// Concatenated encodings of the items, in order.
pub open spec fn items_bytes<T: KafkaCodec>(items: Seq<T::V>, ctx: Ctx) -> Result<Seq<u8>, SerializationError>
    decreases items.len(),
{
    if items.len() == 0 {
        Ok(Seq::empty())
    } else {
        then(items_bytes::<T>(items.drop_last(), ctx), T::spec_encode(items.last(), ctx))
    }
}

/// Encoding of a non-null array: its length, then its items.
#[verifier::opaque]
pub open spec fn array_bytes<T: KafkaCodec>(items: Seq<T::V>, ctx: Ctx) -> Result<Seq<u8>, SerializationError> {
    if items.len() <= MAX_LEN32 {
        then(Ok(len32_bytes(items.len(), ctx.flexible)), items_bytes::<T>(items, ctx))
    } else {
        Err(SerializationError::ValueTooLarge { message: "array too long" })
    }
}

/// Encoding of a nullable array.
#[verifier::opaque]
pub open spec fn nullable_array_bytes<T: KafkaCodec>(items: Option<Seq<T::V>>, ctx: Ctx) -> Result<Seq<u8>, SerializationError> {
    match items {
        None => Ok(if ctx.flexible { uvarint_bytes(0) } else { i32_bytes(-1i32) }),
        Some(v) => array_bytes::<T>(v, ctx),
    }
}

/// Decoding `n` consecutive items from `pos`.
pub open spec fn parse_items<T: KafkaCodec>(s: Seq<u8>, pos: int, n: nat, ctx: Ctx) -> Result<(Seq<T::V>, int), SerializationError>
    decreases n,
{
    if n == 0 {
        Ok((Seq::empty(), pos))
    } else {
        match parse_items::<T>(s, pos, (n - 1) as nat, ctx) {
            Ok((xs, p)) => match T::spec_decode(s, p, ctx) {
                Ok((x, q)) => Ok((xs.push(x), q)),
                Err(e) => Err(e),
            },
            Err(e) => Err(e),
        }
    }
}

/// Decoding a non-null array: a null length is invalid.
#[verifier::opaque]
pub open spec fn parse_array<T: KafkaCodec>(s: Seq<u8>, pos: int, ctx: Ctx) -> Result<(Seq<T::V>, int), SerializationError> {
    match parse_len32(s, pos, ctx.flexible) {
        Ok((None, _)) => Err(SerializationError::InvalidLength),
        Ok((Some(n), p)) => parse_items::<T>(s, p, n, ctx),
        Err(e) => Err(e),
    }
}

/// Decoding a nullable array.
#[verifier::opaque]
pub open spec fn parse_nullable_array<T: KafkaCodec>(s: Seq<u8>, pos: int, ctx: Ctx) -> Result<(Option<Seq<T::V>>, int), SerializationError> {
    match parse_len32(s, pos, ctx.flexible) {
        Ok((None, p)) => Ok((None, p)),
        Ok((Some(n), p)) => match parse_items::<T>(s, p, n, ctx) {
            Ok((xs, q)) => Ok((Some(xs), q)),
            Err(e) => Err(e),
        },
        Err(e) => Err(e),
    }
}

proof fn lemma_items_bytes_agree<T: KafkaCodec>(items: Seq<T::V>, c1: Ctx, c2: Ctx)
    requires
        forall|i: int| 0 <= i < items.len() ==> T::spec_encode(#[trigger] items[i], c1) == T::spec_encode(items[i], c2),
    ensures
        items_bytes::<T>(items, c1) == items_bytes::<T>(items, c2),
    decreases items.len(),
{
    if items.len() > 0 {
        let init = items.drop_last();
        assert forall|i: int| 0 <= i < init.len() implies T::spec_encode(#[trigger] init[i], c1) == T::spec_encode(init[i], c2) by {
            assert(init[i] == items[i]);
        }
        lemma_items_bytes_agree::<T>(init, c1, c2);
        assert(items.last() == items[items.len() - 1]);
    }
}

/// Two contexts that agree on the compact encodings, and in which every item
/// is written alike, write an array alike, null or not.
pub proof fn lemma_array_bytes_agree<T: KafkaCodec>(items: Seq<T::V>, c1: Ctx, c2: Ctx)
    requires
        c1.flexible == c2.flexible,
        forall|i: int| 0 <= i < items.len() ==> T::spec_encode(#[trigger] items[i], c1) == T::spec_encode(items[i], c2),
    ensures
        array_bytes::<T>(items, c1) == array_bytes::<T>(items, c2),
        nullable_array_bytes::<T>(Some(items), c1) == nullable_array_bytes::<T>(Some(items), c2),
        nullable_array_bytes::<T>(None, c1) == nullable_array_bytes::<T>(None, c2),
{
    reveal(array_bytes);
    reveal(nullable_array_bytes);
    lemma_items_bytes_agree::<T>(items, c1, c2);
}

proof fn lemma_parse_items_agree<T: KafkaCodec>(s: Seq<u8>, pos: int, n: nat, c1: Ctx, c2: Ctx)
    requires
        forall|p: int| #[trigger] T::spec_decode(s, p, c1) == T::spec_decode(s, p, c2),
    ensures
        parse_items::<T>(s, pos, n, c1) == parse_items::<T>(s, pos, n, c2),
    decreases n,
{
    if n > 0 {
        lemma_parse_items_agree::<T>(s, pos, (n - 1) as nat, c1, c2);
    }
}

/// Two contexts that agree on the compact encodings, and in which every item
/// is read alike, read an array alike, null or not, wherever it stands.
pub proof fn lemma_parse_array_agree<T: KafkaCodec>(s: Seq<u8>, c1: Ctx, c2: Ctx)
    requires
        c1.flexible == c2.flexible,
        forall|p: int| #[trigger] T::spec_decode(s, p, c1) == T::spec_decode(s, p, c2),
    ensures
        forall|pos: int| #[trigger] parse_array::<T>(s, pos, c1) == parse_array::<T>(s, pos, c2),
        forall|pos: int| #[trigger] parse_nullable_array::<T>(s, pos, c1) == parse_nullable_array::<T>(s, pos, c2),
{
    reveal(parse_array);
    reveal(parse_nullable_array);
    assert forall|pos: int| #[trigger] parse_array::<T>(s, pos, c1) == parse_array::<T>(s, pos, c2) by {
        if let Ok((Some(n), p)) = parse_len32(s, pos, c1.flexible) {
            lemma_parse_items_agree::<T>(s, p, n, c1, c2);
        }
    }
    assert forall|pos: int| #[trigger] parse_nullable_array::<T>(s, pos, c1) == parse_nullable_array::<T>(s, pos, c2) by {
        if let Ok((Some(n), p)) = parse_len32(s, pos, c1.flexible) {
            lemma_parse_items_agree::<T>(s, p, n, c1, c2);
        }
    }
}

proof fn lemma_items_bytes_err<T: KafkaCodec>(items: Seq<T::V>, i: int, j: int, ctx: Ctx, e: SerializationError)
    requires
        0 <= i <= j <= items.len(),
        items_bytes::<T>(items.take(i), ctx) == Err::<Seq<u8>, SerializationError>(e),
    ensures
        items_bytes::<T>(items.take(j), ctx) == Err::<Seq<u8>, SerializationError>(e),
    decreases j - i,
{
    if j > i {
        lemma_items_bytes_err::<T>(items, i, j - 1, ctx, e);
        assert(items.take(j).drop_last() =~= items.take(j - 1));
    }
}

proof fn lemma_parse_items_err<T: KafkaCodec>(s: Seq<u8>, pos: int, i: nat, n: nat, ctx: Ctx, e: SerializationError)
    requires
        i <= n,
        parse_items::<T>(s, pos, i, ctx) == Err::<(Seq<T::V>, int), SerializationError>(e),
    ensures
        parse_items::<T>(s, pos, n, ctx) == Err::<(Seq<T::V>, int), SerializationError>(e),
    decreases n - i,
{
    if n > i {
        lemma_parse_items_err::<T>(s, pos, i, (n - 1) as nat, ctx, e);
    }
}

/// Writes the items of `v` one after the other, without a length.
fn encode_items<T: KafkaCodec>(v: &Vec<T>, buf: &mut Vec<u8>, ctx: Ctx) -> (r: Result<(), SerializationError>)
    ensures
        write_ok(r, old(buf)@, final(buf)@, items_bytes::<T>(v.deep_view(), ctx)),
{
    let ghost start = buf@;
    let ghost items = v.deep_view();
    let ghost mut written: Seq<u8> = Seq::empty();
    let mut i: usize = 0;
    assert(items.take(0) =~= Seq::<T::V>::empty());
    assert(buf@ =~= start + written);
    while i < v.len()
        invariant
            start == old(buf)@,
            items == v.deep_view(),
            items.len() == v@.len(),
            i <= v@.len(),
            buf@ =~= start + written,
            items_bytes::<T>(items.take(i as int), ctx) == Ok::<Seq<u8>, SerializationError>(written),
        decreases v.len() - i,
    {
        let ghost before = buf@;
        assert(items.take(i + 1).drop_last() =~= items.take(i as int));
        assert(items.take(i + 1).last() == v@[i as int].deep_view());
        match v[i].encode_ctx(buf, ctx) {
            Ok(()) => {
                proof {
                    let x = T::spec_encode(v@[i as int].deep_view(), ctx)->Ok_0;
                    assert(buf@ =~= before + x);
                    written = written + x;
                }
            },
            Err(e) => {
                proof {
                    assert(items_bytes::<T>(items.take(i + 1), ctx) == Err::<Seq<u8>, SerializationError>(e));
                    lemma_items_bytes_err::<T>(items, i + 1, items.len() as int, ctx, e);
                    assert(items.take(items.len() as int) =~= items);
                    assert(buf@.subrange(0, before.len() as int) =~= before);
                    assert(buf@.subrange(0, start.len() as int) =~= before.subrange(0, start.len() as int));
                    assert(before.subrange(0, start.len() as int) =~= start);
                }
                return Err(e);
            },
        }
        i = i + 1;
    }
    assert(items.take(items.len() as int) =~= items);
    Ok(())
}

/// Writes a non-null array.
pub fn encode_array<T: KafkaCodec>(v: &Vec<T>, buf: &mut Vec<u8>, ctx: Ctx) -> (r: Result<(), SerializationError>)
    ensures
        write_ok(r, old(buf)@, final(buf)@, array_bytes::<T>(v.deep_view(), ctx)),
{
    proof {
        reveal(array_bytes);
    }
    if v.len() <= MAX_LEN32 {
        put_len32(buf, v.len(), ctx.flexible);
        encode_items(v, buf, ctx)
    } else {
        Err(SerializationError::ValueTooLarge { message: "array too long" })
    }
}

/// Writes a nullable array.
pub fn encode_nullable_array<T: KafkaCodec>(v: &Option<Vec<T>>, buf: &mut Vec<u8>, ctx: Ctx) -> (r: Result<(), SerializationError>)
    ensures
        write_ok(r, old(buf)@, final(buf)@, nullable_array_bytes::<T>(v.deep_view(), ctx)),
{
    proof {
        reveal(nullable_array_bytes);
        reveal(array_bytes);
    }
    match v {
        None => {
            if ctx.flexible {
                encode_unsigned_varint(0, buf);
            } else {
                put_i32(buf, -1);
            }
            Ok(())
        },
        Some(items) => encode_array(items, buf, ctx),
    }
}

/// Reads `n` items.
fn decode_items<T: KafkaCodec>(buf: &mut Reader, n: u64, ctx: Ctx) -> (r: Result<Vec<T>, SerializationError>)
    ensures
        final(buf).bytes() == old(buf).bytes(),
        read_view_ok(r, parse_items::<T>(old(buf).bytes(), old(buf).pos(), n as nat, ctx), final(buf).pos()),
{
    let ghost s = buf.bytes();
    let ghost p0 = buf.pos();
    let mut out: Vec<T> = Vec::new();
    let mut i: u64 = 0;
    assert(out.deep_view() =~= Seq::<T::V>::empty());
    while i < n
        invariant
            buf.bytes() == s,
            s == old(buf).bytes(),
            p0 == old(buf).pos(),
            i <= n,
            parse_items::<T>(s, p0, i as nat, ctx) == Ok::<(Seq<T::V>, int), SerializationError>((out.deep_view(), buf.pos())),
        decreases n - i,
    {
        let ghost before = out.deep_view();
        match T::decode_ctx(buf, ctx) {
            Ok(x) => {
                out.push(x);
                assert(out.deep_view() =~= before.push(x.deep_view()));
            },
            Err(e) => {
                proof {
                    lemma_parse_items_err::<T>(s, p0, (i + 1) as nat, n as nat, ctx, e);
                }
                return Err(e);
            },
        }
        i = i + 1;
    }
    Ok(out)
}

/// Reads a non-null array.
pub fn decode_array<T: KafkaCodec>(buf: &mut Reader, ctx: Ctx) -> (r: Result<Vec<T>, SerializationError>)
    ensures
        final(buf).bytes() == old(buf).bytes(),
        read_view_ok(r, parse_array::<T>(old(buf).bytes(), old(buf).pos(), ctx), final(buf).pos()),
{
    proof {
        reveal(parse_array);
    }
    match buf.get_len32(ctx.flexible)? {
        None => Err(SerializationError::InvalidLength),
        Some(n) => decode_items(buf, n, ctx),
    }
}

/// Reads a nullable array.
pub fn decode_nullable_array<T: KafkaCodec>(buf: &mut Reader, ctx: Ctx) -> (r: Result<Option<Vec<T>>, SerializationError>)
    ensures
        final(buf).bytes() == old(buf).bytes(),
        read_view_ok(r, parse_nullable_array::<T>(old(buf).bytes(), old(buf).pos(), ctx), final(buf).pos()),
{
    proof {
        reveal(parse_nullable_array);
    }
    match buf.get_len32(ctx.flexible)? {
        None => Ok(None),
        Some(n) => {
            let v = decode_items(buf, n, ctx)?;
            Ok(Some(v))
        },
    }
}


// ---------------------------------------------------------------------
// Error mapping and tagged fields.
// ---------------------------------------------------------------------

/// An encoding whose failure, whatever it was, is reported as `e`.
pub open spec fn map_encode_err(r: Result<Seq<u8>, SerializationError>, e: SerializationError) -> Result<Seq<u8>, SerializationError> {
    match r {
        Ok(b) => Ok(b),
        Err(_) => Err(e),
    }
}

/// A decoding whose failure, whatever it was, is reported as `e`.
pub open spec fn map_decode_err<T>(r: Result<(T, int), SerializationError>, e: SerializationError) -> Result<(T, int), SerializationError> {
    match r {
        Ok(v) => Ok(v),
        Err(_) => Err(e),
    }
}

/// The tagged-field section holding at most one field: the number of
/// tagged fields, then, when `present`, the tag, the byte length of the
/// field's encoding and that encoding.
pub open spec fn tagged_field_bytes(present: bool, tag: u64, field: Result<Seq<u8>, SerializationError>) -> Result<Seq<u8>, SerializationError> {
    if present {
        match field {
            Ok(b) => Ok(uvarint_bytes(1) + uvarint_bytes(tag) + uvarint_bytes(b.len() as u64) + b),
            Err(e) => Err(e),
        }
    } else {
        Ok(uvarint_bytes(0))
    }
}


/// An empty array.
pub fn new_array<T: DeepView>() -> (r: Vec<T>)
    ensures
        r.deep_view() == Seq::<T::V>::empty(),
{
    let v: Vec<T> = Vec::new();
    assert(v.deep_view() =~= Seq::<T::V>::empty());
    v
}

} // verus!
