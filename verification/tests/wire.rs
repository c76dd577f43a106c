use protocol::serialization::{
    decode_array, decode_unsigned_varint, encode_array, encode_bytes, encode_nullable_string,
    encode_string, encode_unsigned_varint, encode_uuid, put_i16, put_i32, put_i64, put_u64, Ctx,
    Reader, SerializationError,
};
use protocol::ApiVersion;

#[test]
fn varint_small_and_large_values() {
    let mut buf = Vec::new();
    encode_unsigned_varint(0, &mut buf);
    encode_unsigned_varint(127, &mut buf);
    encode_unsigned_varint(128, &mut buf);
    encode_unsigned_varint(300, &mut buf);
    assert_eq!(buf, vec![0x00, 0x7f, 0x80, 0x01, 0xac, 0x02]);
    let mut r = Reader::new(buf);
    assert_eq!(decode_unsigned_varint(&mut r), Ok((0, 1)));
    assert_eq!(decode_unsigned_varint(&mut r), Ok((127, 1)));
    assert_eq!(decode_unsigned_varint(&mut r), Ok((128, 2)));
    assert_eq!(decode_unsigned_varint(&mut r), Ok((300, 2)));
    assert_eq!(r.remaining(), 0);
}

#[test]
fn varint_u64_max_round_trips() {
    let mut buf = Vec::new();
    encode_unsigned_varint(u64::MAX, &mut buf);
    assert_eq!(buf.len(), 10);
    assert_eq!(buf[9], 0x01);
    let mut r = Reader::new(buf);
    assert_eq!(decode_unsigned_varint(&mut r), Ok((u64::MAX, 10)));
}

#[test]
fn varint_errors() {
    let mut r = Reader::new(vec![0x80, 0x80]);
    assert_eq!(decode_unsigned_varint(&mut r), Err(SerializationError::UnexpectedEof));
    let mut r = Reader::new(vec![0xff; 11]);
    assert_eq!(decode_unsigned_varint(&mut r), Err(SerializationError::VarintOverflow));
    let mut r = Reader::new(vec![0xff, 0xff, 0xff, 0xff, 0xff, 0xff, 0xff, 0xff, 0xff, 0x02]);
    assert_eq!(decode_unsigned_varint(&mut r), Err(SerializationError::VarintOverflow));
}

#[test]
fn integers_are_big_endian() {
    let mut buf = Vec::new();
    put_i16(&mut buf, -2);
    put_i32(&mut buf, 0x01020304);
    put_i64(&mut buf, -1);
    assert_eq!(buf, vec![0xff, 0xfe, 0x01, 0x02, 0x03, 0x04, 0xff, 0xff, 0xff, 0xff, 0xff, 0xff, 0xff, 0xff]);
    let mut r = Reader::new(buf);
    assert_eq!(r.get_i16(), Ok(-2));
    assert_eq!(r.get_i32(), Ok(0x01020304));
    assert_eq!(r.get_i64(), Ok(-1));
    assert_eq!(r.get_i8(), Err(SerializationError::UnexpectedEof));
}

#[test]
fn double_bits_are_eight_bytes() {
    let bits = 1.5f64.to_bits();
    let mut buf = Vec::new();
    put_u64(&mut buf, bits);
    assert_eq!(buf, vec![0x3f, 0xf8, 0, 0, 0, 0, 0, 0]);
    let mut r = Reader::new(buf);
    assert_eq!(f64::from_bits(r.get_u64().unwrap()), 1.5);
}

#[test]
fn classic_and_compact_strings() {
    let s = String::from("héllo");
    let mut classic = Vec::new();
    encode_string(&s, &mut classic, false).unwrap();
    assert_eq!(classic[..2], [0x00, 0x06]);
    let mut compact = Vec::new();
    encode_string(&s, &mut compact, true).unwrap();
    assert_eq!(compact[0], 0x07);
    assert_eq!(&compact[1..], s.as_bytes());
    assert_eq!(Reader::new(classic).get_string(false), Ok(s.clone()));
    assert_eq!(Reader::new(compact).get_string(true), Ok(s));
}

#[test]
fn null_strings() {
    let mut classic = Vec::new();
    encode_nullable_string(&None, &mut classic, false).unwrap();
    assert_eq!(classic, vec![0xff, 0xff]);
    let mut compact = Vec::new();
    encode_nullable_string(&None, &mut compact, true).unwrap();
    assert_eq!(compact, vec![0x00]);
    assert_eq!(Reader::new(classic.clone()).get_nullable_string(false), Ok(None));
    assert_eq!(Reader::new(compact).get_nullable_string(true), Ok(None));
    assert_eq!(Reader::new(classic).get_string(false), Err(SerializationError::InvalidLength));
}

#[test]
fn invalid_utf8_is_refused() {
    let mut r = Reader::new(vec![0x00, 0x02, 0xc3, 0x28]);
    assert_eq!(r.get_string(false), Err(SerializationError::InvalidUtf8));
    let mut r = Reader::new(vec![0x00, 0x02, 0xc3, 0xa9]);
    assert_eq!(r.get_string(false), Ok(String::from("é")));
}

#[test]
fn negative_lengths_are_invalid() {
    let mut r = Reader::new(vec![0xff, 0xfe]);
    assert_eq!(r.get_string(false), Err(SerializationError::InvalidLength));
    let mut r = Reader::new(vec![0xff, 0xff, 0xff, 0xfe]);
    assert_eq!(r.get_bytes(false), Err(SerializationError::InvalidLength));
}

#[test]
fn truncated_string_is_eof() {
    let mut r = Reader::new(vec![0x00, 0x05, b'a', b'b']);
    assert_eq!(r.get_string(false), Err(SerializationError::UnexpectedEof));
}

#[test]
fn bytes_round_trip() {
    let data = vec![1u8, 2, 3];
    let mut buf = Vec::new();
    encode_bytes(&data, &mut buf, false).unwrap();
    assert_eq!(buf, vec![0, 0, 0, 3, 1, 2, 3]);
    assert_eq!(Reader::new(buf).get_bytes(false), Ok(data.clone()));
    let mut buf = Vec::new();
    encode_bytes(&data, &mut buf, true).unwrap();
    assert_eq!(buf, vec![4, 1, 2, 3]);
    assert_eq!(Reader::new(buf).get_nullable_bytes(true), Ok(Some(data)));
}

#[test]
fn uuid_is_sixteen_raw_bytes() {
    let id = [7u8; 16];
    let mut buf = Vec::new();
    encode_uuid(&id, &mut buf);
    assert_eq!(buf, vec![7u8; 16]);
    let mut r = Reader::new(buf);
    assert_eq!(r.get_uuid(), Ok(id));
    assert_eq!(r.get_uuid(), Err(SerializationError::UnexpectedEof));
}

#[test]
fn arrays_of_integers_and_strings() {
    let ctx = Ctx::new(ApiVersion::new(0), false);
    let v: Vec<i32> = vec![1, -1];
    let mut buf = Vec::new();
    encode_array(&v, &mut buf, ctx).unwrap();
    assert_eq!(buf, vec![0, 0, 0, 2, 0, 0, 0, 1, 0xff, 0xff, 0xff, 0xff]);
    assert_eq!(decode_array::<i32>(&mut Reader::new(buf), ctx), Ok(v));

    let flex = Ctx::new(ApiVersion::new(3), true);
    let names = vec![String::from("a"), String::from("bc")];
    let mut buf = Vec::new();
    encode_array(&names, &mut buf, flex).unwrap();
    assert_eq!(buf, vec![3, 2, b'a', 3, b'b', b'c']);
    assert_eq!(decode_array::<String>(&mut Reader::new(buf), flex), Ok(names));
}

#[test]
fn null_array_is_invalid_where_not_nullable() {
    let ctx = Ctx::new(ApiVersion::new(0), false);
    assert_eq!(
        decode_array::<i32>(&mut Reader::new(vec![0xff, 0xff, 0xff, 0xff]), ctx),
        Err(SerializationError::InvalidLength)
    );
}

#[test]
fn reader_positions() {
    let mut r = Reader::from_slice(&[1, 2, 3, 4]);
    assert_eq!(r.position(), 0);
    assert_eq!(r.get_u8(), Ok(1));
    assert_eq!(r.advance(2), Ok(()));
    assert_eq!(r.remaining(), 1);
    assert_eq!(r.advance(2), Err(SerializationError::UnexpectedEof));
    assert_eq!(r.take_bytes(1), Ok(vec![4]));
}

#[test]
fn varint_length_boundaries() {
    for (v, len) in [(127u64, 1usize), (128, 2), (16383, 2), (16384, 3), (1 << 56, 9), (1 << 63, 10)] {
        let mut buf = Vec::new();
        encode_unsigned_varint(v, &mut buf);
        assert_eq!(buf.len(), len, "length of {v}");
        let mut r = Reader::new(buf);
        assert_eq!(decode_unsigned_varint(&mut r), Ok((v, len)));
    }
}

#[test]
fn classic_string_length_limit() {
    let ok = "x".repeat(32767);
    let mut buf = Vec::new();
    encode_string(&ok, &mut buf, false).unwrap();
    assert_eq!(buf.len(), 32769);
    assert_eq!(Reader::new(buf).get_string(false), Ok(ok));
    let too_long = "x".repeat(32768);
    let mut buf = vec![9u8];
    assert_eq!(
        encode_string(&too_long, &mut buf, false),
        Err(SerializationError::ValueTooLarge { message: "string too long" })
    );
    assert_eq!(buf[0], 9);
    let mut compact = Vec::new();
    encode_string(&too_long, &mut compact, true).unwrap();
    assert_eq!(Reader::new(compact).get_string(true), Ok(too_long));
}

#[test]
fn reads_back_after_other_bytes() {
    let mut buf = vec![0xaa, 0xbb];
    encode_string(&String::from("k"), &mut buf, true).unwrap();
    put_i32(&mut buf, 7);
    buf.push(0xcc);
    let mut r = Reader::new(buf);
    assert_eq!(r.advance(2), Ok(()));
    assert_eq!(r.get_string(true), Ok(String::from("k")));
    assert_eq!(r.get_i32(), Ok(7));
    assert_eq!(r.remaining(), 1);
}
