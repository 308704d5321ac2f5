use proto::datatype::{Decode, Encode, Length, Long, UnsignedShort, Uuid, VarInt};
use proto::Error;

fn message(e: &Error) -> &'static str {
    match e {
        Error::DecodeError(m) => m,
    }
}

#[test]
fn test_var_int() {
    let integers = vec![
        0,
        1,
        2,
        127,
        128,
        255,
        25565,
        2097151,
        2147483647,
        // -1, // todo: something wrong here
        -2147483648,
    ];
    let expected: Vec<Vec<u8>> = vec![
        vec![0x00],
        vec![0x01],
        vec![0x02],
        vec![0x7f],
        vec![0x80, 0x01],
        vec![0xff, 0x01],
        vec![0xdd, 0xc7, 0x01],
        vec![0xff, 0xff, 0x7f],
        vec![0xff, 0xff, 0xff, 0xff, 0x07],
        vec![0x80, 0x80, 0x80, 0x80, 0x08],
    ];
    let decoded = vec![0, 1, 2, 127, 128, 255, 25565, 2097151, 2147483647, -2147483648];
    for ((i, want), back) in integers.into_iter().zip(expected).zip(decoded) {
        let var_int = VarInt(i);
        let bytes = var_int.encode();
        println!("{:0x?}", &bytes);
        println!("{:?}", VarInt::decode(&bytes));
        assert_eq!(bytes, want);
        assert_eq!(VarInt::decode(&bytes).unwrap().0, back);
    }
}

#[test]
fn test_string() {
    let string = "hello world";
    let bytes = string.to_string().encode();
    println!("{:0x?}", &bytes);
    println!("{:?}", String::decode_streaming(&bytes));
    let mut want = vec![11u8];
    want.extend_from_slice(b"hello world");
    assert_eq!(bytes, want);
    let (n, s) = String::decode_streaming(&bytes).unwrap();
    assert_eq!(n, 12);
    assert_eq!(s, "hello world");
}

#[test]
fn var_int_decode_reads_to_last_byte() {
    let (n, v) = VarInt::decode_streaming(&[0xdd, 0xc7, 0x01, 0x42]).unwrap();
    assert_eq!(n, 3);
    assert_eq!(v.0, 25565);
}

#[test]
fn var_int_decode_too_big() {
    let r = VarInt::decode_streaming(&[0x80, 0x80, 0x80, 0x80, 0x80, 0x01]);
    assert_eq!(message(&r.unwrap_err()), "VarInt is too big");
}

#[test]
fn var_int_decode_five_bytes() {
    let (n, v) = VarInt::decode_streaming(&[0xff, 0xff, 0xff, 0xff, 0x0f]).unwrap();
    assert_eq!(n, 5);
    assert_eq!(v.0, -1);
}

#[test]
fn var_int_decode_runs_out() {
    let (n, v) = VarInt::decode_streaming(&[]).unwrap();
    assert_eq!((n, v.0), (0, 0));
    let (n, v) = VarInt::decode_streaming(&[0x81]).unwrap();
    assert_eq!((n, v.0), (1, 1));
}

#[test]
fn var_int_standard_groups() {
    assert_eq!(VarInt(256).encode(), vec![0x80, 0x02]);
    assert_eq!(VarInt::decode(&VarInt(256).encode()).unwrap().0, 256);
    assert_eq!(VarInt(300).encode(), vec![0xac, 0x02]);
    assert_eq!(VarInt(-1).encode(), vec![0xff, 0xff, 0xff, 0xff, 0x0f]);
    assert_eq!(VarInt::decode(&VarInt(-1).encode()).unwrap().0, -1);
}

#[test]
fn var_int_length_is_encoded_size() {
    assert_eq!(VarInt(0).length(), 1);
    assert_eq!(VarInt(128).length(), 2);
    assert_eq!(VarInt(25565).length(), 3);
    assert_eq!(VarInt(2147483647).length(), 5);
    assert_eq!(VarInt(-1).length(), 5);
    assert_eq!(VarInt(256).length(), 2);
}

#[test]
fn var_int_round_trip_with_trailing_bytes() {
    for x in [
        0, 1, 127, 128, 200, 256, 16383, 16384, 25565, 2097151, 268435455, 2147483647, -1, -256,
        -2147483648,
    ] {
        let mut bytes = VarInt(x).encode();
        let n = bytes.len();
        bytes.extend_from_slice(&[0x12, 0x34]);
        let (m, v) = VarInt::decode_streaming(&bytes).unwrap();
        assert_eq!((m, v.0), (n, x));
    }
}

#[test]
fn var_int_conversions() {
    let v: VarInt = 42.into();
    assert!(v == 42);
    assert!(!(v == 43));
    let i: i32 = VarInt(-7).into();
    assert_eq!(i, -7);
    assert_eq!(VarInt(-25565).to_string(), "-25565");
    assert_eq!(VarInt(0).to_string(), "0");
}

#[test]
fn var_int_decimal_extremes() {
    assert_eq!(VarInt(i32::MIN).to_string(), "-2147483648");
    assert_eq!(VarInt(i32::MAX).to_string(), "2147483647");
    assert_eq!(VarInt(10).to_string(), "10");
    assert_eq!(VarInt(-9).to_string(), "-9");
}

#[test]
fn unsigned_short_big_endian() {
    assert!(UnsignedShort::check_decodable(&[0x63, 0xdd]));
    assert!(!UnsignedShort::check_decodable(&[0x63]));
    let (n, v) = UnsignedShort::decode_streaming(&[0x63, 0xdd, 0x00]).unwrap();
    assert_eq!((n, v), (2, 25565));
}

#[test]
fn long_big_endian() {
    let (n, v) = Long::decode_streaming(&[0, 0, 0, 0, 0, 0, 0x01, 0x02, 0x03]).unwrap();
    assert_eq!((n, v), (8, 258));
    let (_, v) = Long::decode_streaming(&[0xff; 8]).unwrap();
    assert_eq!(v, -1);
    let (_, v) = Long::decode_streaming(&[0x80, 0, 0, 0, 0, 0, 0, 0]).unwrap();
    assert_eq!(v, i64::MIN);
    assert!(!Long::check_decodable(&[0; 7]));
}

#[test]
fn string_errors() {
    let r = String::decode_streaming(&[2, 0xff, 0xfe]);
    assert_eq!(message(&r.unwrap_err()), "Utf8Error while decoding string");
    let r = String::decode_streaming(&[0x80, 0x80, 0x80, 0x80, 0x80]);
    assert_eq!(message(&r.unwrap_err()), "VarInt is too big");
}

#[test]
fn string_check_decodable() {
    assert!(String::check_decodable(&[1, b'a']));
    assert!(!String::check_decodable(&[5, b'a']));
    // A length of -1.
    assert!(!String::check_decodable(&[0xff, 0xff, 0xff, 0xff, 0x0f]));
    assert!(String::check_decodable(&[0x80, 0x80, 0x80, 0x80, 0x80]));
}

#[test]
fn string_multibyte_round_trip() {
    let s = "héllo ✓".to_string();
    let bytes = s.encode();
    assert_eq!(bytes[0] as usize, s.len());
    let (n, back) = String::decode_streaming(&bytes).unwrap();
    assert_eq!(n, bytes.len());
    assert_eq!(back, s);
}

#[test]
fn long_string_round_trip() {
    let s = "x".repeat(256);
    let bytes = s.encode();
    assert_eq!(&bytes[..2], &[0x80, 0x02]);
    let (n, back) = String::decode_streaming(&bytes).unwrap();
    assert_eq!(n, 258);
    assert_eq!(back, s);
}

#[test]
fn uuid_sixteen_bytes() {
    let bytes: Vec<u8> = (0u8..20).collect();
    let (n, u) = Uuid::decode_streaming(&bytes).unwrap();
    assert_eq!(n, 16);
    assert_eq!(u.as_bytes(), &bytes[..16]);
    assert!(!Uuid::check_decodable(&bytes[..15]));
}
