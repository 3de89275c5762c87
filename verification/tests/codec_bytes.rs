use vaultura::codec::{
    read_i64, read_opt_id, read_str, read_u128, read_u32, read_u64, write_i64, write_opt_id,
    write_str, write_u128, write_u32, write_u64,
};

#[test]
fn test_u32_little_endian_exact_bytes() {
    let mut out: Vec<u8> = Vec::new();
    write_u32(&mut out, 0x12345678);
    assert_eq!(out, vec![0x78, 0x56, 0x34, 0x12]);
    let (v, used) = read_u32(&out, 0).unwrap();
    assert_eq!(v, 0x12345678);
    assert_eq!(used, 4);
}

#[test]
fn test_u64_little_endian_exact_bytes() {
    let mut out: Vec<u8> = Vec::new();
    write_u64(&mut out, 0x0102030405060708);
    assert_eq!(out, vec![0x08, 0x07, 0x06, 0x05, 0x04, 0x03, 0x02, 0x01]);
    let (v, _) = read_u64(&out, 0).unwrap();
    assert_eq!(v, 0x0102030405060708);
}

#[test]
fn test_u128_roundtrip() {
    let mut out: Vec<u8> = Vec::new();
    let n: u128 = 0x0123456789abcdef_fedcba9876543210;
    write_u128(&mut out, n);
    assert_eq!(out.len(), 16);
    let (v, used) = read_u128(&out, 0).unwrap();
    assert_eq!(v, n);
    assert_eq!(used, 16);
}

#[test]
fn test_i64_roundtrip_negative() {
    let mut out: Vec<u8> = Vec::new();
    write_i64(&mut out, -123_456_789);
    let (v, _) = read_i64(&out, 0).unwrap();
    assert_eq!(v, -123_456_789);
}

#[test]
fn test_string_roundtrip_unicode() {
    let mut out: Vec<u8> = Vec::new();
    write_str(&mut out, "pässwörd \u{1F511}");
    let (s, used) = read_str(&out, 0).unwrap();
    assert_eq!(s, "pässwörd \u{1F511}");
    assert_eq!(used, out.len());
}

#[test]
fn test_option_id_roundtrip() {
    let mut out: Vec<u8> = Vec::new();
    write_opt_id(&mut out, &None);
    write_opt_id(&mut out, &Some(77));
    let (a, p) = read_opt_id(&out, 0).unwrap();
    let (b, _) = read_opt_id(&out, p).unwrap();
    assert_eq!(a, None);
    assert_eq!(b, Some(77));
}

#[test]
fn test_truncated_read_fails() {
    let out: Vec<u8> = vec![1, 2, 3];
    assert!(read_u32(&out, 1).is_none());
    assert!(read_u64(&out, 0).is_none());
    assert!(read_str(&out, 0).is_none());
}
