use nightcrawler::Prim;

#[test]
fn prim_little_endian_encodings() {
    assert_eq!(0x1234u16.to_bytes_le(), vec![0x34, 0x12]);
    assert_eq!(0xdeadbeefu32.to_bytes_le(), vec![0xef, 0xbe, 0xad, 0xde]);
    assert_eq!((-2i16).to_bytes_le(), vec![0xfe, 0xff]);
    assert_eq!(7u8.to_bytes_le(), vec![7]);
    assert_eq!(<u64 as Prim>::size(), 8);
    assert_eq!(<i128 as Prim>::size(), 16);
}

#[test]
fn prim_roundtrips() {
    assert_eq!(i32::from_bytes_le(&(-5i32).to_bytes_le()), -5);
    assert_eq!(u128::from_bytes_le(&(u128::MAX - 3).to_bytes_le()), u128::MAX - 3);
    assert_eq!(<i8 as Prim>::from_bytes_le(&[0x80]), -128);
    assert_eq!(isize::from_bytes_le(&(-9isize).to_bytes_le()), -9);
    assert_eq!(<u64 as Prim>::from_bytes_le(&[1, 0, 0, 0, 0, 0, 0, 0x80]), 0x8000_0000_0000_0001);
}
