use podmem::access;
use podmem::{Error, I16, I32, I64, U16, U32, U64};

#[test]
fn write_u32_lays_out_little_endian_bytes() {
    let mut buf4 = [0u8; 4];
    assert_eq!(access::write(&U32::new(1819043176), &mut buf4, 0), Ok(()));
    assert_eq!(buf4, [0x68, 0x65, 0x6c, 0x6c]);
    let back = access::read::<U32>(&buf4, 0).unwrap();
    assert_eq!(back.as_u32(), 1819043176);
}

#[test]
fn memr32_reads_four_bytes() {
    assert_eq!(access::memr32(b"hello_world", 0), Ok([0x68, 0x65, 0x6c, 0x6c]));
}

#[test]
fn memr32_rejects_short_buffer() {
    assert_eq!(access::memr32(b"hi", 0), Err(Error::InvalidAccess));
}

#[test]
fn write_into_empty_buffer_fails() {
    let mut empty = [0u8; 0];
    assert_eq!(access::write(&0u8, &mut empty, 0), Err(Error::InvalidAccess));
}

#[test]
fn memw_then_memr32() {
    let mut buf4 = [0u8; 4];
    assert_eq!(access::memw(b"hell", &mut buf4, 0), Ok(()));
    assert_eq!(access::memr32(&buf4, 0), Ok(*b"hell"));
}

#[test]
fn round_trip_every_width() {
    let mut buf = [0xaau8; 32];
    assert_eq!(access::write(&0x7fu8, &mut buf, 3), Ok(()));
    assert_eq!(access::read::<u8>(&buf, 3), Ok(0x7f));
    assert_eq!(access::write(&-5i8, &mut buf, 31), Ok(()));
    assert_eq!(access::read::<i8>(&buf, 31), Ok(-5));
    assert_eq!(access::write(&I16::new(-12345), &mut buf, 1), Ok(()));
    assert_eq!(access::read::<I16>(&buf, 1).unwrap().as_i16(), -12345);
    assert_eq!(access::write(&U16::new(0xbeef), &mut buf, 5), Ok(()));
    assert_eq!(access::read::<U16>(&buf, 5).unwrap().as_u16(), 0xbeef);
    assert_eq!(access::write(&I32::new(i32::MIN), &mut buf, 7), Ok(()));
    assert_eq!(access::read::<I32>(&buf, 7).unwrap().as_i32(), i32::MIN);
    assert_eq!(access::write(&U32::new(u32::MAX), &mut buf, 11), Ok(()));
    assert_eq!(access::read::<U32>(&buf, 11).unwrap().as_u32(), u32::MAX);
    assert_eq!(access::write(&I64::new(-1234567890123), &mut buf, 15), Ok(()));
    assert_eq!(access::read::<I64>(&buf, 15).unwrap().as_i64(), -1234567890123);
    assert_eq!(access::write(&U64::new(0x0123456789abcdef), &mut buf, 23), Ok(()));
    assert_eq!(access::read::<U64>(&buf, 23).unwrap().as_u64(), 0x0123456789abcdef);
}

#[test]
fn round_trip_arrays() {
    let mut buf = [0u8; 10];
    let arr = [U16::new(1), U16::new(0x0203), U16::new(0xfffe)];
    assert_eq!(access::write(&arr, &mut buf, 2), Ok(()));
    assert_eq!(buf, [0, 0, 1, 0, 3, 2, 0xfe, 0xff, 0, 0]);
    let back = access::read::<[U16; 3]>(&buf, 2).unwrap();
    assert_eq!(back[0].as_u16(), 1);
    assert_eq!(back[1].as_u16(), 0x0203);
    assert_eq!(back[2].as_u16(), 0xfffe);
    let nested = [[1i8, -1], [-128, 127]];
    assert_eq!(access::write(&nested, &mut buf, 6), Ok(()));
    assert_eq!(&buf[6..], &[1, 0xff, 0x80, 0x7f]);
    assert_eq!(access::read::<[[i8; 2]; 2]>(&buf, 6), Ok(nested));
}

#[test]
fn write_leaves_other_bytes_alone() {
    let mut buf: Vec<u8> = (0u8..16).collect();
    assert_eq!(access::write(&U32::new(0xdeadbeef), &mut buf, 6), Ok(()));
    let expected: Vec<u8> = vec![0, 1, 2, 3, 4, 5, 0xef, 0xbe, 0xad, 0xde, 10, 11, 12, 13, 14, 15];
    assert_eq!(buf, expected);
}

#[test]
fn out_of_bounds_is_rejected_without_change() {
    let mut buf = [9u8; 8];
    assert_eq!(access::write(&U32::new(1), &mut buf, 5), Err(Error::InvalidAccess));
    assert_eq!(access::write(&U32::new(1), &mut buf, 9), Err(Error::InvalidAccess));
    assert_eq!(access::write(&U64::new(1), &mut buf, 1), Err(Error::InvalidAccess));
    assert_eq!(buf, [9u8; 8]);
    assert!(access::read::<U32>(&buf, 5).is_err());
    assert!(access::read::<u8>(&buf, 8).is_err());
    assert!(access::read::<U64>(&buf, 0).is_ok());
    assert!(access::read::<U32>(&buf, 4).is_ok());
}

#[test]
fn addresses_near_the_top_do_not_wrap() {
    let mut buf = [0u8; 8];
    assert!(access::read::<U32>(&buf, usize::MAX).is_err());
    assert!(access::read::<U64>(&buf, usize::MAX - 3).is_err());
    assert_eq!(access::write(&U32::new(7), &mut buf, usize::MAX - 1), Err(Error::InvalidAccess));
    assert_eq!(access::memw(b"ab", &mut buf, usize::MAX), Err(Error::InvalidAccess));
    let mut out = [0u8; 2];
    assert_eq!(access::memr(&mut out, &buf, usize::MAX), Err(Error::InvalidAccess));
    assert_eq!(access::memr16(&buf, usize::MAX), Err(Error::InvalidAccess));
    assert_eq!(access::memr8(&buf, usize::MAX), Err(Error::InvalidAccess));
    assert_eq!(buf, [0u8; 8]);
}

#[test]
fn zero_sized_value_at_the_end() {
    let buf = [1u8, 2, 3];
    assert_eq!(access::read::<[u8; 0]>(&buf, 3), Ok([]));
    assert!(access::read::<[u8; 0]>(&buf, 4).is_err());
}

#[test]
fn little_endian_layouts() {
    let mut buf = [0u8; 8];
    assert_eq!(access::write(&U64::new(0x0102030405060708), &mut buf, 0), Ok(()));
    assert_eq!(buf, [8, 7, 6, 5, 4, 3, 2, 1]);
    assert_eq!(access::write(&I16::new(-2), &mut buf, 0), Ok(()));
    assert_eq!(&buf[..2], &[0xfe, 0xff]);
    assert_eq!(access::write(&I32::new(-256), &mut buf, 4), Ok(()));
    assert_eq!(&buf[4..], &[0x00, 0xff, 0xff, 0xff]);
    assert_eq!(access::write(&U16::new(0x1234), &mut buf, 2), Ok(()));
    assert_eq!(&buf[2..4], &[0x34, 0x12]);
    assert_eq!(access::read::<I64>(&[0xffu8; 8], 0).unwrap().as_i64(), -1);
}

#[test]
fn wrapper_new_and_accessors() {
    assert_eq!(U32::new(0).as_u32(), 0);
    assert_eq!(U32::new(1819043176).as_u32(), 1819043176);
    assert_eq!(I16::new(i16::MIN).as_i16(), i16::MIN);
    assert_eq!(U16::new(u16::MAX).as_u16(), u16::MAX);
    assert_eq!(I32::new(-1).as_i32(), -1);
    assert_eq!(I64::new(i64::MAX).as_i64(), i64::MAX);
    assert_eq!(U64::new(u64::MAX).as_u64(), u64::MAX);
}

#[test]
fn wrapper_conversions() {
    let w: U32 = U32::from(42u32);
    assert_eq!(u32::from(w), 42);
    let s: I64 = I64::from(-9i64);
    assert_eq!(i64::from(s), -9);
    assert_eq!(u16::from(U16::from(513u16)), 513);
    assert_eq!(i16::from(I16::from(-300i16)), -300);
    assert_eq!(i32::from(I32::from(77i32)), 77);
    assert_eq!(u64::from(U64::from(1u64 << 40)), 1u64 << 40);
}

#[test]
fn memr_helpers_check_exact_width() {
    let buf = [10u8, 20, 30];
    assert_eq!(access::memr8(&buf, 2), Ok(30));
    assert_eq!(access::memr8(&buf, 3), Err(Error::InvalidAccess));
    assert_eq!(access::memr16(&buf, 1), Ok([20, 30]));
    assert_eq!(access::memr16(&buf, 2), Err(Error::InvalidAccess));
    assert_eq!(access::memr32(&buf, 0), Err(Error::InvalidAccess));
}

#[test]
fn memr_copies_a_span() {
    let src = b"hello_world";
    let mut out = [0u8; 5];
    assert_eq!(access::memr(&mut out, src, 6), Ok(()));
    assert_eq!(&out, b"world");
    let mut long = [7u8; 6];
    assert_eq!(access::memr(&mut long, src, 6), Err(Error::InvalidAccess));
    assert_eq!(long, [7u8; 6]);
    let mut none = [0u8; 0];
    assert_eq!(access::memr(&mut none, src, 11), Ok(()));
}

#[test]
fn memw_copies_a_span() {
    let mut dest = [0u8; 6];
    assert_eq!(access::memw(b"abc", &mut dest, 3), Ok(()));
    assert_eq!(&dest, b"\0\0\0abc");
    assert_eq!(access::memw(b"abc", &mut dest, 4), Err(Error::InvalidAccess));
    assert_eq!(&dest, b"\0\0\0abc");
    assert_eq!(access::memw(b"", &mut dest, 6), Ok(()));
    assert_eq!(access::memw(b"", &mut dest, 7), Err(Error::InvalidAccess));
}
