use kstd::io::cursor::Cursor;
use kstd::io::decode::{
    be_value_of, le_value_of, read_be_u16, read_be_u32, read_be_u64, read_bytes, read_le_u16,
    read_le_u32, read_le_u64, read_null_terminated_string, read_u8, until_zero,
};
use kstd::io::testing::SingleRead;
use kstd::io::Error;

#[test]
fn test_read_bytes() {
    let data = vec![0_u8, 1, 2, 3, 4, 5, 6, 7, 8, 9];
    let mut c = Cursor::new(data);
    let buf = read_bytes::<_, 6>(&mut c).unwrap();
    assert_eq!([0, 1, 2, 3, 4, 5], buf);
    assert_eq!(6, c.position());
    assert_eq!(Err(Error::PrematureEndOfInput), read_bytes::<_, 5>(&mut c));
    assert_eq!(Ok([]), read_bytes::<_, 0>(&mut c));
}

#[test]
fn test_read_integers_big_endian() {
    let data = vec![
        0x01_u8, 0x02, 0x03, 0x04, 0x05, 0x06, 0x07, 0xf8, 0xf9, 0xfa, 0xfb, 0xfc, 0xfd, 0xfe,
        0xff,
    ];
    let mut c = Cursor::new(data);
    assert_eq!(Ok(0x01), read_u8(&mut c));
    assert_eq!(Ok(0x0203), read_be_u16(&mut c));
    assert_eq!(Ok(0x0405_0607), read_be_u32(&mut c));
    assert_eq!(Ok(0xf8f9_fafb_fcfd_feff), read_be_u64(&mut c));
    assert_eq!(Err(Error::PrematureEndOfInput), read_u8(&mut c));
}

#[test]
fn test_read_integers_little_endian() {
    let data = vec![
        0x02_u8, 0x03, 0x04, 0x05, 0x06, 0x07, 0xf8, 0xf9, 0xfa, 0xfb, 0xfc, 0xfd, 0xfe, 0xff,
    ];
    let mut c = SingleRead::new(Cursor::new(data));
    assert_eq!(Ok(0x0302), read_le_u16(&mut c));
    assert_eq!(Ok(0x0706_0504), read_le_u32(&mut c));
    assert_eq!(Ok(0xfffe_fdfc_fbfa_f9f8), read_le_u64(&mut c));
    assert_eq!(Err(Error::PrematureEndOfInput), read_le_u16(&mut c));
}

#[test]
fn test_values_of_bytes() {
    assert_eq!(0, be_value_of(&[]));
    assert_eq!(0, le_value_of(&[]));
    assert_eq!(0x0102_03, be_value_of(&[1, 2, 3]));
    assert_eq!(0x0302_01, le_value_of(&[1, 2, 3]));
    assert_eq!(u64::MAX, be_value_of(&[0xff; 8]));
    assert_eq!(u64::MAX, le_value_of(&[0xff; 8]));
    assert_eq!(u16::from_be_bytes([0x12, 0x34]) as u64, be_value_of(&[0x12, 0x34]));
    assert_eq!(u32::from_le_bytes([1, 2, 3, 4]) as u64, le_value_of(&[1, 2, 3, 4]));
}

#[test]
fn test_read_null_terminated_string() {
    let mut c = Cursor::new(b"abc\0def\0ghij".to_vec());
    assert_eq!(Ok("abc".to_string()), read_null_terminated_string::<_, 8>(&mut c));
    assert_eq!(8, c.position());
    assert_eq!(Ok("ghij".to_string()), read_null_terminated_string::<_, 4>(&mut c));
    assert_eq!(
        Err(Error::PrematureEndOfInput),
        read_null_terminated_string::<_, 1>(&mut c)
    );
    let mut c = Cursor::new(vec![b'a', 0xff, b'b']);
    assert_eq!(
        Ok("a\u{fffd}b".to_string()),
        read_null_terminated_string::<_, 3>(&mut c)
    );
}

#[test]
fn test_until_zero() {
    assert_eq!(&[1_u8, 2], until_zero(&[1, 2, 0, 3, 0]));
    assert_eq!(&[1_u8, 2], until_zero(&[1, 2]));
    assert!(until_zero(&[0, 1]).is_empty());
    assert!(until_zero(&[]).is_empty());
}

#[test]
fn test_error_messages() {
    assert_eq!("invalid offset", Error::InvalidOffset.to_string());
    assert_eq!("buffer too small", Error::BufferTooSmall.to_string());
    assert_eq!("premature end of input", Error::PrematureEndOfInput.to_string());
    assert_eq!("no such block", Error::NoSuchBlock.to_string());
    assert_eq!("not implemented", Error::NotImplemented.to_string());
    assert_eq!("not found", Error::NotFound.to_string());
    assert_eq!("exists, but it should not", Error::ExistsButShouldNot.to_string());
    assert_eq!("bad address", Error::BadAddress.to_string());
    assert_eq!("decode error", Error::DecodeError.to_string());
    assert_eq!("invalid magic number", Error::InvalidMagicNumber.to_string());
    assert_eq!("data is incoherent", Error::IncoherentData.to_string());
    assert_eq!("invalid argument", Error::InvalidArgument.to_string());
    assert_eq!("is a file", Error::IsFile.to_string());
    assert_eq!("is a directory", Error::IsDir.to_string());
    assert_eq!("is a symlink", Error::IsSymLink.to_string());
    assert_eq!("write error", Error::WriteError.to_string());
}
