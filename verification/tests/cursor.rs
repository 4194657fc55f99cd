use kstd::io::cursor::Cursor;
use kstd::io::testing::SingleRead;
use kstd::io::{Error, Read, Seek, SeekFrom, Write};

#[test]
fn test_read() {
    let data = &[0_u8, 1, 2, 3, 4, 5, 6, 7, 8, 9];
    let mut buf = [0u8; 4];
    let mut c = Cursor::new(data);

    let read1 = c.read(&mut buf);
    assert_eq!(Ok(4), read1);
    assert_eq!(&[0, 1, 2, 3], &buf);

    let read2 = c.read(&mut buf);
    assert_eq!(Ok(4), read2);
    assert_eq!(&[4, 5, 6, 7], &buf);

    let read3 = c.read(&mut buf);
    assert_eq!(Ok(2), read3);
    assert_eq!(&[8, 9, 6, 7], &buf);
}

#[test]
fn test_read_vec() {
    let data = vec![0_u8, 1, 2, 3, 4, 5, 6, 7, 8, 9];
    let mut buf = [0u8; 4];
    let mut c = Cursor::new(data);

    let read1 = c.read(&mut buf);
    assert_eq!(Ok(4), read1);
    assert_eq!(&[0, 1, 2, 3], &buf);

    let read2 = c.read(&mut buf);
    assert_eq!(Ok(4), read2);
    assert_eq!(&[4, 5, 6, 7], &buf);

    let read3 = c.read(&mut buf);
    assert_eq!(Ok(2), read3);
    assert_eq!(&[8, 9, 6, 7], &buf);
}

#[test]
fn test_single_read() {
    let data = vec![0_u8, 1, 2, 3, 4, 5];
    let c = Cursor::new(data);
    let mut r = SingleRead::new(c);
    let mut buf = vec![0_u8; 3];
    assert_eq!(1, r.read(&mut buf).unwrap());
    assert_eq!(vec![0_u8, 0, 0], buf);
    assert_eq!(1, r.read(&mut buf).unwrap());
    assert_eq!(vec![1_u8, 0, 0], buf);
    assert_eq!(1, r.read(&mut buf).unwrap());
    assert_eq!(vec![2_u8, 0, 0], buf);
    assert_eq!(1, r.read(&mut buf).unwrap());
    assert_eq!(vec![3_u8, 0, 0], buf);
    assert_eq!(1, r.read(&mut buf).unwrap());
    assert_eq!(vec![4_u8, 0, 0], buf);
    assert_eq!(1, r.read(&mut buf).unwrap());
    assert_eq!(vec![5_u8, 0, 0], buf);
}

#[test]
fn test_read_exact_fills_the_buffer() {
    let mut r = SingleRead::new(Cursor::new(vec![1_u8, 2, 3, 4, 5]));
    let mut buf = [0_u8; 4];
    assert_eq!(Ok(()), r.read_exact(&mut buf));
    assert_eq!([1, 2, 3, 4], buf);
    assert_eq!(Err(Error::PrematureEndOfInput), r.read_exact(&mut buf));
    assert_eq!([5, 2, 3, 4], buf);
}

#[test]
fn test_read_at_the_end_reads_nothing() {
    let mut c = Cursor::new(vec![1_u8, 2]);
    c.set_position(2);
    let mut buf = [7_u8; 2];
    assert_eq!(Ok(0), c.read(&mut buf));
    assert_eq!([7, 7], buf);
    assert!(c.is_empty());
}

#[test]
fn test_seek() {
    let mut c = Cursor::new(vec![0_u8, 1, 2, 3, 4, 5, 6, 7, 8, 9]);
    assert_eq!(Ok(3), c.seek(SeekFrom::Start(3)));
    assert_eq!(3, c.position());
    assert_eq!(Err(Error::InvalidOffset), c.seek(SeekFrom::Start(10)));
    assert_eq!(3, c.position());
    assert_eq!(Ok(9), c.seek(SeekFrom::End(1)));
    assert_eq!(Ok(0), c.seek(SeekFrom::End(10)));
    assert_eq!(Err(Error::InvalidOffset), c.seek(SeekFrom::End(0)));
    assert_eq!(Err(Error::InvalidOffset), c.seek(SeekFrom::End(11)));
    assert_eq!(Err(Error::InvalidOffset), c.seek(SeekFrom::End(-1)));
    assert_eq!(Ok(4), c.seek(SeekFrom::Current(4)));
    assert_eq!(Ok(2), c.seek(SeekFrom::Current(-2)));
    assert_eq!(Err(Error::InvalidOffset), c.seek(SeekFrom::Current(-3)));
    assert_eq!(Err(Error::InvalidOffset), c.seek(SeekFrom::Current(8)));
    assert_eq!(Ok(2), c.stream_position());
    assert_eq!(Ok(0), c.rewind());
    assert_eq!(0, c.position());
}

#[test]
fn test_seek_in_nothing_fails() {
    let mut c = Cursor::new(Vec::<u8>::new());
    assert_eq!(Err(Error::InvalidOffset), c.rewind());
    assert_eq!(Err(Error::InvalidOffset), c.stream_position());
}

#[test]
fn test_write() {
    let mut c = Cursor::new(vec![0_u8; 5]);
    assert_eq!(Ok(3), c.write(&[1_u8, 2, 3]));
    assert_eq!(3, c.position());
    assert_eq!(Ok(2), c.write(&[4_u8, 5, 6]));
    assert_eq!(Ok(0), c.write(&[7_u8]));
    assert_eq!(Ok(()), c.flush());
    assert_eq!(&vec![1_u8, 2, 3, 4, 5], c.get_ref());
    assert_eq!(vec![1_u8, 2, 3, 4, 5], c.into_inner());
}

#[test]
fn test_write_all() {
    let mut c = Cursor::new(vec![0_u8; 4]);
    assert_eq!(Ok(()), c.write_all(&[1_u8, 2, 3]));
    assert_eq!(Err(Error::WriteError), c.write_all(&[4_u8, 5]));
    assert_eq!(vec![1_u8, 2, 3, 4], c.into_inner());
}

#[test]
fn test_remaining_slice() {
    let mut c = Cursor::new(vec![1_u8, 2, 3]);
    assert_eq!(&[1_u8, 2, 3], c.remaining_slice());
    c.set_position(2);
    assert_eq!(&[3_u8], c.remaining_slice());
    assert!(!c.is_empty());
    c.set_position(7);
    assert!(c.remaining_slice().is_empty());
    assert!(c.is_empty());
    c.get_mut().push(4);
    let copy = c.clone();
    assert_eq!(7, copy.position());
    assert_eq!(&vec![1_u8, 2, 3, 4], copy.get_ref());
}

#[test]
fn test_write_into_array_and_borrowed_bytes() {
    let mut c = Cursor::new([0_u8; 3]);
    assert_eq!(Ok(2), c.write(&[7_u8, 8]));
    assert_eq!([7, 8, 0], c.into_inner());

    let mut bytes = vec![0_u8; 2];
    {
        let mut c = Cursor::new(&mut bytes);
        assert_eq!(Ok(()), c.write_all(&[5_u8, 6]));
        assert_eq!(Ok(0), c.seek(SeekFrom::Start(0)));
        let mut buf = [0_u8; 2];
        assert_eq!(Ok(2), c.read(&mut buf));
        assert_eq!([5, 6], buf);
    }
    assert_eq!(vec![5, 6], bytes);

    let mut slice = [1_u8, 2, 3];
    let mut c = Cursor::new(&mut slice[1..]);
    assert_eq!(Ok(2), c.write(&[9_u8, 9, 9]));
    assert_eq!([1, 9, 9], slice);
}
