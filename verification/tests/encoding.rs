use spdmlib::msgs::encoding::{ReadError, ReadErrorKind, Reader, WriteError, Writer};

#[test]
fn push_fills_the_buffer_and_then_fails() {
    let mut buf = [0u8; 2];
    {
        let mut w = Writer::new("TEST", &mut buf);
        assert_eq!(w.offset(), 0);
        assert!(!w.full());
        assert_eq!(w.push(7), Ok(1));
        assert_eq!(w.push(8), Ok(2));
        assert!(w.full());
        assert_eq!(w.offset(), 2);
        assert_eq!(w.push(9), Err(WriteError::new("TEST", 2)));
        assert_eq!(w.offset(), 2);
    }
    assert_eq!(buf, [7, 8]);
}

#[test]
fn push_into_an_empty_buffer_fails() {
    let mut buf = [0u8; 0];
    let mut w = Writer::new("TEST", &mut buf);
    assert!(w.full());
    assert_eq!(w.push(1), Err(WriteError::new("TEST", 0)));
}

#[test]
fn extend_writes_what_fits() {
    let mut buf = [0xeeu8; 5];
    {
        let mut w = Writer::new("TEST", &mut buf);
        assert_eq!(w.extend(&[1, 2, 3]), Ok(3));
        assert_eq!(w.extend(&[]), Ok(3));
        assert_eq!(w.extend(&[4, 5, 6]), Err(WriteError::new("TEST", 5)));
        assert!(w.full());
    }
    assert_eq!(buf, [1, 2, 3, 4, 5]);
}

#[test]
fn write_error_holds_name_and_size() {
    let e = WriteError::new("NAME", 12);
    assert_eq!(e.msg, "NAME");
    assert_eq!(e.buf_size, 12);
}

#[test]
fn read_error_holds_name_and_kind() {
    let e = ReadError::new("NAME", ReadErrorKind::Header);
    assert_eq!(e.msg, "NAME");
    assert_eq!(e.kind, ReadErrorKind::Header);
}

#[test]
fn read_byte_walks_the_buffer() {
    let buf = [1u8, 2, 3];
    let mut r = Reader::new("TEST", &buf);
    assert_eq!(r.name(), "TEST");
    assert!(r.aligned());
    assert!(!r.empty());
    assert_eq!(r.left(), 3);
    assert_eq!(r.read_byte(), Ok(1));
    assert_eq!(r.read_byte(), Ok(2));
    assert_eq!(r.left(), 1);
    assert_eq!(r.read_byte(), Ok(3));
    assert!(r.empty());
    assert_eq!(r.left(), 0);
    assert_eq!(r.read_byte(), Err(ReadError::new("TEST", ReadErrorKind::Empty)));
    assert!(r.empty());
}

#[test]
fn read_bits_crosses_a_byte_boundary() {
    let buf = [0xABu8, 0xCD];
    let mut r = Reader::new("TEST", &buf);
    assert_eq!(r.read_bits(4), Ok(0xA));
    assert!(!r.aligned());
    assert_eq!(r.read_bits(4), Ok(0xB));
    assert!(r.aligned());
    assert_eq!(r.read_bits(4), Ok(0xC));
    assert_eq!(r.read_bits(4), Ok(0xD));
    assert!(r.empty());
    assert!(r.aligned());
}

#[test]
fn read_bits_takes_a_window_over_two_bytes() {
    // 1010_1011 1100_1101
    let buf = [0xABu8, 0xCD];
    let mut r = Reader::new("TEST", &buf);
    assert_eq!(r.read_bits(3), Ok(0b101));
    assert_eq!(r.read_bits(7), Ok(0b0_1011_11));
    assert_eq!(r.read_bits(1), Ok(0));
    assert_eq!(r.read_bits(5), Ok(0b0_1101));
    assert!(r.empty());
    assert_eq!(r.read_bits(1), Err(ReadError::new("TEST", ReadErrorKind::Empty)));
    assert_eq!(r.read_bits(0), Ok(0));
}

#[test]
fn read_bits_of_every_width() {
    let buf = [0b1111_1110u8, 0b0000_0001];
    for count in 1..=7u8 {
        let mut r = Reader::new("TEST", &buf);
        assert_eq!(r.read_bits(count), Ok((1u8 << count) - 1));
    }
    let mut r = Reader::new("TEST", &buf);
    assert_eq!(r.read_byte(), Ok(0xFE));
    assert_eq!(r.read_bits(7), Ok(0));
    assert_eq!(r.read_bits(1), Ok(1));
}

#[test]
fn read_bits_refuses_more_than_seven() {
    let buf = [0xffu8, 0xff];
    let mut r = Reader::new("TEST", &buf);
    assert_eq!(r.read_bits(8), Err(ReadError::new("TEST", ReadErrorKind::TooManyBits)));
    assert_eq!(r.read_bits(255), Err(ReadError::new("TEST", ReadErrorKind::TooManyBits)));
    // nothing was consumed
    assert_eq!(r.read_byte(), Ok(0xff));
}

#[test]
fn read_bits_past_the_end_is_empty() {
    let buf = [0b1010_0101u8];
    let mut r = Reader::new("TEST", &buf);
    assert_eq!(r.read_bits(5), Ok(0b10100));
    assert_eq!(r.read_bits(4), Err(ReadError::new("TEST", ReadErrorKind::Empty)));
    // the failed read left the cursor where it was
    assert_eq!(r.read_bits(3), Ok(0b101));
    assert!(r.empty());
    let none: [u8; 0] = [];
    let mut r = Reader::new("TEST", &none);
    assert_eq!(r.read_bits(1), Err(ReadError::new("TEST", ReadErrorKind::Empty)));
}

#[test]
fn read_byte_inside_a_byte_is_unaligned() {
    let buf = [0x12u8, 0x34];
    let mut r = Reader::new("TEST", &buf);
    assert_eq!(r.read_bits(4), Ok(1));
    assert_eq!(r.read_byte(), Err(ReadError::new("TEST", ReadErrorKind::Unaligned)));
    assert_eq!(r.left(), 2);
    assert_eq!(r.read_bits(4), Ok(2));
    assert_eq!(r.left(), 1);
    assert_eq!(r.read_byte(), Ok(0x34));
}
