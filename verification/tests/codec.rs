use xpi_vlu4::Error;
use xpi_vlu4::NibbleBuf;
use xpi_vlu4::NibbleBufMut;
use xpi_vlu4::Vlu4SliceArray;
use xpi_vlu4::Vlu4U32Array;

#[test]
fn nibble_buf_read_nibbles() {
    let mut rdr = NibbleBuf::new(vec![0xab, 0xcd, 0xef]);
    assert_eq!(rdr.get_nibble(), Ok(0xa));
    assert_eq!(rdr.get_nibble(), Ok(0xb));
    assert_eq!(rdr.get_nibble(), Ok(0xc));
    assert_eq!(rdr.get_nibble(), Ok(0xd));
    assert_eq!(rdr.get_nibble(), Ok(0xe));
    assert_eq!(rdr.get_nibble(), Ok(0xf));
    assert!(rdr.is_at_end());
}

#[test]
fn nibble_buf_read_u8() {
    let mut rdr = NibbleBuf::new(vec![0x12, 0x34, 0x56]);
    assert_eq!(rdr.get_nibble(), Ok(0x1));
    assert_eq!(rdr.get_u8(), Ok(0x23));
    assert_eq!(rdr.get_nibble(), Ok(0x4));
    assert_eq!(rdr.get_u8(), Ok(0x56));
    assert!(rdr.is_at_end());
}

#[test]
fn nibble_buf_read_past_end() {
    let mut rdr = NibbleBuf::new(vec![0xaa, 0xbb]);
    rdr.get_u8().unwrap();
    rdr.get_u8().unwrap();
    assert!(rdr.is_at_end());
    assert_eq!(rdr.get_u8(), Err(Error::OutOfBounds));
    assert!(rdr.is_past_end());
}

#[test]
fn nibble_buf_read_vlu4_u32_single_nibble() {
    let mut rdr = NibbleBuf::new(vec![0b0111_0010, 0b0000_0001]);
    assert_eq!(rdr.get_vlu4_u32(), Ok(7));
    assert_eq!(rdr.get_vlu4_u32(), Ok(2));
    assert_eq!(rdr.get_vlu4_u32(), Ok(0));
    assert_eq!(rdr.get_vlu4_u32(), Ok(1));
    assert!(rdr.is_at_end());
}

#[test]
fn nibble_buf_read_vlu4_u32_multi_nibble() {
    let mut rdr = NibbleBuf::new(vec![0b1111_0111, 0b1001_0000, 0b1000_0111]);
    assert_eq!(rdr.get_vlu4_u32(), Ok(63));
    assert_eq!(rdr.nibbles_pos(), 2);
    assert_eq!(rdr.get_vlu4_u32(), Ok(0b001000));
    assert_eq!(rdr.nibbles_pos(), 4);
    assert_eq!(rdr.get_vlu4_u32(), Ok(0b111));
    assert!(rdr.is_at_end());
}

#[test]
fn nibble_buf_read_vlu4_u32_max() {
    let mut rdr = NibbleBuf::new(vec![0b1011_1111, 0xff, 0xff, 0xff, 0xff, 0x70]);
    assert_eq!(rdr.get_vlu4_u32(), Ok(u32::MAX));
    assert_eq!(rdr.get_nibble(), Ok(0));
    assert!(rdr.is_at_end());
}

#[test]
fn nibble_buf_read_vlu4_u32_max_plus1() {
    // bit 33 is ignored
    let mut rdr = NibbleBuf::new(vec![0b1111_1111, 0xff, 0xff, 0xff, 0xff, 0x70]);
    assert_eq!(rdr.get_vlu4_u32(), Ok(u32::MAX));
    assert_eq!(rdr.get_nibble(), Ok(0));
    assert!(rdr.is_at_end());
}

#[test]
fn nibble_buf_read_vlu4_u32_max_plus_nibble() {
    // a continuation bit in the 11th nibble is malformed and fuses the reader
    let mut rdr = NibbleBuf::new(vec![0xff, 0xff, 0xff, 0xff, 0xff, 0xf0]);
    assert_eq!(rdr.get_vlu4_u32(), Err(Error::MalformedVlu4U32));
    assert!(rdr.is_at_end());
    assert!(rdr.is_past_end());
}

#[test]
fn write_nibbles() {
    let mut wgr = NibbleBufMut::new(vec![0u8; 2]);
    wgr.put_nibble(1);
    wgr.put_nibble(2);
    wgr.put_nibble(3);
    wgr.put_nibble(4);
    assert!(wgr.is_at_end());
    wgr.put_nibble(0);
    assert!(wgr.is_past_end());
    let buf = wgr.finish();
    assert_eq!(buf[0], 0x12);
    assert_eq!(buf[1], 0x34);
}

#[test]
fn nibble_buf_write_vlu4_u32_3() {
    let mut wgr = NibbleBufMut::new(vec![0u8; 4]);
    wgr.put_vlu4_u32(3);
    assert_eq!(wgr.nibbles_pos(), 1);
    assert_eq!(wgr.as_bytes()[0], 0b0011_0000);
}

#[test]
fn vlu4_round_trip_samples() {
    for n in [0u32, 1, 7, 8, 63, 64, 511, 4096, 123_456_789, u32::MAX] {
        let mut wgr = NibbleBufMut::new(vec![0u8; 12]);
        wgr.put_vlu4_u32(n);
        let used = wgr.nibbles_pos();
        let mut rdr = NibbleBuf::new(wgr.as_bytes());
        assert_eq!(rdr.get_vlu4_u32(), Ok(n));
        assert_eq!(rdr.nibbles_pos(), used);
    }
}

#[test]
fn get_slice_alignment() {
    // unaligned access is reported exactly when not at a byte boundary
    let mut rdr = NibbleBuf::new(vec![0x12, 0x34, 0x56]);
    rdr.get_nibble().unwrap();
    assert_eq!(rdr.get_slice(1), Err(Error::UnalignedAccess));
    rdr.get_nibble().unwrap();
    assert_eq!(rdr.get_slice(1), Ok(vec![0x34]));
    assert_eq!(rdr.get_slice(2), Err(Error::OutOfBounds));
    assert!(rdr.is_past_end());
}

#[test]
fn buf_display() {
    let buf = NibbleBuf::new(vec![0x12, 0x34, 0x56]);
    assert_eq!(buf.to_display_string(), "NibbleBuf(1 2 3 4 5 6)")
}

#[test]
fn buf_display_partly_consumed() {
    let mut buf = NibbleBuf::new(vec![0x12, 0x43, 0x21]);
    let _ = buf.get_nibble();
    let _ = buf.get_nibble();
    assert_eq!(buf.to_display_string(), "NibbleBuf(<2< 4 3 2 1)")
}

#[test]
fn array_vlu4_u32_array_iter() {
    let arr = Vlu4U32Array::new(NibbleBuf::new(vec![0x51, 0x23, 0x45]));
    assert_eq!(arr.len(), 5);
    let mut iter = arr.into_iter();
    assert_eq!(iter.next(), Some(1));
    assert_eq!(iter.next(), Some(2));
    assert_eq!(iter.next(), Some(3));
    assert_eq!(iter.next(), Some(4));
    assert_eq!(iter.next(), Some(5));
    assert_eq!(iter.next(), None);
}

#[test]
fn vlu4_vlu4_u32_array_iter() {
    let arr = Vlu4U32Array::new(NibbleBuf::new(vec![0x51, 0x23, 0x45]));
    assert_eq!(arr.len(), 5);
    let mut iter = arr.iter();
    assert_eq!(iter.next(), Some(1));
    assert_eq!(iter.next(), Some(2));
    assert_eq!(iter.next(), Some(3));
    assert_eq!(iter.next(), Some(4));
    assert_eq!(iter.next(), Some(5));
    assert_eq!(iter.next(), None);
}

#[test]
fn aligned_start() {
    let input = vec![0x32, 0xab, 0xcd, 0x30, 0xef, 0xed, 0xcb, 0x20, 0xab, 0xcd, 0x11, 0x22];
    let mut buf = NibbleBuf::new(input);
    let slices: Vlu4SliceArray = Vlu4SliceArray::des_vlu4(&mut buf).unwrap();
    let mut iter = slices.iter();
    assert_eq!(iter.next(), Some(vec![0xab, 0xcd]));
    assert_eq!(iter.next(), Some(vec![0xef, 0xed, 0xcb]));
    assert_eq!(iter.next(), Some(vec![0xab, 0xcd]));
    assert_eq!(iter.next(), None);
    assert_eq!(buf.get_u8(), Ok(0x11));
}

#[test]
fn unaligned_start() {
    let input = vec![0x12, 0x20, 0xab, 0xcd, 0x20, 0xef, 0xfe, 0x11];
    let mut buf = NibbleBuf::new(input);
    assert_eq!(buf.get_nibble(), Ok(1));
    let slices: Vlu4SliceArray = Vlu4SliceArray::des_vlu4(&mut buf).unwrap();
    let mut iter = slices.iter();
    assert_eq!(iter.next(), Some(vec![0xab, 0xcd]));
    assert_eq!(iter.next(), Some(vec![0xef, 0xfe]));
    assert_eq!(iter.next(), None);
    assert_eq!(buf.get_u8(), Ok(0x11));
}

#[test]
fn read_vlu4_u32_single_nibble() {
    let mut rdr = NibbleBuf::new(vec![0b0111_0010, 0b0000_0001]);
    assert_eq!(rdr.get_vlu4_u32(), Ok(7));
    assert_eq!(rdr.get_vlu4_u32(), Ok(2));
    assert_eq!(rdr.get_vlu4_u32(), Ok(0));
    assert_eq!(rdr.get_vlu4_u32(), Ok(1));
    assert!(rdr.is_at_end());
}

#[test]
fn read_vlu4_u32_multi_nibble() {
    let mut rdr = NibbleBuf::new(vec![0b1111_0111, 0b1001_0000, 0b1000_0111]);
    assert_eq!(rdr.get_vlu4_u32(), Ok(63));
    assert_eq!(rdr.nibbles_pos(), 2);
    assert_eq!(rdr.get_vlu4_u32(), Ok(0b001000));
    assert_eq!(rdr.nibbles_pos(), 4);
    assert_eq!(rdr.get_vlu4_u32(), Ok(0b111));
    assert!(rdr.is_at_end());
}

#[test]
fn read_vlu4_u32_max_plus_nibble() {
    // a continuation bit in the 11th nibble is malformed and fuses the reader
    let mut rdr = NibbleBuf::new(vec![0xff, 0xff, 0xff, 0xff, 0xff, 0xf0]);
    assert_eq!(rdr.get_vlu4_u32(), Err(Error::MalformedVlu4U32));
    assert!(rdr.is_at_end());
    assert!(rdr.is_past_end());
}

#[test]
fn write_vlu4_u32_3() {
    let mut wgr = NibbleBufMut::new(vec![0u8; 4]);
    wgr.put_vlu4_u32(3);
    assert_eq!(wgr.nibbles_pos(), 1);
    assert_eq!(wgr.as_bytes()[0], 0b0011_0000);
}
