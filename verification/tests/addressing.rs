use xpi_vlu4::MultiUri;
use xpi_vlu4::NibbleBuf;
use xpi_vlu4::UriMask;
use xpi_vlu4::Vlu4U32Array;

#[test]
fn test_mask_u8() {
    let mask = UriMask::ByBitfield8(0b1010_0001);
    let mut mask_iter = mask.iter();
    assert_eq!(mask_iter.next(), Some(0));
    assert_eq!(mask_iter.next(), Some(2));
    assert_eq!(mask_iter.next(), Some(7));
    assert_eq!(mask_iter.next(), None);
}

#[test]
fn test_mask_u32() {
    let mask = UriMask::ByBitfield32(0b1000_0000_0000_1000_0000_0000_0000_0001);
    let mut mask_iter = mask.iter();
    assert_eq!(mask_iter.next(), Some(0));
    assert_eq!(mask_iter.next(), Some(12));
    assert_eq!(mask_iter.next(), Some(31));
    assert_eq!(mask_iter.next(), None);
}

#[test]
fn test_mask_u16() {
    let mask = UriMask::ByBitfield16(0b1000_0000_0000_0010);
    let mut mask_iter = mask.iter();
    assert_eq!(mask_iter.next(), Some(0));
    assert_eq!(mask_iter.next(), Some(14));
    assert_eq!(mask_iter.next(), None);
}

#[test]
fn test_mask_array() {
    let arr = Vlu4U32Array::new(NibbleBuf::new(vec![0b0010_1111, 0b0111_0001]));
    let mask = UriMask::ByIndices(arr);
    let mut mask_iter = mask.iter();
    assert_eq!(mask_iter.next(), Some(63));
    assert_eq!(mask_iter.next(), Some(1));
    assert_eq!(mask_iter.next(), None);
}

#[test]
fn test_mask_all() {
    let mask = UriMask::All(4);
    let mut mask_iter = mask.iter();
    assert_eq!(mask_iter.next(), Some(0));
    assert_eq!(mask_iter.next(), Some(1));
    assert_eq!(mask_iter.next(), Some(2));
    assert_eq!(mask_iter.next(), Some(3));
    assert_eq!(mask_iter.next(), None);
}

#[test]
fn one_pair_mask_u16() {
    let rdr = NibbleBuf::new(vec![0x13, 0x12, 0x31, 0xab, 0xcd]);
    let multi_uri = MultiUri::new(rdr);
    let mut multi_uri_iter = multi_uri.iter();
    let (uri, mask) = multi_uri_iter.next().unwrap();
    assert!(multi_uri_iter.next().is_none());
    assert!(!multi_uri_iter.is_past_end());

    let mut uri_iter = uri.iter();
    assert_eq!(uri_iter.next(), Some(1));
    assert_eq!(uri_iter.next(), Some(2));
    assert_eq!(uri_iter.next(), Some(3));
    assert_eq!(uri_iter.next(), None);

    assert!(matches!(mask, UriMask::ByBitfield16(0xabcd)));
}

#[test]
fn one_pair_mask_indices() {
    let rdr = NibbleBuf::new(vec![0x12, 0x12, 0x52, 0x35]);
    let multi_uri = MultiUri::new(rdr);
    let mut multi_uri_iter = multi_uri.iter();
    let (uri, mask) = multi_uri_iter.next().unwrap();
    assert!(multi_uri_iter.next().is_none());
    assert!(!multi_uri_iter.is_past_end());

    let mut uri_iter = uri.iter();
    assert_eq!(uri_iter.next(), Some(1));
    assert_eq!(uri_iter.next(), Some(2));
    assert_eq!(uri_iter.next(), None);

    assert!(matches!(mask, UriMask::ByIndices(_)));
    if let UriMask::ByIndices(indices) = mask {
        let mut indices_iter = indices.iter();
        assert_eq!(indices_iter.next(), Some(3));
        assert_eq!(indices_iter.next(), Some(5));
        assert_eq!(indices_iter.next(), None);
    }
}

#[test]
fn two_pairs_mask_all() {
    let rdr = NibbleBuf::new(vec![0x22, 0x12, 0x63, 0x25, 0x66, 0x70]);
    let multi_uri = MultiUri::new(rdr);
    let mut multi_uri_iter = multi_uri.iter();

    let (uri0, mask0) = multi_uri_iter.next().unwrap();
    let (uri1, mask1) = multi_uri_iter.next().unwrap();
    assert!(multi_uri_iter.next().is_none());
    assert!(!multi_uri_iter.is_past_end());

    let mut uri_iter = uri0.iter();
    assert_eq!(uri_iter.next(), Some(1));
    assert_eq!(uri_iter.next(), Some(2));
    assert_eq!(uri_iter.next(), None);

    assert!(matches!(mask0, UriMask::All(3)));

    let mut uri_iter = uri1.iter();
    assert_eq!(uri_iter.next(), Some(5));
    assert_eq!(uri_iter.next(), Some(6));
    assert_eq!(uri_iter.next(), None);

    assert!(matches!(mask1, UriMask::All(7)));
}

#[test]
fn multi_uri_flat_count() {
    // one pair, mask All(3) over base /1/2: three flattened URIs
    let multi_uri = MultiUri::new(NibbleBuf::new(vec![0x12, 0x12, 0x63, 0x00]));
    let (uris, more) = multi_uri.flat_uris(100);
    assert!(!more);
    assert_eq!(uris.len(), 3);
    assert_eq!(uris[0], vec![1, 2, 0]);
    assert_eq!(uris[1], vec![1, 2, 1]);
    assert_eq!(uris[2], vec![1, 2, 2]);
}

#[test]
fn multi_uri_flat_saturation() {
    // a mask selecting more than the cap reports the overflow
    let multi_uri = MultiUri::new(NibbleBuf::new(vec![0x10, 0x6C, 0x00]));
    // All(32): count 32 is vlu4 "0xC 0x0"
    let (uris, more) = multi_uri.flat_uris(8);
    assert!(more);
    assert_eq!(uris.len(), 8);
    assert_eq!(uris[0], vec![0]);
    assert_eq!(uris[7], vec![7]);
}
