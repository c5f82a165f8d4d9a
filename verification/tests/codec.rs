use chain_index::codec::{decode_digest, decode_height, encode_digest, encode_height};
use chain_index::records::Digest;

#[test]
fn height_key_is_big_endian() {
    assert_eq!(encode_height(0), vec![0, 0, 0, 0]);
    assert_eq!(encode_height(0x0102_0304), vec![1, 2, 3, 4]);
    assert_eq!(encode_height(u32::MAX), vec![0xff, 0xff, 0xff, 0xff]);
}

#[test]
fn height_key_round_trips() {
    for h in [0u32, 1, 255, 256, 0xdead_beef, u32::MAX] {
        assert_eq!(decode_height(&encode_height(h)), Some(h));
    }
    assert_eq!(decode_height(&vec![1, 2, 3]), None);
    assert_eq!(decode_height(&vec![1, 2, 3, 4, 5]), None);
}

#[test]
fn height_key_order_matches_numeric_order() {
    let mut keys: Vec<Vec<u8>> = [3u32, 255, 256, 1, 0x0100_0000].iter().map(
        |h| encode_height(*h),
    ).collect();
    keys.sort();
    let expected: Vec<Vec<u8>> = [1u32, 3, 255, 256, 0x0100_0000].iter().map(
        |h| encode_height(*h),
    ).collect();
    assert_eq!(keys, expected);
}

#[test]
fn digest_key_is_raw_fixed_width() {
    let d = Digest { w0: 0x0102_0304_0506_0708, w1: 0, w2: 0, w3: 0xff };
    let bytes = encode_digest(&d);
    assert_eq!(bytes.len(), 32);
    assert_eq!(&bytes[0..8], &[1, 2, 3, 4, 5, 6, 7, 8]);
    assert_eq!(&bytes[8..16], &[0; 8]);
    assert_eq!(&bytes[24..32], &[0, 0, 0, 0, 0, 0, 0, 0xff]);
    let e = Digest { w0: 0x0102_0304_0506_0708, w1: 0, w2: 0, w3: 0xfe };
    assert_ne!(encode_digest(&d), encode_digest(&e));
}

#[test]
fn digest_key_round_trips() {
    let d = Digest {
        w0: 0xdead_beef_0102_0304,
        w1: 42,
        w2: u64::MAX,
        w3: 7,
    };
    assert_eq!(decode_digest(&encode_digest(&d)), Some(d));
    assert_eq!(decode_digest(&vec![0; 31]), None);
    assert_eq!(decode_digest(&vec![0; 33]), None);
}
