use block_cipher::{cbc_encode, ecb_encode};

#[test]
fn test_ecb_identical_plaintext_blocks_give_identical_ciphertext_blocks() {
    // two identical eight-byte blocks in one message, same key
    let key = vec![0x5Au8, 0xA5, 0x3C];
    let mut data = vec![9u8, 8, 7, 6, 5, 4, 3, 2];
    let copy = data.clone();
    data.extend(copy);
    let enc = ecb_encode(key, data).unwrap();
    assert_eq!(enc[0..8], enc[8..16]);
}

#[test]
fn test_cbc_identical_plaintext_blocks_give_different_ciphertext_blocks() {
    // the same two identical blocks, chained: the ciphertext blocks differ
    let key = vec![0x5Au8, 0xA5, 0x3C];
    let mut data = vec![9u8, 8, 7, 6, 5, 4, 3, 2];
    let copy = data.clone();
    data.extend(copy);
    let enc = cbc_encode(key, data, 0xDEAD_BEEF_CAFE_F00D).unwrap();
    // block 0 of the stream is the IV; data blocks start at byte 8
    assert_ne!(enc[8..16], enc[16..24]);
}

#[test]
fn test_cbc_same_message_different_iv_differs() {
    let key = vec![1u8, 2, 3, 4];
    let data = b"chaining starts from the iv".to_vec();
    let a = cbc_encode(key.clone(), data.clone(), 1).unwrap();
    let b = cbc_encode(key, data, 2).unwrap();
    assert_ne!(a, b);
}

#[test]
fn test_cbc_stream_carries_iv_as_first_block() {
    let key = vec![11u8, 22];
    let iv: u64 = 0x1122_3344_5566_7788;
    let enc = cbc_encode(key, b"x".to_vec(), iv).unwrap();
    // high half first, each half little-endian on the wire
    assert_eq!(enc[0..4], [0x44, 0x33, 0x22, 0x11]);
    assert_eq!(enc[4..8], [0x88, 0x77, 0x66, 0x55]);
}

#[test]
fn test_ecb_and_cbc_disagree_on_the_same_message() {
    let key = vec![3u8, 1, 4, 1, 5];
    let data = b"same bytes, two modes".to_vec();
    let e = ecb_encode(key.clone(), data.clone()).unwrap();
    let c = cbc_encode(key, data, 0).unwrap();
    assert_ne!(e, c);
}
