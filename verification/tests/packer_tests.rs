use block_cipher::errors::CipherError;
use block_cipher::packer::{convert, PackBytes, Packer};

#[test]
fn test_pad_unaligned_appends_missing_count() {
    // five bytes, block size eight: three bytes of value three
    let padded = Packer::pad_bytes::<8>(vec![10, 20, 30, 40, 50]).unwrap();
    assert_eq!(padded, vec![10, 20, 30, 40, 50, 3, 3, 3]);
}

#[test]
fn test_pad_aligned_appends_whole_extra_block() {
    let padded = Packer::pad_bytes::<8>(vec![1, 2, 3, 4, 5, 6, 7, 8]).unwrap();
    assert_eq!(padded, vec![1, 2, 3, 4, 5, 6, 7, 8, 8, 8, 8, 8, 8, 8, 8, 8]);
}

#[test]
fn test_pad_empty_appends_whole_block() {
    let padded = Packer::pad_bytes::<8>(Vec::new()).unwrap();
    assert_eq!(padded, vec![8u8; 8]);
}

#[test]
fn test_pad_then_strip_is_identity() {
    for n in 0..40usize {
        let data: Vec<u8> = (0..n).map(|i| (i * 31 + 1) as u8).collect();
        let padded = Packer::pad_bytes::<8>(data.clone()).unwrap();
        assert_eq!(padded.len() % 8, 0);
        assert!(padded.len() >= data.len() + 1);
        assert_eq!(Packer::strip_padding_vec(padded).unwrap(), data);
    }
}

#[test]
fn test_strip_empty_is_padding_error() {
    let e = Packer::strip_padding_vec(Vec::new()).unwrap_err();
    assert!(matches!(e, CipherError::PaddingError(_)));
}

#[test]
fn test_strip_count_exceeding_length_is_padding_error() {
    let e = Packer::strip_padding_vec(vec![1, 2, 9]).unwrap_err();
    assert!(matches!(e, CipherError::PaddingError(_)));
}

#[test]
fn test_strip_bad_padding_bytes_is_decryption_error() {
    // the last byte declares three bytes of padding, but they differ
    let e = Packer::strip_padding_vec(vec![1, 2, 3, 9, 3, 3]).unwrap_err();
    assert!(matches!(e, CipherError::DecryptionError(_)));
}

#[test]
fn test_tampering_inside_padding_region_is_detected() {
    // flip every padding byte but the count byte, one at a time
    let data: Vec<u8> = vec![0xAB, 0xCD, 0xEF];
    let padded = Packer::pad_bytes::<8>(data.clone()).unwrap();
    let pad_start = data.len();
    for i in pad_start..padded.len() - 1 {
        let mut tampered = padded.clone();
        tampered[i] ^= 0x55;
        let e = Packer::strip_padding_vec(tampered).unwrap_err();
        assert!(matches!(e, CipherError::DecryptionError(_)), "byte {i}");
    }
}

#[test]
fn test_u8s_to_subblock_is_little_endian() {
    let x: u32 = <Packer as PackBytes<u32>>::u8s_to_subblock(&[0x01, 0x02, 0x03, 0x04]);
    assert_eq!(x, 0x0403_0201);
    let y: u64 = <Packer as PackBytes<u64>>::u8s_to_subblock(&[1, 2, 3, 4, 5, 6, 7, 8]);
    assert_eq!(y, 0x0807_0605_0403_0201);
}

#[test]
fn test_u8s_to_subblock_zero_extends_short_chunks() {
    let x: u32 = <Packer as PackBytes<u32>>::u8s_to_subblock(&[0xFF]);
    assert_eq!(x, 0xFF);
    let y: u64 = <Packer as PackBytes<u64>>::u8s_to_subblock(&[0, 0, 0, 0, 1]);
    assert_eq!(y, 0x01_0000_0000);
}

#[test]
fn test_u8s_to_vecdeque_chunks_in_order() {
    let dq = <Packer as PackBytes<u32>>::u8s_to_vecdeque(vec![1, 0, 0, 0, 2, 0, 0, 0, 3]);
    let got: Vec<u32> = dq.into_iter().collect();
    assert_eq!(got, vec![1, 2, 3]);
}

#[test]
fn test_convert_exact_value() {
    assert_eq!(convert(&[0x10; 8]), 0x1010_1010_1010_1010);
    assert_eq!(convert(b"A"), 0x41);
    assert_eq!(convert(&[]), 0);
}
