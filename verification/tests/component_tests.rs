use block_cipher::block::Block;
use block_cipher::decryptor::Decryptor;
use block_cipher::encryptor::Encryptor;
use block_cipher::errors::{rgb_string, CipherError};
use block_cipher::key_fncs::{key_segment, key_slice};
use block_cipher::mixer::Mixer;
use block_cipher::modes::{CBC, ECB};
use block_cipher::packer::{PackBytes, Packer};
use std::collections::VecDeque;

#[test]
fn test_full_block_concatenates_l_high_r_low() {
    let b = Block { l: 0x1122_3344u32, r: 0x5566_7788u32 };
    assert_eq!(b.full_block(), 0x1122_3344_5566_7788);
}

#[test]
fn test_cbc_mode_xor_merges_full_register() {
    let mut b = Block { l: 0xFFFF_0000u32, r: 0x0000_FFFFu32 };
    b.cbc_mode_xor(0x0F0F_0F0F_F0F0_F0F0);
    assert_eq!(b.l, 0xF0F0_0F0F);
    assert_eq!(b.r, 0xF0F0_0F0F);
    // XOR with the same value restores the block
    b.cbc_mode_xor(0x0F0F_0F0F_F0F0_F0F0);
    assert_eq!(b, Block { l: 0xFFFF_0000, r: 0x0000_FFFF });
}

#[test]
fn test_block_to_bytes_little_endian_l_then_r() {
    let b = Block { l: 0x0403_0201u32, r: 0x0807_0605u32 };
    assert_eq!(b.to_bytes(), vec![1, 2, 3, 4, 5, 6, 7, 8]);
}

#[test]
fn test_key_segment_wraps_modulo_key_length() {
    let key = [10u8, 20, 30];
    assert_eq!(key_segment(&key, 0), 10);
    assert_eq!(key_segment(&key, 1), 20);
    assert_eq!(key_segment(&key, 2), 30);
    assert_eq!(key_segment(&key, 3), 10);
    assert_eq!(key_segment(&key, 7), 20);
}

#[test]
fn test_key_slice_truncates_to_block_count() {
    let key: [u8; 4] = [1, 2, 3, 4];
    // six subblocks: three blocks, fewer than the key length
    let dq: VecDeque<u64> = vec![0u64; 6].into_iter().collect();
    let (blocks, kk) = key_slice(&dq, &key);
    assert_eq!(blocks, 3);
    assert_eq!(kk, vec![1, 2, 3]);
    // ten subblocks: five blocks, more than the key length
    let dq: VecDeque<u64> = vec![0u64; 10].into_iter().collect();
    let (blocks, kk) = key_slice(&dq, &key);
    assert_eq!(blocks, 5);
    assert_eq!(kk, vec![1, 2, 3, 4]);
}

#[test]
fn test_rgb_string_exact_escape() {
    assert_eq!(rgb_string(255, 0, 0), "\x1b[38;2;255;0;0m");
    assert_eq!(rgb_string(200, 200, 0), "\x1b[38;2;200;200;0m");
    assert_eq!(rgb_string(7, 42, 108), "\x1b[38;2;7;42;108m");
}

#[test]
fn test_mixer_initialize_rejects_empty_key() {
    let e = Mixer::initialize(Vec::new()).unwrap_err();
    assert!(matches!(e, CipherError::KeyLen(_)));
    assert!(Mixer::initialize(vec![1]).is_ok());
}

#[test]
fn test_encryptor_and_decryptor_halves_round_trip() {
    let key = vec![0x42u8, 0x43];
    let data = b"split into two halves".to_vec();
    let padded = Packer::pad_bytes::<8>(data.clone()).unwrap();
    let message: VecDeque<u32> = <Packer as PackBytes<u32>>::u8s_to_vecdeque(padded);

    let mixer = Mixer::initialize(key.clone()).unwrap();
    let wire = Encryptor::<ECB, Mixer>(ECB, mixer).encrypt(message);

    let packed_ct: VecDeque<u32> = <Packer as PackBytes<u32>>::u8s_to_vecdeque(wire);
    let mixer = Mixer::initialize(key).unwrap();
    let plain = Decryptor::<ECB, Mixer>(ECB, mixer).decrypt(packed_ct).unwrap();
    assert_eq!(plain, data);
}

#[test]
fn test_cipher_struct_cbc_round_trip() {
    let key = vec![0x42u8, 0x43, 0x44];
    let data = b"the orchestrator itself".to_vec();
    let mixer = Mixer::initialize(key.clone()).unwrap();
    let cbc = CBC { init_vec: Some(777) };
    let cipher = block_cipher::cipher::Cipher::<CBC, Mixer>(cbc, mixer);
    let enc = cipher.encrypt::<Packer>(data.clone()).unwrap();
    let mixer = Mixer::initialize(key).unwrap();
    let cipher = block_cipher::cipher::Cipher::<CBC, Mixer>(CBC { init_vec: None }, mixer);
    let dec = cipher.decrypt::<Packer>(enc).unwrap();
    assert_eq!(dec, data);
}
