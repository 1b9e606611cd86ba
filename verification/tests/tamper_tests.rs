use block_cipher::cipher::Cipher;
use block_cipher::errors::CipherError;
use block_cipher::feistel::XorNetwork;
use block_cipher::modes::ECB;
use block_cipher::packer::Packer;

// With the byte-wise XOR test double, flipping one ciphertext byte flips
// exactly the matching decrypted byte, so tamper detection in the
// padding region is deterministic.

#[test]
fn test_flipping_any_inner_padding_byte_fails_decryption() {
    let data = b"seven b".to_vec(); // seven bytes: one byte of padding value 1
    let data2 = b"abc".to_vec(); // three bytes: five bytes of padding value 5
    for (plain, _pad) in [(data, 1usize), (data2, 5usize)] {
        let cipher = Cipher::<ECB, XorNetwork>(ECB, XorNetwork { key: 0x2525_2525 });
        let ct = cipher.encrypt::<Packer>(plain.clone()).unwrap();
        // the padding region of the decrypted stream is ct[plain.len()..];
        // every byte of it but the trailing count byte must be caught
        for i in plain.len()..ct.len() - 1 {
            let mut tampered = ct.clone();
            tampered[i] ^= 0x40;
            let e = cipher.decrypt::<Packer>(tampered).unwrap_err();
            assert!(matches!(e, CipherError::DecryptionError(_)), "byte {i}");
        }
    }
}

#[test]
fn test_flipping_a_plaintext_region_byte_is_not_caught_by_padding() {
    // padding validates only its own region: a flip in the data region
    // decrypts to different bytes but strips cleanly
    let plain = b"seven b".to_vec();
    let cipher = Cipher::<ECB, XorNetwork>(ECB, XorNetwork { key: 0x2525_2525 });
    let ct = cipher.encrypt::<Packer>(plain.clone()).unwrap();
    let mut tampered = ct.clone();
    tampered[0] ^= 0x40;
    let dec = cipher.decrypt::<Packer>(tampered).unwrap();
    assert_ne!(dec, plain);
    assert_eq!(dec.len(), plain.len());
}

#[test]
fn test_tampering_the_count_byte_can_repoint_the_padding() {
    // the trailing count byte itself is the one padding byte whose
    // corruption strip cannot always catch: repointing the count to a
    // run of equal bytes validates
    let stripped = Packer::strip_padding_vec(vec![2, 2, 2, 1]).unwrap();
    assert_eq!(stripped, vec![2, 2, 2]);
}

#[test]
fn test_decrypt_with_oversized_count_is_a_padding_error() {
    // with the byte-wise double and key bytes 0x25, the decrypted stream
    // is the ciphertext XOR 0x25 everywhere; craft it so the trailing
    // count byte reads 0xFF, larger than the whole stream
    let cipher = Cipher::<ECB, XorNetwork>(ECB, XorNetwork { key: 0x2525_2525 });
    let decrypted_target: Vec<u8> = vec![0, 0, 0, 0, 0, 0, 0, 0xFF];
    let ct: Vec<u8> = decrypted_target.iter().map(|b| b ^ 0x25).collect();
    let e = cipher.decrypt::<Packer>(ct).unwrap_err();
    assert!(matches!(e, CipherError::PaddingError(_)));
}

#[test]
fn test_error_message_accessor() {
    let e = Packer::strip_padding_vec(Vec::new()).unwrap_err();
    assert_eq!(e.message(), "received empty padding");
    let e = Packer::strip_padding_vec(vec![1, 2, 9]).unwrap_err();
    assert_eq!(e.message(), "corrupted ciphertext");
}

#[test]
fn test_xor_network_round_trip() {
    let cipher = Cipher::<ECB, XorNetwork>(ECB, XorNetwork { key: 0xDEAD_BEEF });
    let data = b"double goes both ways".to_vec();
    let ct = cipher.encrypt::<Packer>(data.clone()).unwrap();
    assert_ne!(ct, data);
    assert_eq!(cipher.decrypt::<Packer>(ct).unwrap(), data);
}
