use block_cipher::{cbc_decode, cbc_encode, ecb_decode, ecb_encode};

const FIXTURE_DATA: &str = r"
                  ___                ___                    ___                    ___     
                 /\__\              /\  \                  /\  \                  /\__\    
                /:/  /             /::\  \                 \:\  \                /::|  |   
               /:/  /             /:/\:\  \                 \:\  \              /:|:|  |   
              /:/  /             /:/  \:\  \                /::\  \            /:/|:|__|__ 
             /:/__/             /:/__/_\:\__\              /:/\:\__\          /:/ |::::\__\
             \:\  \             \:\  /\ \/__/             /:/  \/__/          \/__/~~/:/  /
              \:\  \             \:\ \:\__\              /:/  /                     /:/  / 
               \:\  \             \:\/:/  /              \/__/                     /:/  /  
                \:\__\             \::/  /                                        /:/  /   
                 \/__/              \/__/                                         \/__/    
        ";

#[test]
fn test_ecb_round_trip() {
    let key = vec![0xDE, 0xAD, 0xBE, 0xEF];
    let data: Vec<u8> = FIXTURE_DATA.as_bytes().into();

    let maybe_encrypted = ecb_encode(key.clone(), data.clone());
    assert!(maybe_encrypted.is_ok(), "{maybe_encrypted:?}");
    let enc = maybe_encrypted.unwrap();

    let maybe_decrypted = ecb_decode(key, enc.clone());
    assert!(maybe_decrypted.is_ok(), "{maybe_decrypted:?}");

    let dec = maybe_decrypted.unwrap();

    assert_ne!(enc, dec);
    assert_eq!(data, dec);
}

#[test]
fn test_cbc_round_trip() {
    let key = vec![0xDE, 0xAD, 0xBE, 0xEF];
    let data: Vec<u8> = FIXTURE_DATA.as_bytes().into();
    let iv: u64 = 0x0123_4567_89AB_CDEF;
    let maybe_encrypted = cbc_encode(key.clone(), data.clone(), iv);
    assert!(maybe_encrypted.is_ok(), "{maybe_encrypted:?}");
    let enc = maybe_encrypted.unwrap();

    let maybe_decrypted = cbc_decode(key, enc.clone());
    assert!(maybe_decrypted.is_ok(), "{maybe_decrypted:?}");

    let dec = maybe_decrypted.unwrap();

    assert_ne!(enc, dec);
    assert_eq!(data, dec);
}

#[test]
fn test_ecb_round_trip_empty_message() {
    let key = vec![7u8, 11, 13];
    let enc = ecb_encode(key.clone(), Vec::new()).unwrap();
    // padding always appends one whole extra block
    assert_eq!(enc.len(), 8);
    let dec = ecb_decode(key, enc).unwrap();
    assert_eq!(dec, Vec::<u8>::new());
}

#[test]
fn test_cbc_round_trip_empty_message() {
    let key = vec![42u8];
    let enc = cbc_encode(key.clone(), Vec::new(), 99).unwrap();
    // the IV block plus one padding block
    assert_eq!(enc.len(), 16);
    let dec = cbc_decode(key, enc).unwrap();
    assert_eq!(dec, Vec::<u8>::new());
}

#[test]
fn test_round_trips_for_every_length_up_to_three_blocks() {
    let key = vec![0x10u8, 0x20, 0x30, 0x40, 0x50];
    for n in 0..24usize {
        let data: Vec<u8> = (0..n).map(|i| (i * 7 + 3) as u8).collect();
        let enc = ecb_encode(key.clone(), data.clone()).unwrap();
        assert_eq!(enc.len() % 8, 0);
        assert!(enc.len() >= data.len() + 1);
        assert_eq!(ecb_decode(key.clone(), enc).unwrap(), data);

        let enc = cbc_encode(key.clone(), data.clone(), 0xFEED_BEEF).unwrap();
        assert_eq!(enc.len() % 8, 0);
        assert_eq!(cbc_decode(key.clone(), enc).unwrap(), data);
    }
}

#[test]
fn test_empty_key_is_a_key_length_error() {
    let e = ecb_encode(Vec::new(), vec![1, 2, 3]).unwrap_err();
    assert!(matches!(e, block_cipher::errors::CipherError::KeyLen(_)));
    let e = cbc_encode(Vec::new(), vec![1, 2, 3], 5).unwrap_err();
    assert!(matches!(e, block_cipher::errors::CipherError::KeyLen(_)));
    let e = ecb_decode(Vec::new(), vec![0u8; 8]).unwrap_err();
    assert!(matches!(e, block_cipher::errors::CipherError::KeyLen(_)));
    let e = cbc_decode(Vec::new(), vec![0u8; 16]).unwrap_err();
    assert!(matches!(e, block_cipher::errors::CipherError::KeyLen(_)));
}

#[test]
fn test_wrong_key_fails_or_differs() {
    // decrypting under the wrong key must never silently return the
    // plaintext: either the padding check rejects it, or the bytes differ
    let key = vec![0xAAu8, 0xBB, 0xCC];
    let wrong = vec![0x01u8, 0x02, 0x03];
    let data = b"attack at dawn".to_vec();
    let enc = ecb_encode(key, data.clone()).unwrap();
    match ecb_decode(wrong, enc) {
        Ok(d) => assert_ne!(d, data),
        Err(e) => assert!(matches!(
            e,
            block_cipher::errors::CipherError::DecryptionError(_)
                | block_cipher::errors::CipherError::PaddingError(_)
        )),
    }
}
