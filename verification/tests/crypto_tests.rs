use rtasks::error::TaskError;
use rtasks::task_crypto::{decrypt, derive_key, encrypt, open, seal, seal_with_nonce};

#[test]
fn derive_key_is_sha256_of_the_passphrase() {
    let key = derive_key(b"abc");
    let expected: [u8; 32] = [
        0xba, 0x78, 0x16, 0xbf, 0x8f, 0x01, 0xcf, 0xea, 0x41, 0x41, 0x40, 0xde, 0x5d, 0xae, 0x22,
        0x23, 0xb0, 0x03, 0x61, 0xa3, 0x96, 0x17, 0x7a, 0x9c, 0xb4, 0x10, 0xff, 0x61, 0xf2, 0x00,
        0x15, 0xad,
    ];
    assert_eq!(key, expected);
}

#[test]
fn derive_key_of_empty_passphrase() {
    let key = derive_key(b"");
    assert_eq!(key[0], 0xe3);
    assert_eq!(key[1], 0xb0);
    assert_eq!(key[31], 0x55);
}

#[test]
fn derive_key_is_deterministic() {
    assert_eq!(derive_key(b"secret"), derive_key(b"secret"));
    assert_ne!(derive_key(b"secret"), derive_key(b"Secret"));
}

#[test]
fn seal_with_nonce_known_vector_empty_payload() {
    let blob = seal_with_nonce(b"", &[0u8; 32], &[0u8; 12]).unwrap();
    assert_eq!(blob, "000000000000000000000000530f8afbc74536b9a963b4f1c4cb738b");
}

#[test]
fn seal_with_nonce_known_vector_one_block() {
    let blob = seal_with_nonce(&[0u8; 16], &[0u8; 32], &[0u8; 12]).unwrap();
    assert_eq!(
        blob,
        "000000000000000000000000cea7403d4d606b6e074ec5d3baf39d18d0d1c8a799996bf0265b98b5d48ab919"
    );
}

#[test]
fn seal_with_nonce_starts_with_the_nonce_in_lowercase_hex() {
    let nonce: [u8; 12] = [0x00, 0x01, 0x0a, 0x0f, 0x10, 0x7f, 0x80, 0xab, 0xcd, 0xef, 0xfe, 0xff];
    let blob = seal_with_nonce(b"hello", &[7u8; 32], &nonce).unwrap();
    assert!(blob.starts_with("00010a0f107f80abcdeffeff"));
    assert_eq!(blob.len(), 2 * (12 + 5 + 16));
    assert!(blob.chars().all(|c| c.is_ascii_digit() || ('a'..='f').contains(&c)));
}

#[test]
fn open_gives_back_what_seal_took() {
    let key = [42u8; 32];
    let payloads: Vec<Vec<u8>> = vec![vec![], vec![0], b"plain text".to_vec(), vec![0xff; 1000]];
    for m in payloads {
        let blob = seal(&m, &key).unwrap();
        assert_eq!(open(&blob, &key), Ok(m));
    }
}

#[test]
fn open_with_another_key_is_a_crypto_error() {
    let blob = seal(b"payload", &[1u8; 32]).unwrap();
    assert_eq!(open(&blob, &[2u8; 32]), Err(TaskError::Crypto));
}

#[test]
fn sealing_twice_gives_two_blobs_that_open_alike() {
    let key = [9u8; 32];
    let a = seal(b"same", &key).unwrap();
    let b = seal(b"same", &key).unwrap();
    assert_ne!(a, b);
    assert_eq!(open(&a, &key), Ok(b"same".to_vec()));
    assert_eq!(open(&b, &key), Ok(b"same".to_vec()));
}

#[test]
fn open_accepts_capital_hex_digits() {
    let key = [3u8; 32];
    let blob = seal_with_nonce(b"abc", &key, &[5u8; 12]).unwrap();
    assert_eq!(open(&blob.to_uppercase(), &key), Ok(b"abc".to_vec()));
}

#[test]
fn open_refuses_text_that_is_not_hex() {
    let key = [0u8; 32];
    assert_eq!(open("zz", &key), Err(TaskError::Encoding));
    assert_eq!(open("abc", &key), Err(TaskError::Encoding));
    assert_eq!(open("id,title", &key), Err(TaskError::Encoding));
    assert_eq!(open("00\n", &key), Err(TaskError::Encoding));
}

#[test]
fn open_refuses_a_blob_shorter_than_a_nonce() {
    let key = [0u8; 32];
    assert_eq!(open("", &key), Err(TaskError::Encoding));
    assert_eq!(open("0011223344556677889900", &key), Err(TaskError::Encoding));
}

#[test]
fn open_refuses_a_blob_without_a_whole_tag() {
    let key = [0u8; 32];
    assert_eq!(open("001122334455667788990011", &key), Err(TaskError::Crypto));
    assert_eq!(open("00112233445566778899001122", &key), Err(TaskError::Crypto));
}

#[test]
fn open_refuses_a_blob_that_was_altered() {
    let key = [8u8; 32];
    let blob = seal_with_nonce(b"payload", &key, &[1u8; 12]).unwrap();
    let last = blob.chars().last().unwrap();
    let swapped = if last == '0' { '1' } else { '0' };
    let mut altered = blob[..blob.len() - 1].to_string();
    altered.push(swapped);
    assert_eq!(open(&altered, &key), Err(TaskError::Crypto));
}

#[test]
fn encrypt_then_decrypt_with_the_passphrase() {
    let blob = encrypt(b"some bytes", b"secret").unwrap();
    assert_eq!(decrypt(&blob, b"secret"), Ok(b"some bytes".to_vec()));
    assert_eq!(decrypt(&blob, b"wrong"), Err(TaskError::Crypto));
}

#[test]
fn encrypt_is_seal_under_the_derived_key() {
    let blob = encrypt(b"x", b"pw").unwrap();
    assert_eq!(open(&blob, &derive_key(b"pw")), Ok(b"x".to_vec()));
}

#[test]
fn error_messages() {
    assert_eq!(TaskError::Io.message(), "IO error");
    assert_eq!(TaskError::Encoding.message(), "Encoding error");
    assert_eq!(TaskError::Crypto.message(), "Crypto error");
    assert_eq!(TaskError::Format.message(), "Format error");
}
