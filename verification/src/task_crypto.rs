//! Key derivation and the sealed blob: a nonce and an AES-256-GCM
//! ciphertext with its tag, written as lowercase hexadecimal text.

use vstd::prelude::*;
use vstd::slice::slice_subrange;
use crate::error::{bytes_result_is, text_result_is, TaskError};

verus! {

/// The error of the cipher, which tells nothing about its cause.
#[verifier::external_type_specification]
#[verifier::external_body]
pub struct ExCipherError(aes_gcm::Error);

/// The error of the hexadecimal decoder.
#[verifier::external_type_specification]
#[verifier::external_body]
pub struct ExFromHexError(hex::FromHexError);

/// The SHA-256 digest of a byte string.
pub uninterp spec fn sha256(data: Seq<u8>) -> Seq<u8>;

/// What AES-256-GCM makes of a plaintext under a key and a nonce, with no
/// associated data: ciphertext and tag, or nothing where it refuses.
pub uninterp spec fn aes_gcm_sealed(key: Seq<u8>, nonce: Seq<u8>, plaintext: Seq<u8>) -> Option<
    Seq<u8>,
>;

/// What AES-256-GCM recovers from ciphertext and tag under a key and a
/// nonce, or nothing where the tag does not verify.
pub uninterp spec fn aes_gcm_opened(key: Seq<u8>, nonce: Seq<u8>, sealed: Seq<u8>) -> Option<
    Seq<u8>,
>;

/// The number of bytes in a nonce.
pub const NONCE_LEN: usize = 12;

/// The number of bytes in an authentication tag.
pub const TAG_LEN: usize = 16;

/// The lowercase hexadecimal digit of a value below sixteen.
pub open spec fn nibble_char(n: int) -> char {
    seq!['0', '1', '2', '3', '4', '5', '6', '7', '8', '9', 'a', 'b', 'c', 'd', 'e', 'f'][n]
}

/// The value of a hexadecimal digit of either case.
pub open spec fn char_nibble(c: char) -> Option<int> {
    let v = c as u32 as int;
    if 48 <= v <= 57 {
        Some(v - 48)
    } else if 97 <= v <= 102 {
        Some(v - 87)
    } else if 65 <= v <= 70 {
        Some(v - 55)
    } else {
        None
    }
}

/// Two lowercase hexadecimal digits for each byte, the high half first.
pub open spec fn hex_text(bytes: Seq<u8>) -> Seq<char> {
    Seq::new(
        2 * bytes.len(),
        |i: int|
            if i % 2 == 0 {
                nibble_char(bytes[i / 2] as int / 16)
            } else {
                nibble_char(bytes[i / 2] as int % 16)
            },
    )
}

/// Whether a text is made of an even number of hexadecimal digits.
pub open spec fn is_hex(text: Seq<char>) -> bool {
    &&& text.len() % 2 == 0
    &&& forall|i: int| 0 <= i < text.len() ==> (#[trigger] char_nibble(text[i])) is Some
}

/// The bytes that a hexadecimal text stands for, if it is one.
pub open spec fn hex_bytes(text: Seq<char>) -> Option<Seq<u8>> {
    if is_hex(text) {
        Some(
            Seq::new(
                text.len() / 2,
                |i: int|
                    (16 * char_nibble(text[2 * i]).unwrap() + char_nibble(
                        text[2 * i + 1],
                    ).unwrap()) as u8,
            ),
        )
    } else {
        None
    }
}

/// Decoding the hexadecimal text of a byte string gives it back.
pub proof fn lemma_hex_round_trip(bytes: Seq<u8>)
    ensures
        hex_bytes(hex_text(bytes)) == Some(bytes),
{
    let text = hex_text(bytes);
    assert forall|n: int| 0 <= n < 16 implies char_nibble(nibble_char(n)) == Some(n) by {
        assert(char_nibble('0') == Some(0int));
        assert(char_nibble('1') == Some(1int));
        assert(char_nibble('2') == Some(2int));
        assert(char_nibble('3') == Some(3int));
        assert(char_nibble('4') == Some(4int));
        assert(char_nibble('5') == Some(5int));
        assert(char_nibble('6') == Some(6int));
        assert(char_nibble('7') == Some(7int));
        assert(char_nibble('8') == Some(8int));
        assert(char_nibble('9') == Some(9int));
        assert(char_nibble('a') == Some(10int));
        assert(char_nibble('b') == Some(11int));
        assert(char_nibble('c') == Some(12int));
        assert(char_nibble('d') == Some(13int));
        assert(char_nibble('e') == Some(14int));
        assert(char_nibble('f') == Some(15int));
    }
    assert forall|i: int| 0 <= i < text.len() implies (#[trigger] char_nibble(text[i])) is Some by {
        let b = bytes[i / 2] as int;
        assert(0 <= b / 16 < 16 && 0 <= b % 16 < 16);
    }
    assert(is_hex(text));
    let back = hex_bytes(text).unwrap();
    assert forall|i: int| 0 <= i < bytes.len() implies back[i] == bytes[i] by {
        let b = bytes[i] as int;
        assert(0 <= b / 16 < 16 && 0 <= b % 16 < 16);
        assert((2 * i) / 2 == i && (2 * i + 1) / 2 == i);
        assert((2 * i) % 2 == 0 && (2 * i + 1) % 2 == 1);
        assert(text[2 * i] == nibble_char(b / 16));
        assert(text[2 * i + 1] == nibble_char(b % 16));
        assert(16 * (b / 16) + b % 16 == b);
    }
    assert(back =~= bytes);
}

/// The blob that sealing gives for a nonce: the hexadecimal text of the
/// nonce followed by ciphertext and tag.
pub open spec fn seal_spec(data: Seq<u8>, key: Seq<u8>, nonce: Seq<u8>) -> Result<
    Seq<char>,
    TaskError,
> {
    match aes_gcm_sealed(key, nonce, data) {
        Some(sealed) => Ok(hex_text(nonce + sealed)),
        None => Err(TaskError::Crypto),
    }
}

/// What opening a blob gives: the plaintext, or the reason for refusing.
pub open spec fn open_spec(blob: Seq<char>, key: Seq<u8>) -> Result<Seq<u8>, TaskError> {
    match hex_bytes(blob) {
        None => Err(TaskError::Encoding),
        Some(raw) => if raw.len() < NONCE_LEN {
            Err(TaskError::Encoding)
        } else {
            match aes_gcm_opened(
                key,
                raw.subrange(0, NONCE_LEN as int),
                raw.subrange(NONCE_LEN as int, raw.len() as int),
            ) {
                Some(plain) => Ok(plain),
                None => Err(TaskError::Crypto),
            }
        },
    }
}

/// Calls `sha2::Sha256::digest`. The contract names the digest, which is a
/// function of the input bytes alone; its length is that of the array.
#[verifier::external_body]
fn sha256_digest(data: &[u8]) -> (r: [u8; 32])
    ensures
        r@ == sha256(data@),
{
    <sha2::Sha256 as sha2::Digest>::digest(data).into()
}

/// Calls `rand::Rng::fill` on `rand::rngs::OsRng` for a nonce. Nothing is
/// promised of the bytes: they come from the operating system.
#[verifier::external_body]
fn fresh_nonce() -> (r: [u8; 12]) {
    let mut nonce = [0u8; 12];
    rand::Rng::fill(&mut rand::rngs::OsRng, &mut nonce);
    nonce
}

/// Calls `encrypt` of `aes_gcm::Aes256Gcm` with no associated data. The
/// contract names the outcome, and claims of the cipher that the tag
/// adds sixteen bytes to the payload and that what it sealed it opens
/// again under the same key and nonce.
#[verifier::external_body]
fn aes_seal(key: &[u8; 32], nonce: &[u8; 12], data: &[u8]) -> (r: Result<Vec<u8>, aes_gcm::Error>)
    ensures
        match r {
            Ok(sealed) => {
                &&& aes_gcm_sealed(key@, nonce@, data@) == Some(sealed@)
                &&& sealed@.len() == data@.len() + TAG_LEN
                &&& aes_gcm_opened(key@, nonce@, sealed@) == Some(data@)
            },
            Err(_) => aes_gcm_sealed(key@, nonce@, data@) is None,
        },
{
    let cipher = <aes_gcm::Aes256Gcm as aes_gcm::KeyInit>::new(
        aes_gcm::Key::<aes_gcm::Aes256Gcm>::from_slice(key),
    );
    aes_gcm::aead::Aead::encrypt(&cipher, aes_gcm::Nonce::from_slice(nonce), data)
}

/// Calls `decrypt` of `aes_gcm::Aes256Gcm` with no associated data. The
/// contract names the outcome: the plaintext, or an error where the tag
/// does not verify.
#[verifier::external_body]
fn aes_open(key: &[u8; 32], nonce: &[u8], sealed: &[u8]) -> (r: Result<Vec<u8>, aes_gcm::Error>)
    requires
        nonce@.len() == NONCE_LEN,
    ensures
        match r {
            Ok(plain) => aes_gcm_opened(key@, nonce@, sealed@) == Some(plain@),
            Err(_) => aes_gcm_opened(key@, nonce@, sealed@) is None,
        },
{
    let cipher = <aes_gcm::Aes256Gcm as aes_gcm::KeyInit>::new(
        aes_gcm::Key::<aes_gcm::Aes256Gcm>::from_slice(key),
    );
    aes_gcm::aead::Aead::decrypt(&cipher, aes_gcm::Nonce::from_slice(nonce), sealed)
}

/// Calls `hex::encode`: two lowercase digits for each byte.
#[verifier::external_body]
fn hex_encode(data: &[u8]) -> (r: String)
    ensures
        r@ == hex_text(data@),
{
    hex::encode(data)
}

/// Calls `hex::decode`: the bytes where the text is an even number of
/// hexadecimal digits of either case, an error otherwise.
#[verifier::external_body]
fn hex_decode(text: &str) -> (r: Result<Vec<u8>, hex::FromHexError>)
    ensures
        match r {
            Ok(bytes) => hex_bytes(text@) == Some(bytes@),
            Err(_) => hex_bytes(text@) is None,
        },
{
    hex::decode(text)
}

/// The key of a passphrase: its SHA-256 digest, with no salt.
pub fn derive_key(password: &[u8]) -> (key: [u8; 32])
    ensures
        key@ == sha256(password@),
{
    sha256_digest(password)
}

/// Seals a payload under a key with the nonce given. The blob is fixed by
/// the three, and opening it under the same key gives the payload back.
pub fn seal_with_nonce(data: &[u8], key: &[u8; 32], nonce: &[u8; 12]) -> (r: Result<
    String,
    TaskError,
>)
    ensures
        text_result_is(r, seal_spec(data@, key@, nonce@)),
        r matches Ok(blob) ==> open_spec(blob@, key@) == Ok::<Seq<u8>, TaskError>(data@),
        r matches Ok(blob) ==> blob@.len() == 2 * (NONCE_LEN + data@.len() + TAG_LEN),
{
    match aes_seal(key, nonce, data) {
        Ok(sealed) => {
            let mut raw: Vec<u8> = Vec::new();
            raw.extend_from_slice(nonce.as_slice());
            raw.extend_from_slice(sealed.as_slice());
            let blob = hex_encode(raw.as_slice());
            proof {
                assert(raw@ =~= nonce@ + sealed@);
                lemma_hex_round_trip(raw@);
                assert(raw@.subrange(0, NONCE_LEN as int) =~= nonce@);
                assert(raw@.subrange(NONCE_LEN as int, raw@.len() as int) =~= sealed@);
            }
            Ok(blob)
        },
        Err(_) => Err(TaskError::Crypto),
    }
}

/// Seals a payload under a key with a nonce drawn afresh. Two calls differ
/// in the nonce; whatever it was, the blob opens to the payload.
pub fn seal(data: &[u8], key: &[u8; 32]) -> (r: Result<String, TaskError>)
    ensures
        exists|nonce: Seq<u8>|
            nonce.len() == NONCE_LEN && text_result_is(r, #[trigger] seal_spec(data@, key@, nonce)),
        r matches Ok(blob) ==> open_spec(blob@, key@) == Ok::<Seq<u8>, TaskError>(data@),
        r matches Ok(blob) ==> blob@.len() == 2 * (NONCE_LEN + data@.len() + TAG_LEN),
{
    let nonce = fresh_nonce();
    let r = seal_with_nonce(data, key, &nonce);
    proof {
        assert(nonce@.len() == NONCE_LEN);
        assert(text_result_is(r, seal_spec(data@, key@, nonce@)));
    }
    r
}

/// Opens a blob under a key. Text that is not hexadecimal, or that holds
/// fewer bytes than a nonce, is an encoding error; a blob that the cipher
/// does not authenticate is a crypto error, and no bytes are given out.
pub fn open(blob: &str, key: &[u8; 32]) -> (r: Result<Vec<u8>, TaskError>)
    ensures
        bytes_result_is(r, open_spec(blob@, key@)),
{
    match hex_decode(blob) {
        Err(_) => Err(TaskError::Encoding),
        Ok(raw) => {
            if raw.len() < NONCE_LEN {
                Err(TaskError::Encoding)
            } else {
                let nonce = slice_subrange(raw.as_slice(), 0, NONCE_LEN);
                let sealed = slice_subrange(raw.as_slice(), NONCE_LEN, raw.len());
                match aes_open(key, nonce, sealed) {
                    Ok(plain) => Ok(plain),
                    Err(_) => Err(TaskError::Crypto),
                }
            }
        },
    }
}

/// Seals a payload under the key of a passphrase.
pub fn encrypt(data: &[u8], pw: &[u8]) -> (r: Result<String, TaskError>)
    ensures
        exists|nonce: Seq<u8>|
            nonce.len() == NONCE_LEN && text_result_is(
                r,
                #[trigger] seal_spec(data@, sha256(pw@), nonce),
            ),
        r matches Ok(blob) ==> open_spec(blob@, sha256(pw@)) == Ok::<Seq<u8>, TaskError>(data@),
{
    let key = derive_key(pw);
    seal(data, &key)
}

/// Opens a blob under the key of a passphrase.
pub fn decrypt(encrypted_data: &str, pw: &[u8]) -> (r: Result<Vec<u8>, TaskError>)
    ensures
        bytes_result_is(r, open_spec(encrypted_data@, sha256(pw@))),
{
    let key = derive_key(pw);
    open(encrypted_data, &key)
}

} // verus!
