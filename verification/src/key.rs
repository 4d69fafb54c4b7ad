//! Encryption and decryption of segment data with AES-128-CBC and AES-256-GCM.
use vstd::prelude::*;
use vstd::string::*;
use vstd::slice::{slice_subrange, slice_to_vec};
use crate::text::owned;

verus! {

/// The largest plaintext AES-GCM takes, in bytes.
pub const GCM_MAX_PLAINTEXT: u64 = 68719476704;

/// The text `block_padding::Error` displays.
pub open spec fn padding_error_text() -> Seq<char> {
    "Padding error"@
}

/// The text `aead::Error` displays.
pub open spec fn aead_error_text() -> Seq<char> {
    "aead::Error"@
}

/// The ciphertext that `cbc::Encryptor<aes::Aes128>` with PKCS#7 padding makes of `pt`
/// under `key` and `iv`.
pub uninterp spec fn aes128_cbc_encrypt_result(pt: Seq<u8>, key: Seq<u8>, iv: Seq<u8>) -> Seq<u8>;

/// The plaintext that `cbc::Decryptor<aes::Aes128>` with PKCS#7 padding recovers from `ct`
/// under `key` and `iv`, or `None` where the length or the padding is wrong.
pub uninterp spec fn aes128_cbc_decrypt_result(ct: Seq<u8>, key: Seq<u8>, iv: Seq<u8>) -> Option<Seq<u8>>;

/// The ciphertext and tag that AES-256-GCM with a 16-byte nonce makes of `pt`.
pub uninterp spec fn aes256_gcm_encrypt_result(pt: Seq<u8>, key: Seq<u8>, nonce: Seq<u8>) -> Seq<u8>;

/// The plaintext that AES-256-GCM with a 16-byte nonce recovers from ciphertext and tag
/// `ct`, or `None` where the tag does not authenticate it.
pub uninterp spec fn aes256_gcm_decrypt_result(ct: Seq<u8>, key: Seq<u8>, nonce: Seq<u8>) -> Option<Seq<u8>>;

/// Calls `cbc::Encryptor::<aes::Aes128>::new_from_slices` and `encrypt_padded_vec` with
/// `Pkcs7`. Claimed: the result is the named ciphertext; PKCS#7 adds one to sixteen bytes,
/// up to the next multiple of the block size of sixteen bytes.
#[verifier::external_body]
fn cbc_encrypt(pt: &[u8], key: &[u8], iv: &[u8]) -> (r: Vec<u8>)
    requires
        key@.len() == 16,
        iv@.len() == 16,
    ensures
        r@ == aes128_cbc_encrypt_result(pt@, key@, iv@),
        r@.len() == (pt@.len() / 16 + 1) * 16,
{
    let enc = <cbc::Encryptor<aes::Aes128> as aes::cipher::KeyIvInit>::new_from_slices(key, iv).unwrap();
    aes::cipher::BlockModeEncrypt::encrypt_padded_vec::<aes::cipher::block_padding::Pkcs7>(enc, pt)
}

/// Calls `cbc::Decryptor::<aes::Aes128>::new_from_slices` and `decrypt_padded_vec` with
/// `Pkcs7`, the error turned into its text. Claimed: the result is the named plaintext, and
/// the error's text is the one `block_padding::Error` displays; a ciphertext that the
/// encryptor made under the same key and IV gives back its plaintext.
#[verifier::external_body]
fn cbc_decrypt(ct: &[u8], key: &[u8], iv: &[u8]) -> (r: Result<Vec<u8>, String>)
    requires
        key@.len() == 16,
        iv@.len() == 16,
    ensures
        aes128_cbc_decrypt_result(ct@, key@, iv@) is Some ==> r is Ok && r->Ok_0@ == aes128_cbc_decrypt_result(ct@, key@, iv@)->0,
        aes128_cbc_decrypt_result(ct@, key@, iv@) is None ==> r is Err && r->Err_0@ == padding_error_text(),
        forall|p: Seq<u8>|
            #[trigger] aes128_cbc_encrypt_result(p, key@, iv@) == ct@ ==> r is Ok && r->Ok_0@ == p,
{
    let dec = <cbc::Decryptor<aes::Aes128> as aes::cipher::KeyIvInit>::new_from_slices(key, iv).unwrap();
    match aes::cipher::BlockModeDecrypt::decrypt_padded_vec::<aes::cipher::block_padding::Pkcs7>(dec, ct) {
        Ok(v) => Ok(v),
        Err(e) => Err(e.to_string()),
    }
}

/// Calls `aes_gcm::aead::Aead::encrypt` on `AesGcm<Aes256, U16>`, made with `Key::from_slice`
/// and given `Nonce::from_slice` (which panic on other lengths than 32 and 16), the error
/// turned into its text. Claimed: a plaintext up to `P_MAX` bytes gives the named ciphertext,
/// sixteen bytes longer (the tag); a longer one gives `aead::Error`.
#[verifier::external_body]
#[allow(deprecated)]
fn gcm_encrypt(pt: &[u8], key: &[u8], nonce: &[u8]) -> (r: Result<Vec<u8>, String>)
    requires
        key@.len() == 32,
        nonce@.len() == 16,
    ensures
        pt@.len() <= GCM_MAX_PLAINTEXT ==> r is Ok && r->Ok_0@ == aes256_gcm_encrypt_result(pt@, key@, nonce@)
            && r->Ok_0@.len() == pt@.len() + 16,
        pt@.len() > GCM_MAX_PLAINTEXT ==> r is Err && r->Err_0@ == aead_error_text(),
{
    let cipher = <aes_gcm::AesGcm<aes_gcm::aes::Aes256, aes::cipher::consts::U16> as aes_gcm::KeyInit>::new(
        aes_gcm::Key::<aes_gcm::AesGcm<aes_gcm::aes::Aes256, aes::cipher::consts::U16>>::from_slice(key),
    );
    match aes_gcm::aead::Aead::encrypt(&cipher, aes_gcm::Nonce::from_slice(nonce), pt) {
        Ok(v) => Ok(v),
        Err(e) => Err(e.to_string()),
    }
}

/// Calls `aes_gcm::aead::Aead::decrypt` on `AesGcm<Aes256, U16>`, made with `Key::from_slice`
/// and given `Nonce::from_slice`, the error turned into its text. Claimed: the result is the
/// named plaintext, the error's text is `aead::Error`; what the encryptor made of a plaintext
/// of at most `P_MAX` bytes under the same key and nonce gives that plaintext back.
#[verifier::external_body]
#[allow(deprecated)]
fn gcm_decrypt(ct: &[u8], key: &[u8], nonce: &[u8]) -> (r: Result<Vec<u8>, String>)
    requires
        key@.len() == 32,
        nonce@.len() == 16,
    ensures
        aes256_gcm_decrypt_result(ct@, key@, nonce@) is Some ==> r is Ok && r->Ok_0@ == aes256_gcm_decrypt_result(ct@, key@, nonce@)->0,
        aes256_gcm_decrypt_result(ct@, key@, nonce@) is None ==> r is Err && r->Err_0@ == aead_error_text(),
        forall|p: Seq<u8>|
            p.len() <= GCM_MAX_PLAINTEXT && #[trigger] aes256_gcm_encrypt_result(p, key@, nonce@) == ct@
                ==> r is Ok && r->Ok_0@ == p,
{
    let cipher = <aes_gcm::AesGcm<aes_gcm::aes::Aes256, aes::cipher::consts::U16> as aes_gcm::KeyInit>::new(
        aes_gcm::Key::<aes_gcm::AesGcm<aes_gcm::aes::Aes256, aes::cipher::consts::U16>>::from_slice(key),
    );
    match aes_gcm::aead::Aead::decrypt(&cipher, aes_gcm::Nonce::from_slice(nonce), ct) {
        Ok(v) => Ok(v),
        Err(e) => Err(e.to_string()),
    }
}

/// Why a key, IV or ciphertext was refused.
#[derive(Debug)]
pub struct KeyError {
    pub message: String,
}

fn key_error(message: &str) -> (r: KeyError)
    ensures
        r.message@ == message@,
{
    KeyError { message: owned(message) }
}

/// Encrypts with AES-128 in CBC mode and PKCS#7 padding. The key and the IV must be sixteen
/// bytes each (the key is checked first).
pub fn encrypt_aes_128(plain_text: &[u8], key: &[u8], iv: &[u8]) -> (r: Result<Vec<u8>, KeyError>)
    ensures
        key@.len() != 16 ==> (r matches Err(e) && e.message@ == "AES-128 key must be 16 bytes"@),
        key@.len() == 16 && iv@.len() != 16 ==> (r matches Err(e) && e.message@ == "AES-128 IV must be 16 bytes"@),
        key@.len() == 16 && iv@.len() == 16 ==> (r matches Ok(c) && c@ == aes128_cbc_encrypt_result(plain_text@, key@, iv@)
            && c@.len() == (plain_text@.len() / 16 + 1) * 16),
{
    if key.len() != 16 {
        return Err(key_error("AES-128 key must be 16 bytes"));
    }
    if iv.len() != 16 {
        return Err(key_error("AES-128 IV must be 16 bytes"));
    }
    Ok(cbc_encrypt(plain_text, key, iv))
}

/// Decrypts AES-128-CBC with PKCS#7 padding; a wrong length or padding gives the padding
/// error. What `encrypt_aes_128` made under the same key and IV decrypts to its plaintext.
pub fn decrypt_aes_128(cipher_text: &[u8], key: &[u8], iv: &[u8]) -> (r: Result<Vec<u8>, KeyError>)
    requires
        key@.len() == 16,
        iv@.len() == 16,
    ensures
        match aes128_cbc_decrypt_result(cipher_text@, key@, iv@) {
            Some(p) => r matches Ok(v) && v@ == p,
            None => r matches Err(e) && e.message@ == padding_error_text(),
        },
        forall|p: Seq<u8>|
            #[trigger] aes128_cbc_encrypt_result(p, key@, iv@) == cipher_text@ ==> (r matches Ok(v) && v@ == p),
{
    match cbc_decrypt(cipher_text, key, iv) {
        Ok(v) => Ok(v),
        Err(message) => Err(KeyError { message }),
    }
}

/// Encrypts with AES-256-GCM under a sixteen-byte nonce; the result is the nonce followed by
/// the ciphertext and its tag. A plaintext over `P_MAX` bytes is refused.
pub fn encrypt_aes_256_gcm(plain_text: &[u8], key: &[u8], nonce: &[u8]) -> (r: Result<Vec<u8>, KeyError>)
    requires
        key@.len() == 32,
        nonce@.len() == 16,
    ensures
        plain_text@.len() <= GCM_MAX_PLAINTEXT ==> (r matches Ok(c) && c@ == nonce@ + aes256_gcm_encrypt_result(
            plain_text@,
            key@,
            nonce@,
        ) && c@.len() == plain_text@.len() + 32),
        plain_text@.len() > GCM_MAX_PLAINTEXT ==> (r matches Err(e) && e.message@ == aead_error_text()),
{
    let ciphertext = match gcm_encrypt(plain_text, key, nonce) {
        Ok(c) => c,
        Err(message) => {
            return Err(KeyError { message });
        },
    };
    let mut out = slice_to_vec(nonce);
    let mut tail = ciphertext;
    out.append(&mut tail);
    Ok(out)
}

/// Decrypts what `encrypt_aes_256_gcm` makes: the first sixteen bytes are the nonce, the
/// rest the ciphertext and its tag. Fewer than 32 bytes are refused; so is a tag that does
/// not authenticate.
pub fn decrypt_aes_256_gcm(cipher_text: &[u8], key: &[u8]) -> (r: Result<Vec<u8>, KeyError>)
    requires
        key@.len() == 32,
    ensures
        cipher_text@.len() < 32 ==> (r matches Err(e) && e.message@ == "Cipher text too short"@),
        cipher_text@.len() >= 32 ==> match aes256_gcm_decrypt_result(
            cipher_text@.subrange(16, cipher_text@.len() as int),
            key@,
            cipher_text@.subrange(0, 16),
        ) {
            Some(p) => r matches Ok(v) && v@ == p,
            None => r matches Err(e) && e.message@ == aead_error_text(),
        },
        forall|p: Seq<u8>, n: Seq<u8>|
            n.len() == 16 && p.len() <= GCM_MAX_PLAINTEXT && cipher_text@.len() == p.len() + 32 && cipher_text@ == n
                + #[trigger] aes256_gcm_encrypt_result(p, key@, n) ==> (r matches Ok(v) && v@ == p),
{
    if cipher_text.len() < 32 {
        return Err(key_error("Cipher text too short"));
    }
    let nonce = slice_subrange(cipher_text, 0, 16);
    let body = slice_subrange(cipher_text, 16, cipher_text.len());
    let r = match gcm_decrypt(body, key, nonce) {
        Ok(v) => Ok(v),
        Err(message) => Err(KeyError { message }),
    };
    proof {
        assert forall|p: Seq<u8>, n: Seq<u8>|
            n.len() == 16 && p.len() <= GCM_MAX_PLAINTEXT && cipher_text@.len() == p.len() + 32 && cipher_text@ == n
                + #[trigger] aes256_gcm_encrypt_result(p, key@, n) implies (r matches Ok(v) && v@ == p) by {
            assert(nonce@ =~= n);
            assert(body@ =~= aes256_gcm_encrypt_result(p, key@, n));
        }
    }
    r
}

} // verus!
