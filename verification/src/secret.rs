//! Sealing API keys for storage: AES-256-GCM under the installation's key,
//! with a fresh nonce each time, stored as base64 of `nonce || ciphertext`.
use vstd::prelude::*;
use vstd::string::StringSliceAdditionalSpecFns;
use vstd::utf8::{decode_utf8, encode_utf8, encode_utf8_decode_utf8, encode_utf8_valid_utf8, valid_utf8};

use crate::persona::{base64_standard, decode_standard, utf8_text};
use crate::text::{has_prefix, push_all, str_chars, string_from_chars};
use aes_gcm::aead::{Aead, KeyInit};
use base64::Engine as _;
use rand::RngCore;

verus! {

/// Bytes of an AES-256 key.
pub const KEY_LEN: usize = 32;
/// Bytes of a GCM nonce.
pub const NONCE_LEN: usize = 12;
/// The longest plaintext AES-GCM accepts, in bytes.
pub open spec fn max_plaintext() -> nat {
    0x10_0000_0000
}

/// What AES-256-GCM (the `aes-gcm` crate) seals `plaintext` to under `key`
/// and `nonce`: the ciphertext followed by its tag.
pub uninterp spec fn gcm_seal(key: Seq<u8>, nonce: Seq<u8>, plaintext: Seq<u8>) -> Seq<u8>;

/// What AES-256-GCM opens `ciphertext` (with its tag) to under `key` and
/// `nonce`: `None` when it is not authentic.
pub uninterp spec fn gcm_open(key: Seq<u8>, nonce: Seq<u8>, ciphertext: Seq<u8>) -> Option<Seq<u8>>;

/// What the `base64` crate's `STANDARD` engine encodes `bytes` to.
pub uninterp spec fn base64_text(bytes: Seq<u8>) -> Seq<char>;

/// `Aes256Gcm::new_from_slice(key)` then `Aead::encrypt(nonce, plaintext)`.
/// The contract claims: encryption succeeds exactly when the plaintext is at
/// most 2^36 bytes (the crate's `P_MAX`); the result is the named seal, 16
/// bytes longer than the plaintext (the tag), and opening it with the same
/// key and nonce gives the plaintext back. The error's text is left open.
#[verifier::external_body]
fn seal(key: &[u8], nonce: &[u8], plaintext: &[u8]) -> (r: Result<Vec<u8>, String>)
    requires
        key@.len() == KEY_LEN,
        nonce@.len() == NONCE_LEN,
    ensures
        r is Ok <==> plaintext@.len() <= max_plaintext(),
        r matches Ok(c) ==> c@ == gcm_seal(key@, nonce@, plaintext@)
            && c@.len() == plaintext@.len() + 16
            && gcm_open(key@, nonce@, c@) == Some(plaintext@),
{
    let cipher = aes_gcm::Aes256Gcm::new_from_slice(key).map_err(|e| e.to_string())?;
    cipher.encrypt(aes_gcm::Nonce::from_slice(nonce), plaintext).map_err(|e| e.to_string())
}

/// `Aes256Gcm::new_from_slice(key)` then `Aead::decrypt(nonce, ciphertext)`.
/// The contract claims only that the outcome is the named opening; the
/// error's text is left open.
#[verifier::external_body]
fn open(key: &[u8], nonce: &[u8], ciphertext: &[u8]) -> (r: Result<Vec<u8>, String>)
    requires
        key@.len() == KEY_LEN,
        nonce@.len() == NONCE_LEN,
    ensures
        match r {
            Ok(p) => gcm_open(key@, nonce@, ciphertext@) == Some(p@),
            Err(_) => gcm_open(key@, nonce@, ciphertext@) is None,
        },
{
    let cipher = aes_gcm::Aes256Gcm::new_from_slice(key).map_err(|e| e.to_string())?;
    cipher.decrypt(aes_gcm::Nonce::from_slice(nonce), ciphertext).map_err(|e| e.to_string())
}

/// Twelve bytes from the operating system's random source (`rand::rngs::OsRng`);
/// the contract claims only their number.
#[verifier::external_body]
fn random_nonce() -> (r: Vec<u8>)
    ensures
        r@.len() == NONCE_LEN,
{
    let mut n = vec![0u8; 12];
    rand::rngs::OsRng.fill_bytes(&mut n);
    n
}

/// `base64::engine::general_purpose::STANDARD.encode`. The contract claims
/// the result is the named encoding, and that the same engine decodes it
/// back to the bytes.
#[verifier::external_body]
fn encode_standard(bytes: &[u8]) -> (r: String)
    requires
        bytes@.len() <= usize::MAX / 2,
    ensures
        r@ == base64_text(bytes@),
        base64_standard(r@) == Some(bytes@),
{
    base64::engine::general_purpose::STANDARD.encode(bytes)
}

/// The stored form of a text sealed under `key` with `nonce`.
pub open spec fn sealed_spec(key: Seq<u8>, nonce: Seq<u8>, plaintext: Seq<char>) -> Seq<char> {
    base64_text(nonce + gcm_seal(key, nonce, encode_utf8(plaintext)))
}

/// Why a stored secret cannot be opened.
pub enum SecretFailure {
    /// The text is not base64.
    NotBase64,
    /// The payload is shorter than a nonce.
    TooShort,
    /// The key does not match, or the payload was altered.
    Rejected,
    /// What was sealed is not UTF-8 text.
    NotUtf8,
}

/// Opening a stored secret: base64 decoding, then the nonce (the first 12
/// bytes) and the sealed rest, then UTF-8 decoding.
pub open spec fn opened(key: Seq<u8>, encoded: Seq<char>) -> Result<Seq<char>, SecretFailure> {
    match base64_standard(encoded) {
        None => Err(SecretFailure::NotBase64),
        Some(p) => if p.len() < NONCE_LEN {
            Err(SecretFailure::TooShort)
        } else {
            match gcm_open(key, p.take(NONCE_LEN as int), p.skip(NONCE_LEN as int)) {
                None => Err(SecretFailure::Rejected),
                Some(b) => if valid_utf8(b) { Ok(decode_utf8(b)) } else { Err(SecretFailure::NotUtf8) },
            }
        },
    }
}

/// The text an error message of a failed opening starts with.
pub open spec fn failure_prefix(f: SecretFailure) -> Seq<char> {
    match f {
        SecretFailure::NotBase64 => "密文不是合法 base64: "@,
        SecretFailure::TooShort => "密文长度不合法"@,
        SecretFailure::Rejected => "解密失败 (密钥不匹配或密文被篡改): "@,
        SecretFailure::NotUtf8 => "解密结果不是合法 UTF-8: "@,
    }
}

fn with_cause(prefix: &str, cause: String) -> (r: String)
    ensures
        r@ == prefix@ + cause@,
{
    let mut v = str_chars(prefix);
    push_all(&mut v, str_chars(cause.as_str()).as_slice());
    string_from_chars(v.as_slice())
}

/// Seals a text under `key` with the given nonce, for storage.
pub fn seal_text(key: &[u8], nonce: &[u8], plaintext: &str) -> (r: Result<String, String>)
    requires
        key@.len() == KEY_LEN,
        nonce@.len() == NONCE_LEN,
        encode_utf8(plaintext@).len() <= usize::MAX / 4,
    ensures
        match r {
            Ok(s) => encode_utf8(plaintext@).len() <= max_plaintext()
                && s@ == sealed_spec(key@, nonce@, plaintext@)
                && base64_standard(s@) == Some(nonce@ + gcm_seal(key@, nonce@, encode_utf8(plaintext@)))
                && gcm_open(key@, nonce@, gcm_seal(key@, nonce@, encode_utf8(plaintext@)))
                    == Some(encode_utf8(plaintext@)),
            Err(e) => encode_utf8(plaintext@).len() > max_plaintext() && has_prefix(e@, "加密失败: "@),
        },
{
    let bytes = plaintext.as_bytes();
    let ciphertext = match seal(key, nonce, bytes) {
        Ok(c) => c,
        Err(e) => {
            let m = with_cause("加密失败: ", e);
            proof {
                reveal_strlit("加密失败: ");
            }
            assert(m@.take("加密失败: "@.len() as int) =~= "加密失败: "@);
            return Err(m);
        },
    };
    let mut payload: Vec<u8> = Vec::new();
    let mut i: usize = 0;
    while i < nonce.len()
        invariant
            i <= nonce@.len(),
            payload@ == nonce@.take(i as int),
        decreases nonce@.len() - i,
    {
        payload.push(nonce[i]);
        i = i + 1;
        assert(payload@ =~= nonce@.take(i as int));
    }
    let mut j: usize = 0;
    while j < ciphertext.len()
        invariant
            j <= ciphertext@.len(),
            nonce@.take(nonce@.len() as int) == nonce@,
            payload@ == nonce@ + ciphertext@.take(j as int),
        decreases ciphertext@.len() - j,
    {
        payload.push(ciphertext[j]);
        j = j + 1;
        assert(payload@ =~= nonce@ + ciphertext@.take(j as int));
    }
    assert(nonce@.take(nonce@.len() as int) =~= nonce@);
    assert(ciphertext@.take(ciphertext@.len() as int) =~= ciphertext@);
    Ok(encode_standard(payload.as_slice()))
}

/// Encrypts a text for storage under the installation's key, with a fresh
/// random nonce. Whatever the nonce, the stored form opens back to the text.
pub fn encrypt_str(key: &[u8], plaintext: &str) -> (r: Result<String, String>)
    requires
        key@.len() == KEY_LEN,
        encode_utf8(plaintext@).len() <= usize::MAX / 4,
    ensures
        match r {
            Ok(s) => opened(key@, s@) == Ok::<Seq<char>, SecretFailure>(plaintext@),
            Err(e) => encode_utf8(plaintext@).len() > max_plaintext() && has_prefix(e@, "加密失败: "@),
        },
{
    let nonce = random_nonce();
    let r = seal_text(key, nonce.as_slice(), plaintext);
    proof {
        if r is Ok {
            lemma_open_sealed(key@, nonce@, plaintext@);
        }
    }
    r
}

/// Opening what was sealed under the same key gives the text back.
pub proof fn lemma_open_sealed(key: Seq<u8>, nonce: Seq<u8>, plaintext: Seq<char>)
    requires
        key.len() == KEY_LEN,
        nonce.len() == NONCE_LEN,
        encode_utf8(plaintext).len() <= max_plaintext(),
        base64_standard(sealed_spec(key, nonce, plaintext))
            == Some(nonce + gcm_seal(key, nonce, encode_utf8(plaintext))),
        gcm_open(key, nonce, gcm_seal(key, nonce, encode_utf8(plaintext))) == Some(encode_utf8(plaintext)),
    ensures
        opened(key, sealed_spec(key, nonce, plaintext)) == Ok::<Seq<char>, SecretFailure>(plaintext),
{
    let c = gcm_seal(key, nonce, encode_utf8(plaintext));
    let p = nonce + c;
    assert(p.take(NONCE_LEN as int) =~= nonce);
    assert(p.skip(NONCE_LEN as int) =~= c);
    encode_utf8_valid_utf8(plaintext);
    encode_utf8_decode_utf8(plaintext);
}

/// Decrypts a stored secret under the installation's key.
pub fn decrypt_str(key: &[u8], encoded: &str) -> (r: Result<String, String>)
    requires
        key@.len() == KEY_LEN,
    ensures
        match r {
            Ok(s) => opened(key@, encoded@) == Ok::<Seq<char>, SecretFailure>(s@),
            Err(e) => opened(key@, encoded@) matches Err(f) && has_prefix(e@, failure_prefix(f))
                && (f is TooShort ==> e@ == failure_prefix(f)),
        },
{
    proof {
        reveal_strlit("密文不是合法 base64: ");
        reveal_strlit("解密失败 (密钥不匹配或密文被篡改): ");
        reveal_strlit("解密结果不是合法 UTF-8: ");
    }
    let payload = match decode_standard(encoded) {
        Ok(p) => p,
        Err(e) => {
            let m = with_cause("密文不是合法 base64: ", e);
            assert(m@.take("密文不是合法 base64: "@.len() as int) =~= "密文不是合法 base64: "@);
            return Err(m);
        },
    };
    if payload.len() < NONCE_LEN {
        let m = "密文长度不合法".to_string();
        assert(m@.take(m@.len() as int) =~= m@);
        return Err(m);
    }
    let mut nonce: Vec<u8> = Vec::new();
    let mut i: usize = 0;
    while i < NONCE_LEN
        invariant
            i <= NONCE_LEN,
            NONCE_LEN <= payload@.len(),
            nonce@ == payload@.take(i as int),
        decreases NONCE_LEN - i,
    {
        nonce.push(payload[i]);
        i = i + 1;
        assert(nonce@ =~= payload@.take(i as int));
    }
    let mut rest: Vec<u8> = Vec::new();
    let mut j: usize = NONCE_LEN;
    while j < payload.len()
        invariant
            NONCE_LEN <= j <= payload@.len(),
            rest@ == payload@.subrange(NONCE_LEN as int, j as int),
        decreases payload@.len() - j,
    {
        rest.push(payload[j]);
        j = j + 1;
        assert(rest@ =~= payload@.subrange(NONCE_LEN as int, j as int));
    }
    assert(rest@ =~= payload@.skip(NONCE_LEN as int));
    let plain = match open(key, nonce.as_slice(), rest.as_slice()) {
        Ok(p) => p,
        Err(e) => {
            let m = with_cause("解密失败 (密钥不匹配或密文被篡改): ", e);
            assert(m@.take("解密失败 (密钥不匹配或密文被篡改): "@.len() as int)
                =~= "解密失败 (密钥不匹配或密文被篡改): "@);
            return Err(m);
        },
    };
    match utf8_text(plain.as_slice()) {
        Ok(s) => Ok(s),
        Err(e) => {
            let m = with_cause("解密结果不是合法 UTF-8: ", e);
            assert(m@.take("解密结果不是合法 UTF-8: "@.len() as int) =~= "解密结果不是合法 UTF-8: "@);
            Err(m)
        },
    }
}

/// Seals a text for the front end to store: an empty text stays empty (it
/// is not sealed); any other is encrypted as [`encrypt_str`] does.
pub fn secret_encrypt(key: &[u8], plaintext: String) -> (r: Result<String, String>)
    requires
        key@.len() == KEY_LEN,
        encode_utf8(plaintext@).len() <= usize::MAX / 4,
    ensures
        plaintext@.len() == 0 ==> (r matches Ok(s) && s@.len() == 0),
        plaintext@.len() > 0 ==> match r {
            Ok(s) => opened(key@, s@) == Ok::<Seq<char>, SecretFailure>(plaintext@),
            Err(e) => encode_utf8(plaintext@).len() > max_plaintext() && has_prefix(e@, "加密失败: "@),
        },
{
    if str_chars(plaintext.as_str()).len() == 0 {
        return Ok(String::new());
    }
    encrypt_str(key, plaintext.as_str())
}

/// Opens a stored secret for the front end: an empty text stays empty; any
/// other is decrypted as [`decrypt_str`] does.
pub fn secret_decrypt(key: &[u8], encoded: String) -> (r: Result<String, String>)
    requires
        key@.len() == KEY_LEN,
    ensures
        encoded@.len() == 0 ==> (r matches Ok(s) && s@.len() == 0),
        encoded@.len() > 0 ==> match r {
            Ok(s) => opened(key@, encoded@) == Ok::<Seq<char>, SecretFailure>(s@),
            Err(e) => opened(key@, encoded@) matches Err(f) && has_prefix(e@, failure_prefix(f))
                && (f is TooShort ==> e@ == failure_prefix(f)),
        },
{
    if str_chars(encoded.as_str()).len() == 0 {
        return Ok(String::new());
    }
    decrypt_str(key, encoded.as_str())
}

/// The installation's key out of the bytes of its key file, which must hold
/// exactly 32 bytes.
pub fn key_from_file(raw: &[u8]) -> (r: Result<Vec<u8>, String>)
    ensures
        match r {
            Ok(k) => raw@.len() == KEY_LEN && k@ == raw@,
            Err(e) => raw@.len() != KEY_LEN && e@ == "密钥文件长度不正确 (应为 32 字节)"@,
        },
{
    if raw.len() != KEY_LEN {
        return Err("密钥文件长度不正确 (应为 32 字节)".to_string());
    }
    let mut k: Vec<u8> = Vec::new();
    let mut i: usize = 0;
    while i < raw.len()
        invariant
            i <= raw@.len(),
            k@ == raw@.take(i as int),
        decreases raw@.len() - i,
    {
        k.push(raw[i]);
        i = i + 1;
        assert(k@ =~= raw@.take(i as int));
    }
    assert(raw@.take(raw@.len() as int) =~= raw@);
    Ok(k)
}

} // verus!
