use deeper::secret::{secret_decrypt, secret_encrypt};
use base64::engine::general_purpose::STANDARD;
use base64::Engine;
use deeper::secret::{decrypt_str, encrypt_str, key_from_file, seal_text, KEY_LEN, NONCE_LEN};

#[test]
fn encrypted_text_decrypts_back() {
    let key = [7u8; KEY_LEN];
    let sealed = encrypt_str(&key, "sk-测试").unwrap();
    assert_eq!(decrypt_str(&key, &sealed).unwrap(), "sk-测试");
    let again = encrypt_str(&key, "sk-测试").unwrap();
    assert_ne!(sealed, again);
}

#[test]
fn sealed_form_is_nonce_then_ciphertext() {
    let key = [1u8; KEY_LEN];
    let nonce = [9u8; NONCE_LEN];
    let sealed = seal_text(&key, &nonce, "abc").unwrap();
    let raw = STANDARD.decode(sealed.as_bytes()).unwrap();
    assert_eq!(&raw[..NONCE_LEN], &nonce);
    assert_eq!(raw.len(), NONCE_LEN + 3 + 16);
    assert_eq!(decrypt_str(&key, &sealed).unwrap(), "abc");
}

#[test]
fn decryption_failures() {
    let key = [1u8; KEY_LEN];
    assert!(decrypt_str(&key, "%%%").err().unwrap().starts_with("密文不是合法 base64: "));
    assert_eq!(decrypt_str(&key, &STANDARD.encode([0u8; 4])).err().as_deref(), Some("密文长度不合法"));
    let sealed = seal_text(&key, &[0u8; NONCE_LEN], "abc").unwrap();
    let other = [2u8; KEY_LEN];
    assert!(decrypt_str(&other, &sealed).err().unwrap().starts_with("解密失败 (密钥不匹配或密文被篡改): "));
}

#[test]
fn key_files_must_hold_32_bytes() {
    assert_eq!(key_from_file(&[3u8; 32]).unwrap(), vec![3u8; 32]);
    assert_eq!(key_from_file(&[3u8; 31]).err().as_deref(), Some("密钥文件长度不正确 (应为 32 字节)"));
}

#[test]
fn front_end_secrets_keep_empty_text() {
    let key = [5u8; KEY_LEN];
    assert_eq!(secret_encrypt(&key, String::new()).unwrap(), "");
    assert_eq!(secret_decrypt(&key, String::new()).unwrap(), "");
    let sealed = secret_encrypt(&key, "k".to_string()).unwrap();
    assert!(!sealed.is_empty());
    assert_eq!(secret_decrypt(&key, sealed).unwrap(), "k");
}
