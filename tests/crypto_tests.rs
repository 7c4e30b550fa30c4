use securevault::codec::ArgonParamsOnDisk;
use securevault::crypto::{
    aead_decrypt_aes_gcm, aead_encrypt_aes_gcm, derive_item_key, derive_kek, sign_header,
    unwrap_key_aes_gcm, verify_header, wrap_key_aes_gcm, ArgonParams,
};
use securevault::error::VaultError;

fn small_params() -> ArgonParams {
    ArgonParams { mem_kib: 64, iterations: 1, parallelism: 1 }
}

#[test]
fn aead_round_trip() {
    let key = [1u8; 32];
    let nonce = [2u8; 12];
    let ct = aead_encrypt_aes_gcm(&key, &nonce, b"hello vault", b"aad");
    assert_eq!(ct.len(), 11 + 16);
    assert_ne!(&ct[..11], b"hello vault");
    let pt = aead_decrypt_aes_gcm(&key, &ct, &nonce, b"aad").unwrap();
    assert_eq!(pt, b"hello vault");
}

#[test]
fn aead_tampering_fails() {
    let key = [1u8; 32];
    let nonce = [2u8; 12];
    let ct = aead_encrypt_aes_gcm(&key, &nonce, b"hello vault", b"aad");
    let mut flipped = ct.clone();
    flipped[0] ^= 1;
    assert_eq!(aead_decrypt_aes_gcm(&key, &flipped, &nonce, b"aad"), Err(VaultError::AuthenticationFailed));
    let mut n2 = nonce;
    n2[11] ^= 0x80;
    assert_eq!(aead_decrypt_aes_gcm(&key, &ct, &n2, b"aad"), Err(VaultError::AuthenticationFailed));
    assert_eq!(aead_decrypt_aes_gcm(&key, &ct, &nonce, b"aae"), Err(VaultError::AuthenticationFailed));
}

#[test]
fn wrap_unwrap_round_trip() {
    let kek = [9u8; 32];
    let dek = [4u8; 32];
    let nonce = [7u8; 12];
    let w = wrap_key_aes_gcm(&kek, &dek, &nonce);
    assert_eq!(w.len(), 60);
    assert_eq!(&w[..12], &nonce);
    assert_ne!(&w[12..44], &dek);
    assert_eq!(unwrap_key_aes_gcm(&kek, &w), Ok(dek));
}

#[test]
fn unwrap_with_wrong_kek_fails() {
    let w = wrap_key_aes_gcm(&[9u8; 32], &[4u8; 32], &[7u8; 12]);
    assert_eq!(unwrap_key_aes_gcm(&[8u8; 32], &w), Err(VaultError::AuthenticationFailed));
}

#[test]
fn unwrap_short_input_is_malformed() {
    assert_eq!(unwrap_key_aes_gcm(&[0u8; 32], &[0u8; 27]), Err(VaultError::MalformedCiphertext));
}

#[test]
fn unwrap_of_wrong_length_key_is_malformed() {
    let kek = [9u8; 32];
    let nonce = [7u8; 12];
    let ct = aead_encrypt_aes_gcm(&kek, &nonce, &[1u8; 16], b"");
    let mut w = nonce.to_vec();
    w.extend_from_slice(&ct);
    assert_eq!(unwrap_key_aes_gcm(&kek, &w), Err(VaultError::MalformedCiphertext));
}

#[test]
fn item_key_is_deterministic_and_depends_on_id() {
    let dek = [5u8; 32];
    let a = derive_item_key(&dek, &[1u8; 16]);
    let b = derive_item_key(&dek, &[1u8; 16]);
    let c = derive_item_key(&dek, &[2u8; 16]);
    assert_eq!(a, b);
    assert_ne!(a, c);
    assert_ne!(a, dek);
}

#[test]
fn kek_is_deterministic() {
    let salt = [3u8; 32];
    let a = derive_kek(b"hunter2", &small_params(), &salt);
    let b = derive_kek(b"hunter2", &small_params(), &salt);
    let c = derive_kek(b"hunter3", &small_params(), &salt);
    assert_eq!(a, b);
    assert_ne!(a, c);
    assert_ne!(a, salt);
}

#[test]
fn argon_params_acceptance() {
    assert!(small_params().is_accepted());
    assert!(ArgonParams { mem_kib: 262144, iterations: 3, parallelism: 4 }.is_accepted());
    assert!(!ArgonParams { mem_kib: 0, iterations: 3, parallelism: 4 }.is_accepted());
    assert!(!ArgonParams { mem_kib: 16, iterations: 1, parallelism: 4 }.is_accepted());
    assert!(!ArgonParams { mem_kib: 64, iterations: 0, parallelism: 1 }.is_accepted());
}

#[test]
fn params_convert_both_ways() {
    let d: ArgonParamsOnDisk = ArgonParams { mem_kib: 1, iterations: 2, parallelism: 3 }.into();
    assert_eq!((d.mem_kib, d.iterations, d.parallelism), (1, 2, 3));
    let p: ArgonParams = d.into();
    assert_eq!((p.mem_kib, p.iterations, p.parallelism), (1, 2, 3));
}

#[test]
fn signature_round_trip() {
    let sk = [11u8; 32];
    let sig = sign_header(&sk, b"header");
    let pk = ed25519_dalek::SigningKey::from_bytes(&sk).verifying_key().to_bytes();
    assert!(verify_header(&pk, b"header", &sig));
    assert!(!verify_header(&pk, b"headex", &sig));
}
