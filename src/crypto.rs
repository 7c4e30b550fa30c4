//! The key hierarchy's primitives: Argon2id for the key-encrypting key,
//! AES-256-GCM for sealing, HKDF-SHA256 for per-item keys, Ed25519 for
//! header signatures, and the random sources behind keys and nonces.
use vstd::prelude::*;
use aes_gcm::aead::{Aead, KeyInit};
use rand::{Rng, RngCore};
use zeroize::Zeroize;
use ed25519_dalek::Signer;
use crate::error::VaultError;
use crate::codec::ArgonParamsOnDisk;

verus! {

/// Largest plaintext or associated data that AES-GCM accepts, in bytes.
pub const GCM_MAX_INPUT: u64 = 0x10_0000_0000;

/// Argon2id cost parameters.
#[derive(Clone, Copy, Debug)]
pub struct ArgonParams {
    pub mem_kib: u32,
    pub iterations: u32,
    pub parallelism: u32,
}

impl ArgonParams {
    /// The costs Argon2 accepts: at least eight KiB of memory per lane, one
    /// pass, and between one and 2^24 - 1 lanes.
    pub open spec fn accepted(&self) -> bool {
        &&& self.mem_kib >= 8
        &&& self.mem_kib as nat >= 8 * self.parallelism as nat
        &&& self.iterations >= 1
        &&& 1 <= self.parallelism <= 0xFF_FFFF
    }

    pub fn is_accepted(&self) -> (r: bool)
        ensures
            r == self.accepted(),
    {
        self.mem_kib >= 8 && self.mem_kib as u64 >= 8 * self.parallelism as u64 && self.iterations
            >= 1 && 1 <= self.parallelism && self.parallelism <= 0xFF_FFFF
    }
}

impl From<ArgonParams> for ArgonParamsOnDisk {
    fn from(p: ArgonParams) -> (r: Self) {
        ArgonParamsOnDisk { mem_kib: p.mem_kib, iterations: p.iterations, parallelism: p.parallelism }
    }
}

impl vstd::std_specs::convert::FromSpecImpl<ArgonParams> for ArgonParamsOnDisk {
    open spec fn obeys_from_spec() -> bool {
        true
    }

    open spec fn from_spec(p: ArgonParams) -> Self {
        ArgonParamsOnDisk { mem_kib: p.mem_kib, iterations: p.iterations, parallelism: p.parallelism }
    }
}

impl From<ArgonParamsOnDisk> for ArgonParams {
    fn from(p: ArgonParamsOnDisk) -> (r: Self) {
        ArgonParams { mem_kib: p.mem_kib, iterations: p.iterations, parallelism: p.parallelism }
    }
}

impl vstd::std_specs::convert::FromSpecImpl<ArgonParamsOnDisk> for ArgonParams {
    open spec fn obeys_from_spec() -> bool {
        true
    }

    open spec fn from_spec(p: ArgonParamsOnDisk) -> Self {
        ArgonParams { mem_kib: p.mem_kib, iterations: p.iterations, parallelism: p.parallelism }
    }
}

/// The 32-byte Argon2id (version 0x13) output for a password, costs and salt.
pub uninterp spec fn argon2id_output(
    master: Seq<u8>,
    mem_kib: u32,
    iterations: u32,
    parallelism: u32,
    salt: Seq<u8>,
) -> Seq<u8>;

/// The AES-256-GCM ciphertext with its 16-byte tag.
pub uninterp spec fn gcm_seal(key: Seq<u8>, nonce: Seq<u8>, msg: Seq<u8>, aad: Seq<u8>) -> Seq<u8>;

/// What AES-256-GCM decryption gives: the plaintext, or `None` on a tag
/// mismatch.
pub uninterp spec fn gcm_open(key: Seq<u8>, nonce: Seq<u8>, ct: Seq<u8>, aad: Seq<u8>) -> Option<
    Seq<u8>,
>;

/// 32 bytes of HKDF-SHA256 output with an empty salt.
pub uninterp spec fn hkdf_sha256(ikm: Seq<u8>, info: Seq<u8>) -> Seq<u8>;

/// The Ed25519 signature of `msg` under the secret key `sk`.
pub uninterp spec fn ed25519_signature(sk: Seq<u8>, msg: Seq<u8>) -> Seq<u8>;

/// Whether `sig` is a valid strict Ed25519 signature of `msg` under the
/// public key `pk` (false where `pk` is not a valid point).
pub uninterp spec fn ed25519_accepts(pk: Seq<u8>, msg: Seq<u8>, sig: Seq<u8>) -> bool;

/// Relies on argon2's `Params::new` and `Argon2::hash_password_into`: with
/// accepted costs, a password under 2^32 bytes and a 32-byte salt, neither fails.
#[verifier::external_body]
fn argon2id_32(master: &[u8], params: &ArgonParams, salt: &[u8; 32]) -> (r: [u8; 32])
    requires
        params.accepted(),
        master@.len() <= u32::MAX,
    ensures
        r@ == argon2id_output(master@, params.mem_kib, params.iterations, params.parallelism, salt@),
{
    let p = argon2::Params::new(params.mem_kib, params.iterations, params.parallelism, Some(32))
        .expect("accepted argon2 params");
    let a = argon2::Argon2::new(argon2::Algorithm::Argon2id, argon2::Version::V0x13, p);
    let mut out = [0u8; 32];
    a.hash_password_into(master, salt, &mut out).expect("argon2 inputs in range");
    out
}

/// Relies on aes-gcm's `Aes256Gcm::encrypt`: it fails only on inputs over
/// 2^36 bytes, appends a 16-byte tag, and decryption gives the plaintext back.
#[verifier::external_body]
fn aes_gcm_seal(key: &[u8; 32], nonce: &[u8; 12], msg: &[u8], aad: &[u8]) -> (r: Vec<u8>)
    requires
        msg@.len() <= GCM_MAX_INPUT,
        aad@.len() <= GCM_MAX_INPUT,
    ensures
        r@ == gcm_seal(key@, nonce@, msg@, aad@),
        r@.len() == msg@.len() + 16,
        gcm_open(key@, nonce@, r@, aad@) == Some(msg@),
{
    let cipher = aes_gcm::Aes256Gcm::new(key.into());
    let n = aes_gcm::Nonce::from_slice(nonce);
    cipher.encrypt(n, aes_gcm::aead::Payload { msg, aad }).expect("input within limits")
}

/// Relies on aes-gcm's `Aes256Gcm::decrypt`: it succeeds only where the tag
/// matches, that is where `ct` is the sealing of what it returns.
#[verifier::external_body]
fn aes_gcm_open(key: &[u8; 32], nonce: &[u8; 12], ct: &[u8], aad: &[u8]) -> (r: Option<Vec<u8>>)
    ensures
        match r {
            Some(m) => gcm_open(key@, nonce@, ct@, aad@) == Some(m@) && ct@ == gcm_seal(
                key@,
                nonce@,
                m@,
                aad@,
            ),
            None => gcm_open(key@, nonce@, ct@, aad@) is None,
        },
{
    let cipher = aes_gcm::Aes256Gcm::new(key.into());
    let n = aes_gcm::Nonce::from_slice(nonce);
    cipher.decrypt(n, aes_gcm::aead::Payload { msg: ct, aad }).ok()
}

/// Relies on hkdf's `Hkdf::<Sha256>::new` and `expand`: 32 bytes of output
/// never exceed the expansion limit.
#[verifier::external_body]
fn hkdf_sha256_32(ikm: &[u8; 32], info: &[u8]) -> (r: [u8; 32])
    ensures
        r@ == hkdf_sha256(ikm@, info@),
{
    let hk = hkdf::Hkdf::<sha2::Sha256>::new(Some(&[]), ikm);
    let mut okm = [0u8; 32];
    hk.expand(info, &mut okm).expect("32 bytes is a valid length");
    okm
}

/// Relies on ed25519-dalek's `SigningKey::from_bytes` and `sign`.
#[verifier::external_body]
fn ed25519_sign(sk: &[u8; 32], msg: &[u8]) -> (r: [u8; 64])
    ensures
        r@ == ed25519_signature(sk@, msg@),
{
    ed25519_dalek::SigningKey::from_bytes(sk).sign(msg).to_bytes()
}

/// Relies on ed25519-dalek's `VerifyingKey::from_bytes` and `verify_strict`.
#[verifier::external_body]
fn ed25519_verify(pk: &[u8; 32], msg: &[u8], sig: &[u8; 64]) -> (r: bool)
    ensures
        r == ed25519_accepts(pk@, msg@, sig@),
{
    match ed25519_dalek::VerifyingKey::from_bytes(pk) {
        Ok(k) => k.verify_strict(msg, &ed25519_dalek::Signature::from_bytes(sig)).is_ok(),
        Err(_) => false,
    }
}

/// Relies on zeroize's `Zeroize` for `Vec`: the bytes are overwritten, then
/// the vector is cleared.
#[verifier::external_body]
pub(crate) fn scrub_vec(v: &mut Vec<u8>)
    ensures
        final(v)@.len() == 0,
{
    v.zeroize();
}

/// Relies on zeroize's `Zeroize` for arrays: every byte becomes zero.
#[verifier::external_body]
pub(crate) fn scrub_key(k: &mut [u8; 32])
    ensures
        forall|i: int| 0 <= i < 32 ==> final(k)@[i] == 0,
{
    k.zeroize();
}

/// Relies on rand's `thread_rng().gen_range(0..n)`: a draw below `n`.
#[verifier::external_body]
pub(crate) fn random_below(n: usize) -> (r: usize)
    requires
        n > 0,
    ensures
        r < n,
{
    rand::thread_rng().gen_range(0..n)
}

/// Relies on rand's `thread_rng().fill_bytes`: `n` random bytes.
#[verifier::external_body]
pub(crate) fn random_bytes(n: usize) -> (r: Vec<u8>)
    ensures
        r@.len() == n,
{
    let mut v = vec![0u8; n];
    rand::thread_rng().fill_bytes(&mut v);
    v
}

/// Relies on `getrandom::getrandom`: twelve bytes from the operating
/// system, or `None` where it cannot supply them.
#[verifier::external_body]
pub(crate) fn os_random_nonce() -> (r: Option<[u8; 12]>)
{
    let mut n = [0u8; 12];
    match getrandom::getrandom(&mut n) {
        Ok(()) => Some(n),
        Err(_) => None,
    }
}

/// Derives the key-encrypting key from the master password.
pub fn derive_kek(master: &[u8], params: &ArgonParams, salt: &[u8; 32]) -> (r: [u8; 32])
    requires
        params.accepted(),
        master@.len() <= u32::MAX,
    ensures
        r@ == argon2id_output(master@, params.mem_kib, params.iterations, params.parallelism, salt@),
{
    argon2id_32(master, params, salt)
}

/// The empty associated data of a wrapped key.
pub open spec fn no_aad() -> Seq<u8> {
    Seq::empty()
}

/// `nonce || AES-GCM(kek, nonce, dek)`: the key as the header stores it.
pub open spec fn wrapped_key(kek: Seq<u8>, dek: Seq<u8>, nonce: Seq<u8>) -> Seq<u8> {
    nonce + gcm_seal(kek, nonce, dek, no_aad())
}

/// Seals the data-encrypting key under the key-encrypting key.
pub fn wrap_key_aes_gcm(kek: &[u8; 32], dek: &[u8; 32], nonce12: &[u8; 12]) -> (r: Vec<u8>)
    ensures
        r@ == wrapped_key(kek@, dek@, nonce12@),
        r@.len() == 60,
        gcm_open(kek@, nonce12@, r@.subrange(12, 60), no_aad()) == Some(dek@),
{
    let aad: [u8; 0] = [];
    assert(aad@ =~= no_aad());
    let ct = aes_gcm_seal(kek, nonce12, dek.as_slice(), aad.as_slice());
    let mut out: Vec<u8> = Vec::new();
    crate::codec::append_bytes(&mut out, nonce12.as_slice());
    crate::codec::append_bytes(&mut out, ct.as_slice());
    assert(out@.subrange(12, 60) =~= ct@);
    out
}

/// What unwrapping gives: the 32-byte key, or the error that stops it.
pub open spec fn unwrap_outcome(kek: Seq<u8>, wrapped: Seq<u8>) -> Result<Seq<u8>, VaultError> {
    if wrapped.len() < 28 {
        Err(VaultError::MalformedCiphertext)
    } else {
        match gcm_open(kek, wrapped.subrange(0, 12), wrapped.subrange(12, wrapped.len() as int), no_aad()) {
            None => Err(VaultError::AuthenticationFailed),
            Some(m) => if m.len() == 32 {
                Ok(m)
            } else {
                Err(VaultError::MalformedCiphertext)
            },
        }
    }
}

/// Opens a wrapped key. A plaintext of any length but 32 is refused as
/// malformed.
pub fn unwrap_key_aes_gcm(kek: &[u8; 32], ct_with_nonce: &[u8]) -> (r: Result<[u8; 32], VaultError>)
    ensures
        match unwrap_outcome(kek@, ct_with_nonce@) {
            Ok(k) => r matches Ok(a) && a@ == k,
            Err(e) => r == Err::<[u8; 32], VaultError>(e),
        },
{
    if ct_with_nonce.len() < 12 + 16 {
        return Err(VaultError::MalformedCiphertext);
    }
    let nonce: [u8; 12] = crate::codec::to_array(&ct_with_nonce[0..12]);
    let aad: [u8; 0] = [];
    assert(aad@ =~= no_aad());
    match aes_gcm_open(kek, &nonce, &ct_with_nonce[12..ct_with_nonce.len()], aad.as_slice()) {
        None => Err(VaultError::AuthenticationFailed),
        Some(mut pt) => {
            if pt.len() != 32 {
                scrub_vec(&mut pt);
                return Err(VaultError::MalformedCiphertext);
            }
            let out: [u8; 32] = crate::codec::to_array(pt.as_slice());
            scrub_vec(&mut pt);
            Ok(out)
        },
    }
}

/// AES-256-GCM sealing with explicit associated data.
pub fn aead_encrypt_aes_gcm(key: &[u8; 32], nonce12: &[u8; 12], plaintext: &[u8], aad: &[u8]) -> (r:
    Vec<u8>)
    requires
        plaintext@.len() <= GCM_MAX_INPUT,
        aad@.len() <= GCM_MAX_INPUT,
    ensures
        r@ == gcm_seal(key@, nonce12@, plaintext@, aad@),
        r@.len() == plaintext@.len() + 16,
        gcm_open(key@, nonce12@, r@, aad@) == Some(plaintext@),
{
    aes_gcm_seal(key, nonce12, plaintext, aad)
}

/// AES-256-GCM opening; fails with `AuthenticationFailed` unless `ct` is the
/// sealing of the plaintext it returns.
pub fn aead_decrypt_aes_gcm(key: &[u8; 32], ct: &[u8], nonce12: &[u8; 12], aad: &[u8]) -> (r:
    Result<Vec<u8>, VaultError>)
    ensures
        match gcm_open(key@, nonce12@, ct@, aad@) {
            Some(m) => r matches Ok(p) && p@ == m,
            None => r == Err::<Vec<u8>, VaultError>(VaultError::AuthenticationFailed),
        },
        r matches Ok(p) ==> ct@ == gcm_seal(key@, nonce12@, p@, aad@),
{
    match aes_gcm_open(key, nonce12, ct, aad) {
        Some(p) => Ok(p),
        None => Err(VaultError::AuthenticationFailed),
    }
}

/// The HKDF info string of an item: the ASCII bytes `item`, then its id.
pub open spec fn item_info(id: Seq<u8>) -> Seq<u8> {
    seq![105u8, 116u8, 101u8, 109u8] + id
}

/// The per-item key of `id` under the data-encrypting key `dek`.
pub open spec fn item_key(dek: Seq<u8>, id: Seq<u8>) -> Seq<u8> {
    hkdf_sha256(dek, item_info(id))
}

/// Two different ids never share an HKDF info string, so their keys come
/// from different HKDF inputs.
pub proof fn lemma_item_info_distinct(id1: Seq<u8>, id2: Seq<u8>)
    requires
        id1.len() == 16,
        id2.len() == 16,
        id1 != id2,
    ensures
        item_info(id1) != item_info(id2),
{
    if item_info(id1) == item_info(id2) {
        assert(id1 =~= item_info(id1).subrange(4, 20));
        assert(id2 =~= item_info(id2).subrange(4, 20));
    }
}

/// Derives the key of one entry; the same `(dek, id)` always gives the same key.
pub fn derive_item_key(dek: &[u8; 32], item_id: &[u8; 16]) -> (r: [u8; 32])
    ensures
        r@ == item_key(dek@, item_id@),
{
    let mut info: Vec<u8> = Vec::new();
    info.push(105u8);
    info.push(116u8);
    info.push(101u8);
    info.push(109u8);
    crate::codec::append_bytes(&mut info, item_id.as_slice());
    assert(info@ =~= item_info(item_id@));
    hkdf_sha256_32(dek, info.as_slice())
}

/// Signs header bytes with Ed25519.
pub fn sign_header(signing_key_bytes: &[u8; 32], header_bytes: &[u8]) -> (r: [u8; 64])
    ensures
        r@ == ed25519_signature(signing_key_bytes@, header_bytes@),
{
    ed25519_sign(signing_key_bytes, header_bytes)
}

/// Checks an Ed25519 signature over header bytes; false for an invalid key.
pub fn verify_header(verify_key_bytes: &[u8; 32], header_bytes: &[u8], sig_bytes: &[u8; 64]) -> (r:
    bool)
    ensures
        r == ed25519_accepts(verify_key_bytes@, header_bytes@, sig_bytes@),
{
    ed25519_verify(verify_key_bytes, header_bytes, sig_bytes)
}

} // verus!
