//! The RSA material of the login handshake: key generation, the DER
//! form of the public key, PKCS#1 v1.5 decryption, and the random
//! verify token. Every call into the rsa, pkcs1 and rand crates stands
//! here, behind a trusted item.

use vstd::prelude::*;

verus! {

#[verifier::external_type_specification]
#[verifier::external_body]
pub struct ExRsaPrivateKey(rsa::RsaPrivateKey);

#[verifier::external_type_specification]
#[verifier::external_body]
pub struct ExRsaPublicKey(rsa::RsaPublicKey);

/// Why the server's key material could not be set up.
#[derive(Clone, Copy, Debug, PartialEq, Eq, Structural)]
pub enum CryptoError {
    /// The RSA key pair could not be generated at the requested size.
    KeyGeneration,
    /// The public key could not be encoded as PKCS#1 DER.
    KeyEncoding,
}

/// Relies on `rsa::RsaPrivateKey::new`: a fresh private key of the
/// requested bit size, drawn from the thread's secure generator; none
/// for sizes that cannot be generated. The result is random, so
/// nothing is assumed of it.
#[verifier::external_body]
fn generate_private_key(bits: usize) -> (r: Option<rsa::RsaPrivateKey>) {
    match rsa::RsaPrivateKey::new(&mut rand::thread_rng(), bits) {
        Ok(k) => Some(k),
        Err(_) => None,
    }
}

/// Relies on `From<&RsaPrivateKey> for RsaPublicKey`: the public half
/// of the key pair.
#[verifier::external_body]
fn public_key_of(sk: &rsa::RsaPrivateKey) -> (r: rsa::RsaPublicKey) {
    rsa::RsaPublicKey::from(sk)
}

/// Relies on `pkcs1::EncodeRsaPublicKey::to_pkcs1_der`: the PKCS#1
/// DER encoding of the public key, as raw bytes.
#[verifier::external_body]
fn public_key_to_der(pk: &rsa::RsaPublicKey) -> (r: Option<Vec<u8>>) {
    match pkcs1::EncodeRsaPublicKey::to_pkcs1_der(pk) {
        Ok(doc) => Some(doc.into_vec()),
        Err(_) => None,
    }
}

/// Relies on `rsa::RsaPrivateKey::decrypt` with PKCS#1 v1.5 padding:
/// the plaintext when the ciphertext was made under this key's public
/// half, none otherwise. Nothing is assumed of the plaintext.
#[verifier::external_body]
pub(crate) fn rsa_decrypt(sk: &rsa::RsaPrivateKey, ciphertext: &[u8]) -> (r: Option<Vec<u8>>) {
    match sk.decrypt(rsa::Pkcs1v15Encrypt, ciphertext) {
        Ok(p) => Some(p),
        Err(_) => None,
    }
}

/// Relies on `rand::random`: four bytes from the thread's secure
/// generator. Only the length holds of every outcome.
#[verifier::external_body]
pub(crate) fn random_verify_token() -> (r: Vec<u8>)
    ensures
        r@.len() == 4,
{
    rand::random::<[u8; 4]>().to_vec()
}

/// The long-lived key material every connection task shares
/// read-only: the private key, and the DER bytes of its public half
/// that go out in every EncryptionRequest.
pub struct ServerKeys {
    pub(crate) private_key: rsa::RsaPrivateKey,
    pub public_key_der: Vec<u8>,
}

impl ServerKeys {
    /// The DER bytes of the public key, as contracts see them.
    pub closed spec fn der(&self) -> Seq<u8> {
        self.public_key_der@
    }

    /// A copy of the public key's DER bytes.
    pub fn der_bytes(&self) -> (r: Vec<u8>)
        ensures
            r@ == self.der(),
    {
        vstd::slice::slice_to_vec(self.public_key_der.as_slice())
    }
}

/// Generates the server's key pair once, at listener start.
pub fn generate_server_keys(bits: usize) -> (r: Result<ServerKeys, CryptoError>)
    ensures
        r matches Err(e) ==> (e == CryptoError::KeyGeneration || e == CryptoError::KeyEncoding),
{
    let private_key = match generate_private_key(bits) {
        Some(k) => k,
        None => {
            return Err(CryptoError::KeyGeneration);
        },
    };
    let public_key = public_key_of(&private_key);
    let public_key_der = match public_key_to_der(&public_key) {
        Some(b) => b,
        None => {
            return Err(CryptoError::KeyEncoding);
        },
    };
    let keys = ServerKeys { private_key, public_key_der };
    Ok(keys)
}

} // verus!
