//! What this library takes on trust from the standard library and from the
//! crates it is built on: BIP-39 mnemonics, Ed25519, AES-256-GCM, base64 and
//! the random number generator. Verus does not read the code behind these
//! items; it believes what is stated here, and every proof in the library
//! rests on it.
//!
//! A cryptographic result is far too long to write down, so each one gets a
//! name: a function without a body that stands for what the outside code
//! computes from the same arguments.

use vstd::prelude::*;
use vstd::utf8::{encode_utf8, valid_utf8};

verus! {

/// `std::string::FromUtf8Error`: nothing is read from it.
#[verifier::external_type_specification]
#[verifier::external_body]
pub struct ExFromUtf8Error(std::string::FromUtf8Error);

/// `bip39::Mnemonic`: a parsed phrase, handed from the parser to the seed
/// derivation as it is.
#[verifier::external_type_specification]
#[verifier::external_body]
pub struct ExMnemonic(bip39::Mnemonic);

/// `bip39::Error`: nothing is read from it.
#[verifier::external_type_specification]
#[verifier::external_body]
pub struct ExMnemonicError(bip39::Error);

/// `aes_gcm::Error`: it holds nothing.
#[verifier::external_type_specification]
#[verifier::external_body]
pub struct ExCipherError(aes_gcm::Error);

/// `base64::DecodeError`: nothing is read from it.
#[verifier::external_type_specification]
#[verifier::external_body]
pub struct ExDecodeError(base64::DecodeError);

/// `String::from_utf8` succeeds exactly on valid UTF-8, and the string it
/// gives has the bytes it was given.
pub assume_specification[ String::from_utf8 ](vec: Vec<u8>) -> (r: Result<
    String,
    std::string::FromUtf8Error,
>)
    ensures
        r is Ok <==> valid_utf8(vec@),
        r matches Ok(s) ==> encode_utf8(s@) == vec@,
;

/// The words that a mnemonic holds, in order, with one space between them.
pub uninterp spec fn mnemonic_words(mnemonic: bip39::Mnemonic) -> Seq<char>;

/// What `bip39::Mnemonic::parse_in_normalized` makes of a phrase with the
/// English word list: the words of the mnemonic, or `None` where it refuses
/// the phrase (a word count other than 12, 15, 18, 21 or 24, a word that is
/// not in the list, a wrong checksum).
pub uninterp spec fn english_mnemonic(phrase: Seq<char>) -> Option<Seq<char>>;

/// The 64 bytes that `bip39::Mnemonic::to_seed` derives from the words of a
/// mnemonic with the empty passphrase.
pub uninterp spec fn mnemonic_seed(words: Seq<char>) -> Seq<u8>;

/// The public key that Ed25519 derives from a 32-byte secret key.
pub uninterp spec fn ed25519_public_key(secret: Seq<u8>) -> Seq<u8>;

/// The Ed25519 signature of a message under a 32-byte secret key.
pub uninterp spec fn ed25519_signature(secret: Seq<u8>, message: Seq<u8>) -> Seq<u8>;

/// Whether Ed25519 verification accepts a signature on a message under a
/// public key.
pub uninterp spec fn ed25519_accepts(public: Seq<u8>, message: Seq<u8>, signature: Seq<u8>) -> bool;

/// What AES-256-GCM makes of a plaintext under a key and a nonce, without
/// associated data: the ciphertext followed by its tag.
pub uninterp spec fn aes_gcm_sealed(key: Seq<u8>, nonce: Seq<u8>, plaintext: Seq<u8>) -> Seq<u8>;

/// What AES-256-GCM decryption makes of a ciphertext with its tag: the
/// plaintext, or `None` where it does not authenticate.
pub uninterp spec fn aes_gcm_opened(key: Seq<u8>, nonce: Seq<u8>, sealed: Seq<u8>) -> Option<
    Seq<u8>,
>;

/// The standard base64 text of some bytes, padded.
pub uninterp spec fn base64_text(bytes: Seq<u8>) -> Seq<char>;

/// The bytes that a standard base64 text stands for, or `None` where the
/// text is not base64.
pub uninterp spec fn base64_bytes(text: Seq<char>) -> Option<Seq<u8>>;

/// The longest plaintext that AES-GCM takes.
pub const MAX_PLAINTEXT_LEN: u64 = 0x10_0000_0000;

/// Whether some bytes are few enough for their base64 text to be built.
pub open spec fn base64_encodable(len: nat) -> bool {
    len <= isize::MAX / 2
}

/// `bip39::Mnemonic::parse_in_normalized` with the English word list. It
/// accepts or refuses a phrase by the phrase alone, and what it accepts is
/// the mnemonic with the words that `english_mnemonic` names.
#[verifier::external_body]
pub(crate) fn parse_english_mnemonic(phrase: &str) -> (r: Result<bip39::Mnemonic, bip39::Error>)
    ensures
        match r {
            Ok(mnemonic) => english_mnemonic(phrase@) == Some(mnemonic_words(mnemonic)),
            Err(_) => english_mnemonic(phrase@) is None,
        },
{
    bip39::Mnemonic::parse_in_normalized(bip39::Language::English, phrase)
}

/// `bip39::Mnemonic::to_seed` with the empty passphrase. The seed depends on
/// the words of the mnemonic alone.
#[verifier::external_body]
pub(crate) fn seed_of_mnemonic(mnemonic: &bip39::Mnemonic) -> (seed: [u8; 64])
    ensures
        seed@ == mnemonic_seed(mnemonic_words(*mnemonic)),
{
    mnemonic.to_seed("")
}

/// The verifying key of `ed25519_dalek::SigningKey::from_bytes(secret)`, as
/// bytes. It depends on the secret key alone.
#[verifier::external_body]
pub(crate) fn ed25519_derive_public(secret: &[u8; 32]) -> (public: [u8; 32])
    ensures
        public@ == ed25519_public_key(secret@),
{
    ed25519_dalek::VerifyingKey::from(&ed25519_dalek::SigningKey::from_bytes(secret)).to_bytes()
}

/// `ed25519_dalek::Signer::sign` under the signing key made from `secret`.
/// Signing is deterministic, and verification under the matching public key
/// accepts what it gives.
#[verifier::external_body]
pub(crate) fn ed25519_sign(secret: &[u8; 32], message: &[u8]) -> (signature: [u8; 64])
    ensures
        signature@ == ed25519_signature(secret@, message@),
        ed25519_accepts(ed25519_public_key(secret@), message@, signature@),
{
    ed25519_dalek::Signer::sign(&ed25519_dalek::SigningKey::from_bytes(secret), message).to_bytes()
}

/// `ed25519_dalek::Verifier::verify` under the verifying key that `public`
/// encodes. Bytes that encode no key, or no signature, accept nothing.
#[verifier::external_body]
pub(crate) fn ed25519_verify(public: &[u8], message: &[u8], signature: &[u8]) -> (ok: bool)
    ensures
        ok == ed25519_accepts(public@, message@, signature@),
{
    match (
        ed25519_dalek::VerifyingKey::try_from(public),
        ed25519_dalek::Signature::from_slice(signature),
    ) {
        (Ok(key), Ok(signature)) => ed25519_dalek::Verifier::verify(
            &key,
            message,
            &signature,
        ).is_ok(),
        _ => false,
    }
}

/// `aes_gcm::aead::Aead::encrypt` of AES-256-GCM, without associated data. It
/// fails on a plaintext over the cipher's limit and on no other; what it gives
/// is 16 bytes longer than the plaintext, and decryption under the same key
/// and nonce gives the plaintext back.
#[verifier::external_body]
pub(crate) fn aes_gcm_encrypt(key: &[u8; 32], nonce: &[u8], plaintext: &[u8]) -> (r: Result<
    Vec<u8>,
    aes_gcm::Error,
>)
    requires
        nonce@.len() == 12,
        plaintext@.len() + 16 <= isize::MAX,
    ensures
        match r {
            Ok(sealed) => plaintext@.len() <= MAX_PLAINTEXT_LEN && sealed@ == aes_gcm_sealed(
                key@,
                nonce@,
                plaintext@,
            ) && sealed@.len() == plaintext@.len() + 16 && aes_gcm_opened(key@, nonce@, sealed@)
                == Some(plaintext@),
            Err(_) => plaintext@.len() > MAX_PLAINTEXT_LEN,
        },
{
    let cipher: aes_gcm::Aes256Gcm = aes_gcm::KeyInit::new(aes_gcm::Key::<
        aes_gcm::Aes256Gcm,
    >::from_slice(key));
    aes_gcm::aead::Aead::encrypt(&cipher, aes_gcm::Nonce::from_slice(nonce), plaintext)
}

/// `aes_gcm::aead::Aead::decrypt` of AES-256-GCM, without associated data.
#[verifier::external_body]
pub(crate) fn aes_gcm_decrypt(key: &[u8; 32], nonce: &[u8], sealed: &[u8]) -> (r: Result<
    Vec<u8>,
    aes_gcm::Error,
>)
    requires
        nonce@.len() == 12,
    ensures
        match r {
            Ok(plaintext) => aes_gcm_opened(key@, nonce@, sealed@) == Some(plaintext@),
            Err(_) => aes_gcm_opened(key@, nonce@, sealed@) is None,
        },
{
    let cipher: aes_gcm::Aes256Gcm = aes_gcm::KeyInit::new(aes_gcm::Key::<
        aes_gcm::Aes256Gcm,
    >::from_slice(key));
    aes_gcm::aead::Aead::decrypt(&cipher, aes_gcm::Nonce::from_slice(nonce), sealed)
}

/// `base64::Engine::encode` of the standard engine. Decoding the text gives
/// the bytes back.
#[verifier::external_body]
pub(crate) fn base64_encode(bytes: &[u8]) -> (text: String)
    requires
        base64_encodable(bytes@.len()),
    ensures
        text@ == base64_text(bytes@),
        base64_bytes(text@) == Some(bytes@),
{
    base64::Engine::encode(&base64::engine::general_purpose::STANDARD, bytes)
}

/// `base64::Engine::decode` of the standard engine.
#[verifier::external_body]
pub(crate) fn base64_decode(text: &str) -> (r: Result<Vec<u8>, base64::DecodeError>)
    ensures
        match r {
            Ok(bytes) => base64_bytes(text@) == Some(bytes@),
            Err(_) => base64_bytes(text@) is None,
        },
{
    base64::Engine::decode(&base64::engine::general_purpose::STANDARD, text)
}

/// `rand::random` for twelve bytes. Nothing is claimed of what comes back:
/// that nonces do not repeat rests on the generator alone.
#[verifier::external_body]
pub(crate) fn random_nonce() -> (nonce: [u8; 12]) {
    rand::random::<[u8; 12]>()
}

} // verus!
