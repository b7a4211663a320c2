//! Keys derived from a seed phrase, and the envelope that carries one note.

use crate::note_format::{decode_note, decoded_note, encode_note, note_bytes};
use crate::primitives::{
    aes_gcm_decrypt, aes_gcm_encrypt, aes_gcm_opened, aes_gcm_sealed, base64_bytes, base64_decode,
    base64_encodable, base64_encode, base64_text, ed25519_accepts, ed25519_derive_public,
    ed25519_public_key, ed25519_sign, ed25519_signature, ed25519_verify, english_mnemonic,
    mnemonic_seed, parse_english_mnemonic, random_nonce, seed_of_mnemonic, MAX_PLAINTEXT_LEN,
};
use crate::types::{Note, NoteView, SyncError, SyncErrorView};
use vstd::prelude::*;

verus! {

/// A note on the wire: every binary field in base64.
#[derive(Debug, PartialEq, Eq)]
pub struct EncryptedNote {
    /// The note's identifier as eight big-endian bytes, 0 for a note that has
    /// none.
    pub id: String,
    /// The ciphertext with its authentication tag.
    pub data: String,
    /// The twelve bytes of the nonce.
    pub nonce: String,
    /// The note's time of last update.
    pub timestamp: i64,
    /// The signature of the ciphertext.
    pub signature: String,
}

/// What an envelope is, with its texts as sequences of characters.
pub ghost struct EncryptedNoteView {
    pub id: Seq<char>,
    pub data: Seq<char>,
    pub nonce: Seq<char>,
    pub timestamp: i64,
    pub signature: Seq<char>,
}

impl View for EncryptedNote {
    type V = EncryptedNoteView;

    open spec fn view(&self) -> EncryptedNoteView {
        EncryptedNoteView {
            id: self.id@,
            data: self.data@,
            nonce: self.nonce@,
            timestamp: self.timestamp,
            signature: self.signature@,
        }
    }
}

impl Clone for EncryptedNote {
    fn clone(&self) -> (res: Self)
        ensures
            res@ == self@,
    {
        EncryptedNote {
            id: self.id.clone(),
            data: self.data.clone(),
            nonce: self.nonce.clone(),
            timestamp: self.timestamp,
            signature: self.signature.clone(),
        }
    }
}

/// The key material that one seed phrase stands for.
pub ghost struct KeyMaterial {
    /// The 32 bytes of the symmetric key.
    pub encryption_key: Seq<u8>,
    /// The 32 bytes that the signing key is made from.
    pub signing_key: Seq<u8>,
    /// The 32 bytes of the public key.
    pub public_key: Seq<u8>,
}

/// The keys of a seed phrase: the first half of the mnemonic's seed encrypts,
/// the second half signs. `None` for a phrase that is no valid mnemonic.
pub open spec fn derived_keys(phrase: Seq<char>) -> Option<KeyMaterial> {
    match english_mnemonic(phrase) {
        Some(words) => {
            let seed = mnemonic_seed(words);
            Some(
                KeyMaterial {
                    encryption_key: seed.subrange(0, 32),
                    signing_key: seed.subrange(32, 64),
                    public_key: ed25519_public_key(seed.subrange(32, 64)),
                },
            )
        },
        None => None,
    }
}

/// The bytes of `value`, most significant first, `count` of them.
pub open spec fn big_endian(value: nat, count: nat) -> Seq<u8>
    decreases count,
{
    if count == 0 {
        Seq::empty()
    } else {
        big_endian(value / 256, (count - 1) as nat).push((value % 256) as u8)
    }
}

/// The number that bytes write, most significant first.
pub open spec fn big_endian_value(bytes: Seq<u8>) -> nat
    decreases bytes.len(),
{
    if bytes.len() == 0 {
        0
    } else {
        big_endian_value(bytes.drop_last()) * 256 + bytes.last() as nat
    }
}

/// An identifier as eight big-endian bytes in two's complement.
pub open spec fn id_bytes(id: i64) -> Seq<u8> {
    big_endian(
        if id < 0 {
            (id + 0x1_0000_0000_0000_0000) as nat
        } else {
            id as nat
        },
        8,
    )
}

/// The identifier that eight bytes write.
pub open spec fn id_of_bytes(bytes: Seq<u8>) -> i64 {
    let value = big_endian_value(bytes);
    if value >= 0x8000_0000_0000_0000 {
        (value - 0x1_0000_0000_0000_0000) as i64
    } else {
        value as i64
    }
}

/// The identifier that an envelope declares: its `id` field must be the
/// base64 text of eight bytes.
pub open spec fn declared_id(id: Seq<char>) -> Option<i64> {
    match base64_bytes(id) {
        Some(bytes) => if bytes.len() == 8 {
            Some(id_of_bytes(bytes))
        } else {
            None
        },
        None => None,
    }
}

/// Whether a note can be sealed: its canonical form is within the cipher's
/// limit, and the base64 text of the result can be built.
#[verifier::opaque]
pub open spec fn can_seal(note: NoteView) -> bool {
    note_bytes(note).len() <= MAX_PLAINTEXT_LEN && base64_encodable(note_bytes(note).len() + 16)
}

/// The envelope of a note under given keys and a given nonce.
pub open spec fn sealed_envelope(keys: KeyMaterial, note: NoteView, nonce: Seq<u8>)
    -> EncryptedNoteView {
    let data = aes_gcm_sealed(keys.encryption_key, nonce, note_bytes(note));
    EncryptedNoteView {
        id: base64_text(
            id_bytes(
                match note.id {
                    Some(id) => id,
                    None => 0,
                },
            ),
        ),
        data: base64_text(data),
        nonce: base64_text(nonce),
        timestamp: note.updated_at,
        signature: base64_text(ed25519_signature(keys.signing_key, data)),
    }
}

/// The bytes that decryption recovers from an envelope: its data and nonce
/// must be base64, the nonce twelve bytes, and the cipher must authenticate
/// the data.
pub open spec fn opened_bytes(keys: KeyMaterial, envelope: EncryptedNoteView) -> Option<Seq<u8>> {
    match (base64_bytes(envelope.data), base64_bytes(envelope.nonce)) {
        (Some(data), Some(nonce)) => if nonce.len() == 12 {
            aes_gcm_opened(keys.encryption_key, nonce, data)
        } else {
            None
        },
        _ => None,
    }
}

/// What decryption makes of an envelope. It fails with `DecryptionFailed`
/// where no bytes are recovered or they are not the canonical form of a
/// note, and with `IdentityMismatch` where the note is not the one that the
/// envelope declares.
pub open spec fn opened_note(keys: KeyMaterial, envelope: EncryptedNoteView) -> Result<
    NoteView,
    SyncError,
> {
    match opened_bytes(keys, envelope) {
        Some(bytes) => match decoded_note(bytes) {
            Some(note) => if declared_id(envelope.id) is Some && note.id == declared_id(
                envelope.id,
            ) {
                Ok(note)
            } else {
                Err(SyncError::IdentityMismatch)
            },
            None => Err(SyncError::DecryptionFailed),
        },
        None => Err(SyncError::DecryptionFailed),
    }
}

/// Whether an envelope carries a signature of its data that verifies under
/// a public key.
pub open spec fn carries_signature(public_key: Seq<u8>, envelope: EncryptedNoteView) -> bool {
    match (base64_bytes(envelope.data), base64_bytes(envelope.signature)) {
        (Some(data), Some(signature)) => ed25519_accepts(public_key, data, signature),
        _ => false,
    }
}

/// Whether an envelope carries a signature of its data that verifies under
/// a public key given in base64.
pub open spec fn signed_by(public_key: Seq<char>, envelope: EncryptedNoteView) -> bool {
    match base64_bytes(public_key) {
        Some(key) => carries_signature(key, envelope),
        None => false,
    }
}

/// What `CryptoManager::new` gives for a seed phrase: the keys derived from
/// it, or `InvalidSeedPhrase`.
pub open spec fn derivation_outcome(phrase: Seq<char>, outcome: Result<CryptoManager, SyncError>)
    -> bool {
    match derived_keys(phrase) {
        Some(keys) => outcome matches Ok(manager) && manager@ == keys,
        None => outcome matches Err(SyncError::InvalidSeedPhrase),
    }
}

/// The error for a note that cannot be sealed.
pub open spec fn sealing_failure() -> SyncErrorView {
    SyncErrorView::CryptoError("Encryption error: aead::Error"@)
}

/// Whether `envelope` seals `note` under `keys`: it is the note's envelope
/// for some nonce of twelve bytes, its signature verifies under the public
/// key, and, where the note has an identifier, it opens to that note again.
#[verifier::opaque]
pub open spec fn seals(keys: KeyMaterial, note: NoteView, envelope: EncryptedNoteView) -> bool {
    &&& exists|nonce: Seq<u8>|
        nonce.len() == 12 && envelope == #[trigger] sealed_envelope(keys, note, nonce)
    &&& carries_signature(keys.public_key, envelope)
    &&& note.id is Some ==> opened_note(keys, envelope) == Ok::<NoteView, SyncError>(note)
}

/// What sealing a note gives: an envelope that seals it, or the error for a
/// note that cannot be sealed.
pub open spec fn sealing_outcome(
    keys: KeyMaterial,
    note: NoteView,
    outcome: Result<EncryptedNote, SyncError>,
) -> bool {
    match outcome {
        Ok(envelope) => can_seal(note) && seals(keys, note, envelope@),
        Err(error) => !can_seal(note) && error@ == sealing_failure(),
    }
}

/// What decryption makes of an envelope whose signature is checked first
/// against a partner's public key, given in base64: `InvalidSignature` where
/// the signature does not verify, and what `opened_note` gives otherwise.
pub open spec fn opened_signed_note(
    keys: KeyMaterial,
    public_key: Seq<char>,
    envelope: EncryptedNoteView,
) -> Result<NoteView, SyncError> {
    if signed_by(public_key, envelope) {
        opened_note(keys, envelope)
    } else {
        Err(SyncError::InvalidSignature)
    }
}

/// What decryption gives for an envelope: the note, or the error, that
/// `opened_note` names.
pub open spec fn opening_outcome(
    keys: KeyMaterial,
    envelope: EncryptedNoteView,
    outcome: Result<Note, SyncError>,
) -> bool {
    match opened_note(keys, envelope) {
        Ok(note) => outcome matches Ok(n) && n@ == note,
        Err(error) => outcome matches Err(e) && e == error,
    }
}

/// The keys of one identity: a symmetric key that encrypts notes and a key
/// pair that signs envelopes, all derived from one seed phrase and never
/// changed afterwards.
pub struct CryptoManager {
    encryption_key: [u8; 32],
    signing_key: [u8; 32],
    verifying_key: [u8; 32],
}

impl View for CryptoManager {
    type V = KeyMaterial;

    closed spec fn view(&self) -> KeyMaterial {
        KeyMaterial {
            encryption_key: self.encryption_key@,
            signing_key: self.signing_key@,
            public_key: self.verifying_key@,
        }
    }
}

/// Copies 32 bytes of a seed.
fn seed_half(seed: &[u8; 64], from: usize) -> (half: [u8; 32])
    requires
        from <= 32,
    ensures
        half@ == seed@.subrange(from as int, from + 32),
{
    let mut half = [0u8; 32];
    let mut i: usize = 0;
    while i < 32
        invariant
            i <= 32,
            from <= 32,
            forall|k: int| 0 <= k < i ==> half@[k] == seed@[from + k],
        decreases 32 - i,
    {
        half[i] = seed[from + i];
        i += 1;
    }
    assert(half@ =~= seed@.subrange(from as int, from + 32));
    half
}

impl CryptoManager {
    /// The public key is the one that belongs to the signing key.
    #[verifier::type_invariant]
    spec fn key_pair_matches(self) -> bool {
        self.verifying_key@ == ed25519_public_key(self.signing_key@)
    }

    /// Derives the keys of a seed phrase. The phrase must be a valid English
    /// mnemonic; bytes 0 to 31 of its seed become the encryption key, bytes
    /// 32 to 63 the signing key.
    pub fn new(seed_phrase: &str) -> (outcome: Result<CryptoManager, SyncError>)
        ensures
            derivation_outcome(seed_phrase@, outcome),
    {
        match parse_english_mnemonic(seed_phrase) {
            Ok(mnemonic) => {
                let seed = seed_of_mnemonic(&mnemonic);
                let encryption_key = seed_half(&seed, 0);
                let signing_key = seed_half(&seed, 32);
                let verifying_key = ed25519_derive_public(&signing_key);
                Ok(CryptoManager { encryption_key, signing_key, verifying_key })
            },
            Err(_) => Err(SyncError::InvalidSeedPhrase),
        }
    }

    /// The public key in base64, for the exchange of identities.
    pub fn public_key_base64(&self) -> (text: String)
        ensures
            text@ == base64_text(self@.public_key),
            base64_bytes(text@) == Some(self@.public_key),
    {
        base64_encode(self.verifying_key.as_slice())
    }

    /// Seals a note under a given nonce. The nonce must never be used twice
    /// with the same keys: callers other than [`CryptoManager::encrypt_note`]
    /// answer for that.
    pub fn encrypt_note_with_nonce(&self, note: &Note, nonce: &[u8; 12]) -> (outcome: Result<
        EncryptedNote,
        SyncError,
    >)
        ensures
            sealing_outcome(self@, note@, outcome),
            outcome matches Ok(envelope) ==> envelope@ == sealed_envelope(self@, note@, nonce@),
    {
        proof {
            use_type_invariant(self);
            reveal(can_seal);
        }
        let plaintext = encode_note(note);
        if plaintext.len() > (isize::MAX / 2) as usize - 16 {
            return Err(SyncError::CryptoError("Encryption error: aead::Error".to_owned()));
        }
        let data = match aes_gcm_encrypt(
            &self.encryption_key,
            nonce.as_slice(),
            plaintext.as_slice(),
        ) {
            Ok(data) => data,
            Err(_) => {
                return Err(SyncError::CryptoError("Encryption error: aead::Error".to_owned()));
            },
        };
        let signature = ed25519_sign(&self.signing_key, data.as_slice());
        let id: i64 = match note.id {
            Some(id) => id,
            None => 0,
        };
        let id_raw = id_to_bytes(id);
        proof {
            lemma_id_round_trip(id);
            crate::note_format::lemma_decode_encoded(note@);
        }
        let envelope = EncryptedNote {
            id: base64_encode(id_raw.as_slice()),
            data: base64_encode(data.as_slice()),
            nonce: base64_encode(nonce.as_slice()),
            timestamp: note.updated_at,
            signature: base64_encode(signature.as_slice()),
        };
        proof {
            reveal(seals);
            assert(envelope@ == sealed_envelope(self@, note@, nonce@));
        }
        Ok(envelope)
    }

    /// Seals a note under a fresh random nonce. It fails on a note that is
    /// too long to seal and on no other.
    pub fn encrypt_note(&self, note: &Note) -> (outcome: Result<EncryptedNote, SyncError>)
        ensures
            sealing_outcome(self@, note@, outcome),
    {
        let nonce = random_nonce();
        self.encrypt_note_with_nonce(note, &nonce)
    }

    /// Opens an envelope: decrypts its data under its nonce and checks that
    /// the note inside is the one that the envelope declares.
    pub fn decrypt_note(&self, encrypted: &EncryptedNote) -> (outcome: Result<Note, SyncError>)
        ensures
            opening_outcome(self@, encrypted@, outcome),
    {
        let data = match base64_decode(encrypted.data.as_str()) {
            Ok(data) => data,
            Err(_) => {
                return Err(SyncError::DecryptionFailed);
            },
        };
        let nonce = match base64_decode(encrypted.nonce.as_str()) {
            Ok(nonce) => nonce,
            Err(_) => {
                return Err(SyncError::DecryptionFailed);
            },
        };
        if nonce.len() != 12 {
            return Err(SyncError::DecryptionFailed);
        }
        let plaintext = match aes_gcm_decrypt(
            &self.encryption_key,
            nonce.as_slice(),
            data.as_slice(),
        ) {
            Ok(plaintext) => plaintext,
            Err(_) => {
                return Err(SyncError::DecryptionFailed);
            },
        };
        let note = match decode_note(plaintext.as_slice()) {
            Some(note) => note,
            None => {
                return Err(SyncError::DecryptionFailed);
            },
        };
        let id_raw = match base64_decode(encrypted.id.as_str()) {
            Ok(id_raw) => id_raw,
            Err(_) => {
                return Err(SyncError::IdentityMismatch);
            },
        };
        if id_raw.len() != 8 {
            return Err(SyncError::IdentityMismatch);
        }
        let declared = id_from_bytes(&eight_bytes(&id_raw));
        match note.id {
            Some(id) => if id == declared {
                Ok(note)
            } else {
                Err(SyncError::IdentityMismatch)
            },
            None => Err(SyncError::IdentityMismatch),
        }
    }

    /// Opens an envelope from a partner whose public key is known: the
    /// signature is checked first, and nothing is decrypted unless it
    /// verifies.
    pub fn decrypt_signed_note(&self, public_key: &str, encrypted: &EncryptedNote) -> (outcome:
        Result<Note, SyncError>)
        ensures
            match opened_signed_note(self@, public_key@, encrypted@) {
                Ok(note) => outcome matches Ok(n) && n@ == note,
                Err(error) => outcome matches Err(e) && e == error,
            },
    {
        match CryptoManager::verify_signature(public_key, encrypted) {
            Ok(_) => self.decrypt_note(encrypted),
            Err(_) => Err(SyncError::InvalidSignature),
        }
    }

    /// Checks an envelope's signature against a partner's public key, given
    /// in base64. It reads the envelope's data and signature only, so it can
    /// run before any decryption.
    pub fn verify_signature(public_key: &str, encrypted: &EncryptedNote) -> (outcome: Result<
        (),
        SyncError,
    >)
        ensures
            outcome is Ok <==> signed_by(public_key@, encrypted@),
            outcome matches Err(error) ==> error == SyncError::InvalidSignature,
    {
        let key = match base64_decode(public_key) {
            Ok(key) => key,
            Err(_) => {
                return Err(SyncError::InvalidSignature);
            },
        };
        let data = match base64_decode(encrypted.data.as_str()) {
            Ok(data) => data,
            Err(_) => {
                return Err(SyncError::InvalidSignature);
            },
        };
        let signature = match base64_decode(encrypted.signature.as_str()) {
            Ok(signature) => signature,
            Err(_) => {
                return Err(SyncError::InvalidSignature);
            },
        };
        if ed25519_verify(key.as_slice(), data.as_slice(), signature.as_slice()) {
            Ok(())
        } else {
            Err(SyncError::InvalidSignature)
        }
    }
}

/// Eight bytes written most significant first are read back.
pub proof fn lemma_big_endian_round_trip(value: nat)
    requires
        value < 0x1_0000_0000_0000_0000,
    ensures
        big_endian(value, 8).len() == 8,
        big_endian_value(big_endian(value, 8)) == value,
{
    lemma_big_endian_value(value, 8);
    assert(value / 256 / 256 / 256 / 256 / 256 / 256 / 256 / 256 == 0);
    reveal_with_fuel(high_part, 9);
}

/// What is left of `value` above its `count` lowest bytes.
spec fn high_part(value: nat, count: nat) -> nat
    decreases count,
{
    if count == 0 {
        value
    } else {
        high_part(value / 256, (count - 1) as nat)
    }
}

proof fn lemma_big_endian_value(value: nat, count: nat)
    ensures
        big_endian(value, count).len() == count,
        high_part(value, count) == 0 ==> big_endian_value(big_endian(value, count)) == value,
    decreases count,
{
    if count > 0 {
        lemma_big_endian_value(value / 256, (count - 1) as nat);
        assert(big_endian(value, count).drop_last() == big_endian(
            value / 256,
            (count - 1) as nat,
        ));
    }
}

/// An identifier is read back from its eight bytes.
pub proof fn lemma_id_round_trip(id: i64)
    ensures
        id_bytes(id).len() == 8,
        id_of_bytes(id_bytes(id)) == id,
{
    if id < 0 {
        lemma_big_endian_round_trip((id + 0x1_0000_0000_0000_0000) as nat);
    } else {
        lemma_big_endian_round_trip(id as nat);
    }
}

/// Writes an identifier as eight big-endian bytes.
pub fn id_to_bytes(id: i64) -> (bytes: [u8; 8])
    ensures
        bytes@ == id_bytes(id),
{
    let value: u64 = if id < 0 {
        ((id - i64::MIN) as u64) + 0x8000_0000_0000_0000
    } else {
        id as u64
    };
    let v1: u64 = value / 256;
    let v2: u64 = v1 / 256;
    let v3: u64 = v2 / 256;
    let v4: u64 = v3 / 256;
    let v5: u64 = v4 / 256;
    let v6: u64 = v5 / 256;
    let v7: u64 = v6 / 256;
    let bytes: [u8; 8] = [
        (v7 % 256) as u8,
        (v6 % 256) as u8,
        (v5 % 256) as u8,
        (v4 % 256) as u8,
        (v3 % 256) as u8,
        (v2 % 256) as u8,
        (v1 % 256) as u8,
        (value % 256) as u8,
    ];
    proof {
        reveal_with_fuel(big_endian, 9);
        assert(bytes@ =~= big_endian(value as nat, 8));
    }
    bytes
}

/// Reads an identifier from eight big-endian bytes.
pub fn id_from_bytes(bytes: &[u8; 8]) -> (id: i64)
    ensures
        id == id_of_bytes(bytes@),
{
    let mut value: u64 = 0;
    let mut i: usize = 0;
    while i < 8
        invariant
            i <= 8,
            value == big_endian_value(bytes@.take(i as int)),
            i < 8 ==> value < 0x100_0000_0000_0000,
        decreases 8 - i,
    {
        proof {
            let longer = bytes@.take(i + 1);
            assert(longer.drop_last() == bytes@.take(i as int));
            assert(longer.last() == bytes@[i as int]);
            lemma_big_endian_bound(bytes@.take(i as int));
            lemma_big_endian_bound(longer);
        }
        value = value * 256 + bytes[i] as u64;
        i += 1;
    }
    assert(bytes@.take(8) == bytes@);
    if value >= 0x8000_0000_0000_0000 {
        ((value - 0x8000_0000_0000_0000) as i64) + i64::MIN
    } else {
        value as i64
    }
}

/// The eight bytes of a list that holds eight.
fn eight_bytes(list: &Vec<u8>) -> (bytes: [u8; 8])
    requires
        list@.len() == 8,
    ensures
        bytes@ == list@,
{
    let mut bytes = [0u8; 8];
    let mut i: usize = 0;
    while i < 8
        invariant
            i <= 8,
            list@.len() == 8,
            forall|k: int| 0 <= k < i ==> bytes@[k] == list@[k],
        decreases 8 - i,
    {
        bytes[i] = list[i];
        i += 1;
    }
    assert(bytes@ =~= list@);
    bytes
}

/// What `count` bytes can write at most.
spec fn byte_capacity(count: nat) -> nat
    decreases count,
{
    if count == 0 {
        1
    } else {
        256 * byte_capacity((count - 1) as nat)
    }
}

proof fn lemma_big_endian_bound(bytes: Seq<u8>)
    ensures
        big_endian_value(bytes) < byte_capacity(bytes.len()),
        bytes.len() == 7 ==> byte_capacity(bytes.len()) == 0x100_0000_0000_0000,
        bytes.len() == 8 ==> byte_capacity(bytes.len()) == 0x1_0000_0000_0000_0000,
        bytes.len() < 7 ==> byte_capacity(bytes.len()) <= 0x1_0000_0000_0000,
    decreases bytes.len(),
{
    reveal_with_fuel(byte_capacity, 10);
    if bytes.len() > 0 {
        lemma_big_endian_bound(bytes.drop_last());
    }
}

/// Decryption undoes encryption: a note that has an identifier comes back
/// exactly from the envelope that sealed it, under the same keys.
pub proof fn lemma_decrypt_inverts_encrypt(
    keys: KeyMaterial,
    note: NoteView,
    sealed: Result<EncryptedNote, SyncError>,
    opened: Result<Note, SyncError>,
)
    requires
        note.id is Some,
        sealing_outcome(keys, note, sealed),
        sealed matches Ok(envelope) && opening_outcome(keys, envelope@, opened),
    ensures
        opened matches Ok(back) && back@ == note,
{
    reveal(seals);
}

/// An envelope answers for its note in the clear: it declares the note's
/// identifier as eight big-endian bytes, 0 where the note has none, it
/// carries the note's time of last update, and its signature is the key
/// pair's signature of its data.
pub proof fn lemma_envelope_declares_its_note(
    keys: KeyMaterial,
    note: NoteView,
    sealed: Result<EncryptedNote, SyncError>,
)
    requires
        sealing_outcome(keys, note, sealed),
        sealed is Ok,
    ensures
        sealed->Ok_0@.id == base64_text(
            id_bytes(
                match note.id {
                    Some(id) => id,
                    None => 0,
                },
            ),
        ),
        sealed->Ok_0@.timestamp == note.updated_at,
        carries_signature(keys.public_key, sealed->Ok_0@),
{
    reveal(seals);
}

/// Deriving keys twice from one seed phrase gives the same result: both
/// derivations fail, or both succeed with the same encryption key, signing
/// key and public key.
pub proof fn lemma_derivation_is_deterministic(
    phrase: Seq<char>,
    first: Result<CryptoManager, SyncError>,
    second: Result<CryptoManager, SyncError>,
)
    requires
        derivation_outcome(phrase, first),
        derivation_outcome(phrase, second),
    ensures
        first is Ok <==> second is Ok,
        first matches Ok(a) ==> second matches Ok(b) && a@.encryption_key == b@.encryption_key
            && a@.signing_key == b@.signing_key && a@.public_key == b@.public_key,
        first matches Err(error) ==> second == Err::<CryptoManager, SyncError>(error),
{
}

/// An envelope that answers for another note is refused: where two envelopes
/// open under the same keys to notes with different identifiers, the first
/// one under the identifier of the second fails with `IdentityMismatch`,
/// although the cipher still authenticates its data.
pub proof fn lemma_swapped_identifier_is_refused(
    keys: KeyMaterial,
    first: EncryptedNoteView,
    second: EncryptedNoteView,
)
    requires
        opened_note(keys, first) is Ok,
        opened_note(keys, second) is Ok,
        opened_note(keys, first)->Ok_0.id != opened_note(keys, second)->Ok_0.id,
    ensures
        opened_bytes(keys, EncryptedNoteView { id: second.id, ..first }) == opened_bytes(
            keys,
            first,
        ),
        opened_note(keys, EncryptedNoteView { id: second.id, ..first }) == Err::<
            NoteView,
            SyncError,
        >(SyncError::IdentityMismatch),
{
}

/// Decryption fails closed: an envelope whose data the cipher does not
/// authenticate under its nonce gives `DecryptionFailed`, and an envelope
/// that opens gives the very note whose canonical form the cipher
/// authenticated, under the identifier that the envelope declares.
pub proof fn lemma_opened_note_is_authentic(keys: KeyMaterial, envelope: EncryptedNoteView)
    ensures
        opened_bytes(keys, envelope) is None ==> opened_note(keys, envelope) == Err::<
            NoteView,
            SyncError,
        >(SyncError::DecryptionFailed),
        opened_note(keys, envelope) matches Ok(note) ==> opened_bytes(keys, envelope) == Some(
            note_bytes(note),
        ) && declared_id(envelope.id) == note.id,
{
    if opened_note(keys, envelope) is Ok {
        let note = opened_note(keys, envelope)->Ok_0;
        crate::note_format::lemma_decoded_iff_canonical(opened_bytes(keys, envelope)->0, note);
    }
}

} // verus!
