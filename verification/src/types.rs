//! The records that the synchronisation core works on.

use crate::crypto::{EncryptedNote, EncryptedNoteView};
use crate::text::{copy_texts, texts};
use vstd::prelude::*;
use vstd::string::StringExecFns;

verus! {

/// A note as the persistence layer hands it over. `id` is absent until the
/// note has been stored once.
#[derive(Debug, PartialEq, Eq)]
pub struct Note {
    pub id: Option<i64>,
    pub title: String,
    pub content: String,
    pub created_at: i64,
    pub updated_at: i64,
}

/// What a note is, with its texts as sequences of characters.
pub ghost struct NoteView {
    pub id: Option<i64>,
    pub title: Seq<char>,
    pub content: Seq<char>,
    pub created_at: i64,
    pub updated_at: i64,
}

impl View for Note {
    type V = NoteView;

    open spec fn view(&self) -> NoteView {
        NoteView {
            id: self.id,
            title: self.title@,
            content: self.content@,
            created_at: self.created_at,
            updated_at: self.updated_at,
        }
    }
}

impl Clone for Note {
    fn clone(&self) -> (res: Self)
        ensures
            res@ == self@,
    {
        Note {
            id: self.id,
            title: self.title.clone(),
            content: self.content.clone(),
            created_at: self.created_at,
            updated_at: self.updated_at,
        }
    }
}

/// The views of a list of notes, in order.
pub open spec fn note_views(notes: Seq<Note>) -> Seq<NoteView> {
    notes.map_values(|n: Note| n@)
}

/// The views of a list of envelopes, in order.
pub open spec fn envelope_views(envelopes: Seq<EncryptedNote>) -> Seq<EncryptedNoteView> {
    envelopes.map_values(|e: EncryptedNote| e@)
}

/// What the client sends: its public key, every local note as an envelope,
/// and the client's version.
#[derive(Debug)]
pub struct SyncRequest {
    pub public_key: String,
    pub notes: Vec<EncryptedNote>,
    pub client_version: String,
}

/// What a request is, over views.
pub ghost struct SyncRequestView {
    pub public_key: Seq<char>,
    pub notes: Seq<EncryptedNoteView>,
    pub client_version: Seq<char>,
}

impl View for SyncRequest {
    type V = SyncRequestView;

    open spec fn view(&self) -> SyncRequestView {
        SyncRequestView {
            public_key: self.public_key@,
            notes: envelope_views(self.notes@),
            client_version: self.client_version@,
        }
    }
}

/// What the endpoint answers: the envelopes it holds, the identifiers that it
/// has a newer version of, and the identifiers on which it sees a conflict.
/// Identifiers are written as envelopes write them.
#[derive(Debug)]
pub struct SyncResponse {
    pub notes: Vec<EncryptedNote>,
    pub updated: Vec<String>,
    pub conflicts: Vec<String>,
}

/// What a response is, over views.
pub ghost struct SyncResponseView {
    pub notes: Seq<EncryptedNoteView>,
    pub updated: Seq<Seq<char>>,
    pub conflicts: Seq<Seq<char>>,
}

impl View for SyncResponse {
    type V = SyncResponseView;

    open spec fn view(&self) -> SyncResponseView {
        SyncResponseView {
            notes: envelope_views(self.notes@),
            updated: texts(self.updated@),
            conflicts: texts(self.conflicts@),
        }
    }
}

/// Why a synchronisation, or one step of it, failed.
#[derive(Debug, PartialEq, Eq)]
pub enum SyncError {
    /// The seed phrase is no valid mnemonic: no key can be derived.
    InvalidSeedPhrase,
    /// A local note could not be encrypted.
    CryptoError(String),
    /// An envelope did not authenticate, or what it held is no note.
    DecryptionFailed,
    /// An envelope held a note other than the one it declares.
    IdentityMismatch,
    /// An envelope's signature is not its partner's signature of its data.
    InvalidSignature,
    /// The exchange with the endpoint failed.
    NetworkError(String),
    /// Every attempt failed and none left a cause.
    Unknown,
}

/// What an error is, with its texts as sequences of characters.
pub ghost enum SyncErrorView {
    InvalidSeedPhrase,
    CryptoError(Seq<char>),
    DecryptionFailed,
    IdentityMismatch,
    InvalidSignature,
    NetworkError(Seq<char>),
    Unknown,
}

impl View for SyncError {
    type V = SyncErrorView;

    open spec fn view(&self) -> SyncErrorView {
        match self {
            SyncError::InvalidSeedPhrase => SyncErrorView::InvalidSeedPhrase,
            SyncError::CryptoError(detail) => SyncErrorView::CryptoError(detail@),
            SyncError::DecryptionFailed => SyncErrorView::DecryptionFailed,
            SyncError::IdentityMismatch => SyncErrorView::IdentityMismatch,
            SyncError::InvalidSignature => SyncErrorView::InvalidSignature,
            SyncError::NetworkError(detail) => SyncErrorView::NetworkError(detail@),
            SyncError::Unknown => SyncErrorView::Unknown,
        }
    }
}

impl SyncError {
    /// The text of the error's description.
    pub open spec fn description(self) -> Seq<char> {
        match self {
            SyncError::InvalidSeedPhrase => "Invalid seed phrase"@,
            SyncError::CryptoError(detail) => "Crypto error: "@ + detail@,
            SyncError::DecryptionFailed => "Decryption failed"@,
            SyncError::IdentityMismatch => "Note ID mismatch"@,
            SyncError::InvalidSignature => "Invalid signature"@,
            SyncError::NetworkError(detail) => "Network error: "@ + detail@,
            SyncError::Unknown => "Unknown error"@,
        }
    }

    /// A description of the error for people to read.
    pub fn message(&self) -> (text: String)
        ensures
            text@ == self.description(),
    {
        match self {
            SyncError::InvalidSeedPhrase => "Invalid seed phrase".to_owned(),
            SyncError::CryptoError(detail) => "Crypto error: ".to_owned().concat(detail.as_str()),
            SyncError::DecryptionFailed => "Decryption failed".to_owned(),
            SyncError::IdentityMismatch => "Note ID mismatch".to_owned(),
            SyncError::InvalidSignature => "Invalid signature".to_owned(),
            SyncError::NetworkError(detail) => "Network error: ".to_owned().concat(
                detail.as_str(),
            ),
            SyncError::Unknown => "Unknown error".to_owned(),
        }
    }
}

/// User-facing synchronisation settings.
#[derive(Debug)]
pub struct SyncSettings {
    pub auto_sync: bool,
    pub sync_interval: i32,
    pub server_url: String,
    pub custom_servers: Option<Vec<String>>,
    pub seed_phrase: Option<String>,
}

impl Clone for SyncSettings {
    fn clone(&self) -> (res: Self)
        ensures
            res.auto_sync == self.auto_sync,
            res.sync_interval == self.sync_interval,
            res.server_url@ == self.server_url@,
            match (res.custom_servers, self.custom_servers) {
                (Some(copy), Some(servers)) => texts(copy@) == texts(servers@),
                (None, None) => true,
                _ => false,
            },
            match (res.seed_phrase, self.seed_phrase) {
                (Some(copy), Some(phrase)) => copy@ == phrase@,
                (None, None) => true,
                _ => false,
            },
    {
        SyncSettings {
            auto_sync: self.auto_sync,
            sync_interval: self.sync_interval,
            server_url: self.server_url.clone(),
            custom_servers: match &self.custom_servers {
                Some(servers) => Some(copy_texts(servers)),
                None => None,
            },
            seed_phrase: match &self.seed_phrase {
                Some(phrase) => Some(phrase.clone()),
                None => None,
            },
        }
    }
}

impl Default for SyncSettings {
    /// Synchronisation off, a five-minute interval, the public endpoint, an
    /// empty list of custom servers and no seed phrase.
    fn default() -> (res: Self)
        ensures
            !res.auto_sync,
            res.sync_interval == 5,
            res.server_url@ == "https://notes-sync.0xgingi.com"@,
            res.custom_servers matches Some(servers) && servers@.len() == 0,
            res.seed_phrase is None,
    {
        SyncSettings {
            auto_sync: false,
            sync_interval: 5,
            server_url: "https://notes-sync.0xgingi.com".to_owned(),
            custom_servers: Some(Vec::new()),
            seed_phrase: None,
        }
    }
}

} // verus!
