use notes_sync::types::{Note, SyncError, SyncSettings};

#[test]
fn default_settings() {
    let settings = SyncSettings::default();
    assert!(!settings.auto_sync);
    assert_eq!(settings.sync_interval, 5);
    assert_eq!(settings.server_url, "https://notes-sync.0xgingi.com");
    assert_eq!(settings.custom_servers, Some(Vec::new()));
    assert_eq!(settings.seed_phrase, None);
}

#[test]
fn error_messages() {
    assert_eq!(SyncError::InvalidSeedPhrase.message(), "Invalid seed phrase");
    assert_eq!(
        SyncError::CryptoError("Encryption error: aead::Error".to_string()).message(),
        "Crypto error: Encryption error: aead::Error"
    );
    assert_eq!(SyncError::DecryptionFailed.message(), "Decryption failed");
    assert_eq!(SyncError::IdentityMismatch.message(), "Note ID mismatch");
    assert_eq!(SyncError::InvalidSignature.message(), "Invalid signature");
    assert_eq!(SyncError::NetworkError("timed out".to_string()).message(), "Network error: timed out");
    assert_eq!(SyncError::NetworkError(String::new()).message(), "Network error: ");
    assert_eq!(SyncError::Unknown.message(), "Unknown error");
}

#[test]
fn cloned_note_is_equal() {
    let note = Note {
        id: Some(3),
        title: "t".to_string(),
        content: "c".to_string(),
        created_at: 1,
        updated_at: 2,
    };
    assert_eq!(note.clone(), note);
}
