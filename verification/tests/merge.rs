use base64::engine::general_purpose::STANDARD;
use base64::Engine;
use notes_sync::crypto::{CryptoManager, EncryptedNote};
use notes_sync::merge::merge_response;
use notes_sync::types::{Note, SyncResponse};

const MERGE_PHRASE: &str =
    "abandon abandon abandon abandon abandon abandon abandon abandon abandon abandon abandon about";

fn merge_manager() -> CryptoManager {
    CryptoManager::new(MERGE_PHRASE).unwrap()
}

fn merge_note(id: i64, title: &str) -> Note {
    Note {
        id: Some(id),
        title: title.to_string(),
        content: format!("content of {}", title),
        created_at: 100,
        updated_at: 200 + id,
    }
}

fn merge_seal(manager: &CryptoManager, id: i64, title: &str) -> EncryptedNote {
    manager.encrypt_note(&merge_note(id, title)).unwrap()
}

fn merge_id(id: i64) -> String {
    STANDARD.encode(id.to_be_bytes())
}

fn merge_break(envelope: &EncryptedNote) -> EncryptedNote {
    let mut raw = STANDARD.decode(&envelope.data).unwrap();
    raw[0] ^= 1;
    let mut broken = envelope.clone();
    broken.data = STANDARD.encode(raw);
    broken
}

#[test]
fn server_version_wins_over_the_unchanged_local_one() {
    let manager = merge_manager();
    let local = vec![merge_seal(&manager, 5, "local five")];
    let response = SyncResponse {
        notes: vec![merge_seal(&manager, 5, "server five")],
        updated: vec![],
        conflicts: vec![],
    };
    let outcome = merge_response(&manager, &local, &response);
    assert_eq!(outcome.notes, vec![merge_note(5, "server five")]);
    assert_eq!(outcome.notes.iter().filter(|n| n.id == Some(5)).count(), 1);
    assert!(outcome.warnings.is_empty());
}

#[test]
fn conflicted_identifiers_leave_the_result_from_both_sides() {
    let manager = merge_manager();
    let local = vec![
        merge_seal(&manager, 1, "local one"),
        merge_seal(&manager, 2, "local two"),
        merge_seal(&manager, 3, "local three"),
    ];
    let response = SyncResponse {
        notes: vec![
            merge_seal(&manager, 1, "server one"),
            merge_seal(&manager, 2, "server two"),
            merge_seal(&manager, 4, "server four"),
        ],
        updated: vec![merge_id(1), merge_id(3)],
        conflicts: vec![merge_id(1), merge_id(3), merge_id(4)],
    };
    let outcome = merge_response(&manager, &local, &response);
    assert_eq!(outcome.notes, vec![merge_note(2, "server two")]);
    for conflicted in [1i64, 3, 4] {
        assert!(outcome.notes.iter().all(|n| n.id != Some(conflicted)));
    }
    assert!(outcome.warnings.is_empty());
}

#[test]
fn conflict_only_on_the_list_still_excludes_the_local_note() {
    let manager = merge_manager();
    let local = vec![merge_seal(&manager, 8, "local eight"), merge_seal(&manager, 9, "local nine")];
    let response = SyncResponse { notes: vec![], updated: vec![], conflicts: vec![merge_id(8)] };
    let outcome = merge_response(&manager, &local, &response);
    assert_eq!(outcome.notes, vec![merge_note(9, "local nine")]);
}

#[test]
fn one_envelope_that_fails_costs_only_itself() {
    let manager = merge_manager();
    let third = merge_seal(&manager, 3, "three");
    let response = SyncResponse {
        notes: vec![
            merge_seal(&manager, 1, "one"),
            merge_seal(&manager, 2, "two"),
            merge_break(&third),
            merge_seal(&manager, 4, "four"),
            merge_seal(&manager, 5, "five"),
        ],
        updated: vec![],
        conflicts: vec![],
    };
    let outcome = merge_response(&manager, &vec![], &response);
    assert_eq!(
        outcome.notes,
        vec![merge_note(1, "one"), merge_note(2, "two"), merge_note(4, "four"), merge_note(5, "five")]
    );
    assert_eq!(
        outcome.warnings,
        vec![format!("Failed to decrypt note {}: Decryption failed", merge_id(3))]
    );
}

#[test]
fn envelope_under_a_wrong_identifier_leaves_a_warning() {
    let manager = merge_manager();
    let mut mislabelled = merge_seal(&manager, 1, "one");
    mislabelled.id = merge_id(2);
    let response = SyncResponse { notes: vec![mislabelled], updated: vec![], conflicts: vec![] };
    let outcome = merge_response(&manager, &vec![], &response);
    assert!(outcome.notes.is_empty());
    assert_eq!(
        outcome.warnings,
        vec![format!("Failed to decrypt note {}: Note ID mismatch", merge_id(2))]
    );
}

#[test]
fn local_notes_stay_unless_updated_or_conflicted() {
    let manager = merge_manager();
    let local = vec![
        merge_seal(&manager, 1, "local one"),
        merge_seal(&manager, 2, "local two"),
        merge_seal(&manager, 3, "local three"),
        merge_seal(&manager, 4, "local four"),
    ];
    let response = SyncResponse {
        notes: vec![merge_seal(&manager, 10, "server ten")],
        updated: vec![merge_id(2)],
        conflicts: vec![merge_id(3)],
    };
    let outcome = merge_response(&manager, &local, &response);
    assert_eq!(
        outcome.notes,
        vec![merge_note(10, "server ten"), merge_note(1, "local one"), merge_note(4, "local four")]
    );
    assert!(outcome.warnings.is_empty());
}

#[test]
fn updated_local_note_is_replaced_by_the_server_version() {
    let manager = merge_manager();
    let local = vec![merge_seal(&manager, 2, "local two")];
    let response = SyncResponse {
        notes: vec![merge_seal(&manager, 2, "server two")],
        updated: vec![merge_id(2)],
        conflicts: vec![],
    };
    let outcome = merge_response(&manager, &local, &response);
    assert_eq!(outcome.notes, vec![merge_note(2, "server two")]);
}

#[test]
fn local_notes_are_deduplicated_by_identifier() {
    let manager = merge_manager();
    let local = vec![merge_seal(&manager, 6, "first six"), merge_seal(&manager, 6, "second six")];
    let response = SyncResponse { notes: vec![], updated: vec![], conflicts: vec![] };
    let outcome = merge_response(&manager, &local, &response);
    assert_eq!(outcome.notes, vec![merge_note(6, "first six")]);
}

#[test]
fn server_notes_are_not_deduplicated_among_themselves() {
    let manager = merge_manager();
    let response = SyncResponse {
        notes: vec![merge_seal(&manager, 6, "first six"), merge_seal(&manager, 6, "second six")],
        updated: vec![],
        conflicts: vec![],
    };
    let outcome = merge_response(&manager, &vec![], &response);
    assert_eq!(outcome.notes, vec![merge_note(6, "first six"), merge_note(6, "second six")]);
}

#[test]
fn local_envelope_that_fails_leaves_its_own_warning() {
    let manager = merge_manager();
    let local = vec![merge_break(&merge_seal(&manager, 1, "one")), merge_seal(&manager, 2, "two")];
    let response = SyncResponse { notes: vec![], updated: vec![], conflicts: vec![] };
    let outcome = merge_response(&manager, &local, &response);
    assert_eq!(outcome.notes, vec![merge_note(2, "two")]);
    assert_eq!(
        outcome.warnings,
        vec![format!("Failed to decrypt local note {}: Decryption failed", merge_id(1))]
    );
}

#[test]
fn local_note_without_identifier_is_dropped_with_a_warning() {
    let manager = merge_manager();
    let unsaved = Note {
        id: None,
        title: "draft".to_string(),
        content: String::new(),
        created_at: 1,
        updated_at: 2,
    };
    let local = vec![manager.encrypt_note(&unsaved).unwrap()];
    let response = SyncResponse { notes: vec![], updated: vec![], conflicts: vec![] };
    let outcome = merge_response(&manager, &local, &response);
    assert!(outcome.notes.is_empty());
    assert_eq!(
        outcome.warnings,
        vec![format!("Failed to decrypt local note {}: Note ID mismatch", merge_id(0))]
    );
}

#[test]
fn envelope_that_fails_and_is_conflicted_still_warns() {
    let manager = merge_manager();
    let response = SyncResponse {
        notes: vec![merge_break(&merge_seal(&manager, 1, "one"))],
        updated: vec![],
        conflicts: vec![merge_id(1)],
    };
    let outcome = merge_response(&manager, &vec![], &response);
    assert!(outcome.notes.is_empty());
    assert_eq!(outcome.warnings.len(), 1);
}

#[test]
fn empty_exchange_gives_an_empty_result() {
    let manager = merge_manager();
    let response = SyncResponse { notes: vec![], updated: vec![], conflicts: vec![] };
    let outcome = merge_response(&manager, &vec![], &response);
    assert!(outcome.notes.is_empty());
    assert!(outcome.warnings.is_empty());
}
