use base64::engine::general_purpose::STANDARD;
use base64::Engine;
use notes_sync::sync::{
    SyncAction, SyncEvent, SyncManager, SyncPhase, SyncProgress, SyncRun, SyncStep,
    INITIAL_RETRY_DELAY, MAX_RETRIES, REQUEST_TIMEOUT_SECS,
};
use notes_sync::types::{Note, SyncError, SyncRequest, SyncResponse};

const SYNC_PHRASE: &str =
    "abandon abandon abandon abandon abandon abandon abandon abandon abandon abandon abandon about";

fn sync_manager() -> SyncManager {
    SyncManager::new(SYNC_PHRASE, "https://test-server.com").unwrap()
}

fn sync_note(id: i64) -> Note {
    Note {
        id: Some(id),
        title: "Test Note".to_string(),
        content: "Test Content".to_string(),
        created_at: 0,
        updated_at: 0,
    }
}

fn sync_operations(step: &SyncStep) -> Vec<String> {
    step.snapshots.iter().map(|p| p.current_operation.clone()).collect()
}

fn sync_request(step: SyncStep) -> SyncRequest {
    match step.action {
        SyncAction::Send(request) => request,
        other => panic!("no request: {:?}", other),
    }
}

fn sync_echo(request: &SyncRequest) -> SyncResponse {
    SyncResponse { notes: request.notes.clone(), updated: vec![], conflicts: vec![] }
}

fn sync_check_progress(progress: &SyncProgress, total: usize, processed: usize, operation: &str, errors: &[&str]) {
    assert_eq!(progress.total_notes, total);
    assert_eq!(progress.processed_notes, processed);
    assert_eq!(progress.current_operation, operation);
    assert_eq!(progress.errors, errors.iter().map(|e| e.to_string()).collect::<Vec<String>>());
}

#[test]
fn constants_are_three_attempts_one_second_thirty_seconds() {
    assert_eq!(MAX_RETRIES, 3);
    assert_eq!(INITIAL_RETRY_DELAY, 1000);
    assert_eq!(REQUEST_TIMEOUT_SECS, 30);
}

#[test]
fn manager_keeps_the_endpoint_under_api_sync() {
    let manager = sync_manager();
    assert_eq!(manager.server_url(), "https://test-server.com/api/sync");
    let crypto = notes_sync::crypto::CryptoManager::new(SYNC_PHRASE).unwrap();
    assert_eq!(manager.crypto().public_key_base64(), crypto.public_key_base64());
}

#[test]
fn manager_refuses_an_invalid_seed_phrase() {
    match SyncManager::new("test seed phrase", "https://test-server.com") {
        Err(error) => assert_eq!(error, SyncError::InvalidSeedPhrase),
        Ok(_) => panic!("accepted"),
    }
}

#[test]
fn new_run_is_idle() {
    let run = SyncRun::new();
    assert_eq!(run.phase(), SyncPhase::Idle);
    assert_eq!(run.failed_attempts(), 0);
    sync_check_progress(run.progress(), 0, 0, "", &[]);
}

#[test]
fn start_reports_each_step_and_asks_for_the_first_exchange() {
    let manager = sync_manager();
    let notes = vec![sync_note(1), sync_note(2)];
    let (run, step) = manager.step(SyncRun::new(), SyncEvent::Start(notes.clone()));
    assert_eq!(run.phase(), SyncPhase::Transmitting);
    assert_eq!(step.snapshots.len(), 5);
    sync_check_progress(&step.snapshots[0], 2, 0, "Starting sync", &[]);
    sync_check_progress(&step.snapshots[1], 2, 0, "Encrypting notes", &[]);
    sync_check_progress(&step.snapshots[2], 2, 1, "Encrypting notes", &[]);
    sync_check_progress(&step.snapshots[3], 2, 2, "Encrypting notes", &[]);
    sync_check_progress(&step.snapshots[4], 2, 2, "Syncing with server (attempt 1/3)", &[]);
    sync_check_progress(run.progress(), 2, 2, "Syncing with server (attempt 1/3)", &[]);
    let request = sync_request(step);
    assert_eq!(request.public_key, manager.crypto().public_key_base64());
    assert_eq!(request.client_version, "0.1.0");
    assert_eq!(request.notes.len(), 2);
    for (envelope, note) in request.notes.iter().zip(notes.iter()) {
        assert_eq!(envelope.id, STANDARD.encode(note.id.unwrap().to_be_bytes()));
        assert_eq!(manager.crypto().decrypt_note(envelope).as_ref(), Ok(note));
    }
}

#[test]
fn start_without_notes_still_asks_for_an_exchange() {
    let manager = sync_manager();
    let (run, step) = manager.step(SyncRun::new(), SyncEvent::Start(vec![]));
    assert_eq!(run.phase(), SyncPhase::Transmitting);
    assert_eq!(
        sync_operations(&step),
        vec!["Starting sync", "Encrypting notes", "Syncing with server (attempt 1/3)"]
    );
    assert!(sync_request(step).notes.is_empty());
}

#[test]
fn two_failures_then_success() {
    let manager = sync_manager();
    let notes = vec![sync_note(1)];
    let mut delays = Vec::new();
    let mut attempts = Vec::new();
    let (run, step) = manager.step(SyncRun::new(), SyncEvent::Start(notes.clone()));
    attempts.push(step.snapshots.last().unwrap().current_operation.clone());
    let first_request = sync_request(step);

    let (run, step) = manager.step(run, SyncEvent::AttemptFailed(Some("timeout".to_string())));
    assert_eq!(run.phase(), SyncPhase::Retrying);
    assert_eq!(run.failed_attempts(), 1);
    assert_eq!(step.snapshots.len(), 1);
    sync_check_progress(&step.snapshots[0], 1, 1, "Sync failed, retrying in 1 seconds", &["Attempt 1 failed"]);
    match step.action {
        SyncAction::Wait(delay) => delays.push(delay),
        other => panic!("no wait: {:?}", other),
    }

    let (run, step) = manager.step(run, SyncEvent::DelayElapsed);
    assert_eq!(run.phase(), SyncPhase::Transmitting);
    assert_eq!(step.snapshots.len(), 1);
    attempts.push(step.snapshots[0].current_operation.clone());
    let second_request = sync_request(step);
    assert_eq!(second_request.notes, first_request.notes);

    let (run, step) = manager.step(run, SyncEvent::AttemptFailed(Some("refused".to_string())));
    assert_eq!(run.phase(), SyncPhase::Retrying);
    assert_eq!(run.failed_attempts(), 2);
    sync_check_progress(
        &step.snapshots[0],
        1,
        1,
        "Sync failed, retrying in 2 seconds",
        &["Attempt 1 failed", "Attempt 2 failed"],
    );
    match step.action {
        SyncAction::Wait(delay) => delays.push(delay),
        other => panic!("no wait: {:?}", other),
    }

    let (run, step) = manager.step(run, SyncEvent::DelayElapsed);
    attempts.push(step.snapshots[0].current_operation.clone());
    let third_request = sync_request(step);
    assert_eq!(third_request.notes, first_request.notes);

    let (run, step) = manager.step(run, SyncEvent::ResponseReceived(sync_echo(&third_request)));
    assert_eq!(run.phase(), SyncPhase::Succeeded);
    assert_eq!(step.snapshots.len(), 1);
    sync_check_progress(&step.snapshots[0], 1, 1, "Sync complete", &["Attempt 1 failed", "Attempt 2 failed"]);
    match step.action {
        SyncAction::Finish(Ok(merged)) => assert_eq!(merged, notes),
        other => panic!("no result: {:?}", other),
    }
    assert_eq!(delays, vec![1000, 2000]);
    assert!(delays[0] < delays[1]);
    assert_eq!(delays[1], 2 * delays[0]);
    assert_eq!(
        attempts,
        vec![
            "Syncing with server (attempt 1/3)",
            "Syncing with server (attempt 2/3)",
            "Syncing with server (attempt 3/3)"
        ]
    );
}

#[test]
fn endpoint_that_always_fails_ends_the_run_after_three_attempts() {
    let manager = sync_manager();
    let mut run = SyncRun::new();
    let mut event = SyncEvent::Start(vec![sync_note(1)]);
    let mut sent = 0;
    let mut waits = Vec::new();
    let result;
    loop {
        let (next, step) = manager.step(run, event);
        run = next;
        match step.action {
            SyncAction::Send(_) => {
                sent += 1;
                event = SyncEvent::AttemptFailed(Some(format!("failure {}", sent)));
            }
            SyncAction::Wait(delay) => {
                waits.push(delay);
                event = SyncEvent::DelayElapsed;
            }
            SyncAction::Finish(outcome) => {
                assert!(step.snapshots.is_empty());
                result = outcome;
                break;
            }
            SyncAction::Ignore => panic!("ignored"),
        }
    }
    assert_eq!(sent, 3);
    assert_eq!(waits, vec![1000, 2000]);
    assert_eq!(result, Err(SyncError::NetworkError("failure 3".to_string())));
    assert_eq!(run.phase(), SyncPhase::Failed);
    assert_eq!(run.failed_attempts(), 3);
    assert_eq!(run.progress().errors, vec!["Attempt 1 failed", "Attempt 2 failed"]);
}

#[test]
fn last_failure_without_a_cause_is_unknown() {
    let manager = sync_manager();
    let (run, _) = manager.step(SyncRun::new(), SyncEvent::Start(vec![]));
    let (run, _) = manager.step(run, SyncEvent::AttemptFailed(Some("one".to_string())));
    let (run, _) = manager.step(run, SyncEvent::DelayElapsed);
    let (run, _) = manager.step(run, SyncEvent::AttemptFailed(Some("two".to_string())));
    let (run, _) = manager.step(run, SyncEvent::DelayElapsed);
    let (run, step) = manager.step(run, SyncEvent::AttemptFailed(None));
    assert_eq!(run.phase(), SyncPhase::Failed);
    match step.action {
        SyncAction::Finish(outcome) => assert_eq!(outcome, Err(SyncError::Unknown)),
        other => panic!("no result: {:?}", other),
    }
}

#[test]
fn success_at_the_first_attempt() {
    let manager = sync_manager();
    let notes = vec![sync_note(1), sync_note(2), sync_note(3)];
    let (run, step) = manager.step(SyncRun::new(), SyncEvent::Start(notes.clone()));
    let request = sync_request(step);
    let (run, step) = manager.step(run, SyncEvent::ResponseReceived(sync_echo(&request)));
    assert_eq!(run.phase(), SyncPhase::Succeeded);
    assert_eq!(sync_operations(&step), vec!["Sync complete"]);
    sync_check_progress(run.progress(), 3, 3, "Sync complete", &[]);
    match step.action {
        SyncAction::Finish(Ok(merged)) => assert_eq!(merged, notes),
        other => panic!("no result: {:?}", other),
    }
}

#[test]
fn warnings_of_the_merge_join_the_errors() {
    let manager = sync_manager();
    let (run, step) = manager.step(SyncRun::new(), SyncEvent::Start(vec![sync_note(1)]));
    let request = sync_request(step);
    let mut broken = request.notes[0].clone();
    broken.data = STANDARD.encode([0u8; 40]);
    broken.id = STANDARD.encode(7i64.to_be_bytes());
    let response = SyncResponse { notes: vec![broken], updated: vec![], conflicts: vec![] };
    let (run, step) = manager.step(run, SyncEvent::ResponseReceived(response));
    assert_eq!(run.phase(), SyncPhase::Succeeded);
    let warning = format!(
        "Failed to decrypt note {}: Decryption failed",
        STANDARD.encode(7i64.to_be_bytes())
    );
    assert_eq!(step.snapshots[0].errors, vec![warning]);
    match step.action {
        SyncAction::Finish(Ok(merged)) => assert_eq!(merged, vec![sync_note(1)]),
        other => panic!("no result: {:?}", other),
    }
}

#[test]
fn events_that_do_not_fit_change_nothing() {
    let manager = sync_manager();
    let (run, step) = manager.step(SyncRun::new(), SyncEvent::DelayElapsed);
    assert_eq!(run.phase(), SyncPhase::Idle);
    assert!(step.snapshots.is_empty());
    assert!(matches!(step.action, SyncAction::Ignore));
    let (run, step) = manager.step(run, SyncEvent::AttemptFailed(None));
    assert_eq!(run.phase(), SyncPhase::Idle);
    assert!(matches!(step.action, SyncAction::Ignore));
    let (run, _) = manager.step(run, SyncEvent::Start(vec![sync_note(1)]));
    let (run, step) = manager.step(run, SyncEvent::Start(vec![sync_note(2)]));
    assert_eq!(run.phase(), SyncPhase::Transmitting);
    assert!(matches!(step.action, SyncAction::Ignore));
    sync_check_progress(run.progress(), 1, 1, "Syncing with server (attempt 1/3)", &[]);
    let (run, step) = manager.step(run, SyncEvent::DelayElapsed);
    assert_eq!(run.phase(), SyncPhase::Transmitting);
    assert!(matches!(step.action, SyncAction::Ignore));
    let (run, _) = manager.step(run, SyncEvent::AttemptFailed(None));
    let response = SyncResponse { notes: vec![], updated: vec![], conflicts: vec![] };
    let (run, step) = manager.step(run, SyncEvent::ResponseReceived(response));
    assert_eq!(run.phase(), SyncPhase::Retrying);
    assert_eq!(run.failed_attempts(), 1);
    assert!(matches!(step.action, SyncAction::Ignore));
}

#[test]
fn finished_run_ignores_every_event() {
    let manager = sync_manager();
    let (run, step) = manager.step(SyncRun::new(), SyncEvent::Start(vec![]));
    let request = sync_request(step);
    let (run, _) = manager.step(run, SyncEvent::ResponseReceived(sync_echo(&request)));
    let (run, step) = manager.step(run, SyncEvent::AttemptFailed(None));
    assert_eq!(run.phase(), SyncPhase::Succeeded);
    assert!(matches!(step.action, SyncAction::Ignore));
    let (run, step) = manager.step(run, SyncEvent::Start(vec![]));
    assert_eq!(run.phase(), SyncPhase::Succeeded);
    assert!(matches!(step.action, SyncAction::Ignore));
}

#[test]
fn encrypt_all_seals_every_note_in_order() {
    let manager = sync_manager();
    let notes = vec![sync_note(3), sync_note(1), sync_note(2)];
    let envelopes = manager.encrypt_all(&notes).unwrap();
    assert_eq!(envelopes.len(), 3);
    for (envelope, note) in envelopes.iter().zip(notes.iter()) {
        assert_eq!(manager.crypto().decrypt_note(envelope).as_ref(), Ok(note));
    }
    assert!(manager.encrypt_all(&vec![]).unwrap().is_empty());
}

#[test]
fn single_exchange_without_progress() {
    let manager = sync_manager();
    let notes = vec![sync_note(1), sync_note(2)];
    let envelopes = manager.encrypt_all(&notes).unwrap();
    let request = manager.build_request(&envelopes);
    assert_eq!(request.notes, envelopes);
    assert_eq!(request.client_version, "0.1.0");
    let response = SyncResponse {
        notes: vec![envelopes[0].clone()],
        updated: vec![],
        conflicts: vec![envelopes[1].id.clone()],
    };
    let outcome = notes_sync::merge::merge_response(manager.crypto(), &envelopes, &response);
    assert_eq!(outcome.notes, vec![sync_note(1)]);
    assert!(outcome.warnings.is_empty());
}
