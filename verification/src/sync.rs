//! One synchronisation pass, as a state machine.
//!
//! The pass itself decides; whoever drives it talks to the endpoint and
//! waits. A run starts idle. `Start` encrypts every local note and asks for
//! the first exchange. Each failed exchange is answered with a wait that
//! doubles from one attempt to the next, until the attempts are used up; a
//! response is merged and ends the run. Every step hands back the progress
//! snapshots to show, in order.

use crate::crypto::{
    can_seal, seals, sealing_failure, CryptoManager, EncryptedNote, EncryptedNoteView, KeyMaterial,
};
use crate::merge::{merge_response, merged, MergeOutcome};
use crate::primitives::base64_text;
use crate::text::{append_decimal, copy_texts, decimal_chars, texts};
use crate::types::{
    envelope_views, note_views, Note, NoteView, SyncError, SyncErrorView, SyncRequest,
    SyncRequestView, SyncResponse, SyncResponseView,
};
use vstd::prelude::*;
use vstd::string::StringExecFns;

verus! {

/// How many exchanges one run attempts at most.
pub const MAX_RETRIES: u32 = 3;

/// The wait after the first failed attempt, in milliseconds.
pub const INITIAL_RETRY_DELAY: u64 = 1000;

/// How long one exchange may take, in seconds.
pub const REQUEST_TIMEOUT_SECS: u64 = 30;

/// A report on a run at one point in time.
#[derive(Debug)]
pub struct SyncProgress {
    pub total_notes: usize,
    pub processed_notes: usize,
    pub current_operation: String,
    pub errors: Vec<String>,
}

/// What a progress report is, over views.
pub ghost struct SyncProgressView {
    pub total_notes: nat,
    pub processed_notes: nat,
    pub current_operation: Seq<char>,
    pub errors: Seq<Seq<char>>,
}

impl View for SyncProgress {
    type V = SyncProgressView;

    open spec fn view(&self) -> SyncProgressView {
        SyncProgressView {
            total_notes: self.total_notes as nat,
            processed_notes: self.processed_notes as nat,
            current_operation: self.current_operation@,
            errors: texts(self.errors@),
        }
    }
}

impl Clone for SyncProgress {
    fn clone(&self) -> (res: Self)
        ensures
            res@ == self@,
    {
        SyncProgress {
            total_notes: self.total_notes,
            processed_notes: self.processed_notes,
            current_operation: self.current_operation.clone(),
            errors: copy_texts(&self.errors),
        }
    }
}

/// The views of a list of progress reports, in order.
pub open spec fn progress_views(list: Seq<SyncProgress>) -> Seq<SyncProgressView> {
    list.map_values(|p: SyncProgress| p@)
}

/// Where a run stands.
#[derive(Debug, Clone, Copy, PartialEq, Eq, Structural)]
pub enum SyncPhase {
    /// Nothing has happened yet.
    Idle,
    /// The local notes are being encrypted. A run passes through this phase
    /// within its first step.
    Encrypting,
    /// An exchange with the endpoint is under way.
    Transmitting,
    /// An exchange has failed and the next one waits.
    Retrying,
    /// The run has ended with a merged result.
    Succeeded,
    /// The run has ended with an error.
    Failed,
}

/// What happened outside, told to a run.
#[derive(Debug)]
pub enum SyncEvent {
    /// A pass over these local notes is asked for.
    Start(Vec<Note>),
    /// The endpoint has answered the request.
    ResponseReceived(SyncResponse),
    /// The exchange has failed, for this cause if one was captured.
    AttemptFailed(Option<String>),
    /// The wait that the run asked for is over.
    DelayElapsed,
}

/// What a run asks its driver to do next.
#[derive(Debug)]
pub enum SyncAction {
    /// Send this request to the endpoint, then report `ResponseReceived` or
    /// `AttemptFailed`.
    Send(SyncRequest),
    /// Wait this many milliseconds, then report `DelayElapsed`.
    Wait(u64),
    /// The run is over: hand this result on.
    Finish(Result<Vec<Note>, SyncError>),
    /// The event does not fit the run's phase: nothing changed.
    Ignore,
}

/// What one step gives: the progress reports to show, and what to do next.
#[derive(Debug)]
pub struct SyncStep {
    pub snapshots: Vec<SyncProgress>,
    pub action: SyncAction,
}

/// What an event is, over views.
pub ghost enum SyncEventView {
    Start(Seq<NoteView>),
    ResponseReceived(SyncResponseView),
    AttemptFailed(Option<Seq<char>>),
    DelayElapsed,
}

/// What an action is, over views.
pub ghost enum SyncActionView {
    Send(SyncRequestView),
    Wait(nat),
    Finish(Result<Seq<NoteView>, SyncErrorView>),
    Ignore,
}

/// What a step is, over views.
pub ghost struct SyncStepView {
    pub snapshots: Seq<SyncProgressView>,
    pub action: SyncActionView,
}

/// What a run is, over views.
pub ghost struct SyncRunView {
    pub phase: SyncPhase,
    pub progress: SyncProgressView,
    pub envelopes: Seq<EncryptedNoteView>,
    pub failed_attempts: nat,
}

impl View for SyncEvent {
    type V = SyncEventView;

    open spec fn view(&self) -> SyncEventView {
        match self {
            SyncEvent::Start(notes) => SyncEventView::Start(note_views(notes@)),
            SyncEvent::ResponseReceived(response) => SyncEventView::ResponseReceived(response@),
            SyncEvent::AttemptFailed(cause) => SyncEventView::AttemptFailed(
                match cause {
                    Some(text) => Some(text@),
                    None => None,
                },
            ),
            SyncEvent::DelayElapsed => SyncEventView::DelayElapsed,
        }
    }
}

impl View for SyncAction {
    type V = SyncActionView;

    open spec fn view(&self) -> SyncActionView {
        match self {
            SyncAction::Send(request) => SyncActionView::Send(request@),
            SyncAction::Wait(delay) => SyncActionView::Wait(*delay as nat),
            SyncAction::Finish(result) => SyncActionView::Finish(
                match result {
                    Ok(notes) => Ok(note_views(notes@)),
                    Err(error) => Err(error@),
                },
            ),
            SyncAction::Ignore => SyncActionView::Ignore,
        }
    }
}

impl View for SyncStep {
    type V = SyncStepView;

    open spec fn view(&self) -> SyncStepView {
        SyncStepView { snapshots: progress_views(self.snapshots@), action: self.action@ }
    }
}

/// The version that requests carry.
pub open spec fn client_version() -> Seq<char> {
    "0.1.0"@
}

/// The progress text of an attempt.
pub open spec fn attempt_text(attempt: nat) -> Seq<char> {
    "Syncing with server (attempt "@ + decimal_chars(attempt) + "/"@ + decimal_chars(
        MAX_RETRIES as nat,
    ) + ")"@
}

/// The progress text of a wait.
pub open spec fn retry_text(delay: nat) -> Seq<char> {
    "Sync failed, retrying in "@ + decimal_chars(delay / 1000) + " seconds"@
}

/// The entry that a failed attempt leaves among the errors.
pub open spec fn failed_attempt_text(attempt: nat) -> Seq<char> {
    "Attempt "@ + decimal_chars(attempt) + " failed"@
}

/// The entry that a note leaves among the errors when it cannot be sealed.
pub open spec fn sealing_failure_text() -> Seq<char> {
    "Failed to encrypt note: "@ + "Encryption error: aead::Error"@
}

/// The wait after the given number of failed attempts, in milliseconds: the
/// initial delay after the first, and twice the last wait after each further
/// one.
pub open spec fn retry_delay(failed_attempts: nat) -> nat
    decreases failed_attempts,
{
    if failed_attempts <= 1 {
        INITIAL_RETRY_DELAY as nat
    } else {
        2 * retry_delay((failed_attempts - 1) as nat)
    }
}

/// The error that a failed exchange ends a run with.
pub open spec fn failure_of(cause: Option<Seq<char>>) -> SyncErrorView {
    match cause {
        Some(text) => SyncErrorView::NetworkError(text),
        None => SyncErrorView::Unknown,
    }
}

/// The request that carries these envelopes.
pub open spec fn request_for(keys: KeyMaterial, envelopes: Seq<EncryptedNoteView>)
    -> SyncRequestView {
    SyncRequestView {
        public_key: base64_text(keys.public_key),
        notes: envelopes,
        client_version: client_version(),
    }
}

/// A run that has not started.
pub open spec fn idle_run() -> SyncRunView {
    SyncRunView {
        phase: SyncPhase::Idle,
        progress: SyncProgressView {
            total_notes: 0,
            processed_notes: 0,
            current_operation: Seq::empty(),
            errors: Seq::empty(),
        },
        envelopes: Seq::empty(),
        failed_attempts: 0,
    }
}

/// A run never attempts more exchanges than it may: while one is under way
/// fewer than `MAX_RETRIES` have failed, and a wait follows a failure.
pub open spec fn well_formed(run: SyncRunView) -> bool {
    &&& run.phase == SyncPhase::Transmitting ==> run.failed_attempts < MAX_RETRIES
    &&& run.phase == SyncPhase::Retrying ==> 1 <= run.failed_attempts < MAX_RETRIES
}

/// The reports of a start that has sealed `sealed` notes: the opening one,
/// the announcement of the encryption, and one for each sealed note.
pub open spec fn start_snapshots(total: nat, sealed: nat) -> Seq<SyncProgressView> {
    seq![
        SyncProgressView {
            total_notes: total,
            processed_notes: 0,
            current_operation: "Starting sync"@,
            errors: Seq::empty(),
        },
        SyncProgressView {
            total_notes: total,
            processed_notes: 0,
            current_operation: "Encrypting notes"@,
            errors: Seq::empty(),
        },
    ] + Seq::new(
        sealed,
        |i: int|
            SyncProgressView {
                total_notes: total,
                processed_notes: (i + 1) as nat,
                current_operation: "Encrypting notes"@,
                errors: Seq::empty(),
            },
    )
}

/// Whether the note at `k` can be sealed and the envelope at `k` seals it.
pub open spec fn sealed_at(
    keys: KeyMaterial,
    notes: Seq<NoteView>,
    envelopes: Seq<EncryptedNoteView>,
    k: int,
) -> bool {
    can_seal(notes[k]) && seals(keys, notes[k], envelopes[k])
}

/// What `Start` makes of an idle run. The notes are sealed in order, each
/// under a nonce of its own, up to the first that cannot be sealed. Where
/// all are sealed the run asks for the first exchange; otherwise it has
/// failed, and nothing is sent.
pub open spec fn started(
    keys: KeyMaterial,
    notes: Seq<NoteView>,
    after: SyncRunView,
    step: SyncStepView,
) -> bool {
    let sealed = after.envelopes.len();
    &&& sealed <= notes.len()
    &&& forall|k: int| 0 <= k < sealed ==> #[trigger] sealed_at(keys, notes, after.envelopes, k)
    &&& after.failed_attempts == 0
    &&& step.snapshots == start_snapshots(notes.len(), sealed).push(after.progress)
    &&& if sealed == notes.len() {
        &&& after.phase == SyncPhase::Transmitting
        &&& after.progress == SyncProgressView {
            total_notes: notes.len(),
            processed_notes: sealed,
            current_operation: attempt_text(1),
            errors: Seq::empty(),
        }
        &&& step.action == SyncActionView::Send(request_for(keys, after.envelopes))
    } else {
        &&& !can_seal(notes[sealed as int])
        &&& after.phase == SyncPhase::Failed
        &&& after.progress == SyncProgressView {
            total_notes: notes.len(),
            processed_notes: sealed,
            current_operation: "Encrypting notes"@,
            errors: seq![sealing_failure_text()],
        }
        &&& step.action == SyncActionView::Finish(Err(sealing_failure()))
    }
}

/// What a response makes of a run that waits for one: the merged notes end
/// the run, and the warnings of the merge join its errors.
pub open spec fn after_response(keys: KeyMaterial, run: SyncRunView, response: SyncResponseView)
    -> (SyncRunView, SyncStepView) {
    let result = merged(keys, run.envelopes, response);
    let progress = SyncProgressView {
        current_operation: "Sync complete"@,
        errors: run.progress.errors + result.warnings,
        ..run.progress
    };
    (
        SyncRunView { phase: SyncPhase::Succeeded, progress, ..run },
        SyncStepView { snapshots: seq![progress], action: SyncActionView::Finish(Ok(result.notes)) },
    )
}

/// What a failed exchange makes of a run that waits for a response: a wait
/// while attempts are left, the end of the run with the failure's cause
/// after the last.
pub open spec fn after_failure(run: SyncRunView, cause: Option<Seq<char>>) -> (
    SyncRunView,
    SyncStepView,
) {
    let failed = run.failed_attempts + 1;
    if failed < MAX_RETRIES {
        let progress = SyncProgressView {
            current_operation: retry_text(retry_delay(failed)),
            errors: run.progress.errors.push(failed_attempt_text(failed)),
            ..run.progress
        };
        (
            SyncRunView { phase: SyncPhase::Retrying, progress, failed_attempts: failed, ..run },
            SyncStepView {
                snapshots: seq![progress],
                action: SyncActionView::Wait(retry_delay(failed)),
            },
        )
    } else {
        (
            SyncRunView { phase: SyncPhase::Failed, failed_attempts: failed, ..run },
            SyncStepView {
                snapshots: Seq::empty(),
                action: SyncActionView::Finish(Err(failure_of(cause))),
            },
        )
    }
}

/// What the end of a wait makes of a run: the next attempt.
pub open spec fn after_delay(keys: KeyMaterial, run: SyncRunView) -> (SyncRunView, SyncStepView) {
    let progress = SyncProgressView {
        current_operation: attempt_text(run.failed_attempts + 1),
        ..run.progress
    };
    (
        SyncRunView { phase: SyncPhase::Transmitting, progress, ..run },
        SyncStepView {
            snapshots: seq![progress],
            action: SyncActionView::Send(request_for(keys, run.envelopes)),
        },
    )
}

/// What one step makes of a run: the transition that fits the run's phase
/// and the event, and no change at all where none fits.
pub open spec fn step_spec(
    keys: KeyMaterial,
    before: SyncRunView,
    event: SyncEventView,
    after: SyncRunView,
    step: SyncStepView,
) -> bool {
    match (before.phase, event) {
        (SyncPhase::Idle, SyncEventView::Start(notes)) => started(keys, notes, after, step),
        (SyncPhase::Transmitting, SyncEventView::ResponseReceived(response)) => (after, step)
            == after_response(keys, before, response),
        (SyncPhase::Transmitting, SyncEventView::AttemptFailed(cause)) => (after, step)
            == after_failure(before, cause),
        (SyncPhase::Retrying, SyncEventView::DelayElapsed) => (after, step) == after_delay(
            keys,
            before,
        ),
        _ => after == before && step == (SyncStepView {
            snapshots: Seq::empty(),
            action: SyncActionView::Ignore,
        }),
    }
}

/// The state of one synchronisation pass.
pub struct SyncRun {
    phase: SyncPhase,
    progress: SyncProgress,
    envelopes: Vec<EncryptedNote>,
    failed_attempts: u32,
}

impl View for SyncRun {
    type V = SyncRunView;

    closed spec fn view(&self) -> SyncRunView {
        SyncRunView {
            phase: self.phase,
            progress: self.progress@,
            envelopes: envelope_views(self.envelopes@),
            failed_attempts: self.failed_attempts as nat,
        }
    }
}

impl SyncRun {
    #[verifier::type_invariant]
    spec fn attempts_are_bounded(self) -> bool {
        well_formed(self@)
    }

    /// A run that has not started.
    pub fn new() -> (run: SyncRun)
        ensures
            run@ == idle_run(),
    {
        let run = SyncRun {
            phase: SyncPhase::Idle,
            progress: SyncProgress {
                total_notes: 0,
                processed_notes: 0,
                current_operation: String::new(),
                errors: Vec::new(),
            },
            envelopes: Vec::new(),
            failed_attempts: 0,
        };
        assert(run@.progress.errors =~= Seq::<Seq<char>>::empty());
        assert(run@.envelopes =~= Seq::<EncryptedNoteView>::empty());
        run
    }

    /// Where the run stands.
    pub fn phase(&self) -> (phase: SyncPhase)
        ensures
            phase == self@.phase,
            well_formed(self@),
    {
        proof {
            use_type_invariant(self);
        }
        self.phase
    }

    /// The run's latest progress report.
    pub fn progress(&self) -> (progress: &SyncProgress)
        ensures
            progress@ == self@.progress,
    {
        &self.progress
    }

    /// How many exchanges of the run have failed.
    pub fn failed_attempts(&self) -> (count: u32)
        ensures
            count == self@.failed_attempts,
    {
        self.failed_attempts
    }
}

/// The keys of one identity and the endpoint it synchronises with.
pub struct SyncManager {
    crypto: CryptoManager,
    server_url: String,
}

/// A copy of a list of envelopes.
fn copy_envelopes(list: &Vec<EncryptedNote>) -> (copy: Vec<EncryptedNote>)
    ensures
        envelope_views(copy@) == envelope_views(list@),
{
    let mut copy: Vec<EncryptedNote> = Vec::new();
    let mut i: usize = 0;
    while i < list.len()
        invariant
            i <= list.len(),
            envelope_views(copy@) == envelope_views(list@.take(i as int)),
        decreases list.len() - i,
    {
        let ghost before = copy@;
        let item = list[i].clone();
        copy.push(item);
        proof {
            assert(envelope_views(before).len() == i);
            assert forall|k: int| 0 <= k < i + 1 implies envelope_views(copy@)[k]
                == envelope_views(list@.take(i + 1))[k] by {
                if k < i {
                    assert(envelope_views(before)[k] == envelope_views(list@.take(i as int))[k]);
                }
            }
            assert(envelope_views(copy@) =~= envelope_views(list@.take(i + 1)));
        }
        i += 1;
    }
    assert(list@.take(i as int) == list@);
    copy
}

/// Writes the progress text of an attempt.
fn attempt_message(attempt: u32) -> (text: String)
    ensures
        text@ == attempt_text(attempt as nat),
{
    let mut text = "Syncing with server (attempt ".to_owned();
    append_decimal(&mut text, attempt as u64);
    text.append("/");
    append_decimal(&mut text, MAX_RETRIES as u64);
    text.append(")");
    text
}

/// Writes the progress text of a wait.
fn retry_message(delay: u64) -> (text: String)
    ensures
        text@ == retry_text(delay as nat),
{
    let mut text = "Sync failed, retrying in ".to_owned();
    append_decimal(&mut text, delay / 1000);
    text.append(" seconds");
    text
}

/// Writes the entry that a failed attempt leaves among the errors.
fn failed_attempt_message(attempt: u32) -> (text: String)
    ensures
        text@ == failed_attempt_text(attempt as nat),
{
    let mut text = "Attempt ".to_owned();
    append_decimal(&mut text, attempt as u64);
    text.append(" failed");
    text
}

/// The wait after the given number of failed attempts.
fn retry_delay_ms(failed_attempts: u32) -> (delay: u64)
    requires
        1 <= failed_attempts < MAX_RETRIES,
    ensures
        delay == retry_delay(failed_attempts as nat),
{
    let mut delay: u64 = INITIAL_RETRY_DELAY;
    let mut counted: u32 = 1;
    while counted < failed_attempts
        invariant
            1 <= counted <= failed_attempts < MAX_RETRIES,
            delay == retry_delay(counted as nat),
            delay <= 2 * INITIAL_RETRY_DELAY,
        decreases failed_attempts - counted,
    {
        reveal_with_fuel(retry_delay, 3);
        delay = delay * 2;
        counted += 1;
    }
    delay
}

impl SyncManager {
    /// The keys that the manager works with.
    pub closed spec fn keys(&self) -> KeyMaterial {
        self.crypto@
    }

    /// The address that requests go to.
    pub closed spec fn endpoint(&self) -> Seq<char> {
        self.server_url@
    }

    /// Derives the keys of a seed phrase and fixes the address of the
    /// endpoint, which is `/api/sync` under the server's address.
    pub fn new(seed_phrase: &str, server_url: &str) -> (outcome: Result<SyncManager, SyncError>)
        ensures
            match crate::crypto::derived_keys(seed_phrase@) {
                Some(keys) => outcome matches Ok(manager) && manager.keys() == keys
                    && manager.endpoint() == server_url@ + "/api/sync"@,
                None => outcome matches Err(SyncError::InvalidSeedPhrase),
            },
    {
        match CryptoManager::new(seed_phrase) {
            Ok(crypto) => Ok(
                SyncManager { crypto, server_url: server_url.to_owned().concat("/api/sync") },
            ),
            Err(_) => Err(SyncError::InvalidSeedPhrase),
        }
    }

    /// The keys that the manager works with.
    pub fn crypto(&self) -> (crypto: &CryptoManager)
        ensures
            crypto@ == self.keys(),
    {
        &self.crypto
    }

    /// The address that requests go to.
    pub fn server_url(&self) -> (url: &String)
        ensures
            url@ == self.endpoint(),
    {
        &self.server_url
    }

    /// Seals every note, in order. The first note that cannot be sealed
    /// fails the whole: nothing is sealed in part.
    pub fn encrypt_all(&self, notes: &Vec<Note>) -> (outcome: Result<Vec<EncryptedNote>, SyncError>)
        ensures
            match outcome {
                Ok(envelopes) => envelopes@.len() == notes@.len() && forall|k: int|
                    0 <= k < notes@.len() ==> #[trigger] sealed_at(
                        self.keys(),
                        note_views(notes@),
                        envelope_views(envelopes@),
                        k,
                    ),
                Err(error) => error@ == sealing_failure() && exists|k: int|
                    0 <= k < notes@.len() && !can_seal(#[trigger] note_views(notes@)[k]),
            },
            outcome is Ok <==> forall|k: int|
                0 <= k < notes@.len() ==> can_seal(#[trigger] note_views(notes@)[k]),
    {
        let mut envelopes: Vec<EncryptedNote> = Vec::new();
        let mut i: usize = 0;
        while i < notes.len()
            invariant
                i <= notes.len(),
                envelopes@.len() == i,
                forall|k: int|
                    0 <= k < i ==> #[trigger] sealed_at(
                        self.keys(),
                        note_views(notes@),
                        envelope_views(envelopes@),
                        k,
                    ),
            decreases notes.len() - i,
        {
            let ghost before = envelopes@;
            let envelope = match self.crypto.encrypt_note(&notes[i]) {
                Ok(envelope) => envelope,
                Err(error) => {
                    assert(!can_seal(note_views(notes@)[i as int]));
                    return Err(error);
                },
            };
            envelopes.push(envelope);
            assert forall|k: int| 0 <= k < i + 1 implies #[trigger] sealed_at(
                self.keys(),
                note_views(notes@),
                envelope_views(envelopes@),
                k,
            ) by {
                if k < i {
                    assert(sealed_at(self.keys(), note_views(notes@), envelope_views(before), k));
                    assert(envelope_views(envelopes@)[k] == envelope_views(before)[k]);
                }
            }
            i += 1;
        }
        assert forall|k: int| 0 <= k < notes@.len() implies can_seal(
            #[trigger] note_views(notes@)[k],
        ) by {
            assert(sealed_at(self.keys(), note_views(notes@), envelope_views(envelopes@), k));
        }
        Ok(envelopes)
    }

    /// The request that carries these envelopes.
    pub fn build_request(&self, envelopes: &Vec<EncryptedNote>) -> (request: SyncRequest)
        ensures
            request@ == request_for(self.keys(), envelope_views(envelopes@)),
    {
        SyncRequest {
            public_key: self.crypto.public_key_base64(),
            notes: copy_envelopes(envelopes),
            client_version: "0.1.0".to_owned(),
        }
    }

    /// Takes one step of a run: the transition that fits the run's phase and
    /// the event. An event that does not fit leaves the run as it is.
    pub fn step(&self, run: SyncRun, event: SyncEvent) -> (next: (SyncRun, SyncStep))
        ensures
            step_spec(self.keys(), run@, event@, next.0@, next.1@),
            well_formed(next.0@),
    {
        proof {
            use_type_invariant(&run);
        }
        match (run.phase, event) {
            (SyncPhase::Idle, SyncEvent::Start(notes)) => self.start(notes),
            (SyncPhase::Transmitting, SyncEvent::ResponseReceived(response)) => self.complete(
                run,
                response,
            ),
            (SyncPhase::Transmitting, SyncEvent::AttemptFailed(cause)) => self.fail(run, cause),
            (SyncPhase::Retrying, SyncEvent::DelayElapsed) => self.retry(run),
            (_, _) => {
                let snapshots: Vec<SyncProgress> = Vec::new();
                assert(progress_views(snapshots@) =~= Seq::<SyncProgressView>::empty());
                (run, SyncStep { snapshots, action: SyncAction::Ignore })
            },
        }
    }

    /// Seals the local notes and asks for the first exchange.
    fn start(&self, notes: Vec<Note>) -> (next: (SyncRun, SyncStep))
        ensures
            started(self.keys(), note_views(notes@), next.0@, next.1@),
            well_formed(next.0@),
    {
        let total = notes.len();
        let mut snapshots: Vec<SyncProgress> = Vec::new();
        let mut phase = SyncPhase::Encrypting;
        let mut progress = SyncProgress {
            total_notes: total,
            processed_notes: 0,
            current_operation: "Starting sync".to_owned(),
            errors: Vec::new(),
        };
        let mut envelopes: Vec<EncryptedNote> = Vec::new();
        assert(texts(progress.errors@) =~= Seq::<Seq<char>>::empty());
        snapshots.push(progress.clone());
        progress.current_operation = "Encrypting notes".to_owned();
        snapshots.push(progress.clone());
        assert(progress_views(snapshots@) =~= start_snapshots(total as nat, 0));
        let mut i: usize = 0;
        while i < notes.len() && phase == SyncPhase::Encrypting
            invariant
                i <= notes.len(),
                total == notes.len(),
                envelopes@.len() == i,
                forall|k: int|
                    0 <= k < i ==> #[trigger] sealed_at(
                        self.keys(),
                        note_views(notes@),
                        envelope_views(envelopes@),
                        k,
                    ),
                phase == SyncPhase::Encrypting || phase == SyncPhase::Failed,
                phase == SyncPhase::Encrypting ==> progress@ == (SyncProgressView {
                    total_notes: total as nat,
                    processed_notes: i as nat,
                    current_operation: "Encrypting notes"@,
                    errors: Seq::empty(),
                }) && progress_views(snapshots@) == start_snapshots(total as nat, i as nat),
                phase == SyncPhase::Failed ==> i < notes.len() && !can_seal(
                    note_views(notes@)[i as int],
                ) && progress@ == (SyncProgressView {
                    total_notes: total as nat,
                    processed_notes: i as nat,
                    current_operation: "Encrypting notes"@,
                    errors: seq![sealing_failure_text()],
                }) && progress_views(snapshots@) == start_snapshots(total as nat, i as nat).push(
                    progress@,
                ),
            decreases notes.len() - i, (if phase == SyncPhase::Encrypting { 1nat } else { 0nat }),
        {
            let ghost sealed_before = envelopes@;
            let ghost shown_before = snapshots@;
            match self.crypto.encrypt_note(&notes[i]) {
                Ok(envelope) => {
                    envelopes.push(envelope);
                    progress.processed_notes = i + 1;
                    snapshots.push(progress.clone());
                    proof {
                        assert forall|k: int| 0 <= k < i + 1 implies #[trigger] sealed_at(
                            self.keys(),
                            note_views(notes@),
                            envelope_views(envelopes@),
                            k,
                        ) by {
                            if k < i {
                                assert(sealed_at(
                                    self.keys(),
                                    note_views(notes@),
                                    envelope_views(sealed_before),
                                    k,
                                ));
                                assert(envelope_views(envelopes@)[k] == envelope_views(
                                    sealed_before,
                                )[k]);
                            }
                        }
                        assert(progress_views(snapshots@) =~= progress_views(shown_before).push(
                            progress@,
                        ));
                        assert(start_snapshots(total as nat, (i + 1) as nat) =~= start_snapshots(
                            total as nat,
                            i as nat,
                        ).push(progress@));
                    }
                    i += 1;
                },
                Err(_) => {
                    let entry = "Failed to encrypt note: ".to_owned().concat(
                        "Encryption error: aead::Error",
                    );
                    progress.errors.push(entry);
                    snapshots.push(progress.clone());
                    phase = SyncPhase::Failed;
                    proof {
                        assert(texts(progress.errors@) =~= seq![sealing_failure_text()]);
                        assert(progress_views(snapshots@) =~= progress_views(shown_before).push(
                            progress@,
                        ));
                    }
                },
            }
        }
        if phase == SyncPhase::Failed {
            let error = SyncError::CryptoError("Encryption error: aead::Error".to_owned());
            let run = SyncRun { phase, progress, envelopes, failed_attempts: 0 };
            return (run, SyncStep { snapshots, action: SyncAction::Finish(Err(error)) });
        }
        let ghost shown_before = snapshots@;
        phase = SyncPhase::Transmitting;
        progress.current_operation = attempt_message(1);
        snapshots.push(progress.clone());
        assert(progress_views(snapshots@) =~= progress_views(shown_before).push(progress@));
        let request = self.build_request(&envelopes);
        let run = SyncRun { phase, progress, envelopes, failed_attempts: 0 };
        (run, SyncStep { snapshots, action: SyncAction::Send(request) })
    }

    /// Merges the response and ends the run.
    fn complete(&self, run: SyncRun, response: SyncResponse) -> (next: (SyncRun, SyncStep))
        requires
            run@.phase == SyncPhase::Transmitting,
        ensures
            (next.0@, next.1@) == after_response(self.keys(), run@, response@),
            well_formed(next.0@),
    {
        let SyncRun { phase: _, progress, envelopes, failed_attempts } = run;
        let mut progress = progress;
        let MergeOutcome { notes, warnings } = merge_response(&self.crypto, &envelopes, &response);
        let mut warnings = warnings;
        let ghost errors_before = progress.errors@;
        let ghost added = warnings@;
        progress.errors.append(&mut warnings);
        progress.current_operation = "Sync complete".to_owned();
        assert(texts(progress.errors@) =~= texts(errors_before) + texts(added));
        let mut snapshots: Vec<SyncProgress> = Vec::new();
        snapshots.push(progress.clone());
        assert(progress_views(snapshots@) =~= seq![progress@]);
        let next = SyncRun { phase: SyncPhase::Succeeded, progress, envelopes, failed_attempts };
        (next, SyncStep { snapshots, action: SyncAction::Finish(Ok(notes)) })
    }

    /// Counts a failed exchange: a wait if attempts are left, the end of the
    /// run if not.
    fn fail(&self, run: SyncRun, cause: Option<String>) -> (next: (SyncRun, SyncStep))
        requires
            run@.phase == SyncPhase::Transmitting,
            well_formed(run@),
        ensures
            (next.0@, next.1@) == after_failure(
                run@,
                match cause {
                    Some(text) => Some(text@),
                    None => None,
                },
            ),
            well_formed(next.0@),
    {
        let SyncRun { phase: _, progress, envelopes, failed_attempts } = run;
        let mut progress = progress;
        let failed: u32 = failed_attempts + 1;
        let mut snapshots: Vec<SyncProgress> = Vec::new();
        if failed < MAX_RETRIES {
            let delay = retry_delay_ms(failed);
            let ghost errors_before = progress.errors@;
            let entry = failed_attempt_message(failed);
            progress.current_operation = retry_message(delay);
            progress.errors.push(entry);
            assert(texts(progress.errors@) =~= texts(errors_before).push(entry@));
            snapshots.push(progress.clone());
            assert(progress_views(snapshots@) =~= seq![progress@]);
            let next = SyncRun {
                phase: SyncPhase::Retrying,
                progress,
                envelopes,
                failed_attempts: failed,
            };
            (next, SyncStep { snapshots, action: SyncAction::Wait(delay) })
        } else {
            let error = match cause {
                Some(text) => SyncError::NetworkError(text),
                None => SyncError::Unknown,
            };
            assert(progress_views(snapshots@) =~= Seq::<SyncProgressView>::empty());
            let next = SyncRun {
                phase: SyncPhase::Failed,
                progress,
                envelopes,
                failed_attempts: failed,
            };
            (next, SyncStep { snapshots, action: SyncAction::Finish(Err(error)) })
        }
    }

    /// Asks for the next exchange.
    fn retry(&self, run: SyncRun) -> (next: (SyncRun, SyncStep))
        requires
            run@.phase == SyncPhase::Retrying,
            well_formed(run@),
        ensures
            (next.0@, next.1@) == after_delay(self.keys(), run@),
            well_formed(next.0@),
    {
        let SyncRun { phase: _, progress, envelopes, failed_attempts } = run;
        let mut progress = progress;
        progress.current_operation = attempt_message(failed_attempts + 1);
        let mut snapshots: Vec<SyncProgress> = Vec::new();
        snapshots.push(progress.clone());
        assert(progress_views(snapshots@) =~= seq![progress@]);
        let request = self.build_request(&envelopes);
        let next = SyncRun { phase: SyncPhase::Transmitting, progress, envelopes, failed_attempts };
        (next, SyncStep { snapshots, action: SyncAction::Send(request) })
    }
}

/// The first wait is the initial delay, and each further wait is twice the
/// one before it, so the waits of a run grow strictly.
pub proof fn lemma_retry_delays_double(failed_attempts: nat)
    requires
        failed_attempts >= 1,
    ensures
        retry_delay(1) == INITIAL_RETRY_DELAY,
        retry_delay(failed_attempts + 1) == 2 * retry_delay(failed_attempts),
        retry_delay(failed_attempts) < retry_delay(failed_attempts + 1),
        retry_delay(failed_attempts) >= INITIAL_RETRY_DELAY,
    decreases failed_attempts,
{
    reveal_with_fuel(retry_delay, 2);
    if failed_attempts > 1 {
        lemma_retry_delays_double((failed_attempts - 1) as nat);
    }
}

/// An endpoint that fails every exchange ends the run after exactly
/// `MAX_RETRIES` attempts. From the first request on, the run answers the
/// first failure with a wait of one second and the second with a wait of
/// two, each followed by one report and one request for the next attempt;
/// the third failure ends it with that failure's cause, and no request
/// follows.
pub proof fn lemma_persistent_failure_ends_the_run(
    keys: KeyMaterial,
    run: SyncRunView,
    first: Option<Seq<char>>,
    second: Option<Seq<char>>,
    third: Option<Seq<char>>,
)
    requires
        run.phase == SyncPhase::Transmitting,
        run.failed_attempts == 0,
    ensures
        ({
            let (waiting_once, first_step) = after_failure(run, first);
            let (second_try, second_request) = after_delay(keys, waiting_once);
            let (waiting_twice, second_step) = after_failure(second_try, second);
            let (third_try, third_request) = after_delay(keys, waiting_twice);
            let (ended, last_step) = after_failure(third_try, third);
            &&& first_step.action == SyncActionView::Wait(1000)
            &&& second_request.action == SyncActionView::Send(request_for(keys, run.envelopes))
            &&& second_request.snapshots.len() == 1
            &&& second_request.snapshots[0].current_operation == attempt_text(2)
            &&& second_step.action == SyncActionView::Wait(2000)
            &&& third_request.action == SyncActionView::Send(request_for(keys, run.envelopes))
            &&& third_request.snapshots.len() == 1
            &&& third_request.snapshots[0].current_operation == attempt_text(3)
            &&& last_step.action == SyncActionView::Finish(Err(failure_of(third)))
            &&& last_step.snapshots.len() == 0
            &&& ended.phase == SyncPhase::Failed
            &&& ended.failed_attempts == MAX_RETRIES
            &&& ended.progress.errors == run.progress.errors.push(failed_attempt_text(1)).push(
                failed_attempt_text(2),
            )
        }),
{
    reveal_with_fuel(retry_delay, 3);
}

/// An endpoint that fails twice and then answers lets the run succeed: after
/// waits of one and two seconds the response to the third request is merged,
/// its notes are the result, and the two failed attempts stay on record in
/// front of the warnings of the merge.
pub proof fn lemma_third_attempt_can_succeed(
    keys: KeyMaterial,
    run: SyncRunView,
    first: Option<Seq<char>>,
    second: Option<Seq<char>>,
    response: SyncResponseView,
)
    requires
        run.phase == SyncPhase::Transmitting,
        run.failed_attempts == 0,
    ensures
        ({
            let (waiting_once, first_step) = after_failure(run, first);
            let (second_try, second_request) = after_delay(keys, waiting_once);
            let (waiting_twice, second_step) = after_failure(second_try, second);
            let (third_try, third_request) = after_delay(keys, waiting_twice);
            let (ended, last_step) = after_response(keys, third_try, response);
            &&& first_step.action == SyncActionView::Wait(1000)
            &&& second_step.action == SyncActionView::Wait(2000)
            &&& third_request.action == SyncActionView::Send(request_for(keys, run.envelopes))
            &&& last_step.action == SyncActionView::Finish(
                Ok(merged(keys, run.envelopes, response).notes),
            )
            &&& ended.phase == SyncPhase::Succeeded
            &&& ended.progress.current_operation == "Sync complete"@
            &&& ended.progress.errors == run.progress.errors.push(failed_attempt_text(1)).push(
                failed_attempt_text(2),
            ) + merged(keys, run.envelopes, response).warnings
        }),
{
    reveal_with_fuel(retry_delay, 3);
}

/// Every phase that a step leaves a run in respects the bound on attempts,
/// whatever the event, so no run ever asks for more than `MAX_RETRIES`
/// exchanges.
pub proof fn lemma_steps_keep_attempts_bounded(
    keys: KeyMaterial,
    before: SyncRunView,
    event: SyncEventView,
    after: SyncRunView,
    step: SyncStepView,
)
    requires
        well_formed(before),
        step_spec(keys, before, event, after, step),
    ensures
        well_formed(after),
        step.action is Send ==> after.phase == SyncPhase::Transmitting && after.failed_attempts
            < MAX_RETRIES,
        step.action is Wait ==> after.phase == SyncPhase::Retrying && step.action
            == SyncActionView::Wait(retry_delay(after.failed_attempts)),
        step.action is Finish ==> after.phase == SyncPhase::Succeeded || after.phase
            == SyncPhase::Failed,
{
}

} // verus!
