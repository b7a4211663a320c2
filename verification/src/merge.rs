//! What becomes of the notes once the endpoint has answered.
//!
//! Every envelope of the response is opened. One that opens, and whose
//! identifier is not listed as conflicted, gives a note of the result. Then
//! each local envelope that the endpoint lists neither as updated nor as
//! conflicted is opened, and its note joins the result unless a note with the
//! same identifier is there already: what came from the endpoint stays. An
//! envelope that does not open leaves a warning and nothing else.

use crate::crypto::{opened_note, CryptoManager, EncryptedNote, EncryptedNoteView, KeyMaterial};
use crate::text::{contains_text, texts};
use crate::types::{envelope_views, note_views, Note, NoteView, SyncError, SyncResponse,
    SyncResponseView};
use vstd::prelude::*;
use vstd::string::StringExecFns;

verus! {

/// The notes that a synchronisation keeps, and what went wrong on the way
/// without stopping it.
#[derive(Debug)]
pub struct MergeOutcome {
    pub notes: Vec<Note>,
    pub warnings: Vec<String>,
}

/// What a merge gives, over views.
pub ghost struct MergeView {
    pub notes: Seq<NoteView>,
    pub warnings: Seq<Seq<char>>,
}

impl View for MergeOutcome {
    type V = MergeView;

    open spec fn view(&self) -> MergeView {
        MergeView { notes: note_views(self.notes@), warnings: texts(self.warnings@) }
    }
}

/// The warning for an envelope of the response that did not open.
pub open spec fn server_warning(id: Seq<char>, error: SyncError) -> Seq<char> {
    "Failed to decrypt note "@ + id + ": "@ + error.description()
}

/// The warning for a local envelope that did not open.
pub open spec fn local_warning(id: Seq<char>, error: SyncError) -> Seq<char> {
    "Failed to decrypt local note "@ + id + ": "@ + error.description()
}

/// Whether a note with this identifier is among `notes`.
pub open spec fn has_id(notes: Seq<NoteView>, id: Option<i64>) -> bool {
    exists|k: int| 0 <= k < notes.len() && #[trigger] notes[k].id == id
}

/// The result after the envelopes of the response, taken in order.
pub open spec fn server_pass(
    keys: KeyMaterial,
    envelopes: Seq<EncryptedNoteView>,
    conflicts: Seq<Seq<char>>,
) -> MergeView
    decreases envelopes.len(),
{
    if envelopes.len() == 0 {
        MergeView { notes: Seq::empty(), warnings: Seq::empty() }
    } else {
        let before = server_pass(keys, envelopes.drop_last(), conflicts);
        let envelope = envelopes.last();
        match opened_note(keys, envelope) {
            Ok(note) => if conflicts.contains(envelope.id) {
                before
            } else {
                MergeView { notes: before.notes.push(note), warnings: before.warnings }
            },
            Err(error) => MergeView {
                notes: before.notes,
                warnings: before.warnings.push(server_warning(envelope.id, error)),
            },
        }
    }
}

/// The result after the local envelopes, taken in order, on top of `start`.
pub open spec fn local_pass(
    keys: KeyMaterial,
    envelopes: Seq<EncryptedNoteView>,
    updated: Seq<Seq<char>>,
    conflicts: Seq<Seq<char>>,
    start: MergeView,
) -> MergeView
    decreases envelopes.len(),
{
    if envelopes.len() == 0 {
        start
    } else {
        let before = local_pass(keys, envelopes.drop_last(), updated, conflicts, start);
        let envelope = envelopes.last();
        if updated.contains(envelope.id) || conflicts.contains(envelope.id) {
            before
        } else {
            match opened_note(keys, envelope) {
                Ok(note) => if has_id(before.notes, note.id) {
                    before
                } else {
                    MergeView { notes: before.notes.push(note), warnings: before.warnings }
                },
                Err(error) => MergeView {
                    notes: before.notes,
                    warnings: before.warnings.push(local_warning(envelope.id, error)),
                },
            }
        }
    }
}

/// The merged result of one exchange.
pub open spec fn merged(
    keys: KeyMaterial,
    local: Seq<EncryptedNoteView>,
    response: SyncResponseView,
) -> MergeView {
    local_pass(
        keys,
        local,
        response.updated,
        response.conflicts,
        server_pass(keys, response.notes, response.conflicts),
    )
}

/// Whether a note with this identifier is among `notes`.
fn contains_id(notes: &Vec<Note>, id: Option<i64>) -> (found: bool)
    ensures
        found == has_id(note_views(notes@), id),
{
    let mut i: usize = 0;
    while i < notes.len()
        invariant
            i <= notes.len(),
            forall|k: int| 0 <= k < i ==> note_views(notes@)[k].id != id,
        decreases notes.len() - i,
    {
        if notes[i].id == id {
            assert(note_views(notes@)[i as int].id == id);
            return true;
        }
        i += 1;
    }
    false
}

/// Writes the warning for an envelope that did not open.
fn warning_text(prefix: &str, id: &String, error: &SyncError) -> (text: String)
    ensures
        text@ == prefix@ + id@ + ": "@ + error.description(),
{
    let description = error.message();
    prefix.to_owned().concat(id.as_str()).concat(": ").concat(description.as_str())
}

/// Merges the response of the endpoint with the local envelopes.
pub fn merge_response(crypto: &CryptoManager, local: &Vec<EncryptedNote>, response: &SyncResponse)
    -> (outcome: MergeOutcome)
    ensures
        outcome@ == merged(crypto@, envelope_views(local@), response@),
{
    let mut notes: Vec<Note> = Vec::new();
    let mut warnings: Vec<String> = Vec::new();
    let ghost keys = crypto@;
    let mut i: usize = 0;
    proof {
        assert(note_views(notes@) =~= Seq::<NoteView>::empty());
        assert(texts(warnings@) =~= Seq::<Seq<char>>::empty());
        assert(envelope_views(response.notes@).take(0).len() == 0);
    }
    while i < response.notes.len()
        invariant
            i <= response.notes.len(),
            keys == crypto@,
            (MergeView { notes: note_views(notes@), warnings: texts(warnings@) }) == server_pass(
                keys,
                envelope_views(response.notes@).take(i as int),
                response@.conflicts,
            ),
        decreases response.notes.len() - i,
    {
        let envelope = &response.notes[i];
        proof {
            let longer = envelope_views(response.notes@).take(i + 1);
            assert(longer.drop_last() == envelope_views(response.notes@).take(i as int));
            assert(longer.last() == envelope@);
        }
        let ghost notes_before = notes@;
        let ghost warnings_before = warnings@;
        match crypto.decrypt_note(envelope) {
            Ok(note) => {
                if !contains_text(&response.conflicts, &envelope.id) {
                    notes.push(note);
                    assert(note_views(notes@) == note_views(notes_before).push(note@));
                }
            },
            Err(error) => {
                let warning = warning_text("Failed to decrypt note ", &envelope.id, &error);
                warnings.push(warning);
                assert(texts(warnings@) == texts(warnings_before).push(warning@));
            },
        }
        i += 1;
    }
    assert(envelope_views(response.notes@).take(i as int) == envelope_views(response.notes@));
    let ghost start = MergeView { notes: note_views(notes@), warnings: texts(warnings@) };
    let mut j: usize = 0;
    while j < local.len()
        invariant
            j <= local.len(),
            keys == crypto@,
            (MergeView { notes: note_views(notes@), warnings: texts(warnings@) }) == local_pass(
                keys,
                envelope_views(local@).take(j as int),
                response@.updated,
                response@.conflicts,
                start,
            ),
        decreases local.len() - j,
    {
        let envelope = &local[j];
        proof {
            let longer = envelope_views(local@).take(j + 1);
            assert(longer.drop_last() == envelope_views(local@).take(j as int));
            assert(longer.last() == envelope@);
        }
        let ghost notes_before = notes@;
        let ghost warnings_before = warnings@;
        if !contains_text(&response.updated, &envelope.id) && !contains_text(
            &response.conflicts,
            &envelope.id,
        ) {
            match crypto.decrypt_note(envelope) {
                Ok(note) => {
                    if !contains_id(&notes, note.id) {
                        notes.push(note);
                        assert(note_views(notes@) == note_views(notes_before).push(note@));
                    }
                },
                Err(error) => {
                    let warning = warning_text(
                        "Failed to decrypt local note ",
                        &envelope.id,
                        &error,
                    );
                    warnings.push(warning);
                    assert(texts(warnings@) == texts(warnings_before).push(warning@));
                },
            }
        }
        j += 1;
    }
    assert(envelope_views(local@).take(j as int) == envelope_views(local@));
    MergeOutcome { notes, warnings }
}

/// Whether `note` was opened from one of `envelopes` whose identifier is not
/// listed in `conflicts`.
pub open spec fn opened_from(
    keys: KeyMaterial,
    note: NoteView,
    envelopes: Seq<EncryptedNoteView>,
    conflicts: Seq<Seq<char>>,
) -> bool {
    exists|k: int|
        0 <= k < envelopes.len() && #[trigger] opened_note(keys, envelopes[k]) == Ok::<
            NoteView,
            SyncError,
        >(note) && !conflicts.contains(envelopes[k].id)
}

proof fn lemma_opened_from_longer(
    keys: KeyMaterial,
    note: NoteView,
    envelopes: Seq<EncryptedNoteView>,
    conflicts: Seq<Seq<char>>,
)
    requires
        envelopes.len() > 0,
        opened_from(keys, note, envelopes.drop_last(), conflicts),
    ensures
        opened_from(keys, note, envelopes, conflicts),
{
    let shorter = envelopes.drop_last();
    let k = choose|k: int|
        0 <= k < shorter.len() && #[trigger] opened_note(keys, shorter[k]) == Ok::<
            NoteView,
            SyncError,
        >(note) && !conflicts.contains(shorter[k].id);
    assert(shorter[k] == envelopes[k]);
}

proof fn lemma_server_pass_sources(
    keys: KeyMaterial,
    envelopes: Seq<EncryptedNoteView>,
    conflicts: Seq<Seq<char>>,
)
    ensures
        forall|k: int|
            0 <= k < server_pass(keys, envelopes, conflicts).notes.len() ==> opened_from(
                keys,
                #[trigger] server_pass(keys, envelopes, conflicts).notes[k],
                envelopes,
                conflicts,
            ),
    decreases envelopes.len(),
{
    if envelopes.len() > 0 {
        let before = server_pass(keys, envelopes.drop_last(), conflicts);
        let after = server_pass(keys, envelopes, conflicts);
        lemma_server_pass_sources(keys, envelopes.drop_last(), conflicts);
        assert forall|k: int| 0 <= k < after.notes.len() implies opened_from(
            keys,
            #[trigger] after.notes[k],
            envelopes,
            conflicts,
        ) by {
            if k < before.notes.len() {
                assert(after.notes[k] == before.notes[k]);
                lemma_opened_from_longer(keys, before.notes[k], envelopes, conflicts);
            } else {
                let last = envelopes.len() - 1;
                assert(opened_note(keys, envelopes[last]) == Ok::<NoteView, SyncError>(
                    after.notes[k],
                ));
            }
        }
    }
}

proof fn lemma_local_pass_sources(
    keys: KeyMaterial,
    envelopes: Seq<EncryptedNoteView>,
    updated: Seq<Seq<char>>,
    conflicts: Seq<Seq<char>>,
    start: MergeView,
)
    ensures
        start.notes.len() <= local_pass(keys, envelopes, updated, conflicts, start).notes.len(),
        forall|k: int|
            0 <= k < start.notes.len() ==> #[trigger] local_pass(
                keys,
                envelopes,
                updated,
                conflicts,
                start,
            ).notes[k] == start.notes[k],
        forall|k: int|
            start.notes.len() <= k < local_pass(
                keys,
                envelopes,
                updated,
                conflicts,
                start,
            ).notes.len() ==> opened_from(
                keys,
                #[trigger] local_pass(keys, envelopes, updated, conflicts, start).notes[k],
                envelopes,
                conflicts,
            ) && !has_id(
                local_pass(keys, envelopes, updated, conflicts, start).notes.take(k),
                local_pass(keys, envelopes, updated, conflicts, start).notes[k].id,
            ),
    decreases envelopes.len(),
{
    if envelopes.len() > 0 {
        let before = local_pass(keys, envelopes.drop_last(), updated, conflicts, start);
        let after = local_pass(keys, envelopes, updated, conflicts, start);
        lemma_local_pass_sources(keys, envelopes.drop_last(), updated, conflicts, start);
        assert forall|k: int| start.notes.len() <= k < after.notes.len() implies opened_from(
            keys,
            #[trigger] after.notes[k],
            envelopes,
            conflicts,
        ) && !has_id(after.notes.take(k), after.notes[k].id) by {
            if k < before.notes.len() {
                assert(after.notes[k] == before.notes[k]);
                lemma_opened_from_longer(keys, before.notes[k], envelopes, conflicts);
                assert(after.notes.take(k) == before.notes.take(k));
            } else {
                let last = envelopes.len() - 1;
                assert(opened_note(keys, envelopes[last]) == Ok::<NoteView, SyncError>(
                    after.notes[k],
                ));
                assert(after.notes.take(k) == before.notes);
            }
        }
    }
}

/// No note of a merged result stems from an envelope whose identifier the
/// endpoint lists as conflicted: each one was opened from an envelope of the
/// response, or from a local one, that is not on that list.
pub proof fn lemma_conflicts_are_excluded(
    keys: KeyMaterial,
    local: Seq<EncryptedNoteView>,
    response: SyncResponseView,
)
    ensures
        forall|k: int|
            0 <= k < merged(keys, local, response).notes.len() ==> opened_from(
                keys,
                #[trigger] merged(keys, local, response).notes[k],
                response.notes,
                response.conflicts,
            ) || opened_from(
                keys,
                merged(keys, local, response).notes[k],
                local,
                response.conflicts,
            ),
{
    let start = server_pass(keys, response.notes, response.conflicts);
    lemma_server_pass_sources(keys, response.notes, response.conflicts);
    lemma_local_pass_sources(keys, local, response.updated, response.conflicts, start);
}

/// What the endpoint sent comes first and stays: the notes opened from the
/// response open the merged result, in order, and every note after them has
/// an identifier that no note before it has.
pub proof fn lemma_server_notes_take_precedence(
    keys: KeyMaterial,
    local: Seq<EncryptedNoteView>,
    response: SyncResponseView,
)
    ensures
        server_pass(keys, response.notes, response.conflicts).notes.is_prefix_of(
            merged(keys, local, response).notes,
        ),
        forall|k: int|
            server_pass(keys, response.notes, response.conflicts).notes.len() <= k < merged(
                keys,
                local,
                response,
            ).notes.len() ==> !has_id(
                merged(keys, local, response).notes.take(k),
                #[trigger] merged(keys, local, response).notes[k].id,
            ),
{
    let start = server_pass(keys, response.notes, response.conflicts);
    let all = merged(keys, local, response);
    lemma_local_pass_sources(keys, local, response.updated, response.conflicts, start);
    assert(all.notes.subrange(0, start.notes.len() as int) =~= start.notes);
}

/// One envelope that does not open costs nothing but itself: every envelope
/// of the response that opens and is not conflicted has its note in the
/// merged result, and every one that does not open has left its warning.
pub proof fn lemma_failures_are_only_warnings(
    keys: KeyMaterial,
    local: Seq<EncryptedNoteView>,
    response: SyncResponseView,
    k: int,
)
    requires
        0 <= k < response.notes.len(),
    ensures
        match opened_note(keys, response.notes[k]) {
            Ok(note) => response.conflicts.contains(response.notes[k].id) || merged(
                keys,
                local,
                response,
            ).notes.contains(note),
            Err(error) => merged(keys, local, response).warnings.contains(
                server_warning(response.notes[k].id, error),
            ),
        },
{
    let start = server_pass(keys, response.notes, response.conflicts);
    let all = merged(keys, local, response);
    lemma_server_pass_keeps(keys, response.notes, response.conflicts, k);
    lemma_local_pass_sources(keys, local, response.updated, response.conflicts, start);
    lemma_local_pass_warnings(keys, local, response.updated, response.conflicts, start);
    match opened_note(keys, response.notes[k]) {
        Ok(note) => {
            if !response.conflicts.contains(response.notes[k].id) {
                let i = choose|i: int| 0 <= i < start.notes.len() && start.notes[i] == note;
                assert(all.notes[i] == note);
            }
        },
        Err(error) => {
            let warning = server_warning(response.notes[k].id, error);
            let i = choose|i: int| 0 <= i < start.warnings.len() && start.warnings[i] == warning;
            assert(all.warnings[i] == warning);
        },
    }
}

proof fn lemma_server_pass_keeps(
    keys: KeyMaterial,
    envelopes: Seq<EncryptedNoteView>,
    conflicts: Seq<Seq<char>>,
    k: int,
)
    requires
        0 <= k < envelopes.len(),
    ensures
        match opened_note(keys, envelopes[k]) {
            Ok(note) => conflicts.contains(envelopes[k].id) || server_pass(
                keys,
                envelopes,
                conflicts,
            ).notes.contains(note),
            Err(error) => server_pass(keys, envelopes, conflicts).warnings.contains(
                server_warning(envelopes[k].id, error),
            ),
        },
    decreases envelopes.len(),
{
    let before = server_pass(keys, envelopes.drop_last(), conflicts);
    let after = server_pass(keys, envelopes, conflicts);
    if k < envelopes.len() - 1 {
        lemma_server_pass_keeps(keys, envelopes.drop_last(), conflicts, k);
        assert(envelopes.drop_last()[k] == envelopes[k]);
        match opened_note(keys, envelopes[k]) {
            Ok(note) => {
                if !conflicts.contains(envelopes[k].id) {
                    let i = choose|i: int| 0 <= i < before.notes.len() && before.notes[i] == note;
                    assert(after.notes[i] == note);
                }
            },
            Err(error) => {
                let warning = server_warning(envelopes[k].id, error);
                let i = choose|i: int|
                    0 <= i < before.warnings.len() && before.warnings[i] == warning;
                assert(after.warnings[i] == warning);
            },
        }
    } else {
        match opened_note(keys, envelopes[k]) {
            Ok(note) => {
                if !conflicts.contains(envelopes[k].id) {
                    assert(after.notes[after.notes.len() - 1] == note);
                }
            },
            Err(error) => {
                assert(after.warnings[after.warnings.len() - 1] == server_warning(
                    envelopes[k].id,
                    error,
                ));
            },
        }
    }
}

proof fn lemma_local_pass_warnings(
    keys: KeyMaterial,
    envelopes: Seq<EncryptedNoteView>,
    updated: Seq<Seq<char>>,
    conflicts: Seq<Seq<char>>,
    start: MergeView,
)
    ensures
        start.warnings.is_prefix_of(
            local_pass(keys, envelopes, updated, conflicts, start).warnings,
        ),
    decreases envelopes.len(),
{
    if envelopes.len() > 0 {
        lemma_local_pass_warnings(keys, envelopes.drop_last(), updated, conflicts, start);
        let before = local_pass(keys, envelopes.drop_last(), updated, conflicts, start);
        let after = local_pass(keys, envelopes, updated, conflicts, start);
        assert(before.warnings.is_prefix_of(after.warnings));
        assert(start.warnings =~= after.warnings.subrange(0, start.warnings.len() as int)) by {
            assert(start.warnings =~= before.warnings.subrange(0, start.warnings.len() as int));
        }
    }
}

} // verus!
