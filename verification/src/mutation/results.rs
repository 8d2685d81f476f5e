//! What the note operations report.
use vstd::prelude::*;

verus! {

/// A replaced section: the note that changed.
#[derive(Clone, Debug)]
pub struct EditSectionResult {
    pub changed: String,
}

/// A created note: its path.
#[derive(Clone, Debug)]
pub struct CreateNoteResult {
    pub path: String,
}

/// A deleted note: its path, and whether the deletion was only previewed.
#[derive(Clone, Debug)]
pub struct DeleteNoteResult {
    pub path: String,
    pub dry_run: bool,
}

/// An edited note: its path, and whether the edit was only previewed.
#[derive(Clone, Debug)]
pub struct EditNoteResult {
    pub path: String,
    pub dry_run: bool,
}

/// An applied patch: the notes it changes, and whether it was only previewed.
#[derive(Clone, Debug)]
pub struct ApplyPatchResult {
    pub changed_notes: Vec<String>,
    pub dry_run: bool,
}

/// Undone operations: their IDs, the notes changed, and the conflicts that stopped any.
#[derive(Clone, Debug)]
pub struct UndoEditResult {
    pub operation_ids: Vec<String>,
    pub changed_notes: Vec<String>,
    pub conflicts: Vec<String>,
}

/// Redone operations: their IDs, the notes changed, and the conflicts that stopped any.
#[derive(Clone, Debug)]
pub struct RedoEditResult {
    pub operation_ids: Vec<String>,
    pub changed_notes: Vec<String>,
    pub conflicts: Vec<String>,
}

} // verus!
