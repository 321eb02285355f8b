//! Drag-and-drop actions.
use vstd::prelude::*;

verus! {

/// The set of drag-and-drop actions a source offers or a destination accepts.
#[derive(Debug, Clone, Copy, PartialEq, Eq, Structural, Default)]
pub struct DndActions {
    /// The data is copied.
    pub copy: bool,
    /// The data is moved.
    pub moves: bool,
    /// The user is asked which action to take.
    pub ask: bool,
}

/// A drag-and-drop action for the shell to perform.
///
/// `F` turns the peeked data, with its mime type, into a message.
pub enum DndAction<F> {
    /// End the drag-and-drop operation.
    EndDnd,
    /// Peek at the data of the operation in the given mime type.
    PeekDnd(String, F),
    /// Set the action of the operation.
    SetAction(DndActions),
}

/// End the drag-and-drop operation.
pub fn end_dnd<F>() -> (r: DndAction<F>)
    ensures
        r is EndDnd,
{
    DndAction::EndDnd
}

/// Set the action of the drag-and-drop operation.
pub fn set_action<F>(a: DndActions) -> (r: DndAction<F>)
    ensures
        r == DndAction::<F>::SetAction(a),
{
    DndAction::SetAction(a)
}

} // verus!
