//! What the editor tells those who listen.

use vstd::prelude::*;
use crate::readline::line_editor::liner::editor::Editor;
use crate::readline::Key;

verus! {

/// What is about to happen or has happened.
#[derive(Debug, Clone, Copy)]
pub enum EventKind {
    /// A key is about to be handled.
    BeforeKey(Key),
    /// A key has been handled.
    AfterKey(Key),
    /// A completion is about to be made.
    BeforeComplete,
}

/// An event, with the editor it concerns.
pub struct Event<'a, E> {
    pub editor: &'a Editor<E>,
    pub kind: EventKind,
}

impl<'a, E> Event<'a, E> {
    /// The event.
    pub fn new(editor: &'a Editor<E>, kind: EventKind) -> (r: Self)
        ensures
            r.editor == editor,
            r.kind == kind,
    {
        Event { editor, kind }
    }
}

} // verus!
