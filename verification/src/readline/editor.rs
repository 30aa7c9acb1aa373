//! The editor the reader drives.

use vstd::prelude::*;
use crate::completion::{Completer, Engine};
use crate::history::History;
use crate::readline::display::{DisplayString, Render, Row};
use crate::readline::line_editor::liner::keymap::emacs::Emacs;
use crate::readline::line_editor::LineEditor;
use crate::readline::{Key, ReadlineEvent};
use crate::text;

verus! {

/// A line editor behind the shell's prompt.
pub struct Editor<E> {
    pub line_editor: LineEditor<E>,
}

impl<E: Engine> Editor<E> {
    /// The line editor is well formed.
    pub open spec fn wf(&self) -> bool {
        self.line_editor.wf()
    }

    /// An editor on an empty line.
    pub fn new(completer: Completer<E>, history: &History) -> (r: Self)
        ensures
            r.wf(),
            r.line_editor.editor.ed.line() == Seq::<char>::empty(),
    {
        Editor { line_editor: LineEditor::new(DisplayString::from_text("$ prompt "), completer, history) }
    }

    /// Handles a key: the prompt stays, and the line changes as
    /// [`Emacs::key_outcome`] says.
    pub fn handle_input(&mut self, key: Key) -> (r: ReadlineEvent)
        requires
            old(self).wf(),
        ensures
            final(self).wf(),
            final(self).line_editor.prompt == old(self).line_editor.prompt,
            Emacs::key_outcome(&old(self).line_editor.editor, &final(self).line_editor.editor, key, r),
    {
        self.line_editor.handle_input(key)
    }

    /// The line shown, as a string.
    pub fn buffer(&self) -> (r: String)
        requires
            self.wf(),
        ensures
            r@ == self.line_editor.editor.ed.line(),
    {
        text::string_of(self.line_editor.buffer())
    }
}

impl<E: Engine> Render for Editor<E> {
    open spec fn ready(&self) -> bool {
        self.wf()
    }

    /// The rows that show the prompt and the line, see
    /// [`LineEditor::rows_shown`].
    fn render(&mut self, width: usize) -> (rows: Vec<Row>)
        ensures
            *final(self) == *old(self),
            crate::readline::display::rows_view(rows@) == old(self).line_editor.rows_shown(width),
    {
        self.line_editor.render(width)
    }
}

} // verus!
