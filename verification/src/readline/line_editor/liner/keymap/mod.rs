//! Key bindings.

use vstd::prelude::*;
use crate::completion::Engine;
use crate::readline::line_editor::liner::editor::Editor;
use crate::readline::{Key, ReadlineEvent};

pub mod emacs;

verus! {

/// A set of key bindings over an editor.
pub trait KeyMap<E: Engine> {
    /// What the bindings hold of themselves and of their editor between
    /// keys. Nothing, unless the bindings say otherwise.
    open spec fn ready(&self) -> bool {
        true
    }

    /// Handles a key that means the same under every set of bindings, or
    /// hands it to [`KeyMap::handle_key_core`]: Ctrl-C gives the line up,
    /// Ctrl-D on an empty line ends the input, Tab completes, Enter
    /// completes the line, and Ctrl-F, or the right arrow at the end of
    /// the line, accepts the suggestion where one is shown.
    fn handle_key(&mut self, key: Key) -> (r: ReadlineEvent)
        requires
            old(self).ready(),
        ensures
            final(self).ready(),
    ;

    /// Handles a key in the bindings' own way.
    fn handle_key_core(&mut self, key: Key) -> (r: ReadlineEvent)
        requires
            old(self).ready(),
        ensures
            final(self).ready(),
    ;

    /// The editor.
    fn editor(&self) -> (ed: &Editor<E>);
}

} // verus!
