//! The line editor's core: a buffer, the history of buffers, the editor
//! that moves a cursor over them, and the key bindings.

pub mod buffer;
pub mod history;
pub mod editor;
pub mod event;
pub mod keymap;
