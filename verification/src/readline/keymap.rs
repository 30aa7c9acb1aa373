//! What the keys of the line buffer's editor ask for.

use vstd::prelude::*;

verus! {

/// How often a command is repeated.
pub type RepeatCount = usize;

/// What counts as a word.
#[derive(Clone, Copy, Debug, PartialEq, Eq, Structural)]
pub enum Word {
    /// A run of characters other than whitespace.
    Big,
    /// A run of letters and digits.
    Emacs,
    /// A run of letters, digits and underscores, or a run of other
    /// characters that are not whitespace.
    Vi,
}

/// Where in a word a move ends.
#[derive(Clone, Copy, Debug, PartialEq, Eq, Structural)]
pub enum At {
    Start,
    BeforeEnd,
    AfterEnd,
}

/// A search for a character in the line.
#[derive(Clone, Copy, Debug, PartialEq, Eq, Structural)]
pub enum CharSearch {
    /// To the character, to the right.
    Forward(char),
    /// To just before the character, to the right.
    ForwardBefore(char),
    /// To the character, to the left.
    Backward(char),
    /// To just after the character, to the left.
    BackwardAfter(char),
}

/// A move of the cursor, as far as the text it passes over goes.
#[derive(Clone, Copy, Debug, PartialEq, Eq, Structural)]
pub enum Movement {
    WholeLine,
    BeginningOfLine,
    EndOfLine,
    BackwardWord(usize, Word),
    ForwardWord(usize, At, Word),
    ViCharSearch(usize, CharSearch),
    ViFirstPrint,
    BackwardChar(usize),
    ForwardChar(usize),
}

} // verus!
