//! Colours.

use vstd::prelude::*;

verus! {

/// The eight colours of a terminal, and the colour it starts with.
#[derive(Clone, Copy, Debug, PartialEq, Eq, Structural)]
pub enum Base {
    Black,
    Red,
    Green,
    Yellow,
    Blue,
    Magenta,
    Cyan,
    White,
    Reset,
}

/// A colour as it is, or in its light form.
#[derive(Clone, Copy, Debug, PartialEq, Eq, Structural)]
pub enum Mode {
    Normal(Base),
    Light(Base),
}

/// The number a terminal knows a colour by; the colour it starts with has
/// none.
pub open spec fn base_number(b: Base) -> Option<nat> {
    match b {
        Base::Black => Some(0),
        Base::Red => Some(1),
        Base::Green => Some(2),
        Base::Yellow => Some(3),
        Base::Blue => Some(4),
        Base::Magenta => Some(5),
        Base::Cyan => Some(6),
        Base::White => Some(7),
        Base::Reset => None,
    }
}

/// The number a terminal knows a colour by: the light forms come after
/// the eight plain ones.
pub open spec fn mode_number(m: Mode) -> Option<nat> {
    match m {
        Mode::Normal(b) => base_number(b),
        Mode::Light(b) => match base_number(b) {
            Some(n) => Some(n + 8),
            None => None,
        },
    }
}

impl Base {
    /// The number a terminal knows the colour by.
    pub fn number(&self) -> (n: Option<u8>)
        ensures
            n is Some == base_number(*self) is Some,
            n is Some ==> n->Some_0 == base_number(*self)->Some_0,
    {
        match self {
            Base::Black => Some(0),
            Base::Red => Some(1),
            Base::Green => Some(2),
            Base::Yellow => Some(3),
            Base::Blue => Some(4),
            Base::Magenta => Some(5),
            Base::Cyan => Some(6),
            Base::White => Some(7),
            Base::Reset => None,
        }
    }
}

impl Mode {
    /// The number a terminal knows the colour by.
    pub fn number(&self) -> (n: Option<u8>)
        ensures
            n is Some == mode_number(*self) is Some,
            n is Some ==> n->Some_0 == mode_number(*self)->Some_0,
    {
        match self {
            Mode::Normal(b) => b.number(),
            Mode::Light(b) => match b.number() {
                Some(n) => Some(n + 8),
                None => None,
            },
        }
    }
}

} // verus!
