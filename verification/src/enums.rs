//! The quote styles a rewritten literal can be delimited with.

use vstd::prelude::*;

verus! {

/// A quote style: single or double quotes.
#[derive(Debug, Clone, Copy, PartialEq, Eq, Structural)]
pub enum Quotes {
    Single,
    Double,
}

/// The character a quote style stands for.
pub open spec fn quotes_char(q: Quotes) -> char {
    match q {
        Quotes::Single => '\'',
        Quotes::Double => '"',
    }
}

impl Quotes {
    /// The quote character of this style.
    pub fn char(&self) -> (c: char)
        ensures
            c == quotes_char(*self),
    {
        match self {
            Quotes::Single => '\'',
            Quotes::Double => '"',
        }
    }
}

} // verus!
