use vstd::prelude::*;
use crate::error::{BAR, HYPHEN};

verus! {

/// The type tag of a literal.
#[derive(Clone, Copy, PartialEq, Eq, Debug, Structural)]
pub enum Odor {
    /// Unsigned decimal.
    Ud,
}

/// A rune: a two-character prefix operator with a fixed arity.
#[derive(Clone, Copy, PartialEq, Eq, Debug, Structural)]
pub enum Rune {
    /// `|-`: one argument.
    Brhp,
    /// The marker that turns a raw literal into an expression; it has no surface glyph.
    Dtzy,
}

impl Rune {
    /// The two bytes of the rune's glyph; the literal marker has none.
    pub open spec fn spec_glyph(self) -> Option<(u8, u8)> {
        match self {
            Rune::Brhp => Some((BAR, HYPHEN)),
            Rune::Dtzy => None,
        }
    }

    /// How many sub-expressions the rune takes.
    pub open spec fn spec_arity(self) -> nat {
        match self {
            Rune::Brhp => 1,
            Rune::Dtzy => 1,
        }
    }

    pub fn glyph(&self) -> (r: Option<(u8, u8)>)
        ensures
            r == self.spec_glyph(),
    {
        match self {
            Rune::Brhp => Some((BAR, HYPHEN)),
            Rune::Dtzy => None,
        }
    }

    pub fn arity(&self) -> (r: usize)
        ensures
            r == self.spec_arity(),
    {
        match self {
            Rune::Brhp => 1,
            Rune::Dtzy => 1,
        }
    }
}

/// An expression tree.
#[derive(PartialEq, Eq, Debug)]
pub enum Twig {
    /// A literal: its odor and its value.
    Atom(Odor, u64),
    /// A pair of trees: head and tail.
    Cell(Box<Twig>, Box<Twig>),
    /// A rune marker; it heads a cell whose tail holds the rune's arguments.
    Rune(Rune),
}

/// The tree of an unsigned decimal literal of value `v`.
pub open spec fn literal(v: u64) -> Twig {
    Twig::Cell(Box::new(Twig::Rune(Rune::Dtzy)), Box::new(Twig::Atom(Odor::Ud, v)))
}

/// The tree of rune `r` applied to the argument tree `args`.
pub open spec fn apply(r: Rune, args: Twig) -> Twig {
    Twig::Cell(Box::new(Twig::Rune(r)), Box::new(args))
}

} // verus!
