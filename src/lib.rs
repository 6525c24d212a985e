//! A recursive-descent parser for Hoon source text.
//!
//! Every parser works on a complete byte buffer. Each one is stated twice: as a
//! spec function over `Seq<u8>` and a position, which is the grammar, and as an
//! executable function whose contract ties its result to that spec function.

pub mod error;
pub mod twig;
pub mod lex;
pub mod atom;
pub mod ream;
pub mod wing;
