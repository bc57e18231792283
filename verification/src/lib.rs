//! An interpreter for a minimal tape-based language: eight single-character
//! instructions act on a fixed tape of byte cells addressed by a movable
//! cursor, with `[` and `]` forming a zero-test loop.
//!
//! The pipeline has three stages: [`lexer::lex`] turns source text into
//! located tokens, [`parser::parse`] matches brackets into a tree, and
//! [`runtime::eval`] walks the tree against a [`runtime::State`].

use vstd::prelude::*;

pub mod lexer;
pub mod parser;
pub mod runtime;

verus! {

/// A position in the source text, carried by every token, tree node and
/// diagnostic so that a renderer can point at the offending character.
///
/// `lineno` is 1-based; `range` is a half-open 0-based character range
/// within `line`, which holds the full text of the source line.
#[derive(Debug)]
pub struct Location {
    pub file: String,
    pub line: String,
    pub lineno: usize,
    pub range: (usize, usize),
}

/// The mathematical value of a [`Location`].
pub ghost struct LocationView {
    pub file: Seq<char>,
    pub line: Seq<char>,
    pub lineno: int,
    pub start: int,
    pub end: int,
}

impl View for Location {
    type V = LocationView;

    open spec fn view(&self) -> LocationView {
        LocationView {
            file: self.file@,
            line: self.line@,
            lineno: self.lineno as int,
            start: self.range.0 as int,
            end: self.range.1 as int,
        }
    }
}

impl Location {
    /// A copy of this location; tokens, nodes and diagnostics each own one.
    pub fn duplicate(&self) -> (r: Location)
        ensures
            r@ == self@,
    {
        Location {
            file: self.file.clone(),
            line: self.line.clone(),
            lineno: self.lineno,
            range: (self.range.0, self.range.1),
        }
    }
}

} // verus!
