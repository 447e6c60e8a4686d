//! The library's error types.
use vstd::prelude::*;

verus! {

/// Failures of the position layer: malformed notation input.
#[derive(Debug, Clone, Copy, PartialEq, Eq, Structural)]
pub enum ChessError {
    InputError,
}

/// Failures of the engine layer: a rejected input, or a book store that
/// could not be read.
#[derive(Debug, Clone, Copy, PartialEq, Eq, Structural)]
pub enum EngineError {
    DatabaseError,
    InputError,
}

impl EngineError {
    /// The engine error a position-layer error maps to.
    pub fn from_chess(value: ChessError) -> (r: EngineError)
        ensures
            r == EngineError::InputError,
    {
        match value {
            ChessError::InputError => EngineError::InputError,
        }
    }

    /// A short description of the error.
    pub fn describe(&self) -> (r: &'static str)
        ensures
            self is DatabaseError ==> r@ == "could not read the opening book"@,
            self is InputError ==> r@ == "rejected input"@,
    {
        match self {
            EngineError::DatabaseError => "could not read the opening book",
            EngineError::InputError => "rejected input",
        }
    }
}

} // verus!
