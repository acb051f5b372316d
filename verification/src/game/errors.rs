use vstd::prelude::*;

verus! {

/// The recoverable errors of the engine: a submitted action that is not in
/// the current legal set, and an undo request without a retained snapshot.
#[derive(Clone, Copy, PartialEq, Eq, Structural, Debug)]
pub enum GameError {
    IllegalAction,
    CannotUndo,
}

} // verus!
