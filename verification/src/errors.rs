use vstd::prelude::*;

verus! {

use crate::arena::ArenaId;

/// Errors reported by the builders at construction time and by the replay
/// of a rendered token sequence.
#[derive(Clone, Debug)]
pub enum LSystemError {
    /// A token name was registered twice; carries the offending name.
    DuplicateToken(String),
    /// A handle outside the arena was referenced by the initial sequence or a rule.
    UnknownToken(ArenaId),
    /// A text form named a token that is not registered; carries the input line.
    UnknownName(String),
    /// The initial sequence is empty or was never set.
    EmptyInitialState,
    /// A text rule does not have the shape `lhs => rhs ...`; carries the line.
    MalformedRule(String),
    /// A uniform sampling range `lower..upper` with `lower >= upper`.
    EmptyRange,
    /// A pop with no matching earlier push during replay.
    StackUnderflow,
    /// A move would take the turtle outside the machine integer range.
    CoordinateOverflow,
}

} // verus!
