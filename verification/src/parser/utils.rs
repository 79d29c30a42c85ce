//! The kinds of source line.

use vstd::prelude::*;

verus! {

/// What a source line is, once its comment and the whitespace around it are
/// gone.
#[derive(Debug, Clone, Copy, PartialEq, Eq, Structural)]
pub enum CommandType {
    /// Nothing: a blank line or a comment.
    NOCOMMAND,
    /// An address-instruction: `@` and an operand.
    ACOMMAND,
    /// A compute-instruction.
    CCOMMAND,
    /// A label declaration: a name in parentheses.
    LCOMMAND,
}

} // verus!
