//! The ways in which a source text can fail to assemble.

use vstd::prelude::*;

verus! {

/// Why an assembly run was aborted.
#[derive(Debug, Clone, Copy, PartialEq, Eq, Structural)]
pub enum AssembleError {
    /// A mnemonic that is in none of the instruction tables, or an
    /// address-instruction without an operand.
    Syntax,
    /// A numeric operand or an address outside of `0..=32767`, or a name
    /// declared again with another address.
    Symbol,
}

} // verus!
