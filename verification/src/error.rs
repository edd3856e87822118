//! Reasons an instruction is rejected.

use vstd::prelude::*;

verus! {

/// Why an instruction was rejected. A rejected instruction changes nothing.
#[derive(Clone, Copy, Debug, PartialEq, Eq, Structural)]
pub enum TokenError {
    /// The bytes are too short for the tag or for a field, or the tag is
    /// not one of the known instructions.
    MalformedInstruction,
    /// Fewer account identifiers were supplied than the instruction binds.
    NotEnoughAccounts,
    /// A transfer named an account that has no entry in the balance table.
    UnknownAccount,
    /// A transfer asked for more than the sender holds.
    InsufficientFunds,
}

} // verus!
