//! A minimal fungible-token ledger.
//!
//! The ledger is a balance table and an allowance table, changed by four
//! instructions that arrive in a binary wire format:
//!
//! - [`account`]: account identifiers;
//! - [`error`]: the reasons an instruction is rejected;
//! - [`wire`]: little-endian integers as they stand on the wire;
//! - [`instruction`]: the instructions and their decoder;
//! - [`table`]: lists of entries read as finite maps, and sums over them;
//! - [`ledger`]: the ledger as a mathematical object, with its laws;
//! - [`token`]: the executable ledger, proved against [`ledger`];
//! - [`processor`]: decoding an instruction and applying it.

pub mod account;
pub mod error;
pub mod instruction;
pub mod ledger;
pub mod processor;
pub mod table;
pub mod token;
pub mod wire;

pub use crate::account::AccountId;
pub use crate::error::TokenError;
pub use crate::instruction::TokenInstruction;
pub use crate::processor::{
    execute_instruction, instruction_fits, process_instruction, process_instruction_checked,
};
pub use crate::token::Token;
