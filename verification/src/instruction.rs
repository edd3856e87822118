//! The instructions of the ledger and their binary wire format.
//!
//! An instruction is one tag byte followed by its fields. Integers are 8
//! bytes, little-endian; an account identifier is 32 bytes. Bytes after the
//! last field are ignored.

use vstd::prelude::*;
use vstd::bytes::u64_from_le_bytes;
use crate::account::AccountId;
use crate::error::TokenError;
use crate::wire::{
    le_bytes, le_value, lemma_from_le_bytes_is_le_value, lemma_le_value_fits,
    lemma_le_value_of_bytes,
};

verus! {

/// Tag byte of `Initialize`.
pub const TAG_INITIALIZE: u8 = 0;

/// Tag byte of `Transfer`.
pub const TAG_TRANSFER: u8 = 1;

/// Tag byte of `GetBalance`.
pub const TAG_GET_BALANCE: u8 = 2;

/// Tag byte of `Approve`.
pub const TAG_APPROVE: u8 = 3;

/// One request to the ledger.
#[derive(Clone, Copy, Debug, PartialEq, Eq)]
pub enum TokenInstruction {
    /// Mint `total_supply` units to the owner.
    Initialize { total_supply: u64 },
    /// Move `amount` units from the sender to the recipient.
    Transfer { amount: u64 },
    /// Report an account's balance.
    GetBalance,
    /// Let `spender` move up to `amount` units on the owner's behalf.
    Approve { spender: AccountId, amount: u64 },
}

/// The integer at the front of `input`, if `input` holds its 8 bytes.
pub open spec fn decode_u64(input: Seq<u8>) -> Option<u64> {
    if input.len() < 8 {
        None
    } else {
        Some(le_value(input.subrange(0, 8)) as u64)
    }
}

/// The identifier at the front of `input` and the bytes after it, if `input`
/// holds its 32 bytes.
pub open spec fn decode_account(input: Seq<u8>) -> Option<(AccountId, Seq<u8>)> {
    if input.len() < 32 {
        None
    } else {
        Some((AccountId::from_seq(input.subrange(0, 32)), input.subrange(32, input.len() as int)))
    }
}

/// The fields of `Approve` at the front of `input`: a spender, then an amount.
pub open spec fn decode_approve(input: Seq<u8>) -> Option<(AccountId, u64)> {
    match decode_account(input) {
        Some((spender, rest)) => match decode_u64(rest) {
            Some(amount) => Some((spender, amount)),
            None => None,
        },
        None => None,
    }
}

/// The instruction that `data` carries, or `None` where `data` is empty, its
/// tag is unknown, or it is too short for a field of the tagged instruction.
pub open spec fn decode(data: Seq<u8>) -> Option<TokenInstruction> {
    if data.len() == 0 {
        None
    } else {
        let rest = data.subrange(1, data.len() as int);
        if data[0] == TAG_INITIALIZE {
            match decode_u64(rest) {
                Some(total_supply) => Some(TokenInstruction::Initialize { total_supply }),
                None => None,
            }
        } else if data[0] == TAG_TRANSFER {
            match decode_u64(rest) {
                Some(amount) => Some(TokenInstruction::Transfer { amount }),
                None => None,
            }
        } else if data[0] == TAG_GET_BALANCE {
            Some(TokenInstruction::GetBalance)
        } else if data[0] == TAG_APPROVE {
            match decode_approve(rest) {
                Some((spender, amount)) => Some(TokenInstruction::Approve { spender, amount }),
                None => None,
            }
        } else {
            None
        }
    }
}

/// The bytes that carry `instruction`: its tag, then its fields in order.
pub open spec fn encode(instruction: TokenInstruction) -> Seq<u8> {
    match instruction {
        TokenInstruction::Initialize { total_supply } => seq![TAG_INITIALIZE] + le_bytes(
            total_supply,
        ),
        TokenInstruction::Transfer { amount } => seq![TAG_TRANSFER] + le_bytes(amount),
        TokenInstruction::GetBalance => seq![TAG_GET_BALANCE],
        TokenInstruction::Approve { spender, amount } => seq![TAG_APPROVE] + spender@ + le_bytes(
            amount,
        ),
    }
}

/// The length of an instruction on the wire: the tag, 8 bytes for each
/// integer and 32 for an account identifier.
pub proof fn lemma_encode_len(instruction: TokenInstruction)
    ensures
        encode(instruction).len() == (match instruction {
            TokenInstruction::Initialize { .. } => 9nat,
            TokenInstruction::Transfer { .. } => 9nat,
            TokenInstruction::GetBalance => 1nat,
            TokenInstruction::Approve { .. } => 41nat,
        }),
{
}

/// Decoding inverts encoding: the bytes of an instruction, followed by any
/// bytes at all, decode to that instruction with every field as it was.
pub proof fn lemma_decode_encode(instruction: TokenInstruction, trailing: Seq<u8>)
    ensures
        decode(encode(instruction) + trailing) == Some(instruction),
{
    let data = encode(instruction) + trailing;
    let rest = data.subrange(1, data.len() as int);
    match instruction {
        TokenInstruction::Initialize { total_supply } => {
            lemma_le_value_of_bytes(total_supply);
        },
        TokenInstruction::Transfer { amount } => {
            lemma_le_value_of_bytes(amount);
        },
        TokenInstruction::GetBalance => {},
        TokenInstruction::Approve { spender, amount } => {
            assert(rest.subrange(0, 32) =~= spender@);
            lemma_le_value_of_bytes(amount);
            AccountId::lemma_from_seq(spender@);
            AccountId::lemma_view_injective(AccountId::from_seq(spender@), spender);
        },
    }
}

/// A buffer cut short is rejected: no proper prefix of an instruction's
/// bytes decodes to anything.
pub proof fn lemma_decode_truncated(instruction: TokenInstruction, len: int)
    requires
        0 <= len < encode(instruction).len(),
    ensures
        decode(encode(instruction).subrange(0, len)) is None,
{
}

impl TokenInstruction {
    /// Decodes an instruction from its wire format.
    pub fn unpack(data: &[u8]) -> (result: Result<TokenInstruction, TokenError>)
        ensures
            result == (match decode(data@) {
                Some(instruction) => Ok::<TokenInstruction, TokenError>(instruction),
                None => Err(TokenError::MalformedInstruction),
            }),
    {
        if data.len() == 0 {
            return Err(TokenError::MalformedInstruction);
        }
        let tag: u8 = data[0];
        let rest = &data[1..data.len()];
        if tag == TAG_INITIALIZE {
            match Self::unpack_u64(rest) {
                Ok(total_supply) => Ok(TokenInstruction::Initialize { total_supply }),
                Err(e) => Err(e),
            }
        } else if tag == TAG_TRANSFER {
            match Self::unpack_u64(rest) {
                Ok(amount) => Ok(TokenInstruction::Transfer { amount }),
                Err(e) => Err(e),
            }
        } else if tag == TAG_GET_BALANCE {
            Ok(TokenInstruction::GetBalance)
        } else if tag == TAG_APPROVE {
            match Self::unpack_approve(rest) {
                Ok((spender, amount)) => Ok(TokenInstruction::Approve { spender, amount }),
                Err(e) => Err(e),
            }
        } else {
            Err(TokenError::MalformedInstruction)
        }
    }

    /// Reads a little-endian integer from the first 8 bytes of `input`.
    pub fn unpack_u64(input: &[u8]) -> (result: Result<u64, TokenError>)
        ensures
            result == (match decode_u64(input@) {
                Some(value) => Ok::<u64, TokenError>(value),
                None => Err(TokenError::MalformedInstruction),
            }),
    {
        if input.len() < 8 {
            return Err(TokenError::MalformedInstruction);
        }
        let bytes = &input[0..8];
        proof {
            lemma_from_le_bytes_is_le_value(bytes@);
            lemma_le_value_fits(bytes@);
        }
        Ok(u64_from_le_bytes(bytes))
    }

    /// Reads the fields of `Approve`: a spender, then an amount.
    pub fn unpack_approve(input: &[u8]) -> (result: Result<(AccountId, u64), TokenError>)
        ensures
            result == (match decode_approve(input@) {
                Some(fields) => Ok::<(AccountId, u64), TokenError>(fields),
                None => Err(TokenError::MalformedInstruction),
            }),
    {
        match Self::unpack_account(input) {
            Ok((spender, rest)) => match Self::unpack_u64(rest) {
                Ok(amount) => Ok((spender, amount)),
                Err(e) => Err(e),
            },
            Err(e) => Err(e),
        }
    }

    /// Reads an account identifier from the first 32 bytes of `input` and
    /// hands back the bytes after it.
    pub fn unpack_account(input: &[u8]) -> (result: Result<(AccountId, &[u8]), TokenError>)
        ensures
            (match decode_account(input@) {
                Some((account, rest)) => result matches Ok((a, r)) && a == account && r@ == rest,
                None => result == Err::<(AccountId, &[u8]), TokenError>(
                    TokenError::MalformedInstruction,
                ),
            }),
    {
        if input.len() < 32 {
            return Err(TokenError::MalformedInstruction);
        }
        let key = &input[0..32];
        let rest = &input[32..input.len()];
        Ok((AccountId::from_slice(key), rest))
    }
}

} // verus!
