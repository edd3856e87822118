//! Processing one instruction against a ledger.
//!
//! The host hands over the ledger, the account identifiers of the
//! invocation in their fixed order, and the instruction's bytes. The
//! identifiers are bound by position: the first is the owner of
//! `Initialize` and `Approve`, the sender of `Transfer` and the account of
//! `GetBalance`; the second is the recipient of `Transfer`.

use vstd::prelude::*;
use crate::account::AccountId;
use crate::error::TokenError;
use crate::instruction::{decode, TokenInstruction};
use crate::ledger::Ledger;
use crate::token::Token;

verus! {

/// How many account identifiers an instruction binds.
pub open spec fn accounts_needed(instruction: TokenInstruction) -> nat {
    match instruction {
        TokenInstruction::Transfer { .. } => 2,
        _ => 1,
    }
}

/// What an instruction does to a ledger, given the accounts of the
/// invocation: the ledger afterwards and, for `GetBalance`, the balance to
/// report.
pub open spec fn execute(
    ledger: Ledger,
    instruction: TokenInstruction,
    accounts: Seq<AccountId>,
) -> Result<(Ledger, Option<nat>), TokenError> {
    if accounts.len() < accounts_needed(instruction) {
        Err(TokenError::NotEnoughAccounts)
    } else {
        match instruction {
            TokenInstruction::Initialize { total_supply } => Ok(
                (ledger.initialize(total_supply as nat, accounts[0]), None),
            ),
            TokenInstruction::Transfer { amount } => match ledger.transfer(
                accounts[0],
                accounts[1],
                amount as nat,
            ) {
                Ok(after) => Ok((after, None)),
                Err(e) => Err(e),
            },
            TokenInstruction::GetBalance => Ok((ledger, Some(ledger.balance_of(accounts[0])))),
            TokenInstruction::Approve { spender, amount } => Ok(
                (ledger.approve(accounts[0], spender, amount as nat), None),
            ),
        }
    }
}

/// What the bytes of an instruction do to a ledger: they are decoded, and
/// the instruction they carry is executed.
pub open spec fn process(ledger: Ledger, accounts: Seq<AccountId>, data: Seq<u8>) -> Result<
    (Ledger, Option<nat>),
    TokenError,
> {
    match decode(data) {
        Some(instruction) => execute(ledger, instruction, accounts),
        None => Err(TokenError::MalformedInstruction),
    }
}

/// A reported balance as a number.
pub open spec fn report_of(reported: Option<u64>) -> Option<nat> {
    match reported {
        Some(balance) => Some(balance as nat),
        None => None,
    }
}

/// Only `Initialize` changes the supply or the sum of balances: any other
/// instruction that goes through leaves both as they were.
pub proof fn lemma_execute_conserves(
    ledger: Ledger,
    instruction: TokenInstruction,
    accounts: Seq<AccountId>,
)
    requires
        ledger.finite(),
        !(instruction is Initialize),
        execute(ledger, instruction, accounts) is Ok,
    ensures
        execute(ledger, instruction, accounts).unwrap().0.finite(),
        execute(ledger, instruction, accounts).unwrap().0.total_balance()
            == ledger.total_balance(),
        execute(ledger, instruction, accounts).unwrap().0.total_supply == ledger.total_supply,
{
    if instruction is Transfer {
        ledger.lemma_transfer_conserves(
            accounts[0],
            accounts[1],
            instruction->Transfer_amount as nat,
        );
    }
}

/// Whether `execute_instruction` may be asked for this: the token is well
/// formed, and where the instruction goes through, every amount of the
/// ledger still fits in 64 bits.
pub open spec fn can_execute(
    token: &Token,
    instruction: TokenInstruction,
    accounts: Seq<AccountId>,
) -> bool {
    &&& token.wf()
    &&& execute(token@, instruction, accounts) matches Ok((after, _)) ==> after.representable()
}

/// Whether `process_instruction` may be asked for this: the bytes carry no
/// instruction, or one that `execute_instruction` may be asked for.
pub open spec fn can_process(token: &Token, accounts: Seq<AccountId>, data: Seq<u8>) -> bool {
    &&& token.wf()
    &&& decode(data) matches Some(instruction) ==> can_execute(token, instruction, accounts)
}

/// Applies one instruction to the token.
///
/// Returns the balance to report for `GetBalance` and `None` for the other
/// instructions. A rejected instruction leaves the token untouched.
pub fn execute_instruction(
    token: &mut Token,
    instruction: &TokenInstruction,
    accounts: &[AccountId],
) -> (result: Result<Option<u64>, TokenError>)
    requires
        can_execute(old(token), *instruction, accounts@),
    ensures
        final(token).wf(),
        (match execute(old(token)@, *instruction, accounts@) {
            Ok((after, report)) => final(token)@ == after && result is Ok && report_of(
                result.unwrap(),
            ) == report,
            Err(e) => result == Err::<Option<u64>, TokenError>(e) && *final(token) == *old(token),
        }),
{
    match *instruction {
        TokenInstruction::Initialize { total_supply } => {
            if accounts.len() < 1 {
                return Err(TokenError::NotEnoughAccounts);
            }
            token.initialize(total_supply, accounts[0]);
            Ok(None)
        },
        TokenInstruction::Transfer { amount } => {
            if accounts.len() < 2 {
                return Err(TokenError::NotEnoughAccounts);
            }
            match token.transfer(&accounts[0], &accounts[1], amount) {
                Ok(()) => Ok(None),
                Err(e) => Err(e),
            }
        },
        TokenInstruction::GetBalance => {
            if accounts.len() < 1 {
                return Err(TokenError::NotEnoughAccounts);
            }
            Ok(Some(token.get_balance(&accounts[0])))
        },
        TokenInstruction::Approve { spender, amount } => {
            if accounts.len() < 1 {
                return Err(TokenError::NotEnoughAccounts);
            }
            match token.approve(&accounts[0], &spender, amount) {
                Ok(()) => Ok(None),
                Err(e) => Err(e),
            }
        },
    }
}

/// Decodes one instruction and applies it to the token.
///
/// Bytes that carry no instruction are rejected as malformed; otherwise the
/// outcome is that of `execute_instruction`.
pub fn process_instruction(
    token: &mut Token,
    accounts: &[AccountId],
    instruction_data: &[u8],
) -> (result: Result<Option<u64>, TokenError>)
    requires
        can_process(old(token), accounts@, instruction_data@),
    ensures
        final(token).wf(),
        (match process(old(token)@, accounts@, instruction_data@) {
            Ok((after, report)) => final(token)@ == after && result is Ok && report_of(
                result.unwrap(),
            ) == report,
            Err(e) => result == Err::<Option<u64>, TokenError>(e) && *final(token) == *old(token),
        }),
{
    match TokenInstruction::unpack(instruction_data) {
        Ok(instruction) => execute_instruction(token, &instruction, accounts),
        Err(e) => Err(e),
    }
}

/// Whether `execute_instruction` may be asked for this.
pub fn instruction_fits(
    token: &Token,
    instruction: &TokenInstruction,
    accounts: &[AccountId],
) -> (ok: bool)
    ensures
        ok == can_execute(token, *instruction, accounts@),
{
    if !token.is_well_formed() {
        return false;
    }
    proof {
        token.lemma_representable();
    }
    match *instruction {
        TokenInstruction::Transfer { amount } => {
            if accounts.len() < 2 {
                true
            } else {
                token.transfer_fits(&accounts[0], &accounts[1], amount)
            }
        },
        _ => true,
    }
}

/// `process_instruction` for callers that cannot promise what it asks.
///
/// Checks the token and the instruction first. Where `process_instruction`
/// may be asked, this is `Some` of its result; where it may not, because
/// the token is not well formed or a balance would leave 64 bits, this is
/// `None` and the token is untouched.
pub fn process_instruction_checked(
    token: &mut Token,
    accounts: &[AccountId],
    instruction_data: &[u8],
) -> (result: Option<Result<Option<u64>, TokenError>>)
    ensures
        result is Some <==> can_process(old(token), accounts@, instruction_data@),
        result is None ==> *final(token) == *old(token),
        result matches Some(outcome) ==> final(token).wf() && (match process(
            old(token)@,
            accounts@,
            instruction_data@,
        ) {
            Ok((after, report)) => final(token)@ == after && outcome is Ok && report_of(
                outcome.unwrap(),
            ) == report,
            Err(e) => outcome == Err::<Option<u64>, TokenError>(e)
                && *final(token) == *old(token),
        }),
{
    match TokenInstruction::unpack(instruction_data) {
        Ok(instruction) => {
            if instruction_fits(token, &instruction, accounts) {
                Some(execute_instruction(token, &instruction, accounts))
            } else {
                None
            }
        },
        Err(e) => {
            if token.is_well_formed() {
                Some(Err(e))
            } else {
                None
            }
        },
    }
}

} // verus!
