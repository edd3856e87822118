//! The executable ledger.
//!
//! `Token` keeps each table as a list of entries and is viewed as a
//! [`Ledger`]. Every operation is proved to change that view exactly as the
//! operation of the same name on `Ledger` says.

use vstd::prelude::*;
use crate::account::AccountId;
use crate::error::TokenError;
use crate::ledger::Ledger;
use crate::table::{
    count_key, distinct_keys, has_key, lemma_count_key, lemma_sum_take_bounded,
    lemma_sum_take_next, lemma_table_of, lemma_table_push, lemma_table_update, sum_values,
    table_of,
};

verus! {

/// The allowance entries keyed by their (owner, spender) pair.
pub open spec fn keyed_by_pair(entries: Seq<(AccountId, AccountId, u64)>) -> Seq<
    ((AccountId, AccountId), u64),
> {
    Seq::new(entries.len(), |i: int| ((entries[i].0, entries[i].1), entries[i].2))
}

/// The state of one token.
#[derive(Clone, Debug, PartialEq, Eq)]
pub struct Token {
    /// Units minted by the last `initialize`.
    pub total_supply: u64,
    /// The account that received them.
    pub owner: AccountId,
    /// One entry per account that has ever held units.
    pub balances: Vec<(AccountId, u64)>,
    /// One entry per (owner, spender) pair that has an allowance.
    pub allowances: Vec<(AccountId, AccountId, u64)>,
}

impl View for Token {
    type V = Ledger;

    open spec fn view(&self) -> Ledger {
        Ledger {
            total_supply: self.total_supply as nat,
            owner: self.owner,
            balances: table_of(self.balances@),
            allowances: table_of(keyed_by_pair(self.allowances@)),
        }
    }
}

impl Token {
    /// The tables are maps: no account has two balance entries, and no
    /// (owner, spender) pair has two allowance entries.
    pub open spec fn wf(&self) -> bool {
        &&& distinct_keys(self.balances@)
        &&& distinct_keys(keyed_by_pair(self.allowances@))
    }

    /// How many allowance entries the pair (`owner`, `spender`) has.
    pub open spec fn allowance_entries(&self, owner: AccountId, spender: AccountId) -> nat {
        count_key(keyed_by_pair(self.allowances@), (owner, spender))
    }

    /// How many balance entries `account` has.
    pub open spec fn balance_entries(&self, account: AccountId) -> nat {
        count_key(self.balances@, account)
    }

    /// In a well-formed token a pair with an allowance has exactly one
    /// entry, and a pair without one has none.
    pub proof fn lemma_allowance_entries(&self, owner: AccountId, spender: AccountId)
        requires
            self.wf(),
        ensures
            self.allowance_entries(owner, spender) == (if self@.allowances.contains_key(
                (owner, spender),
            ) {
                1nat
            } else {
                0nat
            }),
    {
        lemma_table_of(keyed_by_pair(self.allowances@));
        lemma_count_key(keyed_by_pair(self.allowances@), (owner, spender));
    }

    /// In a well-formed token an account with a balance has exactly one
    /// entry, and an account without one has none.
    pub proof fn lemma_balance_entries(&self, account: AccountId)
        requires
            self.wf(),
        ensures
            self.balance_entries(account) == (if self@.balances.contains_key(account) {
                1nat
            } else {
                0nat
            }),
    {
        lemma_table_of(self.balances@);
        lemma_count_key(self.balances@, account);
    }

    /// Whatever a token holds fits in 64 bits.
    pub proof fn lemma_representable(&self)
        requires
            self.wf(),
        ensures
            self@.finite(),
            self@.representable(),
    {
        lemma_table_of(self.balances@);
        lemma_table_of(keyed_by_pair(self.allowances@));
    }

    /// A token that has not been initialized: no supply and empty tables.
    pub fn new(owner: AccountId) -> (token: Token)
        ensures
            token.wf(),
            token@ == Ledger::uninitialized(owner),
    {
        Token { total_supply: 0, owner, balances: Vec::new(), allowances: Vec::new() }
    }

    /// The position of the balance entry of `account`, if it has one.
    fn find_balance(&self, account: &AccountId) -> (found: Option<usize>)
        ensures
            (match found {
                Some(i) => i < self.balances@.len() && self.balances@[i as int].0 == *account,
                None => !has_key(self.balances@, *account),
            }),
    {
        let mut i: usize = 0;
        while i < self.balances.len()
            invariant
                i <= self.balances@.len(),
                forall|j: int| 0 <= j < i ==> self.balances@[j].0 != *account,
            decreases self.balances@.len() - i,
        {
            if self.balances[i].0 == *account {
                return Some(i);
            }
            i += 1;
        }
        None
    }

    /// Sets the supply and the owner, and credits the owner with the whole
    /// supply in place of whatever the owner held.
    pub fn initialize(&mut self, total_supply: u64, owner: AccountId)
        requires
            old(self).wf(),
        ensures
            final(self).wf(),
            final(self)@ == old(self)@.initialize(total_supply as nat, owner),
            final(self)@.total_balance() + old(self)@.balance_of(owner)
                == old(self)@.total_balance() + total_supply,
            old(self)@.total_balance() == old(self)@.balance_of(owner)
                ==> final(self)@.conserved(),
    {
        proof {
            lemma_table_of(self.balances@);
            self@.lemma_initialize_total(total_supply as nat, owner);
        }
        self.total_supply = total_supply;
        self.owner = owner;
        match self.find_balance(&owner) {
            Some(i) => {
                proof {
                    lemma_table_update(self.balances@, i as int, total_supply);
                }
                self.balances[i] = (owner, total_supply);
            },
            None => {
                proof {
                    lemma_table_push(self.balances@, owner, total_supply);
                }
                self.balances.push((owner, total_supply));
            },
        }
    }

    /// Moves `amount` units from `sender` to `recipient`.
    ///
    /// Fails with `UnknownAccount` unless both accounts have a balance
    /// entry, and with `InsufficientFunds` where the sender holds less than
    /// `amount`. A failed transfer changes nothing; a successful one debits
    /// the sender and credits the recipient, and leaves the sum of balances
    /// as it was.
    pub fn transfer(
        &mut self,
        sender: &AccountId,
        recipient: &AccountId,
        amount: u64,
    ) -> (result: Result<(), TokenError>)
        requires
            old(self).wf(),
            old(self)@.transfer(*sender, *recipient, amount as nat) matches Ok(after)
                ==> after.representable(),
        ensures
            final(self).wf(),
            (match old(self)@.transfer(*sender, *recipient, amount as nat) {
                Ok(after) => result == Ok::<(), TokenError>(()) && final(self)@ == after,
                Err(e) => result == Err::<(), TokenError>(e) && *final(self) == *old(self),
            }),
            final(self)@.total_balance() == old(self)@.total_balance(),
            old(self)@.conserved() ==> final(self)@.conserved(),
    {
        proof {
            lemma_table_of(self.balances@);
        }
        let sender_index: usize = match self.find_balance(sender) {
            Some(i) => i,
            None => {
                return Err(TokenError::UnknownAccount);
            },
        };
        let recipient_index: usize = match self.find_balance(recipient) {
            Some(i) => i,
            None => {
                return Err(TokenError::UnknownAccount);
            },
        };
        let held: u64 = self.balances[sender_index].1;
        if held < amount {
            return Err(TokenError::InsufficientFunds);
        }
        let ghost after = self@.transfer(*sender, *recipient, amount as nat).unwrap();
        proof {
            self@.lemma_transfer_conserves(*sender, *recipient, amount as nat);
            assert(after.balances.contains_key(*recipient));
            lemma_table_update(self.balances@, sender_index as int, (held - amount) as u64);
        }
        self.balances[sender_index] = (*sender, held - amount);
        let received: u64 = self.balances[recipient_index].1;
        proof {
            lemma_table_of(self.balances@);
            lemma_table_update(self.balances@, recipient_index as int, (received + amount) as u64);
        }
        self.balances[recipient_index] = (*recipient, received + amount);
        Ok(())
    }

    /// What `account` holds: the amount of its balance entry, or zero where
    /// it has none.
    pub fn get_balance(&self, account: &AccountId) -> (balance: u64)
        requires
            self.wf(),
        ensures
            balance == self@.balance_of(*account),
            !self@.balances.contains_key(*account) ==> balance == 0,
    {
        proof {
            lemma_table_of(self.balances@);
        }
        match self.find_balance(account) {
            Some(i) => self.balances[i].1,
            None => 0,
        }
    }

    /// The position of the allowance entry of the pair, if it has one.
    fn find_allowance(&self, owner: &AccountId, spender: &AccountId) -> (found: Option<usize>)
        ensures
            (match found {
                Some(i) => i < self.allowances@.len() && self.allowances@[i as int].0 == *owner
                    && self.allowances@[i as int].1 == *spender,
                None => !has_key(keyed_by_pair(self.allowances@), (*owner, *spender)),
            }),
    {
        let mut i: usize = 0;
        while i < self.allowances.len()
            invariant
                i <= self.allowances@.len(),
                forall|j: int|
                    0 <= j < i ==> keyed_by_pair(self.allowances@)[j].0 != (*owner, *spender),
            decreases self.allowances@.len() - i,
        {
            if self.allowances[i].0 == *owner && self.allowances[i].1 == *spender {
                return Some(i);
            }
            i += 1;
        }
        None
    }

    /// Lets `spender` move up to `amount` of `sender`'s units. The amount
    /// takes the place of any allowance the pair had; it is not added to it.
    /// Never fails, and the pair has exactly one entry afterwards.
    pub fn approve(
        &mut self,
        sender: &AccountId,
        spender: &AccountId,
        amount: u64,
    ) -> (result: Result<(), TokenError>)
        requires
            old(self).wf(),
        ensures
            result == Ok::<(), TokenError>(()),
            final(self).wf(),
            final(self)@ == old(self)@.approve(*sender, *spender, amount as nat),
            final(self).allowance_entries(*sender, *spender) == 1,
    {
        match self.find_allowance(sender, spender) {
            Some(index) => {
                proof {
                    let entries = keyed_by_pair(self.allowances@);
                    lemma_table_update(entries, index as int, amount);
                    assert(keyed_by_pair(
                        self.allowances@.update(index as int, (*sender, *spender, amount)),
                    ) =~= entries.update(index as int, ((*sender, *spender), amount)));
                }
                self.allowances[index] = (*sender, *spender, amount);
            },
            None => {
                proof {
                    let entries = keyed_by_pair(self.allowances@);
                    lemma_table_push(entries, (*sender, *spender), amount);
                    assert(keyed_by_pair(self.allowances@.push((*sender, *spender, amount)))
                        =~= entries.push(((*sender, *spender), amount)));
                }
                self.allowances.push((*sender, *spender, amount));
            },
        }
        proof {
            self.lemma_allowance_entries(*sender, *spender);
        }
        Ok(())
    }

    /// The sum of all balances, or `None` where it does not fit in 64 bits.
    pub fn total_balance(&self) -> (total: Option<u64>)
        requires
            self.wf(),
        ensures
            (match total {
                Some(sum) => sum == self@.total_balance(),
                None => self@.total_balance() > u64::MAX,
            }),
    {
        let mut sum: u64 = 0;
        let mut i: usize = 0;
        while i < self.balances.len()
            invariant
                i <= self.balances@.len(),
                distinct_keys(self.balances@),
                sum == sum_values(table_of(self.balances@.take(i as int))),
            decreases self.balances@.len() - i,
        {
            proof {
                lemma_sum_take_next(self.balances@, i as int);
                lemma_sum_take_bounded(self.balances@, i + 1);
            }
            match sum.checked_add(self.balances[i].1) {
                Some(next) => {
                    sum = next;
                },
                None => {
                    return None;
                },
            }
            i += 1;
        }
        proof {
            assert(self.balances@.take(i as int) =~= self.balances@);
        }
        Some(sum)
    }

    /// Whether no account has two balance entries.
    fn balances_distinct(&self) -> (ok: bool)
        ensures
            ok == distinct_keys(self.balances@),
    {
        let mut i: usize = 0;
        while i < self.balances.len()
            invariant
                i <= self.balances@.len(),
                forall|a: int, b: int|
                    0 <= a < b < i ==> self.balances@[a].0 != self.balances@[b].0,
            decreases self.balances@.len() - i,
        {
            let mut j: usize = 0;
            while j < i
                invariant
                    j <= i < self.balances@.len(),
                    forall|a: int| 0 <= a < j ==> self.balances@[a].0 != self.balances@[i as int].0,
                decreases i - j,
            {
                if self.balances[j].0 == self.balances[i].0 {
                    return false;
                }
                j += 1;
            }
            i += 1;
        }
        true
    }

    /// Whether no (owner, spender) pair has two allowance entries.
    fn allowances_distinct(&self) -> (ok: bool)
        ensures
            ok == distinct_keys(keyed_by_pair(self.allowances@)),
    {
        let ghost keyed = keyed_by_pair(self.allowances@);
        let mut i: usize = 0;
        while i < self.allowances.len()
            invariant
                i <= self.allowances@.len(),
                keyed == keyed_by_pair(self.allowances@),
                forall|a: int, b: int| 0 <= a < b < i ==> keyed[a].0 != keyed[b].0,
            decreases self.allowances@.len() - i,
        {
            let mut j: usize = 0;
            while j < i
                invariant
                    j <= i < self.allowances@.len(),
                    keyed == keyed_by_pair(self.allowances@),
                    forall|a: int| 0 <= a < j ==> keyed[a].0 != keyed[i as int].0,
                decreases i - j,
            {
                if self.allowances[j].0 == self.allowances[i].0 && self.allowances[j].1
                    == self.allowances[i].1 {
                    proof {
                        assert(keyed[j as int].0 == keyed[i as int].0);
                    }
                    return false;
                }
                j += 1;
            }
            i += 1;
        }
        true
    }

    /// Whether the tables are maps, as `wf` asks. A token built from stored
    /// fields can be checked with this before it is used.
    pub fn is_well_formed(&self) -> (ok: bool)
        ensures
            ok == self.wf(),
    {
        self.balances_distinct() && self.allowances_distinct()
    }

    /// Whether `transfer` may be asked for this: whether, where the transfer
    /// goes through, the recipient's new balance still fits in 64 bits.
    pub fn transfer_fits(
        &self,
        sender: &AccountId,
        recipient: &AccountId,
        amount: u64,
    ) -> (ok: bool)
        requires
            self.wf(),
        ensures
            ok == (self@.transfer(*sender, *recipient, amount as nat) matches Ok(after)
                ==> after.representable()),
    {
        proof {
            lemma_table_of(self.balances@);
            self.lemma_representable();
        }
        let sender_index: usize = match self.find_balance(sender) {
            Some(i) => i,
            None => {
                return true;
            },
        };
        let recipient_index: usize = match self.find_balance(recipient) {
            Some(i) => i,
            None => {
                return true;
            },
        };
        if self.balances[sender_index].1 < amount {
            return true;
        }
        let ghost after = self@.transfer(*sender, *recipient, amount as nat).unwrap();
        if sender_index == recipient_index {
            return true;
        }
        let fits: bool = self.balances[recipient_index].1 <= u64::MAX - amount;
        proof {
            assert(after.balances.contains_key(*recipient));
        }
        fits
    }
}

} // verus!
