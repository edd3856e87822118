//! The ledger as a mathematical object.
//!
//! A `Ledger` is the state of one token: its supply, its owner, and two
//! finite maps, from accounts to balances and from (owner, spender) pairs to
//! allowances. The operations below say what each instruction does to that
//! state; the executable `Token` is proved to do exactly this.

use vstd::prelude::*;
use crate::account::AccountId;
use crate::error::TokenError;
use crate::table::{lemma_sum_insert, lemma_sum_remove, sum_values};

verus! {

/// The state of one token.
#[verifier::ext_equal]
pub struct Ledger {
    /// Units minted by the last `initialize`.
    pub total_supply: nat,
    /// The account that received them.
    pub owner: AccountId,
    /// Units held, by account. An account without an entry holds nothing.
    pub balances: Map<AccountId, nat>,
    /// Units that a spender may move on an owner's behalf, by (owner, spender).
    pub allowances: Map<(AccountId, AccountId), nat>,
}

impl Ledger {
    /// The ledger before any instruction: no supply and empty tables.
    pub open spec fn uninitialized(owner: AccountId) -> Ledger {
        Ledger { total_supply: 0, owner, balances: Map::empty(), allowances: Map::empty() }
    }

    /// Only finitely many accounts have a balance entry.
    pub open spec fn finite(self) -> bool {
        self.balances.dom().finite()
    }

    /// Every amount of the ledger fits in 64 bits.
    pub open spec fn representable(self) -> bool {
        &&& self.total_supply <= u64::MAX
        &&& forall|account: AccountId| #[trigger]
            self.balances.contains_key(account) ==> self.balances[account] <= u64::MAX
        &&& forall|pair: (AccountId, AccountId)| #[trigger]
            self.allowances.contains_key(pair) ==> self.allowances[pair] <= u64::MAX
    }

    /// The sum of all balances.
    pub open spec fn total_balance(self) -> nat {
        sum_values(self.balances)
    }

    /// The balances add up to the supply.
    pub open spec fn conserved(self) -> bool {
        self.total_balance() == self.total_supply
    }

    /// What `account` holds: its entry, or zero where it has none.
    pub open spec fn balance_of(self, account: AccountId) -> nat {
        if self.balances.contains_key(account) {
            self.balances[account]
        } else {
            0
        }
    }

    /// Sets the supply and the owner, and sets the owner's balance to the
    /// whole supply, whatever the owner held before.
    pub open spec fn initialize(self, total_supply: nat, owner: AccountId) -> Ledger {
        Ledger {
            total_supply,
            owner,
            balances: self.balances.insert(owner, total_supply),
            allowances: self.allowances,
        }
    }

    /// Moves `amount` from `sender` to `recipient`.
    ///
    /// Both must have a balance entry, and the sender must hold at least
    /// `amount`. The sender is debited first, so a transfer to oneself
    /// leaves the balance as it was.
    pub open spec fn transfer(
        self,
        sender: AccountId,
        recipient: AccountId,
        amount: nat,
    ) -> Result<Ledger, TokenError> {
        if !self.balances.contains_key(sender) || !self.balances.contains_key(recipient) {
            Err(TokenError::UnknownAccount)
        } else if self.balances[sender] < amount {
            Err(TokenError::InsufficientFunds)
        } else {
            let debited = self.balances.insert(sender, (self.balances[sender] - amount) as nat);
            let credited = debited.insert(recipient, debited[recipient] + amount);
            Ok(
                Ledger {
                    total_supply: self.total_supply,
                    owner: self.owner,
                    balances: credited,
                    allowances: self.allowances,
                },
            )
        }
    }

    /// Sets the allowance of `spender` on `owner`'s units to `amount`, in
    /// place of any allowance the pair had.
    pub open spec fn approve(self, owner: AccountId, spender: AccountId, amount: nat) -> Ledger {
        Ledger {
            total_supply: self.total_supply,
            owner: self.owner,
            balances: self.balances,
            allowances: self.allowances.insert((owner, spender), amount),
        }
    }

    /// The ledger after a list of transfer requests, each given as (sender,
    /// recipient, amount) and applied in order. A request that is rejected
    /// leaves the ledger as it was.
    pub open spec fn transfer_all(self, requests: Seq<(AccountId, AccountId, nat)>) -> Ledger
        decreases requests.len(),
    {
        if requests.len() == 0 {
            self
        } else {
            let before = self.transfer_all(requests.drop_last());
            let request = requests.last();
            match before.transfer(request.0, request.1, request.2) {
                Ok(after) => after,
                Err(_) => before,
            }
        }
    }

    /// Initializing changes the sum of balances by what the owner gains
    /// over the balance held before.
    pub proof fn lemma_initialize_total(self, total_supply: nat, owner: AccountId)
        requires
            self.finite(),
        ensures
            self.initialize(total_supply, owner).finite(),
            self.initialize(total_supply, owner).total_balance() + self.balance_of(owner)
                == self.total_balance() + total_supply,
    {
        lemma_sum_insert(self.balances, owner, total_supply);
        if self.balances.contains_key(owner) {
            lemma_sum_remove(self.balances, owner);
        } else {
            assert(self.balances.remove(owner) =~= self.balances);
        }
    }

    /// A transfer moves units and neither makes nor destroys them: the sum
    /// of balances and the supply are the same before and after.
    pub proof fn lemma_transfer_conserves(
        self,
        sender: AccountId,
        recipient: AccountId,
        amount: nat,
    )
        requires
            self.finite(),
            self.transfer(sender, recipient, amount) is Ok,
        ensures
            self.transfer(sender, recipient, amount).unwrap().finite(),
            self.transfer(sender, recipient, amount).unwrap().total_balance()
                == self.total_balance(),
            self.transfer(sender, recipient, amount).unwrap().total_supply == self.total_supply,
    {
        let debited = self.balances.insert(sender, (self.balances[sender] - amount) as nat);
        let credited = debited.insert(recipient, debited[recipient] + amount);
        lemma_sum_remove(self.balances, sender);
        lemma_sum_insert(self.balances, sender, (self.balances[sender] - amount) as nat);
        lemma_sum_remove(debited, recipient);
        lemma_sum_insert(debited, recipient, debited[recipient] + amount);
    }

    /// Where the sum of balances fits in 64 bits, so does every balance
    /// after a transfer: a ledger whose balances add up to its supply never
    /// overflows.
    pub proof fn lemma_transfer_representable(
        self,
        sender: AccountId,
        recipient: AccountId,
        amount: nat,
    )
        requires
            self.finite(),
            self.representable(),
            self.total_balance() <= u64::MAX,
            self.transfer(sender, recipient, amount) is Ok,
        ensures
            self.transfer(sender, recipient, amount).unwrap().representable(),
    {
        if sender != recipient {
            self.lemma_pair_within_total(sender, recipient);
        }
    }

    /// Any two accounts together hold no more than the sum of balances.
    pub proof fn lemma_pair_within_total(self, a: AccountId, b: AccountId)
        requires
            self.finite(),
            self.balances.contains_key(a),
            self.balances.contains_key(b),
            a != b,
        ensures
            self.balances[a] + self.balances[b] <= self.total_balance(),
    {
        lemma_sum_remove(self.balances, a);
        lemma_sum_remove(self.balances.remove(a), b);
    }

    /// Conservation across a list of transfers: whatever is requested, the
    /// sum of balances and the supply end as they began.
    pub proof fn lemma_transfer_all_conserves(self, requests: Seq<(AccountId, AccountId, nat)>)
        requires
            self.finite(),
        ensures
            self.transfer_all(requests).finite(),
            self.transfer_all(requests).total_balance() == self.total_balance(),
            self.transfer_all(requests).total_supply == self.total_supply,
        decreases requests.len(),
    {
        if requests.len() > 0 {
            self.lemma_transfer_all_conserves(requests.drop_last());
            let before = self.transfer_all(requests.drop_last());
            let request = requests.last();
            if before.transfer(request.0, request.1, request.2) is Ok {
                before.lemma_transfer_conserves(request.0, request.1, request.2);
            }
        }
    }

    /// Conservation: after one `initialize` of a ledger that was never
    /// used, and any list of transfers after it, the balances add up to the
    /// supply at every point of the list.
    pub proof fn lemma_conservation(
        first_owner: AccountId,
        total_supply: nat,
        owner: AccountId,
        requests: Seq<(AccountId, AccountId, nat)>,
    )
        ensures
            forall|n: int|
                0 <= n <= requests.len() ==> (#[trigger] Ledger::uninitialized(
                    first_owner,
                ).initialize(total_supply, owner).transfer_all(requests.take(n))).conserved(),
    {
        let fresh = Ledger::uninitialized(first_owner);
        let start = fresh.initialize(total_supply, owner);
        fresh.lemma_initialize_total(total_supply, owner);
        assert forall|n: int| 0 <= n <= requests.len() implies (#[trigger] start.transfer_all(
            requests.take(n),
        )).conserved() by {
            start.lemma_transfer_all_conserves(requests.take(n));
        }
    }

    /// No overdraft: a transfer of more than the sender holds is rejected
    /// for insufficient funds, so no balance is ever taken below zero.
    pub proof fn lemma_overdraft_rejected(
        self,
        sender: AccountId,
        recipient: AccountId,
        amount: nat,
    )
        requires
            self.balances.contains_key(sender),
            self.balances.contains_key(recipient),
            amount > self.balances[sender],
        ensures
            self.transfer(sender, recipient, amount) == Err::<Ledger, TokenError>(
                TokenError::InsufficientFunds,
            ),
    {
    }

    /// A transfer that succeeds takes the amount from the sender and gives
    /// it to the recipient; every other balance, and each of the two when
    /// sender and recipient are the same account, stays as it was.
    pub proof fn lemma_transfer_balances(
        self,
        sender: AccountId,
        recipient: AccountId,
        amount: nat,
    )
        requires
            self.transfer(sender, recipient, amount) is Ok,
        ensures
            ({
                let after = self.transfer(sender, recipient, amount).unwrap();
                &&& amount <= self.balance_of(sender)
                &&& after.balances.dom() == self.balances.dom()
                &&& sender != recipient ==> after.balance_of(sender) == self.balance_of(sender)
                    - amount
                &&& sender != recipient ==> after.balance_of(recipient) == self.balance_of(
                    recipient,
                ) + amount
                &&& sender == recipient ==> after.balance_of(sender) == self.balance_of(sender)
                &&& forall|other: AccountId|
                    other != sender && other != recipient ==> after.balance_of(other)
                        == self.balance_of(other)
            }),
    {
    }

    /// Approving twice is approving once with the second amount: the pair
    /// has a single allowance, the one set last.
    pub proof fn lemma_approve_overwrites(
        self,
        owner: AccountId,
        spender: AccountId,
        first: nat,
        second: nat,
    )
        ensures
            self.approve(owner, spender, first).approve(owner, spender, second) == self.approve(
                owner,
                spender,
                second,
            ),
            self.approve(owner, spender, first).approve(owner, spender, second).allowances[(
                owner,
                spender,
            )] == second,
    {
    }

    /// An account that was never credited holds zero: every balance of an
    /// unused ledger is zero, and so is the balance of any account without
    /// an entry.
    pub proof fn lemma_zero_balance_default(self, account: AccountId, first_owner: AccountId)
        ensures
            Ledger::uninitialized(first_owner).balance_of(account) == 0,
            !self.balances.contains_key(account) ==> self.balance_of(account) == 0,
    {
    }

    /// Only `initialize` gives an account its first entry: after a transfer
    /// or an approval, an account that had no entry still has none.
    pub proof fn lemma_entries_stay(
        self,
        sender: AccountId,
        recipient: AccountId,
        spender: AccountId,
        amount: nat,
    )
        ensures
            self.approve(sender, spender, amount).balances == self.balances,
            self.transfer(sender, recipient, amount) matches Ok(after) ==> after.balances.dom()
                == self.balances.dom(),
    {
    }
}

} // verus!
