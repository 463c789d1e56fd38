//! Accounts and the account state: balances, nonces, transfers, and the
//! staking ledger.

use crate::assoc::{assoc_find, assoc_unique};
use crate::types::transaction::spec_sat_add;
use crate::types::{address_eq, Address, Amount, ConsensusError, Nonce};
use vstd::prelude::*;

verus! {

/// An account: its balance, transaction counter, and contract payload.
#[derive(Debug, Clone, PartialEq, Eq)]
pub struct Account {
    pub address: Address,
    pub balance: Amount,
    pub nonce: Nonce,
    pub code: Vec<u8>,
}

impl Account {
    pub fn new(address: Address, balance: Amount) -> (r: Self)
        ensures
            r.address == address,
            r.balance == balance,
            r.nonce == 0,
            r.code@.len() == 0,
    {
        Account { address, balance, nonce: 0, code: Vec::new() }
    }

    /// Whether the account carries contract code.
    pub fn is_contract(&self) -> (r: bool)
        ensures
            r == (self.code@.len() != 0),
    {
        !self.code.is_empty()
    }

    /// Counts one more transaction, saturating at the largest counter.
    pub fn increment_nonce(&mut self)
        ensures
            final(self).nonce == spec_sat_add(old(self).nonce, 1),
            final(self).address == old(self).address,
            final(self).balance == old(self).balance,
            final(self).code == old(self).code,
    {
        self.nonce = self.nonce.saturating_add(1);
    }

    /// Takes an amount out of the balance; fails when it is not covered.
    pub fn debit(&mut self, amount: Amount) -> (r: Result<(), ConsensusError>)
        ensures
            r is Ok <==> old(self).balance >= amount,
            r is Ok ==> final(self).balance == old(self).balance - amount,
            r is Err ==> *final(self) == *old(self) && r->Err_0
                == ConsensusError::InsufficientStake,
            final(self).address == old(self).address,
            final(self).nonce == old(self).nonce,
            final(self).code == old(self).code,
    {
        if self.balance < amount {
            return Err(ConsensusError::InsufficientStake);
        }
        self.balance = self.balance - amount;
        Ok(())
    }

    /// Adds an amount to the balance, saturating at the largest amount.
    pub fn credit(&mut self, amount: Amount)
        ensures
            final(self).balance == spec_sat_add(old(self).balance, amount),
            final(self).address == old(self).address,
            final(self).nonce == old(self).nonce,
            final(self).code == old(self).code,
    {
        self.balance = self.balance.saturating_add(amount);
    }
}

/// One stake bond: who bonded how much to which validator.
#[derive(Debug, Clone, Copy, PartialEq, Eq)]
pub struct StakeInfo {
    pub amount: Amount,
    pub validator: Address,
    pub delegator: Address,
    pub rewards: Amount,
    pub unbonding_height: Option<u64>,
}

/// One unbonding pass over a delegator's bonds: each matching active bond
/// gives up as much as still needed and starts unbonding; what is still
/// needed afterwards comes second.
pub open spec fn spec_unstake_list(
    list: Seq<StakeInfo>,
    validator: Address,
    remaining: u64,
    unbonding_height: u64,
) -> (Seq<StakeInfo>, u64)
    decreases list.len(),
{
    if list.len() == 0 {
        (Seq::empty(), remaining)
    } else {
        let s = list.first();
        let (ns, rem2) = if s.validator == validator && s.unbonding_height is None && remaining
            > 0 {
            let taken = if remaining < s.amount {
                remaining
            } else {
                s.amount
            };
            (
                StakeInfo {
                    amount: (s.amount - taken) as u64,
                    unbonding_height: Some(unbonding_height),
                    ..s
                },
                (remaining - taken) as u64,
            )
        } else {
            (s, remaining)
        };
        let (rest, rem3) = spec_unstake_list(list.drop_first(), validator, rem2, unbonding_height);
        (seq![ns] + rest, rem3)
    }
}

/// The bonds that still hold an amount, in order.
pub open spec fn spec_nonempty_stakes(list: Seq<StakeInfo>) -> Seq<StakeInfo>
    decreases list.len(),
{
    if list.len() == 0 {
        Seq::empty()
    } else {
        let rest = spec_nonempty_stakes(list.drop_last());
        if list.last().amount > 0 {
            rest.push(list.last())
        } else {
            rest
        }
    }
}

/// The total a delegator still has bonded and not unbonding.
pub open spec fn spec_active_stake_sum(list: Seq<StakeInfo>) -> u64
    decreases list.len(),
{
    if list.len() == 0 {
        0u64
    } else {
        let rest = spec_active_stake_sum(list.drop_last());
        if list.last().unbonding_height is None {
            spec_sat_add(rest, list.last().amount)
        } else {
            rest
        }
    }
}

/// The total bonded to one validator and not unbonding, within one list.
pub open spec fn spec_validator_stake_sum(list: Seq<StakeInfo>, validator: Address) -> u64
    decreases list.len(),
{
    if list.len() == 0 {
        0u64
    } else {
        let rest = spec_validator_stake_sum(list.drop_last(), validator);
        if list.last().validator == validator && list.last().unbonding_height is None {
            spec_sat_add(rest, list.last().amount)
        } else {
            rest
        }
    }
}

/// The total bonded to one validator across all delegators.
pub open spec fn spec_validator_stake_total(
    stakes: Seq<(Address, Vec<StakeInfo>)>,
    validator: Address,
) -> u64
    decreases stakes.len(),
{
    if stakes.len() == 0 {
        0u64
    } else {
        spec_sat_add(
            spec_validator_stake_total(stakes.drop_last(), validator),
            spec_validator_stake_sum(stakes.last().1@, validator),
        )
    }
}

/// The world of accounts: balances and the staking ledger.
#[derive(Debug, Clone, PartialEq, Eq)]
pub struct AccountState {
    pub accounts: Vec<(Address, Account)>,
    pub stakes: Vec<(Address, Vec<StakeInfo>)>,
    pub total_supply: Amount,
}

impl AccountState {
    /// Accounts and stake lists each sit under one address.
    pub open spec fn wf(&self) -> bool {
        assoc_unique(self.accounts@) && assoc_unique(self.stakes@) && forall|i: int|
            0 <= i < self.accounts@.len() ==> (#[trigger] self.accounts@[i]).0
                == self.accounts@[i].1.address
    }

    /// The account under an address.
    pub open spec fn spec_account(&self, address: Address) -> Option<Account> {
        assoc_find(self.accounts@, address)
    }

    /// The bonds of a delegator.
    pub open spec fn spec_stakes(&self, address: Address) -> Seq<StakeInfo> {
        match assoc_find(self.stakes@, address) {
            Some(v) => v@,
            None => Seq::empty(),
        }
    }

    pub fn new() -> (r: Self)
        ensures
            r.wf(),
            r.accounts@.len() == 0,
            r.stakes@.len() == 0,
            r.total_supply == 0,
    {
        AccountState { accounts: Vec::new(), stakes: Vec::new(), total_supply: 0 }
    }

    /// The position of an account.
    fn find_account_index(&self, address: &Address) -> (r: Option<usize>)
        requires
            assoc_unique(self.accounts@),
        ensures
            match r {
                Some(i) => i < self.accounts@.len() && self.accounts@[i as int].0 == *address
                    && assoc_find(self.accounts@, *address) == Some(self.accounts@[i as int].1),
                None => assoc_find(self.accounts@, *address) is None,
            },
    {
        let mut i: usize = 0;
        while i < self.accounts.len()
            invariant
                assoc_unique(self.accounts@),
                i <= self.accounts@.len(),
                forall|j: int| 0 <= j < i ==> (#[trigger] self.accounts@[j]).0 != *address,
            decreases self.accounts@.len() - i,
        {
            if address_eq(&self.accounts[i].0, address) {
                proof {
                    crate::assoc::lemma_assoc_unique_at(self.accounts@, i as int);
                }
                return Some(i);
            }
            i += 1;
        }
        proof {
            crate::assoc::lemma_assoc_find_none(self.accounts@, *address);
        }
        None
    }

    /// The account under an address, if any.
    pub fn get_account(&self, address: &Address) -> (r: Option<&Account>)
        requires
            self.wf(),
        ensures
            match r {
                Some(a) => self.spec_account(*address) == Some(*a),
                None => self.spec_account(*address) is None,
            },
    {
        match self.find_account_index(address) {
            Some(i) => Some(&self.accounts[i].1),
            None => None,
        }
    }

    /// The account under an address, writable, if any.
    pub fn get_account_mut(&mut self, address: &Address) -> (r: Option<&mut Account>)
        requires
            old(self).wf(),
        ensures
            match r {
                Some(a) => old(self).spec_account(*address) == Some(*a),
                None => old(self).spec_account(*address) is None && *final(self) == *old(self),
            },
    {
        match self.find_account_index(address) {
            Some(i) => Some(&mut self.accounts[i].1),
            None => None,
        }
    }

    /// Creates (or replaces) the account under an address and counts its
    /// opening balance into the supply.
    pub fn create_account(&mut self, address: Address, initial_balance: Amount)
        requires
            old(self).wf(),
        ensures
            final(self).wf(),
            final(self).spec_account(address) is Some,
            final(self).spec_account(address)->0.balance == initial_balance,
            final(self).spec_account(address)->0.nonce == 0,
            final(self).spec_account(address)->0.code@.len() == 0,
            forall|a: Address|
                a != address ==> #[trigger] final(self).spec_account(a) == old(self).spec_account(
                    a,
                ),
            final(self).total_supply == spec_sat_add(old(self).total_supply, initial_balance),
            final(self).stakes == old(self).stakes,
    {
        let account = Account::new(address, initial_balance);
        match self.find_account_index(&address) {
            Some(i) => {
                let ghost prev = self.accounts@;
                self.accounts.set(i, (address, account));
                proof {
                    crate::assoc::lemma_assoc_find_update(
                        prev,
                        i as int,
                        self.accounts@[i as int].1,
                        address,
                    );
                    assert forall|a: Address| a != address implies #[trigger] assoc_find(
                        self.accounts@,
                        a,
                    ) == assoc_find(prev, a) by {
                        crate::assoc::lemma_assoc_find_update(
                            prev,
                            i as int,
                            self.accounts@[i as int].1,
                            a,
                        );
                    }
                    assert(assoc_unique(self.accounts@));
                }
            },
            None => {
                let ghost prev = self.accounts@;
                self.accounts.push((address, account));
                proof {
                    crate::assoc::lemma_assoc_find_push(
                        prev,
                        address,
                        self.accounts@.last().1,
                        address,
                    );
                    crate::assoc::lemma_assoc_find_none(prev, address);
                    assert forall|a: Address| a != address implies #[trigger] assoc_find(
                        self.accounts@,
                        a,
                    ) == assoc_find(prev, a) by {
                        crate::assoc::lemma_assoc_find_push(
                            prev,
                            address,
                            self.accounts@.last().1,
                            a,
                        );
                    }
                    assert forall|i2: int, j2: int|
                        0 <= i2 < j2 < self.accounts@.len() implies self.accounts@[i2].0
                        != self.accounts@[j2].0 by {
                        if j2 == self.accounts@.len() - 1 {
                            assert(self.accounts@[i2] == prev[i2]);
                        }
                    }
                }
            },
        }
        self.total_supply = self.total_supply.saturating_add(initial_balance);
    }

    /// Moves an amount between two accounts, opening the recipient's where
    /// it is missing; fails when the sender is missing or short.
    pub fn transfer(&mut self, from: &Address, to: &Address, amount: Amount) -> (r: Result<
        (),
        ConsensusError,
    >)
        requires
            old(self).wf(),
        ensures
            final(self).wf(),
            r is Ok <==> (old(self).spec_account(*from) is Some && old(self).spec_account(
                *from,
            )->0.balance >= amount),
            r is Err ==> *final(self) == *old(self) && (r->Err_0 == ConsensusError::NotFound
                || r->Err_0 == ConsensusError::InsufficientStake),
            r is Err && old(self).spec_account(*from) is None ==> r->Err_0
                == ConsensusError::NotFound,
            r is Ok ==> final(self).stakes == old(self).stakes,
            r is Ok && *from != *to ==> {
                let sender = old(self).spec_account(*from)->0;
                let recipient_balance = match old(self).spec_account(*to) {
                    Some(a) => a.balance,
                    None => 0u64,
                };
                &&& final(self).spec_account(*from) is Some
                &&& final(self).spec_account(*from)->0.balance == sender.balance - amount
                &&& final(self).spec_account(*to) is Some
                &&& final(self).spec_account(*to)->0.balance == spec_sat_add(
                    recipient_balance,
                    amount,
                )
                &&& forall|a: Address|
                    a != *from && a != *to ==> #[trigger] final(self).spec_account(a) == old(
                        self,
                    ).spec_account(a)
            },
            r is Ok && *from == *to ==> {
                let sender = old(self).spec_account(*from)->0;
                &&& final(self).spec_account(*from) is Some
                &&& final(self).spec_account(*from)->0.balance == spec_sat_add(
                    (sender.balance - amount) as u64,
                    amount,
                )
                &&& forall|a: Address|
                    a != *from ==> #[trigger] final(self).spec_account(a) == old(
                        self,
                    ).spec_account(a)
            },
    {
        // the sender must exist and cover the amount
        let sender_balance = match self.get_account(from) {
            Some(a) => a.balance,
            None => {
                return Err(ConsensusError::NotFound);
            },
        };
        if sender_balance < amount {
            return Err(ConsensusError::InsufficientStake);
        }

        // open the recipient's account where it is missing
        if self.find_account_index(to).is_none() {
            proof {
                if *from == *to {
                    assert(old(self).spec_account(*from) is Some);
                    assert(false);
                }
            }
            self.create_account(*to, 0);
        }
        proof {
            assert(self.spec_account(*from) == old(self).spec_account(*from));
            assert(self.spec_account(*to) is Some);
        }
        let ghost mid = *self;

        match self.find_account_index(from) {
            Some(i) => {
                let ghost prev = self.accounts@;
                let mut sender = self.accounts[i].1.clone_account();
                let res = sender.debit(amount);
                proof {
                    assert(res is Ok);
                }
                let from_key = self.accounts[i].0;
                self.accounts.set(i, (from_key, sender));
                proof {
                    crate::assoc::lemma_assoc_find_update(
                        prev,
                        i as int,
                        self.accounts@[i as int].1,
                        *from,
                    );
                    assert forall|a: Address| a != *from implies #[trigger] assoc_find(
                        self.accounts@,
                        a,
                    ) == assoc_find(prev, a) by {
                        crate::assoc::lemma_assoc_find_update(
                            prev,
                            i as int,
                            self.accounts@[i as int].1,
                            a,
                        );
                    }
                    assert(assoc_unique(self.accounts@));
                }
            },
            None => {
                proof {
                    assert(false);
                }
            },
        }
        let ghost mid2 = *self;
        proof {
            if *to == *from {
                assert(self.spec_account(*to) is Some);
            } else {
                assert(self.spec_account(*to) == mid.spec_account(*to));
            }
        }

        match self.find_account_index(to) {
            Some(j) => {
                let ghost prev = self.accounts@;
                let mut recipient = self.accounts[j].1.clone_account();
                recipient.credit(amount);
                let to_key = self.accounts[j].0;
                self.accounts.set(j, (to_key, recipient));
                proof {
                    crate::assoc::lemma_assoc_find_update(
                        prev,
                        j as int,
                        self.accounts@[j as int].1,
                        *to,
                    );
                    assert forall|a: Address| a != *to implies #[trigger] assoc_find(
                        self.accounts@,
                        a,
                    ) == assoc_find(prev, a) by {
                        crate::assoc::lemma_assoc_find_update(
                            prev,
                            j as int,
                            self.accounts@[j as int].1,
                            a,
                        );
                    }
                    assert(assoc_unique(self.accounts@));
                }
            },
            None => {
                proof {
                    assert(false);
                }
            },
        }
        proof {
            if *from != *to {
                assert(self.spec_account(*to) is Some);
                assert(self.spec_account(*from) == mid2.spec_account(*from));
                assert(mid2.spec_account(*from) is Some);
                assert(mid2.spec_account(*from)->0.balance == old(self).spec_account(
                    *from,
                )->0.balance - amount);
                assert forall|a: Address|
                    a != *from && a != *to implies #[trigger] self.spec_account(a) == old(
                    self,
                ).spec_account(a) by {
                    assert(self.spec_account(a) == mid2.spec_account(a));
                    assert(mid2.spec_account(a) == mid.spec_account(a));
                    assert(mid.spec_account(a) == old(self).spec_account(a));
                }
            } else {
                assert forall|a: Address| a != *from implies #[trigger] self.spec_account(a)
                    == old(self).spec_account(a) by {
                    assert(self.spec_account(a) == mid2.spec_account(a));
                    assert(mid2.spec_account(a) == mid.spec_account(a));
                    assert(mid.spec_account(a) == old(self).spec_account(a));
                }
            }
        }
        Ok(())
    }

    /// Bonds an amount from a delegator to a validator; fails when the
    /// delegator is missing or short.
    pub fn stake(&mut self, delegator: Address, validator: Address, amount: Amount) -> (r: Result<
        (),
        ConsensusError,
    >)
        requires
            old(self).wf(),
        ensures
            final(self).wf(),
            r is Ok <==> (old(self).spec_account(delegator) is Some && old(self).spec_account(
                delegator,
            )->0.balance >= amount),
            r is Err ==> *final(self) == *old(self) && (r->Err_0 == ConsensusError::NotFound
                || r->Err_0 == ConsensusError::InsufficientStake),
            r is Ok ==> {
                &&& final(self).spec_account(delegator) is Some
                &&& final(self).spec_account(delegator)->0.balance == old(self).spec_account(
                    delegator,
                )->0.balance - amount
                &&& forall|a: Address|
                    a != delegator ==> #[trigger] final(self).spec_account(a) == old(
                        self,
                    ).spec_account(a)
                &&& final(self).spec_stakes(delegator) == old(self).spec_stakes(delegator).push(
                    StakeInfo {
                        amount,
                        validator,
                        delegator,
                        rewards: 0,
                        unbonding_height: None,
                    },
                )
                &&& forall|a: Address|
                    a != delegator ==> #[trigger] assoc_find(final(self).stakes@, a) == assoc_find(
                        old(self).stakes@,
                        a,
                    )
            },
    {
        let delegator_balance = match self.get_account(&delegator) {
            Some(a) => a.balance,
            None => {
                return Err(ConsensusError::NotFound);
            },
        };
        if delegator_balance < amount {
            return Err(ConsensusError::InsufficientStake);
        }

        match self.find_account_index(&delegator) {
            Some(i) => {
                let ghost prev = self.accounts@;
                let mut account = self.accounts[i].1.clone_account();
                let res = account.debit(amount);
                proof {
                    assert(res is Ok);
                }
                let key = self.accounts[i].0;
                self.accounts.set(i, (key, account));
                proof {
                    crate::assoc::lemma_assoc_find_update(
                        prev,
                        i as int,
                        self.accounts@[i as int].1,
                        delegator,
                    );
                    assert forall|a: Address| a != delegator implies #[trigger] assoc_find(
                        self.accounts@,
                        a,
                    ) == assoc_find(prev, a) by {
                        crate::assoc::lemma_assoc_find_update(
                            prev,
                            i as int,
                            self.accounts@[i as int].1,
                            a,
                        );
                    }
                    assert(assoc_unique(self.accounts@));
                }
            },
            None => {
                proof {
                    assert(false);
                }
            },
        }

        let stake_info = StakeInfo { amount, validator, delegator, rewards: 0, unbonding_height: None };
        self.push_stake(delegator, stake_info);
        Ok(())
    }

    /// The position of a delegator's bonds.
    fn find_stakes_index(&self, address: &Address) -> (r: Option<usize>)
        requires
            assoc_unique(self.stakes@),
        ensures
            match r {
                Some(i) => i < self.stakes@.len() && self.stakes@[i as int].0 == *address
                    && assoc_find(self.stakes@, *address) == Some(self.stakes@[i as int].1),
                None => assoc_find(self.stakes@, *address) is None,
            },
    {
        let mut i: usize = 0;
        while i < self.stakes.len()
            invariant
                assoc_unique(self.stakes@),
                i <= self.stakes@.len(),
                forall|j: int| 0 <= j < i ==> (#[trigger] self.stakes@[j]).0 != *address,
            decreases self.stakes@.len() - i,
        {
            if address_eq(&self.stakes[i].0, address) {
                proof {
                    crate::assoc::lemma_assoc_unique_at(self.stakes@, i as int);
                }
                return Some(i);
            }
            i += 1;
        }
        proof {
            crate::assoc::lemma_assoc_find_none(self.stakes@, *address);
        }
        None
    }

    /// Unbonds an amount from a delegator's bonds to a validator: matching
    /// active bonds give up stake front to back and start unbonding, and
    /// emptied bonds are dropped. Fails with NotFound when the delegator has
    /// no bonds and with InsufficientStake when the active bonds to the
    /// validator cannot cover the amount; a failed call changes nothing.
    #[verifier::rlimit(50)]
    pub fn unstake(
        &mut self,
        delegator: Address,
        validator: Address,
        amount: Amount,
        unbonding_height: u64,
    ) -> (r: Result<(), ConsensusError>)
        requires
            old(self).wf(),
        ensures
            final(self).wf(),
            final(self).accounts == old(self).accounts,
            final(self).total_supply == old(self).total_supply,
            forall|a: Address|
                a != delegator ==> #[trigger] assoc_find(final(self).stakes@, a) == assoc_find(
                    old(self).stakes@,
                    a,
                ),
            r is Err ==> *final(self) == *old(self),
            ({
                let found = assoc_find(old(self).stakes@, delegator);
                if found is None {
                    r == Err::<(), ConsensusError>(ConsensusError::NotFound)
                } else if spec_validator_stake_sum(found->0@, validator) < amount {
                    r == Err::<(), ConsensusError>(ConsensusError::InsufficientStake)
                } else {
                    let updated = spec_unstake_list(
                        found->0@,
                        validator,
                        amount,
                        unbonding_height,
                    ).0;
                    r is Ok && final(self).spec_stakes(delegator) == spec_nonempty_stakes(updated)
                }
            }),
    {
        let idx = match self.find_stakes_index(&delegator) {
            Some(i) => i,
            None => {
                return Err(ConsensusError::NotFound);
            },
        };
        let ghost prev_stakes = self.stakes@;
        let ghost orig = self.stakes@[idx as int].1@;

        // the active bonds to the validator must cover the amount before
        // anything is touched: a failed call changes nothing
        let covered = {
            let bonds = &self.stakes[idx].1;
            let mut total: u64 = 0;
            let mut t: usize = 0;
            while t < bonds.len()
                invariant
                    t <= bonds@.len(),
                    total == spec_validator_stake_sum(bonds@.take(t as int), validator),
                decreases bonds@.len() - t,
            {
                proof {
                    assert(bonds@.take(t as int + 1).drop_last() =~= bonds@.take(t as int));
                    assert(bonds@.take(t as int + 1).last() == bonds@[t as int]);
                }
                let keep = address_eq(&bonds[t].validator, &validator) && bonds[t].unbonding_height
                    .is_none();
                if keep {
                    total = total.saturating_add(bonds[t].amount);
                }
                t += 1;
            }
            proof {
                assert(bonds@.take(bonds@.len() as int) =~= bonds@);
            }
            total
        };
        if covered < amount {
            return Err(ConsensusError::InsufficientStake);
        }

        // take the list out to work on it
        let mut entry: (Address, Vec<StakeInfo>) = (delegator, Vec::new());
        self.stakes.set_and_swap(idx, &mut entry);
        let mut list = entry.1;
        let ghost full = spec_unstake_list(orig, validator, amount, unbonding_height);

        let mut remaining: u64 = amount;
        let mut k: usize = 0;
        proof {
            assert(list@.skip(0) =~= list@);
        }
        while k < list.len()
            invariant
                k <= list@.len(),
                list@.len() == orig.len(),
                full == spec_unstake_list(orig, validator, amount, unbonding_height),
                full.0 =~= list@.take(k as int) + spec_unstake_list(
                    list@.skip(k as int),
                    validator,
                    remaining,
                    unbonding_height,
                ).0,
                full.1 == spec_unstake_list(
                    list@.skip(k as int),
                    validator,
                    remaining,
                    unbonding_height,
                ).1,
            decreases list@.len() - k,
        {
            let ghost pre = list@;
            proof {
                assert(pre.skip(k as int).first() == pre[k as int]);
            }
            let matches = address_eq(&list[k].validator, &validator) && list[k].unbonding_height
                .is_none() && remaining > 0;
            if matches {
                let s = list[k];
                let taken = if remaining < s.amount {
                    remaining
                } else {
                    s.amount
                };
                let updated = StakeInfo {
                    amount: s.amount - taken,
                    validator: s.validator,
                    delegator: s.delegator,
                    rewards: s.rewards,
                    unbonding_height: Some(unbonding_height),
                };
                list.set(k, updated);
                remaining = remaining - taken;
                proof {
                    assert(pre.skip(k as int).drop_first() =~= list@.skip(k as int + 1));
                    assert(list@.take(k as int + 1) =~= list@.take(k as int).push(updated));
                    assert(pre.take(k as int) == list@.take(k as int));
                    assert(full.0 =~= list@.take(k as int + 1) + spec_unstake_list(
                        list@.skip(k as int + 1),
                        validator,
                        remaining,
                        unbonding_height,
                    ).0);
                }
            } else {
                proof {
                    assert(pre.skip(k as int).drop_first() =~= list@.skip(k as int + 1));
                    assert(list@.take(k as int + 1) =~= list@.take(k as int).push(
                        list@[k as int],
                    ));
                    assert(full.0 =~= list@.take(k as int + 1) + spec_unstake_list(
                        list@.skip(k as int + 1),
                        validator,
                        remaining,
                        unbonding_height,
                    ).0);
                }
            }
            k += 1;
        }
        proof {
            assert(list@.skip(list@.len() as int) =~= Seq::<StakeInfo>::empty());
            assert(full.0 =~= list@.take(list@.len() as int));
            assert(list@.take(list@.len() as int) =~= list@);
            assert(full.1 == remaining);
        }

        // drop the bonds that gave up everything
        let mut kept: Vec<StakeInfo> = Vec::new();
        let mut t: usize = 0;
        while t < list.len()
            invariant
                t <= list@.len(),
                kept@ == spec_nonempty_stakes(list@.take(t as int)),
            decreases list@.len() - t,
        {
            proof {
                assert(list@.take(t as int + 1).drop_last() =~= list@.take(t as int));
                assert(list@.take(t as int + 1).last() == list@[t as int]);
            }
            if list[t].amount > 0 {
                kept.push(list[t]);
            }
            t += 1;
        }
        proof {
            assert(list@.take(list@.len() as int) =~= list@);
        }
        let mut back = (delegator, kept);
        self.stakes.set_and_swap(idx, &mut back);
        proof {
            self.lemma_stakes_update(prev_stakes, idx as int, delegator);
        }
        Ok(())
    }

    /// Replacing a delegator's entry rebinds it and leaves the others.
    proof fn lemma_stakes_update(&self, prev: Seq<(Address, Vec<StakeInfo>)>, i: int, key: Address)
        requires
            assoc_unique(prev),
            0 <= i < prev.len(),
            prev[i].0 == key,
            self.stakes@.len() == prev.len(),
            self.stakes@[i].0 == key,
            forall|j: int| 0 <= j < prev.len() && j != i ==> self.stakes@[j] == prev[j],
        ensures
            assoc_unique(self.stakes@),
            assoc_find(self.stakes@, key) == Some(self.stakes@[i].1),
            forall|a: Address|
                a != key ==> #[trigger] assoc_find(self.stakes@, a) == assoc_find(prev, a),
    {
        assert(self.stakes@ =~= prev.update(i, (key, self.stakes@[i].1)));
        crate::assoc::lemma_assoc_find_update(prev, i, self.stakes@[i].1, key);
        assert forall|a: Address| a != key implies #[trigger] assoc_find(self.stakes@, a)
            == assoc_find(prev, a) by {
            crate::assoc::lemma_assoc_find_update(prev, i, self.stakes@[i].1, a);
        }
        assert(assoc_unique(self.stakes@));
    }

    /// The total a delegator still has bonded and not unbonding.
    pub fn get_total_staked(&self, delegator: &Address) -> (r: Amount)
        requires
            self.wf(),
        ensures
            r == spec_active_stake_sum(self.spec_stakes(*delegator)),
    {
        let i = match self.find_stakes_index(delegator) {
            Some(i) => i,
            None => {
                return 0;
            },
        };
        let list = &self.stakes[i].1;
        let mut total: u64 = 0;
        let mut t: usize = 0;
        while t < list.len()
            invariant
                t <= list@.len(),
                total == spec_active_stake_sum(list@.take(t as int)),
            decreases list@.len() - t,
        {
            proof {
                assert(list@.take(t as int + 1).drop_last() =~= list@.take(t as int));
                assert(list@.take(t as int + 1).last() == list@[t as int]);
            }
            if list[t].unbonding_height.is_none() {
                total = total.saturating_add(list[t].amount);
            }
            t += 1;
        }
        proof {
            assert(list@.take(list@.len() as int) =~= list@);
        }
        total
    }

    /// The total bonded to one validator and not unbonding, over every
    /// delegator.
    pub fn get_validator_total_stake(&self, validator: &Address) -> (r: Amount)
        requires
            self.wf(),
        ensures
            r == spec_validator_stake_total(self.stakes@, *validator),
    {
        let mut total: u64 = 0;
        let mut i: usize = 0;
        while i < self.stakes.len()
            invariant
                i <= self.stakes@.len(),
                total == spec_validator_stake_total(self.stakes@.take(i as int), *validator),
            decreases self.stakes@.len() - i,
        {
            proof {
                assert(self.stakes@.take(i as int + 1).drop_last() =~= self.stakes@.take(i as int));
                assert(self.stakes@.take(i as int + 1).last() == self.stakes@[i as int]);
            }
            let list = &self.stakes[i].1;
            let mut inner: u64 = 0;
            let mut t: usize = 0;
            while t < list.len()
                invariant
                    t <= list@.len(),
                    inner == spec_validator_stake_sum(list@.take(t as int), *validator),
                decreases list@.len() - t,
            {
                proof {
                    assert(list@.take(t as int + 1).drop_last() =~= list@.take(t as int));
                    assert(list@.take(t as int + 1).last() == list@[t as int]);
                }
                let keep = address_eq(&list[t].validator, validator) && list[t].unbonding_height
                    .is_none();
                if keep {
                    inner = inner.saturating_add(list[t].amount);
                }
                t += 1;
            }
            proof {
                assert(list@.take(list@.len() as int) =~= list@);
            }
            total = total.saturating_add(inner);
            i += 1;
        }
        proof {
            assert(self.stakes@.take(self.stakes@.len() as int) =~= self.stakes@);
        }
        total
    }

    /// Appends a bond to a delegator's list, opening the list if need be.
    fn push_stake(&mut self, delegator: Address, info: StakeInfo)
        requires
            assoc_unique(old(self).stakes@),
        ensures
            assoc_unique(final(self).stakes@),
            final(self).spec_stakes(delegator) == old(self).spec_stakes(delegator).push(info),
            forall|a: Address|
                a != delegator ==> #[trigger] assoc_find(final(self).stakes@, a) == assoc_find(
                    old(self).stakes@,
                    a,
                ),
            final(self).accounts == old(self).accounts,
            final(self).total_supply == old(self).total_supply,
    {
        let mut i: usize = 0;
        let n = self.stakes.len();
        while i < n
            invariant
                n == self.stakes@.len(),
                assoc_unique(self.stakes@),
                *self == *old(self),
                i <= n,
                forall|j: int| 0 <= j < i ==> (#[trigger] self.stakes@[j]).0 != delegator,
            decreases n - i,
        {
            if address_eq(&self.stakes[i].0, &delegator) {
                proof {
                    crate::assoc::lemma_assoc_unique_at(self.stakes@, i as int);
                }
                let ghost prev = self.stakes@;
                let ghost old_list = self.stakes@[i as int].1@;
                let key = self.stakes[i].0;
                // take the entry out, extend its list, and put it back
                let mut entry: (Address, Vec<StakeInfo>) = (key, Vec::new());
                self.stakes.set_and_swap(i, &mut entry);
                entry.1.push(info);
                self.stakes.set(i, entry);
                proof {
                    assert(self.stakes@ =~= prev.update(
                        i as int,
                        (key, self.stakes@[i as int].1),
                    ));
                    assert(self.stakes@[i as int].0 == key);
                    assert(self.stakes@[i as int].1@ == old_list.push(info));
                    crate::assoc::lemma_assoc_find_update(
                        prev,
                        i as int,
                        self.stakes@[i as int].1,
                        delegator,
                    );
                    assert forall|a: Address| a != delegator implies #[trigger] assoc_find(
                        self.stakes@,
                        a,
                    ) == assoc_find(prev, a) by {
                        crate::assoc::lemma_assoc_find_update(
                            prev,
                            i as int,
                            self.stakes@[i as int].1,
                            a,
                        );
                    }
                    assert(assoc_unique(self.stakes@));
                }
                return ;
            }
            i += 1;
        }
        proof {
            crate::assoc::lemma_assoc_find_none(self.stakes@, delegator);
        }
        let ghost prev = self.stakes@;
        let mut list: Vec<StakeInfo> = Vec::new();
        list.push(info);
        self.stakes.push((delegator, list));
        proof {
            crate::assoc::lemma_assoc_find_push(
                prev,
                delegator,
                self.stakes@.last().1,
                delegator,
            );
            assert(self.stakes@.last().1@ =~= Seq::<StakeInfo>::empty().push(info));
            assert forall|a: Address| a != delegator implies #[trigger] assoc_find(
                self.stakes@,
                a,
            ) == assoc_find(prev, a) by {
                crate::assoc::lemma_assoc_find_push(prev, delegator, self.stakes@.last().1, a);
            }
            assert forall|i2: int, j2: int|
                0 <= i2 < j2 < self.stakes@.len() implies self.stakes@[i2].0
                != self.stakes@[j2].0 by {
                if j2 == self.stakes@.len() - 1 {
                    assert(self.stakes@[i2] == prev[i2]);
                }
            }
        }
    }
}

impl Account {
    /// Copies an account: every field carries over, the code by bytes.
    pub fn clone_account(&self) -> (r: Account)
        ensures
            r.address == self.address,
            r.balance == self.balance,
            r.nonce == self.nonce,
            r.code@ == self.code@,
    {
        let mut code: Vec<u8> = Vec::new();
        crate::types::append_bytes(&mut code, self.code.as_slice());
        proof {
            assert(code@ =~= self.code@);
        }
        Account { address: self.address, balance: self.balance, nonce: self.nonce, code }
    }
}

impl Default for AccountState {
    fn default() -> (r: Self)
        ensures
            r.wf(),
            r.accounts@.len() == 0,
            r.stakes@.len() == 0,
            r.total_supply == 0,
    {
        Self::new()
    }
}

} // verus!
