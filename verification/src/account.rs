use vstd::prelude::*;

use std::collections::HashMap;

use crate::types::{account_init, Account, TxError, MAX_AMOUNT};

verus! {

broadcast use vstd::std_specs::hash::group_hash_axioms;

/// Every account of the table is well formed: it sits under its own client id
/// and both balances lie between zero and `MAX_AMOUNT`.
pub open spec fn accounts_wf(m: Map<u16, Account>) -> bool {
    forall|c: u16| #[trigger] m.contains_key(c) ==> {
        &&& m[c].client_id == c
        &&& 0 <= m[c].available_amount <= MAX_AMOUNT
        &&& 0 <= m[c].held_amount <= MAX_AMOUNT
    }
}

/// What `ensure_account` does to the table: create a fresh zero account
/// for `client_id` if none is there, otherwise leave the table alone.
pub open spec fn ensure_spec(m: Map<u16, Account>, client_id: u16) -> Map<u16, Account> {
    if m.contains_key(client_id) {
        m
    } else {
        m.insert(client_id, account_init(client_id))
    }
}

/// Amounts handed to the balance operations must be strictly positive.
pub open spec fn check_positive_spec(amount: i128) -> Result<(), TxError> {
    if amount > 0 {
        Ok(())
    } else {
        Err(TxError::InvalidAmount)
    }
}

/// What `deposit` does to the table, and what it reports.
pub open spec fn deposit_spec(m: Map<u16, Account>, client_id: u16, amount: i128) -> (Map<
    u16,
    Account,
>, Result<(), TxError>) {
    if amount <= 0 {
        (m, Err(TxError::InvalidAmount))
    } else if !m.contains_key(client_id) {
        (m, Err(TxError::NotFound))
    } else if m[client_id].available_amount + amount > MAX_AMOUNT {
        (m, Err(TxError::Overflow))
    } else {
        let acc = m[client_id];
        let updated = Account {
            client_id: acc.client_id,
            is_locked: acc.is_locked,
            available_amount: (acc.available_amount + amount) as i128,
            held_amount: acc.held_amount,
        };
        (m.insert(client_id, updated), Ok(()))
    }
}

/// What `withdraw` does to the table, and what it reports.
pub open spec fn withdraw_spec(m: Map<u16, Account>, client_id: u16, amount: i128) -> (Map<
    u16,
    Account,
>, Result<(), TxError>) {
    if amount <= 0 {
        (m, Err(TxError::InvalidAmount))
    } else if !m.contains_key(client_id) {
        (m, Err(TxError::NotFound))
    } else if m[client_id].available_amount - amount < 0 {
        (m, Err(TxError::InsufficientFunds))
    } else {
        let acc = m[client_id];
        let updated = Account {
            client_id: acc.client_id,
            is_locked: acc.is_locked,
            available_amount: (acc.available_amount - amount) as i128,
            held_amount: acc.held_amount,
        };
        (m.insert(client_id, updated), Ok(()))
    }
}

/// What `withdraw_held` does to the table, and what it reports. The sum
/// leaves the ledger entirely; nothing is credited back.
pub open spec fn withdraw_held_spec(m: Map<u16, Account>, client_id: u16, amount: i128) -> (Map<
    u16,
    Account,
>, Result<(), TxError>) {
    if amount <= 0 {
        (m, Err(TxError::InvalidAmount))
    } else if !m.contains_key(client_id) {
        (m, Err(TxError::NotFound))
    } else if m[client_id].held_amount - amount < 0 {
        (m, Err(TxError::InsufficientHeld))
    } else {
        let acc = m[client_id];
        let updated = Account {
            client_id: acc.client_id,
            is_locked: acc.is_locked,
            available_amount: acc.available_amount,
            held_amount: (acc.held_amount - amount) as i128,
        };
        (m.insert(client_id, updated), Ok(()))
    }
}

/// What `hold` does to the table, and what it reports. The move from
/// available to held is one atomic update: both checks run before either
/// field changes.
pub open spec fn hold_spec(m: Map<u16, Account>, client_id: u16, amount: i128) -> (Map<
    u16,
    Account,
>, Result<(), TxError>) {
    if amount <= 0 {
        (m, Err(TxError::InvalidAmount))
    } else if !m.contains_key(client_id) {
        (m, Err(TxError::NotFound))
    } else if m[client_id].available_amount - amount < 0 {
        (m, Err(TxError::InsufficientFunds))
    } else if m[client_id].held_amount + amount > MAX_AMOUNT {
        (m, Err(TxError::Overflow))
    } else {
        let acc = m[client_id];
        let updated = Account {
            client_id: acc.client_id,
            is_locked: acc.is_locked,
            available_amount: (acc.available_amount - amount) as i128,
            held_amount: (acc.held_amount + amount) as i128,
        };
        (m.insert(client_id, updated), Ok(()))
    }
}

/// What `release` does to the table, and what it reports: the inverse move
/// of `hold`, from held back to available.
pub open spec fn release_spec(m: Map<u16, Account>, client_id: u16, amount: i128) -> (Map<
    u16,
    Account,
>, Result<(), TxError>) {
    if amount <= 0 {
        (m, Err(TxError::InvalidAmount))
    } else if !m.contains_key(client_id) {
        (m, Err(TxError::NotFound))
    } else if m[client_id].held_amount - amount < 0 {
        (m, Err(TxError::InsufficientHeld))
    } else if m[client_id].available_amount + amount > MAX_AMOUNT {
        (m, Err(TxError::Overflow))
    } else {
        let acc = m[client_id];
        let updated = Account {
            client_id: acc.client_id,
            is_locked: acc.is_locked,
            available_amount: (acc.available_amount + amount) as i128,
            held_amount: (acc.held_amount - amount) as i128,
        };
        (m.insert(client_id, updated), Ok(()))
    }
}

/// What `lock` does to the table, and what it reports. Locking is
/// idempotent and one-way: no operation clears the flag again.
pub open spec fn lock_spec(m: Map<u16, Account>, client_id: u16) -> (Map<u16, Account>, Result<
    (),
    TxError,
>) {
    if !m.contains_key(client_id) {
        (m, Err(TxError::NotFound))
    } else {
        let acc = m[client_id];
        let updated = Account {
            client_id: acc.client_id,
            is_locked: true,
            available_amount: acc.available_amount,
            held_amount: acc.held_amount,
        };
        (m.insert(client_id, updated), Ok(()))
    }
}

/// What `is_locked` reports.
pub open spec fn is_locked_spec(m: Map<u16, Account>, client_id: u16) -> Result<bool, TxError> {
    if m.contains_key(client_id) {
        Ok(m[client_id].is_locked)
    } else {
        Err(TxError::NotFound)
    }
}

/// Holds the authoritative per-client account table and enforces the
/// arithmetic and sign invariants, independent of transaction semantics.
pub trait Manager: Sized {
    /// The client-to-account table this manager holds.
    spec fn accounts(&self) -> Map<u16, Account>;

    /// The implementor's internal invariant.
    spec fn inv(&self) -> bool;

    /// The invariant keeps every account well formed.
    proof fn inv_accounts_wf(&self)
        requires
            self.inv(),
        ensures
            accounts_wf(self.accounts()),
    ;

    /// Create a zero-balance unlocked account for `client_id` if none
    /// exists. Idempotent; never fails.
    fn ensure_account(&mut self, client_id: u16) -> (r: Result<(), TxError>)
        requires
            old(self).inv(),
        ensures
            final(self).inv(),
            final(self).accounts() == ensure_spec(old(self).accounts(), client_id),
            r is Ok,
    ;

    /// Add `amount` to the client's available balance.
    fn deposit(&mut self, client_id: u16, amount: i128) -> (r: Result<(), TxError>)
        requires
            old(self).inv(),
        ensures
            final(self).inv(),
            final(self).accounts() == deposit_spec(old(self).accounts(), client_id, amount).0,
            r == deposit_spec(old(self).accounts(), client_id, amount).1,
    ;

    /// Take `amount` from the client's available balance.
    fn withdraw(&mut self, client_id: u16, amount: i128) -> (r: Result<(), TxError>)
        requires
            old(self).inv(),
        ensures
            final(self).inv(),
            final(self).accounts() == withdraw_spec(old(self).accounts(), client_id, amount).0,
            r == withdraw_spec(old(self).accounts(), client_id, amount).1,
    ;

    /// Take `amount` from the client's held balance; the sum leaves the
    /// ledger for good.
    fn withdraw_held(&mut self, client_id: u16, amount: i128) -> (r: Result<(), TxError>)
        requires
            old(self).inv(),
        ensures
            final(self).inv(),
            final(self).accounts() == withdraw_held_spec(
                old(self).accounts(),
                client_id,
                amount,
            ).0,
            r == withdraw_held_spec(old(self).accounts(), client_id, amount).1,
    ;

    /// Move `amount` from the client's available to its held balance.
    fn hold(&mut self, client_id: u16, amount: i128) -> (r: Result<(), TxError>)
        requires
            old(self).inv(),
        ensures
            final(self).inv(),
            final(self).accounts() == hold_spec(old(self).accounts(), client_id, amount).0,
            r == hold_spec(old(self).accounts(), client_id, amount).1,
    ;

    /// Move `amount` from the client's held balance back to available.
    fn release(&mut self, client_id: u16, amount: i128) -> (r: Result<(), TxError>)
        requires
            old(self).inv(),
        ensures
            final(self).inv(),
            final(self).accounts() == release_spec(old(self).accounts(), client_id, amount).0,
            r == release_spec(old(self).accounts(), client_id, amount).1,
    ;

    /// Set the client's lock flag; there is no way back.
    fn lock(&mut self, client_id: u16) -> (r: Result<(), TxError>)
        requires
            old(self).inv(),
        ensures
            final(self).inv(),
            final(self).accounts() == lock_spec(old(self).accounts(), client_id).0,
            r == lock_spec(old(self).accounts(), client_id).1,
    ;

    /// Report whether the client's account is locked.
    fn is_locked(&mut self, client_id: u16) -> (r: Result<bool, TxError>)
        requires
            old(self).inv(),
        ensures
            final(self).inv(),
            final(self).accounts() == old(self).accounts(),
            r == is_locked_spec(old(self).accounts(), client_id),
    ;

    /// A snapshot of all accounts: one entry for each client of the table,
    /// in no particular order.
    fn all(&self) -> (r: Vec<Account>)
        requires
            self.inv(),
        ensures
            forall|i: int, j: int|
                #![trigger r@[i].client_id, r@[j].client_id]
                0 <= i < j < r@.len() ==> r@[i].client_id != r@[j].client_id,
            forall|i: int|
                0 <= i < r@.len() ==> self.accounts().contains_key(#[trigger] r@[i].client_id)
                    && self.accounts()[r@[i].client_id] == r@[i],
            forall|c: u16|
                #[trigger] self.accounts().contains_key(c) ==> exists|i: int|
                    0 <= i < r@.len() && #[trigger] r@[i].client_id == c,
    ;
}

/// The one in-memory `Manager`: a hash table of accounts, plus the client
/// ids in order of first appearance so that a snapshot can walk them.
pub struct SimpleManager {
    accounts: HashMap<u16, Account>,
    client_ids: Vec<u16>,
}

impl SimpleManager {
    pub fn new() -> (m: Self)
        ensures
            m.inv(),
            m.accounts() == Map::<u16, Account>::empty(),
    {
        Self { accounts: HashMap::new(), client_ids: Vec::new() }
    }
}

/// Amounts handed to the balance operations must be strictly positive.
pub fn check_positive(amount: i128) -> (r: Result<(), TxError>)
    ensures
        r == check_positive_spec(amount),
{
    if amount > 0 {
        Ok(())
    } else {
        Err(TxError::InvalidAmount)
    }
}

impl Manager for SimpleManager {
    closed spec fn accounts(&self) -> Map<u16, Account> {
        self.accounts@
    }

    closed spec fn inv(&self) -> bool {
        &&& accounts_wf(self.accounts@)
        &&& self.client_ids@.no_duplicates()
        &&& forall|i: int|
            0 <= i < self.client_ids@.len() ==> self.accounts@.contains_key(
                #[trigger] self.client_ids@[i],
            )
        &&& forall|c: u16| #[trigger] self.accounts@.contains_key(c) ==> self.client_ids@.contains(c)
    }

    proof fn inv_accounts_wf(&self) {
    }

    fn ensure_account(&mut self, client_id: u16) -> (r: Result<(), TxError>) {
        if !self.accounts.contains_key(&client_id) {
            let ghost old_ids = self.client_ids@;
            let ghost old_map = self.accounts@;
            self.accounts.insert(client_id, Account::new(client_id));
            self.client_ids.push(client_id);
            proof {
                if old_ids.contains(client_id) {
                    let i = choose|i: int|
                        0 <= i < old_ids.len() && old_ids[i] == client_id;
                    assert(old_map.contains_key(old_ids[i]));
                }
                assert(!old_ids.contains(client_id));
                let new_ids = self.client_ids@;
                let new_map = self.accounts@;
                assert forall|i: int, j: int|
                    0 <= i < new_ids.len() && 0 <= j < new_ids.len() && i
                        != j implies new_ids[i] != new_ids[j] by {
                    if i < old_ids.len() && j < old_ids.len() {
                        assert(old_ids[i] != old_ids[j]);
                    } else if i == old_ids.len() as int {
                        if old_ids[j] == client_id {
                            assert(old_ids.contains(client_id));
                        }
                    } else {
                        if old_ids[i] == client_id {
                            assert(old_ids.contains(client_id));
                        }
                    }
                }
                assert(new_ids.no_duplicates());
                assert forall|i: int|
                    0 <= i < new_ids.len() implies new_map.contains_key(
                    #[trigger] new_ids[i],
                ) by {
                    if i < old_ids.len() {
                        assert(old_map.contains_key(old_ids[i]));
                    }
                }
                assert forall|c: u16| #[trigger]
                    new_map.contains_key(c) implies new_ids.contains(c) by {
                    if c == client_id {
                        assert(new_ids[old_ids.len() as int] == c);
                    } else {
                        assert(old_map.contains_key(c));
                        let i = choose|i: int| 0 <= i < old_ids.len() && old_ids[i] == c;
                        assert(new_ids[i] == c);
                    }
                }
            }
        }
        Ok(())
    }

    fn deposit(&mut self, client_id: u16, amount: i128) -> (r: Result<(), TxError>) {
        match check_positive(amount) {
            Err(e) => Err(e),
            Ok(()) => match self.accounts.get(&client_id) {
                Some(acc_ref) => {
                    let acc = *acc_ref;
                    if acc.available_amount > MAX_AMOUNT - amount {
                        Err(TxError::Overflow)
                    } else {
                        let updated = Account {
                            client_id: acc.client_id,
                            is_locked: acc.is_locked,
                            available_amount: acc.available_amount + amount,
                            held_amount: acc.held_amount,
                        };
                        self.accounts.insert(client_id, updated);
                        Ok(())
                    }
                },
                None => Err(TxError::NotFound),
            },
        }
    }

    fn withdraw(&mut self, client_id: u16, amount: i128) -> (r: Result<(), TxError>) {
        match check_positive(amount) {
            Err(e) => Err(e),
            Ok(()) => match self.accounts.get(&client_id) {
                Some(acc_ref) => {
                    let acc = *acc_ref;
                    if acc.available_amount < amount {
                        Err(TxError::InsufficientFunds)
                    } else {
                        let updated = Account {
                            client_id: acc.client_id,
                            is_locked: acc.is_locked,
                            available_amount: acc.available_amount - amount,
                            held_amount: acc.held_amount,
                        };
                        self.accounts.insert(client_id, updated);
                        Ok(())
                    }
                },
                None => Err(TxError::NotFound),
            },
        }
    }

    fn withdraw_held(&mut self, client_id: u16, amount: i128) -> (r: Result<(), TxError>) {
        match check_positive(amount) {
            Err(e) => Err(e),
            Ok(()) => match self.accounts.get(&client_id) {
                Some(acc_ref) => {
                    let acc = *acc_ref;
                    if acc.held_amount < amount {
                        Err(TxError::InsufficientHeld)
                    } else {
                        let updated = Account {
                            client_id: acc.client_id,
                            is_locked: acc.is_locked,
                            available_amount: acc.available_amount,
                            held_amount: acc.held_amount - amount,
                        };
                        self.accounts.insert(client_id, updated);
                        Ok(())
                    }
                },
                None => Err(TxError::NotFound),
            },
        }
    }

    fn hold(&mut self, client_id: u16, amount: i128) -> (r: Result<(), TxError>) {
        match check_positive(amount) {
            Err(e) => Err(e),
            Ok(()) => match self.accounts.get(&client_id) {
                Some(acc_ref) => {
                    let acc = *acc_ref;
                    if acc.available_amount < amount {
                        Err(TxError::InsufficientFunds)
                    } else if acc.held_amount > MAX_AMOUNT - amount {
                        Err(TxError::Overflow)
                    } else {
                        let updated = Account {
                            client_id: acc.client_id,
                            is_locked: acc.is_locked,
                            available_amount: acc.available_amount - amount,
                            held_amount: acc.held_amount + amount,
                        };
                        self.accounts.insert(client_id, updated);
                        Ok(())
                    }
                },
                None => Err(TxError::NotFound),
            },
        }
    }

    fn release(&mut self, client_id: u16, amount: i128) -> (r: Result<(), TxError>) {
        match check_positive(amount) {
            Err(e) => Err(e),
            Ok(()) => match self.accounts.get(&client_id) {
                Some(acc_ref) => {
                    let acc = *acc_ref;
                    if acc.held_amount < amount {
                        Err(TxError::InsufficientHeld)
                    } else if acc.available_amount > MAX_AMOUNT - amount {
                        Err(TxError::Overflow)
                    } else {
                        let updated = Account {
                            client_id: acc.client_id,
                            is_locked: acc.is_locked,
                            available_amount: acc.available_amount + amount,
                            held_amount: acc.held_amount - amount,
                        };
                        self.accounts.insert(client_id, updated);
                        Ok(())
                    }
                },
                None => Err(TxError::NotFound),
            },
        }
    }

    fn lock(&mut self, client_id: u16) -> (r: Result<(), TxError>) {
        match self.accounts.get(&client_id) {
            Some(acc_ref) => {
                let acc = *acc_ref;
                let updated = Account {
                    client_id: acc.client_id,
                    is_locked: true,
                    available_amount: acc.available_amount,
                    held_amount: acc.held_amount,
                };
                self.accounts.insert(client_id, updated);
                Ok(())
            },
            None => Err(TxError::NotFound),
        }
    }

    fn is_locked(&mut self, client_id: u16) -> (r: Result<bool, TxError>) {
        match self.accounts.get(&client_id) {
            Some(acc_ref) => Ok(acc_ref.is_locked),
            None => Err(TxError::NotFound),
        }
    }

    fn all(&self) -> (r: Vec<Account>) {
        let mut result: Vec<Account> = Vec::new();
        let mut idx: usize = 0;
        while idx < self.client_ids.len()
            invariant
                self.inv(),
                idx <= self.client_ids@.len(),
                result@.len() == idx,
                forall|i: int|
                    0 <= i < idx ==> #[trigger] result@[i] == self.accounts@[self.client_ids@[i]],
            decreases self.client_ids@.len() - idx,
        {
            let c = self.client_ids[idx];
            match self.accounts.get(&c) {
                Some(acc_ref) => {
                    result.push(*acc_ref);
                },
                None => {
                    proof {
                        assert(self.accounts@.contains_key(self.client_ids@[idx as int]));
                        assert(false);
                    }
                },
            }
            idx += 1;
        }
        proof {
            assert forall|i: int| 0 <= i < result@.len() implies self.accounts@.contains_key(
                #[trigger] result@[i].client_id,
            ) && self.accounts@[result@[i].client_id] == result@[i] by {
                assert(self.accounts@.contains_key(self.client_ids@[i]));
                assert(result@[i] == self.accounts@[self.client_ids@[i]]);
                assert(result@[i].client_id == self.client_ids@[i]);
            }
            assert forall|i: int, j: int|
                #![trigger result@[i].client_id, result@[j].client_id]
            0 <= i < j < result@.len() implies result@[i].client_id != result@[j].client_id by {
                assert(result@[i].client_id == self.client_ids@[i]);
                assert(result@[j].client_id == self.client_ids@[j]);
            }
            assert forall|c: u16| #[trigger]
                self.accounts@.contains_key(c) implies exists|i: int|
                0 <= i < result@.len() && #[trigger] result@[i].client_id == c by {
                let i = choose|i: int|
                    0 <= i < self.client_ids@.len() && self.client_ids@[i] == c;
                assert(result@[i] == self.accounts@[self.client_ids@[i]]);
                assert(result@[i].client_id == c);
            }
        }
        result
    }
}

/// Law: every account a well-formed table holds keeps both balances
/// nonnegative.
pub proof fn lemma_balances_nonnegative(m: Map<u16, Account>, client_id: u16)
    requires
        accounts_wf(m),
        m.contains_key(client_id),
    ensures
        m[client_id].available_amount >= 0,
        m[client_id].held_amount >= 0,
{
}

/// Law: ensuring an account a second time changes nothing beyond the first
/// call.
pub proof fn lemma_ensure_account_idempotent(m: Map<u16, Account>, client_id: u16)
    ensures
        ensure_spec(ensure_spec(m, client_id), client_id) == ensure_spec(m, client_id),
{
}

/// Law: a successful hold followed by a release of the same amount puts
/// the whole table back exactly where it started, and that release cannot
/// fail.
pub proof fn lemma_hold_then_release_restores(m: Map<u16, Account>, client_id: u16, amount: i128)
    requires
        accounts_wf(m),
        hold_spec(m, client_id, amount).1 is Ok,
    ensures
        release_spec(hold_spec(m, client_id, amount).0, client_id, amount).1 is Ok,
        release_spec(hold_spec(m, client_id, amount).0, client_id, amount).0 == m,
{
    let m1 = hold_spec(m, client_id, amount).0;
    let m2 = release_spec(m1, client_id, amount).0;
    assert(m1[client_id].held_amount - amount >= 0);
    assert(m1[client_id].available_amount + amount <= MAX_AMOUNT);
    assert(m2[client_id] == m[client_id]);
    assert(m2 =~= m);
}

/// Creating a missing account keeps the table well formed.
pub proof fn lemma_ensure_preserves_wf(m: Map<u16, Account>, client_id: u16)
    requires
        accounts_wf(m),
    ensures
        accounts_wf(ensure_spec(m, client_id)),
{
}

/// A deposit keeps the table well formed.
pub proof fn lemma_deposit_preserves_wf(m: Map<u16, Account>, client_id: u16, amount: i128)
    requires
        accounts_wf(m),
    ensures
        accounts_wf(deposit_spec(m, client_id, amount).0),
{
}

/// A withdrawal keeps the table well formed.
pub proof fn lemma_withdraw_preserves_wf(m: Map<u16, Account>, client_id: u16, amount: i128)
    requires
        accounts_wf(m),
    ensures
        accounts_wf(withdraw_spec(m, client_id, amount).0),
{
}

/// A held withdrawal keeps the table well formed.
pub proof fn lemma_withdraw_held_preserves_wf(m: Map<u16, Account>, client_id: u16, amount: i128)
    requires
        accounts_wf(m),
    ensures
        accounts_wf(withdraw_held_spec(m, client_id, amount).0),
{
}

/// A hold keeps the table well formed.
pub proof fn lemma_hold_preserves_wf(m: Map<u16, Account>, client_id: u16, amount: i128)
    requires
        accounts_wf(m),
    ensures
        accounts_wf(hold_spec(m, client_id, amount).0),
{
}

/// A release keeps the table well formed.
pub proof fn lemma_release_preserves_wf(m: Map<u16, Account>, client_id: u16, amount: i128)
    requires
        accounts_wf(m),
    ensures
        accounts_wf(release_spec(m, client_id, amount).0),
{
}

/// A lock keeps the table well formed.
pub proof fn lemma_lock_preserves_wf(m: Map<u16, Account>, client_id: u16)
    requires
        accounts_wf(m),
    ensures
        accounts_wf(lock_spec(m, client_id).0),
{
}

} // verus!
