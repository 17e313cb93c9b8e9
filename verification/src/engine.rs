use vstd::prelude::*;

use std::collections::HashMap;

use crate::account::{
    accounts_wf, deposit_spec, ensure_spec, hold_spec, lock_spec, release_spec,
    withdraw_held_spec, withdraw_spec, Manager,
};
use crate::account::{
    lemma_deposit_preserves_wf, lemma_ensure_preserves_wf, lemma_hold_preserves_wf,
    lemma_lock_preserves_wf, lemma_release_preserves_wf, lemma_withdraw_held_preserves_wf,
    lemma_withdraw_preserves_wf,
};
use crate::types::{Account, CorruptRecord, Transaction, TxError, TxType};

verus! {

broadcast use vstd::std_specs::hash::group_hash_axioms;

/// The processor's visible state: the account table and the history of
/// recorded deposit and withdrawal transactions, keyed by transaction id.
pub struct EngineView {
    pub accounts: Map<u16, Account>,
    pub history: Map<u32, Transaction>,
}

/// How a reference transaction finds its target: an unknown id is no error
/// (`Ok(None)`); a recorded transaction of another client is a
/// data-integrity error.
pub open spec fn lookup_spec(h: Map<u32, Transaction>, client_id: u16, tx_id: u32) -> Result<
    Option<Transaction>,
    TxError,
> {
    if !h.contains_key(tx_id) {
        Ok(None)
    } else if h[tx_id].client_id == client_id {
        Ok(Some(h[tx_id]))
    } else {
        Err(TxError::ReferenceMismatch)
    }
}

/// What processing one transaction does to the processor's state, and what
/// it reports. The account is created first if missing; a locked account
/// silently ignores everything; otherwise the transaction type picks the
/// ledger operations, with dispute, resolve and chargeback re-deriving the
/// amount from the recorded transaction they reference.
pub open spec fn step_spec(s: EngineView, tx: Transaction) -> (EngineView, Result<(), TxError>) {
    let m0 = ensure_spec(s.accounts, tx.client_id);
    if m0[tx.client_id].is_locked {
        (EngineView { accounts: m0, history: s.history }, Ok(()))
    } else {
        match tx.tx_type {
            TxType::Deposit => {
                let mr = deposit_spec(m0, tx.client_id, tx.amount);
                (EngineView { accounts: mr.0, history: s.history.insert(tx.tx_id, tx) }, mr.1)
            },
            TxType::Withdrawal => {
                let mr = withdraw_spec(m0, tx.client_id, tx.amount);
                (EngineView { accounts: mr.0, history: s.history.insert(tx.tx_id, tx) }, mr.1)
            },
            TxType::Dispute => match lookup_spec(s.history, tx.client_id, tx.tx_id) {
                Ok(Some(t)) => {
                    let mr = hold_spec(m0, t.client_id, t.amount);
                    (EngineView { accounts: mr.0, history: s.history }, mr.1)
                },
                Ok(None) => (EngineView { accounts: m0, history: s.history }, Ok(())),
                Err(e) => (EngineView { accounts: m0, history: s.history }, Err(e)),
            },
            TxType::Resolve => match lookup_spec(s.history, tx.client_id, tx.tx_id) {
                Ok(Some(t)) => {
                    let mr = release_spec(m0, t.client_id, t.amount);
                    (EngineView { accounts: mr.0, history: s.history }, mr.1)
                },
                Ok(None) => (EngineView { accounts: m0, history: s.history }, Ok(())),
                Err(e) => (EngineView { accounts: m0, history: s.history }, Err(e)),
            },
            TxType::Chargeback => match lookup_spec(s.history, tx.client_id, tx.tx_id) {
                Ok(Some(t)) => {
                    let mr = withdraw_held_spec(m0, t.client_id, t.amount);
                    if mr.1 is Ok {
                        let mr2 = lock_spec(mr.0, t.client_id);
                        (EngineView { accounts: mr2.0, history: s.history }, mr2.1)
                    } else {
                        (EngineView { accounts: mr.0, history: s.history }, mr.1)
                    }
                },
                Ok(None) => (EngineView { accounts: m0, history: s.history }, Ok(())),
                Err(e) => (EngineView { accounts: m0, history: s.history }, Err(e)),
            },
        }
    }
}

/// What processing a whole stream does: each record in order, a corrupt
/// record or a failed transaction skipped, the stream never halted.
pub open spec fn run_spec(
    s: EngineView,
    records: Seq<Result<Transaction, CorruptRecord>>,
) -> EngineView
    decreases records.len(),
{
    if records.len() == 0 {
        s
    } else {
        let s1 = match records[0] {
            Ok(tx) => step_spec(s, tx).0,
            Err(_) => s,
        };
        run_spec(s1, records.skip(1))
    }
}

/// Interprets each transaction against the ledger held in `accounts`,
/// recording accepted deposits and withdrawals so that later references
/// can find them.
pub struct Engine<A: Manager> {
    accounts: A,
    transactions: HashMap<u32, Transaction>,
}

impl<A: Manager> View for Engine<A> {
    type V = EngineView;

    closed spec fn view(&self) -> EngineView {
        EngineView { accounts: self.accounts.accounts(), history: self.transactions@ }
    }
}

impl<A: Manager> Engine<A> {
    /// The manager's internal invariant, carried through every operation.
    pub closed spec fn inv(&self) -> bool {
        self.accounts.inv()
    }

    pub fn new(accounts: A) -> (e: Self)
        requires
            accounts.inv(),
        ensures
            e.inv(),
            e@.accounts == accounts.accounts(),
            e@.history == Map::<u32, Transaction>::empty(),
    {
        Self { accounts, transactions: HashMap::new() }
    }

    /// Find the recorded transaction a reference transaction points at.
    fn get_client_tx(&self, client_id: u16, tx_id: u32) -> (r: Result<Option<Transaction>, TxError>)
        ensures
            r == lookup_spec(self@.history, client_id, tx_id),
    {
        match self.transactions.get(&tx_id) {
            Some(t) => {
                if t.client_id == client_id {
                    Ok(Some(*t))
                } else {
                    Err(TxError::ReferenceMismatch)
                }
            },
            None => Ok(None),
        }
    }

    /// Process one transaction. A failure is reported but leaves the
    /// processor ready for the next record; the state reflects exactly the
    /// ledger operations that succeeded before the failing step.
    pub fn process(&mut self, tx: &Transaction) -> (r: Result<(), TxError>)
        requires
            old(self).inv(),
        ensures
            final(self).inv(),
            final(self)@ == step_spec(old(self)@, *tx).0,
            r == step_spec(old(self)@, *tx).1,
    {
        match self.accounts.ensure_account(tx.client_id) {
            Ok(()) => {},
            Err(e) => {
                return Err(e);
            },
        }
        let locked = match self.accounts.is_locked(tx.client_id) {
            Ok(b) => b,
            Err(e) => {
                return Err(e);
            },
        };
        if locked {
            return Ok(());
        }
        match tx.tx_type {
            TxType::Deposit => {
                self.transactions.insert(tx.tx_id, *tx);
                self.accounts.deposit(tx.client_id, tx.amount)
            },
            TxType::Withdrawal => {
                self.transactions.insert(tx.tx_id, *tx);
                self.accounts.withdraw(tx.client_id, tx.amount)
            },
            TxType::Dispute => match self.get_client_tx(tx.client_id, tx.tx_id) {
                Ok(Some(t)) => self.accounts.hold(t.client_id, t.amount),
                Ok(None) => Ok(()),
                Err(e) => Err(e),
            },
            TxType::Resolve => match self.get_client_tx(tx.client_id, tx.tx_id) {
                Ok(Some(t)) => self.accounts.release(t.client_id, t.amount),
                Ok(None) => Ok(()),
                Err(e) => Err(e),
            },
            TxType::Chargeback => match self.get_client_tx(tx.client_id, tx.tx_id) {
                Ok(Some(t)) => match self.accounts.withdraw_held(t.client_id, t.amount) {
                    Ok(()) => self.accounts.lock(t.client_id),
                    Err(e) => Err(e),
                },
                Ok(None) => Ok(()),
                Err(e) => Err(e),
            },
        }
    }

    /// Process a whole stream of records in order. Corrupt records and
    /// failed transactions are skipped; the run always completes.
    pub fn process_all(&mut self, transactions: Vec<Result<Transaction, CorruptRecord>>)
        requires
            old(self).inv(),
        ensures
            final(self).inv(),
            final(self)@ == run_spec(old(self)@, transactions@),
    {
        let ghost s0 = self@;
        proof {
            assert(transactions@.skip(0) =~= transactions@);
        }
        let mut idx: usize = 0;
        while idx < transactions.len()
            invariant
                self.inv(),
                idx <= transactions@.len(),
                run_spec(self@, transactions@.skip(idx as int)) == run_spec(s0, transactions@),
            decreases transactions@.len() - idx,
        {
            let ghost pre = self@;
            match transactions[idx] {
                Ok(tx) => {
                    let _ = self.process(&tx);
                },
                Err(_) => {},
            }
            proof {
                let rest = transactions@.skip(idx as int);
                assert(rest[0] == transactions@[idx as int]);
                assert(rest.skip(1) =~= transactions@.skip(idx as int + 1));
                assert(run_spec(pre, rest) == run_spec(self@, rest.skip(1)));
            }
            idx += 1;
        }
        proof {
            assert(transactions@.skip(transactions@.len() as int) =~= Seq::<
                Result<Transaction, CorruptRecord>,
            >::empty());
        }
    }

    /// A snapshot of all accounts, one entry per client, in no particular
    /// order.
    pub fn get_accounts(&self) -> (r: Vec<Account>)
        requires
            self.inv(),
        ensures
            forall|i: int, j: int|
                #![trigger r@[i].client_id, r@[j].client_id]
                0 <= i < j < r@.len() ==> r@[i].client_id != r@[j].client_id,
            forall|i: int|
                0 <= i < r@.len() ==> self@.accounts.contains_key(#[trigger] r@[i].client_id)
                    && self@.accounts[r@[i].client_id] == r@[i],
            forall|c: u16|
                #[trigger] self@.accounts.contains_key(c) ==> exists|i: int|
                    0 <= i < r@.len() && #[trigger] r@[i].client_id == c,
    {
        self.accounts.all()
    }
}

/// Law: one processed transaction keeps every account well formed, so both
/// balances stay nonnegative and bounded at all times.
pub proof fn lemma_step_preserves_wf(s: EngineView, tx: Transaction)
    requires
        accounts_wf(s.accounts),
    ensures
        accounts_wf(step_spec(s, tx).0.accounts),
{
    lemma_ensure_preserves_wf(s.accounts, tx.client_id);
    let m0 = ensure_spec(s.accounts, tx.client_id);
    if !m0[tx.client_id].is_locked {
        match tx.tx_type {
            TxType::Deposit => lemma_deposit_preserves_wf(m0, tx.client_id, tx.amount),
            TxType::Withdrawal => lemma_withdraw_preserves_wf(m0, tx.client_id, tx.amount),
            TxType::Dispute => {
                match lookup_spec(s.history, tx.client_id, tx.tx_id) {
                    Ok(Some(t)) => lemma_hold_preserves_wf(m0, t.client_id, t.amount),
                    _ => {},
                }
            },
            TxType::Resolve => {
                match lookup_spec(s.history, tx.client_id, tx.tx_id) {
                    Ok(Some(t)) => lemma_release_preserves_wf(m0, t.client_id, t.amount),
                    _ => {},
                }
            },
            TxType::Chargeback => {
                match lookup_spec(s.history, tx.client_id, tx.tx_id) {
                    Ok(Some(t)) => {
                        lemma_withdraw_held_preserves_wf(m0, t.client_id, t.amount);
                        lemma_lock_preserves_wf(
                            withdraw_held_spec(m0, t.client_id, t.amount).0,
                            t.client_id,
                        );
                    },
                    _ => {},
                }
            },
        }
    }
}

/// Law: a whole processed stream keeps every account well formed.
pub proof fn lemma_run_preserves_wf(s: EngineView, records: Seq<Result<Transaction, CorruptRecord>>)
    requires
        accounts_wf(s.accounts),
    ensures
        accounts_wf(run_spec(s, records).accounts),
    decreases records.len(),
{
    if records.len() > 0 {
        match records[0] {
            Ok(tx) => {
                lemma_step_preserves_wf(s, tx);
                lemma_run_preserves_wf(step_spec(s, tx).0, records.skip(1));
            },
            Err(_) => {
                lemma_run_preserves_wf(s, records.skip(1));
            },
        }
    }
}

/// Law: whatever stream ran from a well-formed start, every account the
/// processor then holds has a nonnegative available and held balance.
pub proof fn lemma_run_balances_nonnegative(
    s: EngineView,
    records: Seq<Result<Transaction, CorruptRecord>>,
    client_id: u16,
)
    requires
        accounts_wf(s.accounts),
        run_spec(s, records).accounts.contains_key(client_id),
    ensures
        run_spec(s, records).accounts[client_id].available_amount >= 0,
        run_spec(s, records).accounts[client_id].held_amount >= 0,
{
    lemma_run_preserves_wf(s, records);
}

/// Law: once a client's account is locked, no later transaction of any
/// kind changes that account — in particular, the lock never comes off.
pub proof fn lemma_lock_finality_step(s: EngineView, tx: Transaction, client_id: u16)
    requires
        s.accounts.contains_key(client_id),
        s.accounts[client_id].is_locked,
    ensures
        step_spec(s, tx).0.accounts.contains_key(client_id),
        step_spec(s, tx).0.accounts[client_id] == s.accounts[client_id],
{
}

/// Law: lock finality over a whole stream, by induction over the records.
pub proof fn lemma_lock_finality_run(
    s: EngineView,
    records: Seq<Result<Transaction, CorruptRecord>>,
    client_id: u16,
)
    requires
        s.accounts.contains_key(client_id),
        s.accounts[client_id].is_locked,
    ensures
        run_spec(s, records).accounts.contains_key(client_id),
        run_spec(s, records).accounts[client_id] == s.accounts[client_id],
    decreases records.len(),
{
    if records.len() > 0 {
        match records[0] {
            Ok(tx) => {
                lemma_lock_finality_step(s, tx, client_id);
                lemma_lock_finality_run(step_spec(s, tx).0, records.skip(1), client_id);
            },
            Err(_) => {
                lemma_lock_finality_run(s, records.skip(1), client_id);
            },
        }
    }
}

/// Law: a dispute, resolve or chargeback naming an unknown transaction id
/// is no error, touches no recorded history, and changes no existing
/// account; at most it creates the referencing client's empty account.
pub proof fn lemma_unknown_reference_ignored(s: EngineView, tx: Transaction)
    requires
        tx.tx_type == TxType::Dispute || tx.tx_type == TxType::Resolve || tx.tx_type
            == TxType::Chargeback,
        !s.history.contains_key(tx.tx_id),
    ensures
        step_spec(s, tx).1 is Ok,
        step_spec(s, tx).0.history == s.history,
        step_spec(s, tx).0.accounts == ensure_spec(s.accounts, tx.client_id),
        forall|c: u16|
            #[trigger] s.accounts.contains_key(c) ==> step_spec(s, tx).0.accounts[c]
                == s.accounts[c],
{
}

} // verus!
