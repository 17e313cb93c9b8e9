use vstd::prelude::*;

verus! {

/// Largest balance or amount the ledger can represent, in minor units.
/// Mirrors the 96-bit magnitude limit of common exact-decimal types.
pub const MAX_AMOUNT: i128 = 79228162514264337593543950335;

/// The five transaction kinds the processor understands.
#[derive(Debug, Clone, Copy, PartialEq, Eq, Structural)]
pub enum TxType {
    Deposit,
    Withdrawal,
    Dispute,
    Resolve,
    Chargeback,
}

/// One input record: a monetary transaction or a reference to an earlier one.
///
/// For `Deposit` and `Withdrawal`, `tx_id` is a fresh globally unique id and
/// `amount` is the sum moved, in minor units. For `Dispute`, `Resolve` and
/// `Chargeback`, `tx_id` names the transaction referred to and `amount` is
/// ignored.
#[derive(Debug, Clone, Copy, PartialEq, Eq, Structural)]
pub struct Transaction {
    pub tx_type: TxType,
    pub client_id: u16,
    pub tx_id: u32,
    pub amount: i128,
}

impl Transaction {
    pub fn new(tx_type: TxType, client_id: u16, tx_id: u32, amount: i128) -> (tx: Self)
        ensures
            tx == (Transaction { tx_type, client_id, tx_id, amount }),
    {
        Self { tx_type, client_id, tx_id, amount }
    }
}

/// Per-client balances and the one-way lock flag.
#[derive(Debug, Clone, Copy, PartialEq, Eq, Structural)]
pub struct Account {
    pub client_id: u16,
    pub is_locked: bool,
    pub available_amount: i128,
    pub held_amount: i128,
}

/// The state a fresh account starts in: zero balances, unlocked.
pub open spec fn account_init(client_id: u16) -> Account {
    Account { client_id, is_locked: false, available_amount: 0, held_amount: 0 }
}

impl Account {
    pub fn new(client_id: u16) -> (acc: Self)
        ensures
            acc == account_init(client_id),
    {
        Self { client_id, is_locked: false, available_amount: 0, held_amount: 0 }
    }
}

/// Everything a ledger operation or the processor can report about one
/// transaction. A failed transaction is skipped; the stream goes on.
#[derive(Debug, Clone, Copy, PartialEq, Eq, Structural)]
pub enum TxError {
    /// The operation referenced a client with no account.
    NotFound,
    /// A deposit or withdrawal amount was not strictly positive.
    InvalidAmount,
    /// The available balance cannot cover the requested movement.
    InsufficientFunds,
    /// The held balance cannot cover the requested movement.
    InsufficientHeld,
    /// The addition would leave the representable range.
    Overflow,
    /// A reference transaction named a transaction of another client.
    ReferenceMismatch,
}

/// Marks an input record the reader could not parse into a transaction.
#[derive(Debug, Clone, Copy, PartialEq, Eq, Structural)]
pub struct CorruptRecord;

} // verus!
