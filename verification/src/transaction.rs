//! Data structures describing the transactions the engine applies.
use vstd::prelude::*;

use std::collections::HashMap;

use crate::amount::{Amount, AmountModel};

verus! {

/// Client identifier, as guaranteed by the input format.
pub type ClientId = u16;

/// Globally unique transaction identifier, as guaranteed by the input format.
pub type TxId = u32;

/// The number of fractional digits amounts are kept and reported with.
pub const SCALE: u32 = 4;

/// The kind of a transaction, taken from the `type` column.
#[derive(Debug, Clone, Copy, PartialEq, Eq, Structural)]
pub enum TransactionType {
    /// Credit to the client's account: increases available and total funds.
    Deposit,
    /// Debit from the client's account: decreases available and total funds.
    Withdrawal,
    /// Claim that a referenced transaction was erroneous; moves funds to held.
    Dispute,
    /// Resolution of a dispute; moves held funds back to available.
    Resolve,
    /// Reversal of a disputed transaction; removes held funds and locks the account.
    Chargeback,
}

/// A single row of the input.
///
/// `amount` is optional because disputes, resolves and chargebacks reference a
/// transaction by ID and carry no amount of their own.
#[derive(Debug, Clone, Copy, PartialEq, Eq)]
pub struct Transaction {
    pub kind: TransactionType,
    pub client: ClientId,
    pub tx: TxId,
    pub amount: Option<Amount>,
}

/// Where a recorded transaction stands in the dispute lifecycle.
#[derive(Debug, Clone, Copy, PartialEq, Eq, Structural)]
pub enum DisputeState {
    /// No dispute has been opened, or an earlier one was resolved.
    Undisputed,
    /// Funds are currently held pending the outcome of a dispute.
    Disputed,
    /// The dispute ended in a chargeback; the transaction is final.
    ChargedBack,
}

impl Default for DisputeState {
    fn default() -> (r: DisputeState)
        ensures
            r == DisputeState::Undisputed,
    {
        DisputeState::Undisputed
    }
}

/// A transaction retained after processing so that a later dispute, resolve or
/// chargeback can refer back to it by ID.
#[derive(Debug, Clone, Copy, PartialEq, Eq)]
pub struct TransactionRecord {
    pub client: ClientId,
    pub amount: Amount,
    pub state: DisputeState,
}

/// What a record holds, with the amount given by its parts.
pub struct RecordState {
    pub client: ClientId,
    pub amount: AmountModel,
    pub state: DisputeState,
}

impl View for TransactionRecord {
    type V = RecordState;

    open spec fn view(&self) -> RecordState {
        RecordState { client: self.client, amount: self.amount@, state: self.state }
    }
}

impl TransactionRecord {
    /// Records a newly processed transaction that is not yet disputed.
    pub fn new(client: ClientId, amount: Amount) -> (r: TransactionRecord)
        ensures
            r.client == client,
            r.amount@ == amount@,
            r.state == DisputeState::Undisputed,
    {
        TransactionRecord { client, amount, state: DisputeState::Undisputed }
    }
}

/// The transactions seen so far, keyed by their globally unique ID.
pub type Transactions = HashMap<TxId, TransactionRecord>;

} // verus!
