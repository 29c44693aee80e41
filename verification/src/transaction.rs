use vstd::prelude::*;

use crate::account::ClientId;
use crate::amt::Amt;

verus! {

/// The id of a transaction.
pub type TxId = u32;

/// A transaction as it comes in, to be processed by the engine.
#[derive(Debug, Clone)]
pub struct TransactionInput {
    pub tx_type: TransactionType,
    pub client_id: ClientId,
    pub tx_id: TxId,
    /// Scaled by [`Amt::SCALE`]; deposits and withdrawals have one, disputes,
    /// resolves and chargebacks have none.
    pub amt: Option<Amt>,
}

/// The kinds of transaction.
#[derive(Debug, PartialEq, Eq, Clone)]
pub enum TransactionType {
    Deposit,
    Withdrawal,
    Dispute,
    Resolve,
    Chargeback,
}

/// A deposit that was processed, kept so that it can be disputed.
#[derive(Debug)]
pub struct ProcessedTransaction {
    pub client_id: ClientId,
    pub amt: Amt,
    pub status: TransactionStatus,
}

impl ProcessedTransaction {
    /// A processed transaction of `client_id` over `amt`, in status `Normal`.
    pub fn new(client_id: ClientId, amt: Amt) -> (r: Self)
        ensures
            r == (ProcessedTransaction { client_id, amt, status: TransactionStatus::Normal }),
    {
        ProcessedTransaction { client_id, amt, status: TransactionStatus::Normal }
    }
}

/// Where a processed deposit stands in the dispute lifecycle.
#[derive(Debug, PartialEq, Eq)]
pub enum TransactionStatus {
    Normal,
    Disputed,
    ChargedBack,
}

} // verus!
