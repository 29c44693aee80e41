use std::collections::HashMap;

use vstd::prelude::*;

pub use crate::account::ClientId;
pub use crate::account_balance::ClientAccountBalance;
pub use crate::amt::{parse_amt, Amt};
pub use crate::transaction::TxId;

verus! {

/// The reported balances, by client.
pub type AccountBalances = HashMap<ClientId, ClientAccountBalance>;

/// A deposit or withdrawal record.
#[derive(Debug)]
pub struct Transaction {
    pub tx_type: TransactionType,
    pub client_id: ClientId,
    pub tx_id: TxId,
    /// Scaled by [`Amt::SCALE`].
    pub amt: Amt,
}

/// The kinds of a [`Transaction`].
#[derive(Debug)]
pub enum TransactionType {
    Deposit,
    Withdrawal,
}

} // verus!
