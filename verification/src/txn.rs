use std::collections::HashMap;

use vstd::prelude::*;

use crate::types::{AccountBalances, Transaction, TxId};

verus! {

/// Processing of a [`Transaction`] against reported balances. No transaction
/// has an effect here: the balances are left as they are.
pub fn process_transaction(
    _txn: Transaction,
    _balances: &mut AccountBalances,
    _still_disputable_txns: &HashMap<TxId, Transaction>,
)
    ensures
        final(_balances)@ == old(_balances)@,
{
}

} // verus!
