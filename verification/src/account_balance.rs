use vstd::prelude::*;

use crate::account::ClientId;
use crate::amt::Amt;

verus! {

/// The balances of one client as they are reported.
#[derive(Debug)]
pub struct ClientAccountBalance {
    pub id: ClientId,
    pub available: Amt,
    pub held: Amt,
    pub total: Amt,
    pub locked: bool,
}

impl ClientAccountBalance {
    /// The balance of an unlocked client `id` without funds.
    pub fn new(id: ClientId) -> (r: Self)
        ensures
            r.id == id,
            r.available@ == 0,
            r.held@ == 0,
            r.total@ == 0,
            !r.locked,
    {
        ClientAccountBalance {
            id,
            available: Amt::new(),
            held: Amt::new(),
            total: Amt::new(),
            locked: false,
        }
    }
}

} // verus!
