use vstd::prelude::*;

use crate::amt::Amt;

verus! {

/// The id of a client.
pub type ClientId = u16;

/// The funds of one client: `available` can be withdrawn, `held` is under
/// dispute; a locked account takes no further transactions.
#[derive(Debug)]
pub struct ClientAccount {
    pub id: ClientId,
    pub available: Amt,
    pub held: Amt,
    pub locked: bool,
}

/// Why an account refused an operation.
#[derive(Debug, Clone, PartialEq)]
pub enum AccountError {
    AvailableOverflow,
    HeldOverflow,
    NotEnoughHeld,
    NotEnoughAvailable,
    AccountLocked,
}

/// Whether `x` fits in an `i128`.
pub open spec fn fits(x: int) -> bool {
    i128::MIN <= x <= i128::MAX
}

/// `acc` with `available` set to the value `v`.
pub open spec fn with_available(acc: ClientAccount, v: int) -> ClientAccount {
    ClientAccount { available: Amt(v as i128), ..acc }
}

/// `acc` with `held` set to the value `v`.
pub open spec fn with_held(acc: ClientAccount, v: int) -> ClientAccount {
    ClientAccount { held: Amt(v as i128), ..acc }
}

/// What a deposit of `amt` makes of `acc`: more funds available.
pub open spec fn deposit_outcome(acc: ClientAccount, amt: Amt) -> Result<ClientAccount, AccountError> {
    if acc.locked {
        Err(AccountError::AccountLocked)
    } else if !fits(acc.available@ + amt@) {
        Err(AccountError::AvailableOverflow)
    } else {
        Ok(with_available(acc, acc.available@ + amt@))
    }
}

/// What a withdrawal of `amt` makes of `acc`: fewer funds available.
pub open spec fn withdraw_outcome(acc: ClientAccount, amt: Amt) -> Result<ClientAccount, AccountError> {
    if acc.locked {
        Err(AccountError::AccountLocked)
    } else if acc.available@ < amt@ {
        Err(AccountError::NotEnoughAvailable)
    } else {
        Ok(with_available(acc, acc.available@ - amt@))
    }
}

/// What a dispute of `amt` makes of `acc`: `amt` moves from available to held.
pub open spec fn dispute_outcome(acc: ClientAccount, amt: Amt) -> Result<ClientAccount, AccountError> {
    if acc.locked {
        Err(AccountError::AccountLocked)
    } else if acc.available@ < amt@ {
        Err(AccountError::NotEnoughAvailable)
    } else if !fits(acc.held@ + amt@) {
        Err(AccountError::HeldOverflow)
    } else {
        Ok(with_held(with_available(acc, acc.available@ - amt@), acc.held@ + amt@))
    }
}

/// What a resolve of `amt` makes of `acc`: `amt` moves from held back to available.
pub open spec fn resolve_outcome(acc: ClientAccount, amt: Amt) -> Result<ClientAccount, AccountError> {
    if acc.locked {
        Err(AccountError::AccountLocked)
    } else if acc.held@ < amt@ {
        Err(AccountError::NotEnoughHeld)
    } else if !fits(acc.available@ + amt@) {
        Err(AccountError::AvailableOverflow)
    } else {
        Ok(with_held(with_available(acc, acc.available@ + amt@), acc.held@ - amt@))
    }
}

/// What a chargeback of `amt` makes of `acc`: `amt` leaves held, and the
/// account is locked.
pub open spec fn chargeback_outcome(acc: ClientAccount, amt: Amt) -> Result<ClientAccount, AccountError> {
    if acc.locked {
        Err(AccountError::AccountLocked)
    } else if acc.held@ < amt@ {
        Err(AccountError::NotEnoughHeld)
    } else {
        Ok(ClientAccount { locked: true, ..with_held(acc, acc.held@ - amt@) })
    }
}

/// Whether an operation that returned `r` and left `after` of `before` did
/// what `outcome` says: on success the account is the outcome's, on failure
/// it is unchanged and the error is the outcome's.
pub open spec fn performed(
    before: ClientAccount,
    after: ClientAccount,
    r: Result<(), AccountError>,
    outcome: Result<ClientAccount, AccountError>,
) -> bool {
    match outcome {
        Ok(a) => r is Ok && after == a,
        Err(e) => r == Err::<(), AccountError>(e) && after == before,
    }
}

/// Whether the result of an operation that succeeds would not fit: a negative
/// `amt` taken off a balance that is too large. Only then would the
/// subtractions below overflow.
pub open spec fn difference_overflows(balance: Amt, amt: Amt) -> bool {
    balance@ >= amt@ && balance@ - amt@ > i128::MAX
}

impl ClientAccount {
    /// An unlocked account of `id` with no funds.
    pub fn new(id: ClientId) -> (r: Self)
        ensures
            r.id == id,
            r.available@ == 0,
            r.held@ == 0,
            !r.locked,
    {
        ClientAccount { id, available: Amt::new(), held: Amt::new(), locked: false }
    }

    /// Adds `amt` to the available funds.
    ///
    /// Fails with `AccountLocked` on a locked account and with
    /// `AvailableOverflow` where the sum does not fit; the account is then
    /// unchanged.
    pub fn deposit(&mut self, amt: Amt) -> (r: Result<(), AccountError>)
        ensures
            performed(*old(self), *final(self), r, deposit_outcome(*old(self), amt)),
    {
        if self.locked {
            return Err(AccountError::AccountLocked);
        }
        match self.available.checked_add(amt) {
            Some(new_available) => {
                self.available = new_available;
            },
            None => {
                return Err(AccountError::AvailableOverflow);
            },
        }
        Ok(())
    }

    /// Takes `amt` off the available funds.
    ///
    /// Fails with `AccountLocked` on a locked account and with
    /// `NotEnoughAvailable` where less than `amt` is available.
    pub fn withdraw(&mut self, amt: Amt) -> (r: Result<(), AccountError>)
        requires
            old(self).locked || !difference_overflows(old(self).available, amt),
        ensures
            performed(*old(self), *final(self), r, withdraw_outcome(*old(self), amt)),
    {
        if self.locked {
            return Err(AccountError::AccountLocked);
        }
        if self.available.0 < amt.0 {
            return Err(AccountError::NotEnoughAvailable);
        }
        self.available = Amt(self.available.0 - amt.0);
        Ok(())
    }

    /// Moves `amt` from the available to the held funds.
    ///
    /// Fails with `AccountLocked` on a locked account, with
    /// `NotEnoughAvailable` where less than `amt` is available and with
    /// `HeldOverflow` where the held funds would not fit.
    pub fn dispute(&mut self, amt: Amt) -> (r: Result<(), AccountError>)
        requires
            old(self).locked || !fits(old(self).held@ + amt@) || !difference_overflows(
                old(self).available,
                amt,
            ),
        ensures
            performed(*old(self), *final(self), r, dispute_outcome(*old(self), amt)),
    {
        if self.locked {
            return Err(AccountError::AccountLocked);
        }
        if self.available.0 < amt.0 {
            return Err(AccountError::NotEnoughAvailable);
        }
        match self.held.checked_add(amt) {
            Some(new_held) => {
                self.available = Amt(self.available.0 - amt.0);
                self.held = new_held;
            },
            None => {
                return Err(AccountError::HeldOverflow);
            },
        }
        Ok(())
    }

    /// Moves `amt` from the held back to the available funds.
    ///
    /// Fails with `AccountLocked` on a locked account, with `NotEnoughHeld`
    /// where less than `amt` is held and with `AvailableOverflow` where the
    /// available funds would not fit.
    pub fn resolve(&mut self, amt: Amt) -> (r: Result<(), AccountError>)
        requires
            old(self).locked || !fits(old(self).available@ + amt@) || !difference_overflows(
                old(self).held,
                amt,
            ),
        ensures
            performed(*old(self), *final(self), r, resolve_outcome(*old(self), amt)),
    {
        if self.locked {
            return Err(AccountError::AccountLocked);
        }
        if self.held.0 < amt.0 {
            return Err(AccountError::NotEnoughHeld);
        }
        match self.available.checked_add(amt) {
            Some(new_available) => {
                self.available = new_available;
                self.held = Amt(self.held.0 - amt.0);
            },
            None => {
                return Err(AccountError::AvailableOverflow);
            },
        }
        Ok(())
    }

    /// Takes `amt` off the held funds for good and locks the account.
    ///
    /// Fails with `AccountLocked` on a locked account and with
    /// `NotEnoughHeld` where less than `amt` is held.
    pub fn chargeback(&mut self, amt: Amt) -> (r: Result<(), AccountError>)
        requires
            old(self).locked || !difference_overflows(old(self).held, amt),
        ensures
            performed(*old(self), *final(self), r, chargeback_outcome(*old(self), amt)),
    {
        if self.locked {
            return Err(AccountError::AccountLocked);
        }
        if self.held.0 < amt.0 {
            return Err(AccountError::NotEnoughHeld);
        }
        self.held = Amt(self.held.0 - amt.0);
        self.locked = true;
        Ok(())
    }

    /// The total funds as reported: available plus held, or the largest
    /// amount where that sum does not fit.
    pub fn reported_total(&self) -> (r: Amt)
        ensures
            r@ == (if fits(self.available@ + self.held@) {
                self.available@ + self.held@
            } else {
                i128::MAX as int
            }),
    {
        match self.available.checked_add(self.held) {
            Some(t) => t,
            None => Amt::max(),
        }
    }
}

impl AccountError {
    /// The message that describes the error.
    pub fn message(&self) -> (r: &'static str)
        ensures
            r@ == account_error_text(*self),
    {
        match self {
            AccountError::AvailableOverflow => "overflows available funds",
            AccountError::HeldOverflow => "overflows held funds",
            AccountError::NotEnoughHeld => "not enough funds held",
            AccountError::NotEnoughAvailable => "not enough funds available",
            AccountError::AccountLocked => "account is locked",
        }
    }
}

/// The message of an account error.
pub open spec fn account_error_text(e: AccountError) -> Seq<char> {
    match e {
        AccountError::AvailableOverflow => "overflows available funds"@,
        AccountError::HeldOverflow => "overflows held funds"@,
        AccountError::NotEnoughHeld => "not enough funds held"@,
        AccountError::NotEnoughAvailable => "not enough funds available"@,
        AccountError::AccountLocked => "account is locked"@,
    }
}

// ---------------------------------------------------------------------------
// Laws of a single account.
// ---------------------------------------------------------------------------

/// A locked account refuses every operation with `AccountLocked`.
pub proof fn lemma_locked_account_refuses_all(acc: ClientAccount, amt: Amt)
    requires
        acc.locked,
    ensures
        deposit_outcome(acc, amt) == Err::<ClientAccount, AccountError>(AccountError::AccountLocked),
        withdraw_outcome(acc, amt) == Err::<ClientAccount, AccountError>(AccountError::AccountLocked),
        dispute_outcome(acc, amt) == Err::<ClientAccount, AccountError>(AccountError::AccountLocked),
        resolve_outcome(acc, amt) == Err::<ClientAccount, AccountError>(AccountError::AccountLocked),
        chargeback_outcome(acc, amt) == Err::<ClientAccount, AccountError>(
            AccountError::AccountLocked,
        ),
{
}

/// A resolve undoes a dispute: where disputing an amount that is not negative
/// succeeds on an account whose held funds are not negative, resolving the
/// same amount afterwards succeeds and gives back the account as it was.
pub proof fn lemma_resolve_undoes_dispute(acc: ClientAccount, amt: Amt)
    requires
        acc.held@ >= 0,
        amt@ >= 0,
        dispute_outcome(acc, amt) is Ok,
    ensures
        resolve_outcome(dispute_outcome(acc, amt)->Ok_0, amt) == Ok::<ClientAccount, AccountError>(
            acc,
        ),
{
    let d = dispute_outcome(acc, amt)->Ok_0;
    assert(d.available@ + amt@ == acc.available@);
    assert(d.held@ - amt@ == acc.held@);
}

/// For an amount that is not negative, disputes and resolves move funds
/// between available and held without changing their sum; a deposit adds
/// exactly `amt` to it, a withdrawal and a chargeback take exactly `amt` off.
pub proof fn lemma_total_moves(acc: ClientAccount, amt: Amt)
    requires
        amt@ >= 0,
    ensures
        dispute_outcome(acc, amt) matches Ok(a) ==> a.available@ + a.held@ == acc.available@
            + acc.held@,
        resolve_outcome(acc, amt) matches Ok(a) ==> a.available@ + a.held@ == acc.available@
            + acc.held@,
        chargeback_outcome(acc, amt) matches Ok(a) ==> a.available@ + a.held@ == acc.available@
            + acc.held@ - amt@,
        deposit_outcome(acc, amt) matches Ok(a) ==> a.available@ + a.held@ == acc.available@
            + acc.held@ + amt@,
        withdraw_outcome(acc, amt) matches Ok(a) ==> a.available@ + a.held@ == acc.available@
            + acc.held@ - amt@,
{
}

/// With an amount that is not negative, no operation leaves a balance below
/// zero that was not below zero before.
pub proof fn lemma_balances_stay_non_negative(acc: ClientAccount, amt: Amt)
    requires
        amt@ >= 0,
        acc.available@ >= 0,
        acc.held@ >= 0,
    ensures
        deposit_outcome(acc, amt) matches Ok(a) ==> a.available@ >= 0 && a.held@ >= 0,
        withdraw_outcome(acc, amt) matches Ok(a) ==> a.available@ >= 0 && a.held@ >= 0,
        dispute_outcome(acc, amt) matches Ok(a) ==> a.available@ >= 0 && a.held@ >= 0,
        resolve_outcome(acc, amt) matches Ok(a) ==> a.available@ >= 0 && a.held@ >= 0,
        chargeback_outcome(acc, amt) matches Ok(a) ==> a.available@ >= 0 && a.held@ >= 0,
{
}


/// An unlocked account takes every deposit whose sum with the available
/// funds fits: the available funds grow by exactly `amt`, whatever is held,
/// and nothing else changes.
pub proof fn law_deposit_adds_to_available(acc: ClientAccount, amt: Amt)
    requires
        !acc.locked,
        i128::MIN <= acc.available@ + amt@ <= i128::MAX,
    ensures
        deposit_outcome(acc, amt) is Ok,
        ({
            let a = deposit_outcome(acc, amt)->Ok_0;
            &&& a.available@ == acc.available@ + amt@
            &&& a.held == acc.held
            &&& a.locked == acc.locked
            &&& a.id == acc.id
        }),
{
}

/// An unlocked account pays out every withdrawal of at most its available
/// funds: the available funds shrink by exactly `amt`, whatever is held, and
/// nothing else changes. A withdrawal of more than is available is refused
/// with `NotEnoughAvailable`.
pub proof fn law_withdraw_takes_from_available(acc: ClientAccount, amt: Amt)
    requires
        !acc.locked,
    ensures
        amt@ <= acc.available@ && acc.available@ - amt@ <= i128::MAX ==> {
            &&& withdraw_outcome(acc, amt) is Ok
            &&& withdraw_outcome(acc, amt)->Ok_0.available@ == acc.available@ - amt@
            &&& withdraw_outcome(acc, amt)->Ok_0.held == acc.held
            &&& withdraw_outcome(acc, amt)->Ok_0.locked == acc.locked
            &&& withdraw_outcome(acc, amt)->Ok_0.id == acc.id
        },
        acc.available@ < amt@ ==> withdraw_outcome(acc, amt) == Err::<ClientAccount, AccountError>(
            AccountError::NotEnoughAvailable,
        ),
{
}

/// An unlocked account takes every dispute of at most its available funds
/// whose sum with the held funds fits: exactly `amt` moves from available to
/// held, whatever was held before, and nothing else changes.
pub proof fn law_dispute_moves_to_held(acc: ClientAccount, amt: Amt)
    requires
        !acc.locked,
        amt@ <= acc.available@,
        acc.available@ - amt@ <= i128::MAX,
        i128::MIN <= acc.held@ + amt@ <= i128::MAX,
    ensures
        dispute_outcome(acc, amt) is Ok,
        ({
            let a = dispute_outcome(acc, amt)->Ok_0;
            &&& a.available@ == acc.available@ - amt@
            &&& a.held@ == acc.held@ + amt@
            &&& a.locked == acc.locked
            &&& a.id == acc.id
        }),
{
}

/// An unlocked account takes every resolve of at most its held funds whose
/// sum with the available funds fits: exactly `amt` moves from held to
/// available, and nothing else changes.
pub proof fn law_resolve_moves_to_available(acc: ClientAccount, amt: Amt)
    requires
        !acc.locked,
        amt@ <= acc.held@,
        acc.held@ - amt@ <= i128::MAX,
        i128::MIN <= acc.available@ + amt@ <= i128::MAX,
    ensures
        resolve_outcome(acc, amt) is Ok,
        ({
            let a = resolve_outcome(acc, amt)->Ok_0;
            &&& a.available@ == acc.available@ + amt@
            &&& a.held@ == acc.held@ - amt@
            &&& a.locked == acc.locked
            &&& a.id == acc.id
        }),
{
}

/// An unlocked account takes every chargeback of at most its held funds:
/// exactly `amt` leaves held, the available funds stay, and the account is
/// locked.
pub proof fn law_chargeback_takes_from_held(acc: ClientAccount, amt: Amt)
    requires
        !acc.locked,
        amt@ <= acc.held@,
        acc.held@ - amt@ <= i128::MAX,
    ensures
        chargeback_outcome(acc, amt) is Ok,
        ({
            let a = chargeback_outcome(acc, amt)->Ok_0;
            &&& a.available == acc.available
            &&& a.held@ == acc.held@ - amt@
            &&& a.locked
            &&& a.id == acc.id
        }),
{
}

} // verus!
