use vstd::prelude::*;
use crate::account::AccountModel;
use crate::error::TokenError;
use crate::amounts::capped;
use crate::token::FungibleToken;

verus! {

/// What an account has paid for the room that it takes, and how much of that
/// it could take back.
#[derive(Clone, Copy, Debug, PartialEq, Eq, Structural)]
pub struct StorageBalance {
    pub total: u128,
    pub available: u128,
}

/// The least and the most that an account can pay for its room.
#[derive(Clone, Copy, Debug, PartialEq, Eq, Structural)]
pub struct StorageBalanceBounds {
    pub min: u128,
    pub max: Option<u128>,
}

/// What a payment for room has come to: the part of the attached value that
/// goes back to the payer, and what the account has paid now.
#[derive(Clone, Copy, Debug, PartialEq, Eq, Structural)]
pub struct StorageDeposit {
    pub refund: u128,
    pub balance: StorageBalance,
}

/// The number of entries that an account is charged for: the scopes in which
/// it has had value, and the counterparties too where they are counted.
pub open spec fn charged_entries(account: AccountModel, include_deposit_contracts: bool) -> nat {
    if include_deposit_contracts {
        account.balances.scopes.len() + account.escrow.scopes.len()
    } else {
        account.balances.scopes.len()
    }
}

/// What an account is charged: `min_balance` for every entry.
pub open spec fn storage_charge(
    account: AccountModel,
    include_deposit_contracts: bool,
    min_balance: u128,
) -> nat {
    charged_entries(account, include_deposit_contracts) * (min_balance as nat)
}

/// The price of the room of one account: the bytes that it takes, each at
/// `storage_byte_cost`. The least and the most that an account can pay are
/// both this price. Fails with `Overflow` where the price is not representable.
pub fn storage_balance_bounds(account_storage_usage: u64, storage_byte_cost: u128) -> (r: Result<
    StorageBalanceBounds,
    TokenError,
>)
    ensures
        match r {
            Ok(bounds) => bounds.min == account_storage_usage * storage_byte_cost && bounds.max
                == Some(bounds.min),
            Err(e) => e == TokenError::Overflow && account_storage_usage * storage_byte_cost
                > u128::MAX,
        },
{
    match (account_storage_usage as u128).checked_mul(storage_byte_cost) {
        Some(price) => Ok(StorageBalanceBounds { min: price, max: Some(price) }),
        None => Err(TokenError::Overflow),
    }
}

impl FungibleToken {
    /// What `account_id` has paid for its room: `min_balance` for every scope
    /// in which it has had value, and for every counterparty too where
    /// `include_deposit_contracts` is set; none of it can be taken back. `None`
    /// for an unknown account. Fails with `Overflow` where the charge is not
    /// representable.
    pub fn internal_storage_balance_of(
        &self,
        account_id: &String,
        include_deposit_contracts: bool,
        min_balance: u128,
    ) -> (r: Result<Option<StorageBalance>, TokenError>)
        requires
            self.wf(),
        ensures
            match r {
                Ok(Some(balance)) => self@.is_registered(account_id@) && balance.total
                    == storage_charge(
                    self@.account_of(account_id@),
                    include_deposit_contracts,
                    min_balance,
                ) && balance.available == 0,
                Ok(None) => !self@.is_registered(account_id@),
                Err(e) => e == TokenError::Overflow && self@.is_registered(account_id@)
                    && storage_charge(
                    self@.account_of(account_id@),
                    include_deposit_contracts,
                    min_balance,
                ) > u128::MAX,
            },
    {
        let account = match self.account(account_id) {
            Some(account) => account,
            None => {
                return Ok(None);
            },
        };
        let mut entries: u128 = account.balances.len() as u128;
        if include_deposit_contracts {
            entries = entries + account.escrow.len() as u128;
        }
        match entries.checked_mul(min_balance) {
            Some(total) => Ok(Some(StorageBalance { total, available: 0 })),
            None => Err(TokenError::Overflow),
        }
    }

    /// Takes a payment of `attached_deposit` for the room of `account_id`. An
    /// account that is known stays as it is and the whole payment goes back. An
    /// unknown account is registered for `min_balance`, and what was paid above
    /// that goes back. Fails, changing nothing, with `InsufficientDeposit`
    /// where an unknown account pays less than `min_balance`, and with
    /// `Overflow` where the charge of a known account is not representable.
    pub fn storage_deposit(&mut self, account_id: &String, attached_deposit: u128, min_balance: u128)
        -> (r: Result<StorageDeposit, TokenError>)
        requires
            old(self).wf(),
        ensures
            final(self).wf(),
            if old(self)@.is_registered(account_id@) {
                &&& final(self)@ == old(self)@
                &&& match r {
                    Ok(paid) => paid.refund == attached_deposit && paid.balance.available == 0
                        && paid.balance.total == storage_charge(
                        old(self)@.account_of(account_id@),
                        false,
                        min_balance,
                    ),
                    Err(e) => e == TokenError::Overflow && storage_charge(
                        old(self)@.account_of(account_id@),
                        false,
                        min_balance,
                    ) > u128::MAX,
                }
            } else if attached_deposit < min_balance {
                &&& final(self)@ == old(self)@
                &&& r == Err::<StorageDeposit, TokenError>(TokenError::InsufficientDeposit)
            } else {
                &&& final(self)@ == old(self)@.registered(account_id@)
                &&& r == Ok::<StorageDeposit, TokenError>(
                    StorageDeposit {
                        refund: (attached_deposit - min_balance) as u128,
                        balance: StorageBalance { total: 0, available: 0 },
                    },
                )
            },
    {
        match self.internal_storage_balance_of(account_id, false, min_balance) {
            Ok(Some(balance)) => Ok(StorageDeposit { refund: attached_deposit, balance }),
            Ok(None) => {
                if attached_deposit < min_balance {
                    return Err(TokenError::InsufficientDeposit);
                }
                match self.internal_register_account(account_id) {
                    Ok(()) => Ok(
                        StorageDeposit {
                            refund: attached_deposit - min_balance,
                            balance: StorageBalance { total: 0, available: 0 },
                        },
                    ),
                    Err(e) => Err(e),
                }
            },
            Err(e) => Err(e),
        }
    }

    /// Answers a request of `account_id` to take `amount` of its payment back.
    /// Nothing of it can be taken back, so the answer is what the account has
    /// paid, and nothing changes. Fails with `InsufficientDeposit` where no
    /// value is attached, else with `NotRegistered` where the account is
    /// unknown, else with `Overflow` where its charge is not representable, else
    /// with `InsufficientBalance` where more than nothing is asked for.
    pub fn storage_withdraw(
        &self,
        account_id: &String,
        attached_deposit: u128,
        amount: Option<u128>,
        min_balance: u128,
    ) -> (r: Result<StorageBalance, TokenError>)
        requires
            self.wf(),
        ensures
            match r {
                Ok(balance) => {
                    &&& attached_deposit >= 1
                    &&& self@.is_registered(account_id@)
                    &&& amount is None || amount == Some(0u128)
                    &&& balance.available == 0
                    &&& balance.total == storage_charge(
                        self@.account_of(account_id@),
                        true,
                        min_balance,
                    )
                },
                Err(e) => if attached_deposit < 1 {
                    e == TokenError::InsufficientDeposit
                } else if !self@.is_registered(account_id@) {
                    e == TokenError::NotRegistered
                } else if storage_charge(self@.account_of(account_id@), true, min_balance)
                    > u128::MAX {
                    e == TokenError::Overflow
                } else {
                    e == TokenError::InsufficientBalance && amount is Some && amount->0 > 0
                },
            },
    {
        if attached_deposit < 1 {
            return Err(TokenError::InsufficientDeposit);
        }
        match self.internal_storage_balance_of(account_id, true, min_balance) {
            Ok(Some(balance)) => match amount {
                Some(asked) => if asked > 0 {
                    Err(TokenError::InsufficientBalance)
                } else {
                    Ok(balance)
                },
                None => Ok(balance),
            },
            Ok(None) => Err(TokenError::NotRegistered),
            Err(e) => Err(e),
        }
    }

    /// Closes the account of `account_id` on its own request: see
    /// `internal_storage_unregister`. Fails first, with `InsufficientDeposit`,
    /// where no value is attached.
    pub fn storage_unregister(
        &mut self,
        account_id: &String,
        attached_deposit: u128,
        force: Option<bool>,
    ) -> (r: Result<(String, u128), TokenError>)
        requires
            old(self).wf(),
        ensures
            final(self).wf(),
            match r {
                Ok((id, balance)) => {
                    &&& attached_deposit >= 1
                    &&& old(self)@.is_registered(account_id@)
                    &&& force == Some(true) || old(self)@.holds_nothing(account_id@)
                    &&& final(self)@ == old(self)@.unregistered(account_id@)
                    &&& id@ == account_id@
                    &&& balance == capped(
                        old(self)@.balance(account_id@, None, None),
                    )
                },
                Err(e) => {
                    &&& final(self)@ == old(self)@
                    &&& if attached_deposit < 1 {
                        e == TokenError::InsufficientDeposit
                    } else if !old(self)@.is_registered(account_id@) {
                        e == TokenError::NotRegistered
                    } else {
                        e == TokenError::NonZeroBalance && force != Some(true) && !old(self)@.holds_nothing(account_id@)
                    }
                },
            },
    {
        if attached_deposit < 1 {
            return Err(TokenError::InsufficientDeposit);
        }
        self.internal_storage_unregister(account_id, force)
    }
}

} // verus!
