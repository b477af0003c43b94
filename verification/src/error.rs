use vstd::prelude::*;

verus! {

/// Why an operation was rejected. A rejected operation leaves the state as it was.
#[derive(Clone, Copy, Debug, PartialEq, Eq, Structural)]
pub enum TokenError {
    /// The account is not in the account table.
    NotRegistered,
    /// The balance asked for is not there.
    InsufficientBalance,
    /// A balance would pass the largest representable amount.
    Overflow,
    /// The account is already in the account table.
    AlreadyRegistered,
    /// The account still holds value and closure was not forced.
    NonZeroBalance,
    /// The result of the remote call was asked for before the call completed.
    ProtocolViolation,
    /// The caller reserved too little execution budget for both steps.
    InsufficientGasOrBudget,
    /// The value attached to the call is below what the operation asks for.
    InsufficientDeposit,
}

impl TokenError {
    /// The text of the reason that is shown to the caller.
    pub open spec fn reason_text(self) -> Seq<char> {
        match self {
            TokenError::NotRegistered => "The account is not registered"@,
            TokenError::InsufficientBalance => "Not enough balance"@,
            TokenError::Overflow => "Balance overflow"@,
            TokenError::AlreadyRegistered => "The account is already registered"@,
            TokenError::NonZeroBalance => "Can't unregister the account with the positive balance without force"@,
            TokenError::ProtocolViolation => "The remote call has not completed"@,
            TokenError::InsufficientGasOrBudget => "More gas is required"@,
            TokenError::InsufficientDeposit => "Not enough deposit"@,
        }
    }

    /// The reason shown to the caller.
    pub fn reason(&self) -> (text: &'static str)
        ensures
            text@ == self.reason_text(),
    {
        match self {
            TokenError::NotRegistered => "The account is not registered",
            TokenError::InsufficientBalance => "Not enough balance",
            TokenError::Overflow => "Balance overflow",
            TokenError::AlreadyRegistered => "The account is already registered",
            TokenError::NonZeroBalance => "Can't unregister the account with the positive balance without force",
            TokenError::ProtocolViolation => "The remote call has not completed",
            TokenError::InsufficientGasOrBudget => "More gas is required",
            TokenError::InsufficientDeposit => "Not enough deposit",
        }
    }
}

} // verus!
