use vstd::prelude::*;
use crate::amounts::ValueClass;
use crate::error::TokenError;
use crate::ledger::{withdrawals, Withdrawal};
use crate::payload::decode_amount;
use crate::settlement::{
    burn_call, burn_resolution, call_for, call_refusal, deposit_call, deposit_resolution,
    dispatched, reported_unused, resolution, resolved, resolved_from, used_of, withdraw_call,
    CallContext, ContinuationToken, Dispatch, FlowKind, RemoteCall, RemoteOutcome, SettledAmount,
    Settlement, SettlementModel, GAS_FOR_FT_CALL, GAS_FOR_RESOLVE,
};
use crate::token::FungibleToken;
use crate::token_model::TokenModel;

verus! {

/// The part of `amount` that the counterparty has used, given the unused part
/// that it reported.
pub fn used_amount(amount: u128, unused: Option<u128>) -> (used: u128)
    ensures
        used == used_of(amount, unused),
        used <= amount,
{
    match unused {
        Some(u) => if u <= amount {
            amount - u
        } else {
            0
        },
        None => 0,
    }
}

/// The unused amount that the outcome of a remote call reports: what the
/// payload of a completed call decodes to, and none for a payload that does not
/// decode and for a failed call. Fails with `ProtocolViolation` where the call
/// has not completed.
pub fn get_unused_amount(outcome: &RemoteOutcome) -> (r: Result<Option<u128>, TokenError>)
    ensures
        match *outcome {
            RemoteOutcome::NotYetResolved => r == Err::<Option<u128>, TokenError>(
                TokenError::ProtocolViolation,
            ),
            _ => r == Ok::<Option<u128>, TokenError>(reported_unused(*outcome)),
        },
{
    match outcome {
        RemoteOutcome::NotYetResolved => Err(TokenError::ProtocolViolation),
        RemoteOutcome::Failure => Ok(None),
        RemoteOutcome::Success(payload) => Ok(decode_amount(payload.as_slice())),
    }
}

/// The part of `amount` that the counterparty has used, as the outcome of the
/// remote call reports it. Fails with `ProtocolViolation` where the call has
/// not completed.
pub fn get_used_amount(amount: u128, outcome: &RemoteOutcome) -> (r: Result<u128, TokenError>)
    ensures
        match *outcome {
            RemoteOutcome::NotYetResolved => r == Err::<u128, TokenError>(
                TokenError::ProtocolViolation,
            ),
            _ => r == Ok::<u128, TokenError>(used_of(amount, reported_unused(*outcome))),
        },
{
    match get_unused_amount(outcome) {
        Ok(unused) => Ok(used_amount(amount, unused)),
        Err(e) => Err(e),
    }
}

/// Tests what the caller brings along: some value must be attached, and the
/// budget must exceed what both steps need.
pub fn check_context(context: &CallContext) -> (r: Result<(), TokenError>)
    ensures
        match r {
            Ok(()) => call_refusal(*context) is None,
            Err(e) => call_refusal(*context) == Some(e),
        },
{
    if context.attached_deposit < 1 {
        Err(TokenError::InsufficientDeposit)
    } else if context.prepaid_gas <= GAS_FOR_FT_CALL {
        Err(TokenError::InsufficientGasOrBudget)
    } else {
        Ok(())
    }
}

/// The remote call of a flow that `context` started.
fn remote_call(
    context: &CallContext,
    kind: FlowKind,
    receiver_id: &String,
    contract_id: &String,
    token_source: &Option<ValueClass>,
    amount: u128,
    msg: String,
) -> (call: RemoteCall)
    requires
        call_refusal(*context) is None,
    ensures
        call@ == call_for(*context, kind, receiver_id@, contract_id@, *token_source, amount, msg@),
{
    RemoteCall {
        token: ContinuationToken {
            kind,
            owner_id: context.predecessor_account_id.clone(),
            receiver_id: receiver_id.clone(),
            contract_id: contract_id.clone(),
            token_source: *token_source,
            amount,
        },
        msg,
        gas: context.prepaid_gas - GAS_FOR_FT_CALL,
        attached_deposit: context.attached_deposit,
        resolve_gas: GAS_FOR_RESOLVE,
    }
}

/// The first steps of the three flows. Each tests the caller's context before
/// anything else, changes the balances at once where the flow asks for it, and
/// hands out the remote call to make. A refused step changes nothing.
pub trait FungibleTokenSender: View<V = TokenModel> + Sized {
    /// Starts a deposit of `amount` out of `contract_id` into `receiver_id`:
    /// see `deposit_call`.
    fn ft_deposit_call(
        &mut self,
        context: &CallContext,
        receiver_id: &String,
        contract_id: &String,
        token_source: &Option<ValueClass>,
        amount: u128,
        msg: String,
    ) -> (r: Result<Dispatch, TokenError>)
        requires
            old(self)@.well_formed(),
        ensures
            final(self)@.well_formed(),
            dispatched(
                old(self)@,
                final(self)@,
                r,
                deposit_call(
                    old(self)@,
                    *context,
                    receiver_id@,
                    contract_id@,
                    *token_source,
                    amount,
                    msg@,
                ),
            ),
    ;

    /// Starts a withdrawal of `amount` from `receiver_id` back into
    /// `contract_id`: see `withdraw_call`.
    fn ft_withdraw_call(
        &mut self,
        context: &CallContext,
        receiver_id: &String,
        contract_id: &String,
        token_source: &Option<ValueClass>,
        amount: u128,
        msg: String,
    ) -> (r: Result<Dispatch, TokenError>)
        requires
            old(self)@.well_formed(),
        ensures
            final(self)@.well_formed(),
            dispatched(
                old(self)@,
                final(self)@,
                r,
                withdraw_call(
                    old(self)@,
                    *context,
                    receiver_id@,
                    contract_id@,
                    *token_source,
                    amount,
                    msg@,
                ),
            ),
    ;

    /// Starts a burn of `amount` out of `contract_id`: see `burn_call`.
    fn ft_burn_call(
        &mut self,
        context: &CallContext,
        contract_id: &String,
        token_source: &Option<ValueClass>,
        amount: u128,
        msg: String,
    ) -> (r: Result<Dispatch, TokenError>)
        requires
            old(self)@.well_formed(),
        ensures
            final(self)@.well_formed(),
            dispatched(
                old(self)@,
                final(self)@,
                r,
                burn_call(old(self)@, *context, contract_id@, *token_source, amount, msg@),
            ),
    ;
}

impl FungibleTokenSender for FungibleToken {
    fn ft_deposit_call(
        &mut self,
        context: &CallContext,
        receiver_id: &String,
        contract_id: &String,
        token_source: &Option<ValueClass>,
        amount: u128,
        msg: String,
    ) -> (r: Result<Dispatch, TokenError>) {
        match check_context(context) {
            Ok(()) => {},
            Err(e) => {
                return Err(e);
            },
        }
        let event = match self.internal_contract_deposit(
            &context.predecessor_account_id,
            amount,
            contract_id,
            receiver_id,
            token_source,
        ) {
            Ok(event) => event,
            Err(e) => {
                return Err(e);
            },
        };
        let call = remote_call(
            context,
            FlowKind::Deposit,
            receiver_id,
            contract_id,
            token_source,
            amount,
            msg,
        );
        Ok(Dispatch { event: Some(event), call })
    }

    fn ft_withdraw_call(
        &mut self,
        context: &CallContext,
        receiver_id: &String,
        contract_id: &String,
        token_source: &Option<ValueClass>,
        amount: u128,
        msg: String,
    ) -> (r: Result<Dispatch, TokenError>) {
        match check_context(context) {
            Ok(()) => {},
            Err(e) => {
                return Err(e);
            },
        }
        let from = Some(receiver_id.clone());
        let event = match self.internal_contract_withdraw(
            &context.predecessor_account_id,
            amount,
            contract_id,
            &from,
            token_source,
        ) {
            Ok((event, _)) => event,
            Err(e) => {
                return Err(e);
            },
        };
        let call = remote_call(
            context,
            FlowKind::Withdraw,
            receiver_id,
            contract_id,
            token_source,
            amount,
            msg,
        );
        Ok(Dispatch { event: Some(event), call })
    }

    fn ft_burn_call(
        &mut self,
        context: &CallContext,
        contract_id: &String,
        token_source: &Option<ValueClass>,
        amount: u128,
        msg: String,
    ) -> (r: Result<Dispatch, TokenError>) {
        match check_context(context) {
            Ok(()) => {},
            Err(e) => {
                return Err(e);
            },
        }
        if !self.is_registered(&context.predecessor_account_id) {
            return Err(TokenError::NotRegistered);
        }
        if !self.holds(&context.predecessor_account_id, contract_id, token_source, amount) {
            return Err(TokenError::InsufficientBalance);
        }
        let call = remote_call(
            context,
            FlowKind::Burn,
            contract_id,
            contract_id,
            token_source,
            amount,
            msg,
        );
        Ok(Dispatch { event: None, call })
    }
}

impl FungibleToken {
    /// Settles a deposit of which the receiver reports `unused`: see
    /// `deposit_resolution`. A refused step changes nothing.
    pub fn settle_deposit(
        &mut self,
        owner_id: &String,
        receiver_id: &String,
        contract_id: &String,
        token_source: &Option<ValueClass>,
        amount: u128,
        unused: Option<u128>,
    ) -> (r: Result<Settlement, TokenError>)
        requires
            old(self).wf(),
        ensures
            final(self).wf(),
            resolved(
                old(self)@,
                final(self)@,
                r,
                deposit_resolution(
                    old(self)@,
                    owner_id@,
                    receiver_id@,
                    contract_id@,
                    *token_source,
                    amount,
                    unused,
                ),
            ),
    {
        let used = used_amount(amount, unused);
        let back: u128 = amount - used;
        let settled = SettledAmount { amount, used };
        if back == 0 {
            let parts: Vec<Withdrawal> = Vec::new();
            assert(withdrawals(parts@) =~= Seq::empty());
            return Ok(Settlement { settled, event: None, parts });
        }
        let from = Some(receiver_id.clone());
        match self.internal_contract_withdraw(owner_id, back, contract_id, &from, token_source) {
            Ok((event, parts)) => Ok(Settlement { settled, event: Some(event), parts }),
            Err(e) => Err(e),
        }
    }

    /// Settles a withdrawal of which the receiver reports `unused`. The
    /// withdrawal stood when the call was made, so the step only reports how
    /// much of it the receiver has acknowledged.
    pub fn settle_withdraw(&self, amount: u128, unused: Option<u128>) -> (settlement: Settlement)
        ensures
            settlement@ == (SettlementModel {
                settled: SettledAmount { amount, used: used_of(amount, unused) },
                event: None,
                parts: Seq::empty(),
            }),
    {
        let parts: Vec<Withdrawal> = Vec::new();
        assert(withdrawals(parts@) =~= Seq::empty());
        Settlement {
            settled: SettledAmount { amount, used: used_amount(amount, unused) },
            event: None,
            parts,
        }
    }

    /// Settles a burn of which the scope reports `unused`: see
    /// `burn_resolution`. A refused step changes nothing.
    pub fn settle_burn(
        &mut self,
        owner_id: &String,
        contract_id: &String,
        token_source: &Option<ValueClass>,
        amount: u128,
        unused: Option<u128>,
    ) -> (r: Result<Settlement, TokenError>)
        requires
            old(self).wf(),
        ensures
            final(self).wf(),
            resolved(
                old(self)@,
                final(self)@,
                r,
                burn_resolution(
                    old(self)@,
                    owner_id@,
                    contract_id@,
                    *token_source,
                    amount,
                    unused,
                ),
            ),
    {
        let used = used_amount(amount, unused);
        let settled = SettledAmount { amount, used };
        if used == 0 {
            let parts: Vec<Withdrawal> = Vec::new();
            assert(withdrawals(parts@) =~= Seq::empty());
            return Ok(Settlement { settled, event: None, parts });
        }
        match self.wrapped_withdraw(owner_id, used, contract_id, token_source) {
            Ok((event, parts)) => Ok(Settlement { settled, event: Some(event), parts }),
            Err(e) => Err(e),
        }
    }

    /// The resolution step of a deposit, from the outcome of the remote call.
    /// Fails with `ProtocolViolation`, changing nothing, where the call has not
    /// completed; else it settles the deposit with the unused amount that the
    /// outcome reports.
    pub fn internal_ft_resolve_deposit(
        &mut self,
        owner_id: &String,
        receiver_id: &String,
        contract_id: &String,
        token_source: &Option<ValueClass>,
        amount: u128,
        outcome: &RemoteOutcome,
    ) -> (r: Result<Settlement, TokenError>)
        requires
            old(self).wf(),
        ensures
            final(self).wf(),
            resolved_from(
                old(self)@,
                final(self)@,
                r,
                *outcome,
                deposit_resolution(
                        old(self)@,
                        owner_id@,
                        receiver_id@,
                        contract_id@,
                        *token_source,
                        amount,
                        reported_unused(*outcome),
                    ),
            ),
    {
        match get_unused_amount(outcome) {
            Ok(unused) => self.settle_deposit(
                owner_id,
                receiver_id,
                contract_id,
                token_source,
                amount,
                unused,
            ),
            Err(e) => Err(e),
        }
    }

    /// The resolution step of a withdrawal, from the outcome of the remote
    /// call. Fails with `ProtocolViolation` where the call has not completed;
    /// else it reports how much the receiver has acknowledged. The withdrawal
    /// stood when the call was made, so no balance changes, whoever withdrew
    /// from whom.
    pub fn internal_ft_resolve_withdraw(
        &mut self,
        owner_id: &String,
        receiver_id: &String,
        contract_id: &String,
        token_source: &Option<ValueClass>,
        amount: u128,
        outcome: &RemoteOutcome,
    ) -> (r: Result<Settlement, TokenError>)
        ensures
            final(self)@ == old(self)@,
            resolved_from(
                old(self)@,
                final(self)@,
                r,
                *outcome,
                Ok(
                    (
                        old(self)@,
                        SettlementModel {
                            settled: SettledAmount {
                                amount,
                                used: used_of(amount, reported_unused(*outcome)),
                            },
                            event: None,
                            parts: Seq::empty(),
                        },
                    ),
                ),
            ),
    {
        match get_unused_amount(outcome) {
            Ok(unused) => Ok(self.settle_withdraw(amount, unused)),
            Err(e) => Err(e),
        }
    }

    /// The resolution step of a burn, from the outcome of the remote call.
    /// Fails with `ProtocolViolation`, changing nothing, where the call has not
    /// completed; else it settles the burn with the unused amount that the
    /// outcome reports.
    pub fn internal_ft_resolve_burn(
        &mut self,
        owner_id: &String,
        contract_id: &String,
        token_source: &Option<ValueClass>,
        amount: u128,
        outcome: &RemoteOutcome,
    ) -> (r: Result<Settlement, TokenError>)
        requires
            old(self).wf(),
        ensures
            final(self).wf(),
            resolved_from(
                old(self)@,
                final(self)@,
                r,
                *outcome,
                burn_resolution(
                        old(self)@,
                        owner_id@,
                        contract_id@,
                        *token_source,
                        amount,
                        reported_unused(*outcome),
                    ),
            ),
    {
        match get_unused_amount(outcome) {
            Ok(unused) => self.settle_burn(owner_id, contract_id, token_source, amount, unused),
            Err(e) => Err(e),
        }
    }

    /// The resolution step of the flow that `token` describes, from the outcome
    /// of the remote call. Fails with `ProtocolViolation`, changing nothing,
    /// where the call has not completed.
    pub fn resolve(&mut self, token: &ContinuationToken, outcome: &RemoteOutcome) -> (r: Result<
        Settlement,
        TokenError,
    >)
        requires
            old(self).wf(),
        ensures
            final(self).wf(),
            resolved_from(
                old(self)@,
                final(self)@,
                r,
                *outcome,
                resolution(old(self)@, token@, reported_unused(*outcome)),
            ),
    {
        match token.kind {
            FlowKind::Deposit => self.internal_ft_resolve_deposit(
                &token.owner_id,
                &token.receiver_id,
                &token.contract_id,
                &token.token_source,
                token.amount,
                outcome,
            ),
            FlowKind::Withdraw => self.internal_ft_resolve_withdraw(
                &token.owner_id,
                &token.receiver_id,
                &token.contract_id,
                &token.token_source,
                token.amount,
                outcome,
            ),
            FlowKind::Burn => self.internal_ft_resolve_burn(
                &token.owner_id,
                &token.contract_id,
                &token.token_source,
                token.amount,
                outcome,
            ),
        }
    }
}

/// The resolution steps of the three flows, as the callback of the remote call
/// reaches them: each takes what the first step was called with, and the
/// outcome of the call.
pub trait FungibleTokenResolver: View<V = TokenModel> + Sized {
    /// Resolves a deposit: see `deposit_resolution`.
    fn ft_resolve_deposit(
        &mut self,
        owner_id: &String,
        receiver_id: &String,
        contract_id: &String,
        token_source: &Option<ValueClass>,
        amount: u128,
        outcome: &RemoteOutcome,
    ) -> (r: Result<Settlement, TokenError>)
        requires
            old(self)@.well_formed(),
        ensures
            final(self)@.well_formed(),
            resolved_from(
                old(self)@,
                final(self)@,
                r,
                *outcome,
                deposit_resolution(
                    old(self)@,
                    owner_id@,
                    receiver_id@,
                    contract_id@,
                    *token_source,
                    amount,
                    reported_unused(*outcome),
                ),
            ),
    ;

    /// Resolves a withdrawal: the withdrawal stood when the call was made, so
    /// nothing changes, and the settlement says how much of it the receiver has
    /// acknowledged.
    fn ft_resolve_withdraw(
        &mut self,
        owner_id: &String,
        receiver_id: &String,
        contract_id: &String,
        token_source: &Option<ValueClass>,
        amount: u128,
        outcome: &RemoteOutcome,
    ) -> (r: Result<Settlement, TokenError>)
        requires
            old(self)@.well_formed(),
        ensures
            final(self)@ == old(self)@,
            resolved_from(
                old(self)@,
                final(self)@,
                r,
                *outcome,
                Ok(
                    (
                        old(self)@,
                        SettlementModel {
                            settled: SettledAmount {
                                amount,
                                used: used_of(amount, reported_unused(*outcome)),
                            },
                            event: None,
                            parts: Seq::empty(),
                        },
                    ),
                ),
            ),
    ;

    /// Resolves a burn: see `burn_resolution`.
    fn ft_resolve_burn(
        &mut self,
        owner_id: &String,
        contract_id: &String,
        token_source: &Option<ValueClass>,
        amount: u128,
        outcome: &RemoteOutcome,
    ) -> (r: Result<Settlement, TokenError>)
        requires
            old(self)@.well_formed(),
        ensures
            final(self)@.well_formed(),
            resolved_from(
                old(self)@,
                final(self)@,
                r,
                *outcome,
                burn_resolution(
                    old(self)@,
                    owner_id@,
                    contract_id@,
                    *token_source,
                    amount,
                    reported_unused(*outcome),
                ),
            ),
    ;
}

impl FungibleTokenResolver for FungibleToken {
    fn ft_resolve_deposit(
        &mut self,
        owner_id: &String,
        receiver_id: &String,
        contract_id: &String,
        token_source: &Option<ValueClass>,
        amount: u128,
        outcome: &RemoteOutcome,
    ) -> (r: Result<Settlement, TokenError>) {
        self.internal_ft_resolve_deposit(
            owner_id,
            receiver_id,
            contract_id,
            token_source,
            amount,
            outcome,
        )
    }

    fn ft_resolve_withdraw(
        &mut self,
        owner_id: &String,
        receiver_id: &String,
        contract_id: &String,
        token_source: &Option<ValueClass>,
        amount: u128,
        outcome: &RemoteOutcome,
    ) -> (r: Result<Settlement, TokenError>) {
        self.internal_ft_resolve_withdraw(
            owner_id,
            receiver_id,
            contract_id,
            token_source,
            amount,
            outcome,
        )
    }

    fn ft_resolve_burn(
        &mut self,
        owner_id: &String,
        contract_id: &String,
        token_source: &Option<ValueClass>,
        amount: u128,
        outcome: &RemoteOutcome,
    ) -> (r: Result<Settlement, TokenError>) {
        self.internal_ft_resolve_burn(owner_id, contract_id, token_source, amount, outcome)
    }
}

} // verus!
