use vstd::prelude::*;
use crate::amounts::ValueClass;
use crate::error::TokenError;
use crate::events::{Event, EventKind, EventModel};
use crate::ledger::{withdrawals, Withdrawal};
use crate::ledger_model::WithdrawalModel;
use crate::payload::decoded_amount;
use crate::token_model::TokenModel;

verus! {


/// The execution budget that is kept back for the resolution step.
pub const GAS_FOR_RESOLVE: u64 = 5_000_000_000_000;

/// The execution budget that a call must exceed: what the first step needs,
/// and what is kept back for the resolution step.
pub const GAS_FOR_FT_CALL: u64 = 25_000_000_000_000 + GAS_FOR_RESOLVE;

/// The three movements that are settled around a remote call.
#[derive(Clone, Copy, Debug, PartialEq, Eq, Structural)]
pub enum FlowKind {
    Deposit,
    Withdraw,
    Burn,
}

/// What the caller of a mutating operation brings along.
#[derive(Debug, PartialEq, Eq)]
pub struct CallContext {
    pub predecessor_account_id: String,
    pub attached_deposit: u128,
    pub prepaid_gas: u64,
}

/// What came of the remote call.
#[derive(Debug, PartialEq, Eq)]
pub enum RemoteOutcome {
    /// The call completed and handed back these bytes.
    Success(Vec<u8>),
    /// The call failed.
    Failure,
    /// The call has not completed.
    NotYetResolved,
}

/// A continuation as a mathematical value.
pub struct ContinuationModel {
    pub kind: FlowKind,
    pub owner_id: Seq<char>,
    pub receiver_id: Seq<char>,
    pub contract_id: Seq<char>,
    pub token_source: Option<ValueClass>,
    pub amount: u128,
}

/// What the first step of a flow hands to the resolution step: who moved how
/// much of which class, out of which scope and towards which counterparty.
/// Nothing else is remembered between the two steps.
#[derive(Debug, PartialEq, Eq)]
pub struct ContinuationToken {
    pub kind: FlowKind,
    pub owner_id: String,
    pub receiver_id: String,
    pub contract_id: String,
    pub token_source: Option<ValueClass>,
    pub amount: u128,
}

impl View for ContinuationToken {
    type V = ContinuationModel;

    open spec fn view(&self) -> ContinuationModel {
        ContinuationModel {
            kind: self.kind,
            owner_id: self.owner_id@,
            receiver_id: self.receiver_id@,
            contract_id: self.contract_id@,
            token_source: self.token_source,
            amount: self.amount,
        }
    }
}

/// A remote call as a mathematical value.
pub struct RemoteCallModel {
    pub token: ContinuationModel,
    pub msg: Seq<char>,
    pub gas: u64,
    pub attached_deposit: u128,
    pub resolve_gas: u64,
}

/// The remote call that the first step of a flow asks for: the receiver is told
/// what the token says, with the caller's message, and the resolution step is
/// to follow with the token and the outcome.
#[derive(Debug, PartialEq, Eq)]
pub struct RemoteCall {
    pub token: ContinuationToken,
    pub msg: String,
    /// The budget of the call itself.
    pub gas: u64,
    /// The value that is passed on to the receiver.
    pub attached_deposit: u128,
    /// The budget of the resolution step.
    pub resolve_gas: u64,
}

impl View for RemoteCall {
    type V = RemoteCallModel;

    open spec fn view(&self) -> RemoteCallModel {
        RemoteCallModel {
            token: self.token@,
            msg: self.msg@,
            gas: self.gas,
            attached_deposit: self.attached_deposit,
            resolve_gas: self.resolve_gas,
        }
    }
}

/// The mutation that an operation made, if any, as a mathematical value.
pub open spec fn event_of(event: Option<Event>) -> Option<EventModel> {
    match event {
        Some(e) => Some(e@),
        None => None,
    }
}

/// What the first step of a flow leaves to do: the event to report, where the
/// step changed a balance, and the remote call to make.
#[derive(Debug, PartialEq, Eq)]
pub struct Dispatch {
    pub event: Option<Event>,
    pub call: RemoteCall,
}

/// What the first step leaves to do, as a mathematical value.
pub struct DispatchModel {
    pub event: Option<EventModel>,
    pub call: RemoteCallModel,
}

impl View for Dispatch {
    type V = DispatchModel;

    open spec fn view(&self) -> DispatchModel {
        DispatchModel { event: event_of(self.event), call: self.call@ }
    }
}

/// The amount that a flow was started with, and the part of it that the
/// counterparty has used.
#[derive(Clone, Copy, Debug, PartialEq, Eq, Structural)]
pub struct SettledAmount {
    pub amount: u128,
    pub used: u128,
}

/// What the resolution step has done: the settled amount, the event to report,
/// where the step changed a balance, and what it took from which counterparty.
#[derive(Debug, PartialEq, Eq)]
pub struct Settlement {
    pub settled: SettledAmount,
    pub event: Option<Event>,
    pub parts: Vec<Withdrawal>,
}

/// What the resolution step has done, as a mathematical value.
pub struct SettlementModel {
    pub settled: SettledAmount,
    pub event: Option<EventModel>,
    pub parts: Seq<WithdrawalModel>,
}

impl View for Settlement {
    type V = SettlementModel;

    open spec fn view(&self) -> SettlementModel {
        SettlementModel {
            settled: self.settled,
            event: event_of(self.event),
            parts: withdrawals(self.parts@),
        }
    }
}

/// Why the caller's context rules a mutating operation out: no value is
/// attached, or the budget does not exceed what both steps need.
pub open spec fn call_refusal(context: CallContext) -> Option<TokenError> {
    if context.attached_deposit < 1 {
        Some(TokenError::InsufficientDeposit)
    } else if context.prepaid_gas <= GAS_FOR_FT_CALL {
        Some(TokenError::InsufficientGasOrBudget)
    } else {
        None
    }
}

/// The remote call of a flow that `context` started.
pub open spec fn call_for(
    context: CallContext,
    kind: FlowKind,
    receiver_id: Seq<char>,
    contract_id: Seq<char>,
    token_source: Option<ValueClass>,
    amount: u128,
    msg: Seq<char>,
) -> RemoteCallModel {
    RemoteCallModel {
        token: ContinuationModel {
            kind,
            owner_id: context.predecessor_account_id@,
            receiver_id,
            contract_id,
            token_source,
            amount,
        },
        msg,
        gas: (context.prepaid_gas - GAS_FOR_FT_CALL) as u64,
        attached_deposit: context.attached_deposit,
        resolve_gas: GAS_FOR_RESOLVE,
    }
}

/// The part of `amount` that the counterparty has used, given the unused part
/// that it reported: nothing, where it reported none or more than `amount`.
pub open spec fn used_of(amount: u128, unused: Option<u128>) -> u128 {
    match unused {
        Some(u) => if u <= amount {
            (amount - u) as u128
        } else {
            0
        },
        None => 0,
    }
}

/// The unused amount that the outcome of a remote call reports, if any.
pub open spec fn reported_unused(outcome: RemoteOutcome) -> Option<u128> {
    match outcome {
        RemoteOutcome::Success(payload) => decoded_amount(payload@),
        _ => None,
    }
}

/// The first step of a deposit into an application: the state it leaves and
/// what it leaves to do, or why it is refused. The caller commits `amount` of
/// what it has available under `contract_id` to `receiver_id` at once, before
/// the receiver is told.
pub open spec fn deposit_call(
    t: TokenModel,
    context: CallContext,
    receiver_id: Seq<char>,
    contract_id: Seq<char>,
    token_source: Option<ValueClass>,
    amount: u128,
    msg: Seq<char>,
) -> Result<(TokenModel, DispatchModel), TokenError> {
    let sender = context.predecessor_account_id@;
    if call_refusal(context) is Some {
        Err(call_refusal(context)->0)
    } else if !t.can_escrow(sender, contract_id, receiver_id, token_source, amount) {
        Err(t.escrow_refusal(sender, contract_id, receiver_id, token_source, amount))
    } else {
        Ok(
            (
                t.escrowed(
                    sender,
                    contract_id,
                    receiver_id,
                    t.escrow_split(sender, contract_id, token_source, amount),
                ),
                DispatchModel {
                    event: Some(
                        EventModel {
                            kind: EventKind::Deposit,
                            owner_id: sender,
                            amount,
                            contract_id,
                        },
                    ),
                    call: call_for(
                        context,
                        FlowKind::Deposit,
                        receiver_id,
                        contract_id,
                        token_source,
                        amount,
                        msg,
                    ),
                },
            ),
        )
    }
}

/// The first step of a withdrawal from an application. The caller takes
/// `amount` back from what it has committed to `receiver_id` at once; the
/// receiver is only told.
pub open spec fn withdraw_call(
    t: TokenModel,
    context: CallContext,
    receiver_id: Seq<char>,
    contract_id: Seq<char>,
    token_source: Option<ValueClass>,
    amount: u128,
    msg: Seq<char>,
) -> Result<(TokenModel, DispatchModel), TokenError> {
    let sender = context.predecessor_account_id@;
    if call_refusal(context) is Some {
        Err(call_refusal(context)->0)
    } else if !t.can_reclaim(sender, contract_id, Some(receiver_id), token_source, amount) {
        Err(t.reclaim_refusal(sender, contract_id, Some(receiver_id), token_source, amount))
    } else {
        Ok(
            (
                t.reclaimed(sender, contract_id, Some(receiver_id), token_source, amount),
                DispatchModel {
                    event: Some(
                        EventModel {
                            kind: EventKind::Withdraw,
                            owner_id: sender,
                            amount,
                            contract_id,
                        },
                    ),
                    call: call_for(
                        context,
                        FlowKind::Withdraw,
                        receiver_id,
                        contract_id,
                        token_source,
                        amount,
                        msg,
                    ),
                },
            ),
        )
    }
}

/// The first step of a burn. Nothing is destroyed before the scope has
/// answered: the step only tests that `amount` is available, and asks for the
/// call to the scope itself.
pub open spec fn burn_call(
    t: TokenModel,
    context: CallContext,
    contract_id: Seq<char>,
    token_source: Option<ValueClass>,
    amount: u128,
    msg: Seq<char>,
) -> Result<(TokenModel, DispatchModel), TokenError> {
    let sender = context.predecessor_account_id@;
    if call_refusal(context) is Some {
        Err(call_refusal(context)->0)
    } else if !t.is_registered(sender) {
        Err(TokenError::NotRegistered)
    } else if amount > t.balance(sender, Some(contract_id), token_source) {
        Err(TokenError::InsufficientBalance)
    } else {
        Ok(
            (
                t,
                DispatchModel {
                    event: None,
                    call: call_for(
                        context,
                        FlowKind::Burn,
                        contract_id,
                        contract_id,
                        token_source,
                        amount,
                        msg,
                    ),
                },
            ),
        )
    }
}

/// The resolution of a deposit of which the receiver reports `unused`: what it
/// has used stays committed, and the rest goes back to what the owner has
/// available under `contract_id`.
pub open spec fn deposit_resolution(
    t: TokenModel,
    owner_id: Seq<char>,
    receiver_id: Seq<char>,
    contract_id: Seq<char>,
    token_source: Option<ValueClass>,
    amount: u128,
    unused: Option<u128>,
) -> Result<(TokenModel, SettlementModel), TokenError> {
    let used = used_of(amount, unused);
    let back = (amount - used) as u128;
    let settled = SettledAmount { amount, used };
    if back == 0 {
        Ok((t, SettlementModel { settled, event: None, parts: Seq::empty() }))
    } else if !t.can_reclaim(owner_id, contract_id, Some(receiver_id), token_source, back) {
        Err(t.reclaim_refusal(owner_id, contract_id, Some(receiver_id), token_source, back))
    } else {
        Ok(
            (
                t.reclaimed(owner_id, contract_id, Some(receiver_id), token_source, back),
                SettlementModel {
                    settled,
                    event: Some(
                        EventModel {
                            kind: EventKind::Withdraw,
                            owner_id,
                            amount: back,
                            contract_id,
                        },
                    ),
                    parts: t.account_of(owner_id).reclaimed_parts(
                        Some(receiver_id),
                        token_source,
                        back,
                    ),
                },
            ),
        )
    }
}

/// The resolution of a burn of which the scope reports `unused`: what it has
/// used is destroyed, out of what is available and then out of what is
/// committed; where it has used nothing, nothing happens.
pub open spec fn burn_resolution(
    t: TokenModel,
    owner_id: Seq<char>,
    contract_id: Seq<char>,
    token_source: Option<ValueClass>,
    amount: u128,
    unused: Option<u128>,
) -> Result<(TokenModel, SettlementModel), TokenError> {
    let used = used_of(amount, unused);
    let settled = SettledAmount { amount, used };
    if used == 0 {
        Ok((t, SettlementModel { settled, event: None, parts: Seq::empty() }))
    } else if !t.is_registered(owner_id) {
        Err(TokenError::NotRegistered)
    } else if used > t.balance(owner_id, Some(contract_id), token_source) + t.committed(
        owner_id,
        None,
        token_source,
    ) {
        Err(TokenError::InsufficientBalance)
    } else {
        Ok(
            (
                t.burned_any(owner_id, contract_id, token_source, used),
                SettlementModel {
                    settled,
                    event: Some(
                        EventModel { kind: EventKind::Burn, owner_id, amount: used, contract_id },
                    ),
                    parts: t.burned_parts(owner_id, contract_id, token_source, used),
                },
            ),
        )
    }
}

/// The resolution step of the flow that `token` describes.
pub open spec fn resolution(t: TokenModel, token: ContinuationModel, unused: Option<u128>) -> Result<
    (TokenModel, SettlementModel),
    TokenError,
> {
    match token.kind {
        FlowKind::Deposit => deposit_resolution(
            t,
            token.owner_id,
            token.receiver_id,
            token.contract_id,
            token.token_source,
            token.amount,
            unused,
        ),
        FlowKind::Withdraw => Ok(
            (
                t,
                SettlementModel {
                    settled: SettledAmount {
                        amount: token.amount,
                        used: used_of(token.amount, unused),
                    },
                    event: None,
                    parts: Seq::empty(),
                },
            ),
        ),
        FlowKind::Burn => burn_resolution(
            t,
            token.owner_id,
            token.contract_id,
            token.token_source,
            token.amount,
            unused,
        ),
    }
}

/// The step left the state as `expected` says, and handed out what it says;
/// a refused step left the state as it was.
pub open spec fn dispatched(
    before: TokenModel,
    after: TokenModel,
    r: Result<Dispatch, TokenError>,
    expected: Result<(TokenModel, DispatchModel), TokenError>,
) -> bool {
    match r {
        Ok(dispatch) => expected == Ok::<(TokenModel, DispatchModel), TokenError>(
            (after, dispatch@),
        ),
        Err(e) => expected == Err::<(TokenModel, DispatchModel), TokenError>(e) && after == before,
    }
}

/// The same for a resolution step.
pub open spec fn resolved(
    before: TokenModel,
    after: TokenModel,
    r: Result<Settlement, TokenError>,
    expected: Result<(TokenModel, SettlementModel), TokenError>,
) -> bool {
    match r {
        Ok(settlement) => expected == Ok::<(TokenModel, SettlementModel), TokenError>(
            (after, settlement@),
        ),
        Err(e) => expected == Err::<(TokenModel, SettlementModel), TokenError>(e) && after
            == before,
    }
}

/// The resolution as `expected` says where the call has completed, and
/// `ProtocolViolation` with nothing changed where it has not.
pub open spec fn resolved_from(
    before: TokenModel,
    after: TokenModel,
    r: Result<Settlement, TokenError>,
    outcome: RemoteOutcome,
    expected: Result<(TokenModel, SettlementModel), TokenError>,
) -> bool {
    match outcome {
        RemoteOutcome::NotYetResolved => r is Err && r->Err_0 == TokenError::ProtocolViolation
            && after == before,
        _ => resolved(before, after, r, expected),
    }
}

} // verus!
