use vstd::prelude::*;
use crate::amounts::{lemma_drawn_is_covered, Amounts, ValueClass};
use crate::error::TokenError;
use crate::ledger_model::{lemma_credited, lemma_debited, lemma_index_of, sum_of, LedgerModel};
use crate::settlement::{
    burn_resolution, deposit_call, deposit_resolution, used_of, CallContext, SettlementModel,
};
use crate::token_model::{
    held_by_all, lemma_account_well_formed, lemma_escrowed, lemma_reclaimed, lemma_replaced,
    lemma_supply_covers_account, TokenModel,
};

verus! {

/// The sum of the balances in `class` of the first `upto` scopes of a ledger.
pub open spec fn sum_of_balances(m: LedgerModel, upto: int, class: ValueClass) -> nat
    decreases upto,
{
    if upto <= 0 {
        0
    } else {
        sum_of_balances(m, upto - 1, class) + m.balance(Some(m.scopes[upto - 1].scope), Some(class))
    }
}

/// The balances of the first scopes add up to what their entries hold.
proof fn lemma_sum_of_balances(m: LedgerModel, upto: int, class: ValueClass)
    requires
        m.distinct(),
        0 <= upto <= m.scopes.len(),
    ensures
        sum_of_balances(m, upto, class) == sum_of(m.scopes.take(upto), class),
    decreases upto,
{
    if upto > 0 {
        lemma_sum_of_balances(m, upto - 1, class);
        lemma_index_of(m, upto - 1);
        assert(m.scopes.take(upto).drop_last() =~= m.scopes.take(upto - 1));
    } else {
        assert(m.scopes.take(0).len() == 0);
    }
}

/// In a well-formed ledger the balance under the scope `None` is,
/// in every class, the sum of the balances under the scopes that the ledger
/// knows; a scope that it does not know holds nothing. Every operation on a
/// ledger, an account or the whole state keeps them well formed, so this holds
/// after every one of them.
pub proof fn lemma_aggregate_is_sum_over_scopes(m: LedgerModel, class: ValueClass)
    requires
        m.well_formed(),
    ensures
        m.balance(None, Some(class)) == sum_of_balances(m, m.scopes.len() as int, class),
        forall|scope: Seq<char>|
            !m.is_registered(scope) ==> #[trigger] m.balance(Some(scope), Some(class)) == 0,
{
    lemma_sum_of_balances(m, m.scopes.len() as int, class);
    assert(m.scopes.take(m.scopes.len() as int) =~= m.scopes);
}

/// What an account of a well-formed state has available in all scopes is the
/// sum of what it has available in each, and what it has committed to all
/// counterparties is the sum of what it has committed to each.
pub proof fn lemma_account_aggregates(t: TokenModel, id: Seq<char>, class: ValueClass)
    requires
        t.well_formed(),
    ensures
        t.balance(id, None, Some(class)) == sum_of_balances(
            t.account_of(id).balances,
            t.account_of(id).balances.scopes.len() as int,
            class,
        ),
        t.committed(id, None, Some(class)) == sum_of_balances(
            t.account_of(id).escrow,
            t.account_of(id).escrow.scopes.len() as int,
            class,
        ),
{
    lemma_account_well_formed(t, id);
    lemma_aggregate_is_sum_over_scopes(t.account_of(id).balances, class);
    lemma_aggregate_is_sum_over_scopes(t.account_of(id).escrow, class);
}

/// In a well-formed state the total supply under every scope,
/// the scope `None` too, is in every class the sum over the accounts of what
/// each has available there, and no account has more available than the total
/// supply holds.
pub proof fn lemma_supply_is_sum_over_accounts(
    t: TokenModel,
    scope: Option<Seq<char>>,
    class: ValueClass,
)
    requires
        t.well_formed(),
    ensures
        t.total_supply.balance(scope, Some(class)) == held_by_all(t.accounts, scope, class),
        forall|id: Seq<char>| #[trigger]
            t.balance(id, scope, Some(class)) <= t.total_supply.balance(scope, Some(class)),
{
    assert forall|id: Seq<char>| #[trigger]
        t.balance(id, scope, Some(class)) <= t.total_supply.balance(scope, Some(class)) by {
        lemma_supply_covers_account(t, id, scope);
    }
}

/// A deposit of `amount` in `class` under `scope`, followed at once
/// by a withdrawal of `amount` in `class` from `scope`, is never refused and
/// leaves every balance of the ledger as it was before the deposit.
pub proof fn lemma_deposit_withdraw_round_trip(
    m: LedgerModel,
    scope: Seq<char>,
    class: ValueClass,
    amount: u128,
)
    requires
        m.well_formed(),
        m.can_credit(scope, Amounts::only(class, amount)),
    ensures
        ({
            let deposited = m.credited(scope, Amounts::only(class, amount));
            let taken = deposited.amounts_of(Some(scope)).drawn(Some(class), amount);
            let withdrawn = deposited.debited(scope, taken);
            &&& amount <= deposited.balance(Some(scope), Some(class))
            &&& withdrawn.well_formed()
            &&& forall|key: Option<Seq<char>>| #[trigger]
                withdrawn.amounts_of(key) == m.amounts_of(key)
        }),
{
    let delta = Amounts::only(class, amount);
    let deposited = m.credited(scope, delta);
    lemma_credited(m, scope, delta);
    let taken = deposited.amounts_of(Some(scope)).drawn(Some(class), amount);
    assert(taken == delta);
    lemma_debited(deposited, scope, taken);
    let withdrawn = deposited.debited(scope, taken);
    assert forall|key: Option<Seq<char>>| #[trigger]
        withdrawn.amounts_of(key) == m.amounts_of(key) by {
        if let Some(k) = key {
            if k != scope {
                assert(withdrawn.amounts_of(Some(k)) == deposited.amounts_of(Some(k)));
                assert(deposited.amounts_of(Some(k)) == m.amounts_of(Some(k)));
            }
        }
    }
}

/// Where an account commits `amount` in
/// `class` out of `scope` to a counterparty and takes it back at once, the
/// second step is never refused, and everything is as it was before the first:
/// what the account has available under every scope, what it has committed to
/// every counterparty, the total supply under every scope, and every other
/// account.
pub proof fn lemma_escrow_round_trip(
    t: TokenModel,
    id: Seq<char>,
    scope: Seq<char>,
    counterparty: Seq<char>,
    class: ValueClass,
    amount: u128,
)
    requires
        t.well_formed(),
        t.can_escrow(id, scope, counterparty, Some(class), amount),
    ensures
        ({
            let taken = Amounts::only(class, amount);
            let committed = t.escrowed(id, scope, counterparty, taken);
            let back = committed.reclaimed(id, scope, Some(counterparty), Some(class), amount);
            &&& committed.well_formed()
            &&& committed.can_reclaim(id, scope, Some(counterparty), Some(class), amount)
            &&& back.well_formed()
            &&& forall|key: Option<Seq<char>>| #[trigger]
                back.account_of(id).balances.amounts_of(key) == t.account_of(
                    id,
                ).balances.amounts_of(key)
            &&& forall|key: Option<Seq<char>>| #[trigger]
                back.account_of(id).escrow.amounts_of(key) == t.account_of(id).escrow.amounts_of(
                    key,
                )
            &&& forall|key: Option<Seq<char>>| #[trigger]
                back.total_supply.amounts_of(key) == t.total_supply.amounts_of(key)
            &&& forall|other: Seq<char>|
                other != id ==> #[trigger] back.account_of(other) == t.account_of(other)
        }),
{
    let taken = Amounts::only(class, amount);
    let account = t.account_of(id);
    let committed = t.escrowed(id, scope, counterparty, taken);
    lemma_account_well_formed(t, id);
    lemma_escrowed(t, id, scope, counterparty, taken);
    lemma_debited(account.balances, scope, taken);
    lemma_credited(account.escrow, counterparty, taken);
    lemma_debited(t.total_supply, scope, taken);
    lemma_replaced(
        t,
        id,
        account.escrowed(scope, counterparty, taken),
        t.total_supply.debited(scope, taken),
    );
    lemma_supply_covers_account(t, id, Some(scope));
    lemma_supply_covers_account(t, id, None);
    let between = committed.account_of(id);
    let sent = between.reclaim_split(Some(counterparty), Some(class), amount);
    assert(sent == taken);
    lemma_reclaimed(committed, id, scope, Some(counterparty), Some(class), amount);
    lemma_debited(between.escrow, counterparty, sent);
    lemma_credited(between.balances, scope, sent);
    lemma_credited(committed.total_supply, scope, sent);
    lemma_replaced(
        committed,
        id,
        between.reclaimed(scope, Some(counterparty), Some(class), amount),
        committed.total_supply.credited(scope, sent),
    );
    let back = committed.reclaimed(id, scope, Some(counterparty), Some(class), amount);
    assert forall|key: Option<Seq<char>>| #[trigger]
        back.account_of(id).balances.amounts_of(key) == account.balances.amounts_of(key) by {
        if let Some(k) = key {
            if k != scope {
                assert(back.account_of(id).balances.amounts_of(Some(k))
                    == between.balances.amounts_of(Some(k)));
                assert(between.balances.amounts_of(Some(k)) == account.balances.amounts_of(
                    Some(k),
                ));
            }
        }
    }
    assert forall|key: Option<Seq<char>>| #[trigger]
        back.account_of(id).escrow.amounts_of(key) == account.escrow.amounts_of(key) by {
        if let Some(k) = key {
            if k != counterparty {
                assert(back.account_of(id).escrow.amounts_of(Some(k)) == between.escrow.amounts_of(
                    Some(k),
                ));
                assert(between.escrow.amounts_of(Some(k)) == account.escrow.amounts_of(Some(k)));
            }
        }
    }
    assert forall|key: Option<Seq<char>>| #[trigger]
        back.total_supply.amounts_of(key) == t.total_supply.amounts_of(key) by {
        if let Some(k) = key {
            if k != scope {
                assert(back.total_supply.amounts_of(Some(k)) == committed.total_supply.amounts_of(
                    Some(k),
                ));
                assert(committed.total_supply.amounts_of(Some(k)) == t.total_supply.amounts_of(
                    Some(k),
                ));
            }
        }
    }
    assert forall|other: Seq<char>| other != id implies #[trigger] back.account_of(other)
        == t.account_of(other) by {
        assert(committed.account_of(other) == t.account_of(other));
    }
}

/// Every amount of the state is an unsigned number, so
/// none can fall below zero, and what would take more than is there is refused:
/// a burn of more than the owner has available under the scope and committed
/// to all counterparties together fails with `InsufficientBalance`, and a
/// refused step leaves the state as it was (see `resolved`).
pub proof fn lemma_burn_beyond_holdings_is_refused(
    t: TokenModel,
    owner_id: Seq<char>,
    contract_id: Seq<char>,
    token_source: Option<ValueClass>,
    amount: u128,
    unused: Option<u128>,
)
    requires
        t.well_formed(),
        t.is_registered(owner_id),
        used_of(amount, unused) > t.balance(owner_id, Some(contract_id), token_source)
            + t.committed(owner_id, None, token_source),
    ensures
        burn_resolution(t, owner_id, contract_id, token_source, amount, unused) == Err::<
            (TokenModel, SettlementModel),
            TokenError,
        >(TokenError::InsufficientBalance),
{
}

/// The state after the first step of a deposit.
pub open spec fn after_deposit_call(
    t: TokenModel,
    context: CallContext,
    receiver_id: Seq<char>,
    contract_id: Seq<char>,
    token_source: Option<ValueClass>,
    amount: u128,
    msg: Seq<char>,
) -> TokenModel {
    deposit_call(t, context, receiver_id, contract_id, token_source, amount, msg)->Ok_0.0
}

/// Where the first step of a deposit of `amount` was
/// accepted and the resolution step that follows it at once is accepted too,
/// with whatever the receiver reports, the owner has, of the class that was
/// named or of both classes where none was, `used` less available under the
/// scope and in all scopes, and `used` more committed to the receiver and to
/// all counterparties; `used` is what is left of `amount` after the unused
/// amount that was reported, and nothing where none was reported, as after a
/// failed call. So a deposit that the receiver does not use is reversed in
/// full.
pub proof fn lemma_deposit_then_resolution(
    t: TokenModel,
    context: CallContext,
    receiver_id: Seq<char>,
    contract_id: Seq<char>,
    token_source: Option<ValueClass>,
    amount: u128,
    msg: Seq<char>,
    unused: Option<u128>,
)
    requires
        t.well_formed(),
        deposit_call(t, context, receiver_id, contract_id, token_source, amount, msg) is Ok,
        deposit_resolution(
            after_deposit_call(t, context, receiver_id, contract_id, token_source, amount, msg),
            context.predecessor_account_id@,
            receiver_id,
            contract_id,
            token_source,
            amount,
            unused,
        ) is Ok,
    ensures
        ({
            let owner = context.predecessor_account_id@;
            let started = after_deposit_call(
                t,
                context,
                receiver_id,
                contract_id,
                token_source,
                amount,
                msg,
            );
            let (settled, settlement) = deposit_resolution(
                started,
                owner,
                receiver_id,
                contract_id,
                token_source,
                amount,
                unused,
            )->Ok_0;
            let used = used_of(amount, unused);
            &&& settled.well_formed()
            &&& settlement.settled.amount == amount
            &&& settlement.settled.used == used
            &&& settled.balance(owner, Some(contract_id), token_source) + used == t.balance(
                owner,
                Some(contract_id),
                token_source,
            )
            &&& settled.balance(owner, None, token_source) + used == t.balance(
                owner,
                None,
                token_source,
            )
            &&& settled.committed(owner, Some(receiver_id), token_source) == t.committed(
                owner,
                Some(receiver_id),
                token_source,
            ) + used
            &&& settled.committed(owner, None, token_source) == t.committed(
                owner,
                None,
                token_source,
            ) + used
        }),
{
    let owner = context.predecessor_account_id@;
    let account = t.account_of(owner);
    let held = account.balances.amounts_of(Some(contract_id));
    let taken = t.escrow_split(owner, contract_id, token_source, amount);
    let started = t.escrowed(owner, contract_id, receiver_id, taken);
    let used = used_of(amount, unused);
    let back = (amount - used) as u128;

    lemma_account_well_formed(t, owner);
    lemma_drawn_is_covered(held, token_source, amount);
    lemma_escrowed(t, owner, contract_id, receiver_id, taken);
    lemma_debited(account.balances, contract_id, taken);
    lemma_credited(account.escrow, receiver_id, taken);
    lemma_debited(t.total_supply, contract_id, taken);
    lemma_replaced(
        t,
        owner,
        account.escrowed(contract_id, receiver_id, taken),
        t.total_supply.debited(contract_id, taken),
    );
    let between = started.account_of(owner);
    assert(between == account.escrowed(contract_id, receiver_id, taken));
    if back > 0 {
        let sent = between.reclaim_split(Some(receiver_id), token_source, back);
        lemma_drawn_is_covered(between.committed(Some(receiver_id)), token_source, back);
        lemma_reclaimed(started, owner, contract_id, Some(receiver_id), token_source, back);
        lemma_debited(between.escrow, receiver_id, sent);
        lemma_credited(between.balances, contract_id, sent);
        lemma_replaced(
            started,
            owner,
            between.reclaimed(contract_id, Some(receiver_id), token_source, back),
            started.total_supply.credited(contract_id, sent),
        );
    }
}

/// A deposit in a named class is never held up at its resolution: where the
/// first step was accepted, the resolution step that follows it at once is
/// accepted whatever the receiver reports.
pub proof fn lemma_resolution_of_classed_deposit(
    t: TokenModel,
    context: CallContext,
    receiver_id: Seq<char>,
    contract_id: Seq<char>,
    class: ValueClass,
    amount: u128,
    msg: Seq<char>,
    unused: Option<u128>,
)
    requires
        t.well_formed(),
        deposit_call(t, context, receiver_id, contract_id, Some(class), amount, msg) is Ok,
    ensures
        deposit_resolution(
            after_deposit_call(t, context, receiver_id, contract_id, Some(class), amount, msg),
            context.predecessor_account_id@,
            receiver_id,
            contract_id,
            Some(class),
            amount,
            unused,
        ) is Ok,
{
    let owner = context.predecessor_account_id@;
    let account = t.account_of(owner);
    let held = account.balances.amounts_of(Some(contract_id));
    let taken = Amounts::only(class, amount);
    let started = t.escrowed(owner, contract_id, receiver_id, taken);
    let used = used_of(amount, unused);
    let back = (amount - used) as u128;

    lemma_account_well_formed(t, owner);
    lemma_escrowed(t, owner, contract_id, receiver_id, taken);
    lemma_debited(account.balances, contract_id, taken);
    lemma_credited(account.escrow, receiver_id, taken);
    lemma_debited(t.total_supply, contract_id, taken);
    lemma_replaced(
        t,
        owner,
        account.escrowed(contract_id, receiver_id, taken),
        t.total_supply.debited(contract_id, taken),
    );
    lemma_supply_covers_account(t, owner, Some(contract_id));
    lemma_supply_covers_account(t, owner, None);
}

} // verus!
