use vstd::prelude::*;
use crate::account::AccountModel;
use crate::amounts::{lemma_drawn_is_covered, Amounts, ValueClass};
use crate::error::TokenError;
use crate::ledger_model::{
    lemma_credited, lemma_debited, lemma_drained_any, lemma_plus_all, lemma_without, sum_of,
    LedgerModel, ScopeBalance, WithdrawalModel,
};

verus! {


/// One row of the account table.
#[verifier::ext_equal]
pub struct HolderModel {
    pub id: Seq<char>,
    pub account: AccountModel,
}

/// The whole state as a mathematical value: the account table, in the order of
/// registration, and the record of the total supply.
#[verifier::ext_equal]
pub struct TokenModel {
    pub accounts: Seq<HolderModel>,
    pub total_supply: LedgerModel,
}

/// The sum over `accounts` of what each has available under `scope` in `class`.
pub open spec fn held_by_all(
    accounts: Seq<HolderModel>,
    scope: Option<Seq<char>>,
    class: ValueClass,
) -> nat
    decreases accounts.len(),
{
    if accounts.len() == 0 {
        0
    } else {
        held_by_all(accounts.drop_last(), scope, class) + accounts.last().account.balances.balance(
            scope,
            Some(class),
        )
    }
}

impl TokenModel {
    /// The state without accounts and without supply.
    pub open spec fn empty() -> TokenModel {
        TokenModel { accounts: Seq::empty(), total_supply: LedgerModel::empty() }
    }

    /// The account is in the account table.
    pub open spec fn is_registered(self, id: Seq<char>) -> bool {
        exists|i: int| 0 <= i < self.accounts.len() && self.accounts[i].id == id
    }

    /// Where the row of a registered account stands.
    pub open spec fn index_of(self, id: Seq<char>) -> int {
        choose|i: int| 0 <= i < self.accounts.len() && self.accounts[i].id == id
    }

    /// The account of `id`; an account that holds nothing, where `id` has none.
    pub open spec fn account_of(self, id: Seq<char>) -> AccountModel {
        if self.is_registered(id) {
            self.accounts[self.index_of(id)].account
        } else {
            AccountModel::empty()
        }
    }

    /// What `id` has available under `scope` in `class`.
    pub open spec fn balance(
        self,
        id: Seq<char>,
        scope: Option<Seq<char>>,
        class: Option<ValueClass>,
    ) -> nat {
        self.account_of(id).balances.balance(scope, class)
    }

    /// What `id` has committed to `counterparty` in `class`.
    pub open spec fn committed(
        self,
        id: Seq<char>,
        counterparty: Option<Seq<char>>,
        class: Option<ValueClass>,
    ) -> nat {
        self.account_of(id).escrow.balance(counterparty, class)
    }

    /// No account has two rows.
    pub open spec fn distinct(self) -> bool {
        forall|i: int, j: int|
            0 <= i < j < self.accounts.len() ==> self.accounts[i].id != self.accounts[j].id
    }

    /// The record of the total supply holds, under every scope and in every
    /// class, the sum of what the accounts have available there.
    pub open spec fn supply_mirrors_accounts(self) -> bool {
        forall|scope: Option<Seq<char>>, class: ValueClass|
            self.total_supply.balance(scope, Some(class)) == #[trigger] held_by_all(
                self.accounts,
                scope,
                class,
            )
    }

    /// No account has two rows, every account and the record of the total
    /// supply are well formed, and the supply mirrors the accounts.
    pub open spec fn well_formed(self) -> bool {
        &&& self.distinct()
        &&& forall|i: int|
            0 <= i < self.accounts.len() ==> (#[trigger] self.accounts[i]).account.well_formed()
        &&& self.total_supply.well_formed()
        &&& self.supply_mirrors_accounts()
    }

    /// The state with the account of `id` and the record of the total supply
    /// replaced.
    pub open spec fn replaced(
        self,
        id: Seq<char>,
        account: AccountModel,
        total_supply: LedgerModel,
    ) -> TokenModel {
        TokenModel {
            accounts: self.accounts.update(self.index_of(id), HolderModel { id, account }),
            total_supply,
        }
    }

    /// The state after `id` was given an account that holds nothing.
    pub open spec fn registered(self, id: Seq<char>) -> TokenModel {
        TokenModel {
            accounts: self.accounts.push(HolderModel { id, account: AccountModel::empty() }),
            ..self
        }
    }

    /// The state after `account` was put into the table under `id`: what it
    /// has available joins the total supply.
    pub open spec fn restored(self, id: Seq<char>, account: AccountModel) -> TokenModel {
        TokenModel {
            accounts: self.accounts.push(HolderModel { id, account }),
            total_supply: self.total_supply.plus_all(account.balances),
        }
    }

    /// The state after the account of `id` was closed: its row is gone, and
    /// what it had available is gone from the total supply.
    pub open spec fn unregistered(self, id: Seq<char>) -> TokenModel {
        TokenModel {
            accounts: self.accounts.remove(self.index_of(id)),
            total_supply: self.total_supply.without(self.account_of(id).balances),
        }
    }

    /// The state after `delta` was created in `id` under `scope`.
    pub open spec fn minted(self, id: Seq<char>, scope: Seq<char>, delta: Amounts) -> TokenModel {
        let account = self.account_of(id);
        self.replaced(
            id,
            AccountModel { balances: account.balances.credited(scope, delta), ..account },
            self.total_supply.credited(scope, delta),
        )
    }

    /// The state after `taken` of what `id` has available under `scope` was
    /// destroyed.
    pub open spec fn burned(self, id: Seq<char>, scope: Seq<char>, taken: Amounts) -> TokenModel {
        let account = self.account_of(id);
        self.replaced(
            id,
            AccountModel { balances: account.balances.debited(scope, taken), ..account },
            self.total_supply.debited(scope, taken),
        )
    }

    /// What committing `amount` takes from each class of what `id` has
    /// available under `scope`.
    pub open spec fn escrow_split(
        self,
        id: Seq<char>,
        scope: Seq<char>,
        class: Option<ValueClass>,
        amount: u128,
    ) -> Amounts {
        self.account_of(id).balances.amounts_of(Some(scope)).drawn(class, amount)
    }

    /// `id` can commit `amount` of what it has available under `scope` to
    /// `counterparty`.
    pub open spec fn can_escrow(
        self,
        id: Seq<char>,
        scope: Seq<char>,
        counterparty: Seq<char>,
        class: Option<ValueClass>,
        amount: u128,
    ) -> bool {
        &&& self.is_registered(id)
        &&& amount <= self.balance(id, Some(scope), class)
        &&& self.account_of(id).escrow.can_credit(
            counterparty,
            self.escrow_split(id, scope, class, amount),
        )
    }

    /// Why it cannot, where it cannot.
    pub open spec fn escrow_refusal(
        self,
        id: Seq<char>,
        scope: Seq<char>,
        counterparty: Seq<char>,
        class: Option<ValueClass>,
        amount: u128,
    ) -> TokenError {
        if !self.is_registered(id) {
            TokenError::NotRegistered
        } else if amount > self.balance(id, Some(scope), class) {
            TokenError::InsufficientBalance
        } else {
            TokenError::Overflow
        }
    }

    /// `id` can take `amount` back from what it has committed to `counterparty`
    /// into what it has available under `scope`.
    pub open spec fn can_reclaim(
        self,
        id: Seq<char>,
        scope: Seq<char>,
        counterparty: Option<Seq<char>>,
        class: Option<ValueClass>,
        amount: u128,
    ) -> bool {
        &&& self.is_registered(id)
        &&& amount <= self.committed(id, counterparty, class)
        &&& self.total_supply.can_credit(
            scope,
            self.account_of(id).reclaim_split(counterparty, class, amount),
        )
    }

    /// Why it cannot, where it cannot.
    pub open spec fn reclaim_refusal(
        self,
        id: Seq<char>,
        scope: Seq<char>,
        counterparty: Option<Seq<char>>,
        class: Option<ValueClass>,
        amount: u128,
    ) -> TokenError {
        if !self.is_registered(id) {
            TokenError::NotRegistered
        } else if amount > self.committed(id, counterparty, class) {
            TokenError::InsufficientBalance
        } else {
            TokenError::Overflow
        }
    }

    /// `id` has nothing available and nothing committed.
    pub open spec fn holds_nothing(self, id: Seq<char>) -> bool {
        self.balance(id, None, None) == 0 && self.committed(id, None, None) == 0
    }

    /// How much of a burn of `amount` comes out of what `id` has available
    /// under `scope`: all of it, as far as that reaches.
    pub open spec fn burn_from_balance(
        self,
        id: Seq<char>,
        scope: Seq<char>,
        class: Option<ValueClass>,
        amount: u128,
    ) -> u128 {
        if amount <= self.balance(id, Some(scope), class) {
            amount
        } else {
            self.balance(id, Some(scope), class) as u128
        }
    }

    /// The state after `amount` of the value of `id` was destroyed: what is
    /// available under `scope` goes first, and what is still missing is taken
    /// from what is committed, counterparty by counterparty.
    pub open spec fn burned_any(
        self,
        id: Seq<char>,
        scope: Seq<char>,
        class: Option<ValueClass>,
        amount: u128,
    ) -> TokenModel {
        let account = self.account_of(id);
        let direct = self.burn_from_balance(id, scope, class, amount);
        let taken = account.balances.amounts_of(Some(scope)).drawn(class, direct);
        self.replaced(
            id,
            AccountModel {
                balances: account.balances.debited(scope, taken),
                escrow: account.escrow.drained_any(class, (amount - direct) as u128),
            },
            self.total_supply.debited(scope, taken),
        )
    }

    /// What such a burn took from which counterparty.
    pub open spec fn burned_parts(
        self,
        id: Seq<char>,
        scope: Seq<char>,
        class: Option<ValueClass>,
        amount: u128,
    ) -> Seq<WithdrawalModel> {
        let direct = self.burn_from_balance(id, scope, class, amount);
        self.account_of(id).escrow.shares_any(class, (amount - direct) as u128)
    }

    /// The state after `id` committed `taken` of what it has available under
    /// `scope` to `counterparty`. What is committed is no longer available, so
    /// it leaves the total supply.
    pub open spec fn escrowed(
        self,
        id: Seq<char>,
        scope: Seq<char>,
        counterparty: Seq<char>,
        taken: Amounts,
    ) -> TokenModel {
        self.replaced(
            id,
            self.account_of(id).escrowed(scope, counterparty, taken),
            self.total_supply.debited(scope, taken),
        )
    }

    /// The state after `id` took `amount` back from what it has committed to
    /// `counterparty` into what it has available under `scope`.
    pub open spec fn reclaimed(
        self,
        id: Seq<char>,
        scope: Seq<char>,
        counterparty: Option<Seq<char>>,
        class: Option<ValueClass>,
        amount: u128,
    ) -> TokenModel {
        let account = self.account_of(id);
        self.replaced(
            id,
            account.reclaimed(scope, counterparty, class, amount),
            self.total_supply.credited(scope, account.reclaim_split(counterparty, class, amount)),
        )
    }
}

/// A new last row adds what its account has available to the sum.
pub proof fn lemma_held_push(
    accounts: Seq<HolderModel>,
    holder: HolderModel,
    scope: Option<Seq<char>>,
    class: ValueClass,
)
    ensures
        held_by_all(accounts.push(holder), scope, class) == held_by_all(accounts, scope, class)
            + holder.account.balances.balance(scope, Some(class)),
{
    assert(accounts.push(holder).drop_last() =~= accounts);
}

/// Replacing a row changes the sum by the difference of what the two accounts
/// have available.
pub proof fn lemma_held_update(
    accounts: Seq<HolderModel>,
    i: int,
    holder: HolderModel,
    scope: Option<Seq<char>>,
    class: ValueClass,
)
    requires
        0 <= i < accounts.len(),
    ensures
        held_by_all(accounts.update(i, holder), scope, class)
            + accounts[i].account.balances.balance(scope, Some(class)) == held_by_all(
            accounts,
            scope,
            class,
        ) + holder.account.balances.balance(scope, Some(class)),
    decreases accounts.len(),
{
    let updated = accounts.update(i, holder);
    if i == accounts.len() - 1 {
        assert(updated.drop_last() =~= accounts.drop_last());
    } else {
        assert(updated.drop_last() =~= accounts.drop_last().update(i, holder));
        lemma_held_update(accounts.drop_last(), i, holder, scope, class);
    }
}

/// Taking a row out takes what its account has available out of the sum.
pub proof fn lemma_held_remove(
    accounts: Seq<HolderModel>,
    i: int,
    scope: Option<Seq<char>>,
    class: ValueClass,
)
    requires
        0 <= i < accounts.len(),
    ensures
        held_by_all(accounts.remove(i), scope, class) + accounts[i].account.balances.balance(
            scope,
            Some(class),
        ) == held_by_all(accounts, scope, class),
    decreases accounts.len(),
{
    if i == accounts.len() - 1 {
        assert(accounts.remove(i) =~= accounts.drop_last());
    } else {
        assert(accounts.remove(i).drop_last() =~= accounts.drop_last().remove(i));
        assert(accounts.remove(i).last() == accounts.last());
        lemma_held_remove(accounts.drop_last(), i, scope, class);
    }
}

/// In a table without double rows, a row is found where it stands.
pub proof fn lemma_account_index(t: TokenModel, i: int)
    requires
        t.distinct(),
        0 <= i < t.accounts.len(),
    ensures
        t.is_registered(t.accounts[i].id),
        t.index_of(t.accounts[i].id) == i,
        t.account_of(t.accounts[i].id) == t.accounts[i].account,
{
    let j = t.index_of(t.accounts[i].id);
    if j < i {
        assert(t.accounts[j].id != t.accounts[i].id);
    } else if i < j {
        assert(t.accounts[i].id != t.accounts[j].id);
    }
}

/// Every account of a well-formed state is well formed.
pub proof fn lemma_account_well_formed(t: TokenModel, id: Seq<char>)
    requires
        t.well_formed(),
    ensures
        t.account_of(id).well_formed(),
{
    if t.is_registered(id) {
        assert(t.accounts[t.index_of(id)].account.well_formed());
    } else {
        assert(sum_of(Seq::<ScopeBalance>::empty(), ValueClass::Primary) == 0);
        assert(sum_of(Seq::<ScopeBalance>::empty(), ValueClass::Secondary) == 0);
    }
}

/// The total supply holds, under every scope, at least what any one account
/// has available there.
pub proof fn lemma_supply_covers_account(t: TokenModel, id: Seq<char>, scope: Option<Seq<char>>)
    requires
        t.well_formed(),
    ensures
        t.total_supply.amounts_of(scope).covers(t.account_of(id).balances.amounts_of(scope)),
{
    if t.is_registered(id) {
        let i = t.index_of(id);
        lemma_held_update(t.accounts, i, t.accounts[i], scope, ValueClass::Primary);
        lemma_held_update(t.accounts, i, t.accounts[i], scope, ValueClass::Secondary);
        lemma_held_bounds(t.accounts, i, scope, ValueClass::Primary);
        lemma_held_bounds(t.accounts, i, scope, ValueClass::Secondary);
        assert(t.total_supply.balance(scope, Some(ValueClass::Primary)) == held_by_all(
            t.accounts,
            scope,
            ValueClass::Primary,
        ));
        assert(t.total_supply.balance(scope, Some(ValueClass::Secondary)) == held_by_all(
            t.accounts,
            scope,
            ValueClass::Secondary,
        ));
    }
}

/// No account has more available than all accounts together.
pub proof fn lemma_held_bounds(
    accounts: Seq<HolderModel>,
    i: int,
    scope: Option<Seq<char>>,
    class: ValueClass,
)
    requires
        0 <= i < accounts.len(),
    ensures
        accounts[i].account.balances.balance(scope, Some(class)) <= held_by_all(
            accounts,
            scope,
            class,
        ),
    decreases accounts.len(),
{
    if i < accounts.len() - 1 {
        lemma_held_bounds(accounts.drop_last(), i, scope, class);
    }
}

/// Replacing the account of `id` changes no other account and no registration.
pub proof fn lemma_replaced(t: TokenModel, id: Seq<char>, account: AccountModel, supply: LedgerModel)
    requires
        t.distinct(),
        t.is_registered(id),
    ensures
        t.replaced(id, account, supply).distinct(),
        t.replaced(id, account, supply).is_registered(id),
        t.replaced(id, account, supply).account_of(id) == account,
        t.replaced(id, account, supply).total_supply == supply,
        forall|other: Seq<char>|
            other != id ==> #[trigger] t.replaced(id, account, supply).account_of(other)
                == t.account_of(other),
        forall|other: Seq<char>| #[trigger]
            t.replaced(id, account, supply).is_registered(other) == t.is_registered(other),
{
    let after = t.replaced(id, account, supply);
    let i = t.index_of(id);
    assert(after.distinct());
    assert(after.accounts[i].id == id);
    lemma_account_index(after, i);
    assert forall|other: Seq<char>| #[trigger]
        after.is_registered(other) == t.is_registered(other) by {
        if t.is_registered(other) {
            let j = t.index_of(other);
            assert(after.accounts[j].id == other);
        } else if after.is_registered(other) {
            let j = after.index_of(other);
            assert(t.accounts[j].id == other);
        }
    }
    assert forall|other: Seq<char>| other != id implies #[trigger] after.account_of(other)
        == t.account_of(other) by {
        if t.is_registered(other) {
            let j = t.index_of(other);
            assert(after.accounts[j].id == other);
            lemma_account_index(after, j);
        }
    }
}

/// The supply mirrors the accounts still, where one account and the record of
/// the total supply have changed by the same amounts under every scope.
pub proof fn lemma_mirror_preserved(
    t: TokenModel,
    id: Seq<char>,
    account: AccountModel,
    supply: LedgerModel,
)
    requires
        t.well_formed(),
        t.is_registered(id),
        account.well_formed(),
        supply.well_formed(),
        forall|scope: Option<Seq<char>>, class: ValueClass|
            #![trigger supply.balance(scope, Some(class))]
            supply.balance(scope, Some(class)) + t.account_of(id).balances.balance(
                scope,
                Some(class),
            ) == t.total_supply.balance(scope, Some(class)) + account.balances.balance(
                scope,
                Some(class),
            ),
    ensures
        t.replaced(id, account, supply).well_formed(),
        t.replaced(id, account, supply).account_of(id) == account,
        forall|other: Seq<char>|
            other != id ==> #[trigger] t.replaced(id, account, supply).account_of(other)
                == t.account_of(other),
        forall|other: Seq<char>| #[trigger]
            t.replaced(id, account, supply).is_registered(other) == t.is_registered(other),
{
    let after = t.replaced(id, account, supply);
    let i = t.index_of(id);
    let holder = HolderModel { id, account };
    assert(after.distinct());
    assert forall|k: int| 0 <= k < after.accounts.len() implies (#[trigger] after.accounts[k])
        .account.well_formed() by {
        if k != i {
            assert(after.accounts[k] == t.accounts[k]);
        }
    }
    assert forall|scope: Option<Seq<char>>, class: ValueClass|
        after.total_supply.balance(scope, Some(class)) == #[trigger] held_by_all(
            after.accounts,
            scope,
            class,
        ) by {
        lemma_held_update(t.accounts, i, holder, scope, class);
        assert(t.total_supply.balance(scope, Some(class)) == held_by_all(t.accounts, scope, class));
        assert(supply.balance(scope, Some(class)) + t.account_of(id).balances.balance(
            scope,
            Some(class),
        ) == t.total_supply.balance(scope, Some(class)) + account.balances.balance(
            scope,
            Some(class),
        ));
    }
    lemma_replaced(t, id, account, supply);
}

/// Minting keeps the state well formed, and an account can take what the
/// total supply can take.
pub proof fn lemma_minted(t: TokenModel, id: Seq<char>, scope: Seq<char>, delta: Amounts)
    requires
        t.well_formed(),
        t.is_registered(id),
        t.total_supply.can_credit(scope, delta),
    ensures
        t.account_of(id).well_formed(),
        t.account_of(id).balances.can_credit(scope, delta),
        t.minted(id, scope, delta).well_formed(),
{
    let account = t.account_of(id);
    let after = AccountModel { balances: account.balances.credited(scope, delta), ..account };
    lemma_account_well_formed(t, id);
    lemma_supply_covers_account(t, id, Some(scope));
    lemma_supply_covers_account(t, id, None);
    lemma_credited(t.total_supply, scope, delta);
    lemma_credited(account.balances, scope, delta);
    let supply = t.total_supply.credited(scope, delta);
    assert forall|key: Option<Seq<char>>, class: ValueClass|
        #![trigger supply.balance(key, Some(class))]
        supply.balance(key, Some(class)) + account.balances.balance(key, Some(class))
            == t.total_supply.balance(key, Some(class)) + after.balances.balance(
            key,
            Some(class),
        ) by {
        if let Some(k) = key {
            if k != scope {
                assert(supply.amounts_of(Some(k)) == t.total_supply.amounts_of(Some(k)));
                assert(after.balances.amounts_of(Some(k)) == account.balances.amounts_of(Some(k)));
            }
        }
    }
    lemma_mirror_preserved(t, id, after, supply);
}

/// Taking from what an account has available, and from the total supply with
/// it, keeps the state well formed; the total supply holds what the account holds.
pub proof fn lemma_burned(t: TokenModel, id: Seq<char>, scope: Seq<char>, taken: Amounts)
    requires
        t.well_formed(),
        t.is_registered(id),
        t.account_of(id).balances.can_debit(scope, taken),
    ensures
        t.account_of(id).well_formed(),
        t.total_supply.can_debit(scope, taken),
        t.burned(id, scope, taken).well_formed(),
{
    let account = t.account_of(id);
    let after = AccountModel { balances: account.balances.debited(scope, taken), ..account };
    lemma_account_well_formed(t, id);
    lemma_debited(account.balances, scope, taken);
    lemma_debited_mirror(t, id, scope, taken, after);
}

/// The step that the operations which take from an account share.
pub proof fn lemma_debited_mirror(
    t: TokenModel,
    id: Seq<char>,
    scope: Seq<char>,
    taken: Amounts,
    after: AccountModel,
)
    requires
        t.well_formed(),
        t.is_registered(id),
        t.account_of(id).balances.can_debit(scope, taken),
        after.well_formed(),
        after.balances == t.account_of(id).balances.debited(scope, taken),
    ensures
        t.account_of(id).well_formed(),
        t.total_supply.can_debit(scope, taken),
        t.replaced(id, after, t.total_supply.debited(scope, taken)).well_formed(),
{
    let account = t.account_of(id);
    lemma_supply_covers_account(t, id, Some(scope));
    lemma_supply_covers_account(t, id, None);
    lemma_debited(t.total_supply, scope, taken);
    lemma_debited(account.balances, scope, taken);
    let supply = t.total_supply.debited(scope, taken);
    assert forall|key: Option<Seq<char>>, class: ValueClass|
        #![trigger supply.balance(key, Some(class))]
        supply.balance(key, Some(class)) + account.balances.balance(key, Some(class))
            == t.total_supply.balance(key, Some(class)) + after.balances.balance(
            key,
            Some(class),
        ) by {
        if let Some(k) = key {
            if k != scope {
                assert(supply.amounts_of(Some(k)) == t.total_supply.amounts_of(Some(k)));
                assert(after.balances.amounts_of(Some(k)) == account.balances.amounts_of(Some(k)));
            }
        }
    }
    lemma_mirror_preserved(t, id, after, supply);
}

/// Committing part of what is available keeps the state well formed.
pub proof fn lemma_escrowed(
    t: TokenModel,
    id: Seq<char>,
    scope: Seq<char>,
    counterparty: Seq<char>,
    taken: Amounts,
)
    requires
        t.well_formed(),
        t.is_registered(id),
        t.account_of(id).balances.can_debit(scope, taken),
        t.account_of(id).escrow.can_credit(counterparty, taken),
    ensures
        t.account_of(id).well_formed(),
        t.total_supply.can_debit(scope, taken),
        t.escrowed(id, scope, counterparty, taken).well_formed(),
{
    let account = t.account_of(id);
    lemma_account_well_formed(t, id);
    lemma_debited(account.balances, scope, taken);
    lemma_credited(account.escrow, counterparty, taken);
    lemma_debited_mirror(t, id, scope, taken, account.escrowed(scope, counterparty, taken));
}

/// Taking committed value back keeps the state well formed, where the total
/// supply can take it.
pub proof fn lemma_reclaimed(
    t: TokenModel,
    id: Seq<char>,
    scope: Seq<char>,
    counterparty: Option<Seq<char>>,
    class: Option<ValueClass>,
    amount: u128,
)
    requires
        t.well_formed(),
        t.is_registered(id),
        amount <= t.account_of(id).escrow.balance(counterparty, class),
        t.total_supply.can_credit(
            scope,
            t.account_of(id).reclaim_split(counterparty, class, amount),
        ),
    ensures
        t.account_of(id).well_formed(),
        t.account_of(id).balances.can_credit(
            scope,
            t.account_of(id).reclaim_split(counterparty, class, amount),
        ),
        t.reclaimed(id, scope, counterparty, class, amount).well_formed(),
{
    let account = t.account_of(id);
    let split = account.reclaim_split(counterparty, class, amount);
    let after = account.reclaimed(scope, counterparty, class, amount);
    lemma_account_well_formed(t, id);
    lemma_drawn_is_covered(account.committed(counterparty), class, amount);
    match counterparty {
        Some(c) => {
            lemma_debited(account.escrow, c, split);
        },
        None => {
            lemma_drained_any(account.escrow, class, amount);
        },
    }
    lemma_supply_covers_account(t, id, Some(scope));
    lemma_supply_covers_account(t, id, None);
    lemma_credited(t.total_supply, scope, split);
    lemma_credited(account.balances, scope, split);
    let supply = t.total_supply.credited(scope, split);
    assert forall|key: Option<Seq<char>>, class: ValueClass|
        #![trigger supply.balance(key, Some(class))]
        supply.balance(key, Some(class)) + account.balances.balance(key, Some(class))
            == t.total_supply.balance(key, Some(class)) + after.balances.balance(
            key,
            Some(class),
        ) by {
        if let Some(k) = key {
            if k != scope {
                assert(supply.amounts_of(Some(k)) == t.total_supply.amounts_of(Some(k)));
                assert(after.balances.amounts_of(Some(k)) == account.balances.amounts_of(Some(k)));
            }
        }
    }
    lemma_mirror_preserved(t, id, after, supply);
}

/// A new account holds nothing, so the supply mirrors the accounts still.
pub proof fn lemma_registered(t: TokenModel, id: Seq<char>)
    requires
        t.well_formed(),
        !t.is_registered(id),
    ensures
        t.registered(id).well_formed(),
        t.registered(id).is_registered(id),
        t.registered(id).account_of(id) == AccountModel::empty(),
{
    let after = t.registered(id);
    let n = t.accounts.len() as int;
    let holder = HolderModel { id, account: AccountModel::empty() };
    assert(after.distinct()) by {
        assert forall|i: int, j: int| 0 <= i < j < after.accounts.len() implies after.accounts[i].id
            != after.accounts[j].id by {
            if j == n {
                assert(t.accounts[i].id != id);
            }
        }
    }
    assert(after.accounts[n] == holder);
    lemma_account_index(after, n);
    assert forall|k: int| 0 <= k < after.accounts.len() implies (#[trigger] after.accounts[k])
        .account.well_formed() by {
        if k < n {
            assert(after.accounts[k] == t.accounts[k]);
        }
    }
    assert forall|scope: Option<Seq<char>>, class: ValueClass|
        after.total_supply.balance(scope, Some(class)) == #[trigger] held_by_all(
            after.accounts,
            scope,
            class,
        ) by {
        lemma_held_push(t.accounts, holder, scope, class);
        assert(t.total_supply.balance(scope, Some(class)) == held_by_all(t.accounts, scope, class));
    }
}

/// Closing an account keeps the state well formed: the total supply holds all
/// that the account has available, and what is left mirrors the other accounts.
pub proof fn lemma_unregistered(t: TokenModel, id: Seq<char>)
    requires
        t.well_formed(),
        t.is_registered(id),
        t.total_supply.covers(t.account_of(id).balances) ==> t.total_supply.without(
            t.account_of(id).balances,
        ).well_formed(),
    ensures
        t.total_supply.covers(t.account_of(id).balances),
        t.unregistered(id).well_formed(),
        !t.unregistered(id).is_registered(id),
{
    let account = t.account_of(id);
    let i = t.index_of(id);
    let after = t.unregistered(id);
    assert forall|scope: Seq<char>| #[trigger]
        t.total_supply.amounts_of(Some(scope)).covers(account.balances.amounts_of(Some(scope))) by {
        lemma_supply_covers_account(t, id, Some(scope));
    }
    lemma_without(t.total_supply, account.balances);
    assert(after.distinct());
    assert forall|k: int| 0 <= k < after.accounts.len() implies (#[trigger] after.accounts[k])
        .account.well_formed() by {
        if k < i {
            assert(after.accounts[k] == t.accounts[k]);
        } else {
            assert(after.accounts[k] == t.accounts[k + 1]);
        }
    }
    assert forall|scope: Option<Seq<char>>, class: ValueClass|
        after.total_supply.balance(scope, Some(class)) == #[trigger] held_by_all(
            after.accounts,
            scope,
            class,
        ) by {
        lemma_held_remove(t.accounts, i, scope, class);
        lemma_supply_covers_account(t, id, scope);
        assert(after.total_supply.amounts_of(scope) == t.total_supply.amounts_of(scope).minus(
            account.balances.amounts_of(scope),
        ));
        assert(t.total_supply.balance(scope, Some(class)) == held_by_all(t.accounts, scope, class));
    }
    if after.is_registered(id) {
        let k = after.index_of(id);
        if k < i {
            assert(after.accounts[k] == t.accounts[k]);
            assert(t.accounts[k].id != t.accounts[i].id);
        } else {
            assert(after.accounts[k] == t.accounts[k + 1]);
            assert(t.accounts[i].id != t.accounts[k + 1].id);
        }
    }
}

/// A burn that what is available and what is committed cover together keeps
/// the state well formed.
pub proof fn lemma_burned_any(
    t: TokenModel,
    id: Seq<char>,
    scope: Seq<char>,
    class: Option<ValueClass>,
    amount: u128,
)
    requires
        t.well_formed(),
        t.is_registered(id),
        amount <= t.balance(id, Some(scope), class) + t.committed(id, None, class),
    ensures
        t.burned_any(id, scope, class, amount).well_formed(),
        t.total_supply.can_debit(
            scope,
            t.account_of(id).balances.amounts_of(Some(scope)).drawn(
                class,
                t.burn_from_balance(id, scope, class, amount),
            ),
        ),
{
    let account = t.account_of(id);
    let direct = t.burn_from_balance(id, scope, class, amount);
    let held = account.balances.amounts_of(Some(scope));
    let taken = held.drawn(class, direct);
    let rest = (amount - direct) as u128;
    lemma_account_well_formed(t, id);
    lemma_drawn_is_covered(held, class, direct);
    lemma_debited(account.balances, scope, taken);
    lemma_drained_any(account.escrow, class, rest);
    let after = AccountModel {
        balances: account.balances.debited(scope, taken),
        escrow: account.escrow.drained_any(class, rest),
    };
    lemma_debited_mirror(t, id, scope, taken, after);
}

/// The total supply holds, scope by scope, what an account has available.
pub proof fn lemma_supply_covers_balances(t: TokenModel, id: Seq<char>)
    requires
        t.well_formed(),
    ensures
        t.total_supply.covers(t.account_of(id).balances),
{
    assert forall|scope: Seq<char>| #[trigger]
        t.total_supply.amounts_of(Some(scope)).covers(
            t.account_of(id).balances.amounts_of(Some(scope)),
        ) by {
        lemma_supply_covers_account(t, id, Some(scope));
    }
}

/// Putting a well-formed account into the table keeps the state well formed,
/// where the total supply can take what the account has available.
pub proof fn lemma_restored(t: TokenModel, id: Seq<char>, account: AccountModel)
    requires
        t.well_formed(),
        !t.is_registered(id),
        account.well_formed(),
        t.total_supply.aggregate.fits(account.balances.aggregate),
    ensures
        t.restored(id, account).well_formed(),
        t.restored(id, account).is_registered(id),
        t.restored(id, account).account_of(id) == account,
{
    let after = t.restored(id, account);
    let n = t.accounts.len() as int;
    let holder = HolderModel { id, account };
    lemma_plus_all(t.total_supply, account.balances);
    assert(after.distinct()) by {
        assert forall|i: int, j: int| 0 <= i < j < after.accounts.len() implies after.accounts[i].id
            != after.accounts[j].id by {
            if j == n {
                assert(t.accounts[i].id != id);
            }
        }
    }
    assert(after.accounts[n] == holder);
    lemma_account_index(after, n);
    assert forall|k: int| 0 <= k < after.accounts.len() implies (#[trigger] after.accounts[k])
        .account.well_formed() by {
        if k < n {
            assert(after.accounts[k] == t.accounts[k]);
        }
    }
    assert forall|scope: Option<Seq<char>>, class: ValueClass|
        after.total_supply.balance(scope, Some(class)) == #[trigger] held_by_all(
            after.accounts,
            scope,
            class,
        ) by {
        lemma_held_push(t.accounts, holder, scope, class);
        assert(t.total_supply.balance(scope, Some(class)) == held_by_all(t.accounts, scope, class));
        assert(after.total_supply.amounts_of(scope) == t.total_supply.amounts_of(scope).plus(
            account.balances.amounts_of(scope),
        ));
        assert(t.total_supply.amounts_of(scope).fits(account.balances.amounts_of(scope)));
    }
}

} // verus!
