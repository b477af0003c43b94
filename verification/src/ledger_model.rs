use vstd::prelude::*;
use crate::amounts::{Amounts, ValueClass};

verus! {

/// What is held under one scope.
#[verifier::ext_equal]
pub struct ScopeBalance {
    pub scope: Seq<char>,
    pub amounts: Amounts,
}

/// A ledger as a mathematical value: the scopes it knows, in the order in which
/// they first received value, and the aggregate over all of them, which is what
/// the ledger answers for the scope `None`.
#[verifier::ext_equal]
pub struct LedgerModel {
    pub aggregate: Amounts,
    pub scopes: Seq<ScopeBalance>,
}

/// One part of a withdrawal that was spread over the scopes: what was taken
/// from one scope, in one class.
pub struct WithdrawalModel {
    pub scope: Seq<char>,
    pub class: ValueClass,
    pub amount: u128,
}

/// The sum over `scopes` of what each holds in `class`.
pub open spec fn sum_of(scopes: Seq<ScopeBalance>, class: ValueClass) -> nat
    decreases scopes.len(),
{
    if scopes.len() == 0 {
        0
    } else {
        sum_of(scopes.drop_last(), class) + scopes.last().amounts.of(class) as nat
    }
}

/// The scope that an optional identifier names.
pub open spec fn scope_key(scope: Option<String>) -> Option<Seq<char>> {
    match scope {
        Some(s) => Some(s@),
        None => None,
    }
}

impl LedgerModel {
    /// The ledger that knows no scope and holds nothing.
    pub open spec fn empty() -> LedgerModel {
        LedgerModel { aggregate: Amounts::none(), scopes: Seq::empty() }
    }

    /// The scope has an entry of its own.
    pub open spec fn is_registered(self, scope: Seq<char>) -> bool {
        exists|i: int| 0 <= i < self.scopes.len() && self.scopes[i].scope == scope
    }

    /// Where the entry of a registered scope stands.
    pub open spec fn index_of(self, scope: Seq<char>) -> int {
        choose|i: int| 0 <= i < self.scopes.len() && self.scopes[i].scope == scope
    }

    /// What is held under `scope`: the aggregate for `None`, nothing for a scope
    /// without an entry.
    pub open spec fn amounts_of(self, scope: Option<Seq<char>>) -> Amounts {
        match scope {
            None => self.aggregate,
            Some(s) => if self.is_registered(s) {
                self.scopes[self.index_of(s)].amounts
            } else {
                Amounts::none()
            },
        }
    }

    /// The balance under `scope` in `class`; without a class, of both classes.
    pub open spec fn balance(self, scope: Option<Seq<char>>, class: Option<ValueClass>) -> nat {
        self.amounts_of(scope).amount(class)
    }

    /// No scope has two entries.
    pub open spec fn distinct(self) -> bool {
        forall|i: int, j: int|
            0 <= i < j < self.scopes.len() ==> self.scopes[i].scope != self.scopes[j].scope
    }

    /// No scope has two entries, and the aggregate is, class by class, the sum
    /// over the scopes.
    pub open spec fn well_formed(self) -> bool {
        &&& self.distinct()
        &&& self.aggregate.primary == sum_of(self.scopes, ValueClass::Primary)
        &&& self.aggregate.secondary == sum_of(self.scopes, ValueClass::Secondary)
    }

    /// Neither the scope's entry nor the aggregate would overflow by `delta`.
    pub open spec fn can_credit(self, scope: Seq<char>, delta: Amounts) -> bool {
        self.amounts_of(Some(scope)).fits(delta) && self.aggregate.fits(delta)
    }

    /// The scope holds `delta`.
    pub open spec fn can_debit(self, scope: Seq<char>, delta: Amounts) -> bool {
        self.amounts_of(Some(scope)).covers(delta)
    }

    /// The ledger after `delta` was added under `scope` and to the aggregate. A
    /// scope without an entry gets one, behind the others.
    pub open spec fn credited(self, scope: Seq<char>, delta: Amounts) -> LedgerModel {
        LedgerModel {
            aggregate: self.aggregate.plus(delta),
            scopes: if self.is_registered(scope) {
                let i = self.index_of(scope);
                self.scopes.update(
                    i,
                    ScopeBalance { scope, amounts: self.scopes[i].amounts.plus(delta) },
                )
            } else {
                self.scopes.push(ScopeBalance { scope, amounts: delta })
            },
        }
    }

    /// The ledger after `delta` was taken from `scope` and from the aggregate.
    pub open spec fn debited(self, scope: Seq<char>, delta: Amounts) -> LedgerModel {
        if self.is_registered(scope) {
            let i = self.index_of(scope);
            LedgerModel {
                aggregate: self.aggregate.minus(delta),
                scopes: self.scopes.update(
                    i,
                    ScopeBalance { scope, amounts: self.scopes[i].amounts.minus(delta) },
                ),
            }
        } else {
            self
        }
    }

    /// What the entries before the one at `i` hold in `class`.
    pub open spec fn held_before(self, i: int, class: ValueClass) -> nat {
        sum_of(self.scopes.take(i), class)
    }

    /// What a withdrawal of `amount` that is spread over the scopes takes from
    /// the entry at `i`: the entries are drained in order, so it is what is left
    /// to take after the entries before it, as far as the entry holds it.
    pub open spec fn share(self, i: int, class: ValueClass, amount: u128) -> u128 {
        let before = self.held_before(i, class);
        let held = self.scopes[i].amounts.of(class);
        if amount <= before {
            0
        } else if amount - before <= held {
            (amount - before) as u128
        } else {
            held
        }
    }

    /// The ledger after `amount` in `class` was taken from the scopes in order.
    pub open spec fn drained(self, class: ValueClass, amount: u128) -> LedgerModel {
        LedgerModel {
            aggregate: self.aggregate.minus(Amounts::only(class, amount)),
            scopes: Seq::new(
                self.scopes.len(),
                |i: int|
                    ScopeBalance {
                        scope: self.scopes[i].scope,
                        amounts: self.scopes[i].amounts.minus(
                            Amounts::only(class, self.share(i, class, amount)),
                        ),
                    },
            ),
        }
    }

    /// What such a withdrawal takes from the entries before the one at `upto`,
    /// in their order. An entry from which nothing is taken is left out.
    pub open spec fn shares(self, class: ValueClass, amount: u128, upto: int) -> Seq<
        WithdrawalModel,
    >
        decreases upto,
    {
        if upto <= 0 {
            Seq::empty()
        } else {
            let before = self.shares(class, amount, upto - 1);
            let taken = self.share(upto - 1, class, amount);
            if taken > 0 {
                before.push(
                    WithdrawalModel { scope: self.scopes[upto - 1].scope, class, amount: taken },
                )
            } else {
                before
            }
        }
    }

    /// The ledger after a withdrawal of `amount` that is spread over the scopes:
    /// in `class`, or, where none is named, in `Secondary` as far as the
    /// aggregate holds it and then in `Primary`.
    pub open spec fn drained_any(self, class: Option<ValueClass>, amount: u128) -> LedgerModel {
        match class {
            Some(c) => self.drained(c, amount),
            None => {
                let split = self.aggregate.drawn(None, amount);
                self.drained(ValueClass::Secondary, split.secondary).drained(
                    ValueClass::Primary,
                    split.primary,
                )
            },
        }
    }

    /// What such a withdrawal takes, scope by scope; where no class is named,
    /// all that is taken in `Secondary` comes before what is taken in `Primary`.
    pub open spec fn shares_any(self, class: Option<ValueClass>, amount: u128) -> Seq<
        WithdrawalModel,
    > {
        match class {
            Some(c) => self.shares(c, amount, self.scopes.len() as int),
            None => {
                let split = self.aggregate.drawn(None, amount);
                self.shares(ValueClass::Secondary, split.secondary, self.scopes.len() as int)
                    + self.drained(ValueClass::Secondary, split.secondary).shares(
                    ValueClass::Primary,
                    split.primary,
                    self.scopes.len() as int,
                )
            },
        }
    }

    /// Every scope of `other` holds here at least what it holds there.
    pub open spec fn covers(self, other: LedgerModel) -> bool {
        forall|scope: Seq<char>| #[trigger]
            self.amounts_of(Some(scope)).covers(other.amounts_of(Some(scope)))
    }

    /// The ledger after all that `other` holds was taken from it, scope by scope.
    pub open spec fn without(self, other: LedgerModel) -> LedgerModel {
        LedgerModel {
            aggregate: self.aggregate.minus(other.aggregate),
            scopes: Seq::new(
                self.scopes.len(),
                |i: int|
                    ScopeBalance {
                        scope: self.scopes[i].scope,
                        amounts: self.scopes[i].amounts.minus(
                            other.amounts_of(Some(self.scopes[i].scope)),
                        ),
                    },
            ),
        }
    }

    /// The ledger after what the first `upto` scopes of `other` hold was added,
    /// scope by scope in their order. A scope that this ledger does not know
    /// gets an entry behind those it has.
    pub open spec fn plus_first(self, other: LedgerModel, upto: int) -> LedgerModel
        decreases upto,
    {
        if upto <= 0 {
            self
        } else {
            self.plus_first(other, upto - 1).credited(
                other.scopes[upto - 1].scope,
                other.scopes[upto - 1].amounts,
            )
        }
    }

    /// The ledger after all that `other` holds was added.
    pub open spec fn plus_all(self, other: LedgerModel) -> LedgerModel {
        self.plus_first(other, other.scopes.len() as int)
    }
}

/// The sum of all that a spread withdrawal takes from the entries before `i`:
/// `amount`, or all they hold where that is less.
pub open spec fn taken_before(m: LedgerModel, i: int, class: ValueClass, amount: u128) -> nat {
    if amount <= m.held_before(i, class) {
        amount as nat
    } else {
        m.held_before(i, class)
    }
}

/// A new last entry adds what it holds to the sum.
pub proof fn lemma_sum_push(scopes: Seq<ScopeBalance>, entry: ScopeBalance, class: ValueClass)
    ensures
        sum_of(scopes.push(entry), class) == sum_of(scopes, class) + entry.amounts.of(class),
{
    assert(scopes.push(entry).drop_last() =~= scopes);
}

/// Replacing an entry changes the sum by the difference of what the two hold.
pub proof fn lemma_sum_update(
    scopes: Seq<ScopeBalance>,
    i: int,
    entry: ScopeBalance,
    class: ValueClass,
)
    requires
        0 <= i < scopes.len(),
    ensures
        sum_of(scopes.update(i, entry), class) + scopes[i].amounts.of(class) == sum_of(
            scopes,
            class,
        ) + entry.amounts.of(class),
    decreases scopes.len(),
{
    let updated = scopes.update(i, entry);
    if i == scopes.len() - 1 {
        assert(updated.drop_last() =~= scopes.drop_last());
    } else {
        assert(updated.drop_last() =~= scopes.drop_last().update(i, entry));
        lemma_sum_update(scopes.drop_last(), i, entry, class);
    }
}

/// No entry holds more than the sum over all entries.
pub proof fn lemma_sum_bounds(scopes: Seq<ScopeBalance>, i: int, class: ValueClass)
    requires
        0 <= i < scopes.len(),
    ensures
        scopes[i].amounts.of(class) <= sum_of(scopes, class),
    decreases scopes.len(),
{
    if i < scopes.len() - 1 {
        lemma_sum_bounds(scopes.drop_last(), i, class);
    }
}

/// In a ledger without double entries, an entry is found where it stands.
pub proof fn lemma_index_of(m: LedgerModel, i: int)
    requires
        m.distinct(),
        0 <= i < m.scopes.len(),
    ensures
        m.is_registered(m.scopes[i].scope),
        m.index_of(m.scopes[i].scope) == i,
        m.amounts_of(Some(m.scopes[i].scope)) == m.scopes[i].amounts,
{
    let j = m.index_of(m.scopes[i].scope);
    if j < i {
        assert(m.scopes[j].scope != m.scopes[i].scope);
    } else if i < j {
        assert(m.scopes[i].scope != m.scopes[j].scope);
    }
}

/// Under no scope is more held than in the aggregate.
pub proof fn lemma_scope_within_aggregate(m: LedgerModel, scope: Option<Seq<char>>)
    requires
        m.well_formed(),
    ensures
        m.aggregate.covers(m.amounts_of(scope)),
{
    if let Some(s) = scope {
        if m.is_registered(s) {
            let i = m.index_of(s);
            lemma_sum_bounds(m.scopes, i, ValueClass::Primary);
            lemma_sum_bounds(m.scopes, i, ValueClass::Secondary);
        }
    }
}

/// What a credit does to every balance: the scope and the aggregate grow by
/// `delta`, every other scope keeps what it held, and the scope has an entry.
pub proof fn lemma_credited(m: LedgerModel, scope: Seq<char>, delta: Amounts)
    requires
        m.well_formed(),
        m.can_credit(scope, delta),
    ensures
        m.credited(scope, delta).well_formed(),
        m.credited(scope, delta).is_registered(scope),
        m.credited(scope, delta).amounts_of(None) == m.amounts_of(None).plus(delta),
        m.credited(scope, delta).amounts_of(Some(scope)) == m.amounts_of(Some(scope)).plus(delta),
        forall|other: Seq<char>|
            other != scope ==> #[trigger] m.credited(scope, delta).amounts_of(Some(other))
                == m.amounts_of(Some(other)) && m.credited(scope, delta).is_registered(other)
                == m.is_registered(other),
{
    let after = m.credited(scope, delta);
    if m.is_registered(scope) {
        let i = m.index_of(scope);
        let entry = ScopeBalance { scope, amounts: m.scopes[i].amounts.plus(delta) };
        lemma_sum_update(m.scopes, i, entry, ValueClass::Primary);
        lemma_sum_update(m.scopes, i, entry, ValueClass::Secondary);
        assert(after.distinct());
        lemma_index_of(after, i);
        assert forall|other: Seq<char>| other != scope implies #[trigger] after.amounts_of(
            Some(other),
        ) == m.amounts_of(Some(other)) && after.is_registered(other) == m.is_registered(other) by {
            if m.is_registered(other) {
                let j = m.index_of(other);
                assert(after.scopes[j].scope == other);
                lemma_index_of(after, j);
            } else if after.is_registered(other) {
                let j = after.index_of(other);
                assert(m.scopes[j].scope == other);
            }
        }
    } else {
        let entry = ScopeBalance { scope, amounts: delta };
        let n = m.scopes.len() as int;
        lemma_sum_push(m.scopes, entry, ValueClass::Primary);
        lemma_sum_push(m.scopes, entry, ValueClass::Secondary);
        assert(after.distinct()) by {
            assert forall|i: int, j: int| 0 <= i < j < after.scopes.len() implies after.scopes[i].scope
                != after.scopes[j].scope by {
                if j == n {
                    assert(m.scopes[i].scope != scope);
                }
            }
        }
        assert(after.scopes[n].scope == scope);
        lemma_index_of(after, n);
        assert forall|other: Seq<char>| other != scope implies #[trigger] after.amounts_of(
            Some(other),
        ) == m.amounts_of(Some(other)) && after.is_registered(other) == m.is_registered(other) by {
            if m.is_registered(other) {
                let j = m.index_of(other);
                assert(after.scopes[j].scope == other);
                lemma_index_of(after, j);
            } else if after.is_registered(other) {
                let j = after.index_of(other);
                assert(m.scopes[j].scope == other);
            }
        }
    }
}

/// A credit that fits keeps the ledger well formed, and no entry holds more
/// than the aggregate, so an entry fits where the aggregate does.
pub proof fn lemma_credited_is_well_formed(m: LedgerModel, scope: Seq<char>, delta: Amounts)
    requires
        m.well_formed(),
        m.aggregate.fits(delta),
    ensures
        m.can_credit(scope, delta),
        m.credited(scope, delta).well_formed(),
{
    lemma_scope_within_aggregate(m, Some(scope));
    lemma_credited(m, scope, delta);
}

/// What a debit does to every balance: the scope and the aggregate shrink by
/// `delta`, every other scope keeps what it held, and no entry comes or goes.
pub proof fn lemma_debited(m: LedgerModel, scope: Seq<char>, delta: Amounts)
    requires
        m.well_formed(),
        m.can_debit(scope, delta),
    ensures
        m.debited(scope, delta).well_formed(),
        m.aggregate.covers(delta),
        m.debited(scope, delta).amounts_of(None) == m.amounts_of(None).minus(delta),
        m.debited(scope, delta).amounts_of(Some(scope)) == m.amounts_of(Some(scope)).minus(delta),
        forall|other: Seq<char>| #[trigger]
            m.debited(scope, delta).is_registered(other) == m.is_registered(other),
        forall|other: Seq<char>|
            other != scope ==> #[trigger] m.debited(scope, delta).amounts_of(Some(other))
                == m.amounts_of(Some(other)),
{
    let after = m.debited(scope, delta);
    lemma_scope_within_aggregate(m, Some(scope));
    if m.is_registered(scope) {
        let i = m.index_of(scope);
        let entry = ScopeBalance { scope, amounts: m.scopes[i].amounts.minus(delta) };
        lemma_sum_update(m.scopes, i, entry, ValueClass::Primary);
        lemma_sum_update(m.scopes, i, entry, ValueClass::Secondary);
        assert(after.distinct());
        lemma_index_of(after, i);
        assert forall|other: Seq<char>| #[trigger]
            after.is_registered(other) == m.is_registered(other) by {
            if m.is_registered(other) {
                let j = m.index_of(other);
                assert(after.scopes[j].scope == other);
            } else if after.is_registered(other) {
                let j = after.index_of(other);
                assert(m.scopes[j].scope == other);
            }
        }
        assert forall|other: Seq<char>| other != scope implies #[trigger] after.amounts_of(
            Some(other),
        ) == m.amounts_of(Some(other)) by {
            if m.is_registered(other) {
                let j = m.index_of(other);
                assert(after.scopes[j].scope == other);
                lemma_index_of(after, j);
            }
        }
    } else {
        assert(delta == Amounts::none());
    }
}

/// Before the first entry nothing is held, and before the end, all.
pub proof fn lemma_held_before_step_zero(m: LedgerModel, class: ValueClass)
    ensures
        m.held_before(0, class) == 0,
        m.held_before(m.scopes.len() as int, class) == sum_of(m.scopes, class),
{
    assert(m.scopes.take(m.scopes.len() as int) =~= m.scopes);
    assert(m.scopes.take(0).len() == 0);
}

/// One entry further, what that entry holds is held more.
pub proof fn lemma_held_before_step(m: LedgerModel, i: int, class: ValueClass)
    requires
        0 <= i < m.scopes.len(),
    ensures
        m.held_before(i + 1, class) == m.held_before(i, class) + m.scopes[i].amounts.of(class),
{
    assert(m.scopes.take(i + 1).drop_last() =~= m.scopes.take(i));
}

/// The entries before `i` hold no more than all entries.
pub proof fn lemma_held_before_grows(m: LedgerModel, i: int, class: ValueClass)
    requires
        0 <= i <= m.scopes.len(),
    ensures
        m.held_before(i, class) <= sum_of(m.scopes, class),
    decreases m.scopes.len() - i,
{
    if i < m.scopes.len() {
        lemma_held_before_step(m, i, class);
        lemma_held_before_grows(m, i + 1, class);
    } else {
        lemma_held_before_step_zero(m, class);
    }
}

/// Over the entries before `i`, a spread withdrawal leaves the sum of `class`
/// smaller by what it took there, and the sum of the other class as it was.
pub proof fn lemma_drained_sums(m: LedgerModel, class: ValueClass, amount: u128, i: int, c: ValueClass)
    requires
        0 <= i <= m.scopes.len(),
    ensures
        c == class ==> sum_of(m.drained(class, amount).scopes.take(i), c) + taken_before(
            m,
            i,
            class,
            amount,
        ) == m.held_before(i, class),
        c != class ==> sum_of(m.drained(class, amount).scopes.take(i), c) == sum_of(
            m.scopes.take(i),
            c,
        ),
    decreases i,
{
    let after = m.drained(class, amount);
    if i > 0 {
        lemma_drained_sums(m, class, amount, i - 1, c);
        lemma_held_before_step(m, i - 1, class);
        assert(after.scopes.take(i).drop_last() =~= after.scopes.take(i - 1));
        assert(m.scopes.take(i).drop_last() =~= m.scopes.take(i - 1));
    } else {
        assert(after.scopes.take(0).len() == 0);
        assert(m.scopes.take(0).len() == 0);
    }
}

/// What a spread withdrawal that the aggregate covers does: the ledger stays
/// well formed, the aggregate shrinks by `amount` in `class`, no scope holds
/// more than before, and no entry comes or goes.
pub proof fn lemma_drained(m: LedgerModel, class: ValueClass, amount: u128)
    requires
        m.well_formed(),
        amount <= m.aggregate.of(class),
    ensures
        m.drained(class, amount).well_formed(),
        m.drained(class, amount).scopes.len() == m.scopes.len(),
        m.drained(class, amount).amounts_of(None) == m.aggregate.minus(Amounts::only(class, amount)),
        forall|scope: Seq<char>| #[trigger]
            m.drained(class, amount).is_registered(scope) == m.is_registered(scope),
        forall|scope: Seq<char>| #[trigger]
            m.amounts_of(Some(scope)).covers(m.drained(class, amount).amounts_of(Some(scope))),
{
    let after = m.drained(class, amount);
    lemma_drained_sums(m, class, amount, m.scopes.len() as int, ValueClass::Primary);
    lemma_drained_sums(m, class, amount, m.scopes.len() as int, ValueClass::Secondary);
    assert(after.scopes.take(after.scopes.len() as int) =~= after.scopes);
    assert(m.scopes.take(m.scopes.len() as int) =~= m.scopes);
    assert(after.distinct());
    assert forall|scope: Seq<char>| #[trigger]
        after.is_registered(scope) == m.is_registered(scope) by {
        if m.is_registered(scope) {
            let j = m.index_of(scope);
            assert(after.scopes[j].scope == scope);
        } else if after.is_registered(scope) {
            let j = after.index_of(scope);
            assert(m.scopes[j].scope == scope);
        }
    }
    assert forall|scope: Seq<char>| #[trigger]
        m.amounts_of(Some(scope)).covers(after.amounts_of(Some(scope))) by {
        if m.is_registered(scope) {
            let j = m.index_of(scope);
            assert(after.scopes[j].scope == scope);
            lemma_index_of(after, j);
        }
    }
}

/// What a spread withdrawal without a set class does, where the aggregate
/// covers it: the ledger stays well formed, the aggregate shrinks by the split
/// of `amount`, and no entry comes or goes.
pub proof fn lemma_drained_any(m: LedgerModel, class: Option<ValueClass>, amount: u128)
    requires
        m.well_formed(),
        amount <= m.balance(None, class),
    ensures
        m.drained_any(class, amount).well_formed(),
        m.drained_any(class, amount).scopes.len() == m.scopes.len(),
        m.drained_any(class, amount).amounts_of(None) == m.aggregate.minus(
            m.aggregate.drawn(class, amount),
        ),
        forall|scope: Seq<char>| #[trigger]
            m.drained_any(class, amount).is_registered(scope) == m.is_registered(scope),
{
    match class {
        Some(c) => {
            lemma_drained(m, c, amount);
        },
        None => {
            let split = m.aggregate.drawn(None, amount);
            let first = m.drained(ValueClass::Secondary, split.secondary);
            lemma_drained(m, ValueClass::Secondary, split.secondary);
            lemma_drained(first, ValueClass::Primary, split.primary);
            assert forall|scope: Seq<char>| #[trigger]
                m.drained_any(class, amount).is_registered(scope) == m.is_registered(scope) by {
                assert(first.is_registered(scope) == m.is_registered(scope));
            }
        },
    }
}

/// What is left under each scope after all that `other` holds was taken.
pub proof fn lemma_without(m: LedgerModel, other: LedgerModel)
    requires
        m.distinct(),
        m.covers(other),
    ensures
        m.without(other).distinct(),
        forall|scope: Option<Seq<char>>| #[trigger]
            m.without(other).amounts_of(scope) == m.amounts_of(scope).minus(
                other.amounts_of(scope),
            ),
        forall|scope: Seq<char>| #[trigger]
            m.without(other).is_registered(scope) == m.is_registered(scope),
{
    let after = m.without(other);
    assert(after.distinct());
    assert forall|scope: Seq<char>| #[trigger]
        after.is_registered(scope) == m.is_registered(scope) by {
        if m.is_registered(scope) {
            let j = m.index_of(scope);
            assert(after.scopes[j].scope == scope);
        } else if after.is_registered(scope) {
            let j = after.index_of(scope);
            assert(m.scopes[j].scope == scope);
        }
    }
    assert forall|scope: Option<Seq<char>>| #[trigger]
        after.amounts_of(scope) == m.amounts_of(scope).minus(other.amounts_of(scope)) by {
        if let Some(s) = scope {
            assert(m.amounts_of(Some(s)).covers(other.amounts_of(Some(s))));
            if m.is_registered(s) {
                let j = m.index_of(s);
                assert(after.scopes[j].scope == s);
                lemma_index_of(after, j);
            }
        }
    }
}

/// What adding the first `upto` scopes of another ledger does, where the
/// aggregates of the two fit together: the ledger stays well formed, the
/// scopes that were added hold what both held, the others what they held, and
/// the aggregate grows by what was added.
pub proof fn lemma_plus_first(m: LedgerModel, other: LedgerModel, upto: int)
    requires
        m.well_formed(),
        other.well_formed(),
        m.aggregate.fits(other.aggregate),
        0 <= upto <= other.scopes.len(),
    ensures
        m.plus_first(other, upto).well_formed(),
        m.plus_first(other, upto).aggregate.primary == m.aggregate.primary + other.held_before(
            upto,
            ValueClass::Primary,
        ),
        m.plus_first(other, upto).aggregate.secondary == m.aggregate.secondary
            + other.held_before(upto, ValueClass::Secondary),
        forall|scope: Seq<char>| #[trigger]
            m.plus_first(other, upto).amounts_of(Some(scope)) == if other.is_registered(scope)
                && other.index_of(scope) < upto {
                m.amounts_of(Some(scope)).plus(other.amounts_of(Some(scope)))
            } else {
                m.amounts_of(Some(scope))
            },
        forall|scope: Seq<char>| #[trigger]
            m.plus_first(other, upto).is_registered(scope) == (m.is_registered(scope) || (
            other.is_registered(scope) && other.index_of(scope) < upto)),
    decreases upto,
{
    if upto == 0 {
        lemma_held_before_step_zero(other, ValueClass::Primary);
        lemma_held_before_step_zero(other, ValueClass::Secondary);
    } else {
        let k = upto - 1;
        let before = m.plus_first(other, k);
        let name = other.scopes[k].scope;
        let delta = other.scopes[k].amounts;
        lemma_plus_first(m, other, k);
        lemma_index_of(other, k);
        lemma_held_before_step(other, k, ValueClass::Primary);
        lemma_held_before_step(other, k, ValueClass::Secondary);
        lemma_held_before_step_zero(other, ValueClass::Primary);
        lemma_held_before_step_zero(other, ValueClass::Secondary);
        lemma_held_before_grows(other, upto, ValueClass::Primary);
        lemma_held_before_grows(other, upto, ValueClass::Secondary);
        assert(before.amounts_of(Some(name)) == m.amounts_of(Some(name)));
        lemma_scope_within_aggregate(m, Some(name));
        lemma_scope_within_aggregate(before, Some(name));
        assert(before.aggregate.fits(delta));
        lemma_credited(before, name, delta);
        let after = before.credited(name, delta);
        assert forall|scope: Seq<char>| #[trigger]
            after.amounts_of(Some(scope)) == if other.is_registered(scope) && other.index_of(scope)
                < upto {
                m.amounts_of(Some(scope)).plus(other.amounts_of(Some(scope)))
            } else {
                m.amounts_of(Some(scope))
            } by {
            if scope != name {
                assert(after.amounts_of(Some(scope)) == before.amounts_of(Some(scope)));
                if other.is_registered(scope) {
                    let j = other.index_of(scope);
                    assert(other.scopes[j].scope == scope);
                }
            }
        }
        assert forall|scope: Seq<char>| #[trigger]
            after.is_registered(scope) == (m.is_registered(scope) || (other.is_registered(scope)
                && other.index_of(scope) < upto)) by {
            if scope != name {
                assert(after.amounts_of(Some(scope)) == before.amounts_of(Some(scope)));
                assert(after.is_registered(scope) == before.is_registered(scope));
                if other.is_registered(scope) {
                    let j = other.index_of(scope);
                    assert(other.scopes[j].scope == scope);
                }
            }
        }
    }
}

/// What adding all of another ledger does, where the aggregates of the two fit
/// together: under every scope, and in the aggregate, the ledger holds what
/// both held.
pub proof fn lemma_plus_all(m: LedgerModel, other: LedgerModel)
    requires
        m.well_formed(),
        other.well_formed(),
        m.aggregate.fits(other.aggregate),
    ensures
        m.plus_all(other).well_formed(),
        forall|scope: Option<Seq<char>>| #[trigger]
            m.plus_all(other).amounts_of(scope) == m.amounts_of(scope).plus(
                other.amounts_of(scope),
            ),
        forall|scope: Option<Seq<char>>| #[trigger]
            m.amounts_of(scope).fits(other.amounts_of(scope)),
{
    let n = other.scopes.len() as int;
    lemma_plus_first(m, other, n);
    lemma_held_before_step_zero(other, ValueClass::Primary);
    lemma_held_before_step_zero(other, ValueClass::Secondary);
    let after = m.plus_all(other);
    assert forall|scope: Option<Seq<char>>| #[trigger]
        m.amounts_of(scope).fits(other.amounts_of(scope)) by {
        lemma_scope_within_aggregate(m, scope);
        lemma_scope_within_aggregate(other, scope);
    }
    assert forall|scope: Option<Seq<char>>| #[trigger]
        after.amounts_of(scope) == m.amounts_of(scope).plus(other.amounts_of(scope)) by {
        if let Some(s) = scope {
            assert(after.amounts_of(Some(s)) == if other.is_registered(s) && other.index_of(s) < n {
                m.amounts_of(Some(s)).plus(other.amounts_of(Some(s)))
            } else {
                m.amounts_of(Some(s))
            });
            if other.is_registered(s) {
                let j = other.index_of(s);
                assert(0 <= j < n);
            }
        }
    }
}

} // verus!
