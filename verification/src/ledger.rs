use vstd::prelude::*;
use crate::amounts::{capped, lemma_drawn_is_covered, Amounts, ValueClass};
use crate::error::TokenError;
use crate::ledger_model::{
    lemma_credited_is_well_formed, lemma_debited, lemma_drained, lemma_held_before_grows,
    lemma_held_before_step, lemma_held_before_step_zero, lemma_index_of, lemma_plus_all,
    lemma_plus_first, lemma_scope_within_aggregate, scope_key, taken_before, LedgerModel,
    ScopeBalance, WithdrawalModel,
};

verus! {

/// One part of a withdrawal that was spread over the scopes.
#[derive(Debug, PartialEq, Eq)]
pub struct Withdrawal {
    pub scope: String,
    pub class: ValueClass,
    pub amount: u128,
}

impl View for Withdrawal {
    type V = WithdrawalModel;

    open spec fn view(&self) -> WithdrawalModel {
        WithdrawalModel { scope: self.scope@, class: self.class, amount: self.amount }
    }
}

/// The parts of a withdrawal, each as a mathematical value.
pub open spec fn withdrawals(list: Seq<Withdrawal>) -> Seq<WithdrawalModel> {
    list.map_values(|w: Withdrawal| w@)
}

struct ScopeEntry {
    scope: String,
    amounts: Amounts,
}

/// Balances per scope and per value class, with the aggregate over all scopes.
pub struct Ledger {
    aggregate: Amounts,
    entries: Vec<ScopeEntry>,
}

impl View for Ledger {
    type V = LedgerModel;

    closed spec fn view(&self) -> LedgerModel {
        LedgerModel {
            aggregate: self.aggregate,
            scopes: Seq::new(
                self.entries@.len(),
                |i: int| ScopeBalance { scope: self.entries@[i].scope@, amounts: self.entries@[i].amounts },
            ),
        }
    }
}

impl Ledger {
    /// The invariant of every ledger: see `LedgerModel::well_formed`.
    pub open spec fn wf(&self) -> bool {
        self@.well_formed()
    }

    /// A ledger that knows no scope and holds nothing.
    pub fn new() -> (ledger: Ledger)
        ensures
            ledger.wf(),
            ledger@ == LedgerModel::empty(),
    {
        let ledger = Ledger { aggregate: Amounts::zero(), entries: Vec::new() };
        assert(ledger@.scopes =~= Seq::empty());
        ledger
    }

    /// Where the entry of `scope` stands, if it has one.
    fn find(&self, scope: &String) -> (r: Option<usize>)
        requires
            self.wf(),
        ensures
            match r {
                Some(i) => i < self.entries@.len() && self@.is_registered(scope@) && self@.index_of(
                    scope@,
                ) == i,
                None => !self@.is_registered(scope@),
            },
    {
        let mut i: usize = 0;
        while i < self.entries.len()
            invariant
                i <= self.entries@.len(),
                self.wf(),
                forall|j: int| 0 <= j < i ==> self@.scopes[j].scope != scope@,
            decreases self.entries@.len() - i,
        {
            if self.entries[i].scope == *scope {
                proof {
                    lemma_index_of(self@, i as int);
                }
                return Some(i);
            }
            i += 1;
        }
        None
    }

    /// The number of scopes with an entry.
    pub fn len(&self) -> (n: usize)
        ensures
            n == self@.scopes.len(),
    {
        self.entries.len()
    }

    /// The scope of the entry at `i`, in the order of first deposit; `None`
    /// where there are no more than `i` entries.
    pub fn scope_at(&self, i: usize) -> (scope: Option<&String>)
        ensures
            scope is Some <==> i < self@.scopes.len(),
            scope is Some ==> scope->0@ == self@.scopes[i as int].scope,
    {
        if i < self.entries.len() {
            Some(&self.entries[i].scope)
        } else {
            None
        }
    }

    /// What the entry at `i` holds; `None` where there are no more than `i`
    /// entries.
    pub fn amounts_at(&self, i: usize) -> (amounts: Option<Amounts>)
        ensures
            amounts is Some <==> i < self@.scopes.len(),
            amounts is Some ==> amounts->0 == self@.scopes[i as int].amounts,
    {
        if i < self.entries.len() {
            Some(self.entries[i].amounts)
        } else {
            None
        }
    }

    /// What is held under `scope`, class by class; nothing, where the scope
    /// has no entry.
    pub fn amounts_in(&self, scope: &String) -> (held: Amounts)
        requires
            self.wf(),
        ensures
            held == self@.amounts_of(Some(scope@)),
    {
        match self.find(scope) {
            Some(i) => self.entries[i].amounts,
            None => Amounts::zero(),
        }
    }

    /// What is held under `scope`, class by class; under `None`, in all scopes.
    pub fn amounts(&self, scope: &Option<String>) -> (held: Amounts)
        requires
            self.wf(),
        ensures
            held == self@.amounts_of(scope_key(*scope)),
    {
        match scope {
            None => self.aggregate,
            Some(s) => self.amounts_in(s),
        }
    }

    /// The balance under `scope` in `class`. An unknown scope holds 0. Without a
    /// class the balance is that of both classes, reported as the largest
    /// representable amount where it lies above it.
    pub fn balance_of(&self, scope: &Option<String>, class: &Option<ValueClass>) -> (balance: u128)
        requires
            self.wf(),
        ensures
            balance == capped(self@.balance(scope_key(*scope), *class)),
    {
        self.amounts(scope).balance(class)
    }

    /// Whether the scope has an entry, that is, has ever been credited.
    pub fn is_registered(&self, scope: &String) -> (registered: bool)
        requires
            self.wf(),
        ensures
            registered == self@.is_registered(scope@),
    {
        self.find(scope).is_some()
    }

    /// Adds `delta` under `scope` and to the aggregate, or changes nothing where
    /// one of the two would overflow.
    pub fn credit(&mut self, scope: &String, delta: &Amounts) -> (r: Result<(), TokenError>)
        requires
            old(self).wf(),
        ensures
            final(self).wf(),
            r is Ok <==> old(self)@.can_credit(scope@, *delta),
            r is Ok ==> final(self)@ == old(self)@.credited(scope@, *delta),
            r is Err ==> r->Err_0 == TokenError::Overflow && final(self)@ == old(self)@,
    {
        let aggregate = match self.aggregate.checked_add(delta) {
            Some(sum) => sum,
            None => {
                return Err(TokenError::Overflow);
            },
        };
        proof {
            lemma_credited_is_well_formed(self@, scope@, *delta);
        }
        match self.find(scope) {
            Some(i) => {
                let amounts = match self.entries[i].amounts.checked_add(delta) {
                    Some(sum) => sum,
                    None => {
                        return Err(TokenError::Overflow);
                    },
                };
                self.entries[i].amounts = amounts;
                self.aggregate = aggregate;
                assert(self@.scopes =~= old(self)@.credited(scope@, *delta).scopes);
            },
            None => {
                self.entries.push(ScopeEntry { scope: scope.clone(), amounts: *delta });
                self.aggregate = aggregate;
                assert(self@.scopes =~= old(self)@.credited(scope@, *delta).scopes);
            },
        }
        Ok(())
    }

    /// Takes `delta` from `scope` and from the aggregate, or changes nothing
    /// where the scope does not hold it.
    pub fn debit(&mut self, scope: &String, delta: &Amounts) -> (r: Result<(), TokenError>)
        requires
            old(self).wf(),
        ensures
            final(self).wf(),
            r is Ok <==> old(self)@.can_debit(scope@, *delta),
            r is Ok ==> final(self)@ == old(self)@.debited(scope@, *delta),
            r is Err ==> r->Err_0 == TokenError::InsufficientBalance && final(self)@ == old(self)@,
    {
        match self.find(scope) {
            Some(i) => {
                let amounts = match self.entries[i].amounts.checked_sub(delta) {
                    Some(rest) => rest,
                    None => {
                        return Err(TokenError::InsufficientBalance);
                    },
                };
                proof {
                    lemma_debited(self@, scope@, *delta);
                }
                let aggregate = match self.aggregate.checked_sub(delta) {
                    Some(rest) => rest,
                    None => {
                        return Err(TokenError::InsufficientBalance);
                    },
                };
                self.entries[i].amounts = amounts;
                self.aggregate = aggregate;
                assert(self@.scopes =~= old(self)@.debited(scope@, *delta).scopes);
                Ok(())
            },
            None => {
                if delta.is_zero() {
                    Ok(())
                } else {
                    Err(TokenError::InsufficientBalance)
                }
            },
        }
    }

    /// Increases the balance of `scope` in `class` by `amount`, and the
    /// aggregate with it. Fails with `Overflow`, changing nothing, where either
    /// addition would pass the largest representable amount.
    pub fn deposit(&mut self, scope: &String, class: ValueClass, amount: u128) -> (r: Result<
        (),
        TokenError,
    >)
        requires
            old(self).wf(),
        ensures
            final(self).wf(),
            r is Ok <==> old(self)@.balance(Some(scope@), Some(class)) + amount <= u128::MAX && old(self)@.balance(None, Some(class)) + amount <= u128::MAX,
            r is Ok ==> final(self)@ == old(self)@.credited(scope@, Amounts::only(class, amount)),
            r is Err ==> r->Err_0 == TokenError::Overflow && final(self)@ == old(self)@,
    {
        let delta = Amounts::single(class, amount);
        self.credit(scope, &delta)
    }

    /// Decreases the balance of `scope` by `amount`, and the aggregate with it:
    /// in `class`, or, where none is named, in `Secondary` as far as that
    /// reaches and then in `Primary`. Returns what was taken from each class.
    /// Fails with `InsufficientBalance`, changing nothing, where the scope holds
    /// less than `amount` in the class, or in both classes where none is named.
    pub fn withdraw(&mut self, scope: &String, class: &Option<ValueClass>, amount: u128) -> (r:
        Result<Amounts, TokenError>)
        requires
            old(self).wf(),
        ensures
            final(self).wf(),
            r is Ok <==> amount <= old(self)@.balance(Some(scope@), *class),
            r is Ok ==> r->Ok_0 == old(self)@.amounts_of(Some(scope@)).drawn(*class, amount)
                && final(self)@ == old(self)@.debited(scope@, r->Ok_0),
            r is Err ==> r->Err_0 == TokenError::InsufficientBalance && final(self)@ == old(self)@,
    {
        let held = self.amounts_in(scope);
        match held.draw_down(class, amount) {
            Some(taken) => {
                proof {
                    lemma_drawn_is_covered(held, *class, amount);
                }
                match self.debit(scope, &taken) {
                    Ok(()) => Ok(taken),
                    Err(e) => Err(e),
                }
            },
            None => Err(TokenError::InsufficientBalance),
        }
    }

    /// Takes `amount` in `class` from the scopes in the order of their entries,
    /// from each as much as it holds until `amount` is reached, and from the
    /// aggregate. Returns what was taken where, leaving out the scopes from
    /// which nothing was taken. Fails with `InsufficientBalance`, changing
    /// nothing, where all scopes together hold less than `amount`.
    pub fn drain(&mut self, class: ValueClass, amount: u128) -> (r: Result<
        Vec<Withdrawal>,
        TokenError,
    >)
        requires
            old(self).wf(),
        ensures
            final(self).wf(),
            r is Ok <==> amount <= old(self)@.balance(None, Some(class)),
            r is Ok ==> final(self)@ == old(self)@.drained(class, amount) && withdrawals(r->Ok_0@)
                == old(self)@.shares(class, amount, old(self)@.scopes.len() as int),
            r is Err ==> r->Err_0 == TokenError::InsufficientBalance && final(self)@ == old(self)@,
    {
        if amount > self.aggregate.get(class) {
            return Err(TokenError::InsufficientBalance);
        }
        let ghost before = self@;
        let n: usize = self.entries.len();
        let mut out: Vec<Withdrawal> = Vec::new();
        let mut rest: u128 = amount;
        let mut i: usize = 0;
        proof {
            lemma_held_before_step_zero(before, class);
            assert(withdrawals(out@) =~= before.shares(class, amount, 0));
        }
        while i < n
            invariant
                i <= n,
                n == before.scopes.len(),
                self.entries@.len() == n,
                self.aggregate == before.aggregate,
                rest + taken_before(before, i as int, class, amount) == amount,
                forall|j: int|
                    0 <= j < i ==> self@.scopes[j] == before.drained(class, amount).scopes[j],
                forall|j: int| i <= j < n ==> self@.scopes[j] == before.scopes[j],
                withdrawals(out@) == before.shares(class, amount, i as int),
            decreases n - i,
        {
            let held: u128 = self.entries[i].amounts.get(class);
            let taken: u128 = if rest <= held {
                rest
            } else {
                held
            };
            proof {
                lemma_held_before_step(before, i as int, class);
                assert(taken == before.share(i as int, class, amount));
            }
            let ghost prior = self@;
            if taken > 0 {
                let ghost listed = out@;
                let left = self.entries[i].amounts.less(class, taken);
                let part = Withdrawal { scope: self.entries[i].scope.clone(), class, amount: taken };
                self.entries[i].amounts = left;
                out.push(part);
                rest = rest - taken;
                assert(withdrawals(out@) =~= withdrawals(listed).push(part@));
            }
            proof {
                let target = before.drained(class, amount);
                assert(self@.scopes[i as int].scope == target.scopes[i as int].scope);
                assert(self@.scopes[i as int].amounts == target.scopes[i as int].amounts);
                assert forall|j: int| 0 <= j < i + 1 implies self@.scopes[j] == target.scopes[j] by {
                    if j < i {
                        assert(self@.scopes[j] == prior.scopes[j]);
                    }
                }
                assert forall|j: int| i + 1 <= j < n implies self@.scopes[j] == before.scopes[j] by {
                    assert(self@.scopes[j] == prior.scopes[j]);
                }
            }
            i += 1;
        }
        let ghost emptied = self@.scopes;
        assert(emptied =~= before.drained(class, amount).scopes);
        self.aggregate = self.aggregate.less(class, amount);
        proof {
            lemma_drained(before, class, amount);
            assert(self@.scopes =~= emptied);
        }
        Ok(out)
    }

    /// Takes `amount` from the scopes in the order of their entries: in `class`,
    /// or, where none is named, first in `Secondary` from all scopes, as far as
    /// they hold it, and then the rest in `Primary`. Returns what was taken
    /// where. Fails with `InsufficientBalance`, changing nothing, only where all
    /// scopes together hold less than `amount`.
    pub fn withdraw_any(&mut self, class: &Option<ValueClass>, amount: u128) -> (r: Result<
        Vec<Withdrawal>,
        TokenError,
    >)
        requires
            old(self).wf(),
        ensures
            final(self).wf(),
            r is Ok <==> amount <= old(self)@.balance(None, *class),
            r is Ok ==> final(self)@ == old(self)@.drained_any(*class, amount) && withdrawals(
                r->Ok_0@,
            ) == old(self)@.shares_any(*class, amount),
            r is Err ==> r->Err_0 == TokenError::InsufficientBalance && final(self)@ == old(self)@,
    {
        match class {
            Some(c) => self.drain(*c, amount),
            None => {
                let split = match self.aggregate.draw_down(class, amount) {
                    Some(split) => split,
                    None => {
                        return Err(TokenError::InsufficientBalance);
                    },
                };
                proof {
                    lemma_drawn_is_covered(self.aggregate, *class, amount);
                    lemma_drained(self@, ValueClass::Secondary, split.secondary);
                }
                let mut out = match self.drain(ValueClass::Secondary, split.secondary) {
                    Ok(parts) => parts,
                    Err(e) => {
                        return Err(e);
                    },
                };
                let mut more = match self.drain(ValueClass::Primary, split.primary) {
                    Ok(parts) => parts,
                    Err(e) => {
                        return Err(e);
                    },
                };
                let ghost first = out@;
                let ghost second = more@;
                out.append(&mut more);
                assert(withdrawals(out@) =~= withdrawals(first) + withdrawals(second));
                Ok(out)
            },
        }
    }

    /// Whether every scope of `other` holds here at least what it holds there.
    pub fn holds_all(&self, other: &Ledger) -> (r: bool)
        requires
            self.wf(),
            other.wf(),
        ensures
            r == self@.covers(other@),
    {
        let n: usize = other.entries.len();
        let mut j: usize = 0;
        while j < n
            invariant
                j <= n,
                n == other@.scopes.len(),
                self.wf(),
                other.wf(),
                forall|k: int|
                    0 <= k < j ==> self@.amounts_of(Some(other@.scopes[k].scope)).covers(
                        other@.scopes[k].amounts,
                    ),
            decreases n - j,
        {
            let held = self.amounts_in(&other.entries[j].scope);
            if !held.holds(&other.entries[j].amounts) {
                proof {
                    lemma_index_of(other@, j as int);
                }
                return false;
            }
            j += 1;
        }
        proof {
            assert forall|scope: Seq<char>| #[trigger]
                self@.amounts_of(Some(scope)).covers(other@.amounts_of(Some(scope))) by {
                if other@.is_registered(scope) {
                    let k = other@.index_of(scope);
                    assert(other@.scopes[k].scope == scope);
                }
            }
        }
        true
    }

    /// Takes from every scope what it holds in `other`, and from the aggregate
    /// what `other` holds in all. Fails with `InsufficientBalance`, changing
    /// nothing, where a scope holds less here than in `other`.
    pub fn subtract(&mut self, other: &Ledger) -> (r: Result<(), TokenError>)
        requires
            old(self).wf(),
            other.wf(),
        ensures
            final(self).wf(),
            r is Ok <==> old(self)@.covers(other@),
            r is Ok ==> final(self)@ == old(self)@.without(other@),
            r is Err ==> r->Err_0 == TokenError::InsufficientBalance && final(self)@ == old(self)@,
    {
        if !self.holds_all(other) {
            return Err(TokenError::InsufficientBalance);
        }
        let ghost before = self@;
        let n: usize = other.entries.len();
        let mut j: usize = 0;
        proof {
            lemma_held_before_step_zero(other@, ValueClass::Primary);
            lemma_held_before_step_zero(other@, ValueClass::Secondary);
        }
        while j < n
            invariant
                j <= n,
                n == other@.scopes.len(),
                other.wf(),
                self.wf(),
                before.well_formed(),
                before.covers(other@),
                self@.scopes.len() == before.scopes.len(),
                forall|i: int|
                    0 <= i < self@.scopes.len() ==> #[trigger] self@.scopes[i].scope
                        == before.scopes[i].scope,
                self@.aggregate.primary + other@.held_before(j as int, ValueClass::Primary)
                    == before.aggregate.primary,
                self@.aggregate.secondary + other@.held_before(j as int, ValueClass::Secondary)
                    == before.aggregate.secondary,
                forall|scope: Seq<char>| #[trigger]
                    self@.amounts_of(Some(scope)) == if other@.is_registered(scope)
                        && other@.index_of(scope) < j {
                        before.amounts_of(Some(scope)).minus(other@.amounts_of(Some(scope)))
                    } else {
                        before.amounts_of(Some(scope))
                    },
            decreases n - j,
        {
            let ghost now = self@;
            let ghost name = other@.scopes[j as int].scope;
            let taken = other.entries[j].amounts;
            proof {
                lemma_index_of(other@, j as int);
                lemma_held_before_step(other@, j as int, ValueClass::Primary);
                lemma_held_before_step(other@, j as int, ValueClass::Secondary);
                assert(before.amounts_of(Some(name)).covers(other@.amounts_of(Some(name))));
                assert(now.amounts_of(Some(name)) == before.amounts_of(Some(name)));
                lemma_debited(now, name, taken);
            }
            let done = self.debit(&other.entries[j].scope, &taken);
            assert(done is Ok);
            proof {
                assert forall|scope: Seq<char>| #[trigger]
                    self@.amounts_of(Some(scope)) == if other@.is_registered(scope)
                        && other@.index_of(scope) < j + 1 {
                        before.amounts_of(Some(scope)).minus(other@.amounts_of(Some(scope)))
                    } else {
                        before.amounts_of(Some(scope))
                    } by {
                    if scope != name {
                        assert(self@.amounts_of(Some(scope)) == now.amounts_of(Some(scope)));
                        if other@.is_registered(scope) {
                            let k = other@.index_of(scope);
                            assert(other@.scopes[k].scope == scope);
                        }
                    }
                }
            }
            j += 1;
        }
        proof {
            lemma_held_before_step_zero(other@, ValueClass::Primary);
            lemma_held_before_step_zero(other@, ValueClass::Secondary);
            let target = before.without(other@);
            assert forall|i: int| 0 <= i < self@.scopes.len() implies self@.scopes[i]
                == target.scopes[i] by {
                lemma_index_of(self@, i);
                lemma_index_of(before, i);
                let scope = before.scopes[i].scope;
                assert(self@.scopes[i].scope == scope);
                assert(self@.amounts_of(Some(scope)) == self@.scopes[i].amounts);
                if other@.is_registered(scope) {
                    let k = other@.index_of(scope);
                    assert(0 <= k < n);
                }
            }
            assert(self@.scopes =~= target.scopes);
            assert(self@ =~= target);
        }
        Ok(())
    }

    /// Adds under every scope what it holds in `other`, and to the aggregate
    /// what `other` holds in all. Fails with `Overflow`, changing nothing, where
    /// the aggregate would pass the largest representable amount.
    pub fn add(&mut self, other: &Ledger) -> (r: Result<(), TokenError>)
        requires
            old(self).wf(),
            other.wf(),
        ensures
            final(self).wf(),
            r is Ok <==> old(self)@.aggregate.fits(other@.aggregate),
            r is Ok ==> final(self)@ == old(self)@.plus_all(other@),
            r is Err ==> r->Err_0 == TokenError::Overflow && final(self)@ == old(self)@,
    {
        if self.aggregate.checked_add(&other.aggregate).is_none() {
            return Err(TokenError::Overflow);
        }
        let ghost before = self@;
        let n: usize = other.entries.len();
        let mut j: usize = 0;
        while j < n
            invariant
                j <= n,
                n == other@.scopes.len(),
                other.wf(),
                before.well_formed(),
                before.aggregate.fits(other@.aggregate),
                self@ == before.plus_first(other@, j as int),
            decreases n - j,
        {
            proof {
                lemma_plus_first(before, other@, j as int);
                lemma_plus_first(before, other@, j + 1);
                lemma_index_of(other@, j as int);
                lemma_held_before_step(other@, j as int, ValueClass::Primary);
                lemma_held_before_step(other@, j as int, ValueClass::Secondary);
                lemma_held_before_grows(other@, j + 1, ValueClass::Primary);
                lemma_held_before_grows(other@, j + 1, ValueClass::Secondary);
                lemma_scope_within_aggregate(self@, Some(other@.scopes[j as int].scope));
            }
            let done = self.credit(&other.entries[j].scope, &other.entries[j].amounts);
            assert(done is Ok);
            j += 1;
        }
        proof {
            lemma_plus_all(before, other@);
        }
        Ok(())
    }
}

} // verus!
