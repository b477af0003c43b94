use vstd::prelude::*;
use crate::account::{Account, FungibleTokenAccount};
use crate::amounts::{capped, lemma_drawn_is_covered, Amounts, ValueClass};
use crate::error::TokenError;
use crate::events::{Event, EventKind, EventModel};
use crate::ledger::{withdrawals, Ledger, Withdrawal};
use crate::ledger_model::{scope_key, sum_of, ScopeBalance};
use crate::token_model::{
    held_by_all, lemma_account_index, lemma_account_well_formed, lemma_burned, lemma_burned_any,
    lemma_escrowed, lemma_minted, lemma_reclaimed, lemma_registered, lemma_restored,
    lemma_supply_covers_balances, lemma_unregistered, HolderModel, TokenModel,
};

verus! {

struct Holder {
    id: String,
    account: Account,
}

/// The account table and the record of the total supply.
pub struct FungibleToken {
    accounts: Vec<Holder>,
    total_supply: Ledger,
}

impl View for FungibleToken {
    type V = TokenModel;

    closed spec fn view(&self) -> TokenModel {
        TokenModel {
            accounts: Seq::new(
                self.accounts@.len(),
                |i: int| HolderModel { id: self.accounts@[i].id@, account: self.accounts@[i].account@ },
            ),
            total_supply: self.total_supply@,
        }
    }
}

impl FungibleToken {
    /// The invariant of the state: see `TokenModel::well_formed`.
    pub open spec fn wf(&self) -> bool {
        self@.well_formed()
    }

    /// A state without accounts and without supply.
    pub fn new() -> (token: FungibleToken)
        ensures
            token.wf(),
            token@ == TokenModel::empty(),
    {
        let token = FungibleToken { accounts: Vec::new(), total_supply: Ledger::new() };
        proof {
            assert(token@.accounts =~= Seq::empty());
            assert(sum_of(Seq::<ScopeBalance>::empty(), ValueClass::Primary) == 0);
            assert(sum_of(Seq::<ScopeBalance>::empty(), ValueClass::Secondary) == 0);
            assert forall|scope: Option<Seq<char>>, class: ValueClass|
                token@.total_supply.balance(scope, Some(class)) == #[trigger] held_by_all(
                    token@.accounts,
                    scope,
                    class,
                ) by {
                if let Some(s) = scope {
                    assert(!token@.total_supply.is_registered(s));
                }
            }
        }
        token
    }

    /// Where the row of `id` stands, if it has one.
    fn find(&self, id: &String) -> (r: Option<usize>)
        requires
            self.wf(),
        ensures
            match r {
                Some(i) => i < self.accounts@.len() && self@.is_registered(id@) && self@.index_of(
                    id@,
                ) == i && self@.account_of(id@) == self.accounts@[i as int].account@,
                None => !self@.is_registered(id@),
            },
    {
        let mut i: usize = 0;
        while i < self.accounts.len()
            invariant
                i <= self.accounts@.len(),
                self.wf(),
                forall|j: int| 0 <= j < i ==> self@.accounts[j].id != id@,
            decreases self.accounts@.len() - i,
        {
            if self.accounts[i].id == *id {
                proof {
                    lemma_account_index(self@, i as int);
                }
                return Some(i);
            }
            i += 1;
        }
        None
    }

    /// Whether the account is in the account table.
    pub fn is_registered(&self, account_id: &String) -> (registered: bool)
        requires
            self.wf(),
        ensures
            registered == self@.is_registered(account_id@),
    {
        self.find(account_id).is_some()
    }

    /// Gives `account_id` an account that holds nothing. Fails with
    /// `AlreadyRegistered`, changing nothing, where it has one.
    pub fn internal_register_account(&mut self, account_id: &String) -> (r: Result<(), TokenError>)
        requires
            old(self).wf(),
        ensures
            final(self).wf(),
            r is Ok <==> !old(self)@.is_registered(account_id@),
            r is Ok ==> final(self)@ == old(self)@.registered(account_id@),
            r is Err ==> r->Err_0 == TokenError::AlreadyRegistered && final(self)@ == old(self)@,
    {
        if self.find(account_id).is_some() {
            return Err(TokenError::AlreadyRegistered);
        }
        proof {
            lemma_registered(self@, account_id@);
        }
        self.accounts.push(Holder { id: account_id.clone(), account: Account::new() });
        assert(self@.accounts =~= old(self)@.registered(account_id@).accounts);
        Ok(())
    }

    /// Creates `amount` in `token_source` in what `account_id` has available
    /// under `contract_id`, and in the total supply with it. Fails, changing
    /// nothing, with `NotRegistered` where the account is unknown, else with
    /// `Overflow` where the total supply under the scope, or in all scopes,
    /// would pass the largest representable amount.
    pub fn internal_deposit(
        &mut self,
        account_id: &String,
        amount: u128,
        contract_id: &String,
        token_source: ValueClass,
    ) -> (r: Result<Event, TokenError>)
        requires
            old(self).wf(),
        ensures
            final(self).wf(),
            match r {
                Ok(event) => {
                    &&& old(self)@.is_registered(account_id@)
                    &&& old(self)@.total_supply.can_credit(
                        contract_id@,
                        Amounts::only(token_source, amount),
                    )
                    &&& final(self)@ == old(self)@.minted(
                        account_id@,
                        contract_id@,
                        Amounts::only(token_source, amount),
                    )
                    &&& event@ == (EventModel {
                        kind: EventKind::Mint,
                        owner_id: account_id@,
                        amount,
                        contract_id: contract_id@,
                    })
                },
                Err(e) => {
                    &&& final(self)@ == old(self)@
                    &&& if !old(self)@.is_registered(account_id@) {
                        e == TokenError::NotRegistered
                    } else {
                        e == TokenError::Overflow && !old(self)@.total_supply.can_credit(
                            contract_id@,
                            Amounts::only(token_source, amount),
                        )
                    }
                },
            },
    {
        let i = match self.find(account_id) {
            Some(i) => i,
            None => {
                return Err(TokenError::NotRegistered);
            },
        };
        let delta = Amounts::single(token_source, amount);
        match self.total_supply.credit(contract_id, &delta) {
            Ok(()) => {},
            Err(e) => {
                return Err(e);
            },
        }
        proof {
            lemma_minted(old(self)@, account_id@, contract_id@, delta);
        }
        let done = self.accounts[i].account.balances.credit(contract_id, &delta);
        assert(done is Ok);
        assert(self@.accounts =~= old(self)@.minted(account_id@, contract_id@, delta).accounts);
        Ok(Event::new(EventKind::Mint, account_id, amount, contract_id))
    }

    /// Destroys `amount` of what `account_id` has available under
    /// `contract_id`, in the total supply too: in `token_source`, or, where none
    /// is named, in `Secondary` as far as that reaches and then in `Primary`.
    /// Fails, changing nothing, with `NotRegistered` where the account is
    /// unknown, else with `InsufficientBalance` where less than `amount` is
    /// available.
    pub fn internal_withdraw(
        &mut self,
        account_id: &String,
        amount: u128,
        contract_id: &String,
        token_source: &Option<ValueClass>,
    ) -> (r: Result<Event, TokenError>)
        requires
            old(self).wf(),
        ensures
            final(self).wf(),
            match r {
                Ok(event) => {
                    &&& old(self)@.is_registered(account_id@)
                    &&& amount <= old(self)@.balance(account_id@, Some(contract_id@), *token_source)
                    &&& final(self)@ == old(self)@.burned(
                        account_id@,
                        contract_id@,
                        old(self)@.account_of(account_id@).balances.amounts_of(
                            Some(contract_id@),
                        ).drawn(*token_source, amount),
                    )
                    &&& event@ == (EventModel {
                        kind: EventKind::Burn,
                        owner_id: account_id@,
                        amount,
                        contract_id: contract_id@,
                    })
                },
                Err(e) => {
                    &&& final(self)@ == old(self)@
                    &&& if !old(self)@.is_registered(account_id@) {
                        e == TokenError::NotRegistered
                    } else {
                        e == TokenError::InsufficientBalance && amount > old(self)@.balance(
                            account_id@,
                            Some(contract_id@),
                            *token_source,
                        )
                    }
                },
            },
    {
        let i = match self.find(account_id) {
            Some(i) => i,
            None => {
                return Err(TokenError::NotRegistered);
            },
        };
        let held = self.accounts[i].account.balances.amounts_in(contract_id);
        let taken = match held.draw_down(token_source, amount) {
            Some(taken) => taken,
            None => {
                return Err(TokenError::InsufficientBalance);
            },
        };
        proof {
            lemma_drawn_is_covered(held, *token_source, amount);
            lemma_burned(self@, account_id@, contract_id@, taken);
        }
        let supply = self.total_supply.debit(contract_id, &taken);
        let account = self.accounts[i].account.balances.debit(contract_id, &taken);
        assert(supply is Ok && account is Ok);
        assert(self@.accounts =~= old(self)@.burned(account_id@, contract_id@, taken).accounts);
        Ok(Event::new(EventKind::Burn, account_id, amount, contract_id))
    }
    /// Commits `amount` of what `account_id` has available under `contract_id`
    /// to `deposit_contract_id`: in `token_source`, or, where none is named, in
    /// `Secondary` as far as that reaches and then in `Primary`. What is
    /// committed leaves the total supply. Fails, changing nothing, with
    /// `NotRegistered` where the account is unknown, else with
    /// `InsufficientBalance` where less than `amount` is available, else with
    /// `Overflow` where what is committed to the counterparty, or to all
    /// counterparties, would pass the largest representable amount.
    pub fn internal_contract_deposit(
        &mut self,
        account_id: &String,
        amount: u128,
        contract_id: &String,
        deposit_contract_id: &String,
        token_source: &Option<ValueClass>,
    ) -> (r: Result<Event, TokenError>)
        requires
            old(self).wf(),
        ensures
            final(self).wf(),
            match r {
                Ok(event) => {
                    &&& old(self)@.can_escrow(
                        account_id@,
                        contract_id@,
                        deposit_contract_id@,
                        *token_source,
                        amount,
                    )
                    &&& final(self)@ == old(self)@.escrowed(
                        account_id@,
                        contract_id@,
                        deposit_contract_id@,
                        old(self)@.escrow_split(account_id@, contract_id@, *token_source, amount),
                    )
                    &&& event@ == (EventModel {
                        kind: EventKind::Deposit,
                        owner_id: account_id@,
                        amount,
                        contract_id: contract_id@,
                    })
                },
                Err(e) => {
                    &&& final(self)@ == old(self)@
                    &&& e == old(self)@.escrow_refusal(
                        account_id@,
                        contract_id@,
                        deposit_contract_id@,
                        *token_source,
                        amount,
                    )
                    &&& !old(self)@.can_escrow(
                        account_id@,
                        contract_id@,
                        deposit_contract_id@,
                        *token_source,
                        amount,
                    )
                },
            },
    {
        let i = match self.find(account_id) {
            Some(i) => i,
            None => {
                return Err(TokenError::NotRegistered);
            },
        };
        let ghost before = self@;
        proof {
            lemma_account_well_formed(before, account_id@);
        }
        let taken = match self.accounts[i].account.contract_deposit(
            contract_id,
            deposit_contract_id,
            token_source,
            amount,
        ) {
            Ok(taken) => taken,
            Err(e) => {
                assert(self@.accounts =~= before.accounts);
                return Err(e);
            },
        };
        proof {
            lemma_drawn_is_covered(
                before.account_of(account_id@).balances.amounts_of(Some(contract_id@)),
                *token_source,
                amount,
            );
            lemma_escrowed(before, account_id@, contract_id@, deposit_contract_id@, taken);
        }
        let supply = self.total_supply.debit(contract_id, &taken);
        assert(supply is Ok);
        assert(self@.accounts =~= before.escrowed(
            account_id@,
            contract_id@,
            deposit_contract_id@,
            taken,
        ).accounts);
        Ok(Event::new(EventKind::Deposit, account_id, amount, contract_id))
    }

    /// Takes `amount` back from what `account_id` has committed to
    /// `deposit_contract_id` into what it has available under `contract_id`,
    /// and into the total supply with it. Where no counterparty is named, the
    /// amount is taken from the counterparties in order, from each as much as it
    /// holds. Returns the event and what was taken where. Fails, changing
    /// nothing, with `NotRegistered` where the account is unknown, else with
    /// `InsufficientBalance` where less than `amount` is committed, else with
    /// `Overflow` where the total supply under the scope, or in all scopes,
    /// would pass the largest representable amount.
    pub fn internal_contract_withdraw(
        &mut self,
        account_id: &String,
        amount: u128,
        contract_id: &String,
        deposit_contract_id: &Option<String>,
        token_source: &Option<ValueClass>,
    ) -> (r: Result<(Event, Vec<Withdrawal>), TokenError>)
        requires
            old(self).wf(),
        ensures
            final(self).wf(),
            match r {
                Ok((event, parts)) => {
                    &&& old(self)@.can_reclaim(
                        account_id@,
                        contract_id@,
                        scope_key(*deposit_contract_id),
                        *token_source,
                        amount,
                    )
                    &&& final(self)@ == old(self)@.reclaimed(
                        account_id@,
                        contract_id@,
                        scope_key(*deposit_contract_id),
                        *token_source,
                        amount,
                    )
                    &&& event@ == (EventModel {
                        kind: EventKind::Withdraw,
                        owner_id: account_id@,
                        amount,
                        contract_id: contract_id@,
                    })
                    &&& withdrawals(parts@) == old(self)@.account_of(account_id@).reclaimed_parts(
                        scope_key(*deposit_contract_id),
                        *token_source,
                        amount,
                    )
                },
                Err(e) => {
                    &&& final(self)@ == old(self)@
                    &&& e == old(self)@.reclaim_refusal(
                        account_id@,
                        contract_id@,
                        scope_key(*deposit_contract_id),
                        *token_source,
                        amount,
                    )
                    &&& !old(self)@.can_reclaim(
                        account_id@,
                        contract_id@,
                        scope_key(*deposit_contract_id),
                        *token_source,
                        amount,
                    )
                },
            },
    {
        let i = match self.find(account_id) {
            Some(i) => i,
            None => {
                return Err(TokenError::NotRegistered);
            },
        };
        let ghost before = self@;
        proof {
            lemma_account_well_formed(before, account_id@);
        }
        let committed = self.accounts[i].account.escrow.amounts(deposit_contract_id);
        let taken = match committed.draw_down(token_source, amount) {
            Some(taken) => taken,
            None => {
                return Err(TokenError::InsufficientBalance);
            },
        };
        match self.total_supply.credit(contract_id, &taken) {
            Ok(()) => {},
            Err(e) => {
                return Err(e);
            },
        }
        proof {
            lemma_reclaimed(
                before,
                account_id@,
                contract_id@,
                scope_key(*deposit_contract_id),
                *token_source,
                amount,
            );
        }
        let parts = match self.accounts[i].account.contract_withdraw(
            contract_id,
            deposit_contract_id,
            token_source,
            amount,
        ) {
            Ok(parts) => parts,
            Err(e) => {
                return Err(e);
            },
        };
        assert(self@.accounts =~= before.reclaimed(
            account_id@,
            contract_id@,
            scope_key(*deposit_contract_id),
            *token_source,
            amount,
        ).accounts);
        Ok((Event::new(EventKind::Withdraw, account_id, amount, contract_id), parts))
    }

    /// Destroys `amount` of the value of `account_id`: what is available under
    /// `contract_id` goes first, and what is still missing is taken from what is
    /// committed, counterparty by counterparty in order; in `token_source`, or,
    /// where none is named, in `Secondary` before `Primary`. Returns the event
    /// and what was taken from which counterparty. Fails, changing nothing, with
    /// `NotRegistered` where the account is unknown, else with
    /// `InsufficientBalance` where `amount` is more than what is available and
    /// what is committed together.
    pub fn wrapped_withdraw(
        &mut self,
        account_id: &String,
        amount: u128,
        contract_id: &String,
        token_source: &Option<ValueClass>,
    ) -> (r: Result<(Event, Vec<Withdrawal>), TokenError>)
        requires
            old(self).wf(),
        ensures
            final(self).wf(),
            match r {
                Ok((event, parts)) => {
                    &&& old(self)@.is_registered(account_id@)
                    &&& amount <= old(self)@.balance(account_id@, Some(contract_id@), *token_source)
                        + old(self)@.committed(account_id@, None, *token_source)
                    &&& final(self)@ == old(self)@.burned_any(
                        account_id@,
                        contract_id@,
                        *token_source,
                        amount,
                    )
                    &&& event@ == (EventModel {
                        kind: EventKind::Burn,
                        owner_id: account_id@,
                        amount,
                        contract_id: contract_id@,
                    })
                    &&& withdrawals(parts@) == old(self)@.burned_parts(
                        account_id@,
                        contract_id@,
                        *token_source,
                        amount,
                    )
                },
                Err(e) => {
                    &&& final(self)@ == old(self)@
                    &&& if !old(self)@.is_registered(account_id@) {
                        e == TokenError::NotRegistered
                    } else {
                        e == TokenError::InsufficientBalance && amount > old(self)@.balance(
                            account_id@,
                            Some(contract_id@),
                            *token_source,
                        ) + old(self)@.committed(account_id@, None, *token_source)
                    }
                },
            },
    {
        let i = match self.find(account_id) {
            Some(i) => i,
            None => {
                return Err(TokenError::NotRegistered);
            },
        };
        let ghost before = self@;
        proof {
            lemma_account_well_formed(before, account_id@);
        }
        let held = self.accounts[i].account.balances.amounts_in(contract_id);
        let (direct, taken) = held.draw_at_most(token_source, amount);
        let rest: u128 = amount - direct;
        let committed = self.accounts[i].account.escrow.amounts(&None);
        if committed.draw_down(token_source, rest).is_none() {
            return Err(TokenError::InsufficientBalance);
        }
        proof {
            lemma_drawn_is_covered(held, *token_source, direct);
            lemma_burned_any(before, account_id@, contract_id@, *token_source, amount);
        }
        let supply = self.total_supply.debit(contract_id, &taken);
        let account = self.accounts[i].account.balances.debit(contract_id, &taken);
        assert(supply is Ok && account is Ok);
        let parts = match self.accounts[i].account.escrow.withdraw_any(token_source, rest) {
            Ok(parts) => parts,
            Err(e) => {
                return Err(e);
            },
        };
        assert(self@.accounts =~= before.burned_any(
            account_id@,
            contract_id@,
            *token_source,
            amount,
        ).accounts);
        Ok((Event::new(EventKind::Burn, account_id, amount, contract_id), parts))
    }

    /// Closes the account of `account_id` and returns its identifier with what
    /// it had available in all scopes and both classes. What it had available
    /// leaves the total supply. Fails, changing nothing, with `NotRegistered`
    /// where the account is unknown, else with `NonZeroBalance` where something
    /// is available or committed and `force` is not `Some(true)`.
    pub fn internal_storage_unregister(&mut self, account_id: &String, force: Option<bool>) -> (r:
        Result<(String, u128), TokenError>)
        requires
            old(self).wf(),
        ensures
            final(self).wf(),
            match r {
                Ok((id, balance)) => {
                    &&& old(self)@.is_registered(account_id@)
                    &&& force == Some(true) || old(self)@.holds_nothing(account_id@)
                    &&& final(self)@ == old(self)@.unregistered(account_id@)
                    &&& id@ == account_id@
                    &&& balance == capped(old(self)@.balance(account_id@, None, None))
                },
                Err(e) => {
                    &&& final(self)@ == old(self)@
                    &&& if !old(self)@.is_registered(account_id@) {
                        e == TokenError::NotRegistered
                    } else {
                        e == TokenError::NonZeroBalance && force != Some(true) && !old(self)@.holds_nothing(account_id@)
                    }
                },
            },
    {
        let i = match self.find(account_id) {
            Some(i) => i,
            None => {
                return Err(TokenError::NotRegistered);
            },
        };
        let ghost before = self@;
        proof {
            lemma_account_well_formed(before, account_id@);
        }
        let forced = match force {
            Some(forced) => forced,
            None => false,
        };
        let available = self.accounts[i].account.balances.amounts(&None);
        let committed = self.accounts[i].account.escrow.amounts(&None);
        if !forced && !(available.is_zero() && committed.is_zero()) {
            return Err(TokenError::NonZeroBalance);
        }
        proof {
            lemma_supply_covers_balances(before, account_id@);
        }
        let supply = self.total_supply.subtract(&self.accounts[i].account.balances);
        assert(supply is Ok);
        let holder = self.accounts.remove(i);
        proof {
            lemma_unregistered(before, account_id@);
            assert(self@.accounts =~= before.unregistered(account_id@).accounts);
        }
        Ok((holder.id, available.balance(&None)))
    }

    /// The number of accounts in the table.
    pub fn len(&self) -> (n: usize)
        ensures
            n == self@.accounts.len(),
    {
        self.accounts.len()
    }

    /// The identifier of the account at `i`, in the order of registration;
    /// `None` where there are no more than `i` accounts.
    pub fn account_id_at(&self, i: usize) -> (id: Option<&String>)
        ensures
            id is Some <==> i < self@.accounts.len(),
            id is Some ==> id->0@ == self@.accounts[i as int].id,
    {
        if i < self.accounts.len() {
            Some(&self.accounts[i].id)
        } else {
            None
        }
    }

    /// The account at `i`, in the order of registration; `None` where there
    /// are no more than `i` accounts.
    pub fn account_at(&self, i: usize) -> (account: Option<&Account>)
        requires
            self.wf(),
        ensures
            account is Some <==> i < self@.accounts.len(),
            account is Some ==> account->0@ == self@.accounts[i as int].account
                && account->0.wf(),
    {
        if i < self.accounts.len() {
            Some(&self.accounts[i].account)
        } else {
            None
        }
    }

    /// The record of the total supply.
    pub fn total_supply(&self) -> (supply: &Ledger)
        requires
            self.wf(),
        ensures
            supply@ == self@.total_supply,
            supply.wf(),
    {
        &self.total_supply
    }

    /// Puts `account` into the table under `account_id`, with all that it
    /// holds, as when a state is read back from where it was kept. What the
    /// account has available joins the total supply. Fails, changing nothing,
    /// with `AlreadyRegistered` where `account_id` has an account, else with
    /// `Overflow` where the total supply would pass the largest representable
    /// amount.
    pub fn restore_account(&mut self, account_id: &String, account: Account) -> (r: Result<
        (),
        TokenError,
    >)
        requires
            old(self).wf(),
            account.wf(),
        ensures
            final(self).wf(),
            match r {
                Ok(()) => {
                    &&& !old(self)@.is_registered(account_id@)
                    &&& old(self)@.total_supply.aggregate.fits(account@.balances.aggregate)
                    &&& final(self)@ == old(self)@.restored(account_id@, account@)
                },
                Err(e) => {
                    &&& final(self)@ == old(self)@
                    &&& if old(self)@.is_registered(account_id@) {
                        e == TokenError::AlreadyRegistered
                    } else {
                        e == TokenError::Overflow && !old(self)@.total_supply.aggregate.fits(
                            account@.balances.aggregate,
                        )
                    }
                },
            },
    {
        if self.find(account_id).is_some() {
            return Err(TokenError::AlreadyRegistered);
        }
        match self.total_supply.add(&account.balances) {
            Ok(()) => {},
            Err(e) => {
                return Err(e);
            },
        }
        proof {
            lemma_restored(old(self)@, account_id@, account@);
        }
        self.accounts.push(Holder { id: account_id.clone(), account });
        assert(self@.accounts =~= old(self)@.restored(account_id@, account@).accounts);
        Ok(())
    }

    /// The account of `account_id`, if it has one.
    pub fn account(&self, account_id: &String) -> (r: Option<&Account>)
        requires
            self.wf(),
        ensures
            r is Some <==> self@.is_registered(account_id@),
            r is Some ==> r->0@ == self@.account_of(account_id@) && r->0.wf(),
    {
        match self.find(account_id) {
            Some(i) => {
                proof {
                    lemma_account_well_formed(self@, account_id@);
                }
                Some(&self.accounts[i].account)
            },
            None => None,
        }
    }

    /// Whether `account_id` has `amount` available under `contract_id`.
    pub fn holds(
        &self,
        account_id: &String,
        contract_id: &String,
        token_source: &Option<ValueClass>,
        amount: u128,
    ) -> (r: bool)
        requires
            self.wf(),
        ensures
            r == (amount <= self@.balance(account_id@, Some(contract_id@), *token_source)),
    {
        match self.find(account_id) {
            Some(i) => {
                proof {
                    lemma_account_well_formed(self@, account_id@);
                }
                self.accounts[i].account.balances.amounts_in(contract_id).draw_down(
                    token_source,
                    amount,
                ).is_some()
            },
            None => amount == 0,
        }
    }
}

/// The queries. None of them changes anything, and none fails: what is unknown
/// holds 0. A balance of both classes that is not representable is reported as
/// the largest representable amount.
pub trait FungibleTokenCore: View<V = TokenModel> + Sized {
    /// The total supply under `contract_id`, or in all scopes for `None`, in
    /// `token_source`, or in both classes where none is named.
    fn ft_total_supply(&self, contract_id: &Option<String>, token_source: &Option<ValueClass>) -> (supply:
        u128)
        requires
            self@.well_formed(),
        ensures
            supply == capped(self@.total_supply.balance(scope_key(*contract_id), *token_source)),
    ;

    /// What `account_id` has available under `contract_id`, or in all scopes
    /// for `None`.
    fn ft_balance_of(
        &self,
        account_id: &String,
        contract_id: &Option<String>,
        token_source: &Option<ValueClass>,
    ) -> (balance: u128)
        requires
            self@.well_formed(),
        ensures
            balance == capped(self@.balance(account_id@, scope_key(*contract_id), *token_source)),
    ;

    /// What `account_id` has committed to `deposit_contract_id`, or to all
    /// counterparties for `None`.
    fn ft_deposit_balance_of(
        &self,
        account_id: &String,
        deposit_contract_id: &Option<String>,
        token_source: &Option<ValueClass>,
    ) -> (balance: u128)
        requires
            self@.well_formed(),
        ensures
            balance == capped(
                self@.committed(account_id@, scope_key(*deposit_contract_id), *token_source),
            ),
    ;
}

impl FungibleTokenCore for FungibleToken {
    fn ft_total_supply(&self, contract_id: &Option<String>, token_source: &Option<ValueClass>) -> (supply:
        u128) {
        self.total_supply.balance_of(contract_id, token_source)
    }

    fn ft_balance_of(
        &self,
        account_id: &String,
        contract_id: &Option<String>,
        token_source: &Option<ValueClass>,
    ) -> (balance: u128) {
        match self.find(account_id) {
            Some(i) => {
                proof {
                    lemma_account_well_formed(self@, account_id@);
                }
                self.accounts[i].account.get_balance(contract_id, token_source)
            },
            None => 0,
        }
    }

    fn ft_deposit_balance_of(
        &self,
        account_id: &String,
        deposit_contract_id: &Option<String>,
        token_source: &Option<ValueClass>,
    ) -> (balance: u128) {
        match self.find(account_id) {
            Some(i) => {
                proof {
                    lemma_account_well_formed(self@, account_id@);
                }
                self.accounts[i].account.get_deposit_balance(deposit_contract_id, token_source)
            },
            None => 0,
        }
    }
}

} // verus!
