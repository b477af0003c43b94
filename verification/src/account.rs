use vstd::prelude::*;
use crate::amounts::{capped, lemma_drawn_is_covered, Amounts, ValueClass};
use crate::error::TokenError;
use crate::ledger::{withdrawals, Ledger, Withdrawal};
use crate::ledger_model::{scope_key, LedgerModel, WithdrawalModel};

verus! {

/// An account as a mathematical value: what it has available in each scope, and
/// what it has committed to each counterparty scope.
#[verifier::ext_equal]
pub struct AccountModel {
    pub balances: LedgerModel,
    pub escrow: LedgerModel,
}

/// The parts of `taken`, all from `scope`: what was taken in `Secondary`, then
/// what was taken in `Primary`. A class from which nothing was taken is left out.
pub open spec fn parts_of(scope: Seq<char>, taken: Amounts) -> Seq<WithdrawalModel> {
    let secondary = if taken.secondary > 0 {
        seq![WithdrawalModel { scope, class: ValueClass::Secondary, amount: taken.secondary }]
    } else {
        Seq::empty()
    };
    let primary = if taken.primary > 0 {
        seq![WithdrawalModel { scope, class: ValueClass::Primary, amount: taken.primary }]
    } else {
        Seq::empty()
    };
    secondary + primary
}

impl AccountModel {
    /// The account that knows no scope and holds nothing.
    pub open spec fn empty() -> AccountModel {
        AccountModel { balances: LedgerModel::empty(), escrow: LedgerModel::empty() }
    }

    /// Both ledgers of the account are well formed.
    pub open spec fn well_formed(self) -> bool {
        self.balances.well_formed() && self.escrow.well_formed()
    }

    /// What is committed to `counterparty`, or to all counterparties for `None`.
    pub open spec fn committed(self, counterparty: Option<Seq<char>>) -> Amounts {
        self.escrow.amounts_of(counterparty)
    }

    /// The account after `taken` moved from what is available in `scope` to
    /// what is committed to `counterparty`.
    pub open spec fn escrowed(
        self,
        scope: Seq<char>,
        counterparty: Seq<char>,
        taken: Amounts,
    ) -> AccountModel {
        AccountModel {
            balances: self.balances.debited(scope, taken),
            escrow: self.escrow.credited(counterparty, taken),
        }
    }

    /// What a reclaim of `amount` takes from each class of what is committed to
    /// `counterparty`, or to all counterparties for `None`.
    pub open spec fn reclaim_split(
        self,
        counterparty: Option<Seq<char>>,
        class: Option<ValueClass>,
        amount: u128,
    ) -> Amounts {
        self.committed(counterparty).drawn(class, amount)
    }

    /// The account after `amount` moved back from what is committed to
    /// `counterparty` to what is available in `scope`. For the counterparty
    /// `None` the amount is taken from the counterparties in order.
    pub open spec fn reclaimed(
        self,
        scope: Seq<char>,
        counterparty: Option<Seq<char>>,
        class: Option<ValueClass>,
        amount: u128,
    ) -> AccountModel {
        let taken = self.reclaim_split(counterparty, class, amount);
        AccountModel {
            balances: self.balances.credited(scope, taken),
            escrow: match counterparty {
                Some(c) => self.escrow.debited(c, taken),
                None => self.escrow.drained_any(class, amount),
            },
        }
    }

    /// What such a reclaim took where.
    pub open spec fn reclaimed_parts(
        self,
        counterparty: Option<Seq<char>>,
        class: Option<ValueClass>,
        amount: u128,
    ) -> Seq<WithdrawalModel> {
        match counterparty {
            Some(c) => parts_of(c, self.reclaim_split(counterparty, class, amount)),
            None => self.escrow.shares_any(class, amount),
        }
    }
}

/// The balances of one account: what is available in each scope, and what is
/// committed to each counterparty scope.
pub struct Account {
    pub balances: Ledger,
    pub escrow: Ledger,
}

impl View for Account {
    type V = AccountModel;

    open spec fn view(&self) -> AccountModel {
        AccountModel { balances: self.balances@, escrow: self.escrow@ }
    }
}

/// What an account entry offers: deposits into and withdrawals from the
/// balance of a scope, moves between that balance and what is committed to a
/// counterparty, and the queries.
pub trait FungibleTokenAccount: View<V = AccountModel> + Sized {
    /// Increases what is available in `contract_id` in `token_source`. Fails with
    /// `Overflow`, changing nothing, where the scope's balance or the aggregate
    /// would pass the largest representable amount.
    fn deposit(&mut self, contract_id: &String, token_source: ValueClass, amount: u128) -> (r:
        Result<(), TokenError>)
        requires
            old(self)@.well_formed(),
        ensures
            final(self)@.well_formed(),
            r is Ok <==> old(self)@.balances.can_credit(
                contract_id@,
                Amounts::only(token_source, amount),
            ),
            r is Ok ==> final(self)@ == (AccountModel {
                balances: old(self)@.balances.credited(
                    contract_id@,
                    Amounts::only(token_source, amount),
                ),
                ..old(self)@
            }),
            r is Err ==> r->Err_0 == TokenError::Overflow && final(self)@ == old(self)@,
    ;

    /// Decreases what is available in `contract_id` by `amount`: in
    /// `token_source`, or, where none is named, in `Secondary` as far as that
    /// reaches and then in `Primary`. Returns what was taken from each class.
    /// Fails with `InsufficientBalance`, changing nothing, where less than
    /// `amount` is available.
    fn withdraw(&mut self, contract_id: &String, token_source: &Option<ValueClass>, amount: u128)
        -> (r: Result<Amounts, TokenError>)
        requires
            old(self)@.well_formed(),
        ensures
            final(self)@.well_formed(),
            r is Ok <==> amount <= old(self)@.balances.balance(
                Some(contract_id@),
                *token_source,
            ),
            r is Ok ==> r->Ok_0 == old(self)@.balances.amounts_of(Some(contract_id@)).drawn(
                *token_source,
                amount,
            ) && final(self)@ == (AccountModel {
                balances: old(self)@.balances.debited(contract_id@, r->Ok_0),
                ..old(self)@
            }),
            r is Err ==> r->Err_0 == TokenError::InsufficientBalance && final(self)@ == old(self)@,
    ;

    /// Moves `amount` from what is available in `contract_id` to what is
    /// committed to `deposit_contract_id`, class by class as a withdrawal would
    /// take it, and returns what was moved in each class. Fails, changing
    /// nothing, with `InsufficientBalance` where less than `amount` is
    /// available, else with `Overflow` where what is committed to the
    /// counterparty, or to all counterparties, would pass the largest
    /// representable amount.
    fn contract_deposit(
        &mut self,
        contract_id: &String,
        deposit_contract_id: &String,
        token_source: &Option<ValueClass>,
        amount: u128,
    ) -> (r: Result<Amounts, TokenError>)
        requires
            old(self)@.well_formed(),
        ensures
            final(self)@.well_formed(),
            match r {
                Ok(taken) => {
                    &&& amount <= old(self)@.balances.balance(
                        Some(contract_id@),
                        *token_source,
                    )
                    &&& taken == old(self)@.balances.amounts_of(Some(contract_id@)).drawn(
                        *token_source,
                        amount,
                    )
                    &&& old(self)@.escrow.can_credit(deposit_contract_id@, taken)
                    &&& final(self)@ == old(self)@.escrowed(
                        contract_id@,
                        deposit_contract_id@,
                        taken,
                    )
                },
                Err(e) => {
                    &&& final(self)@ == old(self)@
                    &&& if amount > old(self)@.balances.balance(
                        Some(contract_id@),
                        *token_source,
                    ) {
                        e == TokenError::InsufficientBalance
                    } else {
                        e == TokenError::Overflow && !old(self)@.escrow.can_credit(
                            deposit_contract_id@,
                            old(self)@.balances.amounts_of(Some(contract_id@)).drawn(
                                *token_source,
                                amount,
                            ),
                        )
                    }
                },
            },
    ;

    /// Moves `amount` back from what is committed to `deposit_contract_id` to
    /// what is available in `contract_id`, and returns what was taken where.
    /// Where no counterparty is named, the amount is taken from the
    /// counterparties in order, from each as much as it holds. Fails, changing
    /// nothing, with `InsufficientBalance` where less than `amount` is committed
    /// to the counterparty, or to all of them where none is named, else with
    /// `Overflow` where what is available would pass the largest representable
    /// amount.
    fn contract_withdraw(
        &mut self,
        contract_id: &String,
        deposit_contract_id: &Option<String>,
        token_source: &Option<ValueClass>,
        amount: u128,
    ) -> (r: Result<Vec<Withdrawal>, TokenError>)
        requires
            old(self)@.well_formed(),
        ensures
            final(self)@.well_formed(),
            match r {
                Ok(parts) => {
                    &&& amount <= old(self)@.escrow.balance(
                        scope_key(*deposit_contract_id),
                        *token_source,
                    )
                    &&& old(self)@.balances.can_credit(
                        contract_id@,
                        old(self)@.reclaim_split(
                            scope_key(*deposit_contract_id),
                            *token_source,
                            amount,
                        ),
                    )
                    &&& final(self)@ == old(self)@.reclaimed(
                        contract_id@,
                        scope_key(*deposit_contract_id),
                        *token_source,
                        amount,
                    )
                    &&& withdrawals(parts@) == old(self)@.reclaimed_parts(
                        scope_key(*deposit_contract_id),
                        *token_source,
                        amount,
                    )
                },
                Err(e) => {
                    &&& final(self)@ == old(self)@
                    &&& if amount > old(self)@.escrow.balance(
                        scope_key(*deposit_contract_id),
                        *token_source,
                    ) {
                        e == TokenError::InsufficientBalance
                    } else {
                        e == TokenError::Overflow && !old(self)@.balances.can_credit(
                            contract_id@,
                            old(self)@.reclaim_split(
                                scope_key(*deposit_contract_id),
                                *token_source,
                                amount,
                            ),
                        )
                    }
                },
            },
    ;

    /// What is available in `contract_id`, or in all scopes for `None`, in
    /// `token_source`, or in both classes where none is named. An unknown scope
    /// holds 0.
    fn get_balance(&self, contract_id: &Option<String>, token_source: &Option<ValueClass>) -> (r:
        u128)
        requires
            self@.well_formed(),
        ensures
            r == capped(self@.balances.balance(scope_key(*contract_id), *token_source)),
    ;

    /// What is committed to `deposit_contract_id`, or to all counterparties for
    /// `None`. An unknown counterparty holds 0.
    fn get_deposit_balance(
        &self,
        deposit_contract_id: &Option<String>,
        token_source: &Option<ValueClass>,
    ) -> (r: u128)
        requires
            self@.well_formed(),
        ensures
            r == capped(
                self@.escrow.balance(scope_key(*deposit_contract_id), *token_source),
            ),
    ;

    /// Whether the scope has ever received a deposit.
    fn is_registered(&self, contract_id: &String) -> (r: bool)
        requires
            self@.well_formed(),
        ensures
            r == self@.balances.is_registered(contract_id@),
    ;

    /// Whether anything was ever committed to the counterparty.
    fn is_deposit_exist(&self, deposit_contract_id: &String) -> (r: bool)
        requires
            self@.well_formed(),
        ensures
            r == self@.escrow.is_registered(deposit_contract_id@),
    ;
}

impl Account {
    /// The invariant of every account: see `AccountModel::well_formed`.
    pub open spec fn wf(&self) -> bool {
        self@.well_formed()
    }

    /// An account that knows no scope and holds nothing.
    pub fn new() -> (account: Account)
        ensures
            account.wf(),
            account@ == AccountModel::empty(),
    {
        Account { balances: Ledger::new(), escrow: Ledger::new() }
    }
}

/// The parts of `taken`, all from `scope`.
fn parts(scope: &String, taken: &Amounts) -> (list: Vec<Withdrawal>)
    ensures
        withdrawals(list@) == parts_of(scope@, *taken),
{
    let mut list: Vec<Withdrawal> = Vec::new();
    assert(withdrawals(list@) =~= Seq::empty());
    if taken.secondary > 0 {
        let part = Withdrawal {
            scope: scope.clone(),
            class: ValueClass::Secondary,
            amount: taken.secondary,
        };
        list.push(part);
        assert(withdrawals(list@) =~= seq![part@]);
    }
    if taken.primary > 0 {
        let ghost before = list@;
        let part = Withdrawal { scope: scope.clone(), class: ValueClass::Primary, amount: taken.primary };
        list.push(part);
        assert(withdrawals(list@) =~= withdrawals(before) + seq![part@]);
    }
    assert(withdrawals(list@) =~= parts_of(scope@, *taken));
    list
}

impl FungibleTokenAccount for Account {
    fn deposit(&mut self, contract_id: &String, token_source: ValueClass, amount: u128) -> (r:
        Result<(), TokenError>) {
        self.balances.deposit(contract_id, token_source, amount)
    }

    fn withdraw(&mut self, contract_id: &String, token_source: &Option<ValueClass>, amount: u128)
        -> (r: Result<Amounts, TokenError>) {
        self.balances.withdraw(contract_id, token_source, amount)
    }

    fn contract_deposit(
        &mut self,
        contract_id: &String,
        deposit_contract_id: &String,
        token_source: &Option<ValueClass>,
        amount: u128,
    ) -> (r: Result<Amounts, TokenError>) {
        let held = self.balances.amounts_in(contract_id);
        let taken = match held.draw_down(token_source, amount) {
            Some(taken) => taken,
            None => {
                return Err(TokenError::InsufficientBalance);
            },
        };
        proof {
            lemma_drawn_is_covered(held, *token_source, amount);
        }
        match self.escrow.credit(deposit_contract_id, &taken) {
            Ok(()) => {},
            Err(e) => {
                return Err(e);
            },
        }
        match self.balances.debit(contract_id, &taken) {
            Ok(()) => Ok(taken),
            Err(e) => Err(e),
        }
    }

    fn contract_withdraw(
        &mut self,
        contract_id: &String,
        deposit_contract_id: &Option<String>,
        token_source: &Option<ValueClass>,
        amount: u128,
    ) -> (r: Result<Vec<Withdrawal>, TokenError>) {
        let committed = self.escrow.amounts(deposit_contract_id);
        let taken = match committed.draw_down(token_source, amount) {
            Some(taken) => taken,
            None => {
                return Err(TokenError::InsufficientBalance);
            },
        };
        proof {
            lemma_drawn_is_covered(committed, *token_source, amount);
        }
        match self.balances.credit(contract_id, &taken) {
            Ok(()) => {},
            Err(e) => {
                return Err(e);
            },
        }
        match deposit_contract_id {
            Some(counterparty) => match self.escrow.debit(counterparty, &taken) {
                Ok(()) => Ok(parts(counterparty, &taken)),
                Err(e) => Err(e),
            },
            None => self.escrow.withdraw_any(token_source, amount),
        }
    }

    fn get_balance(&self, contract_id: &Option<String>, token_source: &Option<ValueClass>) -> (r:
        u128) {
        self.balances.balance_of(contract_id, token_source)
    }

    fn get_deposit_balance(
        &self,
        deposit_contract_id: &Option<String>,
        token_source: &Option<ValueClass>,
    ) -> (r: u128) {
        self.escrow.balance_of(deposit_contract_id, token_source)
    }

    fn is_registered(&self, contract_id: &String) -> (r: bool) {
        self.balances.is_registered(contract_id)
    }

    fn is_deposit_exist(&self, deposit_contract_id: &String) -> (r: bool) {
        self.escrow.is_registered(deposit_contract_id)
    }
}

} // verus!
