use near_non_transferable_token::amounts::{Amounts, ValueClass};
use near_non_transferable_token::error::TokenError;
use near_non_transferable_token::ledger::{Ledger, Withdrawal};

fn id(name: &str) -> String {
    name.to_string()
}

fn part(scope: &str, class: ValueClass, amount: u128) -> Withdrawal {
    Withdrawal { scope: id(scope), class, amount }
}

fn sample() -> Ledger {
    let mut ledger = Ledger::new();
    ledger.deposit(&id("a"), ValueClass::Primary, 30).unwrap();
    ledger.deposit(&id("a"), ValueClass::Secondary, 10).unwrap();
    ledger.deposit(&id("b"), ValueClass::Primary, 5).unwrap();
    ledger.deposit(&id("c"), ValueClass::Secondary, 7).unwrap();
    ledger
}

fn sum_over_scopes(ledger: &Ledger, class: ValueClass) -> u128 {
    let mut sum = 0u128;
    for i in 0..ledger.len() {
        sum += ledger.amounts_at(i).unwrap().get(class);
    }
    sum
}

fn aggregates(ledger: &Ledger) {
    for class in [ValueClass::Primary, ValueClass::Secondary] {
        assert_eq!(ledger.balance_of(&None, &Some(class)), sum_over_scopes(ledger, class));
    }
    for i in 0..ledger.len() {
        let scope = ledger.scope_at(i).unwrap().clone();
        assert_eq!(ledger.amounts(&Some(scope)), ledger.amounts_at(i).unwrap());
    }
}

#[test]
fn new_ledger_holds_nothing() {
    let ledger = Ledger::new();
    assert_eq!(ledger.len(), 0);
    assert_eq!(ledger.balance_of(&None, &None), 0);
    assert_eq!(ledger.balance_of(&Some(id("app")), &Some(ValueClass::Primary)), 0);
    assert!(!ledger.is_registered(&id("app")));
}

#[test]
fn deposit_mirrors_into_aggregate() {
    let mut ledger = Ledger::new();
    assert_eq!(ledger.deposit(&id("a"), ValueClass::Primary, 30), Ok(()));
    assert_eq!(ledger.deposit(&id("b"), ValueClass::Primary, 12), Ok(()));
    assert_eq!(ledger.deposit(&id("a"), ValueClass::Secondary, 10), Ok(()));
    assert_eq!(ledger.amounts(&Some(id("a"))), Amounts { primary: 30, secondary: 10 });
    assert_eq!(ledger.amounts(&Some(id("b"))), Amounts { primary: 12, secondary: 0 });
    assert_eq!(ledger.amounts(&None), Amounts { primary: 42, secondary: 10 });
    assert_eq!(ledger.balance_of(&None, &None), 52);
    assert_eq!(ledger.balance_of(&Some(id("a")), &None), 40);
    aggregates(&ledger);
}

#[test]
fn deposit_registers_the_scope_even_with_nothing() {
    let mut ledger = Ledger::new();
    assert!(!ledger.is_registered(&id("a")));
    assert_eq!(ledger.deposit(&id("a"), ValueClass::Primary, 0), Ok(()));
    assert!(ledger.is_registered(&id("a")));
    assert_eq!(ledger.len(), 1);
    assert_eq!(ledger.scope_at(0), Some(&id("a")));
    assert_eq!(ledger.amounts_at(0), Some(Amounts::zero()));
    assert_eq!(ledger.scope_at(1), None);
    assert_eq!(ledger.amounts_at(1), None);
}

#[test]
fn scopes_keep_the_order_of_first_deposit() {
    let ledger = sample();
    assert_eq!(ledger.len(), 3);
    assert_eq!(ledger.scope_at(0), Some(&id("a")));
    assert_eq!(ledger.scope_at(1), Some(&id("b")));
    assert_eq!(ledger.scope_at(2), Some(&id("c")));
    assert_eq!(ledger.scope_at(3), None);
}

#[test]
fn deposit_overflow_of_the_scope_changes_nothing() {
    let mut ledger = Ledger::new();
    ledger.deposit(&id("a"), ValueClass::Primary, u128::MAX).unwrap();
    assert_eq!(ledger.deposit(&id("a"), ValueClass::Primary, 1), Err(TokenError::Overflow));
    assert_eq!(ledger.amounts(&Some(id("a"))), Amounts { primary: u128::MAX, secondary: 0 });
    assert_eq!(ledger.amounts(&None), Amounts { primary: u128::MAX, secondary: 0 });
    assert_eq!(ledger.deposit(&id("a"), ValueClass::Secondary, 1), Ok(()));
}

#[test]
fn deposit_overflow_of_the_aggregate_changes_nothing() {
    let mut ledger = Ledger::new();
    ledger.deposit(&id("a"), ValueClass::Primary, u128::MAX - 5).unwrap();
    assert_eq!(ledger.deposit(&id("b"), ValueClass::Primary, 6), Err(TokenError::Overflow));
    assert!(!ledger.is_registered(&id("b")));
    assert_eq!(ledger.len(), 1);
    assert_eq!(ledger.amounts(&None), Amounts { primary: u128::MAX - 5, secondary: 0 });
    assert_eq!(ledger.deposit(&id("b"), ValueClass::Primary, 5), Ok(()));
    assert_eq!(ledger.amounts(&None), Amounts { primary: u128::MAX, secondary: 0 });
}

#[test]
fn withdraw_of_a_named_class() {
    let mut ledger = sample();
    assert_eq!(
        ledger.withdraw(&id("a"), &Some(ValueClass::Primary), 12),
        Ok(Amounts { primary: 12, secondary: 0 })
    );
    assert_eq!(ledger.amounts(&Some(id("a"))), Amounts { primary: 18, secondary: 10 });
    assert_eq!(ledger.amounts(&None), Amounts { primary: 23, secondary: 17 });
    aggregates(&ledger);
}

#[test]
fn withdraw_more_than_the_class_holds_changes_nothing() {
    let mut ledger = sample();
    assert_eq!(
        ledger.withdraw(&id("a"), &Some(ValueClass::Secondary), 11),
        Err(TokenError::InsufficientBalance)
    );
    assert_eq!(ledger.amounts(&Some(id("a"))), Amounts { primary: 30, secondary: 10 });
    assert_eq!(ledger.amounts(&None), Amounts { primary: 35, secondary: 17 });
}

#[test]
fn class_draw_down_order() {
    let mut ledger = Ledger::new();
    ledger.deposit(&id("a"), ValueClass::Secondary, 10).unwrap();
    ledger.deposit(&id("a"), ValueClass::Primary, 30).unwrap();
    assert_eq!(ledger.withdraw(&id("a"), &None, 25), Ok(Amounts { primary: 15, secondary: 10 }));
    assert_eq!(ledger.balance_of(&Some(id("a")), &Some(ValueClass::Secondary)), 0);
    assert_eq!(ledger.balance_of(&Some(id("a")), &Some(ValueClass::Primary)), 15);
    assert_eq!(ledger.amounts(&None), Amounts { primary: 15, secondary: 0 });
}

#[test]
fn withdraw_without_class_fails_only_where_the_sum_is_short() {
    let mut ledger = sample();
    assert_eq!(ledger.withdraw(&id("a"), &None, 41), Err(TokenError::InsufficientBalance));
    assert_eq!(ledger.amounts(&Some(id("a"))), Amounts { primary: 30, secondary: 10 });
    assert_eq!(ledger.withdraw(&id("a"), &None, 40), Ok(Amounts { primary: 30, secondary: 10 }));
    assert_eq!(ledger.amounts(&Some(id("a"))), Amounts::zero());
    assert!(ledger.is_registered(&id("a")));
    aggregates(&ledger);
}

#[test]
fn withdraw_from_an_unknown_scope() {
    let mut ledger = sample();
    assert_eq!(
        ledger.withdraw(&id("z"), &Some(ValueClass::Primary), 1),
        Err(TokenError::InsufficientBalance)
    );
    assert_eq!(ledger.withdraw(&id("z"), &None, 0), Ok(Amounts::zero()));
    assert!(!ledger.is_registered(&id("z")));
    assert_eq!(ledger.len(), 3);
}

#[test]
fn deposit_then_withdraw_is_a_round_trip() {
    let mut ledger = sample();
    for class in [ValueClass::Primary, ValueClass::Secondary] {
        ledger.deposit(&id("b"), class, 123).unwrap();
        ledger.withdraw(&id("b"), &Some(class), 123).unwrap();
        ledger.deposit(&id("new"), class, 9).unwrap();
        ledger.withdraw(&id("new"), &Some(class), 9).unwrap();
    }
    let before = sample();
    for scope in ["a", "b", "c", "new", "other"] {
        assert_eq!(ledger.amounts(&Some(id(scope))), before.amounts(&Some(id(scope))));
    }
    assert_eq!(ledger.amounts(&None), before.amounts(&None));
}

#[test]
fn credit_and_debit_move_both_classes_at_once() {
    let mut ledger = Ledger::new();
    assert_eq!(ledger.credit(&id("a"), &Amounts { primary: 3, secondary: 4 }), Ok(()));
    assert_eq!(ledger.debit(&id("a"), &Amounts { primary: 1, secondary: 5 }), Err(TokenError::InsufficientBalance));
    assert_eq!(ledger.amounts_in(&id("a")), Amounts { primary: 3, secondary: 4 });
    assert_eq!(ledger.debit(&id("a"), &Amounts { primary: 1, secondary: 4 }), Ok(()));
    assert_eq!(ledger.amounts_in(&id("a")), Amounts { primary: 2, secondary: 0 });
    assert_eq!(ledger.amounts(&None), Amounts { primary: 2, secondary: 0 });
    assert_eq!(ledger.credit(&id("a"), &Amounts { primary: u128::MAX, secondary: 0 }), Err(TokenError::Overflow));
    assert_eq!(ledger.amounts_in(&id("a")), Amounts { primary: 2, secondary: 0 });
}

#[test]
fn drain_takes_from_the_scopes_in_order() {
    let mut ledger = sample();
    assert_eq!(
        ledger.drain(ValueClass::Primary, 32),
        Ok(vec![part("a", ValueClass::Primary, 30), part("b", ValueClass::Primary, 2)])
    );
    assert_eq!(ledger.amounts(&Some(id("a"))), Amounts { primary: 0, secondary: 10 });
    assert_eq!(ledger.amounts(&Some(id("b"))), Amounts { primary: 3, secondary: 0 });
    assert_eq!(ledger.amounts(&Some(id("c"))), Amounts { primary: 0, secondary: 7 });
    assert_eq!(ledger.amounts(&None), Amounts { primary: 3, secondary: 17 });
    aggregates(&ledger);
}

#[test]
fn drain_leaves_out_scopes_that_give_nothing() {
    let mut ledger = sample();
    assert_eq!(
        ledger.drain(ValueClass::Secondary, 17),
        Ok(vec![part("a", ValueClass::Secondary, 10), part("c", ValueClass::Secondary, 7)])
    );
    assert_eq!(ledger.amounts(&None), Amounts { primary: 35, secondary: 0 });
    assert_eq!(ledger.drain(ValueClass::Secondary, 0), Ok(vec![]));
}

#[test]
fn drain_fails_only_where_all_scopes_are_short() {
    let mut ledger = sample();
    assert_eq!(ledger.drain(ValueClass::Primary, 36), Err(TokenError::InsufficientBalance));
    assert_eq!(ledger.amounts(&Some(id("a"))), Amounts { primary: 30, secondary: 10 });
    assert_eq!(ledger.amounts(&None), Amounts { primary: 35, secondary: 17 });
    assert_eq!(
        ledger.drain(ValueClass::Primary, 35),
        Ok(vec![part("a", ValueClass::Primary, 30), part("b", ValueClass::Primary, 5)])
    );
}

#[test]
fn withdraw_any_without_class_drains_secondary_everywhere_first() {
    let mut ledger = sample();
    assert_eq!(
        ledger.withdraw_any(&None, 20),
        Ok(vec![
            part("a", ValueClass::Secondary, 10),
            part("c", ValueClass::Secondary, 7),
            part("a", ValueClass::Primary, 3),
        ])
    );
    assert_eq!(ledger.amounts(&Some(id("a"))), Amounts { primary: 27, secondary: 0 });
    assert_eq!(ledger.amounts(&Some(id("b"))), Amounts { primary: 5, secondary: 0 });
    assert_eq!(ledger.amounts(&Some(id("c"))), Amounts::zero());
    assert_eq!(ledger.amounts(&None), Amounts { primary: 32, secondary: 0 });
    aggregates(&ledger);
}

#[test]
fn withdraw_any_of_a_named_class() {
    let mut ledger = sample();
    assert_eq!(
        ledger.withdraw_any(&Some(ValueClass::Secondary), 12),
        Ok(vec![part("a", ValueClass::Secondary, 10), part("c", ValueClass::Secondary, 2)])
    );
    assert_eq!(ledger.amounts(&None), Amounts { primary: 35, secondary: 5 });
}

#[test]
fn withdraw_any_fails_only_where_the_total_is_short() {
    let mut ledger = sample();
    assert_eq!(ledger.withdraw_any(&None, 53), Err(TokenError::InsufficientBalance));
    assert_eq!(ledger.withdraw_any(&Some(ValueClass::Secondary), 18), Err(TokenError::InsufficientBalance));
    assert_eq!(ledger.amounts(&None), Amounts { primary: 35, secondary: 17 });
    assert!(ledger.withdraw_any(&None, 52).is_ok());
    assert_eq!(ledger.amounts(&None), Amounts::zero());
    assert_eq!(ledger.len(), 3);
}

#[test]
fn holds_all_compares_scope_by_scope() {
    let ledger = sample();
    let mut other = Ledger::new();
    assert!(ledger.holds_all(&other));
    other.deposit(&id("b"), ValueClass::Primary, 5).unwrap();
    other.deposit(&id("z"), ValueClass::Primary, 0).unwrap();
    assert!(ledger.holds_all(&other));
    other.deposit(&id("b"), ValueClass::Primary, 1).unwrap();
    assert!(!ledger.holds_all(&other));
    assert!(!Ledger::new().holds_all(&ledger));
}

#[test]
fn subtract_takes_what_the_other_holds() {
    let mut ledger = sample();
    let mut other = Ledger::new();
    other.deposit(&id("c"), ValueClass::Secondary, 7).unwrap();
    other.deposit(&id("a"), ValueClass::Primary, 10).unwrap();
    assert_eq!(ledger.subtract(&other), Ok(()));
    assert_eq!(ledger.amounts(&Some(id("a"))), Amounts { primary: 20, secondary: 10 });
    assert_eq!(ledger.amounts(&Some(id("b"))), Amounts { primary: 5, secondary: 0 });
    assert_eq!(ledger.amounts(&Some(id("c"))), Amounts::zero());
    assert_eq!(ledger.amounts(&None), Amounts { primary: 25, secondary: 10 });
    assert_eq!(ledger.len(), 3);
    aggregates(&ledger);
}

#[test]
fn subtract_more_than_is_held_changes_nothing() {
    let mut ledger = sample();
    let mut other = Ledger::new();
    other.deposit(&id("a"), ValueClass::Primary, 10).unwrap();
    other.deposit(&id("b"), ValueClass::Primary, 6).unwrap();
    assert_eq!(ledger.subtract(&other), Err(TokenError::InsufficientBalance));
    assert_eq!(ledger.amounts(&Some(id("a"))), Amounts { primary: 30, secondary: 10 });
    assert_eq!(ledger.amounts(&None), Amounts { primary: 35, secondary: 17 });
}

#[test]
fn add_takes_in_what_the_other_holds() {
    let mut ledger = sample();
    let mut other = Ledger::new();
    other.deposit(&id("c"), ValueClass::Primary, 1).unwrap();
    other.deposit(&id("new"), ValueClass::Secondary, 2).unwrap();
    other.deposit(&id("a"), ValueClass::Primary, 3).unwrap();
    assert_eq!(ledger.add(&other), Ok(()));
    assert_eq!(ledger.amounts(&Some(id("a"))), Amounts { primary: 33, secondary: 10 });
    assert_eq!(ledger.amounts(&Some(id("b"))), Amounts { primary: 5, secondary: 0 });
    assert_eq!(ledger.amounts(&Some(id("c"))), Amounts { primary: 1, secondary: 7 });
    assert_eq!(ledger.amounts(&Some(id("new"))), Amounts { primary: 0, secondary: 2 });
    assert_eq!(ledger.amounts(&None), Amounts { primary: 39, secondary: 19 });
    assert_eq!(ledger.len(), 4);
    assert_eq!(ledger.scope_at(3), Some(&id("new")));
    aggregates(&ledger);
    assert_eq!(ledger.subtract(&other), Ok(()));
    assert_eq!(ledger.amounts(&None), Amounts { primary: 35, secondary: 17 });
}

#[test]
fn add_overflow_changes_nothing() {
    let mut ledger = sample();
    let mut other = Ledger::new();
    other.deposit(&id("new"), ValueClass::Primary, 1).unwrap();
    other.deposit(&id("b"), ValueClass::Primary, u128::MAX - 35).unwrap();
    assert_eq!(ledger.add(&other), Err(TokenError::Overflow));
    assert!(!ledger.is_registered(&id("new")));
    assert_eq!(ledger.amounts(&None), Amounts { primary: 35, secondary: 17 });
    assert_eq!(ledger.len(), 3);
}
