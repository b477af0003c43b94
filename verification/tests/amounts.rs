use near_non_transferable_token::amounts::{Amounts, ValueClass};

#[test]
fn zero_holds_nothing() {
    let zero = Amounts::zero();
    assert_eq!(zero, Amounts { primary: 0, secondary: 0 });
    assert!(zero.is_zero());
    assert_eq!(zero.balance(&None), 0);
}

#[test]
fn single_puts_the_amount_in_one_class() {
    assert_eq!(Amounts::single(ValueClass::Primary, 7), Amounts { primary: 7, secondary: 0 });
    assert_eq!(Amounts::single(ValueClass::Secondary, 7), Amounts { primary: 0, secondary: 7 });
}

#[test]
fn get_reads_the_class() {
    let held = Amounts { primary: 30, secondary: 10 };
    assert_eq!(held.get(ValueClass::Primary), 30);
    assert_eq!(held.get(ValueClass::Secondary), 10);
}

#[test]
fn balance_without_class_is_the_sum() {
    let held = Amounts { primary: 30, secondary: 10 };
    assert_eq!(held.balance(&Some(ValueClass::Primary)), 30);
    assert_eq!(held.balance(&Some(ValueClass::Secondary)), 10);
    assert_eq!(held.balance(&None), 40);
}

#[test]
fn balance_without_class_is_capped() {
    let held = Amounts { primary: u128::MAX, secondary: 1 };
    assert_eq!(held.balance(&None), u128::MAX);
    let held = Amounts { primary: u128::MAX - 1, secondary: 1 };
    assert_eq!(held.balance(&None), u128::MAX);
}

#[test]
fn checked_add_adds_class_by_class() {
    let a = Amounts { primary: 30, secondary: 10 };
    let b = Amounts { primary: 1, secondary: 2 };
    assert_eq!(a.checked_add(&b), Some(Amounts { primary: 31, secondary: 12 }));
}

#[test]
fn checked_add_refuses_overflow_in_either_class() {
    let a = Amounts { primary: u128::MAX, secondary: 10 };
    assert_eq!(a.checked_add(&Amounts { primary: 1, secondary: 0 }), None);
    assert_eq!(a.checked_add(&Amounts { primary: 0, secondary: 1 }), Some(Amounts { primary: u128::MAX, secondary: 11 }));
    let b = Amounts { primary: 0, secondary: u128::MAX };
    assert_eq!(b.checked_add(&Amounts { primary: 0, secondary: 1 }), None);
}

#[test]
fn checked_sub_refuses_what_is_not_held() {
    let a = Amounts { primary: 30, secondary: 10 };
    assert_eq!(a.checked_sub(&Amounts { primary: 30, secondary: 10 }), Some(Amounts::zero()));
    assert_eq!(a.checked_sub(&Amounts { primary: 31, secondary: 0 }), None);
    assert_eq!(a.checked_sub(&Amounts { primary: 0, secondary: 11 }), None);
    assert_eq!(a.checked_sub(&Amounts { primary: 5, secondary: 4 }), Some(Amounts { primary: 25, secondary: 6 }));
}

#[test]
fn holds_compares_class_by_class() {
    let a = Amounts { primary: 30, secondary: 10 };
    assert!(a.holds(&Amounts { primary: 30, secondary: 10 }));
    assert!(!a.holds(&Amounts { primary: 0, secondary: 11 }));
}

#[test]
fn draw_down_of_a_named_class_takes_only_that_class() {
    let held = Amounts { primary: 30, secondary: 10 };
    assert_eq!(held.draw_down(&Some(ValueClass::Primary), 25), Some(Amounts { primary: 25, secondary: 0 }));
    assert_eq!(held.draw_down(&Some(ValueClass::Secondary), 10), Some(Amounts { primary: 0, secondary: 10 }));
    assert_eq!(held.draw_down(&Some(ValueClass::Secondary), 11), None);
    assert_eq!(held.draw_down(&Some(ValueClass::Primary), 31), None);
}

#[test]
fn draw_down_without_class_drains_secondary_first() {
    let held = Amounts { primary: 30, secondary: 10 };
    assert_eq!(held.draw_down(&None, 25), Some(Amounts { primary: 15, secondary: 10 }));
    assert_eq!(held.draw_down(&None, 10), Some(Amounts { primary: 0, secondary: 10 }));
    assert_eq!(held.draw_down(&None, 4), Some(Amounts { primary: 0, secondary: 4 }));
    assert_eq!(held.draw_down(&None, 40), Some(Amounts { primary: 30, secondary: 10 }));
    assert_eq!(held.draw_down(&None, 0), Some(Amounts::zero()));
}

#[test]
fn draw_down_without_class_fails_only_where_the_sum_is_short() {
    let held = Amounts { primary: 30, secondary: 10 };
    assert_eq!(held.draw_down(&None, 41), None);
    let full = Amounts { primary: u128::MAX, secondary: u128::MAX };
    assert_eq!(full.draw_down(&None, u128::MAX), Some(Amounts { primary: 0, secondary: u128::MAX }));
}

#[test]
fn draw_at_most_stops_at_what_is_held() {
    let held = Amounts { primary: 30, secondary: 10 };
    assert_eq!(held.draw_at_most(&None, 25), (25, Amounts { primary: 15, secondary: 10 }));
    assert_eq!(held.draw_at_most(&None, 50), (40, Amounts { primary: 30, secondary: 10 }));
    assert_eq!(held.draw_at_most(&Some(ValueClass::Primary), 50), (30, Amounts { primary: 30, secondary: 0 }));
    assert_eq!(held.draw_at_most(&Some(ValueClass::Secondary), 3), (3, Amounts { primary: 0, secondary: 3 }));
}
