use vstd::prelude::*;

verus! {

/// Provenance tag of a unit of value. A withdrawal that names no class drains
/// `Secondary` before it touches `Primary`.
#[derive(Clone, Copy, Debug, PartialEq, Eq, Structural)]
pub enum ValueClass {
    Primary,
    Secondary,
}

/// The amounts held under one key, one per value class.
#[derive(Clone, Copy, Debug, PartialEq, Eq, Structural)]
pub struct Amounts {
    pub primary: u128,
    pub secondary: u128,
}

/// `n`, or the largest representable amount where `n` lies above it.
pub open spec fn capped(n: nat) -> u128 {
    if n <= u128::MAX {
        n as u128
    } else {
        u128::MAX
    }
}

impl Amounts {
    /// Nothing in either class.
    pub open spec fn none() -> Amounts {
        Amounts { primary: 0, secondary: 0 }
    }

    /// `amount` in `class` and nothing in the other class.
    pub open spec fn only(class: ValueClass, amount: u128) -> Amounts {
        match class {
            ValueClass::Primary => Amounts { primary: amount, secondary: 0 },
            ValueClass::Secondary => Amounts { primary: 0, secondary: amount },
        }
    }

    /// The amount held in `class`.
    pub open spec fn of(self, class: ValueClass) -> u128 {
        match class {
            ValueClass::Primary => self.primary,
            ValueClass::Secondary => self.secondary,
        }
    }

    /// Both classes together.
    pub open spec fn total(self) -> nat {
        (self.primary + self.secondary) as nat
    }

    /// The amount held in `class`, or in both classes where none is named.
    pub open spec fn amount(self, class: Option<ValueClass>) -> nat {
        match class {
            Some(c) => self.of(c) as nat,
            None => self.total(),
        }
    }

    /// Each class of `other` is held here too.
    pub open spec fn covers(self, other: Amounts) -> bool {
        other.primary <= self.primary && other.secondary <= self.secondary
    }

    /// Adding `other` class by class stays representable.
    pub open spec fn fits(self, other: Amounts) -> bool {
        self.primary + other.primary <= u128::MAX && self.secondary + other.secondary <= u128::MAX
    }

    /// The sum class by class (meant for `self.fits(other)`).
    pub open spec fn plus(self, other: Amounts) -> Amounts {
        Amounts {
            primary: (self.primary + other.primary) as u128,
            secondary: (self.secondary + other.secondary) as u128,
        }
    }

    /// The difference class by class (meant for `self.covers(other)`).
    pub open spec fn minus(self, other: Amounts) -> Amounts {
        Amounts {
            primary: (self.primary - other.primary) as u128,
            secondary: (self.secondary - other.secondary) as u128,
        }
    }

    /// What a withdrawal of `amount` takes from each class: all of it from the
    /// named class, or, where none is named, from `Secondary` as far as that
    /// reaches and the rest from `Primary` (meant for `amount <= self.amount(class)`).
    pub open spec fn drawn(self, class: Option<ValueClass>, amount: u128) -> Amounts {
        match class {
            Some(c) => Amounts::only(c, amount),
            None => if amount <= self.secondary {
                Amounts { primary: 0, secondary: amount }
            } else {
                Amounts { primary: (amount - self.secondary) as u128, secondary: self.secondary }
            },
        }
    }

    /// Nothing in either class.
    pub fn zero() -> (r: Amounts)
        ensures
            r == Amounts::none(),
    {
        Amounts { primary: 0, secondary: 0 }
    }

    /// `amount` in `class` and nothing in the other class.
    pub fn single(class: ValueClass, amount: u128) -> (r: Amounts)
        ensures
            r == Amounts::only(class, amount),
    {
        match class {
            ValueClass::Primary => Amounts { primary: amount, secondary: 0 },
            ValueClass::Secondary => Amounts { primary: 0, secondary: amount },
        }
    }

    /// The amount held in `class`.
    pub fn get(&self, class: ValueClass) -> (r: u128)
        ensures
            r == self.of(class),
    {
        match class {
            ValueClass::Primary => self.primary,
            ValueClass::Secondary => self.secondary,
        }
    }

    /// The amount in `class`, or in both classes where none is named; a sum that
    /// is not representable is reported as the largest representable amount.
    pub fn balance(&self, class: &Option<ValueClass>) -> (r: u128)
        ensures
            r == capped(self.amount(*class)),
    {
        match class {
            Some(c) => self.get(*c),
            None => self.primary.saturating_add(self.secondary),
        }
    }

    /// Whether each class of `other` is held here too.
    pub fn holds(&self, other: &Amounts) -> (r: bool)
        ensures
            r == self.covers(*other),
    {
        other.primary <= self.primary && other.secondary <= self.secondary
    }

    /// What is left after `amount` was taken from `class`.
    pub(crate) fn less(&self, class: ValueClass, amount: u128) -> (r: Amounts)
        requires
            amount <= self.of(class),
        ensures
            r == self.minus(Amounts::only(class, amount)),
    {
        match class {
            ValueClass::Primary => Amounts {
                primary: self.primary - amount,
                secondary: self.secondary,
            },
            ValueClass::Secondary => Amounts {
                primary: self.primary,
                secondary: self.secondary - amount,
            },
        }
    }

    /// Whether nothing is held in either class.
    pub fn is_zero(&self) -> (r: bool)
        ensures
            r == (self.total() == 0),
    {
        self.primary == 0 && self.secondary == 0
    }

    /// The sum class by class, or `None` where a class would overflow.
    pub fn checked_add(&self, other: &Amounts) -> (r: Option<Amounts>)
        ensures
            r is Some <==> self.fits(*other),
            r is Some ==> r->0 == self.plus(*other),
    {
        match self.primary.checked_add(other.primary) {
            Some(primary) => match self.secondary.checked_add(other.secondary) {
                Some(secondary) => Some(Amounts { primary, secondary }),
                None => None,
            },
            None => None,
        }
    }

    /// The difference class by class, or `None` where a class of `other` is not held.
    pub fn checked_sub(&self, other: &Amounts) -> (r: Option<Amounts>)
        ensures
            r is Some <==> self.covers(*other),
            r is Some ==> r->0 == self.minus(*other),
    {
        match self.primary.checked_sub(other.primary) {
            Some(primary) => match self.secondary.checked_sub(other.secondary) {
                Some(secondary) => Some(Amounts { primary, secondary }),
                None => None,
            },
            None => None,
        }
    }

    /// Splits a withdrawal of `amount` over the classes, or gives `None` where
    /// the class, or both classes where none is named, hold less than `amount`.
    pub fn draw_down(&self, class: &Option<ValueClass>, amount: u128) -> (r: Option<Amounts>)
        ensures
            r is Some <==> amount <= self.amount(*class),
            r is Some ==> r->0 == self.drawn(*class, amount),
    {
        match class {
            Some(c) => {
                if amount <= self.get(*c) {
                    Some(Amounts::single(*c, amount))
                } else {
                    None
                }
            },
            None => {
                if amount <= self.secondary {
                    Some(Amounts { primary: 0, secondary: amount })
                } else {
                    let rest: u128 = amount - self.secondary;
                    if rest <= self.primary {
                        Some(Amounts { primary: rest, secondary: self.secondary })
                    } else {
                        None
                    }
                }
            },
        }
    }

    /// As much of `amount` as the class holds, or both classes where none is
    /// named, with its split over the classes.
    pub fn draw_at_most(&self, class: &Option<ValueClass>, amount: u128) -> (r: (u128, Amounts))
        ensures
            r.0 == if amount <= self.amount(*class) {
                amount
            } else {
                self.amount(*class) as u128
            },
            r.1 == self.drawn(*class, r.0),
    {
        match self.draw_down(class, amount) {
            Some(taken) => (amount, taken),
            None => match class {
                Some(c) => (self.get(*c), Amounts::single(*c, self.get(*c))),
                None => (self.primary + self.secondary, *self),
            },
        }
    }
}

/// A split never takes more from a class than the class holds, and takes
/// `amount` in all. Where no class is named, `Primary` is touched only once
/// `Secondary` is drained.
pub proof fn lemma_drawn_is_covered(held: Amounts, class: Option<ValueClass>, amount: u128)
    requires
        amount <= held.amount(class),
    ensures
        held.covers(held.drawn(class, amount)),
        held.drawn(class, amount).total() == amount,
        class matches Some(c) ==> held.drawn(class, amount) == Amounts::only(c, amount),
        class is None && held.drawn(class, amount).primary > 0 ==> held.drawn(
            class,
            amount,
        ).secondary == held.secondary,
{
}

} // verus!
