//! The income record that the search works on.

use crate::error::InvalidBudgetError;
use crate::units::{MONTHS, STEP};
use vstd::prelude::*;

verus! {

/// What a record says, as plain numbers: every amount in millionths of one
/// currency unit.
pub struct RecordView {
    /// Gross salary of one month.
    pub monthly_salary: nat,
    /// What is deducted from the salary of one month before tax.
    pub monthly_tax_deduction: nat,
    /// The part of the yearly bonus that is still paid as bonus.
    pub year_bonus: nat,
    /// The part of the yearly bonus that has been moved to the salary.
    pub movement: nat,
}

impl RecordView {
    /// The salary of the whole year that is taxed: twelve times what is left
    /// of a month's salary after the deduction, never below zero, and on top
    /// of it what was moved over from the bonus.
    pub open spec fn total_salary(self) -> int {
        let net = self.monthly_salary - self.monthly_tax_deduction;
        self.movement + MONTHS * (if net > 0 {
            net
        } else {
            0
        })
    }

    /// The amount that a move of at most `budget` takes from the bonus: the
    /// budget, or the whole bonus where that is less.
    pub open spec fn movable(self, budget: int) -> int {
        if self.year_bonus < budget {
            self.year_bonus as int
        } else {
            budget
        }
    }

    /// The record after `amount` has gone from the bonus to the salary.
    pub open spec fn moved(self, amount: int) -> RecordView
        recommends
            0 <= amount <= self.year_bonus,
    {
        RecordView {
            monthly_salary: self.monthly_salary,
            monthly_tax_deduction: self.monthly_tax_deduction,
            year_bonus: (self.year_bonus - amount) as nat,
            movement: (self.movement + amount) as nat,
        }
    }

    /// The record after `k` moves of one step each, the last of which takes
    /// what is left where less than a step is left.
    pub open spec fn after_steps(self, k: nat) -> RecordView {
        self.moved(self.movable(k * STEP))
    }

    /// How many moves empty the bonus.
    pub open spec fn steps(self) -> nat {
        if self.year_bonus % (STEP as nat) == 0 {
            self.year_bonus / (STEP as nat)
        } else {
            self.year_bonus / (STEP as nat) + 1
        }
    }
}

/// An income of one year: a monthly salary with its monthly deduction, and a
/// yearly bonus of which a part may have been moved to the salary. What is
/// moved and what is left of the bonus always fit together in a `u64`.
#[derive(Clone, Copy, Debug, PartialEq, Eq)]
pub struct Record {
    monthly_salary: u64,
    monthly_tax_deduction: u64,
    year_bonus: u64,
    movement: u64,
}

impl View for Record {
    type V = RecordView;

    closed spec fn view(&self) -> RecordView {
        RecordView {
            monthly_salary: self.monthly_salary as nat,
            monthly_tax_deduction: self.monthly_tax_deduction as nat,
            year_bonus: self.year_bonus as nat,
            movement: self.movement as nat,
        }
    }
}

impl Record {
    #[verifier::type_invariant]
    spec fn inv(&self) -> bool {
        self.movement + self.year_bonus <= u64::MAX
    }

    /// A record with nothing moved yet.
    pub fn new(monthly_salary: u64, monthly_tax_deduction: u64, year_bonus: u64) -> (r: Record)
        ensures
            r@ == (RecordView {
                monthly_salary: monthly_salary as nat,
                monthly_tax_deduction: monthly_tax_deduction as nat,
                year_bonus: year_bonus as nat,
                movement: 0,
            }),
    {
        Record { monthly_salary, monthly_tax_deduction, year_bonus, movement: 0 }
    }

    /// The gross salary of one month.
    pub fn monthly_salary(&self) -> (v: u64)
        ensures
            v == self@.monthly_salary,
    {
        self.monthly_salary
    }

    /// What is deducted from the salary of one month before tax.
    pub fn monthly_tax_deduction(&self) -> (v: u64)
        ensures
            v == self@.monthly_tax_deduction,
    {
        self.monthly_tax_deduction
    }

    /// What is left of the yearly bonus.
    pub fn year_bonus(&self) -> (v: u64)
        ensures
            v == self@.year_bonus,
    {
        self.year_bonus
    }

    /// What has been moved from the yearly bonus to the salary.
    pub fn movement(&self) -> (v: u64)
        ensures
            v == self@.movement,
            self@.movement + self@.year_bonus <= u64::MAX,
    {
        proof {
            use_type_invariant(self);
        }
        self.movement
    }

    /// The yearly salary that is taxed.
    pub fn total_salary(&self) -> (v: u128)
        ensures
            v == self@.total_salary(),
    {
        let net: u64 = if self.monthly_salary > self.monthly_tax_deduction {
            self.monthly_salary - self.monthly_tax_deduction
        } else {
            0
        };
        assert(MONTHS * net <= 12 * u64::MAX);
        self.movement as u128 + (MONTHS as u128) * (net as u128)
    }

    /// Moves `budget` from the bonus to the salary, or all of the bonus where
    /// it is less than `budget`. Where that amount is zero nothing can be
    /// moved: the record stays as it is and the call fails.
    pub fn adjust(&mut self, budget: u64) -> (r: Result<(), InvalidBudgetError>)
        ensures
            r is Ok <==> old(self)@.movable(budget as int) > 0,
            r is Ok ==> final(self)@ == old(self)@.moved(old(self)@.movable(budget as int)),
            r is Err ==> final(self)@ == old(self)@,
    {
        proof {
            use_type_invariant(&*self);
        }
        let amount: u64 = if self.year_bonus < budget {
            self.year_bonus
        } else {
            budget
        };
        if amount == 0 {
            return Err(InvalidBudgetError);
        }
        self.year_bonus = self.year_bonus - amount;
        self.movement = self.movement + amount;
        Ok(())
    }
}

/// A move changes neither the salary nor the deduction, and what it takes
/// from the bonus it adds to the movement: their sum stays what it was.
pub proof fn lemma_move_conserves(r: RecordView, budget: nat)
    ensures
        ({
            let after = r.moved(r.movable(budget as int));
            &&& after.movement + after.year_bonus == r.movement + r.year_bonus
            &&& after.movement >= r.movement
            &&& after.year_bonus <= r.year_bonus
            &&& after.monthly_salary == r.monthly_salary
            &&& after.monthly_tax_deduction == r.monthly_tax_deduction
        }),
{
}

/// After any number of steps the movement and what is left of the bonus add
/// up to what they added up to at the start.
pub proof fn lemma_steps_conserve(r: RecordView, k: nat)
    ensures
        r.after_steps(k).movement + r.after_steps(k).year_bonus == r.movement + r.year_bonus,
        r.movement == 0 ==> r.after_steps(k).movement + r.after_steps(k).year_bonus == r.year_bonus,
{
}

/// One more move of one step leads from the record after `k` steps to the
/// record after `k + 1` steps.
pub proof fn lemma_next_step(r: RecordView, k: nat)
    ensures
        r.after_steps(k).moved(r.after_steps(k).movable(STEP as int)) == r.after_steps(k + 1),
{
    assert((k + 1) * STEP == k * STEP + STEP) by (nonlinear_arith);
}

/// The bonus is used up after `steps()` moves and not before.
pub proof fn lemma_steps_exhaust(r: RecordView, k: nat)
    ensures
        r.after_steps(k).year_bonus == 0 <==> k >= r.steps(),
        r.after_steps(0) == r,
{
    let n = r.steps();
    let step = STEP as nat;
    assert(r.year_bonus == step * (r.year_bonus / step) + r.year_bonus % step) by {
        vstd::arithmetic::div_mod::lemma_fundamental_div_mod(r.year_bonus as int, step as int);
    }
    if k >= n {
        assert(k * step >= n * step) by (nonlinear_arith)
            requires
                k >= n,
        ;
        assert(n * step >= r.year_bonus) by (nonlinear_arith)
            requires
                r.year_bonus == step * (r.year_bonus / step) + r.year_bonus % step,
                0 <= r.year_bonus % step < step,
                n == (if r.year_bonus % step == 0 {
                    r.year_bonus / step
                } else {
                    r.year_bonus / step + 1
                }),
        ;
    } else {
        assert(k * step < r.year_bonus) by (nonlinear_arith)
            requires
                k < n,
                r.year_bonus == step * (r.year_bonus / step) + r.year_bonus % step,
                0 <= r.year_bonus % step < step,
                n == (if r.year_bonus % step == 0 {
                    r.year_bonus / step
                } else {
                    r.year_bonus / step + 1
                }),
        ;
    }
}

} // verus!
