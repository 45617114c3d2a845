//! The search for the part of the bonus that is best paid out as salary.
//!
//! The search moves the bonus to the salary one step at a time until nothing
//! is left of it, calculates the tax after every step, and keeps the first
//! record with the lowest total.

use crate::bracket::ascending;
use crate::config::{ConfigView, TaxConfig};
use crate::error::LookupError;
use crate::record::{lemma_next_step, lemma_steps_exhaust, Record, RecordView};
use crate::tax::{lemma_smaller_bonus_has_bracket, tax_of, Tax, TaxView};
use crate::units::STEP;
use vstd::prelude::*;

verus! {

/// The total tax on the record after `k` steps.
pub open spec fn total_after(c: ConfigView, r: RecordView, k: nat) -> int
    recommends
        tax_of(c, r.after_steps(k)) is Some,
{
    tax_of(c, r.after_steps(k))->0.total()
}

/// Among the records after `0`, `1`, ... `n` steps, the number of steps of
/// the one that the search keeps: a later record replaces the one kept only
/// where its total is strictly lower.
pub open spec fn best_step(c: ConfigView, r: RecordView, n: nat) -> nat
    decreases n,
{
    if n == 0 {
        0
    } else {
        let kept = best_step(c, r, (n - 1) as nat);
        if total_after(c, r, n) < total_after(c, r, kept) {
            n
        } else {
            kept
        }
    }
}

/// What a plan says, as plain numbers.
pub struct PlanView {
    pub before: TaxView,
    pub after: TaxView,
    pub movement: nat,
}

/// The result of the search: the tax on the record as it was given, the
/// lowest tax that the search found, and the amount, in millionths of one
/// currency unit, that has to move from the bonus to the salary to get it.
#[derive(Clone, Copy, Debug, PartialEq, Eq)]
pub struct Plan {
    pub before: Tax,
    pub after: Tax,
    pub movement: u64,
}

impl View for Plan {
    type V = PlanView;

    open spec fn view(&self) -> PlanView {
        PlanView { before: self.before@, after: self.after@, movement: self.movement as nat }
    }
}

/// The record that the search keeps is the first with the lowest total: no
/// record among those looked at has a lower total, and every record before
/// it has a higher one. In particular its total is not above that of the
/// record as it was given.
pub proof fn lemma_best_step_is_first_minimum(c: ConfigView, r: RecordView, n: nat)
    ensures
        best_step(c, r, n) <= n,
        forall|j: nat| j <= n ==> total_after(c, r, best_step(c, r, n)) <= #[trigger] total_after(c, r, j),
        forall|j: nat|
            j < best_step(c, r, n) ==> total_after(c, r, best_step(c, r, n)) < #[trigger] total_after(
                c,
                r,
                j,
            ),
        total_after(c, r, best_step(c, r, n)) <= total_after(c, r, 0),
    decreases n,
{
    if n > 0 {
        lemma_best_step_is_first_minimum(c, r, (n - 1) as nat);
    }
}

/// Where the record as it was given has a tax, the record after any number
/// of steps has one.
pub proof fn lemma_every_step_has_tax(c: ConfigView, r: RecordView, k: nat)
    requires
        ascending(c.year_bonus),
        tax_of(c, r) is Some,
    ensures
        tax_of(c, r.after_steps(k)) is Some,
{
    lemma_smaller_bonus_has_bracket(c.year_bonus, r.after_steps(k).year_bonus as int, r.year_bonus as int);
}

/// Looks for the amount that is best moved from the bonus to the salary.
///
/// The bonus is moved in steps of ten currency units, the last step taking
/// what is left, until the move fails because nothing is left. The tax is
/// calculated after every step, and a record is kept in place of the one
/// kept so far only where its total is strictly lower. The search fails
/// where the record as it was given has no tax, and only there.
pub fn optimize(config: &TaxConfig, record: &Record) -> (r: Result<Plan, LookupError>)
    ensures
        match r {
            Ok(plan) => {
                let kept = best_step(config@, record@, record@.steps());
                &&& tax_of(config@, record@) == Some(plan@.before)
                &&& tax_of(config@, record@.after_steps(kept)) == Some(plan@.after)
                &&& plan@.movement == (if kept == 0 {
                    0
                } else {
                    record@.after_steps(kept).movement
                })
                &&& forall|j: nat|
                    j <= record@.steps() ==> plan@.after.total() <= #[trigger] total_after(
                        config@,
                        record@,
                        j,
                    )
                &&& forall|j: nat|
                    j < kept ==> plan@.after.total() < #[trigger] total_after(config@, record@, j)
                &&& plan@.after.total() <= plan@.before.total()
                &&& record@.year_bonus == 0 ==> plan@.after == plan@.before && plan@.movement == 0
            },
            Err(_) => tax_of(config@, record@) is None,
        },
{
    let before: Tax = match config.calc(record) {
        Ok(t) => t,
        Err(e) => {
            return Err(e);
        },
    };
    let mut best: Tax = before;
    let mut movement: u64 = 0;
    let mut r: Record = *record;
    let ghost mut k: nat = 0;
    let ghost n: nat = record@.steps();
    proof {
        lemma_steps_exhaust(record@, 0);
        lemma_best_step_is_first_minimum(config@, record@, 0);
    }
    loop
        invariant
            n == record@.steps(),
            k <= n,
            r@ == record@.after_steps(k),
            ascending(config@.year_bonus),
            tax_of(config@, record@) == Some(before@),
            tax_of(config@, record@.after_steps(best_step(config@, record@, k))) == Some(best@),
            movement == (if best_step(config@, record@, k) == 0 {
                0
            } else {
                record@.after_steps(best_step(config@, record@, k)).movement
            }),
            best@.total() <= before@.total(),
        ensures
            k == n,
        decreases r@.year_bonus,
    {
        proof {
            lemma_steps_exhaust(record@, k);
            lemma_next_step(record@, k);
            lemma_every_step_has_tax(config@, record@, k + 1);
            lemma_best_step_is_first_minimum(config@, record@, k + 1);
        }
        if r.adjust(STEP).is_err() {
            break;
        }
        proof {
            k = k + 1;
        }
        let next: Tax = match config.calc(&r) {
            Ok(t) => t,
            Err(e) => {
                return Err(e);
            },
        };
        if next.total() < best.total() {
            best = next;
            movement = r.movement();
        }
    }
    proof {
        lemma_steps_exhaust(record@, 0);
        lemma_best_step_is_first_minimum(config@, record@, n);
    }
    Ok(Plan { before, after: best, movement })
}

} // verus!
