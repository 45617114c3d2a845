//! The tax on a record: progressive on the salary, one flat ratio on the
//! bonus.

use crate::bracket::{ascending, lemma_split_point, lemma_successor_at, successor_of, well_formed, Bracket,
    BracketTable};
use crate::config::{ConfigView, TaxConfig};
use crate::error::LookupError;
use crate::record::{Record, RecordView};
use crate::units::{MICROS_PER_UNIT, MONTHS};
use vstd::arithmetic::div_mod::{lemma_div_is_ordered, lemma_fundamental_div_mod};
use vstd::prelude::*;

verus! {

/// No tax that this crate calculates is larger in size than this, in
/// million-millionths of one currency unit.
pub const TAX_LIMIT: i128 = 0x4000_0000_0000_0000_0000_0000_0000;

/// What a tax says, as plain numbers: each part in million-millionths of one
/// currency unit.
pub struct TaxView {
    pub salary: int,
    pub year_bonus: int,
}

impl TaxView {
    /// The tax on salary and bonus together.
    pub open spec fn total(self) -> int {
        self.salary + self.year_bonus
    }
}

/// The part of `total` that falls into bracket `i` of `s`, in millionths of
/// one currency unit. The first bracket starts at zero and every other one at
/// the bound before it; a bracket takes what lies between its start and its
/// own bound, as far as `total` reaches. A bracket that starts at or above
/// `total` takes nothing, and so does everything above the last bound.
pub open spec fn band(s: Seq<Bracket>, total: int, i: int) -> int
    recommends
        0 <= i < s.len(),
{
    let lower = if i == 0 {
        0
    } else {
        s[i - 1].bound * MICROS_PER_UNIT
    };
    let upper = s[i].bound * MICROS_PER_UNIT;
    if i == 0 || lower < total {
        (if upper < total {
            upper
        } else {
            total
        }) - lower
    } else {
        0
    }
}

/// The tax that the first `n` brackets of `s` raise on `total`.
pub open spec fn salary_tax_upto(s: Seq<Bracket>, total: int, n: int) -> int
    decreases n,
{
    if n <= 0 {
        0
    } else {
        salary_tax_upto(s, total, n - 1) + band(s, total, n - 1) * s[n - 1].ratio
    }
}

/// The progressive tax on a yearly salary of `total`: each bracket's ratio on
/// the part of the salary that falls into that bracket.
pub open spec fn salary_tax_of(s: Seq<Bracket>, total: int) -> int {
    salary_tax_upto(s, total, s.len() as int)
}

/// A yearly bonus as whole currency units per month, rounded up.
pub open spec fn monthly_equivalent(bonus: int) -> int {
    let year = MONTHS * MICROS_PER_UNIT;
    if bonus % year == 0 {
        bonus / year
    } else {
        bonus / year + 1
    }
}

/// The one bracket that decides the tax on a bonus: the lowest whose bound is
/// not below the bonus's monthly equivalent.
pub open spec fn bonus_bracket(s: Seq<Bracket>, bonus: int) -> Option<Bracket> {
    successor_of(s, monthly_equivalent(bonus))
}

/// The tax on a bonus: the ratio of its bracket on the whole bonus. There is
/// none where the bonus lies above every bracket.
pub open spec fn bonus_tax_of(s: Seq<Bracket>, bonus: int) -> Option<int> {
    match bonus_bracket(s, bonus) {
        Some(b) => Some(b.ratio * bonus),
        None => None,
    }
}

/// The tax on a record under a configuration.
pub open spec fn tax_of(c: ConfigView, r: RecordView) -> Option<TaxView> {
    match bonus_tax_of(c.year_bonus, r.year_bonus as int) {
        Some(bonus) => Some(
            TaxView { salary: salary_tax_of(c.salary, r.total_salary()), year_bonus: bonus },
        ),
        None => None,
    }
}

/// Once a bracket's bound reaches `total`, the brackets after it add nothing.
pub proof fn lemma_tax_settles(s: Seq<Bracket>, total: int, i: int, n: int)
    requires
        ascending(s),
        0 <= i < n <= s.len(),
        s[i].bound * MICROS_PER_UNIT >= total,
    ensures
        salary_tax_upto(s, total, n) == salary_tax_upto(s, total, i + 1),
    decreases n,
{
    if n > i + 1 {
        lemma_tax_settles(s, total, i, n - 1);
    }
}

/// The brackets of a table tax a salary above the last bound as they tax a
/// salary at the last bound: what lies above it is not taxed.
pub proof fn lemma_nothing_above_last_bound(s: Seq<Bracket>, total: int, n: int)
    requires
        ascending(s),
        0 <= n <= s.len(),
        s.len() > 0,
        total >= s.last().bound * MICROS_PER_UNIT,
    ensures
        salary_tax_upto(s, total, n) == salary_tax_upto(s, s.last().bound * MICROS_PER_UNIT, n),
        n == s.len() ==> salary_tax_of(s, total) == salary_tax_of(s, s.last().bound * MICROS_PER_UNIT),
    decreases n,
{
    if n > 0 {
        lemma_nothing_above_last_bound(s, total, n - 1);
    }
}

/// With a single bracket, a salary that does not exceed its bound is taxed
/// at the bracket's ratio as a whole.
pub proof fn lemma_single_bracket(bound: i64, ratio: u32, total: int)
    requires
        total <= bound * MICROS_PER_UNIT,
    ensures
        salary_tax_of(seq![Bracket { bound, ratio }], total) == total * ratio,
{
    let s = seq![Bracket { bound, ratio }];
    assert(salary_tax_upto(s, total, 1) == salary_tax_upto(s, total, 0) + band(s, total, 0) * s[0].ratio);
}

/// A salary that does not exceed the first bound of a table is taxed at the
/// first bracket's ratio as a whole, whatever brackets follow.
pub proof fn lemma_first_bracket(s: Seq<Bracket>, total: int)
    requires
        ascending(s),
        s.len() > 0,
        total <= s[0].bound * MICROS_PER_UNIT,
    ensures
        salary_tax_of(s, total) == total * s[0].ratio,
{
    lemma_tax_settles(s, total, 0, s.len() as int);
    assert(salary_tax_upto(s, total, 1) == salary_tax_upto(s, total, 0) + band(s, total, 0) * s[0].ratio);
}

/// The bracket of a bonus is an entry of the table, and its bound is not
/// below the bonus's monthly equivalent.
pub proof fn lemma_bonus_bracket_is_entry(s: Seq<Bracket>, bonus: int)
    requires
        bonus_bracket(s, bonus) is Some,
    ensures
        exists|i: int| 0 <= i < s.len() && #[trigger] s[i] == bonus_bracket(s, bonus)->0,
        bonus_bracket(s, bonus)->0.bound >= monthly_equivalent(bonus),
{
}

/// A bonus rounds up to no more whole units per month than a larger bonus.
pub proof fn lemma_monthly_equivalent_grows(a: int, b: int)
    requires
        0 <= a <= b,
    ensures
        0 <= monthly_equivalent(a) <= monthly_equivalent(b),
{
    let year: int = MONTHS * MICROS_PER_UNIT;
    lemma_fundamental_div_mod(a, year);
    lemma_fundamental_div_mod(b, year);
    lemma_div_is_ordered(a, b, year);
    lemma_div_is_ordered(0, a, year);
}

/// Where a bonus has a bracket, every smaller bonus has one too: the search
/// can fail on the record as it was given, and nowhere else.
pub proof fn lemma_smaller_bonus_has_bracket(s: Seq<Bracket>, a: int, b: int)
    requires
        ascending(s),
        0 <= a <= b,
        bonus_bracket(s, b) is Some,
    ensures
        bonus_bracket(s, a) is Some,
{
    lemma_monthly_equivalent_grows(a, b);
    let xa = monthly_equivalent(a);
    let xb = monthly_equivalent(b);
    let pa = lemma_split_point(s, xa);
    let pb = lemma_split_point(s, xb);
    lemma_successor_at(s, xa, pa);
    lemma_successor_at(s, xb, pb);
}

/// Two bonuses with the same monthly equivalent fall into the same bracket,
/// so that each is taxed as a whole at the same single ratio.
pub proof fn lemma_bonus_ratio_by_month(s: Seq<Bracket>, a: int, b: int)
    requires
        monthly_equivalent(a) == monthly_equivalent(b),
    ensures
        bonus_bracket(s, a) == bonus_bracket(s, b),
        bonus_tax_of(s, a) is Some <==> bonus_tax_of(s, b) is Some,
        bonus_tax_of(s, a) is Some ==> bonus_tax_of(s, a)->0 == bonus_bracket(s, a)->0.ratio * a
            && bonus_tax_of(s, b)->0 == bonus_bracket(s, a)->0.ratio * b,
{
}

/// A tax: what is due on the salary and what is due on the bonus, each in
/// million-millionths of one currency unit.
#[derive(Clone, Copy, Debug, PartialEq, Eq)]
pub struct Tax {
    salary: i128,
    year_bonus: i128,
}

impl View for Tax {
    type V = TaxView;

    closed spec fn view(&self) -> TaxView {
        TaxView { salary: self.salary as int, year_bonus: self.year_bonus as int }
    }
}

impl Tax {
    #[verifier::type_invariant]
    spec fn inv(&self) -> bool {
        &&& -TAX_LIMIT <= self.salary <= TAX_LIMIT
        &&& 0 <= self.year_bonus <= TAX_LIMIT
    }

    /// The tax on the salary.
    pub fn salary(&self) -> (v: i128)
        ensures
            v == self@.salary,
    {
        self.salary
    }

    /// The tax on the bonus.
    pub fn year_bonus(&self) -> (v: i128)
        ensures
            v == self@.year_bonus,
    {
        self.year_bonus
    }

    /// The tax on salary and bonus together.
    pub fn total(&self) -> (v: i128)
        ensures
            v == self@.total(),
    {
        proof {
            use_type_invariant(self);
        }
        self.salary + self.year_bonus
    }
}

/// The progressive tax on a yearly salary, in million-millionths of one
/// currency unit. The brackets are walked in ascending order, and the walk
/// ends with the first whose bound reaches the salary.
pub fn salary_tax(table: &BracketTable, total_salary: u128) -> (tax: i128)
    ensures
        tax == salary_tax_of(table@, total_salary as int),
        -TAX_LIMIT <= tax <= TAX_LIMIT,
        well_formed(table@),
{
    let rules = table.rules();
    let ghost s = rules@;
    let ghost total = total_salary as int;
    let ghost mut first: int = 0;
    let mut tax: i128 = 0;
    let mut last: i128 = 0;
    let mut i: usize = 0;
    while i < rules.len()
        invariant
            s == rules@,
            s == table@,
            well_formed(s),
            total == total_salary,
            0 <= i <= s.len(),
            tax == salary_tax_upto(s, total, i as int),
            i == 0 ==> last == 0 && tax == 0,
            i > 0 ==> last == s[i - 1].bound * 1_000_000 && last < total,
            i > 0 ==> -0x8000_0000_0000_0000 * 1_000_000 * 1_000_000 <= first
                <= 0x8000_0000_0000_0000 * 1_000_000 * 1_000_000,
            i > 0 ==> first <= tax <= first + 1_000_000 * (last - s[0].bound * 1_000_000),
        decreases s.len() - i,
    {
        let rule: Bracket = rules[i];
        let upper: i128 = (rule.bound as i128) * (MICROS_PER_UNIT as i128);
        let covers: bool = upper >= 0 && (upper as u128) >= total_salary;
        let reach: i128 = if covers {
            total_salary as i128
        } else {
            upper
        };
        let width: i128 = reach - last;
        let ratio: i128 = rule.ratio as i128;
        assert(-0x1_0000_0000_0000_0000 * 1_000_000 * 1_000_000 <= width * ratio
            <= 0x1_0000_0000_0000_0000 * 1_000_000 * 1_000_000) by (nonlinear_arith)
            requires
                -0x1_0000_0000_0000_0000 * 1_000_000 <= width <= 0x1_0000_0000_0000_0000 * 1_000_000,
                0 <= ratio <= 1_000_000,
        ;
        if i == 0 {
            assert(-0x8000_0000_0000_0000 * 1_000_000 * 1_000_000 <= width * ratio
                <= 0x8000_0000_0000_0000 * 1_000_000 * 1_000_000) by (nonlinear_arith)
                requires
                    -0x8000_0000_0000_0000 * 1_000_000 <= width <= 0x8000_0000_0000_0000 * 1_000_000,
                    0 <= ratio <= 1_000_000,
            ;
            proof {
                first = width * ratio;
            }
        } else {
            assert(0 <= width * ratio <= 1_000_000 * width) by (nonlinear_arith)
                requires
                    0 <= width,
                    0 <= ratio <= 1_000_000,
            ;
        }
        tax = tax + width * ratio;
        if covers {
            proof {
                lemma_tax_settles(s, total, i as int, s.len() as int);
            }
            return tax;
        }
        last = upper;
        i += 1;
    }
    tax
}

/// The tax on a yearly bonus, in million-millionths of one currency unit: the
/// ratio of the bonus's bracket, found by successor search, on the whole
/// bonus. It fails where the bonus lies above every bracket.
pub fn bonus_tax(table: &BracketTable, year_bonus: u64) -> (r: Result<i128, LookupError>)
    ensures
        match r {
            Ok(tax) => bonus_tax_of(table@, year_bonus as int) == Some(tax as int) && 0 <= tax
                <= TAX_LIMIT,
            Err(_) => bonus_tax_of(table@, year_bonus as int) is None,
        },
        well_formed(table@),
{
    let year: u64 = MONTHS * MICROS_PER_UNIT;
    let whole: u64 = year_bonus / year;
    let month: u64 = if year_bonus % year == 0 {
        whole
    } else {
        whole + 1
    };
    match table.successor(month as i64) {
        Some(b) => {
            proof {
                lemma_bonus_bracket_is_entry(table@, year_bonus as int);
            }
            let ratio: i128 = b.ratio as i128;
            let bonus: i128 = year_bonus as i128;
            assert(0 <= ratio * bonus <= 1_000_000 * 0x1_0000_0000_0000_0000) by (nonlinear_arith)
                requires
                    0 <= ratio <= 1_000_000,
                    0 <= bonus <= 0x1_0000_0000_0000_0000,
            ;
            Ok(ratio * bonus)
        },
        None => Err(LookupError),
    }
}

impl TaxConfig {
    /// The tax on a record: the progressive tax on its yearly salary and the
    /// flat tax on what is left of its bonus. It fails where the bonus lies
    /// above every bracket of the bonus table.
    pub fn calc(&self, r: &Record) -> (res: Result<Tax, LookupError>)
        ensures
            match res {
                Ok(t) => tax_of(self@, r@) == Some(t@),
                Err(_) => tax_of(self@, r@) is None,
            },
            well_formed(self@.salary),
            well_formed(self@.year_bonus),
    {
        let salary: i128 = salary_tax(self.salary(), r.total_salary());
        match bonus_tax(self.year_bonus(), r.year_bonus()) {
            Ok(year_bonus) => Ok(Tax { salary, year_bonus }),
            Err(e) => Err(e),
        }
    }
}

/// A record has one tax under a configuration: whatever two calculations on
/// the same record return, they return the same.
pub proof fn lemma_calc_is_a_function(c: ConfigView, r: RecordView, first: TaxView, second: TaxView)
    requires
        tax_of(c, r) == Some(first),
        tax_of(c, r) == Some(second),
    ensures
        first == second,
{
}

} // verus!
