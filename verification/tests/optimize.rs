use tax_optimizer::bracket::{Bracket, BracketTable};
use tax_optimizer::config::TaxConfig;
use tax_optimizer::error::LookupError;
use tax_optimizer::optimize::optimize;
use tax_optimizer::record::Record;

const UNIT: u64 = 1_000_000;
const TAX_UNIT: i128 = 1_000_000_000_000;

fn table(rules: &[(i64, u32)]) -> BracketTable {
    let rules: Vec<Bracket> = rules.iter().map(|&(bound, ratio)| Bracket { bound, ratio }).collect();
    BracketTable::from_rules(&rules).unwrap()
}

fn config(salary: &[(i64, u32)], bonus: &[(i64, u32)]) -> TaxConfig {
    TaxConfig::new(table(salary), table(bonus))
}

/// The search as the sum of its steps, without the library's loop.
fn sweep(config: &TaxConfig, record: &Record) -> (i128, u64) {
    let mut best = config.calc(record).unwrap().total();
    let mut movement = 0;
    let mut r = *record;
    while r.adjust(10 * UNIT).is_ok() {
        let total = config.calc(&r).unwrap().total();
        if total < best {
            best = total;
            movement = r.movement();
        }
    }
    (best, movement)
}

#[test]
fn scenario_moves_the_whole_bonus_above_the_top_salary_bound() {
    let config = config(
        &[(3000, 50_000), (10000, 100_000)],
        &[(1000, 50_000), (999_999, 100_000)],
    );
    let record = Record::new(2000 * UNIT, 500 * UNIT, 6000 * UNIT);
    let plan = optimize(&config, &record).unwrap();
    assert_eq!(plan.before.salary(), 850 * TAX_UNIT);
    assert_eq!(plan.before.year_bonus(), 300 * TAX_UNIT);
    assert_eq!(plan.before.total(), 1150 * TAX_UNIT);
    assert!(plan.after.total() < plan.before.total());
    assert_eq!(plan.after.salary(), 850 * TAX_UNIT);
    assert_eq!(plan.after.year_bonus(), 0);
    assert_eq!(plan.movement, 6000 * UNIT);
}

#[test]
fn record_without_bonus_comes_back_as_it_was_given() {
    let config = config(
        &[(3000, 50_000), (10000, 100_000)],
        &[(1000, 50_000), (999_999, 100_000)],
    );
    let record = Record::new(2000 * UNIT, 500 * UNIT, 0);
    let plan = optimize(&config, &record).unwrap();
    assert_eq!(plan.after, plan.before);
    assert_eq!(plan.after, config.calc(&record).unwrap());
    assert_eq!(plan.movement, 0);
}

#[test]
fn nothing_is_moved_where_moving_costs_more() {
    let config = config(&[(1_000_000, 500_000)], &[(999_999, 100_000)]);
    let record = Record::new(2000 * UNIT, 500 * UNIT, 6000 * UNIT);
    let plan = optimize(&config, &record).unwrap();
    assert_eq!(plan.after, plan.before);
    assert_eq!(plan.movement, 0);
    assert_eq!(plan.before.total(), 9000 * TAX_UNIT + 600 * TAX_UNIT);
}

#[test]
fn first_of_two_equal_totals_is_kept() {
    // Salary and bonus are taxed alike, so every step gives the same total.
    let config = config(&[(1_000_000, 100_000)], &[(999_999, 100_000)]);
    let record = Record::new(2000 * UNIT, 500 * UNIT, 100 * UNIT);
    let plan = optimize(&config, &record).unwrap();
    assert_eq!(plan.after, plan.before);
    assert_eq!(plan.movement, 0);
}

#[test]
fn bonus_is_moved_down_to_the_edge_of_a_lower_bracket() {
    // Above 1000 a month the bonus is taxed at 30 percent as a whole, the
    // salary at 10 percent: the total falls until the bonus has dropped
    // into the 3 percent bracket, and rises after that.
    let config = config(&[(1_000_000, 100_000)], &[(1000, 30_000), (999_999, 300_000)]);
    let record = Record::new(2000 * UNIT, 500 * UNIT, 12_100 * UNIT);
    let plan = optimize(&config, &record).unwrap();
    assert_eq!(plan.before.total(), 1800 * TAX_UNIT + 3630 * TAX_UNIT);
    assert_eq!(plan.movement, 100 * UNIT);
    assert_eq!(plan.after.salary(), 1810 * TAX_UNIT);
    assert_eq!(plan.after.year_bonus(), 360 * TAX_UNIT);
}

#[test]
fn last_step_moves_what_is_left_of_the_bonus() {
    let config = config(&[(10, 0)], &[(999_999, 100_000)]);
    let record = Record::new(0, 0, 25 * UNIT + 1);
    let plan = optimize(&config, &record).unwrap();
    assert_eq!(plan.after.total(), 0);
    assert_eq!(plan.movement, 25 * UNIT + 1);
}

#[test]
fn search_fails_where_the_given_record_has_no_tax() {
    let config = config(&[(3000, 50_000)], &[(1000, 50_000)]);
    let record = Record::new(2000 * UNIT, 500 * UNIT, 12_001 * UNIT);
    assert_eq!(optimize(&config, &record), Err(LookupError));
}

#[test]
fn best_total_is_never_above_the_total_before() {
    let configs = [
        config(&[(3000, 50_000), (10000, 100_000)], &[(1000, 50_000), (999_999, 100_000)]),
        config(&[(36_000, 30_000), (144_000, 100_000), (300_000, 200_000)], &[(3000, 30_000), (12_000, 100_000), (25_000, 200_000)]),
        config(&[(-5, 900_000), (20_000, 10_000)], &[(0, 1_000_000), (400, 0), (5000, 500_000)]),
    ];
    for config in &configs {
        for salary in [0u64, 1500, 3000, 9999] {
            for bonus in [0u64, 5, 10, 995, 3000, 36_000] {
                let record = Record::new(salary * UNIT, 500 * UNIT, bonus * UNIT + 3);
                let plan = optimize(config, &record).unwrap();
                assert!(plan.after.total() <= plan.before.total());
                assert!(plan.movement <= record.year_bonus());
                assert_eq!(plan.before, config.calc(&record).unwrap());
                assert_eq!((plan.after.total(), plan.movement), sweep(config, &record));
            }
        }
    }
}

/// The same search in floating point, on an ordered map.
fn float_search(
    salary: &[(i64, f64)],
    bonus: &[(i64, f64)],
    monthly_salary: f64,
    deduction: f64,
    year_bonus: f64,
) -> (f64, f64, f64) {
    let salary: std::collections::BTreeMap<i64, f64> = salary.iter().copied().collect();
    let bonus: std::collections::BTreeMap<i64, f64> = bonus.iter().copied().collect();
    let calc = |movement: f64, year_bonus: f64| -> f64 {
        let total_salary = movement + 0f64.max(monthly_salary - deduction) * 12.0;
        let mut salary_tax = 0.0;
        let mut last = 0.0;
        for (bound, ratio) in &salary {
            salary_tax += ((*bound as f64).min(total_salary) - last) * ratio;
            if *bound as f64 >= total_salary {
                break;
            }
            last = *bound as f64;
        }
        let month = (year_bonus / 12.0).ceil() as i64;
        let ratio = bonus.range(month..).next().unwrap().1;
        salary_tax + ratio * year_bonus
    };
    let before = calc(0.0, year_bonus);
    let mut best = before;
    let mut best_movement = 0.0;
    let mut left = year_bonus;
    let mut movement = 0.0;
    while left > 0.0 {
        let budget = left.min(10.0);
        left -= budget;
        movement += budget;
        let total = calc(movement, left);
        if total < best {
            best = total;
            best_movement = movement;
        }
    }
    (before, best, best_movement)
}

#[test]
fn search_agrees_with_the_same_search_in_floating_point() {
    let cases: [(&[(i64, f64)], &[(i64, f64)], f64, f64, f64); 4] = [
        (&[(3000, 0.05), (10000, 0.1)], &[(1000, 0.05), (999_999, 0.1)], 2000.0, 500.0, 6000.0),
        (&[(1_000_000, 0.1)], &[(1000, 0.03), (999_999, 0.3)], 2000.0, 500.0, 12_100.0),
        (&[(1_000_000, 0.5)], &[(999_999, 0.1)], 2000.0, 500.0, 6000.0),
        (
            &[(36_000, 0.03), (144_000, 0.1), (300_000, 0.2), (420_000, 0.25)],
            &[(3000, 0.03), (12_000, 0.1), (25_000, 0.2), (35_000, 0.25)],
            30_000.0,
            5000.0,
            150_000.0,
        ),
    ];
    for (salary, bonus, monthly_salary, deduction, year_bonus) in cases {
        let exact = |rules: &[(i64, f64)]| -> Vec<(i64, u32)> {
            rules.iter().map(|&(bound, ratio)| (bound, (ratio * 1e6).round() as u32)).collect()
        };
        let config = config(&exact(salary), &exact(bonus));
        let record = Record::new(
            (monthly_salary * 1e6) as u64,
            (deduction * 1e6) as u64,
            (year_bonus * 1e6) as u64,
        );
        let plan = optimize(&config, &record).unwrap();
        let (before, best, movement) =
            float_search(salary, bonus, monthly_salary, deduction, year_bonus);
        assert!((plan.before.total() as f64 / 1e12 - before).abs() < 1e-6);
        assert!((plan.after.total() as f64 / 1e12 - best).abs() < 1e-6);
        assert_eq!(plan.movement as f64 / 1e6, movement);
    }
}
