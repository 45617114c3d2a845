use tax_optimizer::bracket::{Bracket, BracketTable};
use tax_optimizer::config::TaxConfig;
use tax_optimizer::optimize::optimize;
use tax_optimizer::parse::parse_record;
use tax_optimizer::record::Record;
use tax_optimizer::render::amount_string;

const UNIT: u64 = 1_000_000;

fn table(rules: &[(i64, u32)]) -> BracketTable {
    let rules: Vec<Bracket> = rules.iter().map(|&(bound, ratio)| Bracket { bound, ratio }).collect();
    BracketTable::from_rules(&rules).unwrap()
}

#[test]
fn amount_is_written_without_trailing_zeros() {
    assert_eq!(amount_string(0), "0");
    assert_eq!(amount_string(1), "0.000001");
    assert_eq!(amount_string(10), "0.00001");
    assert_eq!(amount_string(500_000), "0.5");
    assert_eq!(amount_string(1_000_000), "1");
    assert_eq!(amount_string(10_500_000), "10.5");
    assert_eq!(amount_string(6000 * UNIT), "6000");
    assert_eq!(amount_string(1_234_567_890), "1234.56789");
    assert_eq!(amount_string(100_000_001), "100.000001");
    assert_eq!(amount_string(u64::MAX), "18446744073709.551615");
}

#[test]
fn amount_written_is_the_amount_read() {
    for micros in [0u64, 1, 999_999, 1_000_000, 1_000_001, 123_456_789_012, u64::MAX] {
        let text = amount_string(micros);
        assert_eq!(tax_optimizer::parse::parse_amount(text.as_bytes()), Ok(micros));
    }
}

#[test]
fn tax_is_written_with_its_total_and_both_parts() {
    let config = TaxConfig::new(
        table(&[(3000, 50_000), (10000, 100_000)]),
        table(&[(1000, 50_000), (999_999, 100_000)]),
    );
    let tax = config.calc(&Record::new(2000 * UNIT, 500 * UNIT, 6000 * UNIT)).unwrap();
    assert_eq!(tax.to_string(), "1150 (tax for salary: 850, tax for year bonus: 300)");
}

#[test]
fn tax_is_written_exactly_to_the_last_place() {
    let config = TaxConfig::new(table(&[(10, 123_457)]), table(&[(100, 1)]));
    let tax = config.calc(&Record::new(1, 0, 3)).unwrap();
    assert_eq!(
        tax.to_string(),
        "0.000001481487 (tax for salary: 0.000001481484, tax for year bonus: 0.000000000003)"
    );
}

#[test]
fn tax_below_zero_is_written_with_a_minus_sign() {
    let config = TaxConfig::new(table(&[(-10, 500_000)]), table(&[(100, 100_000)]));
    let tax = config.calc(&Record::new(0, 0, 25 * UNIT)).unwrap();
    assert_eq!(tax.to_string(), "-2.5 (tax for salary: -5, tax for year bonus: 2.5)");
}

#[test]
fn plan_is_written_in_three_lines() {
    let config = TaxConfig::new(
        table(&[(3000, 50_000), (10000, 100_000)]),
        table(&[(1000, 50_000), (999_999, 100_000)]),
    );
    let record = parse_record("2000,500,6000").unwrap();
    let plan = optimize(&config, &record).unwrap();
    assert_eq!(
        plan.report(),
        "Before: 1150 (tax for salary: 850, tax for year bonus: 300)\n\
         After: 850 (tax for salary: 850, tax for year bonus: 0)\n\
         Movement: 6000"
    );
}

#[test]
fn plan_with_a_part_of_a_unit_moved() {
    let config = TaxConfig::new(table(&[(10, 0)]), table(&[(999_999, 100_000)]));
    let record = parse_record("0,0,25.25").unwrap();
    let plan = optimize(&config, &record).unwrap();
    assert_eq!(
        plan.report(),
        "Before: 2.525 (tax for salary: 0, tax for year bonus: 2.525)\n\
         After: 0 (tax for salary: 0, tax for year bonus: 0)\n\
         Movement: 25.25"
    );
}
