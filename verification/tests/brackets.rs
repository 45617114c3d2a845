use tax_optimizer::binary64::ratio_from_bits;
use tax_optimizer::bracket::{Bracket, BracketTable};
use tax_optimizer::error::ConfigFault;

fn rule(bound: i64, ratio: u32) -> Bracket {
    Bracket { bound, ratio }
}

#[test]
fn table_lists_rules_in_ascending_order() {
    let table = BracketTable::from_rules(&vec![rule(5000, 200_000), rule(1000, 100_000), rule(3000, 150_000)])
        .unwrap();
    assert_eq!(
        table.rules(),
        &vec![rule(1000, 100_000), rule(3000, 150_000), rule(5000, 200_000)]
    );
}

#[test]
fn later_rule_replaces_earlier_rule_with_same_bound() {
    let table = BracketTable::from_rules(&vec![
        rule(1000, 100_000),
        rule(5000, 200_000),
        rule(1000, 300_000),
    ])
    .unwrap();
    assert_eq!(table.rules(), &vec![rule(1000, 300_000), rule(5000, 200_000)]);
}

#[test]
fn empty_rule_list_is_refused() {
    assert_eq!(BracketTable::from_rules(&vec![]).unwrap_err(), ConfigFault::NoRules);
}

#[test]
fn ratio_above_one_is_refused() {
    let rules = vec![rule(1000, 100_000), rule(5000, 1_000_001)];
    assert_eq!(
        BracketTable::from_rules(&rules).unwrap_err(),
        ConfigFault::RatioOutOfRange
    );
    assert!(BracketTable::from_rules(&vec![rule(1000, 1_000_000)]).is_ok());
}

#[test]
fn negative_bounds_are_kept_in_order() {
    let table = BracketTable::from_rules(&vec![rule(10, 1), rule(-10, 2), rule(0, 3)]).unwrap();
    assert_eq!(table.rules(), &vec![rule(-10, 2), rule(0, 3), rule(10, 1)]);
}

#[test]
fn successor_is_smallest_bound_not_below() {
    let table = BracketTable::from_rules(&vec![
        rule(1000, 10),
        rule(3000, 30),
        rule(5000, 50),
        rule(7000, 70),
        rule(9000, 90),
    ])
    .unwrap();
    assert_eq!(table.successor(i64::MIN), Some(rule(1000, 10)));
    assert_eq!(table.successor(0), Some(rule(1000, 10)));
    assert_eq!(table.successor(1000), Some(rule(1000, 10)));
    assert_eq!(table.successor(1001), Some(rule(3000, 30)));
    assert_eq!(table.successor(4999), Some(rule(5000, 50)));
    assert_eq!(table.successor(5000), Some(rule(5000, 50)));
    assert_eq!(table.successor(8999), Some(rule(9000, 90)));
    assert_eq!(table.successor(9000), Some(rule(9000, 90)));
    assert_eq!(table.successor(9001), None);
    assert_eq!(table.successor(i64::MAX), None);
}

#[test]
fn successor_in_table_of_one() {
    let table = BracketTable::from_rules(&vec![rule(42, 7)]).unwrap();
    assert_eq!(table.successor(41), Some(rule(42, 7)));
    assert_eq!(table.successor(42), Some(rule(42, 7)));
    assert_eq!(table.successor(43), None);
}

#[test]
fn successor_agrees_with_a_scan_on_a_large_table() {
    let rules: Vec<Bracket> = (0..257).map(|i| rule(i * 3, i as u32)).collect();
    let table = BracketTable::from_rules(&rules).unwrap();
    for x in -2..775 {
        let expected = rules.iter().copied().find(|r| r.bound >= x);
        assert_eq!(table.successor(x), expected);
    }
}

#[test]
fn ratio_is_read_from_float_bits() {
    assert_eq!(ratio_from_bits(0.05f64.to_bits()), Some(50_000));
    assert_eq!(ratio_from_bits(0.1f64.to_bits()), Some(100_000));
    assert_eq!(ratio_from_bits(0.45f64.to_bits()), Some(450_000));
    assert_eq!(ratio_from_bits(0.0f64.to_bits()), Some(0));
    assert_eq!(ratio_from_bits((-0.0f64).to_bits()), Some(0));
    assert_eq!(ratio_from_bits(1.0f64.to_bits()), Some(1_000_000));
    assert_eq!(ratio_from_bits(0.123456f64.to_bits()), Some(123_456));
}

#[test]
fn ratio_is_rounded_to_the_nearest_millionth() {
    // 1/128 is 7812.5 millionths: a half rounds up.
    assert_eq!(ratio_from_bits(0.0078125f64.to_bits()), Some(7_813));
    assert_eq!(ratio_from_bits(0.0000004f64.to_bits()), Some(0));
    assert_eq!(ratio_from_bits(0.0000006f64.to_bits()), Some(1));
    assert_eq!(ratio_from_bits(0.9999999f64.to_bits()), Some(1_000_000));
    assert_eq!(ratio_from_bits(f64::MIN_POSITIVE.to_bits()), Some(0));
    assert_eq!(ratio_from_bits(5e-324f64.to_bits()), Some(0));
}

#[test]
fn ratio_outside_zero_to_one_is_refused() {
    assert_eq!(ratio_from_bits(1.5f64.to_bits()), None);
    assert_eq!(ratio_from_bits(1.0000000000000002f64.to_bits()), None);
    assert_eq!(ratio_from_bits(2.0f64.to_bits()), None);
    assert_eq!(ratio_from_bits((-0.1f64).to_bits()), None);
    assert_eq!(ratio_from_bits((-5e-324f64).to_bits()), None);
    assert_eq!(ratio_from_bits(f64::NAN.to_bits()), None);
    assert_eq!(ratio_from_bits(f64::INFINITY.to_bits()), None);
    assert_eq!(ratio_from_bits(f64::NEG_INFINITY.to_bits()), None);
    assert_eq!(ratio_from_bits(f64::MAX.to_bits()), None);
}

#[test]
fn ratio_agrees_with_float_rounding_on_a_sweep() {
    for k in 0..=1000u32 {
        let x = k as f64 / 1000.0;
        assert_eq!(ratio_from_bits(x.to_bits()), Some(k * 1000));
    }
}
