use tax_optimizer::error::ParseError;
use tax_optimizer::parse::{parse_amount, parse_record};
use tax_optimizer::record::Record;

const UNIT: u64 = 1_000_000;

#[test]
fn record_is_read_from_three_numbers() {
    assert_eq!(
        parse_record("2000,500,6000"),
        Ok(Record::new(2000 * UNIT, 500 * UNIT, 6000 * UNIT))
    );
}

#[test]
fn record_starts_with_nothing_moved() {
    let record = parse_record("2000,500,6000").unwrap();
    assert_eq!(record.movement(), 0);
    assert_eq!(record.monthly_salary(), 2000 * UNIT);
    assert_eq!(record.monthly_tax_deduction(), 500 * UNIT);
    assert_eq!(record.year_bonus(), 6000 * UNIT);
}

#[test]
fn numbers_may_have_a_point_and_a_plus_sign() {
    assert_eq!(
        parse_record("2000.5,+500.,.25"),
        Ok(Record::new(2_000_500_000, 500 * UNIT, 250_000))
    );
    assert_eq!(
        parse_record("2e3,5E2,60e+2"),
        Ok(Record::new(2000 * UNIT, 500 * UNIT, 6000 * UNIT))
    );
    assert_eq!(parse_record("0,0.0,000"), Ok(Record::new(0, 0, 0)));
}

#[test]
fn fewer_or_more_than_three_tokens_are_refused() {
    assert_eq!(parse_record(""), Err(ParseError::TokenCount));
    assert_eq!(parse_record("2000"), Err(ParseError::TokenCount));
    assert_eq!(parse_record("2000,500"), Err(ParseError::TokenCount));
    assert_eq!(parse_record("2000,500,6000,1"), Err(ParseError::TokenCount));
    assert_eq!(parse_record("2000,500,6000,"), Err(ParseError::TokenCount));
    assert_eq!(parse_record("a,b"), Err(ParseError::TokenCount));
}

#[test]
fn token_that_is_no_number_is_refused() {
    for text in [
        "abc,500,6000",
        "2000,,6000",
        "2000,500,",
        ",,",
        " 2000,500,6000",
        "2000, 500,6000",
        "2000,500,1.2.3",
        "2000,1e,6000",
        "2000,1e+,6000",
        "2000,e5,6000",
        "2000,1e5e3,6000",
        "2000,1e5.0,6000",
        "2000,0x10,6000",
        "2000,1_000,6000",
        "2000,500,+",
        "2000,.,6000",
        "2000,++5,6000",
        "2000,5+,6000",
        "2000,500,６",
        "inf,500,6000",
        "nan,500,6000",
    ] {
        assert_eq!(parse_record(text), Err(ParseError::NotNumeric), "{text}");
    }
}

#[test]
fn amount_is_read_in_millionths() {
    assert_eq!(parse_amount(b"0"), Ok(0));
    assert_eq!(parse_amount(b"1"), Ok(1_000_000));
    assert_eq!(parse_amount(b"0.000001"), Ok(1));
    assert_eq!(parse_amount(b"12.5"), Ok(12_500_000));
    assert_eq!(parse_amount(b"12.05"), Ok(12_050_000));
    assert_eq!(parse_amount(b"007.123456"), Ok(7_123_456));
    assert_eq!(parse_amount(b"3.1000000000"), Ok(3_100_000));
    assert_eq!(parse_amount(b"18446744073709.551615"), Ok(u64::MAX));
}

#[test]
fn amount_is_rounded_to_the_nearest_millionth() {
    assert_eq!(parse_amount(b"0.0000001"), Ok(0));
    assert_eq!(parse_amount(b"0.0000004999"), Ok(0));
    assert_eq!(parse_amount(b"0.0000005"), Ok(1));
    assert_eq!(parse_amount(b"1.1234567"), Ok(1_123_457));
    assert_eq!(parse_amount(b"1.1234564"), Ok(1_123_456));
    assert_eq!(parse_amount(b"0.9999995"), Ok(1_000_000));
    assert_eq!(parse_amount(b"2.00000049999999999999999999999999999"), Ok(2_000_000));
    assert_eq!(parse_amount(b"18446744073709.5516154"), Ok(u64::MAX));
    assert_eq!(parse_amount(b"18446744073709.5516155"), Err(ParseError::Unrepresentable));
}

#[test]
fn amount_may_have_an_exponent() {
    assert_eq!(parse_amount(b"1e3"), Ok(1_000_000_000));
    assert_eq!(parse_amount(b"1E3"), Ok(1_000_000_000));
    assert_eq!(parse_amount(b"1.5e+2"), Ok(150_000_000));
    assert_eq!(parse_amount(b"25e-1"), Ok(2_500_000));
    assert_eq!(parse_amount(b"1e-6"), Ok(1));
    assert_eq!(parse_amount(b"5e-7"), Ok(1));
    assert_eq!(parse_amount(b"4e-7"), Ok(0));
    assert_eq!(parse_amount(b"1e-7"), Ok(0));
    assert_eq!(parse_amount(b"12345678e-8"), Ok(123_457));
    assert_eq!(parse_amount(b".5e1"), Ok(5_000_000));
    assert_eq!(parse_amount(b"5.e0"), Ok(5_000_000));
    assert_eq!(parse_amount(b"0.000000000000000000001e21"), Ok(1_000_000));
    assert_eq!(parse_amount(b"1000000000000000000000e-21"), Ok(1_000_000));
    assert_eq!(parse_amount(b"1.8446744073709551615e13"), Ok(u64::MAX));
    assert_eq!(parse_amount(b"1e13"), Ok(10_000_000_000_000_000_000));
    assert_eq!(parse_amount(b"1e14"), Err(ParseError::Unrepresentable));
    assert_eq!(parse_amount(b"1e99999999999999999999999999999999999999"), Err(ParseError::Unrepresentable));
    assert_eq!(parse_amount(b"1e-99999999999999999999999999999999999999"), Ok(0));
    assert_eq!(parse_amount(b"0e99999999999999999999999999999999999999"), Ok(0));
    assert_eq!(parse_amount(b"0.0e25"), Ok(0));
}

#[test]
fn amount_agrees_with_floating_point_on_plain_tokens() {
    for text in ["2000", "2000.5", "0.1", "1e3", "12.345678", "+7.25", "3.", ".125", "6000"] {
        let float: f64 = text.parse().unwrap();
        let amount = parse_amount(text.as_bytes()).unwrap();
        assert_eq!(amount, (float * 1e6).round() as u64, "{text}");
    }
}

#[test]
fn amount_below_zero_cannot_be_held() {
    assert_eq!(parse_amount(b"-1"), Err(ParseError::Unrepresentable));
    assert_eq!(parse_amount(b"-0.0000001"), Err(ParseError::Unrepresentable));
    assert_eq!(parse_amount(b"-1e-30"), Err(ParseError::Unrepresentable));
    assert_eq!(parse_amount(b"-0"), Ok(0));
    assert_eq!(parse_amount(b"-0.000e5"), Ok(0));
    assert_eq!(parse_record("-2000,500,6000"), Err(ParseError::Unrepresentable));
}

#[test]
fn amount_that_cannot_be_held_is_refused() {
    assert_eq!(parse_amount(b"18446744073709.551616"), Err(ParseError::Unrepresentable));
    assert_eq!(parse_amount(b"18446744073710"), Err(ParseError::Unrepresentable));
    assert_eq!(
        parse_amount(b"100000000000000000000000000000000000000000000000000"),
        Err(ParseError::Unrepresentable)
    );
    assert_eq!(
        parse_record("1,2,99999999999999999999"),
        Err(ParseError::Unrepresentable)
    );
}

#[test]
fn no_number_is_reported_before_too_large_a_number() {
    assert_eq!(
        parse_amount(b"99999999999999999999999999.x"),
        Err(ParseError::NotNumeric)
    );
    assert_eq!(parse_amount(b"-1.00000001x"), Err(ParseError::NotNumeric));
    assert_eq!(parse_amount(b"-5e"), Err(ParseError::NotNumeric));
}

#[test]
fn first_faulty_token_decides_the_error() {
    assert_eq!(parse_record("1e99,x,3"), Err(ParseError::Unrepresentable));
    assert_eq!(parse_record("x,1e99,3"), Err(ParseError::NotNumeric));
    assert_eq!(parse_record("1,2,x"), Err(ParseError::NotNumeric));
}
