//! Parsing, validation and unit conversion.

use converge::ast::{Ident, Item, Quantity};
use converge::diagnostic::Span;
use converge::number::parse_decimal;
use converge::parser::parse_program;
use converge::units::{rate_to_hz, time_to_nanos};
use converge::validate::validate;

const HELLO: &str = "\nneuron LIF { tau_m = 10 ms }\nlayer X[1] : LIF\nrun for 1 ms\n";

const POISSON: &str = "\nneuron LIF { tau_m = 10 ms, v_th = 1.0 }\nlayer Input[2] : LIF\nlayer Output[2] : LIF\nconnect Input -> Output { w = 1.0, d = 1 ms }\nstimulus Input = Poisson(rate=50 Hz)\nrun for 10 ms step 1 ms\nseed 42\n";

fn quantity(value: &str, unit: &str) -> Quantity {
    Quantity {
        value: parse_decimal(value).expect("decimal"),
        unit: Some(Ident::new(unit.to_string(), Span::new(0, 0))),
        span: Span::new(0, 0),
    }
}

#[test]
fn parses_and_validates_example() {
    let program = parse_program(HELLO).expect("example should parse");
    validate(&program).expect("example should validate");
}

#[test]
fn parses_and_validates_poisson_example() {
    let program = parse_program(POISSON).expect("example should parse");
    validate(&program).expect("example should validate");
}

#[test]
fn validation_fails_for_unknown_neuron_type() {
    let src = "\nneuron LIF { tau_m = 10 ms }\nlayer X[1] : NoSuchNeuron\nrun for 1 ms\n";

    let program = parse_program(src).expect("src should parse");
    let diags = validate(&program).expect_err("validation should fail");
    assert!(
        diags
            .iter()
            .any(|d| d.message.contains("unknown neuron type"))
    );
}

#[test]
fn parses_seed_and_step() {
    let src = "\nneuron LIF { tau_m = 10 ms }\nlayer X[1] : LIF\nseed 7\nrun for 2 ms step 1 ms\n";
    let program = parse_program(src).expect("parse");
    validate(&program).expect("validate");
    assert!(
        program
            .items
            .iter()
            .any(|item| matches!(item, Item::Seed(_)))
    );
}

#[test]
fn time_units_convert() {
    assert_eq!(time_to_nanos(&quantity("1.0", "s"), "t").unwrap(), 1_000_000_000);
    assert_eq!(time_to_nanos(&quantity("2.0", "ms"), "t").unwrap(), 2_000_000);
    assert_eq!(time_to_nanos(&quantity("3.0", "us"), "t").unwrap(), 3_000);
    assert_eq!(time_to_nanos(&quantity("4.0", "ns"), "t").unwrap(), 4);
}

#[test]
fn rate_units_convert() {
    assert_eq!(rate_to_hz(&quantity("1.0", "Hz"), "r").unwrap().canonical(), "1");
    assert_eq!(rate_to_hz(&quantity("2.0", "kHz"), "r").unwrap().canonical(), "2000");
    assert!(rate_to_hz(&quantity("1.0", "lumen"), "r").is_err());
}

#[test]
fn unit_round_trip_is_exact() {
    assert_eq!(time_to_nanos(&quantity("1", "s"), "t").unwrap(), 1_000_000_000);
    assert_eq!(time_to_nanos(&quantity("1", "ms"), "t").unwrap(), 1_000_000);
    assert_eq!(time_to_nanos(&quantity("1", "us"), "t").unwrap(), 1_000);
    assert_eq!(time_to_nanos(&quantity("1", "ns"), "t").unwrap(), 1);
    assert_eq!(rate_to_hz(&quantity("1", "kHz"), "r").unwrap().canonical(), "1000");
    // fractional times round to the nearest nanosecond, halves away from zero
    assert_eq!(time_to_nanos(&quantity("1.5", "ns"), "t").unwrap(), 2);
    assert_eq!(time_to_nanos(&quantity("-1.5", "ns"), "t").unwrap(), -2);
    assert_eq!(time_to_nanos(&quantity("0.25", "us"), "t").unwrap(), 250);
}

#[test]
fn missing_and_unknown_units_are_errors() {
    let no_unit = Quantity {
        value: parse_decimal("5").expect("decimal"),
        unit: None,
        span: Span::new(3, 4),
    };
    let e = time_to_nanos(&no_unit, "run duration").unwrap_err();
    assert_eq!(e.message, "missing unit for run duration");
    let e = time_to_nanos(&quantity("5", "parsec"), "run duration").unwrap_err();
    assert_eq!(e.message, "unsupported time unit `parsec` for run duration");
}

#[test]
fn lexer_reports_malformed_tokens() {
    assert_eq!(
        parse_program("neuron \"oops").unwrap_err().message,
        "unterminated string"
    );
    assert_eq!(
        parse_program("neuron A { x = \"a\\qb\" }").unwrap_err().message,
        "invalid string escape"
    );
    assert_eq!(parse_program("@").unwrap_err().message, "unexpected character '@'");
    assert_eq!(parse_program("seed - 1").unwrap_err().message, "unexpected '-'");
}

#[test]
fn parser_reports_first_error() {
    assert_eq!(
        parse_program("layer X 1").unwrap_err().message,
        "expected `[`"
    );
    assert_eq!(
        parse_program("run for").unwrap_err().message,
        "expected duration, found end of input"
    );
    assert_eq!(
        parse_program("flob").unwrap_err().message,
        "unexpected token at top-level"
    );
    assert_eq!(
        parse_program("layer X[99999999999999999999] : N").unwrap_err().message,
        "invalid integer for layer size"
    );
}

#[test]
fn decimal_canonical_form_strips_redundant_zeros() {
    assert_eq!(parse_decimal("007.500").unwrap().canonical(), "7.5");
    assert_eq!(parse_decimal("2.0").unwrap().canonical(), "2");
    assert_eq!(parse_decimal("-0").unwrap().canonical(), "-0");
    assert_eq!(parse_decimal("0.50").unwrap().canonical(), "0.5");
    assert_eq!(parse_decimal("1.").unwrap().canonical(), "1");
}
