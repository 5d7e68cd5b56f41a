use lsystem::fixed::ONE;
use lsystem::parser::{characters, parse_choice, parse_choices, parse_number, string_to_symbols};
use lsystem::symbols::{LSymbol, Value, Values};

fn exact(units: i64) -> Values {
    Values::Exact(Value::Exact(units * ONE))
}

#[test]
fn curated_string_reads_as_expected() {
    let symbols = string_to_symbols("F+(30)F-(10~20)F|(2,3~4)[Ff]");
    let expected = vec![
        LSymbol::Rule('F'),
        LSymbol::RotateY(exact(30)),
        LSymbol::Rule('F'),
        LSymbol::RotateNegY(Values::Exact(Value::Range { min: 10 * ONE, max: 20 * ONE })),
        LSymbol::Rule('F'),
        LSymbol::Scale(Values::Multiple(vec![
            Value::Exact(2 * ONE),
            Value::Range { min: 3 * ONE, max: 4 * ONE },
        ])),
        LSymbol::Scope,
        LSymbol::Rule('F'),
        LSymbol::Object { id: 'f' },
        LSymbol::ScopeEnd,
    ];
    assert_eq!(symbols, expected);
}

#[test]
fn every_operator_without_parameter() {
    let symbols = string_to_symbols("+-&^\\/<>|");
    let expected = vec![
        LSymbol::RotateY(Values::Default),
        LSymbol::RotateNegY(Values::Default),
        LSymbol::RotateX(Values::Default),
        LSymbol::RotateNegX(Values::Default),
        LSymbol::RotateZ(Values::Default),
        LSymbol::RotateNegZ(Values::Default),
        LSymbol::RotateZ(Values::Default),
        LSymbol::RotateNegZ(Values::Default),
        LSymbol::Scale(Values::Default),
    ];
    assert_eq!(symbols, expected);
}

#[test]
fn every_operator_with_parameter() {
    let symbols = string_to_symbols("+(1)-(2)&(3)^(4)\\(5)/(6)<(7)>(8)|(9)");
    let expected = vec![
        LSymbol::RotateY(exact(1)),
        LSymbol::RotateNegY(exact(2)),
        LSymbol::RotateX(exact(3)),
        LSymbol::RotateNegX(exact(4)),
        LSymbol::RotateZ(exact(5)),
        LSymbol::RotateNegZ(exact(6)),
        LSymbol::RotateZ(exact(7)),
        LSymbol::RotateNegZ(exact(8)),
        LSymbol::Scale(exact(9)),
    ];
    assert_eq!(symbols, expected);
}

#[test]
fn empty_text_has_no_symbols() {
    assert_eq!(string_to_symbols(""), Vec::<LSymbol>::new());
}

#[test]
fn unknown_characters_are_dropped() {
    let symbols = string_to_symbols(" a\t#B 9 é?");
    assert_eq!(symbols, vec![LSymbol::Object { id: 'a' }, LSymbol::Rule('B')]);
}

#[test]
fn empty_brackets_fall_back_to_default() {
    let symbols = string_to_symbols("+()F");
    assert_eq!(symbols, vec![LSymbol::RotateY(Values::Default), LSymbol::Rule('F')]);
}

#[test]
fn only_separators_fall_back_to_default() {
    let symbols = string_to_symbols("+(~,~)F");
    assert_eq!(symbols, vec![LSymbol::RotateY(Values::Default), LSymbol::Rule('F')]);
}

#[test]
fn unread_body_is_read_as_symbols() {
    // The brackets hold no number, so reading goes on inside them: the minus
    // sign is an operator of its own.
    let symbols = string_to_symbols("+(-)");
    assert_eq!(
        symbols,
        vec![LSymbol::RotateY(Values::Default), LSymbol::RotateNegY(Values::Default)]
    );
}

#[test]
fn truncated_group_at_end_of_text() {
    assert_eq!(string_to_symbols("+("), vec![LSymbol::RotateY(Values::Default)]);
    assert_eq!(string_to_symbols("+(12"), vec![LSymbol::RotateY(Values::Default)]);
    assert_eq!(string_to_symbols("+(12~"), vec![LSymbol::RotateY(Values::Default)]);
    assert_eq!(string_to_symbols("F+"), vec![LSymbol::Rule('F'), LSymbol::RotateY(Values::Default)]);
}

#[test]
fn letter_inside_brackets_ends_the_group() {
    let symbols = string_to_symbols("+(1a)");
    assert_eq!(
        symbols,
        vec![LSymbol::RotateY(Values::Default), LSymbol::Object { id: 'a' }]
    );
}

#[test]
fn space_inside_brackets_ends_the_group() {
    let symbols = string_to_symbols("+(1 0)F");
    assert_eq!(symbols, vec![LSymbol::RotateY(Values::Default), LSymbol::Rule('F')]);
}

#[test]
fn decimals_and_signs() {
    let symbols = string_to_symbols("+(22.5)-(-3.25)|(.5)&(5.)");
    let expected = vec![
        LSymbol::RotateY(Values::Exact(Value::Exact(22_500_000))),
        LSymbol::RotateNegY(Values::Exact(Value::Exact(-3_250_000))),
        LSymbol::Scale(Values::Exact(Value::Exact(500_000))),
        LSymbol::RotateX(Values::Exact(Value::Exact(5_000_000))),
    ];
    assert_eq!(symbols, expected);
}

#[test]
fn pieces_without_a_number_are_passed_over() {
    let symbols = string_to_symbols("+(1,,2)-(1~~2)&(1~2~3)^(1.2.3,4)");
    let expected = vec![
        LSymbol::RotateY(Values::Multiple(vec![Value::Exact(ONE), Value::Exact(2 * ONE)])),
        LSymbol::RotateNegY(Values::Exact(Value::Range { min: ONE, max: 2 * ONE })),
        LSymbol::RotateX(Values::Exact(Value::Range { min: ONE, max: 3 * ONE })),
        LSymbol::RotateNegX(exact(4)),
    ];
    assert_eq!(symbols, expected);
}

#[test]
fn negative_range() {
    let symbols = string_to_symbols("+(-20~-10)");
    assert_eq!(
        symbols,
        vec![LSymbol::RotateY(Values::Exact(Value::Range { min: -20 * ONE, max: -10 * ONE }))]
    );
}

#[test]
fn numbers_in_millionths() {
    let text = characters("12.345678901");
    assert_eq!(parse_number(&text, 0, text.len()), Some(12_345_678));
    let text = characters("0.000001");
    assert_eq!(parse_number(&text, 0, text.len()), Some(1));
    let text = characters("-0.0000009");
    assert_eq!(parse_number(&text, 0, text.len()), Some(0));
    let text = characters("007");
    assert_eq!(parse_number(&text, 0, text.len()), Some(7 * ONE));
}

#[test]
fn what_is_no_number() {
    for bad in ["", "-", ".", "-.", "1-2", "--1", "1.2.3", "1~2", "a"] {
        let text = characters(bad);
        assert_eq!(parse_number(&text, 0, text.len()), None, "{:?}", bad);
    }
}

#[test]
fn whole_part_limit() {
    let text = characters("1000000000000");
    assert_eq!(parse_number(&text, 0, text.len()), Some(1_000_000_000_000 * ONE));
    let text = characters("1000000000001");
    assert_eq!(parse_number(&text, 0, text.len()), Some(1_000_000_000_000_999_999));
    let text = characters("99999999999999999999999999999999999999.5");
    assert_eq!(parse_number(&text, 0, text.len()), Some(1_000_000_000_000_999_999));
    let text = characters("-99999999999999999999999999999999999999");
    assert_eq!(parse_number(&text, 0, text.len()), Some(-1_000_000_000_000_999_999));
    let text = characters("99999999999999999999999999999999999999.x");
    assert_eq!(parse_number(&text, 0, text.len()), None);
    let text = characters("-1000000000000.999999");
    assert_eq!(parse_number(&text, 0, text.len()), Some(-1_000_000_000_000_999_999));
}

#[test]
fn a_huge_number_is_still_a_parameter() {
    let symbols = string_to_symbols("+(99999999999999999999)F");
    assert_eq!(
        symbols,
        vec![
            LSymbol::RotateY(Values::Exact(Value::Exact(1_000_000_000_000_999_999))),
            LSymbol::Rule('F'),
        ]
    );
}

#[test]
fn number_inside_a_longer_text() {
    let text = characters("ab12.5cd");
    assert_eq!(parse_number(&text, 2, 6), Some(12_500_000));
    assert_eq!(parse_number(&text, 2, 2), None);
}

#[test]
fn choices_and_choice() {
    let text = characters("1~2,3,,~4~");
    assert_eq!(
        parse_choices(&text, 0, text.len()),
        vec![Value::Range { min: ONE, max: 2 * ONE }, Value::Exact(3 * ONE), Value::Exact(4 * ONE)]
    );
    assert_eq!(parse_choice(&text, 0, 3), Some(Value::Range { min: ONE, max: 2 * ONE }));
    assert_eq!(parse_choice(&text, 6, 6), None);
}

#[test]
fn parameter_reader_tells_where_to_go_on() {
    let text = characters("x(1,2)y");
    let (values, next) = Values::new(&text, 1);
    assert_eq!(values, Values::Multiple(vec![Value::Exact(ONE), Value::Exact(2 * ONE)]));
    assert_eq!(next, 6);
    let (values, next) = Values::new(&text, 0);
    assert_eq!(values, Values::Default);
    assert_eq!(next, 0);
    let (values, next) = Values::new(&text, text.len());
    assert_eq!(values, Values::Default);
    assert_eq!(next, text.len());
}

#[test]
fn characters_of_a_text() {
    assert_eq!(characters("aé[ "), vec!['a', 'é', '[', ' ']);
}
