use stackpp::parse::parse;
use stackpp::token::tokenize;
use stackpp::value::{Instruction, Value};

fn chars(s: &str) -> Vec<char> {
    s.chars().collect()
}

fn token_strings(s: &str) -> Vec<String> {
    tokenize(&chars(s)).iter().map(|t| t.iter().collect()).collect()
}

#[test]
fn splits_on_whitespace() {
    assert_eq!(token_strings("a b\tc\nd\re"), vec!["a", "b", "c", "d", "e"]);
}

#[test]
fn full_width_space_splits() {
    assert_eq!(token_strings("a\u{3000}b"), vec!["a", "b"]);
}

#[test]
fn balanced_brace_span_is_one_token() {
    assert_eq!(token_strings("{a {b c} d} x"), vec!["{a {b c} d}", "x"]);
}

#[test]
fn quoted_span_keeps_whitespace() {
    assert_eq!(token_strings("\"h i\" j"), vec!["\"h i\"", "j"]);
}

#[test]
fn unterminated_brace_span_is_dropped() {
    assert_eq!(token_strings("a {b c"), vec!["a"]);
}

#[test]
fn unterminated_quote_is_dropped() {
    assert_eq!(token_strings("a \"bc"), vec!["a"]);
}

#[test]
fn stray_closing_brace_is_ignored() {
    assert_eq!(token_strings("} a"), vec!["a"]);
}

#[test]
fn parses_number_literal() {
    assert_eq!(parse("42"), vec![Value::Number(42.0f64.to_bits())]);
}

#[test]
fn parses_negative_and_fractional_numbers() {
    assert_eq!(
        parse("-2 3.5"),
        vec![
            Value::Number((-2.0f64).to_bits()),
            Value::Number(3.5f64.to_bits()),
        ]
    );
}

#[test]
fn parses_string_literal() {
    assert_eq!(parse("\"hello\""), vec![Value::String("hello".to_string())]);
}

#[test]
fn parses_variable_reference() {
    assert_eq!(parse("$x"), vec![Value::Variable("x".to_string())]);
}

#[test]
fn parses_nested_blocks() {
    assert_eq!(
        parse("{1 {2}}"),
        vec![Value::Block(vec![
            Value::Number(1.0f64.to_bits()),
            Value::Block(vec![Value::Number(2.0f64.to_bits())]),
        ])]
    );
}

#[test]
fn parses_every_keyword() {
    let src = "add sub mul div mod pow concat print input equal less-than \
               greater-than eval when if-else while until let pop";
    let expected = vec![
        Instruction::Add,
        Instruction::Sub,
        Instruction::Mul,
        Instruction::Div,
        Instruction::Mod,
        Instruction::Pow,
        Instruction::Concat,
        Instruction::Print,
        Instruction::Input,
        Instruction::Equal,
        Instruction::LessThan,
        Instruction::GreaterThan,
        Instruction::Eval,
        Instruction::When,
        Instruction::IfElse,
        Instruction::While,
        Instruction::Until,
        Instruction::Let,
        Instruction::Pop,
    ];
    let parsed = parse(src);
    assert_eq!(parsed.len(), expected.len());
    for (v, ins) in parsed.iter().zip(expected.iter()) {
        assert_eq!(v, &Value::Instruction(*ins));
    }
}

#[test]
fn parses_special_float_words() {
    assert_eq!(parse("inf"), vec![Value::Number(f64::INFINITY.to_bits())]);
    assert_eq!(parse("-Infinity"), vec![Value::Number(f64::NEG_INFINITY.to_bits())]);
    match parse("nan").as_slice() {
        [Value::Number(b)] => assert!(f64::from_bits(*b).is_nan()),
        other => panic!("nan did not parse as a number: {other:?}"),
    }
}

#[test]
fn accepts_documented_number_forms() {
    assert_eq!(parse("3."), vec![Value::Number(3.0f64.to_bits())]);
    assert_eq!(parse(".5"), vec![Value::Number(0.5f64.to_bits())]);
    assert_eq!(parse("+3"), vec![Value::Number(3.0f64.to_bits())]);
    assert_eq!(parse("12.5e-1"), vec![Value::Number(1.25f64.to_bits())]);
}

#[test]
fn rejects_malformed_numbers() {
    assert_eq!(parse("5e"), Vec::<Value>::new());
    assert_eq!(parse("e5"), Vec::<Value>::new());
    assert_eq!(parse("1.2.3"), Vec::<Value>::new());
    assert_eq!(parse("1_000"), Vec::<Value>::new());
    assert_eq!(parse("0x10"), Vec::<Value>::new());
}

#[test]
fn unrecognized_token_contributes_nothing() {
    assert_eq!(
        parse("3 bogus 4"),
        vec![
            Value::Number(3.0f64.to_bits()),
            Value::Number(4.0f64.to_bits()),
        ]
    );
    assert_eq!(parse("bogus"), Vec::<Value>::new());
}
