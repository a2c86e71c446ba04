use stackpp::machine::Machine;
use stackpp::parse::parse;
use stackpp::value::{ErrorKind, Value};

fn run(src: &str) -> Machine {
    let mut m = Machine::new();
    m.eval(parse(src));
    m
}

fn num(x: f64) -> Value {
    Value::Number(x.to_bits())
}

#[test]
fn literal_round_trip_number() {
    let m = run("42");
    assert_eq!(m.stack, vec![num(42.0)]);
    assert!(m.printed.is_empty());
    assert!(m.memory.is_empty());
}

#[test]
fn literal_round_trip_string() {
    let m = run("\"hello\"");
    assert_eq!(m.stack, vec![Value::String("hello".to_string())]);
}

#[test]
fn addition() {
    let m = run("3 4 add");
    assert_eq!(m.stack, vec![num(7.0)]);
}

#[test]
fn subtraction_and_multiplication() {
    assert_eq!(run("10 4 sub").stack, vec![num(6.0)]);
    assert_eq!(run("6 7 mul").stack, vec![num(42.0)]);
}

#[test]
fn division_by_zero_yields_infinity() {
    assert_eq!(run("1 0 div").stack, vec![num(f64::INFINITY)]);
}

#[test]
fn modulo_and_power() {
    assert_eq!(run("5 3 mod").stack, vec![num(2.0)]);
    assert_eq!(run("2 10 pow").stack, vec![num(1024.0)]);
}

#[test]
fn add_on_empty_stack_does_not_abort() {
    // Popping an empty stack yields the error value, which coerces to 0.0.
    let m = run("add");
    assert_eq!(m.stack, vec![num(0.0)]);
}

#[test]
fn error_coercion_flows_through_print() {
    // The sum of two error coercions is the number 0.0, whose text is "0".
    let m = run("add print");
    assert_eq!(m.printed, vec!["0".to_string()]);
    assert!(m.stack.is_empty());
}

#[test]
fn error_value_is_first_class() {
    let mut m = Machine::new();
    m.eval(vec![Value::Error(ErrorKind::StackEmpty)]);
    assert_eq!(m.stack, vec![Value::Error(ErrorKind::StackEmpty)]);
}

#[test]
fn concat_and_equal() {
    assert_eq!(
        run("\"ab\" \"cd\" concat").stack,
        vec![Value::String("abcd".to_string())]
    );
    assert_eq!(run("\"a\" \"a\" equal").stack, vec![Value::Bool(true)]);
    assert_eq!(run("\"a\" \"b\" equal").stack, vec![Value::Bool(false)]);
    // Numbers are compared through their decimal text.
    assert_eq!(run("1 1 equal").stack, vec![Value::Bool(true)]);
}

#[test]
fn comparisons() {
    assert_eq!(run("1 2 less-than").stack, vec![Value::Bool(true)]);
    assert_eq!(run("2 1 less-than").stack, vec![Value::Bool(false)]);
    assert_eq!(run("2 1 greater-than").stack, vec![Value::Bool(true)]);
}

#[test]
fn number_prints_as_shortest_decimal() {
    assert_eq!(run("7 print").printed, vec!["7".to_string()]);
    assert_eq!(run("3.5 print").printed, vec!["3.5".to_string()]);
}

#[test]
fn eval_runs_block_on_same_stack() {
    assert_eq!(run("{1 2 add} eval").stack, vec![num(3.0)]);
}

#[test]
fn when_false_prints_nothing() {
    let m = run("0 {\"hi\" print} when");
    assert!(m.printed.is_empty());
    assert!(m.stack.is_empty());
}

#[test]
fn when_true_prints_once() {
    // Only a boolean coerces to true, so the condition comes from a comparison.
    let m = run("1 2 less-than {\"hi\" print} when");
    assert_eq!(m.printed, vec!["hi".to_string()]);
}

#[test]
fn when_with_number_condition_prints_nothing() {
    // A number is not a boolean: it coerces to false, so the block is skipped.
    let m = run("1 {\"hi\" print} when");
    assert!(m.printed.is_empty());
}

#[test]
fn if_else_picks_branch() {
    assert_eq!(
        run("1 2 less-than {\"t\"} {\"f\"} if-else").stack,
        vec![Value::String("t".to_string())]
    );
    assert_eq!(
        run("2 1 less-than {\"t\"} {\"f\"} if-else").stack,
        vec![Value::String("f".to_string())]
    );
}

#[test]
fn while_counter_reaches_ten() {
    let m = run("0 \"i\" let {$i 10 less-than} {$i 1 add \"i\" let} while");
    assert_eq!(
        m.lookup(&"i".to_string()),
        Some(num(10.0)),
        "the loop rebinds i until the condition flips"
    );
    assert!(m.stack.is_empty());
}

#[test]
fn until_counter_reaches_three() {
    let m = run("0 \"i\" let {$i 3 equal} {$i 1 add \"i\" let} until");
    assert_eq!(m.lookup(&"i".to_string()), Some(num(3.0)));
}

#[test]
fn let_binds_and_rebind_replaces() {
    let mut m = Machine::new();
    m.eval(parse("5 \"x\" let $x"));
    assert_eq!(m.stack.last(), Some(&num(5.0)));
    m.eval(parse("6 \"x\" let $x"));
    assert_eq!(m.stack.last(), Some(&num(6.0)));
    assert_eq!(m.memory.len(), 1, "rebinding keeps no history");
}

#[test]
fn variable_resolves_by_copy() {
    let m = run("1 \"x\" let $x 2 \"x\" let $x");
    assert_eq!(m.stack, vec![num(1.0), num(2.0)]);
}

#[test]
fn unbound_variable_pushes_itself() {
    let m = run("$nope");
    assert_eq!(m.stack, vec![Value::Variable("nope".to_string())]);
}

#[test]
fn pop_discards_top_and_is_no_op_when_empty() {
    assert_eq!(run("1 2 pop").stack, vec![num(1.0)]);
    assert!(run("pop").stack.is_empty());
}

#[test]
fn surrounding_tokens_unaffected_by_dropped_token() {
    let m = run("3 bogus 4 add");
    assert_eq!(m.stack, vec![num(7.0)]);
}

#[test]
fn state_persists_across_evaluations() {
    let mut m = Machine::new();
    m.eval(parse("2 \"n\" let"));
    m.eval(parse("$n $n mul"));
    assert_eq!(m.stack, vec![num(4.0)]);
}
