use liquid::context::Context;
use liquid::error::Error;
use liquid::expression::Expression;
use liquid::filters::FilterArguments;
use liquid::registry::FilterKind;
use liquid::value::Value;

fn args_of(vals: Vec<Value>) -> FilterArguments {
    let mut positional: Vec<Expression> = Vec::new();
    for v in vals {
        positional.push(Expression::Literal(v));
    }
    FilterArguments { positional, keyword: Vec::new() }
}

fn unit(kind: FilterKind, input: Value, a: Vec<Value>) -> Value {
    let bound = kind.parse(&args_of(a)).unwrap();
    let ctx = Context::new();
    bound.evaluate(&input, &ctx).unwrap()
}

fn failed(kind: FilterKind, input: Value, a: Vec<Value>) -> Error {
    let ctx = Context::new();
    match kind.parse(&args_of(a)) {
        Ok(bound) => bound.evaluate(&input, &ctx).unwrap_err(),
        Err(e) => e,
    }
}

fn tos(s: &str) -> Value {
    Value::Str(s.to_string())
}

fn num(i: i64) -> Value {
    Value::Int(i)
}

#[test]
fn unit_concat_nothing() {
    let input = Value::Array(vec![num(1), num(2)]);
    let result = Value::Array(vec![num(1), num(2)]);
    assert_eq!(
        unit(FilterKind::Concat(liquid::filters::Concat::new()), input, vec![Value::Array(vec![])]),
        result
    );
}

#[test]
fn unit_concat_something() {
    let input = Value::Array(vec![num(1), num(2)]);
    let result = Value::Array(vec![num(1), num(2), num(3), num(4)]);
    assert_eq!(
        unit(
            FilterKind::Concat(liquid::filters::Concat::new()),
            input,
            vec![Value::Array(vec![num(3), num(4)])]
        ),
        result
    );
}

#[test]
fn unit_concat_mixed() {
    let input = Value::Array(vec![num(1), num(2)]);
    let result = Value::Array(vec![num(1), num(2), num(3), tos("a")]);
    assert_eq!(
        unit(
            FilterKind::Concat(liquid::filters::Concat::new()),
            input,
            vec![Value::Array(vec![num(3), tos("a")])]
        ),
        result
    );
}

#[test]
fn unit_concat_wrong_type() {
    let input = Value::Array(vec![num(1), num(2)]);
    failed(FilterKind::Concat(liquid::filters::Concat::new()), input, vec![num(1)]);
}

#[test]
fn unit_concat_no_args() {
    let input = Value::Array(vec![num(1), num(2)]);
    failed(FilterKind::Concat(liquid::filters::Concat::new()), input, vec![]);
}

#[test]
fn unit_concat_extra_args() {
    let input = Value::Array(vec![num(1), num(2)]);
    failed(
        FilterKind::Concat(liquid::filters::Concat::new()),
        input,
        vec![Value::Array(vec![num(3), tos("a")]), num(2)],
    );
}

#[test]
fn unit_first() {
    assert_eq!(
        unit(
            FilterKind::First(liquid::filters::First::new()),
            Value::Array(vec![num(0), num(1), num(2), num(3), num(4)]),
            vec![]
        ),
        num(0)
    );
    assert_eq!(
        unit(
            FilterKind::First(liquid::filters::First::new()),
            Value::Array(vec![tos("test"), tos("two")]),
            vec![]
        ),
        tos("test")
    );
    assert_eq!(
        unit(FilterKind::First(liquid::filters::First::new()), Value::Array(vec![]), vec![]),
        Value::Nil
    );
}

#[test]
fn unit_join() {
    let input = Value::Array(vec![tos("a"), tos("b"), tos("c")]);
    assert_eq!(unit(FilterKind::Join(liquid::filters::Join::new()), input, vec![tos(",")]), tos("a,b,c"));
}

#[test]
fn unit_join_bad_input() {
    let input = tos("a");
    failed(FilterKind::Join(liquid::filters::Join::new()), input, vec![tos(",")]);
}

#[test]
fn unit_join_bad_join_string() {
    let input = Value::Array(vec![tos("a"), tos("b"), tos("c")]);
    assert_eq!(unit(FilterKind::Join(liquid::filters::Join::new()), input, vec![num(1)]), tos("a1b1c"));
}

#[test]
fn unit_join_no_args() {
    let input = Value::Array(vec![tos("a"), tos("b"), tos("c")]);
    assert_eq!(unit(FilterKind::Join(liquid::filters::Join::new()), input, vec![]), tos("a b c"));
}

#[test]
fn unit_join_non_string_element() {
    let input = Value::Array(vec![tos("a"), num(1), tos("c")]);
    assert_eq!(unit(FilterKind::Join(liquid::filters::Join::new()), input, vec![tos(",")]), tos("a,1,c"));
}

#[test]
fn unit_sort() {
    let input = Value::Array(vec![tos("Z"), tos("b"), tos("c"), tos("a")]);
    let desired_result = Value::Array(vec![tos("Z"), tos("a"), tos("b"), tos("c")]);
    assert_eq!(unit(FilterKind::Sort(liquid::filters::Sort::new()), input, vec![]), desired_result);
}

#[test]
fn unit_sort_natural() {
    let input = Value::Array(vec![tos("Z"), tos("b"), tos("c"), tos("a")]);
    let desired_result = Value::Array(vec![tos("a"), tos("b"), tos("c"), tos("Z")]);
    assert_eq!(
        unit(FilterKind::SortNatural(liquid::filters::SortNatural::new()), input, vec![]),
        desired_result
    );
}

#[test]
fn unit_last() {
    assert_eq!(
        unit(
            FilterKind::Last(liquid::filters::Last::new()),
            Value::Array(vec![num(0), num(1), num(2), num(3), num(4)]),
            vec![]
        ),
        num(4)
    );
    assert_eq!(
        unit(
            FilterKind::Last(liquid::filters::Last::new()),
            Value::Array(vec![tos("test"), tos("last")]),
            vec![]
        ),
        tos("last")
    );
    assert_eq!(
        unit(FilterKind::Last(liquid::filters::Last::new()), Value::Array(vec![]), vec![]),
        Value::Nil
    );
}

#[test]
fn unit_reverse_apples_oranges_peaches_plums() {
    let input = Value::Array(vec![tos("apples"), tos("oranges"), tos("peaches"), tos("plums")]);
    let desired_result = Value::Array(vec![tos("plums"), tos("peaches"), tos("oranges"), tos("apples")]);
    assert_eq!(unit(FilterKind::Reverse(liquid::filters::Reverse::new()), input, vec![]), desired_result);
}

#[test]
fn unit_reverse_array() {
    let input = Value::Array(vec![num(3), num(1), num(2)]);
    let desired_result = Value::Array(vec![num(2), num(1), num(3)]);
    assert_eq!(unit(FilterKind::Reverse(liquid::filters::Reverse::new()), input, vec![]), desired_result);
}

#[test]
fn unit_reverse_array_extra_args() {
    let input = Value::Array(vec![num(3), num(1), num(2)]);
    failed(FilterKind::Reverse(liquid::filters::Reverse::new()), input, vec![num(0)]);
}

#[test]
fn unit_reverse_ground_control_major_tom() {
    let input = Value::Array(vec![
        tos("G"), tos("r"), tos("o"), tos("u"), tos("n"), tos("d"), tos(" "),
        tos("c"), tos("o"), tos("n"), tos("t"), tos("r"), tos("o"), tos("l"), tos(" "),
        tos("t"), tos("o"), tos(" "),
        tos("M"), tos("a"), tos("j"), tos("o"), tos("r"), tos(" "),
        tos("T"), tos("o"), tos("m"), tos("."),
    ]);
    let desired_result = Value::Array(vec![
        tos("."), tos("m"), tos("o"), tos("T"), tos(" "),
        tos("r"), tos("o"), tos("j"), tos("a"), tos("M"), tos(" "),
        tos("o"), tos("t"), tos(" "),
        tos("l"), tos("o"), tos("r"), tos("t"), tos("n"), tos("o"), tos("c"), tos(" "),
        tos("d"), tos("n"), tos("u"), tos("o"), tos("r"), tos("G"),
    ]);
    assert_eq!(unit(FilterKind::Reverse(liquid::filters::Reverse::new()), input, vec![]), desired_result);
}

#[test]
fn unit_reverse_string() {
    let input = tos("abc");
    failed(FilterKind::Reverse(liquid::filters::Reverse::new()), input, vec![]);
}

#[test]
fn unit_uniq() {
    let input = Value::Array(vec![tos("a"), tos("b"), tos("a")]);
    let desired_result = Value::Array(vec![tos("a"), tos("b")]);
    assert_eq!(unit(FilterKind::Uniq(liquid::filters::Uniq::new()), input, vec![]), desired_result);
}

#[test]
fn unit_uniq_non_array() {
    let input = num(0);
    failed(FilterKind::Uniq(liquid::filters::Uniq::new()), input, vec![]);
}

#[test]
fn unit_uniq_one_argument() {
    let input = Value::Array(vec![tos("a"), tos("b"), tos("a")]);
    failed(FilterKind::Uniq(liquid::filters::Uniq::new()), input, vec![num(0)]);
}

#[test]
fn unit_uniq_shopify_liquid() {
    let input = Value::Array(vec![tos("ants"), tos("bugs"), tos("bees"), tos("bugs"), tos("ants")]);
    let desired_result = Value::Array(vec![tos("ants"), tos("bugs"), tos("bees")]);
    assert_eq!(unit(FilterKind::Uniq(liquid::filters::Uniq::new()), input, vec![]), desired_result);
}
