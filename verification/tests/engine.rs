use liquid::context::Context;
use liquid::error::ErrorKind;
use liquid::expression::Expression;
use liquid::filters::FilterArguments;
use liquid::filters::KeywordArg;
use liquid::parser::BlockKind;
use liquid::parser::BlockReflection;
use liquid::parser::BreakTag;
use liquid::parser::ContinueTag;
use liquid::parser::ForBlock;
use liquid::parser::IfBlock;
use liquid::parser::IfChangedBlock;
use liquid::parser::TagKind;
use liquid::parser::TagReflection;
use liquid::registry::FilterKind;
use liquid::registry::Language;
use liquid::value::Cmp;
use liquid::value::Value;

fn options() -> Language {
    let mut options = Language::new();
    options.tags.register("break".to_string(), TagKind::Break(BreakTag::new()));
    options.tags.register("continue".to_string(), TagKind::Continue(ContinueTag::new()));
    options.blocks.register("for".to_string(), BlockKind::For(ForBlock::new()));
    options.blocks.register("if".to_string(), BlockKind::If(IfBlock::new()));
    options.blocks.register("ifchanged".to_string(), BlockKind::IfChanged(IfChangedBlock::new()));
    let mut filters = vec![
        ("join".to_string(), FilterKind::Join(liquid::filters::Join::new())),
        ("sort".to_string(), FilterKind::Sort(liquid::filters::Sort::new())),
        ("uniq".to_string(), FilterKind::Uniq(liquid::filters::Uniq::new())),
    ];
    for (name, kind) in filters.drain(..) {
        options.filters.register(name, kind);
    }
    options
}

fn tos(s: &str) -> Value {
    Value::Str(s.to_string())
}

fn obj(key: &str, v: i64) -> Value {
    Value::Object(vec![(key.to_string(), Value::Int(v))])
}

#[test]
fn end_to_end_for_range() {
    let text = "{% for a in (0..3) %}{{a}},{% endfor %}";
    let template = liquid::parser::parse(text, &options()).unwrap();
    let mut ctx = Context::new();
    assert_eq!(template.render(&mut ctx).unwrap(), "0,1,2,3,");
}

#[test]
fn end_to_end_where_filter() {
    let input = Value::Array(vec![obj("k", 1), obj("k", 2), obj("k", 1)]);
    let args = FilterArguments {
        positional: vec![
            Expression::Literal(tos("k")),
            Expression::Literal(Value::Int(1)),
        ],
        keyword: Vec::new(),
    };
    let bound = liquid::filters::Where::new().parse(&args).unwrap();
    let ctx = Context::new();
    let result = bound.evaluate(&input, &ctx).unwrap();
    assert_eq!(result, Value::Array(vec![obj("k", 1), obj("k", 1)]));
}

#[test]
fn end_to_end_uniq_preserves_first_occurrence() {
    let input = Value::Array(vec![tos("a"), tos("b"), tos("a")]);
    let bound = liquid::filters::Uniq::new().parse(&FilterArguments {
        positional: Vec::new(),
        keyword: Vec::new(),
    })
    .unwrap();
    let ctx = Context::new();
    assert_eq!(
        bound.evaluate(&input, &ctx).unwrap(),
        Value::Array(vec![tos("a"), tos("b")])
    );
}

#[test]
fn nil_sorts_last_ascending() {
    let input = Value::Array(vec![Value::Nil, tos("b"), tos("a")]);
    let bound = liquid::filters::Sort::new().parse(&FilterArguments {
        positional: Vec::new(),
        keyword: Vec::new(),
    })
    .unwrap();
    let ctx = Context::new();
    assert_eq!(
        bound.evaluate(&input, &ctx).unwrap(),
        Value::Array(vec![tos("a"), tos("b"), Value::Nil])
    );
}

#[test]
fn nil_safe_compare_places_nil_last() {
    assert_eq!(liquid::value::nil_safe_compare(&Value::Nil, &Value::Nil), Some(Cmp::Equal));
    assert_eq!(liquid::value::nil_safe_compare(&Value::Nil, &tos("x")), Some(Cmp::Greater));
    assert_eq!(liquid::value::nil_safe_compare(&tos("x"), &Value::Nil), Some(Cmp::Less));
    assert_eq!(liquid::value::nil_safe_compare(&Value::Int(1), &tos("x")), None);
}

#[test]
fn registers_do_not_leak_across_renders() {
    let text = "{% for a in (0..2) %}{% ifchanged %}same{% endifchanged %}{% endfor %}";
    let template = liquid::parser::parse(text, &options()).unwrap();
    let mut first_ctx = Context::new();
    assert_eq!(template.render(&mut first_ctx).unwrap(), "same");
    // a fresh context sees no state from the earlier render
    let mut second_ctx = Context::new();
    assert_eq!(template.render(&mut second_ctx).unwrap(), "same");
}

#[test]
fn filter_rejects_unknown_keyword() {
    let args = FilterArguments {
        positional: Vec::new(),
        keyword: vec![KeywordArg {
            name: "no_such_parameter".to_string(),
            value: Expression::Literal(Value::Int(1)),
        }],
    };
    let err = liquid::filters::Sort::new().parse(&args).unwrap_err();
    assert_eq!(err.kind, ErrorKind::Parse);
}

#[test]
fn filter_rejects_duplicate_binding() {
    let args = FilterArguments {
        positional: vec![Expression::Literal(tos("k"))],
        keyword: vec![KeywordArg {
            name: "property".to_string(),
            value: Expression::Literal(tos("k")),
        }],
    };
    let err = liquid::filters::Where::new().parse(&args).unwrap_err();
    assert_eq!(err.kind, ErrorKind::Parse);
}

#[test]
fn filter_rejects_missing_required() {
    let args = FilterArguments { positional: Vec::new(), keyword: Vec::new() };
    let err = liquid::filters::Where::new().parse(&args).unwrap_err();
    assert_eq!(err.kind, ErrorKind::Parse);
}

#[test]
fn filter_accepts_exact_required_by_keyword() {
    let args = FilterArguments {
        positional: Vec::new(),
        keyword: vec![KeywordArg {
            name: "property".to_string(),
            value: Expression::Literal(tos("k")),
        }],
    };
    assert!(liquid::filters::Where::new().parse(&args).is_ok());
}

#[test]
fn unknown_tag_is_parse_error() {
    let err = liquid::parser::parse("{% nonsense %}", &options()).unwrap_err();
    assert_eq!(err.kind, ErrorKind::Parse);
}

#[test]
fn unterminated_block_is_parse_error() {
    let err = liquid::parser::parse("{% for a in (0..3) %}body", &options()).unwrap_err();
    assert_eq!(err.kind, ErrorKind::Parse);
}

#[test]
fn stray_close_marker_is_parse_error() {
    let err = liquid::parser::parse("{% endfor %}", &options()).unwrap_err();
    assert_eq!(err.kind, ErrorKind::Parse);
}

#[test]
fn nested_same_name_blocks_close_in_order() {
    let text = "{% for a in (0..1) %}[{% for b in (5..6) %}{{b}}{% endfor %}]{% endfor %}";
    let template = liquid::parser::parse(text, &options()).unwrap();
    let mut ctx = Context::new();
    assert_eq!(template.render(&mut ctx).unwrap(), "[56][56]");
}

#[test]
fn break_outside_loop_is_inert() {
    let text = "before{% break %}after";
    let template = liquid::parser::parse(text, &options()).unwrap();
    let mut ctx = Context::new();
    // the signal stops later siblings but reaches the caller as plain success
    assert_eq!(template.render(&mut ctx).unwrap(), "before");
}

#[test]
fn output_renders_negative_integer() {
    let text = "{{x}}";
    let template = liquid::parser::parse(text, &options()).unwrap();
    let mut ctx = Context::new();
    ctx.set_global("x".to_string(), Value::Int(-42));
    assert_eq!(template.render(&mut ctx).unwrap(), "-42");
}

#[test]
fn output_renders_scalars_and_truthiness() {
    let template = liquid::parser::parse("{{b}}|{{s}}|{% if s %}t{% endif %}{% if n %}t{% endif %}", &options()).unwrap();
    let mut ctx = Context::new();
    ctx.set_global("b".to_string(), Value::Bool(true));
    ctx.set_global("s".to_string(), tos(""));
    ctx.set_global("n".to_string(), Value::Nil);
    // the empty string is truthy, nil is not
    assert_eq!(template.render(&mut ctx).unwrap(), "true||t");
}

#[test]
fn variable_scope_restored_after_loop() {
    let template = liquid::parser::parse("{% for x in (1..2) %}{{x}}{% endfor %}{{x}}", &options()).unwrap();
    let mut ctx = Context::new();
    ctx.set_global("x".to_string(), tos("outer"));
    assert_eq!(template.render(&mut ctx).unwrap(), "12outer");
}

#[test]
fn for_iterates_collection_variable() {
    let template = liquid::parser::parse("{% for x in xs %}{{x}};{% endfor %}", &options()).unwrap();
    let mut ctx = Context::new();
    ctx.set_global("xs".to_string(), Value::Array(vec![tos("p"), tos("q")]));
    assert_eq!(template.render(&mut ctx).unwrap(), "p;q;");
}

#[test]
fn filter_chain_in_output() {
    let template = liquid::parser::parse("{{ xs | sort | join: \"-\" }}", &options()).unwrap();
    let mut ctx = Context::new();
    ctx.set_global("xs".to_string(), Value::Array(vec![tos("b"), tos("a")]));
    assert_eq!(template.render(&mut ctx).unwrap(), "a-b");
}

#[test]
fn first_and_last_of_scalar_text() {
    let ctx = Context::new();
    let none = FilterArguments { positional: Vec::new(), keyword: Vec::new() };
    let first = liquid::filters::First::new().parse(&none).unwrap();
    assert_eq!(first.evaluate(&tos("abc"), &ctx).unwrap(), tos("a"));
    let none = FilterArguments { positional: Vec::new(), keyword: Vec::new() };
    let last = liquid::filters::Last::new().parse(&none).unwrap();
    assert_eq!(last.evaluate(&tos("abc"), &ctx).unwrap(), tos("c"));
    assert_eq!(last.evaluate(&Value::Int(574), &ctx).unwrap(), tos("4"));
}

#[test]
fn compact_drops_nils() {
    let ctx = Context::new();
    let none = FilterArguments { positional: Vec::new(), keyword: Vec::new() };
    let compact = liquid::filters::Compact::new().parse(&none).unwrap();
    let input = Value::Array(vec![Value::Nil, tos("a"), Value::Nil, tos("b")]);
    assert_eq!(compact.evaluate(&input, &ctx).unwrap(), Value::Array(vec![tos("a"), tos("b")]));
}

#[test]
fn map_extracts_present_properties() {
    let ctx = Context::new();
    let args = FilterArguments {
        positional: vec![Expression::Literal(tos("k"))],
        keyword: Vec::new(),
    };
    let map = liquid::filters::MapValues::new().parse(&args).unwrap();
    let input = Value::Array(vec![obj("k", 1), obj("other", 9), obj("k", 3)]);
    assert_eq!(
        map.evaluate(&input, &ctx).unwrap(),
        Value::Array(vec![Value::Int(1), Value::Int(3)])
    );
}

#[test]
fn sort_by_property() {
    let ctx = Context::new();
    let args = FilterArguments {
        positional: vec![Expression::Literal(tos("k"))],
        keyword: Vec::new(),
    };
    let sort = liquid::filters::Sort::new().parse(&args).unwrap();
    let input = Value::Array(vec![obj("k", 3), obj("k", 1), obj("k", 2)]);
    assert_eq!(
        sort.evaluate(&input, &ctx).unwrap(),
        Value::Array(vec![obj("k", 1), obj("k", 2), obj("k", 3)])
    );
    // with a property, every element must be an object
    let bad = Value::Array(vec![obj("k", 3), Value::Int(1)]);
    let err = sort.evaluate(&bad, &ctx).unwrap_err();
    assert_eq!(err.kind, ErrorKind::Render);
}

#[test]
fn render_error_carries_construct_trace() {
    let mut options = options();
    options.filters.register("reverse".to_string(), FilterKind::Reverse(liquid::filters::Reverse::new()));
    let template = liquid::parser::parse("{% for a in (0..1) %}{{ a | reverse }}{% endfor %}", &options).unwrap();
    let mut ctx = Context::new();
    let err = template.render(&mut ctx).unwrap_err();
    assert_eq!(err.kind, ErrorKind::Render);
    assert_eq!(err.trace, vec!["output".to_string(), "for".to_string()]);
}

#[test]
fn inner_close_without_open_is_parse_error() {
    // an unmatched close marker inside a body has no corresponding open
    let err = liquid::parser::parse("{% for a in (0..1) %}{% endif %}{% endfor %}", &options())
        .unwrap_err();
    assert_eq!(err.kind, ErrorKind::Parse);
}

#[test]
fn tag_with_arguments_is_parse_error() {
    // break takes no arguments; leftover tokens are flagged
    let err = liquid::parser::parse("{% for a in (0..1) %}{% break now %}{% endfor %}", &options())
        .unwrap_err();
    assert_eq!(err.kind, ErrorKind::Parse);
}

#[test]
fn reflection_names_the_constructs() {
    assert_eq!(TagReflection::tag(&BreakTag::new()), "break");
    assert_eq!(TagReflection::tag(&ContinueTag::new()), "continue");
    assert_eq!(BlockReflection::start_tag(&IfChangedBlock::new()), "ifchanged");
    assert_eq!(BlockReflection::end_tag(&IfChangedBlock::new()), "endifchanged");
    assert!(BlockReflection::example(&ForBlock::new()).is_none());
}

#[test]
fn registration_last_write_wins() {
    let mut options = options();
    // re-registering a name replaces the earlier binding without error
    options.tags.register("break".to_string(), TagKind::Continue(ContinueTag::new()));
    let template = liquid::parser::parse("{% for i in (0..1) %}a{% break %}b{% endfor %}", &options).unwrap();
    let mut ctx = Context::new();
    // break now acts as continue: the rest of each iteration is skipped
    assert_eq!(template.render(&mut ctx).unwrap(), "aa");
}

#[test]
fn date_scalars_compare_and_render() {
    // dates are carried as epoch day counts
    assert_eq!(
        liquid::value::nil_safe_compare(&Value::Date(19000), &Value::Date(19001)),
        Some(Cmp::Less)
    );
    assert_eq!(
        liquid::value::nil_safe_compare(&Value::Date(19000), &Value::Int(19000)),
        None
    );
    assert_eq!(Value::Date(19000).to_str(), "19000");
    let input = Value::Array(vec![Value::Date(3), Value::Nil, Value::Date(1)]);
    let bound = liquid::filters::Sort::new().parse(&FilterArguments {
        positional: Vec::new(),
        keyword: Vec::new(),
    })
    .unwrap();
    let ctx = Context::new();
    assert_eq!(
        bound.evaluate(&input, &ctx).unwrap(),
        Value::Array(vec![Value::Date(1), Value::Date(3), Value::Nil])
    );
}

#[test]
fn sort_is_stable_on_tied_keys() {
    // elements whose keys compare equal under the tie-break keep
    // their order of appearance
    let a1 = Value::Object(vec![
        ("k".to_string(), Value::Int(1)),
        ("tag".to_string(), tos("first")),
    ]);
    let a2 = Value::Object(vec![
        ("k".to_string(), Value::Int(1)),
        ("tag".to_string(), tos("second")),
    ]);
    let b = Value::Object(vec![
        ("k".to_string(), Value::Int(0)),
        ("tag".to_string(), tos("third")),
    ]);
    let input = Value::Array(vec![a1.clone(), a2.clone(), b.clone()]);
    let args = FilterArguments {
        positional: vec![Expression::Literal(tos("k"))],
        keyword: Vec::new(),
    };
    let bound = liquid::filters::Sort::new().parse(&args).unwrap();
    let ctx = Context::new();
    assert_eq!(
        bound.evaluate(&input, &ctx).unwrap(),
        Value::Array(vec![b, a1, a2])
    );
    // incomparable neighbours also stay in order of appearance
    let mixed = Value::Array(vec![Value::Int(2), tos("a"), Value::Int(1)]);
    let plain = liquid::filters::Sort::new().parse(&FilterArguments {
        positional: Vec::new(),
        keyword: Vec::new(),
    })
    .unwrap();
    assert_eq!(
        plain.evaluate(&mixed, &ctx).unwrap(),
        Value::Array(vec![Value::Int(2), tos("a"), Value::Int(1)])
    );
}
