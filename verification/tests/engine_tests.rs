use liquid::context::Context;
use liquid::error::Error;
use liquid::lexer::{tokenize, Element, Token};
use liquid::tags::for_block::{for_block, get_array};
use liquid::value::Value;
use liquid::{parse, LiquidOptions, TagKind};

#[test]
fn test_for() {
    let options: LiquidOptions = Default::default();
    let for_tag = for_block(
        "for",
        &vec![
            Token::Identifier("name".to_owned()),
            Token::Identifier("in".to_owned()),
            Token::Identifier("array".to_owned()),
        ],
        tokenize("test {{name}} ").unwrap(),
        &options,
    );

    let mut data: Context = Default::default();
    data.set_val(
        "array",
        Value::Array(vec![
            Value::Num(22),
            Value::Num(23),
            Value::Num(24),
            Value::Str("wat".to_owned()),
        ]),
    );
    assert_eq!(
        for_tag.unwrap().render(&mut data).unwrap(),
        Some("test 22 test 23 test 24 test wat ".to_owned())
    );
}

#[test]
fn literal_text_renders_verbatim() {
    let template = parse("Liquid!", Default::default()).unwrap();
    let mut data = Context::new();
    assert_eq!(template.render(&mut data).unwrap(), Some("Liquid!".to_owned()));
}

#[test]
fn interpolation_resolves_bindings() {
    let template = parse("hello {{name}}!", Default::default()).unwrap();
    let mut data = Context::new();
    data.set_val("name", Value::Str("world".to_owned()));
    assert_eq!(template.render(&mut data).unwrap(), Some("hello world!".to_owned()));
}

#[test]
fn interpolation_of_unset_name_is_empty() {
    let template = parse("a{{missing}}b", Default::default()).unwrap();
    let mut data = Context::new();
    assert_eq!(template.render(&mut data).unwrap(), Some("ab".to_owned()));
}

#[test]
fn number_stringification_is_integral() {
    assert_eq!(Value::Num(22).to_text(), "22");
    assert_eq!(Value::Num(0).to_text(), "0");
    assert_eq!(Value::Num(-5).to_text(), "-5");
    assert_eq!(Value::Num(i64::MIN).to_text(), "-9223372036854775808");
    assert_eq!(Value::Num(i64::MAX).to_text(), "9223372036854775807");
}

#[test]
fn empty_array_iteration_yields_empty_string() {
    let template = parse("[{% for x in xs %}a{% endfor %}]", Default::default()).unwrap();
    let mut data = Context::new();
    data.set_val("xs", Value::Array(vec![]));
    assert_eq!(template.render(&mut data).unwrap(), Some("[]".to_owned()));
}

#[test]
fn empty_array_directive_output_is_text_not_nothing() {
    let options: LiquidOptions = Default::default();
    let for_tag = for_block(
        "for",
        &vec![
            Token::Identifier("x".to_owned()),
            Token::Identifier("in".to_owned()),
            Token::Identifier("xs".to_owned()),
        ],
        tokenize("a").unwrap(),
        &options,
    )
    .unwrap();
    let mut data = Context::new();
    data.set_val("xs", Value::Array(vec![]));
    assert_eq!(for_tag.render(&mut data).unwrap(), Some(String::new()));
}

#[test]
fn iterating_a_string_fails_with_description() {
    let template = parse("{% for x in xs %}a{% endfor %}", Default::default()).unwrap();
    let mut data = Context::new();
    data.set_val("xs", Value::Str("wat".to_owned()));
    match template.render(&mut data) {
        Err(Error::Render(m)) => {
            assert_eq!(m, "Tried to iterate over \"wat\", which is not supported.")
        }
        other => panic!("expected a render error, got {:?}", other),
    }
}

#[test]
fn iterating_nil_bool_num_fails() {
    for (value, expect) in [
        (Value::Nil, "Tried to iterate over nil, which is not supported."),
        (Value::Bool(true), "Tried to iterate over true, which is not supported."),
        (Value::Num(7), "Tried to iterate over 7, which is not supported."),
    ] {
        let template = parse("{% for x in xs %}a{% endfor %}", Default::default()).unwrap();
        let mut data = Context::new();
        data.set_val("xs", value);
        match template.render(&mut data) {
            Err(Error::Render(m)) => assert_eq!(m, expect),
            other => panic!("expected a render error, got {:?}", other),
        }
    }
}

#[test]
fn iterating_an_unset_name_fails() {
    let mut data = Context::new();
    match get_array(&mut data, "xs") {
        Err(Error::Render(m)) => {
            assert_eq!(m, "Tried to iterate over nothing, which is not supported.")
        }
        other => panic!("expected a render error, got {:?}", other),
    }
}

#[test]
fn for_without_in_fails_at_parse_time() {
    match parse("{% for x foo bar %}{% endfor %}", Default::default()) {
        Err(Error::Parser(m)) => assert_eq!(m, "expected 'in', found foo"),
        other => panic!("expected a parse error, got {:?}", other),
    }
}

#[test]
fn for_with_extra_argument_fails() {
    match parse("{% for x in xs bar %}{% endfor %}", Default::default()) {
        Err(Error::Parser(m)) => assert_eq!(m, "expected the end of the tag, found bar"),
        other => panic!("expected a parse error, got {:?}", other),
    }
}

#[test]
fn nested_loops_leak_the_inner_binding() {
    let template = parse(
        "{% for x in outer %}{% for x in inner %}{{x}}{% endfor %}-{{x}} {% endfor %}",
        Default::default(),
    )
    .unwrap();
    let mut data = Context::new();
    data.set_val("outer", Value::Array(vec![Value::Num(1), Value::Num(2)]));
    data.set_val("inner", Value::Array(vec![Value::Num(8), Value::Num(9)]));
    assert_eq!(template.render(&mut data).unwrap(), Some("89-9 89-9 ".to_owned()));
    match data.get_val("x") {
        Some(Value::Num(n)) => assert_eq!(*n, 9),
        other => panic!("loop variable should stay bound, got {:?}", other),
    }
}

#[test]
fn loop_variable_persists_after_the_loop() {
    let template = parse("{% for x in xs %}{% endfor %}{{x}}", Default::default()).unwrap();
    let mut data = Context::new();
    data.set_val("xs", Value::Array(vec![Value::Num(5), Value::Num(6)]));
    assert_eq!(template.render(&mut data).unwrap(), Some("6".to_owned()));
}

#[test]
fn unknown_tag_fails_parsing() {
    match parse("{% bogus %}", Default::default()) {
        Err(Error::Parser(m)) => assert_eq!(m, "no such tag bogus"),
        other => panic!("expected a parse error, got {:?}", other),
    }
}

#[test]
fn unknown_block_fails_parsing() {
    match parse("{% bogus %}x{% endbogus %}", Default::default()) {
        Err(Error::Parser(m)) => assert_eq!(m, "no such block bogus"),
        other => panic!("expected a parse error, got {:?}", other),
    }
}

#[test]
fn unmatched_end_marker_fails_parsing() {
    match parse("{% endfor %}", Default::default()) {
        Err(Error::Parser(m)) => assert_eq!(m, "unmatched block end marker endfor"),
        other => panic!("expected a parse error, got {:?}", other),
    }
}

#[test]
fn raw_block_is_byte_identical_to_its_source() {
    let template = parse("{% raw %}{{name}} {% x %}{% endraw %}", Default::default()).unwrap();
    let mut data = Context::new();
    data.set_val("name", Value::Str("bound".to_owned()));
    assert_eq!(template.render(&mut data).unwrap(), Some("{{name}} {% x %}".to_owned()));
}

#[test]
fn comment_block_renders_nothing() {
    let template = parse("a{% comment %}... {{x}} ...{% endcomment %}b", Default::default())
        .unwrap();
    let mut data = Context::new();
    assert_eq!(template.render(&mut data).unwrap(), Some("ab".to_owned()));
}

#[test]
fn if_with_true_comparison_renders_body() {
    let template = parse("{% if x == 22 %}yes{% endif %}", Default::default()).unwrap();
    let mut data = Context::new();
    data.set_val("x", Value::Num(22));
    assert_eq!(template.render(&mut data).unwrap(), Some("yes".to_owned()));
}

#[test]
fn if_with_false_comparison_renders_nothing() {
    let template = parse("[{% if x == 22 %}yes{% endif %}]", Default::default()).unwrap();
    let mut data = Context::new();
    data.set_val("x", Value::Num(3));
    assert_eq!(template.render(&mut data).unwrap(), Some("[]".to_owned()));
}

#[test]
fn if_compares_strings() {
    let template = parse("{% if name == \"wat\" %}hit{% endif %}", Default::default()).unwrap();
    let mut data = Context::new();
    data.set_val("name", Value::Str("wat".to_owned()));
    assert_eq!(template.render(&mut data).unwrap(), Some("hit".to_owned()));
}

#[test]
fn if_orders_numbers() {
    let template = parse("{% if x < 10 %}small{% endif %}", Default::default()).unwrap();
    let mut data = Context::new();
    data.set_val("x", Value::Num(3));
    assert_eq!(template.render(&mut data).unwrap(), Some("small".to_owned()));
    let mut data = Context::new();
    data.set_val("x", Value::Num(30));
    assert_eq!(template.render(&mut data).unwrap(), Some(String::new()));
}

#[test]
fn if_single_term_uses_truthiness() {
    let template = parse("{% if x %}t{% endif %}", Default::default()).unwrap();
    let mut data = Context::new();
    data.set_val("x", Value::Bool(false));
    assert_eq!(template.render(&mut data).unwrap(), Some(String::new()));
    data.set_val("x", Value::Num(0));
    assert_eq!(template.render(&mut data).unwrap(), Some("t".to_owned()));
}

#[test]
fn failed_render_returns_only_an_error() {
    let template = parse("before {% for x in xs %}a{% endfor %} after", Default::default())
        .unwrap();
    let mut data = Context::new();
    let result = template.render(&mut data);
    assert!(result.is_err());
}

#[test]
fn unterminated_expression_fails_lexing() {
    match parse("text {{name", Default::default()) {
        Err(Error::Lexer(m)) => assert_eq!(m, "expression or tag opened but never closed"),
        other => panic!("expected a lexer error, got {:?}", other),
    }
}

#[test]
fn unterminated_string_literal_fails_lexing() {
    match parse("{% if x == \"wat %}y{% endif %}", Default::default()) {
        Err(Error::Lexer(m)) => assert_eq!(m, "string literal opened but never closed"),
        other => panic!("expected a lexer error, got {:?}", other),
    }
}

#[test]
fn oversized_number_literal_fails_lexing() {
    match parse("{% if x == 1234567890123456789012 %}y{% endif %}", Default::default()) {
        Err(Error::Lexer(m)) => assert_eq!(m, "number literal is too long"),
        other => panic!("expected a lexer error, got {:?}", other),
    }
}

#[test]
fn expression_with_pipeline_is_rejected() {
    match parse("{{ a | b }}", Default::default()) {
        Err(Error::Parser(m)) => assert_eq!(m, "expression must be a single identifier"),
        other => panic!("expected a parse error, got {:?}", other),
    }
}

#[test]
fn registered_tag_emits_its_text() {
    let mut options: LiquidOptions = Default::default();
    options
        .tags
        .insert("hello_world".to_owned(), TagKind::Emit("Hello World!".to_owned()));
    let template = parse("{% hello_world %}", options).unwrap();
    let mut data = Context::new();
    assert_eq!(template.render(&mut data).unwrap(), Some("Hello World!".to_owned()));
}

#[test]
fn builtins_overwrite_user_entries() {
    let mut options: LiquidOptions = Default::default();
    options
        .tags
        .insert("for".to_owned(), TagKind::Emit("hijacked".to_owned()));
    let template = parse("{% for x in xs %}{{x}}{% endfor %}", options).unwrap();
    let mut data = Context::new();
    data.set_val("xs", Value::Array(vec![Value::Num(1), Value::Num(2)]));
    assert_eq!(template.render(&mut data).unwrap(), Some("12".to_owned()));
}

#[test]
fn tokenize_splits_text_and_expressions() {
    let elements = tokenize("test {{name}} ").unwrap();
    assert_eq!(elements.len(), 3);
    match &elements[0] {
        Element::Text(t) => assert_eq!(t, "test "),
        other => panic!("expected text, got {:?}", other),
    }
    match &elements[1] {
        Element::Expression(tokens, raw) => {
            assert_eq!(raw, "{{name}}");
            assert_eq!(tokens.len(), 1);
            match &tokens[0] {
                Token::Identifier(n) => assert_eq!(n, "name"),
                other => panic!("expected an identifier, got {:?}", other),
            }
        }
        other => panic!("expected an expression, got {:?}", other),
    }
    match &elements[2] {
        Element::Text(t) => assert_eq!(t, " "),
        other => panic!("expected text, got {:?}", other),
    }
}

#[test]
fn values_compare_deeply() {
    let a = Value::Array(vec![Value::Num(1), Value::Str("x".to_owned())]);
    let b = Value::Array(vec![Value::Num(1), Value::Str("x".to_owned())]);
    let c = Value::Array(vec![Value::Num(1), Value::Str("y".to_owned())]);
    assert!(a.deep_eq(&b));
    assert!(!a.deep_eq(&c));
    assert!(!a.deep_eq(&Value::Nil));
}

#[test]
fn nested_same_named_blocks_match_their_ends() {
    let template = parse(
        "{% for x in xs %}({% for y in ys %}{{y}}{% endfor %}){% endfor %}",
        Default::default(),
    )
    .unwrap();
    let mut data = Context::new();
    data.set_val("xs", Value::Array(vec![Value::Num(1), Value::Num(2)]));
    data.set_val("ys", Value::Array(vec![Value::Num(7)]));
    assert_eq!(template.render(&mut data).unwrap(), Some("(7)(7)".to_owned()));
}

#[test]
fn user_registered_block_name_constructs_a_loop() {
    let mut options: LiquidOptions = Default::default();
    options
        .blocks
        .insert("loop".to_owned(), liquid::BlockKind::For);
    let template = parse("{% loop x in xs %}{{x}}.{% endloop %}", options).unwrap();
    let mut data = Context::new();
    data.set_val("xs", Value::Array(vec![Value::Num(4), Value::Num(5)]));
    assert_eq!(template.render(&mut data).unwrap(), Some("4.5.".to_owned()));
}

#[test]
fn interpolated_array_concatenates_its_elements() {
    let template = parse("{{xs}}", Default::default()).unwrap();
    let mut data = Context::new();
    data.set_val(
        "xs",
        Value::Array(vec![Value::Num(1), Value::Str("-".to_owned()), Value::Num(2)]),
    );
    assert_eq!(template.render(&mut data).unwrap(), Some("1-2".to_owned()));
}
