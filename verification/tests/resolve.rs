use custom_theme::schema::ast::AstNode;
use custom_theme::schema::ctx::ThemeContext;
use custom_theme::schema::value::{Number, Value};
use custom_theme::transform::resolve::{
    deep_resolve_value, replace_inline_tokens, replace_variables, resolve_members,
    resolve_smart_value,
};

fn s(text: &str) -> Value {
    Value::String(text.to_string())
}

fn ctx_with(vars: Vec<(&str, Value)>) -> ThemeContext {
    let mut ctx = ThemeContext::load();
    ctx.variables = vars.into_iter().map(|(k, v)| (k.to_string(), v)).collect();
    ctx
}

fn bare() -> AstNode {
    AstNode {
        id: None,
        nt: None,
        class_list: None,
        inline_style: None,
        props: None,
        children: None,
        consume: None,
        actions: None,
        hooks: None,
    }
}

#[test]
fn fresh_context() {
    let ctx = ThemeContext::load();
    assert_eq!(ctx.id_idx, 0);
    assert!(ctx.err_list.is_empty());
    assert!(ctx.variables.is_empty());
}

#[test]
fn pure_reference_keeps_the_type() {
    let ctx = ctx_with(vec![("x", Value::Number(Number::PosInt(42)))]);
    let mut n = bare();
    n.props = Some(vec![("w".to_string(), s("$x"))]);
    replace_variables(&mut n, &ctx);
    assert_eq!(
        n.props,
        Some(vec![("w".to_string(), Value::Number(Number::PosInt(42)))])
    );
    assert_ne!(n.props, Some(vec![("w".to_string(), s("42"))]));
}

#[test]
fn pure_reference_to_any_value() {
    let list = Value::Array(vec![Value::Bool(true), Value::Null]);
    let ctx = ctx_with(vec![
        ("flag", Value::Bool(false)),
        ("list", list.clone()),
        ("none", Value::Null),
        ("ratio", Value::Number(Number::Float("0.25".to_string()))),
    ]);
    assert_eq!(resolve_smart_value("$flag", &ctx), Value::Bool(false));
    assert_eq!(resolve_smart_value("$list", &ctx), list);
    assert_eq!(resolve_smart_value("$none", &ctx), Value::Null);
    assert_eq!(
        resolve_smart_value("$ratio", &ctx),
        Value::Number(Number::Float("0.25".to_string()))
    );
}

#[test]
fn mixed_text_is_always_text() {
    let ctx = ctx_with(vec![("color", s("red"))]);
    assert_eq!(
        resolve_smart_value("1px solid $color", &ctx),
        s("1px solid red")
    );
    assert_eq!(replace_inline_tokens("1px solid $color", &ctx), "1px solid red");
}

#[test]
fn numbers_and_booleans_become_text_inside_text() {
    let ctx = ctx_with(vec![
        ("n", Value::Number(Number::PosInt(3))),
        ("m", Value::Number(Number::NegInt(-4))),
        ("f", Value::Number(Number::Float("1.5".to_string()))),
        ("yes", Value::Bool(true)),
        ("off", Value::Bool(false)),
    ]);
    assert_eq!(
        replace_inline_tokens("a $n b $m c $f d $yes e $off", &ctx),
        "a 3 b -4 c 1.5 d true e false"
    );
    assert_eq!(resolve_smart_value("$n px", &ctx), s("3 px"));
}

#[test]
fn other_values_become_nothing_inside_text() {
    let ctx = ctx_with(vec![
        ("null", Value::Null),
        ("list", Value::Array(vec![Value::from_i64(1)])),
        ("obj", Value::Object(vec![])),
    ]);
    assert_eq!(replace_inline_tokens("[$null] [$list] [$obj]", &ctx), "[] [] []");
}

#[test]
fn unknown_names_stay_as_they_are() {
    let ctx = ctx_with(vec![("known", s("v"))]);
    assert_eq!(resolve_smart_value("$unknown", &ctx), s("$unknown"));
    assert_eq!(
        resolve_smart_value("a $unknown b", &ctx),
        s("a $unknown b")
    );
    assert_eq!(resolve_smart_value("plain", &ctx), s("plain"));
    assert_eq!(resolve_smart_value("", &ctx), s(""));
    assert_eq!(resolve_smart_value("$", &ctx), s("$"));
}

#[test]
fn a_reference_holds_no_blank() {
    let ctx = ctx_with(vec![("x", Value::from_i64(1)), ("x y", Value::from_i64(2))]);
    assert_eq!(resolve_smart_value("$x", &ctx), Value::from_i64(1));
    assert_eq!(resolve_smart_value("$x y", &ctx), s("2"));
    assert_eq!(resolve_smart_value("$x z", &ctx), s("1 z"));
    assert_eq!(resolve_smart_value(" $x", &ctx), s(" 1"));
}

#[test]
fn the_longest_name_behind_a_dollar_sign_is_referred_to() {
    let first = ctx_with(vec![("a", s("X")), ("ab", s("Y"))]);
    assert_eq!(replace_inline_tokens("w-$ab", &first), "w-Y");
    assert_eq!(replace_inline_tokens("w-$a", &first), "w-X");
    assert_eq!(replace_inline_tokens("w-$ac", &first), "w-Xc");
    assert_eq!(replace_inline_tokens("$ab$a $a$ab", &first), "YX XY");
    let second = ctx_with(vec![("ab", s("Y")), ("a", s("X"))]);
    assert_eq!(replace_inline_tokens("w-$ab", &second), "w-Y");
    assert_eq!(replace_inline_tokens("w-$a", &second), "w-X");
    assert_eq!(replace_inline_tokens("w-$ac", &second), "w-Xc");
    assert_eq!(replace_inline_tokens("$ab$a $a$ab", &second), "YX XY");
}

#[test]
fn a_known_name_is_resolved_whatever_follows_it() {
    let ctx = ctx_with(vec![("ab", s("Y"))]);
    assert_eq!(replace_inline_tokens("$abc", &ctx), "Yc");
    assert_eq!(replace_inline_tokens("x $abc y $ab", &ctx), "x Yc y Y");
    assert_eq!(replace_inline_tokens("$a $ab_ $ab1 $_ab", &ctx), "$a Y_ Y1 $_ab");
    assert_eq!(resolve_smart_value("$abc", &ctx), s("Yc"));
    assert_eq!(resolve_smart_value("$ab", &ctx), s("Y"));
}

#[test]
fn a_name_may_hold_any_character() {
    let ctx = ctx_with(vec![
        ("a-b", s("red")),
        ("主色", s("blue")),
        ("w 2", s("8")),
        ("a", s("A")),
        ("$", s("dollar")),
    ]);
    assert_eq!(replace_inline_tokens("t-$a-b", &ctx), "t-red");
    assert_eq!(replace_inline_tokens("t-$a-c", &ctx), "t-A-c");
    assert_eq!(replace_inline_tokens("bg-$主色-500", &ctx), "bg-blue-500");
    assert_eq!(replace_inline_tokens("($w 2)px", &ctx), "(8)px");
    assert_eq!(replace_inline_tokens("$$", &ctx), "dollar");
    assert_eq!(replace_inline_tokens("$$a", &ctx), "dollara");
    assert_eq!(resolve_smart_value("$a-b", &ctx), s("red"));
    assert_eq!(resolve_smart_value("$主色", &ctx), s("blue"));
    assert_eq!(resolve_smart_value("x$主色", &ctx), s("xblue"));
}

#[test]
fn a_dollar_sign_behind_which_no_name_stands_stays() {
    let ctx = ctx_with(vec![("a", s("X"))]);
    assert_eq!(replace_inline_tokens("$", &ctx), "$");
    assert_eq!(replace_inline_tokens("5$ $ $-", &ctx), "5$ $ $-");
    assert_eq!(replace_inline_tokens("$$a", &ctx), "$X");
    assert_eq!(replace_inline_tokens("$a$", &ctx), "X$");
    assert_eq!(replace_inline_tokens("$nope $A", &ctx), "$nope $A");
    let none = ctx_with(vec![]);
    assert_eq!(replace_inline_tokens("$a $b", &none), "$a $b");
}

#[test]
fn the_empty_name_stands_behind_every_dollar_sign() {
    let ctx = ctx_with(vec![("", s("E")), ("a", s("X"))]);
    assert_eq!(replace_inline_tokens("$", &ctx), "E");
    assert_eq!(replace_inline_tokens("$a $b $", &ctx), "X Eb E");
}

#[test]
fn the_text_put_in_is_not_read_again() {
    let chained = ctx_with(vec![("a", s("$b")), ("b", s("c"))]);
    assert_eq!(replace_inline_tokens("x $a", &chained), "x $b");
    assert_eq!(replace_inline_tokens("$a$b", &chained), "$bc");
    let unchained = ctx_with(vec![("b", s("c")), ("a", s("$b"))]);
    assert_eq!(replace_inline_tokens("x $a", &unchained), "x $b");
    let glued = ctx_with(vec![("a", s("$")), ("b", s("c"))]);
    assert_eq!(replace_inline_tokens("$a b", &glued), "$ b");
    assert_eq!(replace_inline_tokens("$ab", &glued), "$b");
    let spelled = ctx_with(vec![("ab", s("x")), ("c", s("ab"))]);
    assert_eq!(replace_inline_tokens("$$c", &spelled), "$ab");
}

#[test]
fn the_first_of_two_variables_of_one_name_is_referred_to() {
    let ctx = ctx_with(vec![("a", Value::from_i64(1)), ("a", Value::from_i64(2))]);
    assert_eq!(resolve_smart_value("$a", &ctx), Value::from_i64(1));
}

#[test]
fn values_are_resolved_at_any_depth() {
    let ctx = ctx_with(vec![("x", Value::from_i64(7)), ("c", s("red"))]);
    let mut v = Value::Object(vec![
        (
            "$x".to_string(),
            Value::Array(vec![s("$x"), s("is $c"), Value::Bool(true), Value::Null]),
        ),
        (
            "deep".to_string(),
            Value::Object(vec![(
                "er".to_string(),
                Value::Array(vec![Value::Array(vec![s("$c")])]),
            )]),
        ),
        ("n".to_string(), Value::from_i64(1)),
    ]);
    deep_resolve_value(&mut v, &ctx);
    assert_eq!(
        v,
        Value::Object(vec![
            (
                "$x".to_string(),
                Value::Array(vec![
                    Value::from_i64(7),
                    s("is red"),
                    Value::Bool(true),
                    Value::Null
                ]),
            ),
            (
                "deep".to_string(),
                Value::Object(vec![(
                    "er".to_string(),
                    Value::Array(vec![Value::Array(vec![s("red")])]),
                )]),
            ),
            ("n".to_string(), Value::from_i64(1)),
        ])
    );
}

#[test]
fn members_are_resolved_by_value() {
    let ctx = ctx_with(vec![("x", Value::from_i64(7))]);
    let mut members = vec![("$x".to_string(), s("$x")), ("k".to_string(), s("k$x"))];
    resolve_members(&mut members, &ctx);
    assert_eq!(
        members,
        vec![
            ("$x".to_string(), Value::from_i64(7)),
            ("k".to_string(), s("k7"))
        ]
    );
}

#[test]
fn a_node_has_its_classes_style_and_props_resolved() {
    let ctx = ctx_with(vec![("tone", s("red")), ("w", Value::from_i64(3))]);
    let mut child = bare();
    child.class_list = Some(vec!["$tone".to_string()]);
    let mut n = bare();
    n.class_list = Some(vec!["bg-$tone".to_string(), "$w".to_string(), "p-1".to_string()]);
    n.inline_style = Some(vec![("width".to_string(), s("$w"))]);
    n.props = Some(vec![("span".to_string(), s("$w")), ("t".to_string(), s("$tone!"))]);
    n.hooks = Some(vec!["$tone".to_string()]);
    n.consume = Some(vec!["$tone".to_string()]);
    n.children = Some(vec![child]);
    replace_variables(&mut n, &ctx);
    assert_eq!(
        n.class_list,
        Some(vec!["bg-red".to_string(), "3".to_string(), "p-1".to_string()])
    );
    assert_eq!(
        n.inline_style,
        Some(vec![("width".to_string(), Value::from_i64(3))])
    );
    assert_eq!(
        n.props,
        Some(vec![
            ("span".to_string(), Value::from_i64(3)),
            ("t".to_string(), s("red!"))
        ])
    );
    assert_eq!(n.hooks, Some(vec!["$tone".to_string()]));
    assert_eq!(n.consume, Some(vec!["$tone".to_string()]));
    let kids = n.children.expect("the child stays");
    assert_eq!(kids[0].class_list, Some(vec!["$tone".to_string()]));
}
