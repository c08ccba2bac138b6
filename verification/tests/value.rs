use custom_theme::schema::value::{clone_members, find, get, insert, Number, Value};

fn s(text: &str) -> Value {
    Value::String(text.to_string())
}

#[test]
fn numbers_from_integers() {
    assert_eq!(Number::from_i64(5), Number::PosInt(5));
    assert_eq!(Number::from_i64(0), Number::PosInt(0));
    assert_eq!(Number::from_i64(-5), Number::NegInt(-5));
    assert_eq!(Number::from_i64(i64::MAX), Number::PosInt(i64::MAX as u64));
    assert_eq!(Number::from_i64(i64::MIN), Number::NegInt(i64::MIN));
    assert_eq!(Value::from_i64(12), Value::Number(Number::PosInt(12)));
}

#[test]
fn integers_of_numbers() {
    assert_eq!(Number::PosInt(7).as_i64(), Some(7));
    assert_eq!(Number::NegInt(-7).as_i64(), Some(-7));
    assert_eq!(Number::PosInt(i64::MAX as u64).as_i64(), Some(i64::MAX));
    assert_eq!(Number::PosInt(i64::MAX as u64 + 1).as_i64(), None);
    assert_eq!(Number::PosInt(u64::MAX).as_i64(), None);
    assert_eq!(Number::Float("1.5".to_string()).as_i64(), None);
}

#[test]
fn integers_of_values() {
    assert_eq!(Value::from_i64(-3).as_i64(), Some(-3));
    assert_eq!(s("3").as_i64(), None);
    assert_eq!(Value::Null.as_i64(), None);
    assert_eq!(Value::Bool(true).as_i64(), None);
    assert_eq!(Value::Array(vec![Value::from_i64(1)]).as_i64(), None);
}

#[test]
fn texts_of_numbers() {
    assert_eq!(Number::PosInt(42).to_text(), "42");
    assert_eq!(Number::PosInt(0).to_text(), "0");
    assert_eq!(Number::NegInt(-42).to_text(), "-42");
    assert_eq!(Number::PosInt(u64::MAX).to_text(), "18446744073709551615");
    assert_eq!(Number::Float("2.5".to_string()).to_text(), "2.5");
}

#[test]
fn texts_become_values() {
    assert_eq!(Value::from_str("100%"), s("100%"));
    assert_eq!(Value::from_str(""), s(""));
}

#[test]
fn copies_are_deep() {
    let v = Value::Object(vec![
        ("a".to_string(), Value::Array(vec![Value::from_i64(1), s("x"), Value::Null])),
        (
            "b".to_string(),
            Value::Object(vec![("c".to_string(), Value::Bool(false))]),
        ),
        ("n".to_string(), Value::Number(Number::Float("0.5".to_string()))),
    ]);
    assert_eq!(v.clone(), v);
    let members = vec![("k".to_string(), v.clone())];
    assert_eq!(clone_members(&members), members);
    assert_eq!(Number::NegInt(-1).clone(), Number::NegInt(-1));
}

#[test]
fn finding_members() {
    let members = vec![
        ("a".to_string(), Value::from_i64(1)),
        ("b".to_string(), Value::from_i64(2)),
        ("a".to_string(), Value::from_i64(3)),
    ];
    assert_eq!(find(&members, "a"), 0);
    assert_eq!(find(&members, "b"), 1);
    assert_eq!(find(&members, "c"), 3);
    assert_eq!(find(&vec![], "a"), 0);
    assert_eq!(get(&members, "a"), Some(&Value::from_i64(1)));
    assert_eq!(get(&members, "b"), Some(&Value::from_i64(2)));
    assert_eq!(get(&members, "c"), None);
    assert_eq!(get(&members, ""), None);
}

#[test]
fn inserting_members() {
    let mut members = vec![
        ("a".to_string(), Value::from_i64(1)),
        ("b".to_string(), Value::from_i64(2)),
    ];
    insert(&mut members, "c", Value::from_i64(3));
    assert_eq!(
        members,
        vec![
            ("a".to_string(), Value::from_i64(1)),
            ("b".to_string(), Value::from_i64(2)),
            ("c".to_string(), Value::from_i64(3)),
        ]
    );
    insert(&mut members, "a", s("new"));
    assert_eq!(
        members,
        vec![
            ("a".to_string(), s("new")),
            ("b".to_string(), Value::from_i64(2)),
            ("c".to_string(), Value::from_i64(3)),
        ]
    );
    let mut none: Vec<(String, Value)> = vec![];
    insert(&mut none, "k", Value::Null);
    assert_eq!(none, vec![("k".to_string(), Value::Null)]);
}

#[test]
fn an_integer_has_one_form() {
    for v in [i64::MIN, -2, -1, 0, 1, 2, i64::MAX] {
        let n = Number::from_i64(v);
        match n {
            Number::NegInt(held) => assert!(held < 0 && held == v),
            Number::PosInt(held) => assert!(v >= 0 && held == v as u64),
            Number::Float(_) => panic!("an integer is no other number"),
        }
        assert_eq!(n.clone(), n);
        assert_eq!(n.as_i64(), Some(v));
    }
    assert_eq!(Number::from_i64(5), Number::PosInt(5));
    assert_ne!(Number::from_i64(5), Number::NegInt(5));
}
