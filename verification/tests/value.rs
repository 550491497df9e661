use clauser::error::{Error, ErrorType};
use clauser::types::{Date, ObjectKey};
use clauser::value::Value;

pub fn single_equal(source: &str, expected: Value<'static>, desc: &str) -> Result<(), Error> {
    assert_eq!(
        Value::from_str(source)?,
        Value::Object(vec![("val".into(), expected)]),
        "{}",
        desc
    );

    Ok(())
}

#[test]
pub fn parse_primitives() -> Result<(), Error> {
    single_equal("val = 123", Value::Integer(123), "integer parsing")?;
    single_equal("val = 1.23", Value::Decimal("1.23".into()), "decimal parsing")?;
    match Value::from_str("val = 1.23")? {
        Value::Object(entries) => match &entries[0].1 {
            Value::Decimal(text) => assert_eq!(text.parse::<f64>().unwrap(), 1.23),
            other => panic!("expected a decimal, got {:?}", other),
        },
        other => panic!("expected an object, got {:?}", other),
    }
    single_equal(
        "val = \"test\"",
        Value::String("test".into()),
        "string parsing",
    )?;
    single_equal(
        "val = test",
        Value::Identifier("test".into()),
        "identifier parsing",
    )?;
    single_equal("val = yes", Value::Boolean(true), "boolean parsing")?;

    Ok(())
}

#[test]
pub fn parse_arrays() -> Result<(), Error> {
    single_equal("val = { }", Value::Array(vec![]), "empty array")?;
    single_equal(
        "val = { 0 1 }",
        Value::Array(vec![Value::Integer(0), Value::Integer(1)]),
        "simple array",
    )?;

    single_equal(
        "val = { { 0 } { 1 } }",
        Value::Array(vec![
            Value::Array(vec![Value::Integer(0)]),
            Value::Array(vec![Value::Integer(1)]),
        ]),
        "nested array",
    )?;

    Ok(())
}

#[test]
pub fn parse_objects() -> Result<(), Error> {
    single_equal(
        "val = { a = 1 b = 2 }",
        Value::Object(vec![
            ("a".into(), Value::Integer(1)),
            ("b".into(), Value::Integer(2)),
        ]),
        "simple object",
    )?;
    single_equal(
        "val = { a = 1 b = test }",
        Value::Object(vec![
            ("a".into(), Value::Integer(1)),
            ("b".into(), Value::Identifier("test".into())),
        ]),
        "multiple object field types",
    )?;
    single_equal(
        "val = { a = { 0 } b = { c = no } }",
        Value::Object(vec![
            ("a".into(), Value::Array(vec![Value::Integer(0)])),
            (
                "b".into(),
                Value::Object(vec![("c".into(), Value::Boolean(false))]),
            ),
        ]),
        "multiple object field types",
    )?;

    Ok(())
}

#[test]
pub fn value_dates() -> Result<(), Error> {
    single_equal(
        "val = 1940.1.1.15",
        Value::Date(Date::new(1940, 1, 1, 15)),
        "date parsing",
    )?;
    single_equal(
        "val = 4891.1312310.0099.1000090",
        Value::Date(Date::new(4891, 1312310, 99, 1000090)),
        "long date parsing",
    )?;
    single_equal(
        "val = { 2003.1.1 = { 0 } 1902.12.3 = { test = a test2 = b } }",
        Value::Object(vec![
            (
                Date::new(2003, 1, 1, 0).into(),
                Value::Array(vec![Value::Integer(0)]),
            ),
            (
                Date::new(1902, 12, 3, 0).into(),
                Value::Object(vec![
                    ("test".into(), Value::Identifier("a".into())),
                    ("test2".into(), Value::Identifier("b".into())),
                ]),
            ),
        ]),
        "dates as keys",
    )?;

    Ok(())
}

#[test]
fn objects_keep_order_and_repeated_keys() {
    let value = Value::from_str("b = 1 a = 2 b = 3 a = { z = 1 z = 2 } b = { 3 1 2 1 }").unwrap();
    assert_eq!(
        value,
        Value::Object(vec![
            ("b".into(), Value::Integer(1)),
            ("a".into(), Value::Integer(2)),
            ("b".into(), Value::Integer(3)),
            (
                "a".into(),
                Value::Object(vec![
                    ("z".into(), Value::Integer(1)),
                    ("z".into(), Value::Integer(2)),
                ])
            ),
            (
                "b".into(),
                Value::Array(vec![
                    Value::Integer(3),
                    Value::Integer(1),
                    Value::Integer(2),
                    Value::Integer(1),
                ])
            ),
        ])
    );
}

#[test]
fn a_collection_that_the_text_does_not_close() {
    for source in ["val = { {", "val = { 1 { a", "val = { a = {", "val = {"] {
        let error = Value::from_str(source).unwrap_err();
        assert_eq!(error.error_type, ErrorType::UnexpectedTokenError, "{}", source);
    }
    let error = Value::from_str("val = { 1 2").unwrap_err();
    assert_eq!(error.error_type, ErrorType::UnexpectedTokenError);
    assert_eq!(error.position, 10);
}

#[test]
fn errors_of_the_value_tree() {
    let error = Value::from_str("val = 9223372036854775808").unwrap_err();
    assert_eq!(error.error_type, ErrorType::InvalidNumberError);
    assert_eq!(error.position, 6);
    let error = Value::from_str("val = 1.2.99999999999").unwrap_err();
    assert_eq!(error.error_type, ErrorType::InvalidNumberError);
    assert_eq!(error.position, 10);
    let error = Value::from_str("val = ").unwrap_err();
    assert_eq!(error.error_type, ErrorType::UnexpectedTokenError);
    assert_eq!(
        Value::from_str("a = 1 } b = 2").unwrap(),
        Value::Object(vec![(ObjectKey::from("a"), Value::Integer(1))])
    );
    let error = Value::from_str("a = ?").unwrap_err();
    assert_eq!(error.error_type, ErrorType::TokenizerError);
    assert_eq!(error.position, 4);
    assert_eq!(Value::from_str("").unwrap(), Value::Object(vec![]));
    assert_eq!(
        Value::from_str("k = -5").unwrap(),
        Value::Object(vec![(ObjectKey::from("k"), Value::Integer(-5))])
    );
}
