use clauser::error::ErrorType;
use clauser::reader::Reader;
use clauser::token::TokenType;
use clauser::types::{CollectionType, Date, ObjectKey, RealType};

#[test]
fn depth_follows_the_brackets() {
    let mut reader = Reader::new("{ { } }");
    assert!(reader.is_root_level());
    reader.begin_collection().unwrap();
    reader.begin_collection().unwrap();
    assert_eq!(reader.current_depth(), 2);
    reader.end_collection().unwrap();
    reader.end_collection().unwrap();
    assert_eq!(reader.current_depth(), 0);
    assert!(reader.is_root_level());
    assert!(reader.is_collection_ended().unwrap());
}

#[test]
fn leaving_at_the_top_level_is_a_depth_mismatch() {
    let mut reader = Reader::new("}");
    let error = reader.end_collection().unwrap_err();
    assert_eq!(error.error_type, ErrorType::DepthMismatchError);
    assert_eq!(error.position, 0);
}

#[test]
fn next_property_reads_key_and_equals() {
    let mut reader = Reader::new("name = \"x\" 1940.1.1 = { } }");
    let (key, real_type) = reader.next_property().unwrap().unwrap();
    assert_eq!(key, ObjectKey::Identifier("name".into()));
    assert_eq!(real_type, RealType::String);
    assert_eq!(reader.current_position(), 6);
    assert_eq!(reader.read_string().unwrap(), "x");
    let (key, real_type) = reader.next_property().unwrap().unwrap();
    assert_eq!(key, ObjectKey::Date(Date::new(1940, 1, 1, 0)));
    assert_eq!(real_type, RealType::ObjectOrArray);
    reader.begin_collection().unwrap();
    assert!(reader.next_property().unwrap().is_none());
    reader.end_collection().unwrap();
    // a `}` ends the properties outside of a collection too
    assert!(reader.next_property().unwrap().is_none());
    assert_eq!(reader.current_position(), 25);
    assert!(reader.is_root_level());
}

#[test]
fn next_property_needs_a_value() {
    let mut reader = Reader::new("a =");
    let error = reader.next_property().unwrap_err();
    assert_eq!(error.error_type, ErrorType::UnexpectedTokenError);
    assert_eq!(error.position, 2);
    let mut reader = Reader::new("{ a");
    reader.begin_collection().unwrap();
    assert_eq!(
        reader.next_property().unwrap_err().error_type,
        ErrorType::UnexpectedTokenError
    );
    let mut reader = Reader::new("12 = a");
    let error = reader.next_property().unwrap_err();
    assert_eq!(error.error_type, ErrorType::UnexpectedTokenError);
    assert_eq!(error.position, 0);
}

#[test]
fn discern_looks_behind_the_bracket() {
    let cases = [
        ("{}", Some(CollectionType::Array)),
        ("{ a = 1 }", Some(CollectionType::Object)),
        ("{ 1940.1.1 = x }", Some(CollectionType::Object)),
        ("{ a b }", Some(CollectionType::Array)),
        ("{ 1 2 }", Some(CollectionType::Array)),
        ("{ { } }", Some(CollectionType::Array)),
        ("{", None),
        ("{ a", None),
        ("", None),
    ];
    for (source, expected) in cases {
        let mut reader = Reader::new(source);
        assert_eq!(reader.try_discern_array_or_map().unwrap(), expected, "{}", source);
        assert_eq!(reader.current_position(), 0);
    }
    let mut reader = Reader::new("a = 1");
    let error = reader.try_discern_array_or_map().unwrap_err();
    assert_eq!(error.error_type, ErrorType::UnexpectedTokenError);
    assert_eq!(error.position, 0);
    assert_eq!(reader.current_position(), 0);
}

#[test]
fn stringlike_may_be_empty_behind_equals() {
    let mut reader = Reader::new("a =\n b = c d = }");
    reader.expect_token(TokenType::Identifier).unwrap();
    reader.expect_token(TokenType::Equals).unwrap();
    assert_eq!(reader.read_stringlike().unwrap(), "");
    assert_eq!(reader.current_position(), 3);
    reader.expect_token(TokenType::Identifier).unwrap();
    reader.expect_token(TokenType::Equals).unwrap();
    assert_eq!(reader.read_stringlike().unwrap(), "c");
    reader.expect_token(TokenType::Identifier).unwrap();
    reader.expect_token(TokenType::Equals).unwrap();
    let error = reader.read_stringlike().unwrap_err();
    assert_eq!(error.error_type, ErrorType::UnexpectedTokenError);
    assert_eq!(error.position, 14);

    let mut reader = Reader::new("{ d = }");
    reader.begin_collection().unwrap();
    reader.expect_token(TokenType::Identifier).unwrap();
    reader.expect_token(TokenType::Equals).unwrap();
    assert_eq!(reader.read_stringlike().unwrap(), "");
    reader.end_collection().unwrap();

    let mut reader = Reader::new("a =");
    reader.expect_token(TokenType::Identifier).unwrap();
    reader.expect_token(TokenType::Equals).unwrap();
    assert_eq!(reader.read_stringlike().unwrap(), "");
    assert_eq!(Reader::new("").read_stringlike().unwrap_err().error_type, ErrorType::UnexpectedTokenError);
    assert_eq!(Reader::new("12").read_stringlike().unwrap_err().error_type, ErrorType::UnexpectedTokenError);
}

#[test]
fn next_value_is_empty_before_identifier_bracket_and_end() {
    assert!(Reader::new("next = 1").is_next_value_empty().unwrap());
    assert!(Reader::new("}").is_next_value_empty().unwrap());
    assert!(Reader::new("  # nothing").is_next_value_empty().unwrap());
    assert!(!Reader::new("12").is_next_value_empty().unwrap());
    assert!(!Reader::new("\"s\"").is_next_value_empty().unwrap());
    assert!(!Reader::new("{ }").is_next_value_empty().unwrap());
}

#[test]
fn peeking_a_string_keeps_the_cursor() {
    let mut reader = Reader::new(" \"tag\" rest");
    assert_eq!(reader.peek_expected_string().unwrap(), "tag");
    assert_eq!(reader.current_position(), 0);
    assert_eq!(reader.read_string().unwrap(), "tag");
    assert_eq!(reader.current_position(), 6);
    assert_eq!(
        reader.peek_expected_string().unwrap_err().error_type,
        ErrorType::UnexpectedTokenError
    );
}

#[test]
fn numbers_of_each_width() {
    assert_eq!(Reader::new("-193").read_number::<i32>().unwrap(), -193);
    assert_eq!(Reader::new("255").read_number::<u8>().unwrap(), 255);
    assert_eq!(Reader::new("-128").read_number::<i8>().unwrap(), -128);
    assert_eq!(
        Reader::new("-9223372036854775808").read_number::<i64>().unwrap(),
        i64::MIN
    );
    assert_eq!(
        Reader::new("18446744073709551615").read_number::<u64>().unwrap(),
        u64::MAX
    );
    assert_eq!(Reader::new("-0").read_number::<i16>().unwrap(), 0);
    for source in ["256", "-1", "-0", "1.0"] {
        let error = Reader::new(source).read_number::<u8>().unwrap_err();
        assert_eq!(error.error_type, ErrorType::InvalidNumberError, "{}", source);
        assert_eq!(error.position, 0);
    }
    let error = Reader::new("  18446744073709551616").read_number::<u64>().unwrap_err();
    assert_eq!(error.error_type, ErrorType::InvalidNumberError);
    assert_eq!(error.position, 2);
    assert_eq!(
        Reader::new("9223372036854775808").read_number::<i64>().unwrap_err().error_type,
        ErrorType::InvalidNumberError
    );
    assert_eq!(
        Reader::new("yes").read_number::<i64>().unwrap_err().error_type,
        ErrorType::UnexpectedTokenError
    );
    let reader = Reader::new("");
    assert_eq!(reader.parse_number::<i32>("+17").unwrap(), 17);
    assert!(reader.parse_number::<i32>("").is_err());
    assert!(reader.parse_number::<i32>("-").is_err());
    assert!(reader.parse_number::<i32>("1a").is_err());
}

#[test]
fn booleans_and_dates() {
    assert!(Reader::new("yes").read_boolean().unwrap());
    assert!(!Reader::new("no").read_boolean().unwrap());
    assert_eq!(
        Reader::new("1").read_boolean().unwrap_err().error_type,
        ErrorType::UnexpectedTokenError
    );
    assert_eq!(
        Reader::new("1033.08.2.30").read_date().unwrap(),
        Date::new(1033, 8, 2, 30)
    );
    assert_eq!(
        Reader::new("1.1.99999999999").read_date().unwrap_err().error_type,
        ErrorType::InvalidNumberError
    );
}

#[test]
fn array_values_and_types() {
    let mut reader = Reader::new("1 }");
    assert_eq!(reader.next_array_value().unwrap(), Some(RealType::Number));
    assert_eq!(reader.peek_next_type().unwrap(), Some(RealType::Number));
    assert_eq!(reader.read_number_as_str().unwrap(), "1");
    assert_eq!(reader.next_array_value().unwrap(), None);
    assert_eq!(
        reader.peek_next_type().unwrap_err().error_type,
        ErrorType::UnexpectedTokenError
    );
    assert_eq!(Reader::new("").peek_next_type().unwrap(), None);
    assert_eq!(
        Reader::new("").peek_next_type_expect().unwrap_err().error_type,
        ErrorType::UnexpectedTokenError
    );
    assert_eq!(
        Reader::new("= 1").next_array_value().unwrap_err().error_type,
        ErrorType::UnexpectedTokenError
    );
    assert_eq!(
        RealType::from_token_type(&TokenType::OpenBracket),
        Some(RealType::ObjectOrArray)
    );
    assert_eq!(RealType::from_token_type(&TokenType::GreaterThan), None);
}

#[test]
fn unexpected_tokens_say_where() {
    let mut reader = Reader::new("  abc");
    let error = reader.expect_tokens(&[TokenType::Number, TokenType::Date]).unwrap_err();
    assert_eq!(error.error_type, ErrorType::UnexpectedTokenError);
    assert_eq!(error.position, 2);
    assert_eq!(
        error.message,
        "unexpected token type Identifier, expected Number or Date"
    );
    assert_eq!(reader.current_position(), 5);
    let error = reader.expect_token(TokenType::Equals).unwrap_err();
    assert_eq!(error.position, 4);
}
