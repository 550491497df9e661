use std::borrow::Cow;

use clauser::error::{Error, ErrorContext, ErrorContextProvider, ErrorType};
use clauser::number::decimal_text;
use clauser::reader::Reader;
use clauser::schema::Schema;
use clauser::token::{Token, TokenType};
use clauser::tokenizer::Tokenizer;
use clauser::types::{Date, ObjectKey};
use clauser::util::maybe_owned::{as_str, MaybeOwned, MaybeOwnedString};
use clauser::value::Value;

#[test]
fn dates_come_back_from_their_integer() {
    for date in [
        Date::new(0, 0, 0, 0),
        Date::new(1940, 1, 1, 18),
        Date::new(u32::MAX, 0, u32::MAX, 1),
        Date::new(u32::MAX, u32::MAX, u32::MAX, u32::MAX),
    ] {
        assert_eq!(Date::from_u128(date.to_u128()), date);
        assert_eq!(Date::from(u128::from(date)), date);
    }
    for value in [0u128, 1, 1 << 32, (1 << 64) + 5, u128::MAX] {
        assert_eq!(Date::from_u128(value).to_u128(), value);
    }
}

#[test]
fn the_integer_of_a_date_has_the_years_lowest() {
    assert_eq!(Date::new(1, 0, 0, 0).to_u128(), 1);
    assert_eq!(Date::new(0, 1, 0, 0).to_u128(), 1 << 32);
    assert_eq!(Date::new(0, 0, 1, 0).to_u128(), 1 << 64);
    assert_eq!(Date::new(0, 0, 0, 1).to_u128(), 1 << 96);
    assert_eq!(
        Date::new(1940, 1, 1, 18).to_u128(),
        1940 + (1u128 << 32) + (1u128 << 64) + (18u128 << 96)
    );
    assert_eq!(Date::from_u128((7 << 96) + 3), Date::new(3, 0, 0, 7));
}

#[test]
fn dates_convert_to_and_from_their_fields() {
    let date = Date::from([1933, 11, 4, 0]);
    assert_eq!(date, Date::new(1933, 11, 4, 0));
    assert_eq!(<[u32; 4]>::from(date), [1933, 11, 4, 0]);
    assert_eq!(<(u32, u32, u32, u32)>::from(date), (1933, 11, 4, 0));
}

#[test]
fn dates_are_ordered_field_by_field() {
    assert!(Date::new(1939, 12, 31, 23) < Date::new(1940, 1, 1, 0));
    assert!(Date::new(1940, 1, 1, 0) < Date::new(1940, 1, 1, 1));
    assert!(Date::new(1940, 13, 0, 0) > Date::new(1940, 12, 99, 99));
    assert!(Date::new(2, 0, 0, 0) > Date::new(1, u32::MAX, u32::MAX, u32::MAX));
    assert_eq!(
        Date::new(1, 2, 3, 4).partial_cmp(&Date::new(1, 2, 3, 4)),
        Some(std::cmp::Ordering::Equal)
    );
    let mut dates = vec![Date::new(3, 0, 0, 0), Date::new(1, 5, 0, 0), Date::new(1, 2, 9, 0)];
    dates.sort();
    assert_eq!(
        dates,
        vec![Date::new(1, 2, 9, 0), Date::new(1, 5, 0, 0), Date::new(3, 0, 0, 0)]
    );
}

#[test]
fn keys_from_texts_and_dates() {
    assert_eq!(ObjectKey::from("name"), ObjectKey::Identifier(Cow::Borrowed("name")));
    assert_eq!(
        ObjectKey::from(String::from("name")),
        ObjectKey::Identifier(Cow::Borrowed("name"))
    );
    assert_eq!(
        ObjectKey::from(Date::new(1, 2, 3, 4)),
        ObjectKey::Date(Date::new(1, 2, 3, 4))
    );
    let key = ObjectKey::from("borrowed");
    assert_eq!(key.to_owned(), key);
    assert!(matches!(key.to_owned(), ObjectKey::Identifier(Cow::Owned(_))));
    assert!(matches!(key.clone(), ObjectKey::Identifier(Cow::Borrowed(_))));
}

#[test]
fn owned_values_are_the_same_values() {
    let owned = {
        let source = String::from("a = { b = \"text\" c = { 1 2.5 yes 1.2.3 id } } a = 4");
        let value = Value::from_str(&source).unwrap();
        assert_eq!(value.clone(), value);
        let owned = value.to_owned();
        assert_eq!(owned, value);
        owned
    };
    match &owned {
        Value::Object(entries) => {
            assert_eq!(entries.len(), 2);
            assert_eq!(entries[0].0, ObjectKey::from("a"));
            assert_eq!(entries[1], (ObjectKey::from("a"), Value::Integer(4)));
            match &entries[0].1 {
                Value::Object(inner) => {
                    assert_eq!(inner[0].1, Value::String("text".into()));
                    assert!(matches!(&inner[0].1, Value::String(Cow::Owned(_))));
                }
                other => panic!("expected an object, got {:?}", other),
            }
        }
        other => panic!("expected an object, got {:?}", other),
    }
}

#[test]
fn tokens_say_what_they_are() {
    assert_eq!(
        Token::new(TokenType::Identifier, 12, 5).describe(),
        "token type Identifier at pos 12, length 5"
    );
    assert_eq!(
        Token::new(TokenType::GreaterThanEq, 0, 2).describe(),
        "token type GreaterThanEq at pos 0, length 2"
    );
    assert_eq!(TokenType::ExistenceCheck.name(), "ExistenceCheck");
    assert_eq!(decimal_text(0), "0");
    assert_eq!(decimal_text(9), "9");
    assert_eq!(decimal_text(10), "10");
    assert_eq!(decimal_text(4096), "4096");
    assert_eq!(decimal_text(usize::MAX), usize::MAX.to_string());
}

#[test]
fn context_is_centred_on_the_line_of_the_error() {
    let text = "one\ntwo\nthree\nfour\nfive\nsix";
    let context = ErrorContext::from_source(text, 10, 3);
    assert_eq!(context.position, 10);
    assert_eq!(context.line, 3);
    assert_eq!(context.column, 2);
    assert_eq!(context.start, 4);
    assert_eq!(context.end, 18);
    assert_eq!(context.lines, "two\nthree\nfour");
    let context = ErrorContext::from_source(text, 10, 1);
    assert_eq!(context.lines, "three");
    let context = ErrorContext::from_source(text, 10, 2);
    assert_eq!(context.lines, "three\nfour");
    let context = ErrorContext::from_source(text, 10, 0);
    assert_eq!(context.lines, "");
    assert_eq!((context.start, context.end), (8, 8));
    let context = ErrorContext::from_source(text, 0, 5);
    assert_eq!(context.lines, "one\ntwo\nthree");
    assert_eq!((context.line, context.column), (1, 0));
    let context = ErrorContext::from_source(text, 1000, 5);
    assert_eq!(context.position, 26);
    assert_eq!(context.lines, "four\nfive\nsix");
    assert_eq!((context.line, context.column), (6, 2));
    let context = ErrorContext::from_source(text, 7, 1);
    assert_eq!(context.lines, "two");
    assert_eq!((context.line, context.column), (2, 3));
    let context = ErrorContext::from_source("", 3, 4);
    assert_eq!(context.lines, "");
    assert_eq!((context.line, context.column), (1, 0));
    let context = ErrorContext::from_source("süß\näöü", 7, 3);
    assert_eq!(context.lines, "süß\näöü");
    assert_eq!((context.line, context.column), (2, 1));
}

#[test]
fn errors_take_their_context_from_a_provider() {
    let error = Error::new(ErrorType::Message, 3, "something else");
    assert!(!error.has_context());
    assert_eq!(error.error_type, ErrorType::Message);
    let tokenizer = Tokenizer::new("a\nb = ?\nc");
    let error = error.with_context(&tokenizer, 6);
    assert!(error.has_context());
    assert_eq!(error.position, 3);
    assert_eq!(error.message, "something else");
    let context = error.context.unwrap();
    assert_eq!((context.line, context.column), (2, 4));
    assert_eq!(context.lines, "a\nb = ?\nc");
    let reader = Reader::new("x\ny");
    assert_eq!(reader.get_line_context(2, 1).unwrap().lines, "y");
}

#[test]
fn errors_are_placed_within_the_text() {
    let tokenizer = Tokenizer::new("abc");
    assert_eq!(tokenizer.parse_error_pos(ErrorType::InvalidState, 1, "m").position, 1);
    assert_eq!(tokenizer.parse_error_pos(ErrorType::InvalidState, 3, "m").position, 2);
    assert_eq!(tokenizer.parse_error_pos(ErrorType::InvalidState, 99, "m").position, 2);
    assert_eq!(
        tokenizer
            .parse_error_token(&Token::new(TokenType::Number, 7, 1), ErrorType::InvalidValue, "m")
            .position,
        2
    );
    assert_eq!(Tokenizer::new("").parse_error(ErrorType::InvalidState, "m").position, 0);
    assert_eq!(tokenizer.find_end_of_line(0), 2);
    assert_eq!(Tokenizer::new("ab\ncd").find_end_of_line(1), 2);
    assert_eq!(Tokenizer::new("ab\ncd").find_end_of_line(3), 4);
    assert_eq!(Tokenizer::new("").find_end_of_line(0), 0);
    assert_eq!(tokenizer.str_for_range((1, 3)), "bc");
    assert_eq!(tokenizer.text(), "abc");
}

#[test]
fn texts_borrowed_or_owned() {
    let borrowed: MaybeOwnedString = MaybeOwned::Borrowed("lent");
    assert_eq!(as_str(&borrowed), "lent");
    let number = 5u32;
    let wrapped: MaybeOwned<u32, u32> = MaybeOwned::from(&number);
    assert!(matches!(wrapped, MaybeOwned::Borrowed(5)));
    let owned: MaybeOwnedString = MaybeOwned::Owned(String::from("kept"));
    assert_eq!(as_str(&owned), "kept");
    assert_eq!(Schema, Schema);
}
