use clauser::error::{Error, ErrorType};
use clauser::token::{OwnedToken, Token, TokenType};
use clauser::tokenizer::Tokenizer;

#[derive(Debug)]
pub struct ExpectedToken(TokenType, &'static str);

impl PartialEq<OwnedToken> for ExpectedToken {
    fn eq(&self, other: &OwnedToken) -> bool {
        other.token_type == self.0 && other.value == self.1
    }
}

impl PartialEq<ExpectedToken> for OwnedToken {
    fn eq(&self, other: &ExpectedToken) -> bool {
        PartialEq::<OwnedToken>::eq(other, self)
    }
}

fn assert_vec_equal(tokens: &Vec<OwnedToken>, expected: &Vec<ExpectedToken>) {
    assert_eq!(
        tokens.len(),
        expected.len(),
        "number of tokens {} doesn't equal expected {}",
        tokens.len(),
        expected.len()
    );

    let mut i = 0;
    while i < expected.len() {
        assert_eq!(
            tokens[i], expected[i],
            "token {:?} at index {} doesn't match expected {:?}",
            tokens[i], i, expected[i]
        );

        i = i + 1;
    }
}

fn expect_error(text: &str) -> Result<(), Error> {
    let tokens = Tokenizer::parse_all(text);
    assert!(
        tokens.is_err(),
        "expected result to be err, got {:?}",
        tokens.unwrap()
    );
    match tokens {
        Ok(_) => Ok(()),
        Err(e) => match e.error_type == ErrorType::TokenizerError {
            true => Ok(()),
            false => Err(e),
        },
    }
}

fn expect_token_and_value(
    text: &str,
    expected_type: TokenType,
    expected_value: &str,
) -> Result<(), Error> {
    let tokens = Tokenizer::parse_all(text)?;
    assert_eq!(
        tokens.len(),
        1,
        "only one token is expected to be parsed, but {} were found",
        tokens.len()
    );
    let token = tokens.first().unwrap();
    assert_eq!(token.token_type, expected_type);
    assert_eq!(token.value, expected_value);
    Ok(())
}

// verifies that the text matches the token and that it's the right type
fn expect_token(text: &str, expected_type: TokenType) -> Result<(), Error> {
    expect_token_and_value(text, expected_type, text)
}

fn error_offset(text: &str) -> usize {
    match Tokenizer::parse_all(text) {
        Ok(tokens) => panic!("expected an error, got {:?}", tokens),
        Err(e) => {
            assert_eq!(e.error_type, ErrorType::TokenizerError);
            e.position
        }
    }
}

#[test]
fn number() -> Result<(), Error> {
    expect_token_and_value("100", TokenType::Number, "100")?;
    expect_token_and_value("-100", TokenType::Number, "-100")?;
    expect_token_and_value("3019.29", TokenType::Number, "3019.29")?;
    expect_token_and_value("-3019.29", TokenType::Number, "-3019.29")?;
    expect_token_and_value("\t\t\t100.0\t\t\n", TokenType::Number, "100.0")?;
    expect_token_and_value(
        "# cool comment\n\t\t\t100.0\t\t\n",
        TokenType::Number,
        "100.0",
    )?;
    expect_error("-")?;
    expect_error(".01")?;
    expect_error("0.1...2")?;
    expect_error("-1.")?;
    expect_error("-.")?;
    expect_error("-.0")?;

    Ok(())
}

#[test]
fn boolean() -> Result<(), Error> {
    expect_token_and_value("yes", TokenType::Boolean, "yes")?;
    expect_token_and_value("no", TokenType::Boolean, "no")?;

    Ok(())
}

#[test]
fn identifier() -> Result<(), Error> {
    expect_token_and_value("test", TokenType::Identifier, "test")?;
    expect_token_and_value("_a_longer_test", TokenType::Identifier, "_a_longer_test")?;
    expect_token_and_value(
        "test:with:colons",
        TokenType::Identifier,
        "test:with:colons",
    )?;

    Ok(())
}

#[test]
fn string() -> Result<(), Error> {
    expect_token_and_value("\"str\"", TokenType::String, "str")?;
    expect_token_and_value(
        "\"this is\na multi line string\"",
        TokenType::String,
        "this is\na multi line string",
    )?;
    assert_vec_equal(
        &Tokenizer::parse_all("\"str1\"\"str2\"#comment\n\"str3\"")?,
        &vec![
            ExpectedToken(TokenType::String, "str1"),
            ExpectedToken(TokenType::String, "str2"),
            ExpectedToken(TokenType::String, "str3"),
        ],
    );

    expect_error("\"unclosed")?;
    expect_error("unopened\"")?;
    expect_error("'single quotes'")?;

    Ok(())
}

#[test]
fn symbols() -> Result<(), Error> {
    expect_token_and_value("=", TokenType::Equals, "=")?;
    expect_token_and_value("{", TokenType::OpenBracket, "{")?;
    expect_token_and_value("}", TokenType::CloseBracket, "}")?;
    expect_token_and_value(">", TokenType::GreaterThan, ">")?;
    expect_token_and_value(">=", TokenType::GreaterThanEq, ">=")?;
    expect_token_and_value("<", TokenType::LessThan, "<")?;
    expect_token_and_value("<=", TokenType::LessThanEq, "<=")?;
    expect_token_and_value("?=", TokenType::ExistenceCheck, "?=")?;

    Ok(())
}

#[test]
fn date() -> Result<(), Error> {
    expect_token("1940.1.1", TokenType::Date)?;
    expect_token("1980.08.11.1", TokenType::Date)?;
    expect_token("2031.08.00.2", TokenType::Date)?;
    expect_token("289312.3.37817283780", TokenType::Date)?;

    expect_error("val = 1930.1.")?;
    expect_error("val = 1930.1.3.")?;
    expect_error("val = 1959..1")?;

    Ok(())
}

#[test]
fn iterator() -> Result<(), Error> {
    let tokens = Tokenizer::parse_all("{ property = \"test\" } # comment\n82.3 > 1 >= 0")?;
    let expected = vec![
        ExpectedToken(TokenType::OpenBracket, "{"),
        ExpectedToken(TokenType::Identifier, "property"),
        ExpectedToken(TokenType::Equals, "="),
        ExpectedToken(TokenType::String, "test"),
        ExpectedToken(TokenType::CloseBracket, "}"),
        ExpectedToken(TokenType::Number, "82.3"),
        ExpectedToken(TokenType::GreaterThan, ">"),
        ExpectedToken(TokenType::Number, "1"),
        ExpectedToken(TokenType::GreaterThanEq, ">="),
        ExpectedToken(TokenType::Number, "0"),
    ];
    assert_vec_equal(&tokens, &expected);
    Ok(())
}

#[test]
fn error_context() {}

#[test]
fn error_cases() {}

#[test]
fn error_offsets() {
    assert_eq!(error_offset("-"), 0);
    assert_eq!(error_offset("  .01"), 2);
    assert_eq!(error_offset("0.1...2"), 4);
    assert_eq!(error_offset("-1."), 2);
    assert_eq!(error_offset("-."), 1);
    assert_eq!(error_offset("-1.2.3"), 0);
    assert_eq!(error_offset("1.2.3.4.5"), 7);
    assert_eq!(error_offset("a = ? b"), 4);
    assert_eq!(error_offset("a = \"unclosed"), 12);
}

#[test]
fn comment_without_line_feed_ends_the_text() {
    let tokens = Tokenizer::parse_all("a = b # c").unwrap();
    assert_eq!(tokens.len(), 3);
    assert!(Tokenizer::parse_all("# only a comment").unwrap().is_empty());
    assert!(Tokenizer::parse_all("").unwrap().is_empty());
}

#[test]
fn blanks_of_more_than_one_byte() {
    let tokens = Tokenizer::parse_all("a\u{a0}=\u{2003}b\u{3000}\u{1680}\u{85}").unwrap();
    assert_eq!(tokens.len(), 3);
    assert_eq!(tokens[2].value, "b");
    assert_eq!(tokens[2].index, 7);
}

#[test]
fn strings_keep_their_bytes() {
    let tokens = Tokenizer::parse_all("name = \"Zürich – 東京\" # süß").unwrap();
    assert_eq!(tokens.len(), 3);
    assert_eq!(tokens[2].token_type, TokenType::String);
    assert_eq!(tokens[2].value, "Zürich – 東京");
    assert_eq!(tokens[2].index, 8);
}

#[test]
fn letters_beyond_ascii_are_no_identifier() {
    assert_eq!(error_offset("é = 1"), 0);
    assert_eq!(error_offset("caf\u{e9} = 1"), 3);
}

#[test]
fn peek_then_next() {
    let mut tokenizer = Tokenizer::new("  alpha = 12");
    let peeked = tokenizer.peek().unwrap().unwrap();
    assert_eq!(tokenizer.position, 0);
    let next = tokenizer.next().unwrap().unwrap();
    assert_eq!(peeked, next);
    assert_eq!(next, Token::new(TokenType::Identifier, 2, 5));
    assert_eq!(tokenizer.position, 7);
    assert_eq!(tokenizer.str_for_token(&next), "alpha");
    assert!(tokenizer.last_char_was('a'));
    assert!(tokenizer.is_next_char('='));
    assert!(!tokenizer.is_done());
}

#[test]
fn token_iterator_stops_after_an_error() {
    let mut tokenizer = Tokenizer::new("a ? b");
    let mut tokens = tokenizer.iter();
    assert_eq!(tokens.next().unwrap().unwrap().token_type, TokenType::Identifier);
    assert_eq!(tokens.next().unwrap().unwrap_err().position, 2);
    assert!(tokens.next().is_none());
    assert!(tokens.next().is_none());
}

#[test]
fn date_of_a_token() {
    let tokenizer = Tokenizer::new("1940.1.1.18 1933.11.4 289312.3.37817283780 7 1.2.3.4.5");
    assert_eq!(
        tokenizer.date_for_token(&Token::new(TokenType::Date, 0, 11)).unwrap(),
        clauser::types::Date::new(1940, 1, 1, 18)
    );
    assert_eq!(
        tokenizer.date_for_token(&Token::new(TokenType::Date, 12, 9)).unwrap(),
        clauser::types::Date::new(1933, 11, 4, 0)
    );
    let too_large = tokenizer
        .date_for_token(&Token::new(TokenType::Date, 22, 20))
        .unwrap_err();
    assert_eq!(too_large.error_type, ErrorType::InvalidNumberError);
    assert_eq!(too_large.position, 31);
    assert_eq!(
        tokenizer.date_for_token(&Token::new(TokenType::Number, 43, 1)).unwrap(),
        clauser::types::Date::new(7, 0, 0, 0)
    );
    let too_long = tokenizer
        .date_for_token(&Token::new(TokenType::Date, 45, 9))
        .unwrap_err();
    assert_eq!(too_long.error_type, ErrorType::InvalidState);
    assert_eq!(too_long.position, 53);
}
