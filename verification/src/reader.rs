use crate::error::{Error, ErrorContext, ErrorContextProvider, ErrorType, ParseResult};
use crate::grammar;
use crate::grammar::{Failure, State, Step};
use crate::number::{bounded_value, parse, Number};
use crate::syntax::{lemma_lex, Lexeme};
use crate::text::{clamp, line_end};
use crate::token::{Token, TokenType};
use crate::tokenizer::Tokenizer;
use crate::types::{CollectionType, Date, Key, ObjectKey, RealType};
use std::borrow::Cow;
use vstd::prelude::*;
use vstd::string::StringSliceAdditionalSpecFns;
use vstd::utf8::is_char_boundary;

verus! {

/// The key and the type of the value of a property.
pub type PropertyInfo<'a> = (ObjectKey<'a>, RealType);

/// Whether `result` is an error with the kind and offset of `failure`, without
/// context.
pub open spec fn failed<V>(result: Result<V, Error>, failure: Failure) -> bool {
    result matches Err(error) && error.is(failure.error_type, failure.offset)
}

/// Whether `result` is what `outcome` says: the same value, or an error of the same
/// kind at the same offset.
pub open spec fn gives<V>(result: Result<V, Error>, outcome: Result<V, Failure>) -> bool {
    match outcome {
        Ok(value) => result matches Ok(found) && found == value,
        Err(failure) => failed(result, failure),
    }
}

/// Whether `result` is what `outcome` says: a text of the same bytes, or an error of
/// the same kind at the same offset.
pub open spec fn gives_text(
    result: Result<&str, Error>,
    outcome: Result<Seq<u8>, Failure>,
) -> bool {
    match outcome {
        Ok(bytes) => result matches Ok(text) && text.spec_bytes() == bytes,
        Err(failure) => failed(result, failure),
    }
}

/// Whether `result` is what `outcome` says: the token of the same kind and bounds,
/// or an error of the same kind at the same offset.
pub open spec fn gives_token(
    result: Result<Token, Error>,
    outcome: Result<Lexeme, Failure>,
) -> bool {
    match outcome {
        Ok(lexeme) => result matches Ok(token) && token.token_type == lexeme.token_type
            && token.index == lexeme.index && token.length == lexeme.length,
        Err(failure) => failed(result, failure),
    }
}

/// Whether `result` is what `outcome` says: nothing, or an error of the same kind at
/// the same offset.
pub open spec fn gives_nothing(result: ParseResult<()>, outcome: Result<(), Failure>) -> bool {
    match outcome {
        Ok(_) => result matches Ok(None),
        Err(failure) => failed(result, failure),
    }
}

/// Whether `result` is what `outcome` says: the key and type of a property, no
/// property, or an error of the same kind at the same offset.
pub open spec fn gives_property(
    result: ParseResult<PropertyInfo>,
    outcome: Result<Option<(Key, RealType)>, Failure>,
) -> bool {
    match outcome {
        Ok(Some((key, real_type))) => result matches Ok(Some(info)) && info.0@ == key && info.1
            == real_type,
        Ok(None) => result matches Ok(None),
        Err(failure) => failed(result, failure),
    }
}

/// Whether `result` is what `outcome` says: a number that holds the same integer, or
/// an error of the same kind at the same offset.
pub open spec fn gives_number<T: Number>(
    result: Result<T, Error>,
    outcome: Result<int, Failure>,
) -> bool {
    match outcome {
        Ok(value) => result matches Ok(number) && number.value() == value,
        Err(failure) => failed(result, failure),
    }
}

/// The text without a character.
fn empty_text() -> (text: &'static str)
    ensures
        text.spec_bytes() == Seq::<u8>::empty(),
{
    proof {
        reveal_strlit("");
        assert(""@ =~= Seq::<char>::empty());
        assert(vstd::utf8::encode_utf8(Seq::<char>::empty()) =~= Seq::<u8>::empty());
    }
    ""
}

/// Whether `types` holds `token_type`.
fn holds_type(types: &[TokenType], token_type: TokenType) -> (holds: bool)
    ensures
        holds == types@.contains(token_type),
{
    let mut index: usize = 0;
    while index < types.len()
        invariant
            index <= types.len(),
            forall|i: int| 0 <= i < index ==> types@[i] != token_type,
        decreases types.len() - index,
    {
        if types[index] == token_type {
            return true;
        }
        index += 1;
    }
    false
}

/// A wrapper around a [Tokenizer] for low-level parsing of a source text: it enters
/// and leaves collections, reads properties and values, and looks ahead.
pub struct Reader<'a> {
    tokenizer: Tokenizer<'a>,
    current_depth: usize,
}

impl<'a> Reader<'a> {
    /// The cursor is within the text or at its end. A collection is entered by reading
    /// a token, so the depth is never greater than the offset of the cursor.
    #[verifier::type_invariant]
    spec fn well_formed(self) -> bool {
        self.current_depth <= self.tokenizer.position <= self.tokenizer.source().len()
    }

    /// The text that this reader reads.
    pub closed spec fn text(&self) -> &'a str {
        self.tokenizer.text
    }

    /// The bytes of the source text.
    pub open spec fn source(&self) -> Seq<u8> {
        self.text().spec_bytes()
    }

    /// Where the cursor stands, and in how many collections.
    pub closed spec fn state(&self) -> State {
        State { position: self.tokenizer.position as int, depth: self.current_depth as int }
    }

    /// The cursor and the depth are numbers that the machine can hold.
    pub proof fn lemma_state(&self)
        ensures
            0 <= self.state().position <= usize::MAX,
            0 <= self.state().depth <= usize::MAX,
    {
    }

    /// Whether this reader has given `result` and stands in the state that `step`
    /// says.
    pub open spec fn took<V>(&self, result: Result<V, Error>, step: Step<V>) -> bool {
        gives(result, step.outcome) && self.state() == step.state
    }

    /// Whether this reader has given the text `result` and stands in the state that
    /// `step` says.
    pub open spec fn took_text(&self, result: Result<&str, Error>, step: Step<Seq<u8>>) -> bool {
        gives_text(result, step.outcome) && self.state() == step.state
    }

    /// Creates a new Reader at the beginning of the given text and outside of any
    /// collection.
    pub fn new(text: &'a str) -> (reader: Reader<'a>)
        ensures
            reader.text() == text,
            reader.state() == (State { position: 0, depth: 0 }),
    {
        Reader { tokenizer: Tokenizer::new(text), current_depth: 0 }
    }

    /// Returns the byte offset of the cursor in the source.
    pub fn current_position(&self) -> (position: usize)
        ensures
            position == self.state().position,
            self.state().depth <= position <= self.source().len(),
    {
        proof {
            use_type_invariant(self);
        }
        self.tokenizer.position
    }

    /// Returns the number of collections that have been entered and not left.
    pub fn current_depth(&self) -> (depth: usize)
        ensures
            depth == self.state().depth,
    {
        self.current_depth
    }

    /// Returns true if this reader is at the root level (not in a collection).
    pub fn is_root_level(&self) -> (root: bool)
        ensures
            root == (self.state().depth == 0),
    {
        self.current_depth == 0
    }

    /// Creates a new [Error] at the cursor.
    pub fn parse_error(&self, error_type: ErrorType, message: &str) -> (error: Error)
        ensures
            error.is(error_type, clamp(self.source(), self.state().position)),
            error.message@ == message@,
    {
        self.tokenizer.parse_error(error_type, message)
    }

    /// Creates a new [Error] at the position of the given token.
    pub fn parse_error_token(&self, token: &Token, error_type: ErrorType, message: &str) -> (error:
        Error)
        ensures
            error.is(error_type, clamp(self.source(), token.index as int)),
            error.message@ == message@,
    {
        self.tokenizer.parse_error_token(token, error_type, message)
    }

    /// Creates a new [Error] for a token of a kind that was not expected.
    pub fn unexpected_token_error(&self, token: &Token, expected_type: &[TokenType]) -> (error:
        Error)
        ensures
            error.is(ErrorType::UnexpectedTokenError, clamp(self.source(), token.index as int)),
    {
        let mut message = "unexpected token type ".to_owned();
        message.append(token.token_type.name());
        if expected_type.len() > 0 {
            message.append(", expected ");
            message.append(expected_type[0].name());
            let mut index: usize = 1;
            while index < expected_type.len()
                invariant
                    1 <= index,
                decreases expected_type.len() - index,
            {
                message.append(" or ");
                message.append(expected_type[index].name());
                index += 1;
            }
        }
        self.parse_error_token(token, ErrorType::UnexpectedTokenError, message.as_str())
    }

    /// Whether `token` lies within the source and begins and ends between two
    /// characters.
    pub open spec fn holds(&self, token: Token) -> bool {
        &&& token.index + token.length <= self.source().len()
        &&& token.index + token.length <= usize::MAX
        &&& is_char_boundary(self.source(), token.index as int)
        &&& is_char_boundary(self.source(), token.index + token.length)
    }

    /// Reads the next token and moves the cursor behind it.
    fn next_token(&mut self) -> (result: ParseResult<Token>)
        ensures
            final(self).text() == old(self).text(),
            Tokenizer::finds(old(self).source(), old(self).state().position, result),
            final(self).state() == grammar::advanced(old(self).source(), old(self).state()),
            result matches Ok(Some(token)) ==> final(self).holds(token),
            0 <= old(self).state().depth <= old(self).state().position,
            old(self).state().position <= final(self).state().position,
            result matches Ok(Some(_)) ==> old(self).state().position
                < final(self).state().position,
            old(self).source().len() <= usize::MAX,
    {
        proof {
            use_type_invariant(&*self);
        }
        let mut tokenizer = self.tokenizer;
        let next = tokenizer.next();
        self.tokenizer = tokenizer;
        next
    }

    /// Reads the next token and leaves the cursor where it is.
    fn peek_token(&self) -> (result: ParseResult<Token>)
        ensures
            Tokenizer::finds(self.source(), self.state().position, result),
            result matches Ok(Some(token)) ==> self.holds(token),
            self.source().len() <= usize::MAX,
    {
        let mut tokenizer = self.tokenizer;
        tokenizer.peek()
    }

    /// Obtains the next token from the tokenizer, erroring if its kind is none of the
    /// expected kinds.
    ///
    /// The cursor moves behind the token whatever its kind, and to the end of the text
    /// where no token is left.
    pub fn expect_tokens(&mut self, expected_types: &[TokenType]) -> (result: Result<Token, Error>)
        ensures
            final(self).text() == old(self).text(),
            gives_token(
                result,
                grammar::expect(old(self).source(), old(self).state(), expected_types@).outcome,
            ),
            final(self).state() == grammar::expect(
                old(self).source(),
                old(self).state(),
                expected_types@,
            ).state,
            result matches Ok(token) ==> final(self).holds(token),
    {
        proof {
            use_type_invariant(&*self);
            lemma_lex(self.source(), self.state().position);
        }
        match self.next_token() {
            Ok(Some(token)) => {
                if holds_type(expected_types, token.token_type) {
                    Ok(token)
                } else {
                    Err(self.unexpected_token_error(&token, expected_types))
                }
            },
            Ok(None) => Err(
                self.parse_error(ErrorType::UnexpectedTokenError, "unexpected end of the text"),
            ),
            Err(error) => Err(error),
        }
    }

    /// Obtains the next token from the tokenizer, erroring if it is not of the expected
    /// kind.
    pub fn expect_token(&mut self, expected_type: TokenType) -> (result: Result<Token, Error>)
        ensures
            final(self).text() == old(self).text(),
            gives_token(
                result,
                grammar::expect_one(old(self).source(), old(self).state(), expected_type).outcome,
            ),
            final(self).state() == grammar::expect_one(
                old(self).source(),
                old(self).state(),
                expected_type,
            ).state,
            result matches Ok(token) ==> final(self).holds(token),
    {
        let expected = [expected_type];
        proof {
            assert(expected@ =~= seq![expected_type]);
            grammar::lemma_expect_one(self.source(), self.state(), expected_type);
        }
        self.expect_tokens(expected.as_slice())
    }

    /// Tells the reader to begin reading an object or array: reads `{`.
    pub fn begin_collection(&mut self) -> (result: ParseResult<()>)
        ensures
            final(self).text() == old(self).text(),
            gives_nothing(
                result,
                grammar::begin_collection(old(self).source(), old(self).state()).outcome,
            ),
            final(self).state() == grammar::begin_collection(
                old(self).source(),
                old(self).state(),
            ).state,
    {
        proof {
            use_type_invariant(&*self);
            lemma_lex(self.source(), self.state().position);
        }
        match self.expect_token(TokenType::OpenBracket) {
            Ok(_) => {
                self.current_depth = self.current_depth + 1;
                Ok(None)
            },
            Err(error) => Err(error),
        }
    }

    /// Tells the reader to stop reading an object or array: reads `}`.
    pub fn end_collection(&mut self) -> (result: ParseResult<()>)
        ensures
            final(self).text() == old(self).text(),
            gives_nothing(
                result,
                grammar::end_collection(old(self).source(), old(self).state()).outcome,
            ),
            final(self).state() == grammar::end_collection(
                old(self).source(),
                old(self).state(),
            ).state,
    {
        proof {
            use_type_invariant(&*self);
            lemma_lex(self.source(), self.state().position);
        }
        match self.expect_token(TokenType::CloseBracket) {
            Ok(_) => {
                if self.current_depth == 0 {
                    return Err(
                        self.parse_error(
                            ErrorType::DepthMismatchError,
                            "attempted to leave a collection at the top level",
                        ),
                    );
                }
                proof {
                    use_type_invariant(&*self);
                }
                self.current_depth = self.current_depth - 1;
                Ok(None)
            },
            Err(error) => Err(error),
        }
    }

    /// Peeks the type of the next value in the source, if any.
    pub fn peek_next_type(&mut self) -> (result: ParseResult<RealType>)
        ensures
            final(self).text() == old(self).text(),
            final(self).took(
                result,
                grammar::peek_next_type(old(self).source(), old(self).state()),
            ),
    {
        proof {
            use_type_invariant(&*self);
            lemma_lex(self.source(), self.state().position);
        }
        match self.peek_token() {
            Ok(Some(token)) => match RealType::from_token_type(&token.token_type) {
                Some(real_type) => Ok(Some(real_type)),
                None => Err(
                    self.parse_error_token(
                        &token,
                        ErrorType::UnexpectedTokenError,
                        "this token begins no value",
                    ),
                ),
            },
            Ok(None) => Ok(None),
            Err(error) => Err(error),
        }
    }

    /// Peeks the type of the next value in the source like [Reader::peek_next_type],
    /// but the end of the text is an error.
    pub fn peek_next_type_expect(&mut self) -> (result: Result<RealType, Error>)
        ensures
            final(self).text() == old(self).text(),
            final(self).took(
                result,
                grammar::peek_next_type_expect(old(self).source(), old(self).state()),
            ),
    {
        proof {
            use_type_invariant(&*self);
            lemma_lex(self.source(), self.state().position);
        }
        match self.peek_next_type() {
            Ok(Some(real_type)) => Ok(real_type),
            Ok(None) => Err(
                self.parse_error(
                    ErrorType::UnexpectedTokenError,
                    "expected a value, found the end of the text",
                ),
            ),
            Err(error) => Err(error),
        }
    }

    /// Reads the next array value's type, if available.
    pub fn next_array_value(&mut self) -> (result: ParseResult<RealType>)
        ensures
            final(self).text() == old(self).text(),
            final(self).took(
                result,
                grammar::next_array_value(old(self).source(), old(self).state()),
            ),
    {
        proof {
            use_type_invariant(&*self);
            lemma_lex(self.source(), self.state().position);
        }
        match self.peek_token() {
            Ok(Some(token)) => {
                if token.token_type == TokenType::CloseBracket {
                    return Ok(None);
                }
                match RealType::from_token_type(&token.token_type) {
                    Some(real_type) => Ok(Some(real_type)),
                    None => Err(
                        self.parse_error_token(
                            &token,
                            ErrorType::UnexpectedTokenError,
                            "this token begins no value of an array",
                        ),
                    ),
                }
            },
            Ok(None) => Ok(None),
            Err(error) => Err(error),
        }
    }

    /// Peeks ahead to see if this collection (array or object) has finished.
    pub fn is_collection_ended(&mut self) -> (result: Result<bool, Error>)
        ensures
            final(self).text() == old(self).text(),
            final(self).took(
                result,
                grammar::is_collection_ended(old(self).source(), old(self).state()),
            ),
    {
        proof {
            use_type_invariant(&*self);
            lemma_lex(self.source(), self.state().position);
        }
        match self.peek_token() {
            Ok(Some(token)) => Ok(token.token_type == TokenType::CloseBracket),
            Ok(None) => {
                if self.current_depth == 0 {
                    Ok(true)
                } else {
                    Err(
                        self.parse_error(
                            ErrorType::UnexpectedTokenError,
                            "expected a value or }, found the end of the text",
                        ),
                    )
                }
            },
            Err(error) => Err(error),
        }
    }

    /// Checks if this property might not have a value.
    pub fn is_next_value_empty(&mut self) -> (result: Result<bool, Error>)
        ensures
            final(self).text() == old(self).text(),
            final(self).took(
                result,
                grammar::is_next_value_empty(old(self).source(), old(self).state()),
            ),
    {
        proof {
            use_type_invariant(&*self);
            lemma_lex(self.source(), self.state().position);
        }
        match self.peek_token() {
            Ok(Some(token)) => Ok(
                token.token_type == TokenType::Identifier || token.token_type
                    == TokenType::CloseBracket,
            ),
            Ok(None) => Ok(true),
            Err(error) => Err(error),
        }
    }

    /// Reads a token of the given kind and returns the text that it covers.
    fn read_token_text(&mut self, token_type: TokenType) -> (result: Result<&'a str, Error>)
        ensures
            final(self).text() == old(self).text(),
            final(self).took_text(
                result,
                grammar::read_text(old(self).source(), old(self).state(), token_type),
            ),
    {
        proof {
            use_type_invariant(&*self);
            lemma_lex(self.source(), self.state().position);
        }
        match self.expect_token(token_type) {
            Ok(token) => Ok(self.tokenizer.str_for_token(&token)),
            Err(error) => Err(error),
        }
    }

    /// Reads a string from the source, if available.
    pub fn read_string(&mut self) -> (result: Result<&'a str, Error>)
        ensures
            final(self).text() == old(self).text(),
            final(self).took_text(
                result,
                grammar::read_text(old(self).source(), old(self).state(), TokenType::String),
            ),
    {
        self.read_token_text(TokenType::String)
    }

    /// Reads an identifier from the source, if available.
    pub fn read_identifier(&mut self) -> (result: Result<&'a str, Error>)
        ensures
            final(self).text() == old(self).text(),
            final(self).took_text(
                result,
                grammar::read_text(old(self).source(), old(self).state(), TokenType::Identifier),
            ),
    {
        self.read_token_text(TokenType::Identifier)
    }

    /// Read a number from the source, returning the text that spells it.
    pub fn read_number_as_str(&mut self) -> (result: Result<&'a str, Error>)
        ensures
            final(self).text() == old(self).text(),
            final(self).took_text(
                result,
                grammar::read_text(old(self).source(), old(self).state(), TokenType::Number),
            ),
    {
        self.read_token_text(TokenType::Number)
    }

    /// Peeks the next string that would be read from the source.
    pub fn peek_expected_string(&mut self) -> (result: Result<&'a str, Error>)
        ensures
            final(self).text() == old(self).text(),
            final(self).took_text(
                result,
                grammar::peek_expected_string(old(self).source(), old(self).state()),
            ),
    {
        proof {
            use_type_invariant(&*self);
        }
        let tokenizer = self.tokenizer;
        match self.read_string() {
            Ok(text) => {
                self.tokenizer = tokenizer;
                Ok(text)
            },
            Err(error) => Err(error),
        }
    }

    /// Checks if a line ends between `start` and `end`.
    fn new_line_between(&self, start: usize, end: usize) -> (between: bool)
        ensures
            between == (line_end(self.source(), start as int) < end),
    {
        self.tokenizer.find_end_of_line(start) < end
    }

    /// Reads a string, identifier, or empty from the source.
    pub fn read_stringlike(&mut self) -> (result: Result<&'a str, Error>)
        ensures
            final(self).text() == old(self).text(),
            final(self).took_text(
                result,
                grammar::read_stringlike(old(self).source(), old(self).state()),
            ),
    {
        proof {
            use_type_invariant(&*self);
            lemma_lex(self.source(), self.state().position);
        }
        let in_property = self.tokenizer.last_char_was('=');
        let next_token = match self.peek_token() {
            Ok(Some(token)) => token,
            Ok(None) => {
                if in_property {
                    return Ok(empty_text());
                }
                return Err(
                    self.parse_error(
                        ErrorType::UnexpectedTokenError,
                        "expected a string or an identifier, found the end of the text",
                    ),
                );
            },
            Err(error) => {
                return Err(error);
            },
        };
        if in_property && self.new_line_between(self.tokenizer.position, next_token.index) {
            return Ok(empty_text());
        }
        match next_token.token_type {
            TokenType::Identifier => self.read_identifier(),
            TokenType::String => self.read_string(),
            TokenType::CloseBracket => {
                if self.current_depth > 0 {
                    Ok(empty_text())
                } else {
                    Err(
                        self.parse_error(
                            ErrorType::UnexpectedTokenError,
                            "expected an identifier, a string or nothing",
                        ),
                    )
                }
            },
            _ => Err(
                self.parse_error(
                    ErrorType::UnexpectedTokenError,
                    "expected an identifier, a string or nothing",
                ),
            ),
        }
    }

    /// Reads a [Date] from the source, if available.
    pub fn read_date(&mut self) -> (result: Result<Date, Error>)
        ensures
            final(self).text() == old(self).text(),
            final(self).took(result, grammar::read_date(old(self).source(), old(self).state())),
    {
        proof {
            use_type_invariant(&*self);
            lemma_lex(self.source(), self.state().position);
        }
        match self.expect_token(TokenType::Date) {
            Ok(token) => self.tokenizer.date_for_token(&token),
            Err(error) => Err(error),
        }
    }

    /// Reads a boolean from the source, if available.
    pub fn read_boolean(&mut self) -> (result: Result<bool, Error>)
        ensures
            final(self).text() == old(self).text(),
            final(self).took(result, grammar::read_boolean(old(self).source(), old(self).state())),
    {
        proof {
            use_type_invariant(&*self);
            lemma_lex(self.source(), self.state().position);
        }
        match self.expect_token(TokenType::Boolean) {
            Ok(token) => {
                let bytes = self.tokenizer.text.as_bytes();
                Ok(token.index < bytes.len() && bytes[token.index] == 0x79)
            },
            Err(error) => Err(error),
        }
    }

    /// Parses an integer from a text. A text that spells no integer of the type `T` is
    /// an `InvalidNumberError` as many bytes before the cursor as the text is long.
    pub fn parse_number<T: Number>(&self, str: &str) -> (result: Result<T, Error>)
        ensures
            match bounded_value(str.spec_bytes(), T::lowest(), T::highest()) {
                Some(value) => result matches Ok(number) && number.value() == value,
                None => result matches Err(error) && error.is(
                    ErrorType::InvalidNumberError,
                    clamp(
                        self.source(),
                        if self.state().position >= str.spec_bytes().len() {
                            self.state().position - str.spec_bytes().len()
                        } else {
                            0
                        },
                    ),
                ),
            },
    {
        let bytes = str.as_bytes();
        match parse::<T>(bytes) {
            Some(number) => Ok(number),
            None => {
                let position = if self.tokenizer.position >= bytes.len() {
                    self.tokenizer.position - bytes.len()
                } else {
                    0
                };
                Err(
                    self.tokenizer.parse_error_pos(
                        ErrorType::InvalidNumberError,
                        position,
                        "the number does not fit the type that was asked for",
                    ),
                )
            },
        }
    }

    /// Reads a number from the source as an integer of the type `T`, if available.
    pub fn read_number<T: Number>(&mut self) -> (result: Result<T, Error>)
        ensures
            final(self).text() == old(self).text(),
            gives_number(
                result,
                grammar::read_number(
                    old(self).source(),
                    old(self).state(),
                    T::lowest(),
                    T::highest(),
                ).outcome,
            ),
            final(self).state() == grammar::read_number(
                old(self).source(),
                old(self).state(),
                T::lowest(),
                T::highest(),
            ).state,
    {
        proof {
            use_type_invariant(&*self);
            lemma_lex(self.source(), self.state().position);
        }
        match self.read_number_as_str() {
            Ok(text) => self.parse_number(text),
            Err(error) => Err(error),
        }
    }

    /// Reads the next property name and type, if available.
    pub fn next_property(&mut self) -> (result: ParseResult<PropertyInfo<'a>>)
        ensures
            final(self).text() == old(self).text(),
            gives_property(
                result,
                grammar::next_property(old(self).source(), old(self).state()).outcome,
            ),
            final(self).state() == grammar::next_property(
                old(self).source(),
                old(self).state(),
            ).state,
    {
        proof {
            use_type_invariant(&*self);
            lemma_lex(self.source(), self.state().position);
        }
        let token = match self.peek_token() {
            Ok(Some(token)) => token,
            Ok(None) => {
                if self.current_depth == 0 {
                    return Ok(None);
                }
                return Err(
                    self.parse_error(
                        ErrorType::UnexpectedTokenError,
                        "unexpected end of the text while reading the next property",
                    ),
                );
            },
            Err(error) => {
                return Err(error);
            },
        };
        if token.token_type == TokenType::CloseBracket {
            return Ok(None);
        }
        let _ = self.next_token();
        let key: ObjectKey<'a> = match token.token_type {
            TokenType::Identifier => ObjectKey::Identifier(
                Cow::Borrowed(self.tokenizer.str_for_token(&token)),
            ),
            TokenType::Date => match self.tokenizer.date_for_token(&token) {
                Ok(date) => ObjectKey::Date(date),
                Err(error) => {
                    return Err(error);
                },
            },
            _ => {
                let expected = [TokenType::Identifier, TokenType::Date];
                return Err(self.unexpected_token_error(&token, expected.as_slice()));
            },
        };
        match self.expect_token(TokenType::Equals) {
            Ok(_) => {},
            Err(error) => {
                return Err(error);
            },
        }
        match self.peek_next_type_expect() {
            Ok(real_type) => Ok(Some((key, real_type))),
            Err(error) => Err(error),
        }
    }

    /// Attempt to discern between an array or map by peeking ahead.
    ///
    /// Empty collections (`{}`) will return Array.
    pub fn try_discern_array_or_map(&mut self) -> (result: ParseResult<CollectionType>)
        ensures
            final(self).text() == old(self).text(),
            final(self).took(
                result,
                grammar::try_discern_array_or_map(old(self).source(), old(self).state()),
            ),
    {
        proof {
            use_type_invariant(&*self);
            lemma_lex(self.source(), self.state().position);
        }
        let initial = self.tokenizer;
        let token = match self.next_token() {
            Ok(Some(token)) => token,
            Ok(None) => {
                self.tokenizer = initial;
                return Ok(None);
            },
            Err(error) => {
                return Err(error);
            },
        };
        if token.token_type != TokenType::OpenBracket {
            self.tokenizer = initial;
            return Err(
                self.parse_error_token(
                    &token,
                    ErrorType::UnexpectedTokenError,
                    "expected {, found another token",
                ),
            );
        }
        proof {
            lemma_lex(self.source(), self.state().position);
        }
        let first = match self.next_token() {
            Ok(Some(token)) => token,
            Ok(None) => {
                self.tokenizer = initial;
                return Ok(None);
            },
            Err(error) => {
                return Err(error);
            },
        };
        let collection_type = match first.token_type {
            TokenType::Identifier | TokenType::Date => {
                proof {
                    lemma_lex(self.source(), self.state().position);
                }
                match self.next_token() {
                    Ok(Some(second)) => {
                        if second.token_type == TokenType::Equals {
                            Some(CollectionType::Object)
                        } else {
                            Some(CollectionType::Array)
                        }
                    },
                    Ok(None) => None,
                    Err(error) => {
                        return Err(error);
                    },
                }
            },
            _ => Some(CollectionType::Array),
        };
        self.tokenizer = initial;
        Ok(collection_type)
    }
}

impl<'a> ErrorContextProvider for Reader<'a> {
    open spec fn provided_source(&self) -> Seq<u8> {
        self.source()
    }

    open spec fn provides_context(&self) -> bool {
        true
    }

    fn get_line_context(&self, position: usize, max_lines: usize) -> (context: Option<
        ErrorContext,
    >) {
        self.tokenizer.get_line_context(position, max_lines)
    }
}

} // verus!
