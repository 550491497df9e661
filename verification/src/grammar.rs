//! What the operations of a reader find in a source text, stated as functions from
//! the text and the state of the reader to an outcome and the state after it.
use crate::error::ErrorType;
use crate::number::bounded_value;
use crate::syntax::{cursor_after, date_at, lemma_lex, lex, Lexed, Lexeme, EQUALS};
use crate::text::{clamp, line_end};
use crate::token::TokenType;
use crate::types::{CollectionType, Date, Key, RealType};
use crate::value::Tree;
use vstd::prelude::*;

verus! {

/// The state of a reader: where its cursor stands, and in how many collections.
pub struct State {
    /// The byte offset of the cursor.
    pub position: int,
    /// The number of collections that have been entered and not left.
    pub depth: int,
}

/// An error, as its kind and the byte offset at which it is reported.
pub struct Failure {
    /// The kind of the error.
    pub error_type: ErrorType,
    /// The byte offset of the error.
    pub offset: int,
}

/// The outcome of an operation and the state in which it leaves the reader.
pub struct Step<V> {
    /// What the operation returns.
    pub outcome: Result<V, Failure>,
    /// The state of the reader after the operation.
    pub state: State,
}

/// The operation succeeds with `value` and leaves the reader in `state`.
pub open spec fn done<V>(value: V, state: State) -> Step<V> {
    Step { outcome: Ok(value), state }
}

/// The operation fails with an error of the given kind and offset and leaves the
/// reader in `state`.
pub open spec fn fail<V>(error_type: ErrorType, offset: int, state: State) -> Step<V> {
    Step { outcome: Err(Failure { error_type, offset }), state }
}

/// `state` with the cursor moved to `position`.
pub open spec fn moved(state: State, position: int) -> State {
    State { position, depth: state.depth }
}

/// `state` after the next token, the end of the text or the error has been read.
pub open spec fn advanced(s: Seq<u8>, state: State) -> State {
    moved(state, cursor_after(s, state.position))
}

/// Reads the next token, which must be of one of the `expected` kinds.
///
/// The cursor moves on whatever is found. A token of another kind is an
/// `UnexpectedTokenError` at that token, the end of the text one at the last byte.
pub open spec fn expect(s: Seq<u8>, state: State, expected: Seq<TokenType>) -> Step<Lexeme> {
    let after = advanced(s, state);
    match lex(s, state.position) {
        Lexed::Token { token_type, index, length, .. } => if expected.contains(token_type) {
            done(Lexeme { token_type, index, length }, after)
        } else {
            fail(ErrorType::UnexpectedTokenError, index, after)
        },
        Lexed::End { position } => fail(ErrorType::UnexpectedTokenError, clamp(s, position), after),
        Lexed::Error { offset, .. } => fail(ErrorType::TokenizerError, offset, after),
    }
}

/// Reads the next token, which must be of the `expected` kind.
///
/// The cursor moves on whatever is found. A token of another kind is an
/// `UnexpectedTokenError` at that token, the end of the text one at the last byte.
pub open spec fn expect_one(s: Seq<u8>, state: State, expected: TokenType) -> Step<Lexeme> {
    let after = advanced(s, state);
    match lex(s, state.position) {
        Lexed::Token { token_type, index, length, .. } => if token_type == expected {
            done(Lexeme { token_type, index, length }, after)
        } else {
            fail(ErrorType::UnexpectedTokenError, index, after)
        },
        Lexed::End { position } => fail(ErrorType::UnexpectedTokenError, clamp(s, position), after),
        Lexed::Error { offset, .. } => fail(ErrorType::TokenizerError, offset, after),
    }
}

/// To expect one kind of token is to expect the kinds of a list that holds that one.
pub proof fn lemma_expect_one(s: Seq<u8>, state: State, expected: TokenType)
    ensures
        expect(s, state, seq![expected]) == expect_one(s, state, expected),
{
    assert forall|token_type: TokenType|
        seq![expected].contains(token_type) <==> token_type == expected by {
        if token_type == expected {
            assert(seq![expected][0] == token_type);
        }
    }
}

/// Reads a token of the given kind and gives the bytes that it covers.
pub open spec fn read_text(s: Seq<u8>, state: State, token_type: TokenType) -> Step<Seq<u8>> {
    let found = expect_one(s, state, token_type);
    match found.outcome {
        Ok(lexeme) => done(s.subrange(lexeme.index, lexeme.index + lexeme.length), found.state),
        Err(failure) => Step { outcome: Err(failure), state: found.state },
    }
}

/// Enters a collection: reads `{` and adds one to the depth.
pub open spec fn begin_collection(s: Seq<u8>, state: State) -> Step<()> {
    let found = expect_one(s, state, TokenType::OpenBracket);
    match found.outcome {
        Ok(_) => done((), State { position: found.state.position, depth: state.depth + 1 }),
        Err(failure) => Step { outcome: Err(failure), state: found.state },
    }
}

/// Leaves a collection: reads `}` and takes one from the depth. At depth 0 that is a
/// `DepthMismatchError` at the cursor behind the `}`.
pub open spec fn end_collection(s: Seq<u8>, state: State) -> Step<()> {
    let found = expect_one(s, state, TokenType::CloseBracket);
    match found.outcome {
        Ok(_) => if state.depth > 0 {
            done((), State { position: found.state.position, depth: state.depth - 1 })
        } else {
            fail(ErrorType::DepthMismatchError, clamp(s, found.state.position), found.state)
        },
        Err(failure) => Step { outcome: Err(failure), state: found.state },
    }
}

/// Looks at the type of the value that comes next, without moving the cursor: none
/// at the end of the text. A token that begins no value is an `UnexpectedTokenError`
/// at that token.
pub open spec fn peek_next_type(s: Seq<u8>, state: State) -> Step<Option<RealType>> {
    match lex(s, state.position) {
        Lexed::Token { token_type, index, .. } => match RealType::of(token_type) {
            Some(real_type) => done(Some(real_type), state),
            None => fail(ErrorType::UnexpectedTokenError, index, state),
        },
        Lexed::End { .. } => done(None, state),
        Lexed::Error { offset, .. } => fail(ErrorType::TokenizerError, offset, state),
    }
}

/// As `peek_next_type`, but the end of the text is an `UnexpectedTokenError` at the
/// cursor.
pub open spec fn peek_next_type_expect(s: Seq<u8>, state: State) -> Step<RealType> {
    let peeked = peek_next_type(s, state);
    match peeked.outcome {
        Ok(Some(real_type)) => done(real_type, state),
        Ok(None) => fail(ErrorType::UnexpectedTokenError, clamp(s, state.position), state),
        Err(failure) => Step { outcome: Err(failure), state },
    }
}

/// Looks at the type of the next value of an array, without moving the cursor: none
/// before `}` and at the end of the text.
pub open spec fn next_array_value(s: Seq<u8>, state: State) -> Step<Option<RealType>> {
    match lex(s, state.position) {
        Lexed::Token { token_type, index, .. } => if token_type == TokenType::CloseBracket {
            done(None, state)
        } else {
            match RealType::of(token_type) {
                Some(real_type) => done(Some(real_type), state),
                None => fail(ErrorType::UnexpectedTokenError, index, state),
            }
        },
        Lexed::End { .. } => done(None, state),
        Lexed::Error { offset, .. } => fail(ErrorType::TokenizerError, offset, state),
    }
}

/// Looks whether the collection has ended, without moving the cursor: it has before
/// `}`, and at the end of the text if no collection is open. The end of the text
/// within a collection is an `UnexpectedTokenError` at the cursor.
pub open spec fn is_collection_ended(s: Seq<u8>, state: State) -> Step<bool> {
    match lex(s, state.position) {
        Lexed::Token { token_type, .. } => done(token_type == TokenType::CloseBracket, state),
        Lexed::End { .. } => if state.depth == 0 {
            done(true, state)
        } else {
            fail(ErrorType::UnexpectedTokenError, clamp(s, state.position), state)
        },
        Lexed::Error { offset, .. } => fail(ErrorType::TokenizerError, offset, state),
    }
}

/// Looks whether the property at the cursor has no value, without moving the
/// cursor: the next token is an identifier, which is the key of the next property,
/// or `}`, or the text has ended.
pub open spec fn is_next_value_empty(s: Seq<u8>, state: State) -> Step<bool> {
    match lex(s, state.position) {
        Lexed::Token { token_type, .. } => done(
            token_type == TokenType::Identifier || token_type == TokenType::CloseBracket,
            state,
        ),
        Lexed::End { .. } => done(true, state),
        Lexed::Error { offset, .. } => fail(ErrorType::TokenizerError, offset, state),
    }
}

/// The key that a token stands for: the bytes of an identifier or the date of a
/// date. Any other token is an `UnexpectedTokenError` at that token.
pub open spec fn key_of(s: Seq<u8>, lexeme: Lexeme) -> Result<Key, Failure> {
    match lexeme.token_type {
        TokenType::Identifier => Ok(
            Key::Identifier(s.subrange(lexeme.index, lexeme.index + lexeme.length)),
        ),
        TokenType::Date => match date_at(s, lexeme.index, lexeme.length) {
            Ok(date) => Ok(Key::Date(date)),
            Err((error_type, offset)) => Err(Failure { error_type, offset }),
        },
        _ => Err(Failure { error_type: ErrorType::UnexpectedTokenError, offset: lexeme.index }),
    }
}

/// Reads the key of the next property and `=`, and looks at the type of its value.
///
/// There is no next property, and the cursor stays, before `}` and, outside of any
/// collection, at the end of the text; the end of the text within a collection is an
/// `UnexpectedTokenError`. Otherwise the key is read, then `=`, and a value must
/// follow: the end of the text is an `UnexpectedTokenError` at the cursor.
pub open spec fn next_property(s: Seq<u8>, state: State) -> Step<Option<(Key, RealType)>> {
    match lex(s, state.position) {
        Lexed::Error { offset, .. } => fail(ErrorType::TokenizerError, offset, state),
        Lexed::End { .. } => if state.depth == 0 {
            done(None, state)
        } else {
            fail(ErrorType::UnexpectedTokenError, clamp(s, state.position), state)
        },
        Lexed::Token { token_type, index, length, next } => if token_type
            == TokenType::CloseBracket {
            done(None, state)
        } else {
            let behind_key = moved(state, next);
            match key_of(s, Lexeme { token_type, index, length }) {
                Err(failure) => Step { outcome: Err(failure), state: behind_key },
                Ok(key) => {
                    let equals = expect_one(s, behind_key, TokenType::Equals);
                    match equals.outcome {
                        Err(failure) => Step { outcome: Err(failure), state: equals.state },
                        Ok(_) => {
                            let value = peek_next_type_expect(s, equals.state);
                            match value.outcome {
                                Ok(real_type) => done(Some((key, real_type)), equals.state),
                                Err(failure) => Step { outcome: Err(failure), state: equals.state },
                            }
                        },
                    }
                },
            }
        },
    }
}

/// Reads a quoted string and puts the cursor back. After an error the cursor stays
/// where the error left it.
pub open spec fn peek_expected_string(s: Seq<u8>, state: State) -> Step<Seq<u8>> {
    let read = read_text(s, state, TokenType::String);
    match read.outcome {
        Ok(text) => done(text, state),
        Err(failure) => read,
    }
}

/// Whether the byte directly before the cursor is `=`.
pub open spec fn in_property(s: Seq<u8>, state: State) -> bool {
    0 < state.position <= s.len() && s[state.position - 1] == EQUALS
}

/// Reads a string, an identifier or nothing.
///
/// Directly behind `=` the value of a property may be left out: the result is empty,
/// and the cursor stays, at the end of the text and where a line ends between the
/// cursor and the next token. It is also empty before `}` within a collection.
/// Otherwise an identifier or a quoted string is read; any other token, and the end
/// of the text elsewhere, is an `UnexpectedTokenError` at the cursor.
pub open spec fn read_stringlike(s: Seq<u8>, state: State) -> Step<Seq<u8>> {
    match lex(s, state.position) {
        Lexed::Error { offset, .. } => fail(ErrorType::TokenizerError, offset, state),
        Lexed::End { .. } => if in_property(s, state) {
            done(Seq::empty(), state)
        } else {
            fail(ErrorType::UnexpectedTokenError, clamp(s, state.position), state)
        },
        Lexed::Token { token_type, index, length, .. } => if in_property(s, state) && line_end(
            s,
            state.position,
        ) < index {
            done(Seq::empty(), state)
        } else if token_type == TokenType::Identifier || token_type == TokenType::String {
            read_text(s, state, token_type)
        } else if token_type == TokenType::CloseBracket && state.depth > 0 {
            done(Seq::empty(), state)
        } else {
            fail(ErrorType::UnexpectedTokenError, clamp(s, state.position), state)
        },
    }
}

/// Reads a date.
pub open spec fn read_date(s: Seq<u8>, state: State) -> Step<Date> {
    let found = expect_one(s, state, TokenType::Date);
    match found.outcome {
        Ok(lexeme) => match date_at(s, lexeme.index, lexeme.length) {
            Ok(date) => done(date, found.state),
            Err((error_type, offset)) => fail(error_type, offset, found.state),
        },
        Err(failure) => Step { outcome: Err(failure), state: found.state },
    }
}

/// Reads a boolean: `yes` is true and `no` is false.
pub open spec fn read_boolean(s: Seq<u8>, state: State) -> Step<bool> {
    let found = expect_one(s, state, TokenType::Boolean);
    match found.outcome {
        Ok(lexeme) => done(s[lexeme.index] == 0x79, found.state),
        Err(failure) => Step { outcome: Err(failure), state: found.state },
    }
}

/// Reads a number as an integer between `lowest` and `highest`. A number that is no
/// such integer is an `InvalidNumberError` at the token.
pub open spec fn read_number(s: Seq<u8>, state: State, lowest: int, highest: int) -> Step<int> {
    let found = expect_one(s, state, TokenType::Number);
    match found.outcome {
        Ok(lexeme) => match bounded_value(
            s.subrange(lexeme.index, lexeme.index + lexeme.length),
            lowest,
            highest,
        ) {
            Some(value) => done(value, found.state),
            None => fail(ErrorType::InvalidNumberError, lexeme.index, found.state),
        },
        Err(failure) => Step { outcome: Err(failure), state: found.state },
    }
}

/// Tells an array from an object by the two tokens behind `{`, and puts the cursor
/// back.
///
/// An identifier or a date that `=` follows begins an object; `}` and anything else
/// begins an array. There is no answer where the text ends at the cursor, behind
/// `{`, or behind the identifier or date. A token other than `{` at the cursor is an
/// `UnexpectedTokenError` at that token. After an error of the tokenizer the cursor
/// stays where that error left it.
pub open spec fn try_discern_array_or_map(s: Seq<u8>, state: State) -> Step<
    Option<CollectionType>,
> {
    match lex(s, state.position) {
        Lexed::Error { offset, .. } => fail(ErrorType::TokenizerError, offset, advanced(s, state)),
        Lexed::End { .. } => done(None, state),
        Lexed::Token { token_type, index, next, .. } => if token_type != TokenType::OpenBracket {
            fail(ErrorType::UnexpectedTokenError, index, state)
        } else {
            match lex(s, next) {
                Lexed::Error { offset, start } => fail(
                    ErrorType::TokenizerError,
                    offset,
                    moved(state, start),
                ),
                Lexed::End { .. } => done(None, state),
                Lexed::Token { token_type: first, next: behind_first, .. } => if first
                    == TokenType::Identifier || first == TokenType::Date {
                    match lex(s, behind_first) {
                        Lexed::Error { offset, start } => fail(
                            ErrorType::TokenizerError,
                            offset,
                            moved(state, start),
                        ),
                        Lexed::End { .. } => done(None, state),
                        Lexed::Token { token_type: second, .. } => if second == TokenType::Equals {
                            done(Some(CollectionType::Object), state)
                        } else {
                            done(Some(CollectionType::Array), state)
                        },
                    }
                } else {
                    done(Some(CollectionType::Array), state)
                },
            }
        },
    }
}

/// Reads a date as its integer form.
pub open spec fn read_date_integer(s: Seq<u8>, state: State) -> Step<int> {
    let read = read_date(s, state);
    match read.outcome {
        Ok(date) => done(date.spec_to_u128(), read.state),
        Err(failure) => Step { outcome: Err(failure), state: read.state },
    }
}

/// Looks whether a value is present for an optional.
pub open spec fn option_present(s: Seq<u8>, state: State) -> Step<bool> {
    let empty = is_next_value_empty(s, state);
    match empty.outcome {
        Ok(is_empty) => done(!is_empty, state),
        Err(failure) => Step { outcome: Err(failure), state },
    }
}

/// A unit is a value that is left out: anything else is an `InvalidType` at the
/// cursor.
pub open spec fn read_unit(s: Seq<u8>, state: State) -> Step<()> {
    let empty = is_next_value_empty(s, state);
    match empty.outcome {
        Ok(is_empty) => if is_empty {
            done((), state)
        } else {
            fail(ErrorType::InvalidType, clamp(s, state.position), state)
        },
        Err(failure) => Step { outcome: Err(failure), state },
    }
}

/// Looks whether a sequence has another element.
pub open spec fn next_element(s: Seq<u8>, state: State) -> Step<bool> {
    let next = next_array_value(s, state);
    match next.outcome {
        Ok(real_type) => done(real_type is Some, state),
        Err(failure) => Step { outcome: Err(failure), state },
    }
}

/// Looks whether a map has another key.
pub open spec fn next_key(s: Seq<u8>, state: State) -> Step<bool> {
    let ended = is_collection_ended(s, state);
    match ended.outcome {
        Ok(has_ended) => done(!has_ended, state),
        Err(failure) => Step { outcome: Err(failure), state },
    }
}

/// Reads the `=` between a key and its value.
pub open spec fn end_key(s: Seq<u8>, state: State) -> Step<()> {
    let found = expect_one(s, state, TokenType::Equals);
    match found.outcome {
        Ok(_) => done((), found.state),
        Err(failure) => Step { outcome: Err(failure), state: found.state },
    }
}

/// Reads the name of the next field of a record and the `=` behind it; there is none
/// where the map has ended.
pub open spec fn next_field(s: Seq<u8>, state: State) -> Step<Option<Seq<u8>>> {
    let more = next_key(s, state);
    match more.outcome {
        Err(failure) => Step { outcome: Err(failure), state },
        Ok(false) => done(None, state),
        Ok(true) => {
            let name = read_text(s, state, TokenType::Identifier);
            match name.outcome {
                Err(failure) => Step { outcome: Err(failure), state: name.state },
                Ok(bytes) => {
                    let equals = end_key(s, name.state);
                    match equals.outcome {
                        Err(failure) => Step { outcome: Err(failure), state: equals.state },
                        Ok(_) => done(Some(bytes), equals.state),
                    }
                },
            }
        },
    }
}

/// Begins a map. The first map is the document: nothing is read for it. Any other
/// map is a collection, which is entered. The result says which of the two it was.
pub open spec fn begin_map(s: Seq<u8>, state: State, started: bool) -> Step<bool> {
    if started {
        let begun = begin_collection(s, state);
        match begun.outcome {
            Ok(_) => done(true, begun.state),
            Err(failure) => Step { outcome: Err(failure), state: begun.state },
        }
    } else {
        done(false, state)
    }
}

/// Ends a map: leaves the collection if the map was one.
pub open spec fn end_map(s: Seq<u8>, state: State, nested: bool) -> Step<()> {
    if nested {
        end_collection(s, state)
    } else {
        done((), state)
    }
}

/// How a variant is given in the text.
pub enum VariantForm {
    /// The text names a variant without data; the name has been read.
    Unit(Seq<u8>),
    /// What follows in the text is the data of a variant.
    Payload,
}

/// Finds out how a variant is given, by the type of the next value.
///
/// An identifier is read as the name of a variant without data. So is a string
/// that is one of the `variants`; any other string is the data of a variant. A
/// collection is the data of a variant; where the text ends within it, that is an
/// `InvalidValue` at the cursor. A number, boolean or date is the data of a variant.
/// The end of the text is an `UnexpectedTokenError`.
pub open spec fn variant_form(s: Seq<u8>, state: State, variants: Seq<Seq<u8>>) -> Step<
    VariantForm,
> {
    let next = peek_next_type_expect(s, state);
    match next.outcome {
        Err(failure) => Step { outcome: Err(failure), state },
        Ok(RealType::Identifier) => {
            let name = read_text(s, state, TokenType::Identifier);
            match name.outcome {
                Ok(bytes) => done(VariantForm::Unit(bytes), name.state),
                Err(failure) => Step { outcome: Err(failure), state: name.state },
            }
        },
        Ok(RealType::String) => {
            let peeked = peek_expected_string(s, state);
            match peeked.outcome {
                Err(failure) => Step { outcome: Err(failure), state: peeked.state },
                Ok(tag) => if variants.contains(tag) {
                    let name = read_text(s, state, TokenType::String);
                    match name.outcome {
                        Ok(bytes) => done(VariantForm::Unit(bytes), name.state),
                        Err(failure) => Step { outcome: Err(failure), state: name.state },
                    }
                } else {
                    done(VariantForm::Payload, state)
                },
            }
        },
        Ok(RealType::ObjectOrArray) => {
            let discerned = try_discern_array_or_map(s, state);
            match discerned.outcome {
                Err(failure) => Step { outcome: Err(failure), state: discerned.state },
                Ok(Some(_)) => done(VariantForm::Payload, state),
                Ok(None) => fail(ErrorType::InvalidValue, clamp(s, state.position), state),
            }
        },
        Ok(_) => done(VariantForm::Payload, state),
    }
}

/// What a value turns out to be when no type is asked of it.
pub enum AnyForm {
    /// No value: the text has ended, or ends within the collection that begins.
    Nothing,
    /// A boolean, which has been read.
    Boolean(bool),
    /// A number without `.`, which has been read.
    Integer(int),
    /// A number with `.`, which has been read: the bytes that spell it.
    Decimal(Seq<u8>),
    /// A date, which has been read: its integer form.
    Date(int),
    /// A string, an identifier in its place or nothing, which has been read.
    String(Seq<u8>),
    /// An identifier, which has been read.
    Identifier(Seq<u8>),
    /// A sequence, which has been begun.
    Sequence,
    /// A map, which has been begun; whether it is a collection and not the document.
    Mapping(bool),
}

/// Whether `bytes` hold a `.`.
pub open spec fn has_dot(bytes: Seq<u8>) -> bool {
    bytes.contains(0x2eu8)
}

/// Reads a value of whatever type comes next.
///
/// A number is an integer of 64 bits if it has no `.`, else a decimal. A collection
/// is a map if the tokens behind `{` are a key and `=`, else a sequence; it is begun.
pub open spec fn any_form(s: Seq<u8>, state: State, started: bool) -> Step<AnyForm> {
    let next = peek_next_type(s, state);
    match next.outcome {
        Err(failure) => Step { outcome: Err(failure), state },
        Ok(None) => done(AnyForm::Nothing, state),
        Ok(Some(RealType::Boolean)) => {
            let read = read_boolean(s, state);
            match read.outcome {
                Ok(value) => done(AnyForm::Boolean(value), read.state),
                Err(failure) => Step { outcome: Err(failure), state: read.state },
            }
        },
        Ok(Some(RealType::Number)) => {
            let read = read_text(s, state, TokenType::Number);
            match read.outcome {
                Err(failure) => Step { outcome: Err(failure), state: read.state },
                Ok(bytes) => if has_dot(bytes) {
                    done(AnyForm::Decimal(bytes), read.state)
                } else {
                    match bounded_value(bytes, i64::MIN as int, i64::MAX as int) {
                        Some(value) => done(AnyForm::Integer(value), read.state),
                        None => fail(
                            ErrorType::InvalidNumberError,
                            clamp(s, read.state.position - bytes.len()),
                            read.state,
                        ),
                    }
                },
            }
        },
        Ok(Some(RealType::Date)) => {
            let read = read_date_integer(s, state);
            match read.outcome {
                Ok(value) => done(AnyForm::Date(value), read.state),
                Err(failure) => Step { outcome: Err(failure), state: read.state },
            }
        },
        Ok(Some(RealType::String)) => {
            let read = read_stringlike(s, state);
            match read.outcome {
                Ok(bytes) => done(AnyForm::String(bytes), read.state),
                Err(failure) => Step { outcome: Err(failure), state: read.state },
            }
        },
        Ok(Some(RealType::Identifier)) => {
            let read = read_text(s, state, TokenType::Identifier);
            match read.outcome {
                Ok(bytes) => done(AnyForm::Identifier(bytes), read.state),
                Err(failure) => Step { outcome: Err(failure), state: read.state },
            }
        },
        Ok(Some(RealType::ObjectOrArray)) => {
            let discerned = try_discern_array_or_map(s, state);
            match discerned.outcome {
                Err(failure) => Step { outcome: Err(failure), state: discerned.state },
                Ok(None) => done(AnyForm::Nothing, state),
                Ok(Some(CollectionType::Array)) => {
                    let begun = begin_collection(s, state);
                    match begun.outcome {
                        Ok(_) => done(AnyForm::Sequence, begun.state),
                        Err(failure) => Step { outcome: Err(failure), state: begun.state },
                    }
                },
                Ok(Some(CollectionType::Object)) => {
                    let begun = begin_map(s, state, started);
                    match begun.outcome {
                        Ok(nested) => done(AnyForm::Mapping(nested), begun.state),
                        Err(failure) => Step { outcome: Err(failure), state: begun.state },
                    }
                },
            }
        },
    }
}

/// No operation of a reader moves the cursor back or beyond the end of the text.
pub proof fn lemma_steps_stay(s: Seq<u8>, state: State)
    requires
        0 <= state.position <= s.len(),
    ensures
        state.position <= advanced(s, state).position <= s.len(),
        forall|expected: Seq<TokenType>|
            state.position <= (#[trigger] expect(s, state, expected)).state.position <= s.len(),
        forall|expected: TokenType|
            state.position <= (#[trigger] expect_one(s, state, expected)).state.position
                <= s.len(),
        forall|token_type: TokenType|
            state.position <= (#[trigger] read_text(s, state, token_type)).state.position
                <= s.len(),
        forall|lowest: int, highest: int|
            state.position <= (#[trigger] read_number(s, state, lowest, highest)).state.position
                <= s.len(),
        state.position <= begin_collection(s, state).state.position <= s.len(),
        state.position <= end_collection(s, state).state.position <= s.len(),
        state.position <= next_property(s, state).state.position <= s.len(),
        state.position <= peek_expected_string(s, state).state.position <= s.len(),
        state.position <= read_stringlike(s, state).state.position <= s.len(),
        state.position <= read_date(s, state).state.position <= s.len(),
        state.position <= read_boolean(s, state).state.position <= s.len(),
        state.position <= try_discern_array_or_map(s, state).state.position <= s.len(),
{
    lemma_lex(s, state.position);
    if let Lexed::Token { next, .. } = lex(s, state.position) {
        lemma_lex(s, next);
        if let Lexed::Token { next: behind, .. } = lex(s, next) {
            lemma_lex(s, behind);
        }
    }
}

/// Entering a collection adds one to the depth and leaving one takes one from it;
/// no other operation of a reader changes the depth, nor does one that fails.
pub proof fn lemma_depth_steps(s: Seq<u8>, state: State)
    ensures
        begin_collection(s, state).state.depth == if begin_collection(s, state).outcome is Ok {
            state.depth + 1
        } else {
            state.depth
        },
        end_collection(s, state).state.depth == if end_collection(s, state).outcome is Ok {
            state.depth - 1
        } else {
            state.depth
        },
        end_collection(s, state).outcome is Ok ==> state.depth > 0,
        forall|expected: Seq<TokenType>|
            (#[trigger] expect(s, state, expected)).state.depth == state.depth,
        forall|expected: TokenType|
            (#[trigger] expect_one(s, state, expected)).state.depth == state.depth,
        forall|token_type: TokenType|
            (#[trigger] read_text(s, state, token_type)).state.depth == state.depth,
        forall|lowest: int, highest: int|
            (#[trigger] read_number(s, state, lowest, highest)).state.depth == state.depth,
        next_property(s, state).state.depth == state.depth,
        peek_expected_string(s, state).state.depth == state.depth,
        read_stringlike(s, state).state.depth == state.depth,
        read_date(s, state).state.depth == state.depth,
        read_boolean(s, state).state.depth == state.depth,
        try_discern_array_or_map(s, state).state.depth == state.depth,
{
}

/// Looking ahead changes nothing: an operation that peeks leaves the reader in the
/// state in which it found it, and so do the two that read and put the cursor back,
/// where they succeed. What is read next is what would have been read without the
/// look.
pub proof fn lemma_peeks_keep_state(s: Seq<u8>, state: State)
    ensures
        peek_next_type(s, state).state == state,
        peek_next_type_expect(s, state).state == state,
        next_array_value(s, state).state == state,
        is_collection_ended(s, state).state == state,
        is_next_value_empty(s, state).state == state,
        peek_expected_string(s, state).outcome is Ok ==> peek_expected_string(s, state).state
            == state,
        try_discern_array_or_map(s, state).outcome is Ok ==> try_discern_array_or_map(
            s,
            state,
        ).state == state,
{
}

/// Entering a collection moves the cursor forward.
pub proof fn lemma_begin_collection(s: Seq<u8>, state: State)
    ensures
        begin_collection(s, state).outcome is Ok ==> state.position < begin_collection(
            s,
            state,
        ).state.position <= s.len(),
        state.position <= begin_collection(s, state).state.position,
{
    lemma_lex(s, state.position);
}

/// Reading the key of a property moves the cursor forward.
pub proof fn lemma_next_property(s: Seq<u8>, state: State)
    ensures
        next_property(s, state).outcome matches Ok(Some(_)) ==> state.position < next_property(
            s,
            state,
        ).state.position <= s.len(),
        state.position <= next_property(s, state).state.position,
{
    lemma_lex(s, state.position);
    if let Lexed::Token { next, .. } = lex(s, state.position) {
        lemma_lex(s, next);
    }
}

/// Reads the value that comes next, whatever its type.
///
/// Nothing is read, and there is no value, at the end of the text and before a
/// collection within which the text ends. A number is an integer of 64 bits if it
/// has no `.`; one that does not fit is an `InvalidNumberError` at the number. A
/// number with `.` is kept as it is spelt. A collection is read to its `}`: as an
/// object if the tokens behind `{` are a key and `=`, else as an array.
pub open spec fn value(s: Seq<u8>, state: State) -> Step<Tree>
    decreases s.len() - state.position, 0int,
{
    let next = peek_next_type(s, state);
    match next.outcome {
        Err(failure) => Step { outcome: Err(failure), state },
        Ok(None) => done(Tree::Nothing, state),
        Ok(Some(RealType::Boolean)) => {
            let read = read_boolean(s, state);
            match read.outcome {
                Ok(value) => done(Tree::Boolean(value), read.state),
                Err(failure) => Step { outcome: Err(failure), state: read.state },
            }
        },
        Ok(Some(RealType::Identifier)) => {
            let read = read_text(s, state, TokenType::Identifier);
            match read.outcome {
                Ok(bytes) => done(Tree::Identifier(bytes), read.state),
                Err(failure) => Step { outcome: Err(failure), state: read.state },
            }
        },
        Ok(Some(RealType::String)) => {
            let read = read_text(s, state, TokenType::String);
            match read.outcome {
                Ok(bytes) => done(Tree::String(bytes), read.state),
                Err(failure) => Step { outcome: Err(failure), state: read.state },
            }
        },
        Ok(Some(RealType::Number)) => {
            let read = read_text(s, state, TokenType::Number);
            match read.outcome {
                Err(failure) => Step { outcome: Err(failure), state: read.state },
                Ok(bytes) => if has_dot(bytes) {
                    done(Tree::Decimal(bytes), read.state)
                } else {
                    match bounded_value(bytes, i64::MIN as int, i64::MAX as int) {
                        Some(value) => done(Tree::Integer(value), read.state),
                        None => fail(
                            ErrorType::InvalidNumberError,
                            clamp(s, read.state.position - bytes.len()),
                            read.state,
                        ),
                    }
                },
            }
        },
        Ok(Some(RealType::Date)) => {
            let read = read_date(s, state);
            match read.outcome {
                Ok(date) => done(Tree::Date(date), read.state),
                Err(failure) => Step { outcome: Err(failure), state: read.state },
            }
        },
        Ok(Some(RealType::ObjectOrArray)) => {
            let discerned = try_discern_array_or_map(s, state);
            match discerned.outcome {
                Err(failure) => Step { outcome: Err(failure), state: discerned.state },
                Ok(None) => done(Tree::Nothing, state),
                Ok(Some(kind)) => {
                    let begun = begin_collection(s, state);
                    match begun.outcome {
                        Err(failure) => Step { outcome: Err(failure), state: begun.state },
                        Ok(_) => {
                            proof {
                                lemma_begin_collection(s, state);
                            }
                            match kind {
                                CollectionType::Array => {
                                    let items = elements(s, begun.state, Seq::empty());
                                    match items.outcome {
                                        Err(failure) => Step {
                                            outcome: Err(failure),
                                            state: items.state,
                                        },
                                        Ok(found) => {
                                            let ended = end_collection(s, items.state);
                                            match ended.outcome {
                                                Ok(_) => done(Tree::Array(found), ended.state),
                                                Err(failure) => Step {
                                                    outcome: Err(failure),
                                                    state: ended.state,
                                                },
                                            }
                                        },
                                    }
                                },
                                CollectionType::Object => {
                                    let entries = properties(s, begun.state, Seq::empty());
                                    match entries.outcome {
                                        Err(failure) => Step {
                                            outcome: Err(failure),
                                            state: entries.state,
                                        },
                                        Ok(found) => {
                                            let ended = end_collection(s, entries.state);
                                            match ended.outcome {
                                                Ok(_) => done(Tree::Object(found), ended.state),
                                                Err(failure) => Step {
                                                    outcome: Err(failure),
                                                    state: ended.state,
                                                },
                                            }
                                        },
                                    }
                                },
                            }
                        },
                    }
                },
            }
        },
    }
}

/// Reads the values of an array up to its `}`, behind those of `found`.
///
/// A value for which nothing is read is a collection within which the text ends:
/// that is an `UnexpectedTokenError` at the cursor.
pub open spec fn elements(s: Seq<u8>, state: State, found: Seq<Tree>) -> Step<Seq<Tree>>
    decreases s.len() - state.position, 1int,
{
    let ended = is_collection_ended(s, state);
    match ended.outcome {
        Err(failure) => Step { outcome: Err(failure), state },
        Ok(true) => done(found, state),
        Ok(false) => {
            let item = value(s, state);
            match item.outcome {
                Err(failure) => Step { outcome: Err(failure), state: item.state },
                Ok(tree) => if state.position < item.state.position <= s.len() {
                    elements(s, item.state, found.push(tree))
                } else {
                    fail(ErrorType::UnexpectedTokenError, clamp(s, item.state.position), item.state)
                },
            }
        },
    }
}

/// Reads the properties of an object up to its `}`, or of the document up to the
/// end of the text, behind those of `found`: each key with its value, in the order
/// of the text.
pub open spec fn properties(s: Seq<u8>, state: State, found: Seq<(Key, Tree)>) -> Step<
    Seq<(Key, Tree)>,
>
    decreases s.len() - state.position, 1int,
{
    let property = next_property(s, state);
    match property.outcome {
        Err(failure) => Step { outcome: Err(failure), state: property.state },
        Ok(None) => done(found, property.state),
        Ok(Some((key, _))) => {
            proof {
                lemma_next_property(s, state);
            }
            let item = value(s, property.state);
            match item.outcome {
                Err(failure) => Step { outcome: Err(failure), state: item.state },
                Ok(tree) => if state.position < item.state.position <= s.len() {
                    properties(s, item.state, found.push((key, tree)))
                } else {
                    fail(ErrorType::InvalidState, clamp(s, item.state.position), item.state)
                },
            }
        },
    }
}

/// Reads a document: the properties of the text as an object.
pub open spec fn document(s: Seq<u8>, state: State) -> Step<Tree> {
    let entries = properties(s, state, Seq::empty());
    match entries.outcome {
        Ok(found) => done(Tree::Object(found), entries.state),
        Err(failure) => Step { outcome: Err(failure), state: entries.state },
    }
}

} // verus!
