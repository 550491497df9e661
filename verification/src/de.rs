//! The driver of schema-directed parsing: one entry for each shape that can be
//! asked of the text, and what the reader is made to do for it.
use crate::error::{Error, ErrorContext, ErrorContextProvider, ErrorType, CONTEXT_LINES};
use crate::grammar;
use crate::grammar::{AnyForm, State, Step, VariantForm};
use crate::number::Number;
use crate::reader::{failed, gives, gives_number, gives_text, Reader};
use crate::syntax::lemma_lex;
use crate::text::{bytes_of, clamp, find_text, holds_text, index_of_byte, index_of_text};
use crate::token::TokenType;
use crate::types::{CollectionType, RealType};
use vstd::prelude::*;
use vstd::string::StringSliceAdditionalSpecFns;

verus! {

/// How a variant is given in the text.
#[derive(Debug, PartialEq, Eq, Clone, Copy)]
pub enum Variant<'de> {
    /// The text names a variant without data; the name has been read.
    Unit(&'de str),
    /// What follows in the text is the data of a variant.
    Payload,
}

/// What a value turns out to be when no type is asked of it.
#[derive(Debug, PartialEq, Eq, Clone, Copy)]
pub enum Any<'de> {
    /// No value: the text has ended, or ends within the collection that begins.
    Nothing,
    /// A boolean, which has been read.
    Boolean(bool),
    /// A number without `.`, which has been read.
    Integer(i64),
    /// A number with `.`, which has been read: the text that spells it.
    Decimal(&'de str),
    /// A date, which has been read: its integer form.
    Date(u128),
    /// A string, an identifier in its place or nothing, which has been read.
    String(&'de str),
    /// An identifier, which has been read.
    Identifier(&'de str),
    /// A sequence, which has been begun.
    Sequence,
    /// A map, which has been begun; whether it is a collection and not the document.
    Mapping(bool),
}

impl<'de> Variant<'de> {
    /// Whether this is the form `form`.
    pub open spec fn is(self, form: VariantForm) -> bool {
        match form {
            VariantForm::Unit(bytes) => self matches Variant::Unit(name) && name.spec_bytes()
                == bytes,
            VariantForm::Payload => self is Payload,
        }
    }
}

impl<'de> Any<'de> {
    /// Whether this is the form `form`.
    pub open spec fn is(self, form: AnyForm) -> bool {
        match form {
            AnyForm::Nothing => self is Nothing,
            AnyForm::Boolean(value) => self == Any::Boolean(value),
            AnyForm::Integer(value) => self matches Any::Integer(found) && found == value,
            AnyForm::Decimal(bytes) => self matches Any::Decimal(text) && text.spec_bytes()
                == bytes,
            AnyForm::Date(value) => self matches Any::Date(found) && found == value,
            AnyForm::String(bytes) => self matches Any::String(text) && text.spec_bytes() == bytes,
            AnyForm::Identifier(bytes) => self matches Any::Identifier(text) && text.spec_bytes()
                == bytes,
            AnyForm::Sequence => self is Sequence,
            AnyForm::Mapping(nested) => self == Any::Mapping(nested),
        }
    }
}

/// Whether `result` is what `outcome` says: the same form of a variant, or an error
/// of the same kind at the same offset.
pub open spec fn gives_variant(
    result: Result<Variant, Error>,
    outcome: Result<VariantForm, grammar::Failure>,
) -> bool {
    match outcome {
        Ok(form) => result matches Ok(variant) && variant.is(form),
        Err(failure) => failed(result, failure),
    }
}

/// Whether `result` is what `outcome` says: the same form of a value, or an error
/// of the same kind at the same offset.
pub open spec fn gives_any(
    result: Result<Any, Error>,
    outcome: Result<AnyForm, grammar::Failure>,
) -> bool {
    match outcome {
        Ok(form) => result matches Ok(any) && any.is(form),
        Err(failure) => failed(result, failure),
    }
}

/// Whether `result` is what `outcome` says: the name of a field with the same bytes,
/// no field, or an error of the same kind at the same offset.
pub open spec fn gives_field(
    result: Result<Option<&str>, Error>,
    outcome: Result<Option<Seq<u8>>, grammar::Failure>,
) -> bool {
    match outcome {
        Ok(Some(bytes)) => result matches Ok(Some(name)) && name.spec_bytes() == bytes,
        Ok(None) => result matches Ok(None),
        Err(failure) => failed(result, failure),
    }
}

/// Whether `result` is what `outcome` says: the same integer, or an error of the
/// same kind at the same offset.
pub open spec fn gives_wide(
    result: Result<u128, Error>,
    outcome: Result<int, grammar::Failure>,
) -> bool {
    match outcome {
        Ok(value) => result matches Ok(found) && found == value,
        Err(failure) => failed(result, failure),
    }
}

/// Drives a [Reader] by the shapes that are asked of the text.
///
/// A document is one map without brackets. The driver remembers whether that map
/// has been begun: the first map that is asked for is the document, every later one
/// a collection in brackets.
pub struct Deserializer<'de> {
    reader: Reader<'de>,
    started_base_struct: bool,
}

impl<'de> Deserializer<'de> {
    /// The text that this driver reads.
    pub closed spec fn text(&self) -> &'de str {
        self.reader.text()
    }

    /// The bytes of the source text.
    pub open spec fn source(&self) -> Seq<u8> {
        self.text().spec_bytes()
    }

    /// The state of the reader.
    pub closed spec fn state(&self) -> State {
        self.reader.state()
    }

    /// Whether the map of the document has been begun.
    pub closed spec fn started(&self) -> bool {
        self.started_base_struct
    }

    /// The cursor and the depth are numbers that the machine can hold.
    pub proof fn lemma_state(&self)
        ensures
            0 <= self.state().position <= usize::MAX,
            0 <= self.state().depth <= usize::MAX,
    {
        self.reader.lemma_state();
    }

    /// Whether this driver has come from `before` by a step of its reader that left
    /// the rest as it was.
    pub open spec fn after<V>(&self, before: Self, step: Step<V>) -> bool {
        &&& self.text() == before.text()
        &&& self.started() == before.started()
        &&& self.state() == step.state
    }

    /// Creates a driver at the beginning of the given text.
    pub fn from_str(input: &'de str) -> (driver: Deserializer<'de>)
        ensures
            driver.text() == input,
            driver.state() == (State { position: 0, depth: 0 }),
            !driver.started(),
    {
        Deserializer { reader: Reader::new(input), started_base_struct: false }
    }

    /// Returns the byte offset of the cursor in the source.
    pub fn current_position(&self) -> (position: usize)
        ensures
            position == self.state().position,
    {
        self.reader.current_position()
    }

    /// Returns the number of collections that have been entered and not left.
    pub fn current_depth(&self) -> (depth: usize)
        ensures
            depth == self.state().depth,
    {
        self.reader.current_depth()
    }

    /// Creates a new [Error] at the cursor.
    pub fn parse_error(&self, error_type: ErrorType, message: &str) -> (error: Error)
        ensures
            error.is(error_type, clamp(self.source(), self.state().position)),
            error.message@ == message@,
    {
        self.reader.parse_error(error_type, message)
    }

    /// Ends a parse: an error that carries no context yet gets the lines around the
    /// cursor.
    pub fn finish<T>(&self, result: Result<T, Error>) -> (finished: Result<T, Error>)
        ensures
            match result {
                Ok(value) => finished matches Ok(found) && found == value,
                Err(error) => {
                    &&& finished matches Err(found)
                    &&& found.error_type == error.error_type
                    &&& found.position == error.position
                    &&& found.message == error.message
                    &&& if error.context is Some {
                        found.context == error.context
                    } else {
                        found.context matches Some(context) && context.describes(
                            self.source(),
                            self.state().position,
                            CONTEXT_LINES as int,
                        )
                    }
                },
            },
    {
        match result {
            Ok(value) => Ok(value),
            Err(error) => {
                if error.has_context() {
                    Err(error)
                } else {
                    Err(error.with_context(&self.reader, self.reader.current_position()))
                }
            },
        }
    }

    /// Reads a boolean.
    pub fn deserialize_bool(&mut self) -> (result: Result<bool, Error>)
        ensures
            final(self).after(
                *old(self),
                grammar::read_boolean(old(self).source(), old(self).state()),
            ),
            gives(result, grammar::read_boolean(old(self).source(), old(self).state()).outcome),
    {
        self.reader.read_boolean()
    }

    /// Reads a number as an integer of the type `T`.
    pub fn deserialize_number<T: Number>(&mut self) -> (result: Result<T, Error>)
        ensures
            final(self).after(
                *old(self),
                grammar::read_number(
                    old(self).source(),
                    old(self).state(),
                    T::lowest(),
                    T::highest(),
                ),
            ),
            gives_number(
                result,
                grammar::read_number(
                    old(self).source(),
                    old(self).state(),
                    T::lowest(),
                    T::highest(),
                ).outcome,
            ),
    {
        self.reader.read_number::<T>()
    }

    /// Reads a number as an `i8`.
    pub fn deserialize_i8(&mut self) -> (result: Result<i8, Error>)
        ensures
            final(self).after(
                *old(self),
                grammar::read_number(
                    old(self).source(),
                    old(self).state(),
                    i8::MIN as int,
                    i8::MAX as int,
                ),
            ),
            gives_number(
                result,
                grammar::read_number(
                    old(self).source(),
                    old(self).state(),
                    i8::MIN as int,
                    i8::MAX as int,
                ).outcome,
            ),
    {
        self.deserialize_number::<i8>()
    }

    /// Reads a number as an `i16`.
    pub fn deserialize_i16(&mut self) -> (result: Result<i16, Error>)
        ensures
            final(self).after(
                *old(self),
                grammar::read_number(
                    old(self).source(),
                    old(self).state(),
                    i16::MIN as int,
                    i16::MAX as int,
                ),
            ),
            gives_number(
                result,
                grammar::read_number(
                    old(self).source(),
                    old(self).state(),
                    i16::MIN as int,
                    i16::MAX as int,
                ).outcome,
            ),
    {
        self.deserialize_number::<i16>()
    }

    /// Reads a number as an `i32`.
    pub fn deserialize_i32(&mut self) -> (result: Result<i32, Error>)
        ensures
            final(self).after(
                *old(self),
                grammar::read_number(
                    old(self).source(),
                    old(self).state(),
                    i32::MIN as int,
                    i32::MAX as int,
                ),
            ),
            gives_number(
                result,
                grammar::read_number(
                    old(self).source(),
                    old(self).state(),
                    i32::MIN as int,
                    i32::MAX as int,
                ).outcome,
            ),
    {
        self.deserialize_number::<i32>()
    }

    /// Reads a number as an `i64`.
    pub fn deserialize_i64(&mut self) -> (result: Result<i64, Error>)
        ensures
            final(self).after(
                *old(self),
                grammar::read_number(
                    old(self).source(),
                    old(self).state(),
                    i64::MIN as int,
                    i64::MAX as int,
                ),
            ),
            gives_number(
                result,
                grammar::read_number(
                    old(self).source(),
                    old(self).state(),
                    i64::MIN as int,
                    i64::MAX as int,
                ).outcome,
            ),
    {
        self.deserialize_number::<i64>()
    }

    /// Reads a number as an `u8`.
    pub fn deserialize_u8(&mut self) -> (result: Result<u8, Error>)
        ensures
            final(self).after(
                *old(self),
                grammar::read_number(
                    old(self).source(),
                    old(self).state(),
                    u8::MIN as int,
                    u8::MAX as int,
                ),
            ),
            gives_number(
                result,
                grammar::read_number(
                    old(self).source(),
                    old(self).state(),
                    u8::MIN as int,
                    u8::MAX as int,
                ).outcome,
            ),
    {
        self.deserialize_number::<u8>()
    }

    /// Reads a number as an `u16`.
    pub fn deserialize_u16(&mut self) -> (result: Result<u16, Error>)
        ensures
            final(self).after(
                *old(self),
                grammar::read_number(
                    old(self).source(),
                    old(self).state(),
                    u16::MIN as int,
                    u16::MAX as int,
                ),
            ),
            gives_number(
                result,
                grammar::read_number(
                    old(self).source(),
                    old(self).state(),
                    u16::MIN as int,
                    u16::MAX as int,
                ).outcome,
            ),
    {
        self.deserialize_number::<u16>()
    }

    /// Reads a number as an `u32`.
    pub fn deserialize_u32(&mut self) -> (result: Result<u32, Error>)
        ensures
            final(self).after(
                *old(self),
                grammar::read_number(
                    old(self).source(),
                    old(self).state(),
                    u32::MIN as int,
                    u32::MAX as int,
                ),
            ),
            gives_number(
                result,
                grammar::read_number(
                    old(self).source(),
                    old(self).state(),
                    u32::MIN as int,
                    u32::MAX as int,
                ).outcome,
            ),
    {
        self.deserialize_number::<u32>()
    }

    /// Reads a number as an `u64`.
    pub fn deserialize_u64(&mut self) -> (result: Result<u64, Error>)
        ensures
            final(self).after(
                *old(self),
                grammar::read_number(
                    old(self).source(),
                    old(self).state(),
                    u64::MIN as int,
                    u64::MAX as int,
                ),
            ),
            gives_number(
                result,
                grammar::read_number(
                    old(self).source(),
                    old(self).state(),
                    u64::MIN as int,
                    u64::MAX as int,
                ).outcome,
            ),
    {
        self.deserialize_number::<u64>()
    }

    /// Reads a number as it is spelt, for a type with a fraction.
    pub fn deserialize_decimal(&mut self) -> (result: Result<&'de str, Error>)
        ensures
            final(self).after(
                *old(self),
                grammar::read_text(old(self).source(), old(self).state(), TokenType::Number),
            ),
            gives_text(
                result,
                grammar::read_text(
                    old(self).source(),
                    old(self).state(),
                    TokenType::Number,
                ).outcome,
            ),
    {
        self.reader.read_number_as_str()
    }

    /// Reads a date as its integer form.
    pub fn deserialize_u128(&mut self) -> (result: Result<u128, Error>)
        ensures
            final(self).after(
                *old(self),
                grammar::read_date_integer(old(self).source(), old(self).state()),
            ),
            gives_wide(
                result,
                grammar::read_date_integer(old(self).source(), old(self).state()).outcome,
            ),
    {
        match self.reader.read_date() {
            Ok(date) => Ok(date.to_u128()),
            Err(error) => Err(error),
        }
    }

    /// Reads a string, an identifier in its place, or nothing.
    pub fn deserialize_str(&mut self) -> (result: Result<&'de str, Error>)
        ensures
            final(self).after(
                *old(self),
                grammar::read_stringlike(old(self).source(), old(self).state()),
            ),
            gives_text(
                result,
                grammar::read_stringlike(old(self).source(), old(self).state()).outcome,
            ),
    {
        self.reader.read_stringlike()
    }

    /// Reads a string, an identifier in its place, or nothing.
    pub fn deserialize_string(&mut self) -> (result: Result<&'de str, Error>)
        ensures
            final(self).after(
                *old(self),
                grammar::read_stringlike(old(self).source(), old(self).state()),
            ),
            gives_text(
                result,
                grammar::read_stringlike(old(self).source(), old(self).state()).outcome,
            ),
    {
        self.deserialize_str()
    }

    /// Reads an identifier.
    pub fn deserialize_identifier(&mut self) -> (result: Result<&'de str, Error>)
        ensures
            final(self).after(
                *old(self),
                grammar::read_text(old(self).source(), old(self).state(), TokenType::Identifier),
            ),
            gives_text(
                result,
                grammar::read_text(
                    old(self).source(),
                    old(self).state(),
                    TokenType::Identifier,
                ).outcome,
            ),
    {
        self.reader.read_identifier()
    }

    /// Looks whether an optional has a value: it has none where the value of the
    /// property is left out.
    pub fn deserialize_option(&mut self) -> (result: Result<bool, Error>)
        ensures
            final(self).after(
                *old(self),
                grammar::option_present(old(self).source(), old(self).state()),
            ),
            gives(result, grammar::option_present(old(self).source(), old(self).state()).outcome),
    {
        match self.reader.is_next_value_empty() {
            Ok(empty) => Ok(!empty),
            Err(error) => Err(error),
        }
    }

    /// Reads a unit: the value of the property must be left out.
    pub fn deserialize_unit(&mut self) -> (result: Result<(), Error>)
        ensures
            final(self).after(
                *old(self),
                grammar::read_unit(old(self).source(), old(self).state()),
            ),
            gives(result, grammar::read_unit(old(self).source(), old(self).state()).outcome),
    {
        match self.reader.is_next_value_empty() {
            Ok(true) => Ok(()),
            Ok(false) => Err(
                self.reader.parse_error(ErrorType::InvalidType, "expected unit, found value"),
            ),
            Err(error) => Err(error),
        }
    }

    /// Reads a unit struct, which is a unit.
    pub fn deserialize_unit_struct(&mut self) -> (result: Result<(), Error>)
        ensures
            final(self).after(
                *old(self),
                grammar::read_unit(old(self).source(), old(self).state()),
            ),
            gives(result, grammar::read_unit(old(self).source(), old(self).state()).outcome),
    {
        self.deserialize_unit()
    }

    /// Begins a sequence or tuple: enters a collection.
    pub fn begin_seq(&mut self) -> (result: Result<(), Error>)
        ensures
            final(self).after(
                *old(self),
                grammar::begin_collection(old(self).source(), old(self).state()),
            ),
            gives(result, grammar::begin_collection(old(self).source(), old(self).state()).outcome),
    {
        match self.reader.begin_collection() {
            Ok(_) => Ok(()),
            Err(error) => Err(error),
        }
    }

    /// Looks whether the sequence has another element.
    pub fn next_element(&mut self) -> (result: Result<bool, Error>)
        ensures
            final(self).after(
                *old(self),
                grammar::next_element(old(self).source(), old(self).state()),
            ),
            gives(result, grammar::next_element(old(self).source(), old(self).state()).outcome),
    {
        match self.reader.next_array_value() {
            Ok(real_type) => Ok(real_type.is_some()),
            Err(error) => Err(error),
        }
    }

    /// Ends a sequence or tuple: leaves the collection.
    pub fn end_seq(&mut self) -> (result: Result<(), Error>)
        ensures
            final(self).after(
                *old(self),
                grammar::end_collection(old(self).source(), old(self).state()),
            ),
            gives(result, grammar::end_collection(old(self).source(), old(self).state()).outcome),
    {
        match self.reader.end_collection() {
            Ok(_) => Ok(()),
            Err(error) => Err(error),
        }
    }

    /// Begins a map or record, and says whether it is a collection in brackets: the
    /// first map is the document, which is not.
    pub fn begin_map(&mut self) -> (result: Result<bool, Error>)
        ensures
            final(self).text() == old(self).text(),
            final(self).started(),
            final(self).state() == grammar::begin_map(
                old(self).source(),
                old(self).state(),
                old(self).started(),
            ).state,
            gives(
                result,
                grammar::begin_map(
                    old(self).source(),
                    old(self).state(),
                    old(self).started(),
                ).outcome,
            ),
    {
        if self.started_base_struct {
            match self.reader.begin_collection() {
                Ok(_) => Ok(true),
                Err(error) => Err(error),
            }
        } else {
            self.started_base_struct = true;
            Ok(false)
        }
    }

    /// Looks whether the map has another key.
    pub fn next_key(&mut self) -> (result: Result<bool, Error>)
        ensures
            final(self).after(*old(self), grammar::next_key(old(self).source(), old(self).state())),
            gives(result, grammar::next_key(old(self).source(), old(self).state()).outcome),
    {
        match self.reader.is_collection_ended() {
            Ok(ended) => Ok(!ended),
            Err(error) => Err(error),
        }
    }

    /// Reads the `=` between a key and its value.
    pub fn end_key(&mut self) -> (result: Result<(), Error>)
        ensures
            final(self).after(*old(self), grammar::end_key(old(self).source(), old(self).state())),
            gives(result, grammar::end_key(old(self).source(), old(self).state()).outcome),
    {
        match self.reader.expect_token(TokenType::Equals) {
            Ok(_) => Ok(()),
            Err(error) => Err(error),
        }
    }

    /// Reads the name of the next field of a record and the `=` behind it, if the
    /// record has another field.
    pub fn next_field(&mut self) -> (result: Result<Option<&'de str>, Error>)
        ensures
            final(self).after(
                *old(self),
                grammar::next_field(old(self).source(), old(self).state()),
            ),
            gives_field(result, grammar::next_field(old(self).source(), old(self).state()).outcome),
    {
        match self.next_key() {
            Ok(true) => {},
            Ok(false) => {
                return Ok(None);
            },
            Err(error) => {
                return Err(error);
            },
        }
        let name = match self.deserialize_identifier() {
            Ok(name) => name,
            Err(error) => {
                return Err(error);
            },
        };
        match self.end_key() {
            Ok(_) => Ok(Some(name)),
            Err(error) => Err(error),
        }
    }

    /// Ends a map or record; `nested` is what `begin_map` returned for it.
    pub fn end_map(&mut self, nested: bool) -> (result: Result<(), Error>)
        ensures
            final(self).after(
                *old(self),
                grammar::end_map(old(self).source(), old(self).state(), nested),
            ),
            gives(result, grammar::end_map(old(self).source(), old(self).state(), nested).outcome),
    {
        if nested {
            match self.reader.end_collection() {
                Ok(_) => Ok(()),
                Err(error) => Err(error),
            }
        } else {
            Ok(())
        }
    }

    /// Finds out how a variant of an enumerated type is given, whose variants have the
    /// names `variants`.
    pub fn deserialize_enum(&mut self, variants: &[&str]) -> (result: Result<Variant<'de>, Error>)
        ensures
            final(self).after(
                *old(self),
                grammar::variant_form(old(self).source(), old(self).state(), bytes_of(variants@)),
            ),
            gives_variant(
                result,
                grammar::variant_form(
                    old(self).source(),
                    old(self).state(),
                    bytes_of(variants@),
                ).outcome,
            ),
    {
        let next_type = match self.reader.peek_next_type_expect() {
            Ok(next_type) => next_type,
            Err(error) => {
                return Err(error);
            },
        };
        match next_type {
            RealType::Identifier => match self.reader.read_identifier() {
                Ok(name) => Ok(Variant::Unit(name)),
                Err(error) => Err(error),
            },
            RealType::String => {
                let tag = match self.reader.peek_expected_string() {
                    Ok(tag) => tag,
                    Err(error) => {
                        return Err(error);
                    },
                };
                if holds_text(variants, tag) {
                    match self.reader.read_string() {
                        Ok(name) => Ok(Variant::Unit(name)),
                        Err(error) => Err(error),
                    }
                } else {
                    Ok(Variant::Payload)
                }
            },
            RealType::ObjectOrArray => match self.reader.try_discern_array_or_map() {
                Ok(Some(_)) => Ok(Variant::Payload),
                Ok(None) => Err(
                    self.reader.parse_error(
                        ErrorType::InvalidValue,
                        "expected enum value, found the end of the text",
                    ),
                ),
                Err(error) => Err(error),
            },
            _ => Ok(Variant::Payload),
        }
    }

    /// Finds the variant that `name` names: its index among `variants`. A name that
    /// is none of them is an `UnknownVariant` at the cursor.
    pub fn variant_index(&self, name: &str, variants: &[&str]) -> (result: Result<usize, Error>)
        ensures
            if find_text(bytes_of(variants@), 0, name.spec_bytes()) < variants.len() {
                result == Ok::<usize, Error>(
                    find_text(bytes_of(variants@), 0, name.spec_bytes()) as usize,
                )
            } else {
                result matches Err(error) && error.is(
                    ErrorType::UnknownVariant,
                    clamp(self.source(), self.state().position),
                )
            },
    {
        let index = index_of_text(variants, name);
        if index < variants.len() {
            Ok(index)
        } else {
            Err(self.reader.parse_error(ErrorType::UnknownVariant, "unknown variant"))
        }
    }

    /// The data of a variant without data cannot be read: a variant that is given by
    /// data has data. This is an `UnexpectedTokenError` at the cursor.
    pub fn unit_variant(&self) -> (result: Result<(), Error>)
        ensures
            failed(
                result,
                grammar::Failure {
                    error_type: ErrorType::UnexpectedTokenError,
                    offset: clamp(self.source(), self.state().position),
                },
            ),
    {
        Err(self.reader.parse_error(ErrorType::UnexpectedTokenError, "expected string"))
    }

    /// Reads a value of whatever type comes next, and begins it if it is a sequence
    /// or a map.
    pub fn deserialize_any(&mut self) -> (result: Result<Any<'de>, Error>)
        ensures
            final(self).text() == old(self).text(),
            final(self).started() == (old(self).started() || (result matches Ok(Any::Mapping(_)))),
            final(self).state() == grammar::any_form(
                old(self).source(),
                old(self).state(),
                old(self).started(),
            ).state,
            gives_any(
                result,
                grammar::any_form(
                    old(self).source(),
                    old(self).state(),
                    old(self).started(),
                ).outcome,
            ),
    {
        proof {
            self.reader.lemma_state();
            lemma_lex(self.source(), self.state().position);
        }
        let next_type = match self.reader.peek_next_type() {
            Ok(Some(next_type)) => next_type,
            Ok(None) => {
                return Ok(Any::Nothing);
            },
            Err(error) => {
                return Err(error);
            },
        };
        match next_type {
            RealType::Boolean => match self.deserialize_bool() {
                Ok(value) => Ok(Any::Boolean(value)),
                Err(error) => Err(error),
            },
            RealType::Number => {
                let number = match self.reader.read_number_as_str() {
                    Ok(number) => number,
                    Err(error) => {
                        return Err(error);
                    },
                };
                let bytes = number.as_bytes();
                let dot = index_of_byte(bytes, 0, 0x2e);
                proof {
                    crate::text::lemma_find_byte(bytes@, 0, 0x2e);
                    if dot < bytes.len() {
                        assert(bytes@[dot as int] == 0x2eu8);
                    }
                    assert(grammar::has_dot(bytes@) == (dot < bytes.len()));
                }
                if dot < bytes.len() {
                    Ok(Any::Decimal(number))
                } else {
                    match self.reader.parse_number::<i64>(number) {
                        Ok(value) => Ok(Any::Integer(value)),
                        Err(error) => Err(error),
                    }
                }
            },
            RealType::Date => match self.deserialize_u128() {
                Ok(value) => Ok(Any::Date(value)),
                Err(error) => Err(error),
            },
            RealType::String => match self.deserialize_string() {
                Ok(text) => Ok(Any::String(text)),
                Err(error) => Err(error),
            },
            RealType::Identifier => match self.deserialize_identifier() {
                Ok(text) => Ok(Any::Identifier(text)),
                Err(error) => Err(error),
            },
            RealType::ObjectOrArray => match self.reader.try_discern_array_or_map() {
                Ok(Some(CollectionType::Array)) => match self.begin_seq() {
                    Ok(_) => Ok(Any::Sequence),
                    Err(error) => Err(error),
                },
                Ok(Some(CollectionType::Object)) => match self.begin_map() {
                    Ok(nested) => Ok(Any::Mapping(nested)),
                    Err(error) => Err(error),
                },
                Ok(None) => Ok(Any::Nothing),
                Err(error) => Err(error),
            },
        }
    }
}

impl<'de> ErrorContextProvider for Deserializer<'de> {
    open spec fn provided_source(&self) -> Seq<u8> {
        self.source()
    }

    open spec fn provides_context(&self) -> bool {
        true
    }

    fn get_line_context(&self, position: usize, max_lines: usize) -> (context: Option<
        ErrorContext,
    >) {
        self.reader.get_line_context(position, max_lines)
    }
}

} // verus!
