use crate::number::{decimal_chars, decimal_text};
use crate::tokenizer::Tokenizer;
use vstd::prelude::*;

verus! {

/// The kind of a single token of a source text.
#[derive(Debug, Eq, PartialEq, Clone, Copy, Structural)]
pub enum TokenType {
    /// A non-string bit of text.
    Identifier,
    /// An integer or decimal number.
    Number,
    /// A string wrapped in double quotes.
    String,
    /// The `=` symbol.
    Equals,
    /// The `{` symbol.
    OpenBracket,
    /// The `}` symbol.
    CloseBracket,
    /// The `>` symbol.
    GreaterThan,
    /// The `<` symbol.
    LessThan,
    /// The `>=` symbol.
    GreaterThanEq,
    /// The `<=` symbol.
    LessThanEq,
    /// The `?=` symbol.
    ExistenceCheck,
    /// A yes or no value.
    Boolean,
    /// A token in the form `\d+.\d+.\d+(.\d+)?`.
    Date,
}

impl TokenType {
    /// The name of this kind, as error messages give it.
    pub open spec fn spec_name(self) -> Seq<char> {
        match self {
            TokenType::Identifier => "Identifier"@,
            TokenType::Number => "Number"@,
            TokenType::String => "String"@,
            TokenType::Equals => "Equals"@,
            TokenType::OpenBracket => "OpenBracket"@,
            TokenType::CloseBracket => "CloseBracket"@,
            TokenType::GreaterThan => "GreaterThan"@,
            TokenType::LessThan => "LessThan"@,
            TokenType::GreaterThanEq => "GreaterThanEq"@,
            TokenType::LessThanEq => "LessThanEq"@,
            TokenType::ExistenceCheck => "ExistenceCheck"@,
            TokenType::Boolean => "Boolean"@,
            TokenType::Date => "Date"@,
        }
    }

    /// The name of this kind, as error messages give it.
    pub fn name(&self) -> (name: &'static str)
        ensures
            name@ == self.spec_name(),
    {
        match self {
            TokenType::Identifier => "Identifier",
            TokenType::Number => "Number",
            TokenType::String => "String",
            TokenType::Equals => "Equals",
            TokenType::OpenBracket => "OpenBracket",
            TokenType::CloseBracket => "CloseBracket",
            TokenType::GreaterThan => "GreaterThan",
            TokenType::LessThan => "LessThan",
            TokenType::GreaterThanEq => "GreaterThanEq",
            TokenType::LessThanEq => "LessThanEq",
            TokenType::ExistenceCheck => "ExistenceCheck",
            TokenType::Boolean => "Boolean",
            TokenType::Date => "Date",
        }
    }
}

/// A token that a [Tokenizer] can produce.
pub trait ConstructableToken: Sized {
    /// Whether this value stands for the token of the given kind that covers
    /// `length` bytes of `source` from `index` on.
    spec fn represents(
        &self,
        source: Seq<u8>,
        token_type: TokenType,
        index: usize,
        length: usize,
    ) -> bool;

    /// Creates a token from its kind and its bounds in the tokenizer's source.
    fn from_tokenizer(t: &Tokenizer, token_type: TokenType, index: usize, length: usize) -> (token:
        Self)
        requires
            t.covers(index as int, index + length),
        ensures
            token.represents(t.source(), token_type, index, length),
    ;
}

/// A single token: its kind and the bytes of the source that it covers.
#[derive(Debug, Eq, PartialEq, Clone, Copy, Structural)]
pub struct Token {
    /// The byte offset of this token in the source text.
    pub index: usize,
    /// The length of this token in bytes.
    pub length: usize,
    /// The type of this token.
    pub token_type: TokenType,
}

impl Token {
    /// Creates a new token with the given type and bounds.
    pub fn new(token_type: TokenType, index: usize, length: usize) -> (token: Token)
        ensures
            token == (Token { index, length, token_type }),
    {
        Token { index, length, token_type }
    }

    /// What this token is, in words: its kind, its offset and its length.
    pub open spec fn description(self) -> Seq<char> {
        "token type "@ + self.token_type.spec_name() + " at pos "@ + decimal_chars(
            self.index as nat,
        ) + ", length "@ + decimal_chars(self.length as nat)
    }

    /// Says what this token is: its kind, its offset and its length.
    pub fn describe(&self) -> (text: String)
        ensures
            text@ == self.description(),
    {
        let mut text = "token type ".to_owned();
        text.append(self.token_type.name());
        text.append(" at pos ");
        text.append(decimal_text(self.index).as_str());
        text.append(", length ");
        text.append(decimal_text(self.length).as_str());
        text
    }
}

impl ConstructableToken for Token {
    open spec fn represents(
        &self,
        source: Seq<u8>,
        token_type: TokenType,
        index: usize,
        length: usize,
    ) -> bool {
        *self == (Token { index, length, token_type })
    }

    fn from_tokenizer(_t: &Tokenizer, token_type: TokenType, index: usize, length: usize) -> (token:
        Self) {
        Token::new(token_type, index, length)
    }
}

/// A token that owns the text that it covers.
#[derive(Debug)]
pub struct OwnedToken {
    /// The byte offset of this token in the source text.
    pub index: usize,
    /// The type of this token.
    pub token_type: TokenType,
    /// The text of this token.
    pub value: String,
}

impl ConstructableToken for OwnedToken {
    open spec fn represents(
        &self,
        source: Seq<u8>,
        token_type: TokenType,
        index: usize,
        length: usize,
    ) -> bool {
        &&& self.index == index
        &&& self.token_type == token_type
        &&& vstd::utf8::encode_utf8(self.value@) == source.subrange(index as int, index + length)
    }

    fn from_tokenizer(t: &Tokenizer, token_type: TokenType, index: usize, length: usize) -> (token:
        Self) {
        OwnedToken { index, token_type, value: t.str_for_range((index, index + length)).to_owned() }
    }
}

} // verus!
