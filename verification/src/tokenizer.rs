use crate::error::{Error, ErrorContext, ErrorContextProvider, ErrorType, ParseResult};
use crate::number::parse_bounded;
use crate::syntax::{
    blank_len, cursor_after, date_at, date_fields, date_of, identifier_end, is_boolean_word,
    is_digit, is_identifier_part, lemma_lex, lemma_lexeme_edges, lex, lex_all, lex_at,
    scan_number, skip_from, skip_trivia, Lexed, Lexeme, CLOSE_BRACKET, COLON, COMMENT, DOT,
    EQUALS, GREATER, LESS, MINUS, OPEN_BRACKET, QUESTION, QUOTE, UNDERSCORE,
};
use crate::text::{
    at_plain_byte, clamp, index_of_byte, lemma_find_byte, lemma_plain_byte_boundary, line_end,
    slice_of, NEW_LINE,
};
use crate::token::{ConstructableToken, OwnedToken, Token, TokenType};
use crate::types::Date;
use std::marker::PhantomData;
use vstd::prelude::*;
use vstd::string::StringSliceAdditionalSpecFns;
use vstd::utf8::{encode_utf8_valid_utf8, is_char_boundary, valid_utf8};

verus! {

/// What a scan found: the kind of a token, its index, its length and the place of
/// the cursor after it; or the offset of an error.
type Scan = Result<(TokenType, usize, usize, usize), usize>;

/// Whether a scan that began at `start` found what the lexical rules give.
spec fn scan_is(s: Seq<u8>, start: int, scan: Scan, lexed: Lexed) -> bool {
    match lexed {
        Lexed::End { .. } => false,
        Lexed::Token { token_type, index, length, next } => {
            &&& scan == Ok::<(TokenType, usize, usize, usize), usize>(
                (token_type, index as usize, length as usize, next as usize),
            )
            &&& start <= index <= index + length <= next <= s.len()
            &&& start < next
            &&& at_plain_byte(s, index)
            &&& at_plain_byte(s, index + length)
        },
        Lexed::Error { start: begin, offset } => {
            &&& scan == Err::<(TokenType, usize, usize, usize), usize>(offset as usize)
            &&& begin == start
            &&& 0 <= offset < s.len()
        },
    }
}

/// Whether `byte` is a decimal digit.
fn digit(byte: u8) -> (is: bool)
    ensures
        is == is_digit(byte),
{
    0x30 <= byte && byte <= 0x39
}

/// Whether an identifier can go on with `byte`.
fn identifier_part(byte: u8) -> (is: bool)
    ensures
        is == is_identifier_part(byte),
{
    byte == UNDERSCORE || byte == COLON || (0x41 <= byte && byte <= 0x5a) || (0x61 <= byte && byte
        <= 0x7a) || digit(byte)
}

/// The number of bytes of the blank character at `index`, 0 where there is none.
fn blank_size(bytes: &[u8], index: usize) -> (size: usize)
    requires
        index < bytes.len(),
    ensures
        size == blank_len(bytes@, index as int),
{
    let first = bytes[index];
    if (0x09 <= first && first <= 0x0d) || first == 0x20 {
        return 1;
    }
    let left = bytes.len() - index;
    if left >= 2 {
        let second = bytes[index + 1];
        if first == 0xc2 && (second == 0x85 || second == 0xa0) {
            return 2;
        }
        if left >= 3 {
            let third = bytes[index + 2];
            if first == 0xe1 && second == 0x9a && third == 0x80 {
                return 3;
            }
            if first == 0xe2 && second == 0x80 && ((0x80 <= third && third <= 0x8a) || third
                == 0xa8 || third == 0xa9 || third == 0xaf) {
                return 3;
            }
            if first == 0xe2 && second == 0x81 && third == 0x9f {
                return 3;
            }
            if first == 0xe3 && second == 0x80 && third == 0x80 {
                return 3;
            }
        }
    }
    0
}

/// Passes over blanks and comments from `from` on.
fn skip_blanks(bytes: &[u8], from: usize) -> (index: usize)
    ensures
        index == skip_trivia(bytes@, from as int),
        from <= index,
        index <= bytes.len() || index == from,
{
    let mut index = from;
    let mut in_comment = false;
    loop
        invariant
            from <= index,
            index <= bytes.len() || index == from,
            skip_from(bytes@, index as int, in_comment) == skip_trivia(bytes@, from as int),
        decreases bytes.len() - index,
    {
        if index >= bytes.len() {
            return index;
        }
        let byte = bytes[index];
        if in_comment {
            in_comment = byte != NEW_LINE;
            index += 1;
        } else if byte == COMMENT {
            in_comment = true;
            index += 1;
        } else {
            let size = blank_size(bytes, index);
            if size == 0 {
                return index;
            }
            index += size;
        }
    }
}

/// Reads the number or date that begins at `start`.
fn scan_digits(bytes: &[u8], start: usize, negative: bool) -> (scan: Scan)
    requires
        start < bytes.len(),
        bytes[start as int] == MINUS || is_digit(bytes[start as int]),
        negative == (bytes[start as int] == MINUS),
    ensures
        scan_is(
            bytes@,
            start as int,
            scan,
            scan_number(bytes@, start as int, start + 1, negative, negative, 0, start as int),
        ),
{
    let mut index = start + 1;
    let mut fresh = negative;
    let mut dots: usize = 0;
    let mut last_dot = start;
    let ghost goal = scan_number(
        bytes@,
        start as int,
        start + 1,
        negative,
        negative,
        0,
        start as int,
    );
    loop
        invariant
            start < index <= bytes.len(),
            dots <= index - start,
            start <= last_dot < index,
            bytes[index - 1] < 0x80,
            bytes[start as int] < 0x80,
            goal == scan_number(
                bytes@,
                start as int,
                start + 1,
                negative,
                negative,
                0,
                start as int,
            ),
            scan_number(
                bytes@,
                start as int,
                index as int,
                negative,
                fresh,
                dots as nat,
                last_dot as int,
            ) == goal,
        decreases bytes.len() - index,
    {
        if index < bytes.len() && bytes[index] == DOT {
            if fresh {
                return Err(index);
            }
            if dots >= 1 && negative {
                return Err(start);
            }
            fresh = true;
            dots += 1;
            last_dot = index;
            index += 1;
        } else if index < bytes.len() && digit(bytes[index]) {
            fresh = false;
            index += 1;
        } else if fresh {
            return Err(index - 1);
        } else if dots <= 1 {
            return Ok((TokenType::Number, start, index - start, index));
        } else if dots <= 3 {
            return Ok((TokenType::Date, start, index - start, index));
        } else {
            return Err(last_dot);
        }
    }
}

/// Finds where the identifier that holds `from - 1` ends.
fn scan_identifier(bytes: &[u8], from: usize) -> (end: usize)
    requires
        0 < from <= bytes.len(),
        bytes[from - 1] < 0x80,
    ensures
        end == identifier_end(bytes@, from as int),
        from <= end <= bytes.len(),
        bytes[end - 1] < 0x80,
{
    let mut end = from;
    while end < bytes.len() && identifier_part(bytes[end])
        invariant
            from <= end <= bytes.len(),
            bytes[end - 1] < 0x80,
            identifier_end(bytes@, end as int) == identifier_end(bytes@, from as int),
        decreases bytes.len() - end,
    {
        end += 1;
    }
    end
}

/// Whether the bytes from `start` to `end` spell `yes` or `no`.
fn boolean_word(bytes: &[u8], start: usize, end: usize) -> (is: bool)
    requires
        start <= end <= bytes.len(),
    ensures
        is == is_boolean_word(bytes@.subrange(start as int, end as int)),
{
    let length = end - start;
    let ghost word = bytes@.subrange(start as int, end as int);
    if length == 3 {
        let is = bytes[start] == 0x79 && bytes[start + 1] == 0x65 && bytes[start + 2] == 0x73;
        proof {
            assert(word[0] == bytes[start as int]);
            assert(word[1] == bytes[start + 1]);
            assert(word[2] == bytes[start + 2]);
            if is {
                assert(word =~= seq![0x79u8, 0x65u8, 0x73u8]);
            } else {
                assert(seq![0x79u8, 0x65u8, 0x73u8][0] == 0x79u8);
                assert(seq![0x79u8, 0x65u8, 0x73u8][1] == 0x65u8);
                assert(seq![0x79u8, 0x65u8, 0x73u8][2] == 0x73u8);
            }
            assert(seq![0x6eu8, 0x6fu8].len() == 2);
        }
        is
    } else if length == 2 {
        let is = bytes[start] == 0x6e && bytes[start + 1] == 0x6f;
        proof {
            assert(word[0] == bytes[start as int]);
            assert(word[1] == bytes[start + 1]);
            if is {
                assert(word =~= seq![0x6eu8, 0x6fu8]);
            } else {
                assert(seq![0x6eu8, 0x6fu8][0] == 0x6eu8);
                assert(seq![0x6eu8, 0x6fu8][1] == 0x6fu8);
            }
            assert(seq![0x79u8, 0x65u8, 0x73u8].len() == 3);
        }
        is
    } else {
        proof {
            assert(seq![0x79u8, 0x65u8, 0x73u8].len() == 3);
            assert(seq![0x6eu8, 0x6fu8].len() == 2);
        }
        false
    }
}

/// Reads the token that begins at `start`.
fn scan_token(bytes: &[u8], start: usize) -> (scan: Scan)
    requires
        start < bytes.len(),
    ensures
        scan_is(bytes@, start as int, scan, lex_at(bytes@, start as int)),
{
    let first = bytes[start];
    let followed = start + 1 < bytes.len() && bytes[start + 1] == EQUALS;
    if first == EQUALS {
        Ok((TokenType::Equals, start, 1, start + 1))
    } else if first == OPEN_BRACKET {
        Ok((TokenType::OpenBracket, start, 1, start + 1))
    } else if first == CLOSE_BRACKET {
        Ok((TokenType::CloseBracket, start, 1, start + 1))
    } else if first == GREATER {
        if followed {
            Ok((TokenType::GreaterThanEq, start, 2, start + 2))
        } else {
            Ok((TokenType::GreaterThan, start, 1, start + 1))
        }
    } else if first == LESS {
        if followed {
            Ok((TokenType::LessThanEq, start, 2, start + 2))
        } else {
            Ok((TokenType::LessThan, start, 1, start + 1))
        }
    } else if first == QUESTION {
        if followed {
            Ok((TokenType::ExistenceCheck, start, 2, start + 2))
        } else {
            Err(start)
        }
    } else if first == MINUS || digit(first) {
        scan_digits(bytes, start, first == MINUS)
    } else if first == QUOTE {
        let close = index_of_byte(bytes, start + 1, QUOTE);
        proof {
            lemma_find_byte(bytes@, start + 1, QUOTE);
        }
        if close < bytes.len() {
            Ok((TokenType::String, start + 1, close - start - 1, close + 1))
        } else {
            Err(bytes.len() - 1)
        }
    } else if first == UNDERSCORE || (0x41 <= first && first <= 0x5a) || (0x61 <= first && first
        <= 0x7a) {
        let end = scan_identifier(bytes, start + 1);
        if boolean_word(bytes, start, end) {
            Ok((TokenType::Boolean, start, end - start, end))
        } else {
            Ok((TokenType::Identifier, start, end - start, end))
        }
    } else {
        Err(start)
    }
}

/// Turns a source text into its tokens, one at a time.
///
/// The tokenizer works on the bytes of the text, which it borrows: it copies and
/// allocates nothing.
#[derive(Debug, Clone, Copy)]
pub struct Tokenizer<'a> {
    /// The byte offset in the source text at which the tokenizer reads on.
    pub position: usize,
    /// The source text.
    pub text: &'a str,
}

impl<'a> Tokenizer<'a> {
    /// The bytes of the source text.
    pub open spec fn source(&self) -> Seq<u8> {
        self.text.spec_bytes()
    }

    /// Whether the bytes from `start` to `end` are a part of the source that begins
    /// and ends between two characters.
    pub open spec fn covers(&self, start: int, end: int) -> bool {
        &&& 0 <= start <= end <= self.source().len()
        &&& end <= usize::MAX
        &&& is_char_boundary(self.source(), start)
        &&& is_char_boundary(self.source(), end)
    }

    /// Whether `result` is what the lexical rules find in `s` from `position` on: no
    /// token at the end, the token, or a `TokenizerError` at the offset of the error.
    pub open spec fn finds<T: ConstructableToken>(
        s: Seq<u8>,
        position: int,
        result: ParseResult<T>,
    ) -> bool {
        match lex(s, position) {
            Lexed::End { .. } => result matches Ok(None),
            Lexed::Token { token_type, index, length, next } => {
                &&& result matches Ok(Some(token))
                &&& token.represents(s, token_type, index as usize, length as usize)
            },
            Lexed::Error { start, offset } => {
                &&& result matches Err(error)
                &&& error.is(ErrorType::TokenizerError, offset)
            },
        }
    }

    /// Whether `tokens` stand for the tokens `lexemes` of `s`, one for one.
    pub open spec fn all_represent<T: ConstructableToken>(
        s: Seq<u8>,
        tokens: Seq<T>,
        lexemes: Seq<Lexeme>,
    ) -> bool {
        &&& tokens.len() == lexemes.len()
        &&& forall|i: int|
            0 <= i < tokens.len() ==> (#[trigger] tokens[i]).represents(
                s,
                lexemes[i].token_type,
                lexemes[i].index as usize,
                lexemes[i].length as usize,
            )
    }

    /// Whether `token` lies within the source and begins and ends between two
    /// characters.
    pub open spec fn holds(&self, token: Token) -> bool {
        self.covers(token.index as int, token.index + token.length)
    }

    /// Whether two results are the same: no token, the same token, or an error of the
    /// same kind at the same offset.
    pub open spec fn same_result(first: ParseResult<Token>, second: ParseResult<Token>) -> bool {
        match first {
            Ok(None) => second matches Ok(None),
            Ok(Some(token)) => second matches Ok(Some(other)) && other == token,
            Err(error) => second matches Err(other) && other.error_type == error.error_type
                && other.position == error.position,
        }
    }

    /// A peek and the next read agree: `peek` leaves the cursor where it is, so what
    /// it finds at `position` is what `next` finds there, after the peek or without
    /// it.
    pub proof fn lemma_peek_then_next(
        s: Seq<u8>,
        position: int,
        peeked: ParseResult<Token>,
        next: ParseResult<Token>,
    )
        requires
            Self::finds(s, position, peeked),
            Self::finds(s, position, next),
        ensures
            Self::same_result(peeked, next),
    {
    }

    /// The source is a text in UTF-8.
    pub proof fn lemma_source_is_text(&self)
        ensures
            valid_utf8(self.source()),
    {
        broadcast use encode_utf8_valid_utf8;

    }

    /// Creates a new [Tokenizer] at the beginning of the input text.
    pub fn new(text: &'a str) -> (tokenizer: Tokenizer<'a>)
        ensures
            tokenizer == (Tokenizer { position: 0, text }),
    {
        Tokenizer { position: 0, text }
    }

    /// The text that this tokenizer reads.
    pub fn text(&self) -> (text: &'a str)
        ensures
            text.spec_bytes() == self.source(),
    {
        self.text
    }

    /// Checks if this [Tokenizer] has hit the end of the source.
    pub fn is_done(&self) -> (done: bool)
        ensures
            done == (self.position >= self.source().len()),
    {
        self.position >= self.text.as_bytes().len()
    }

    /// Obtains the next token from the source as a `T`, advancing the cursor.
    ///
    /// After a token the cursor stands behind it, and at the end of the source behind
    /// the last blank or comment. After an error it stands where the lexeme begins
    /// that is no token.
    pub fn next_generic<T: ConstructableToken>(&mut self) -> (result: ParseResult<T>)
        ensures
            final(self).text == old(self).text,
            Self::finds(old(self).source(), old(self).position as int, result),
            final(self).position == cursor_after(old(self).source(), old(self).position as int),
            result matches Ok(Some(_)) ==> old(self).position < final(self).position,
            old(self).position <= final(self).position,
            old(self).source().len() <= usize::MAX,
            old(self).position <= old(self).source().len() ==> final(self).position
                <= old(self).source().len(),
    {
        proof {
            lemma_lex(self.source(), self.position as int);
        }
        let bytes = self.text.as_bytes();
        let start = skip_blanks(bytes, self.position);
        self.position = start;
        if start >= bytes.len() {
            return Ok(None);
        }
        match scan_token(bytes, start) {
            Ok((token_type, index, length, next)) => {
                proof {
                    self.lemma_source_is_text();
                    lemma_plain_byte_boundary(self.source(), index as int);
                    lemma_plain_byte_boundary(self.source(), index + length);
                }
                let token = T::from_tokenizer(self, token_type, index, length);
                self.position = next;
                Ok(Some(token))
            },
            Err(offset) => Err(
                Error::new(ErrorType::TokenizerError, offset, "the text holds what is no token"),
            ),
        }
    }

    /// Obtains the next [Token] from the source, advancing the cursor.
    pub fn next(&mut self) -> (result: ParseResult<Token>)
        ensures
            final(self).text == old(self).text,
            Self::finds(old(self).source(), old(self).position as int, result),
            final(self).position == cursor_after(old(self).source(), old(self).position as int),
            result matches Ok(Some(token)) ==> final(self).holds(token) && old(self).position
                <= token.index && token.index + token.length <= final(self).position,
            result matches Ok(Some(_)) ==> old(self).position < final(self).position,
            old(self).position <= final(self).position,
            old(self).source().len() <= usize::MAX,
            old(self).position <= old(self).source().len() ==> final(self).position
                <= old(self).source().len(),
    {
        proof {
            lemma_lex(self.source(), self.position as int);
            self.lemma_tokens_hold(self.position as int);
        }
        self.next_generic()
    }

    /// Obtains the next [OwnedToken] from the source, advancing the cursor.
    pub fn next_owned(&mut self) -> (result: ParseResult<OwnedToken>)
        ensures
            final(self).text == old(self).text,
            Self::finds(old(self).source(), old(self).position as int, result),
            final(self).position == cursor_after(old(self).source(), old(self).position as int),
            result matches Ok(Some(_)) ==> old(self).position < final(self).position,
            old(self).position <= final(self).position,
            old(self).source().len() <= usize::MAX,
            old(self).position <= old(self).source().len() ==> final(self).position
                <= old(self).source().len(),
    {
        self.next_generic()
    }

    /// Obtains the next [Token] from the source without moving the cursor.
    pub fn peek(&mut self) -> (result: ParseResult<Token>)
        ensures
            *final(self) == *old(self),
            Self::finds(old(self).source(), old(self).position as int, result),
            result matches Ok(Some(token)) ==> old(self).holds(token) && old(self).position
                <= token.index,
            old(self).source().len() <= usize::MAX,
    {
        let position = self.position;
        let result = self.next();
        self.position = position;
        result
    }

    /// Parses every token of the input text and returns them in a vector.
    pub fn parse_all(text: &str) -> (result: Result<Vec<OwnedToken>, Error>)
        ensures
            match lex_all(text.spec_bytes(), 0, Seq::empty()) {
                Ok(lexemes) => result matches Ok(tokens) && Self::all_represent(
                    text.spec_bytes(),
                    tokens@,
                    lexemes,
                ),
                Err(offset) => result matches Err(error) && error.is(
                    ErrorType::TokenizerError,
                    offset,
                ),
            },
    {
        let mut tokenizer = Tokenizer::new(text);
        let mut tokens: Vec<OwnedToken> = Vec::new();
        let ghost mut lexemes: Seq<Lexeme> = Seq::empty();
        loop
            invariant
                tokenizer.text == text,
                Self::all_represent(text.spec_bytes(), tokens@, lexemes),
                lex_all(text.spec_bytes(), tokenizer.position as int, lexemes) == lex_all(
                    text.spec_bytes(),
                    0,
                    Seq::empty(),
                ),
            decreases text.spec_bytes().len() - tokenizer.position,
        {
            proof {
                lemma_lex(text.spec_bytes(), tokenizer.position as int);
            }
            let ghost before = tokenizer.position as int;
            match tokenizer.next_owned() {
                Ok(Some(token)) => {
                    proof {
                        let found = lex(text.spec_bytes(), before);
                        lexemes = lexemes.push(
                            Lexeme {
                                token_type: found->token_type,
                                index: found->index,
                                length: found->length,
                            },
                        );
                    }
                    tokens.push(token);
                },
                Ok(None) => {
                    return Ok(tokens);
                },
                Err(error) => {
                    return Err(error);
                },
            }
        }
    }

    /// Checks if `c` is the character of one byte that follows the byte at the cursor.
    ///
    /// This looks at the source as it is: it does not pass over blanks or comments.
    pub fn is_next_char(&self, c: char) -> (is: bool)
        ensures
            is == (self.position + 1 < self.source().len() && (c as u32) < 0x80 && c as u32
                == self.source()[self.position + 1] as u32),
    {
        let bytes = self.text.as_bytes();
        self.position < bytes.len() && self.position + 1 < bytes.len() && (c as u32) < 0x80
            && bytes[self.position + 1] as u32 == c as u32
    }

    /// Returns whether `c` is the character of one byte directly before the cursor.
    pub fn last_char_was(&self, c: char) -> (was: bool)
        ensures
            was == (0 < self.position <= self.source().len() && (c as u32) < 0x80 && c as u32
                == self.source()[self.position - 1] as u32),
    {
        let bytes = self.text.as_bytes();
        0 < self.position && self.position <= bytes.len() && (c as u32) < 0x80
            && bytes[self.position - 1] as u32 == c as u32
    }

    /// Returns a borrowed string slice of the token's contents.
    pub fn str_for_token(&self, t: &Token) -> (part: &'a str)
        requires
            self.holds(*t),
        ensures
            part.spec_bytes() == self.source().subrange(t.index as int, t.index + t.length),
    {
        slice_of(self.text, t.index, t.index + t.length)
    }

    /// Returns the index of the end of the line that `position` is on: that of its
    /// line feed, or of the last byte of the source.
    pub fn find_end_of_line(&self, position: usize) -> (end: usize)
        ensures
            end == line_end(self.source(), position as int),
    {
        let bytes = self.text.as_bytes();
        let end = index_of_byte(bytes, position, NEW_LINE);
        if end < bytes.len() {
            end
        } else if bytes.len() > 0 {
            bytes.len() - 1
        } else {
            0
        }
    }

    /// Creates a new [Error] at the given position, or at the last byte of the source
    /// if the position lies behind it.
    pub fn parse_error_pos(&self, error_type: ErrorType, position: usize, message: &str) -> (error:
        Error)
        ensures
            error.is(error_type, clamp(self.source(), position as int)),
            error.message@ == message@,
    {
        let length = self.text.as_bytes().len();
        let position = if position < length {
            position
        } else if length > 0 {
            length - 1
        } else {
            0
        };
        Error::new(error_type, position, message)
    }

    /// Creates a new [Error] at the cursor.
    pub fn parse_error(&self, error_type: ErrorType, message: &str) -> (error: Error)
        ensures
            error.is(error_type, clamp(self.source(), self.position as int)),
            error.message@ == message@,
    {
        self.parse_error_pos(error_type, self.position, message)
    }

    /// Creates a new [Error] at the position of the given token.
    pub fn parse_error_token(&self, t: &Token, error_type: ErrorType, message: &str) -> (error:
        Error)
        ensures
            error.is(error_type, clamp(self.source(), t.index as int)),
            error.message@ == message@,
    {
        self.parse_error_pos(error_type, t.index, message)
    }

    /// Returns the [Date] that the token spells.
    ///
    /// The fields of the date are the decimal numbers between the dots of the token;
    /// a field that the token does not have is 0.
    pub fn date_for_token(&self, t: &Token) -> (result: Result<Date, Error>)
        requires
            t.index + t.length <= self.source().len(),
        ensures
            match date_at(self.source(), t.index as int, t.length as int) {
                Ok(date) => result == Ok::<Date, Error>(date),
                Err((error_type, offset)) => result matches Err(error) && error.is(
                    error_type,
                    offset,
                ),
            },
    {
        let bytes = self.text.as_bytes();
        let length = bytes.len();
        let end = t.index + t.length;
        let mut from = t.index;
        let mut count: usize = 0;
        let mut years: u32 = 0;
        let mut months: u32 = 0;
        let mut days: u32 = 0;
        let mut hours: u32 = 0;
        let ghost mut found: Seq<u32> = Seq::empty();
        loop
            invariant
                bytes@ == self.source(),
                end == t.index + t.length,
                end <= bytes.len(),
                t.index <= from <= end + 1,
                count == found.len(),
                count <= 4,
                date_of(found) == (Date { years, months, days, hours }),
                date_fields(bytes@, from as int, end as int, found) == date_fields(
                    bytes@,
                    t.index as int,
                    end as int,
                    Seq::empty(),
                ),
            decreases end + 1 - from,
        {
            if from >= end {
                return Ok(Date { years, months, days, hours });
            }
            if count >= 4 {
                return Err(
                    Error::new(ErrorType::InvalidState, from, "the token goes on behind the date"),
                );
            }
            let dot = index_of_byte(bytes, from, DOT);
            proof {
                lemma_find_byte(bytes@, from as int, DOT);
            }
            let stop = if dot < end {
                dot
            } else {
                end
            };
            let value = match parse_bounded(bytes, from, stop, 0, 0xffff_ffff) {
                Some(value) => value as u32,
                None => {
                    return Err(
                        Error::new(
                            ErrorType::InvalidNumberError,
                            from,
                            "a field of the date is no number of 32 bits",
                        ),
                    );
                },
            };
            proof {
                found = found.push(value);
            }
            if count == 0 {
                years = value;
            } else if count == 1 {
                months = value;
            } else if count == 2 {
                days = value;
            } else {
                hours = value;
            }
            count += 1;
            if stop < end {
                from = stop + 1;
            } else {
                return Ok(Date { years, months, days, hours });
            }
        }
    }

    /// Every token that the lexical rules find lies within the source and begins and
    /// ends between two characters.
    pub proof fn lemma_tokens_hold(&self, position: int)
        ensures
            lex(self.source(), position) matches Lexed::Token { index, length, .. } ==> {
                &&& 0 <= index <= index + length <= self.source().len()
                &&& is_char_boundary(self.source(), index)
                &&& is_char_boundary(self.source(), index + length)
            },
    {
        let s = self.source();
        self.lemma_source_is_text();
        lemma_lex(s, position);
        lemma_lexeme_edges(s, position);
        if let Lexed::Token { index, length, .. } = lex(s, position) {
            lemma_plain_byte_boundary(s, index);
            lemma_plain_byte_boundary(s, index + length);
        }
    }

    /// Creates an iterator over the tokens that are left, each as a `T`.
    pub fn iter_generic<T: ConstructableToken>(&'a mut self) -> (iterator: TokenIterator<'a, T>)
        ensures
            *iterator.tokenizer == *old(self),
            *final(self) == *final(iterator.tokenizer),
            !iterator.finished,
    {
        TokenIterator::new(self)
    }

    /// Creates an iterator that returns [Token] objects.
    pub fn iter(&'a mut self) -> (iterator: TokenIterator<'a, Token>)
        ensures
            *iterator.tokenizer == *old(self),
            *final(self) == *final(iterator.tokenizer),
            !iterator.finished,
    {
        self.iter_generic()
    }

    /// Creates an iterator that returns [OwnedToken] objects.
    pub fn iter_owned(&'a mut self) -> (iterator: TokenIterator<'a, OwnedToken>)
        ensures
            *iterator.tokenizer == *old(self),
            *final(self) == *final(iterator.tokenizer),
            !iterator.finished,
    {
        self.iter_generic()
    }

    /// Returns a borrowed string slice of the contents of `range`.
    ///
    /// `range` is a tuple of `(start_index, end_index)`.
    pub fn str_for_range(&self, range: (usize, usize)) -> (part: &'a str)
        requires
            self.covers(range.0 as int, range.1 as int),
        ensures
            part.spec_bytes() == self.source().subrange(range.0 as int, range.1 as int),
    {
        slice_of(self.text, range.0, range.1)
    }
}

impl<'a> ErrorContextProvider for Tokenizer<'a> {
    open spec fn provided_source(&self) -> Seq<u8> {
        self.source()
    }

    open spec fn provides_context(&self) -> bool {
        true
    }

    fn get_line_context(&self, position: usize, max_lines: usize) -> (context: Option<
        ErrorContext,
    >) {
        Some(ErrorContext::from_source(self.text, position, max_lines))
    }
}

/// Represents a tokenizer as a sequence of tokens that ends with the first error.
pub struct TokenIterator<'a, T: ConstructableToken> {
    /// The tokenizer that this iterator reads from.
    pub tokenizer: &'a mut Tokenizer<'a>,
    /// Whether an error has ended the sequence.
    pub finished: bool,
    /// The type of token that this iterator gives.
    pub _phantom: PhantomData<T>,
}

impl<'a, T: ConstructableToken> TokenIterator<'a, T> {
    /// Creates an iterator that reads on where `tokenizer` stands.
    pub fn new(tokenizer: &'a mut Tokenizer<'a>) -> (iterator: TokenIterator<'a, T>)
        ensures
            *iterator.tokenizer == *old(tokenizer),
            *final(tokenizer) == *final(iterator.tokenizer),
            !iterator.finished,
    {
        TokenIterator { tokenizer, finished: false, _phantom: PhantomData }
    }

    /// Gives the next token; nothing once the source has ended, and nothing after
    /// the first error.
    pub fn next(&mut self) -> (item: Option<Result<T, Error>>)
        ensures
            final(self).tokenizer.text == old(self).tokenizer.text,
            old(self).finished ==> item is None && final(self).finished
                && final(self).tokenizer.position == old(self).tokenizer.position,
            !old(self).finished ==> {
                &&& Tokenizer::finds(
                    old(self).tokenizer.source(),
                    old(self).tokenizer.position as int,
                    match item {
                        Some(Ok(token)) => Ok::<Option<T>, Error>(Some(token)),
                        Some(Err(error)) => Err::<Option<T>, Error>(error),
                        None => Ok::<Option<T>, Error>(None),
                    },
                )
                &&& final(self).tokenizer.position == cursor_after(
                    old(self).tokenizer.source(),
                    old(self).tokenizer.position as int,
                )
                &&& final(self).finished == (item matches Some(Err(_)))
            },
    {
        if self.finished {
            return None;
        }
        match self.tokenizer.next_generic() {
            Ok(Some(token)) => Some(Ok(token)),
            Ok(None) => None,
            Err(error) => {
                self.finished = true;
                Some(Err(error))
            },
        }
    }
}

} // verus!
