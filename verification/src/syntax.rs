//! The lexical rules of the dialect, stated over the bytes of a source text.
use crate::error::ErrorType;
use crate::number::bounded_value;
use crate::text::{at_plain_byte, find_byte, lemma_find_byte, NEW_LINE};
use crate::token::TokenType;
use crate::types::Date;
use vstd::prelude::*;

verus! {

/// `#`, which begins a comment.
pub const COMMENT: u8 = 0x23;

/// `"`, which delimits a string.
pub const QUOTE: u8 = 0x22;

/// `=`.
pub const EQUALS: u8 = 0x3d;

/// `{`.
pub const OPEN_BRACKET: u8 = 0x7b;

/// `}`.
pub const CLOSE_BRACKET: u8 = 0x7d;

/// `>`.
pub const GREATER: u8 = 0x3e;

/// `<`.
pub const LESS: u8 = 0x3c;

/// `?`.
pub const QUESTION: u8 = 0x3f;

/// `-`.
pub const MINUS: u8 = 0x2d;

/// `.`.
pub const DOT: u8 = 0x2e;

/// `_`.
pub const UNDERSCORE: u8 = 0x5f;

/// `:`.
pub const COLON: u8 = 0x3a;

/// Whether `byte` is a decimal digit.
pub open spec fn is_digit(byte: u8) -> bool {
    0x30 <= byte <= 0x39
}

/// Whether `byte` is a letter of the Latin alphabet.
pub open spec fn is_letter(byte: u8) -> bool {
    0x41 <= byte <= 0x5a || 0x61 <= byte <= 0x7a
}

/// Whether an identifier can begin with `byte`.
pub open spec fn is_identifier_start(byte: u8) -> bool {
    byte == UNDERSCORE || is_letter(byte)
}

/// Whether an identifier can go on with `byte`.
pub open spec fn is_identifier_part(byte: u8) -> bool {
    byte == UNDERSCORE || byte == COLON || is_letter(byte) || is_digit(byte)
}

/// Whether `byte` is a blank character of one byte: tab, line feed, vertical tab,
/// form feed, carriage return or space.
pub open spec fn is_plain_blank(byte: u8) -> bool {
    0x09 <= byte <= 0x0d || byte == 0x20
}

/// Whether the two bytes encode a blank character: U+0085 or U+00A0.
pub open spec fn is_double_blank(first: u8, second: u8) -> bool {
    first == 0xc2 && (second == 0x85 || second == 0xa0)
}

/// Whether the three bytes encode a blank character: U+1680, U+2000 to U+200A,
/// U+2028, U+2029, U+202F, U+205F or U+3000.
pub open spec fn is_triple_blank(first: u8, second: u8, third: u8) -> bool {
    ||| first == 0xe1 && second == 0x9a && third == 0x80
    ||| first == 0xe2 && second == 0x80 && (0x80 <= third <= 0x8a || third == 0xa8 || third == 0xa9
        || third == 0xaf)
    ||| first == 0xe2 && second == 0x81 && third == 0x9f
    ||| first == 0xe3 && second == 0x80 && third == 0x80
}

/// The number of bytes that the blank character at `index` takes; 0 where no blank
/// character begins there. The blank characters are those with the Unicode property
/// White_Space.
pub open spec fn blank_len(s: Seq<u8>, index: int) -> int {
    if index < 0 || index >= s.len() {
        0
    } else if is_plain_blank(s[index]) {
        1
    } else if index + 1 < s.len() && is_double_blank(s[index], s[index + 1]) {
        2
    } else if index + 2 < s.len() && is_triple_blank(s[index], s[index + 1], s[index + 2]) {
        3
    } else {
        0
    }
}

/// The index of the first byte at or after `index` that belongs to neither a blank
/// nor a comment, given whether `index` lies within a comment. A comment runs from
/// `#` to the end of its line. Where nothing else is left, the result is the length
/// of `s`, or `index` if that is greater.
pub open spec fn skip_from(s: Seq<u8>, index: int, in_comment: bool) -> int
    decreases s.len() - index,
{
    if index < 0 || index >= s.len() {
        index
    } else if in_comment {
        skip_from(s, index + 1, s[index] != NEW_LINE)
    } else if s[index] == COMMENT {
        skip_from(s, index + 1, true)
    } else if blank_len(s, index) > 0 {
        skip_from(s, index + blank_len(s, index), false)
    } else {
        index
    }
}

/// The index at which the next token begins, seen from `index`: blanks and comments
/// are passed over.
pub open spec fn skip_trivia(s: Seq<u8>, index: int) -> int {
    skip_from(s, index, false)
}

/// What the tokenizer finds at a place in a source text.
pub enum Lexed {
    /// Nothing but blanks and comments is left; `position` is where they end.
    End { position: int },
    /// A token that covers `length` bytes from `index` on; after it the cursor
    /// stands at `next`.
    Token { token_type: TokenType, index: int, length: int, next: int },
    /// No token begins at `start`; the error is reported at `offset`.
    Error { start: int, offset: int },
}

/// The token of `length` bytes at `index`, directly followed by what comes next.
pub open spec fn token_at(token_type: TokenType, index: int, length: int) -> Lexed {
    Lexed::Token { token_type, index, length, next: index + length }
}

/// Whether the byte after the one at `index` is `byte`.
pub open spec fn followed_by(s: Seq<u8>, index: int, byte: u8) -> bool {
    0 <= index && index + 1 < s.len() && s[index + 1] == byte
}

/// The number or date whose first byte is at `start`, read from `index` on.
///
/// `negative` says whether it began with `-`, `fresh` whether no digit has been read
/// since its beginning or the last `.`, `dots` how many `.` were read, the last of
/// them at `last_dot`.
///
/// Digits and dots are taken as long as they come. A `.` that follows no digit is
/// an error at that `.`; a second `.` in a negative number is an error at `start`.
/// A lexeme that ends without a digit is an error at its last byte. With at most
/// one `.` the lexeme is a number, with two or three a date, and with more an error
/// at its last `.`.
pub open spec fn scan_number(
    s: Seq<u8>,
    start: int,
    index: int,
    negative: bool,
    fresh: bool,
    dots: nat,
    last_dot: int,
) -> Lexed
    decreases s.len() - index,
{
    if 0 <= index < s.len() && s[index] == DOT {
        if fresh {
            Lexed::Error { start, offset: index }
        } else if dots >= 1 && negative {
            Lexed::Error { start, offset: start }
        } else {
            scan_number(s, start, index + 1, negative, true, dots + 1, index)
        }
    } else if 0 <= index < s.len() && is_digit(s[index]) {
        scan_number(s, start, index + 1, negative, false, dots, last_dot)
    } else if fresh {
        Lexed::Error { start, offset: index - 1 }
    } else if dots <= 1 {
        token_at(TokenType::Number, start, index - start)
    } else if dots <= 3 {
        token_at(TokenType::Date, start, index - start)
    } else {
        Lexed::Error { start, offset: last_dot }
    }
}

/// The index of the first byte at or after `index` with which an identifier cannot
/// go on.
pub open spec fn identifier_end(s: Seq<u8>, index: int) -> int
    decreases s.len() - index,
{
    if 0 <= index < s.len() && is_identifier_part(s[index]) {
        identifier_end(s, index + 1)
    } else {
        index
    }
}

/// Whether `word` is `yes` or `no`, the two spellings of a boolean.
pub open spec fn is_boolean_word(word: Seq<u8>) -> bool {
    word == seq![0x79u8, 0x65u8, 0x73u8] || word == seq![0x6eu8, 0x6fu8]
}

/// The token that begins at `start`, where a byte stands that is neither blank nor
/// the beginning of a comment.
pub open spec fn lex_at(s: Seq<u8>, start: int) -> Lexed
    recommends
        0 <= start < s.len(),
{
    let first = s[start];
    if first == EQUALS {
        token_at(TokenType::Equals, start, 1)
    } else if first == OPEN_BRACKET {
        token_at(TokenType::OpenBracket, start, 1)
    } else if first == CLOSE_BRACKET {
        token_at(TokenType::CloseBracket, start, 1)
    } else if first == GREATER {
        if followed_by(s, start, EQUALS) {
            token_at(TokenType::GreaterThanEq, start, 2)
        } else {
            token_at(TokenType::GreaterThan, start, 1)
        }
    } else if first == LESS {
        if followed_by(s, start, EQUALS) {
            token_at(TokenType::LessThanEq, start, 2)
        } else {
            token_at(TokenType::LessThan, start, 1)
        }
    } else if first == QUESTION {
        if followed_by(s, start, EQUALS) {
            token_at(TokenType::ExistenceCheck, start, 2)
        } else {
            Lexed::Error { start, offset: start }
        }
    } else if first == MINUS || is_digit(first) {
        scan_number(s, start, start + 1, first == MINUS, first == MINUS, 0, start)
    } else if first == QUOTE {
        let close = find_byte(s, start + 1, QUOTE);
        if close < s.len() {
            Lexed::Token {
                token_type: TokenType::String,
                index: start + 1,
                length: close - start - 1,
                next: close + 1,
            }
        } else {
            Lexed::Error { start, offset: s.len() - 1 }
        }
    } else if is_identifier_start(first) {
        let end = identifier_end(s, start + 1);
        if is_boolean_word(s.subrange(start, end)) {
            token_at(TokenType::Boolean, start, end - start)
        } else {
            token_at(TokenType::Identifier, start, end - start)
        }
    } else {
        Lexed::Error { start, offset: start }
    }
}

/// What the tokenizer finds when it reads on from `position`.
pub open spec fn lex(s: Seq<u8>, position: int) -> Lexed {
    let start = skip_trivia(s, position);
    if 0 <= start < s.len() {
        lex_at(s, start)
    } else {
        Lexed::End { position: start }
    }
}

/// Where the cursor stands after reading on from `position` in `s`: behind the
/// token, behind the last blank or comment at the end of the text, or, after an
/// error, where the lexeme begins that is no token.
pub open spec fn cursor_after(s: Seq<u8>, position: int) -> int {
    match lex(s, position) {
        Lexed::End { position: end } => end,
        Lexed::Token { next, .. } => next,
        Lexed::Error { start, .. } => start,
    }
}

/// Blanks and comments are passed over forwards, and not beyond the end of the text.
pub proof fn lemma_skip_from(s: Seq<u8>, index: int, in_comment: bool)
    ensures
        index <= skip_from(s, index, in_comment),
        skip_from(s, index, in_comment) <= s.len() || skip_from(s, index, in_comment) == index,
    decreases s.len() - index,
{
    if index < 0 || index >= s.len() {
    } else if in_comment {
        lemma_skip_from(s, index + 1, s[index] != NEW_LINE);
    } else if s[index] == COMMENT {
        lemma_skip_from(s, index + 1, true);
    } else if blank_len(s, index) > 0 {
        lemma_skip_from(s, index + blank_len(s, index), false);
    }
}

/// An identifier ends at or behind the index from which it is followed, within the text.
pub proof fn lemma_identifier_end(s: Seq<u8>, index: int)
    requires
        0 <= index <= s.len(),
    ensures
        index <= identifier_end(s, index) <= s.len(),
        forall|k: int|
            index <= k < identifier_end(s, index) ==> is_identifier_part(#[trigger] s[k]),
        identifier_end(s, index) < s.len() ==> !is_identifier_part(s[identifier_end(s, index)]),
    decreases s.len() - index,
{
    if index < s.len() && is_identifier_part(s[index]) {
        lemma_identifier_end(s, index + 1);
    }
}

/// A number or date covers the bytes from its first to the cursor behind it; an error in
/// one lies within the text.
pub proof fn lemma_scan_number(
    s: Seq<u8>,
    start: int,
    index: int,
    negative: bool,
    fresh: bool,
    dots: nat,
    last_dot: int,
)
    requires
        0 <= start < index <= s.len(),
        start <= last_dot < index,
    ensures
        match scan_number(s, start, index, negative, fresh, dots, last_dot) {
            Lexed::Token { token_type, index: at, length, next } => {
                &&& at == start
                &&& index <= next <= s.len()
                &&& length == next - start
                &&& token_type == TokenType::Number || token_type == TokenType::Date
            },
            Lexed::Error { start: begin, offset } => begin == start && start <= offset < s.len(),
            Lexed::End { .. } => false,
        },
    decreases s.len() - index,
{
    if index < s.len() && s[index] == DOT {
        if !fresh && !(dots >= 1 && negative) {
            lemma_scan_number(s, start, index + 1, negative, true, dots + 1, index);
        }
    } else if index < s.len() && is_digit(s[index]) {
        lemma_scan_number(s, start, index + 1, negative, false, dots, last_dot);
    }
}

/// A token lies within the text, at or behind the place where it was looked for, and the
/// cursor moves forward over it. An error lies within the text.
pub proof fn lemma_lex(s: Seq<u8>, position: int)
    ensures
        match lex(s, position) {
            Lexed::Token { token_type, index, length, next } => {
                &&& 0 <= position <= index <= index + length <= next <= s.len()
                &&& index == skip_trivia(s, position) || index == skip_trivia(s, position) + 1
                &&& token_type != TokenType::String ==> index == skip_trivia(s, position) && next
                    == index + length
                &&& token_type == TokenType::String ==> next == index + length + 1
                &&& 0 < length || token_type == TokenType::String
                &&& position < next
            },
            Lexed::Error { start, offset } => {
                &&& start == skip_trivia(s, position)
                &&& 0 <= position <= start < s.len()
                &&& 0 <= offset < s.len()
            },
            Lexed::End { position: end } => {
                &&& position <= end
                &&& end == skip_trivia(s, position)
                &&& end <= s.len() || end == position
            },
        },
{
    lemma_skip_from(s, position, false);
    let start = skip_trivia(s, position);
    if 0 <= start < s.len() {
        let first = s[start];
        if first == MINUS || is_digit(first) {
            lemma_scan_number(s, start, start + 1, first == MINUS, first == MINUS, 0, start);
        } else if first == QUOTE {
            lemma_find_byte(s, start + 1, QUOTE);
        } else if is_identifier_start(first) {
            lemma_identifier_end(s, start + 1);
        }
    }
}

/// A number or date begins and ends with a byte of its own.
pub proof fn lemma_number_edges(
    s: Seq<u8>,
    start: int,
    index: int,
    negative: bool,
    fresh: bool,
    dots: nat,
    last_dot: int,
)
    requires
        0 <= start < index <= s.len(),
        s[index - 1] < 0x80,
    ensures
        scan_number(s, start, index, negative, fresh, dots, last_dot) matches Lexed::Token {
            next,
            ..
        } ==> 0 < next <= s.len() && s[next - 1] < 0x80,
    decreases s.len() - index,
{
    if index < s.len() && s[index] == DOT {
        if !fresh && !(dots >= 1 && negative) {
            lemma_number_edges(s, start, index + 1, negative, true, dots + 1, index);
        }
    } else if index < s.len() && is_digit(s[index]) {
        lemma_number_edges(s, start, index + 1, negative, false, dots, last_dot);
    }
}

/// No character of more than one byte straddles the first or the last index of a token.
pub proof fn lemma_lexeme_edges(s: Seq<u8>, position: int)
    ensures
        lex(s, position) matches Lexed::Token { index, length, .. } ==> at_plain_byte(s, index)
            && at_plain_byte(s, index + length),
{
    lemma_lex(s, position);
    let start = skip_trivia(s, position);
    if 0 <= start < s.len() {
        let first = s[start];
        if first == MINUS || is_digit(first) {
            lemma_scan_number(s, start, start + 1, first == MINUS, first == MINUS, 0, start);
            lemma_number_edges(s, start, start + 1, first == MINUS, first == MINUS, 0, start);
        } else if first == QUOTE {
            lemma_find_byte(s, start + 1, QUOTE);
        } else if is_identifier_start(first) {
            lemma_identifier_end(s, start + 1);
            let end = identifier_end(s, start + 1);
            if end > start + 1 {
                assert(is_identifier_part(s[end - 1]));
            }
        }
    }
}

/// A token as the lexical rules give it: its kind, index and length.
pub struct Lexeme {
    /// The kind of the token.
    pub token_type: TokenType,
    /// The byte offset at which the token begins.
    pub index: int,
    /// The number of bytes that the token covers.
    pub length: int,
}

/// All tokens from `position` to the end of the text, behind those of `found`; or
/// the offset of the first error.
pub open spec fn lex_all(s: Seq<u8>, position: int, found: Seq<Lexeme>) -> Result<Seq<Lexeme>, int>
    decreases s.len() - position,
    via lex_all_ends
{
    match lex(s, position) {
        Lexed::End { .. } => Ok(found),
        Lexed::Token { token_type, index, length, next } => lex_all(
            s,
            next,
            found.push(Lexeme { token_type, index, length }),
        ),
        Lexed::Error { offset, .. } => Err(offset),
    }
}

#[via_fn]
proof fn lex_all_ends(s: Seq<u8>, position: int, found: Seq<Lexeme>) {
    lemma_lex(s, position);
}

/// The index at which the field of a date ends that begins at `from`: that of the
/// next `.` before `end`, or `end`.
pub open spec fn field_end(s: Seq<u8>, from: int, end: int) -> int {
    let dot = find_byte(s, from, DOT);
    if dot < end {
        dot
    } else {
        end
    }
}

/// The fields of the date whose lexeme runs to `end`, read from `from` on, behind
/// those of `found`; or the kind and offset of an error.
///
/// A field is a decimal number and ends at a `.` or at `end`. One that does not fit
/// 32 bits, or is no number, is an `InvalidNumberError` at its first byte. Nothing
/// may follow the fourth field: that is an `InvalidState` where it begins.
pub open spec fn date_fields(s: Seq<u8>, from: int, end: int, found: Seq<u32>) -> Result<
    Seq<u32>,
    (ErrorType, int),
>
    decreases end - from,
{
    if from >= end {
        Ok(found)
    } else if found.len() >= 4 {
        Err((ErrorType::InvalidState, from))
    } else {
        let stop = field_end(s, from, end);
        match bounded_value(s.subrange(from, stop), 0, u32::MAX as int) {
            Some(value) => if from <= stop < end {
                date_fields(s, stop + 1, end, found.push(value as u32))
            } else {
                Ok(found.push(value as u32))
            },
            None => Err((ErrorType::InvalidNumberError, from)),
        }
    }
}

/// The date with the given fields; a field that is not given is 0.
pub open spec fn date_of(fields: Seq<u32>) -> Date {
    Date {
        years: if fields.len() > 0 {
            fields[0]
        } else {
            0
        },
        months: if fields.len() > 1 {
            fields[1]
        } else {
            0
        },
        days: if fields.len() > 2 {
            fields[2]
        } else {
            0
        },
        hours: if fields.len() > 3 {
            fields[3]
        } else {
            0
        },
    }
}

/// The date that the `length` bytes from `index` on spell, or the kind and offset of
/// an error.
pub open spec fn date_at(s: Seq<u8>, index: int, length: int) -> Result<Date, (ErrorType, int)> {
    match date_fields(s, index, index + length, Seq::empty()) {
        Ok(fields) => Ok(date_of(fields)),
        Err(error) => Err(error),
    }
}

/// The index of the first byte at or after `index` that is no decimal digit.
pub open spec fn digits_end(s: Seq<u8>, index: int) -> int
    decreases s.len() - index,
{
    if 0 <= index < s.len() && is_digit(s[index]) {
        digits_end(s, index + 1)
    } else {
        index
    }
}

/// Whether `w` spells a number: `-`, if any, then digits, then, if any, `.` and
/// digits.
pub open spec fn is_number_lexeme(w: Seq<u8>) -> bool {
    let begin = if w.len() > 0 && w[0] == MINUS {
        1int
    } else {
        0int
    };
    let whole = digits_end(w, begin);
    &&& begin < whole
    &&& whole == w.len() || (whole < w.len() && w[whole] == DOT && whole + 1 < digits_end(
        w,
        whole + 1,
    ) && digits_end(w, whole + 1) == w.len())
}

/// Whether `w` spells a date: three or four fields of digits with `.` between them.
pub open spec fn is_date_lexeme(w: Seq<u8>) -> bool {
    let years = digits_end(w, 0);
    let months = digits_end(w, years + 1);
    let days = digits_end(w, months + 1);
    &&& 0 < years < w.len() && w[years] == DOT
    &&& years + 1 < months < w.len() && w[months] == DOT
    &&& months + 1 < days
    &&& days == w.len() || (days < w.len() && w[days] == DOT && days + 1 < digits_end(
        w,
        days + 1,
    ) && digits_end(w, days + 1) == w.len())
}

/// Whether `w` spells a string: `"`, then bytes other than `"`, then `"`.
pub open spec fn is_string_lexeme(w: Seq<u8>) -> bool {
    &&& w.len() >= 2
    &&& w[0] == QUOTE
    &&& w[w.len() - 1] == QUOTE
    &&& forall|i: int| 0 < i < w.len() - 1 ==> w[i] != QUOTE
}

/// Whether `w` is a word: a letter or `_`, then letters, digits, `_` and `:`.
pub open spec fn is_word(w: Seq<u8>) -> bool {
    &&& w.len() > 0
    &&& is_identifier_start(w[0])
    &&& forall|i: int| 0 < i < w.len() ==> is_identifier_part(#[trigger] w[i])
}

/// The bytes that spell the symbol of the given kind; none for a kind that is no
/// symbol.
pub open spec fn symbol(token_type: TokenType) -> Seq<u8> {
    match token_type {
        TokenType::Equals => seq![EQUALS],
        TokenType::OpenBracket => seq![OPEN_BRACKET],
        TokenType::CloseBracket => seq![CLOSE_BRACKET],
        TokenType::GreaterThan => seq![GREATER],
        TokenType::LessThan => seq![LESS],
        TokenType::GreaterThanEq => seq![GREATER, EQUALS],
        TokenType::LessThanEq => seq![LESS, EQUALS],
        TokenType::ExistenceCheck => seq![QUESTION, EQUALS],
        _ => Seq::empty(),
    }
}

/// Whether `w` is a well-formed lexeme of the given kind.
pub open spec fn is_lexeme(token_type: TokenType, w: Seq<u8>) -> bool {
    match token_type {
        TokenType::Number => is_number_lexeme(w),
        TokenType::Date => is_date_lexeme(w),
        TokenType::String => is_string_lexeme(w),
        TokenType::Identifier => is_word(w) && !is_boolean_word(w),
        TokenType::Boolean => is_boolean_word(w),
        _ => w == symbol(token_type),
    }
}

/// The token of a lexeme of the given kind: it covers the lexeme, but for a string,
/// where it covers what stands between the quotes.
pub open spec fn token_of(token_type: TokenType, w: Seq<u8>) -> Lexeme {
    if token_type == TokenType::String {
        Lexeme { token_type, index: 1, length: w.len() - 2 }
    } else {
        Lexeme { token_type, index: 0, length: w.len() as int }
    }
}

/// Digits are passed over to where they end; after at least one of them, a digit has
/// been read.
pub proof fn lemma_scan_digits(
    s: Seq<u8>,
    start: int,
    index: int,
    negative: bool,
    fresh: bool,
    dots: nat,
    last_dot: int,
)
    requires
        0 <= index <= s.len(),
    ensures
        index <= digits_end(s, index) <= s.len(),
        scan_number(s, start, index, negative, fresh, dots, last_dot) == scan_number(
            s,
            start,
            digits_end(s, index),
            negative,
            fresh && digits_end(s, index) == index,
            dots,
            last_dot,
        ),
        digits_end(s, index) < s.len() ==> !is_digit(s[digits_end(s, index)]),
    decreases s.len() - index,
{
    if index < s.len() && is_digit(s[index]) {
        lemma_scan_digits(s, start, index + 1, negative, false, dots, last_dot);
    }
}

/// A text that is a well-formed lexeme of a kind, and nothing else, is read as one
/// token of that kind and no more: the token covers the lexeme, and for a string
/// what stands between the quotes.
pub proof fn lemma_lexeme_is_token(token_type: TokenType, w: Seq<u8>)
    requires
        is_lexeme(token_type, w),
    ensures
        lex_all(w, 0, Seq::empty()) == Ok::<Seq<Lexeme>, int>(seq![token_of(token_type, w)]),
{
    reveal_with_fuel(lex_all, 3);
    let found = Seq::<Lexeme>::empty().push(token_of(token_type, w));
    assert(found =~= seq![token_of(token_type, w)]);
    match token_type {
        TokenType::Number => {
            let begin = if w[0] == MINUS {
                1int
            } else {
                0int
            };
            let negative = w[0] == MINUS;
            lemma_scan_digits(w, 0, begin, negative, true, 0, 0);
            lemma_scan_digits(w, 0, 1, negative, negative, 0, 0);
            let whole = digits_end(w, begin);
            assert(is_digit(w[begin]));
            assert(digits_end(w, 1) == whole);
            if whole < w.len() {
                lemma_scan_digits(w, 0, whole + 1, negative, true, 1, whole);
            }
            assert(lex_at(w, 0) == token_at(TokenType::Number, 0, w.len() as int));
        },
        TokenType::Date => {
            let years = digits_end(w, 0);
            let months = digits_end(w, years + 1);
            let days = digits_end(w, months + 1);
            lemma_scan_digits(w, 0, 0, false, true, 0, 0);
            lemma_scan_digits(w, 0, 1, false, false, 0, 0);
            assert(is_digit(w[0]));
            assert(digits_end(w, 1) == years);
            lemma_scan_digits(w, 0, years + 1, false, true, 1, years);
            lemma_scan_digits(w, 0, months + 1, false, true, 2, months);
            if days < w.len() {
                lemma_scan_digits(w, 0, days + 1, false, true, 3, days);
            }
            assert(lex_at(w, 0) == token_at(TokenType::Date, 0, w.len() as int));
        },
        TokenType::String => {
            lemma_find_byte(w, 1, QUOTE);
            assert(find_byte(w, 1, QUOTE) == w.len() - 1);
        },
        TokenType::Identifier | TokenType::Boolean => {
            if token_type == TokenType::Boolean {
                assert(seq![0x79u8, 0x65u8, 0x73u8][0] == 0x79u8);
                assert(seq![0x79u8, 0x65u8, 0x73u8][1] == 0x65u8);
                assert(seq![0x79u8, 0x65u8, 0x73u8][2] == 0x73u8);
                assert(seq![0x6eu8, 0x6fu8][0] == 0x6eu8);
                assert(seq![0x6eu8, 0x6fu8][1] == 0x6fu8);
                assert(is_word(w));
            }
            lemma_identifier_end(w, 1);
            let end = identifier_end(w, 1);
            if end < w.len() {
                assert(is_identifier_part(w[end]));
            }
            assert(w.subrange(0, end) =~= w);
        },
        _ => {
            assert(w.len() == symbol(token_type).len());
            assert(w[0] == symbol(token_type)[0]);
            if w.len() > 1 {
                assert(w[1] == symbol(token_type)[1]);
            }
        },
    }
    assert(skip_trivia(w, 0) == 0);
    lemma_lex(w, 0);
    assert(lex(w, 0) == Lexed::Token {
        token_type,
        index: token_of(token_type, w).index,
        length: token_of(token_type, w).length,
        next: w.len() as int,
    });
    assert(lex(w, w.len() as int) is End);
}

/// The bytes of `s` that spell the token of the given kind, index and length: those
/// that the token covers, and for a string the quotes around them too.
pub open spec fn lexeme_at(s: Seq<u8>, token_type: TokenType, index: int, length: int) -> Seq<u8> {
    if token_type == TokenType::String {
        s.subrange(index - 1, index + length + 1)
    } else {
        s.subrange(index, index + length)
    }
}

/// Digits end at or behind the index from which they are followed.
pub proof fn lemma_digits_end(s: Seq<u8>, index: int)
    ensures
        index <= digits_end(s, index),
        0 <= index <= s.len() ==> digits_end(s, index) <= s.len(),
    decreases s.len() - index,
{
    if 0 <= index < s.len() && is_digit(s[index]) {
        lemma_digits_end(s, index + 1);
    }
}

/// Digits end in a part of a text where they end in the text, as long as that is
/// within the part.
pub proof fn lemma_digits_end_within(s: Seq<u8>, start: int, end: int, index: int)
    requires
        0 <= start <= start + index <= end <= s.len(),
        digits_end(s, start + index) <= end,
    ensures
        digits_end(s.subrange(start, end), index) == digits_end(s, start + index) - start,
    decreases end - start - index,
{
    let w = s.subrange(start, end);
    lemma_digits_end(s, start + index);
    if start + index < end {
        assert(w[index] == s[start + index]);
        if is_digit(s[start + index]) {
            lemma_digits_end_within(s, start, end, index + 1);
        }
    }
}

/// A number or date that is read from `index` on, behind the digits and dots that
/// have been read, ends behind a digit; up to there each `.` is followed by a digit.
proof fn lemma_number_shape(
    s: Seq<u8>,
    start: int,
    index: int,
    negative: bool,
    fresh: bool,
    dots: nat,
    last_dot: int,
)
    requires
        0 <= start < index <= s.len(),
        start <= last_dot < index,
    ensures
        scan_number(s, start, index, negative, fresh, dots, last_dot) matches Lexed::Token {
            token_type,
            next,
            ..
        } ==> {
            let whole = digits_end(s, index);
            &&& index <= whole <= next
            &&& !fresh || index < whole
            &&& if whole == next {
                token_type == (if dots <= 1 {
                    TokenType::Number
                } else {
                    TokenType::Date
                }) && dots <= 3
            } else {
                &&& s[whole] == DOT
                &&& !(dots >= 1 && negative)
                &&& scan_number(s, start, whole + 1, negative, true, dots + 1, whole)
                    == scan_number(s, start, index, negative, fresh, dots, last_dot)
            }
        },
{
    lemma_scan_digits(s, start, index, negative, fresh, dots, last_dot);
    let whole = digits_end(s, index);
    lemma_scan_number(s, start, whole, negative, fresh && whole == index, dots, last_dot);
    if whole < s.len() && s[whole] == DOT {
        if !(fresh && whole == index) && !(dots >= 1 && negative) {
            lemma_scan_number(s, start, whole + 1, negative, true, dots + 1, whole);
        }
    }
}

/// Behind a fourth `.` no number or date is read.
proof fn lemma_too_many_dots(
    s: Seq<u8>,
    start: int,
    index: int,
    negative: bool,
    fresh: bool,
    dots: nat,
    last_dot: int,
)
    requires
        dots >= 4,
    ensures
        !(scan_number(s, start, index, negative, fresh, dots, last_dot) is Token),
    decreases s.len() - index,
{
    if 0 <= index < s.len() && s[index] == DOT {
        if !fresh && !(dots >= 1 && negative) {
            lemma_too_many_dots(s, start, index + 1, negative, true, dots + 1, index);
        }
    } else if 0 <= index < s.len() && is_digit(s[index]) {
        lemma_too_many_dots(s, start, index + 1, negative, false, dots, last_dot);
    }
}

/// Each token that is read is a well-formed lexeme of its kind: the bytes that
/// spell it match the grammar of the kind.
pub proof fn lemma_token_is_lexeme(s: Seq<u8>, position: int)
    ensures
        lex(s, position) matches Lexed::Token { token_type, index, length, .. } ==> is_lexeme(
            token_type,
            lexeme_at(s, token_type, index, length),
        ),
{
    lemma_lex(s, position);
    let start = skip_trivia(s, position);
    if let Lexed::Token { token_type, index, length, next } = lex(s, position) {
        let w = lexeme_at(s, token_type, index, length);
        let first = s[start];
        if first == MINUS || is_digit(first) {
            let negative = first == MINUS;
            let begin = if negative {
                1int
            } else {
                0int
            };
            lemma_scan_number(s, start, start + 1, negative, negative, 0, start);
            assert(w == s.subrange(start, next));
            assert(w[0] == first);
            // the digits before the first `.`
            lemma_number_shape(s, start, start + 1, negative, negative, 0, start);
            let years = digits_end(s, start + 1);
            if !negative {
                assert(digits_end(s, start) == years);
            }
            lemma_digits_end_within(s, start, next, begin);
            assert(digits_end(w, begin) == years - start);
            if years < next {
                // the digits behind the first `.`
                lemma_number_shape(s, start, years + 1, negative, true, 1, years);
                let months = digits_end(s, years + 1);
                lemma_digits_end_within(s, start, next, years + 1 - start);
                assert(w[years - start] == s[years]);
                assert(digits_end(w, years - start + 1) == months - start);
                if months < next {
                    // the digits behind the second `.`
                    lemma_number_shape(s, start, months + 1, negative, true, 2, months);
                    let days = digits_end(s, months + 1);
                    lemma_digits_end_within(s, start, next, months + 1 - start);
                    assert(w[months - start] == s[months]);
                    assert(digits_end(w, months - start + 1) == days - start);
                    assert(!negative);
                    if days < next {
                        // the digits behind the third `.`
                        lemma_number_shape(s, start, days + 1, negative, true, 3, days);
                        lemma_digits_end_within(s, start, next, days + 1 - start);
                        assert(w[days - start] == s[days]);
                        let hours = digits_end(s, days + 1);
                        assert(digits_end(w, days - start + 1) == hours - start);
                        if hours < next {
                            lemma_too_many_dots(s, start, hours + 1, negative, true, 4, hours);
                        }
                        assert(token_type == TokenType::Date);
                        assert(is_date_lexeme(w));
                    } else {
                        assert(token_type == TokenType::Date);
                        assert(is_date_lexeme(w));
                    }
                } else {
                    assert(token_type == TokenType::Number);
                    assert(is_number_lexeme(w));
                }
            } else {
                assert(token_type == TokenType::Number);
                assert(is_number_lexeme(w));
            }
        } else if first == QUOTE {
            lemma_find_byte(s, start + 1, QUOTE);
            assert(w[0] == s[start]);
            assert(w[w.len() - 1] == s[index + length]);
            assert forall|i: int| 0 < i < w.len() - 1 implies w[i] != QUOTE by {
                assert(w[i] == s[start + i]);
            }
        } else if is_identifier_start(first) {
            lemma_identifier_end(s, start + 1);
            assert(w[0] == first);
            assert forall|i: int| 0 < i < w.len() implies is_identifier_part(#[trigger] w[i]) by {
                assert(w[i] == s[start + i]);
            }
        } else {
            assert(w =~= symbol(token_type));
        }
    }
}

} // verus!
