use crate::text::{
    clamp, count_lines, find_byte, index_of_byte, lemma_find_byte, lemma_line_start,
    lemma_lines_back, lemma_lines_forth, lemma_plain_byte_boundary, line_start, lines_back,
    lines_before, lines_forth, slice_of, start_of_line, NEW_LINE,
};
use vstd::prelude::*;
use vstd::string::StringSliceAdditionalSpecFns;
use vstd::utf8::{encode_utf8, encode_utf8_valid_utf8};

verus! {

/// The kinds of failure that parsing reports.
#[derive(Debug, PartialEq, Eq, Clone, Copy, Structural)]
pub enum ErrorType {
    /// The text holds something that is no token.
    TokenizerError,
    /// A token of another kind was expected, or the end of the text came too early.
    UnexpectedTokenError,
    /// A number does not fit the type that was asked for.
    InvalidNumberError,
    /// A value of another type was expected.
    InvalidType,
    /// A value of the right type was not acceptable.
    InvalidValue,
    /// The parser was used in a state that does not allow the operation.
    InvalidState,
    /// A collection was closed that had not been opened.
    DepthMismatchError,
    /// A record lacks a field.
    MissingField,
    /// A record gives a field twice.
    DuplicateField,
    /// A record names a field that it does not have.
    UnknownField,
    /// A variant was named that the type does not have.
    UnknownVariant,
    /// Any other failure; the message says which.
    Message,
}

/// The lines of the source around the place of an error.
#[derive(Debug, Clone, PartialEq, Eq)]
pub struct ErrorContext {
    /// The byte offset at which the first captured line begins.
    pub start: usize,
    /// The byte offset at which the last captured line ends.
    pub end: usize,
    /// The byte offset around which the lines were captured.
    pub position: usize,
    /// The number of the line that holds the error, counted from 1.
    pub line: usize,
    /// The byte offset of the error within its line, counted from 0.
    pub column: usize,
    /// The captured lines.
    pub lines: String,
}

/// The number of lines that are captured around an error where no number is asked
/// for.
pub const CONTEXT_LINES: usize = 5;

/// How many of `max_lines` captured lines lie before the line of the error: half of
/// the others, rounded down.
pub open spec fn lines_above(max_lines: int) -> nat {
    if max_lines <= 0 {
        0
    } else {
        ((max_lines - 1) / 2) as nat
    }
}

/// How many of `max_lines` captured lines lie behind the line of the error: the
/// others.
pub open spec fn lines_below(max_lines: int) -> nat {
    if max_lines <= 0 {
        0
    } else {
        (max_lines - 1 - lines_above(max_lines)) as nat
    }
}

/// Where the captured lines begin: with the line of the error, or as many lines
/// before it as are asked for and there are.
pub open spec fn context_start(s: Seq<u8>, position: int, max_lines: int) -> int {
    lines_back(s, line_start(s, clamp(s, position)), lines_above(max_lines))
}

/// Where the captured lines end: with the line of the error, or as many lines behind
/// it as are asked for and there are. Nothing is captured where no line is asked for.
pub open spec fn context_end(s: Seq<u8>, position: int, max_lines: int) -> int {
    if max_lines <= 0 {
        context_start(s, position, max_lines)
    } else {
        lines_forth(s, find_byte(s, clamp(s, position), NEW_LINE), lines_below(max_lines))
    }
}

impl ErrorContext {
    /// Whether this is the context of `position` in `s` with at most `max_lines`
    /// lines: those lines, centred on the line of `position`, and the number of that
    /// line and the offset within it.
    pub open spec fn describes(self, s: Seq<u8>, position: int, max_lines: int) -> bool {
        &&& self.start == context_start(s, position, max_lines)
        &&& self.end == context_end(s, position, max_lines)
        &&& self.position == clamp(s, position)
        &&& self.line == count_lines(s, clamp(s, position)) + 1
        &&& self.column == clamp(s, position) - line_start(s, clamp(s, position))
        &&& encode_utf8(self.lines@) == s.subrange(self.start as int, self.end as int)
    }

    /// Captures at most `max_lines` lines of `text` around `position`.
    pub fn from_source(text: &str, position: usize, max_lines: usize) -> (context: ErrorContext)
        ensures
            context.describes(text.spec_bytes(), position as int, max_lines as int),
    {
        broadcast use encode_utf8_valid_utf8;

        let bytes = text.as_bytes();
        let ghost s = bytes@;
        let position = if position < bytes.len() {
            position
        } else if bytes.len() > 0 {
            bytes.len() - 1
        } else {
            0
        };
        let line = start_of_line(bytes, position);
        let line_end = index_of_byte(bytes, position, NEW_LINE);
        let above = if max_lines == 0 {
            0
        } else {
            (max_lines - 1) / 2
        };
        let below = if max_lines == 0 {
            0
        } else {
            max_lines - 1 - above
        };
        proof {
            lemma_line_start(s, position as int);
            lemma_find_byte(s, position as int, NEW_LINE);
            lemma_lines_back(s, line as int, above as nat);
            lemma_lines_forth(s, line_end as int, below as nat);
        }
        let mut start = line;
        let mut left = above;
        while left > 0 && start > 0
            invariant
                start <= line <= bytes.len(),
                s == bytes@,
                start == 0 || s[start - 1] == NEW_LINE,
                lines_back(s, start as int, left as nat) == lines_back(
                    s,
                    line as int,
                    above as nat,
                ),
            decreases left,
        {
            proof {
                lemma_line_start(s, start - 1);
            }
            start = start_of_line(bytes, start - 1);
            left -= 1;
        }
        let mut end = line_end;
        let mut left = below;
        while left > 0 && end < bytes.len()
            invariant
                line_end <= end <= bytes.len(),
                s == bytes@,
                end == s.len() || s[end as int] == NEW_LINE,
                lines_forth(s, end as int, left as nat) == lines_forth(
                    s,
                    line_end as int,
                    below as nat,
                ),
            decreases left,
        {
            proof {
                lemma_find_byte(s, end + 1, NEW_LINE);
            }
            end = index_of_byte(bytes, end + 1, NEW_LINE);
            left -= 1;
        }
        if max_lines == 0 {
            end = start;
        }
        proof {
            lemma_plain_byte_boundary(s, start as int);
            lemma_plain_byte_boundary(s, end as int);
        }
        let lines = slice_of(text, start, end).to_owned();
        ErrorContext {
            start,
            end,
            position,
            line: lines_before(bytes, position) + 1,
            column: position - line,
            lines,
        }
    }
}

/// Something that can show the lines of its source around a position.
pub trait ErrorContextProvider {
    /// The bytes of the source.
    spec fn provided_source(&self) -> Seq<u8>;

    /// Whether this provider has a source to show.
    spec fn provides_context(&self) -> bool;

    /// Captures at most `max_lines` lines of the source around `position`, if there is
    /// a source.
    fn get_line_context(&self, position: usize, max_lines: usize) -> (context: Option<
        ErrorContext,
    >)
        ensures
            context is Some == self.provides_context(),
            context matches Some(found) ==> found.describes(
                self.provided_source(),
                position as int,
                max_lines as int,
            ),
    ;
}

/// A failure to parse, with the byte offset in the source at which it arose.
#[derive(Debug, Clone, PartialEq, Eq)]
pub struct Error {
    /// The kind of this error.
    pub error_type: ErrorType,
    /// The byte offset in the source at which the error arose.
    pub position: usize,
    /// What went wrong, in words.
    pub message: String,
    /// The lines around the error, where they have been captured.
    pub context: Option<ErrorContext>,
}

/// The result of an operation that may find nothing left to read.
pub type ParseResult<T> = Result<Option<T>, Error>;

/// The result of an operation that must find what it reads.
pub type ParseCompleteResult<T> = Result<T, Error>;

impl Error {
    /// Whether this is an error of the given kind at the given offset that carries no
    /// context yet.
    pub open spec fn is(self, error_type: ErrorType, position: int) -> bool {
        &&& self.error_type == error_type
        &&& self.position == position
        &&& self.context is None
    }

    /// Creates an error without context.
    pub fn new(error_type: ErrorType, position: usize, message: &str) -> (error: Error)
        ensures
            error.is(error_type, position as int),
            error.message@ == message@,
    {
        Error { error_type, position, message: message.to_owned(), context: None }
    }

    /// Captures the lines of the provider's source around `position` for this error,
    /// in place of any that it carried.
    pub fn with_context<P: ErrorContextProvider>(self, provider: &P, position: usize) -> (error:
        Error)
        ensures
            error.error_type == self.error_type,
            error.position == self.position,
            error.message == self.message,
            error.context is Some == provider.provides_context(),
            error.context matches Some(context) ==> context.describes(
                provider.provided_source(),
                position as int,
                CONTEXT_LINES as int,
            ),
    {
        Error {
            error_type: self.error_type,
            position: self.position,
            message: self.message,
            context: provider.get_line_context(position, CONTEXT_LINES),
        }
    }

    /// Whether the lines around this error have been captured.
    pub fn has_context(&self) -> (has: bool)
        ensures
            has == self.context is Some,
    {
        self.context.is_some()
    }
}

} // verus!
