//! Parsing of text in the Clausewitz configuration dialect: a brace-structured
//! key/value language of configuration, script and save files.
//!
//! The pipeline is pull-based. A [`tokenizer::Tokenizer`] lexes the bytes of a
//! source string. A [`reader::Reader`] adds the depth of collections and the looks
//! ahead that tell arrays from objects and empty values from given ones. From what
//! the reader reports, [`value::Value`] builds a tree for texts without a schema, and
//! [`de::Deserializer`] answers one request for each shape that a schema asks for;
//! [`record::RecordVisitor`] is the visitor of a record that collects repeated keys.
//!
//! What each operation finds is stated over the bytes of the text: the lexical rules
//! in [`syntax`], the operations of the reader and of the driver in [`grammar`].

/// The driver of schema-directed parsing.
pub mod de;
/// Errors and the lines of the source around them.
pub mod error;
/// What the operations of a reader find, as functions of the text and its state.
pub mod grammar;
/// Decimal integers and the types that hold them.
pub mod number;
/// The order of dates.
pub mod order;
/// Low-level parsing of a source text.
pub mod reader;
/// Records that collect the values of repeated keys.
pub mod record;
/// The schema of a source text.
pub mod schema;
/// The lexical rules of the dialect.
pub mod syntax;
/// Bytes, lines and the boundaries of characters.
pub mod text;
/// The tokens of a source text.
pub mod token;
/// The tokenizer.
pub mod tokenizer;
/// The types of the data of a source text.
pub mod types;
/// Small helpers.
pub mod util;
/// Parsing without a known schema.
pub mod value;
