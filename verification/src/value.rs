use crate::error::{Error, ErrorType};
use crate::grammar;
use crate::grammar::{Failure, State};
use crate::reader::{failed, Reader};
use crate::syntax::lemma_lex;
use crate::text::{index_of_byte, lemma_find_byte};
use crate::types::{copy_text, own_text, CollectionType, Date, Key, ObjectKey, RealType};
use vstd::string::StringSliceAdditionalSpecFns;
use std::borrow::Cow;
use vstd::prelude::*;
use vstd::utf8::encode_utf8;

verus! {

/// What a value is: the tree of a [Value], its texts as bytes.
pub enum Tree {
    /// No value.
    Nothing,
    /// An integer.
    Integer(int),
    /// A number with a fraction: the bytes that spell it.
    Decimal(Seq<u8>),
    /// A boolean.
    Boolean(bool),
    /// A date.
    Date(Date),
    /// A string.
    String(Seq<u8>),
    /// An identifier.
    Identifier(Seq<u8>),
    /// An object: its keys and values in the order of the text, repeated keys too.
    Object(Seq<(Key, Tree)>),
    /// An array: its values in the order of the text.
    Array(Seq<Tree>),
}

/// A single (key, value) entry in an object value.
pub type ObjectEntry<'src> = (ObjectKey<'src>, Value<'src>);

/// An object value containing (key, value) pairs.
/// Duplicate keys are allowed.
pub type ObjectMap<'src> = Vec<ObjectEntry<'src>>;

/// A source text as a tree of values, for texts whose schema is not known
/// beforehand.
#[derive(Debug, PartialEq, PartialOrd)]
pub enum Value<'src> {
    /// No value: the text ended where a value was looked for.
    Nothing,
    /// A number without a fraction.
    Integer(i64),
    /// A number with a fraction, as the text spells it.
    Decimal(Cow<'src, str>),
    /// A boolean.
    Boolean(bool),
    /// A date.
    Date(Date),
    /// A string.
    String(Cow<'src, str>),
    /// An identifier.
    Identifier(Cow<'src, str>),
    /// An object: its entries in the order of the text.
    Object(ObjectMap<'src>),
    /// An array: its values in the order of the text.
    Array(Vec<Value<'src>>),
}

impl<'src> Value<'src> {
    /// What this value is: its tree, with each text as its bytes.
    pub open spec fn tree(&self) -> Tree
        decreases self,
    {
        match self {
            Value::Nothing => Tree::Nothing,
            Value::Integer(value) => Tree::Integer(*value as int),
            Value::Decimal(text) => Tree::Decimal(encode_utf8(text@)),
            Value::Boolean(value) => Tree::Boolean(*value),
            Value::Date(date) => Tree::Date(*date),
            Value::String(text) => Tree::String(encode_utf8(text@)),
            Value::Identifier(text) => Tree::Identifier(encode_utf8(text@)),
            Value::Object(entries) => Tree::Object(
                Seq::new(
                    entries@.len(),
                    |i: int|
                        if 0 <= i < entries@.len() {
                            (entries@[i].0@, entries@[i].1.tree())
                        } else {
                            (
                                Key::Date(Date { years: 0, months: 0, days: 0, hours: 0 }),
                                Tree::Nothing,
                            )
                        },
                ),
            ),
            Value::Array(values) => Tree::Array(
                Seq::new(
                    values@.len(),
                    |i: int|
                        if 0 <= i < values@.len() {
                            values@[i].tree()
                        } else {
                            Tree::Nothing
                        },
                ),
            ),
        }
    }
}

impl<'src> View for Value<'src> {
    type V = Tree;

    open spec fn view(&self) -> Tree {
        self.tree()
    }
}

impl<'src> Clone for Value<'src> {
    fn clone(&self) -> (copy: Self)
        ensures
            copy@ == self@,
        decreases self,
    {
        match self {
            Value::Nothing => Value::Nothing,
            Value::Integer(value) => Value::Integer(*value),
            Value::Decimal(text) => Value::Decimal(copy_text(text)),
            Value::Boolean(value) => Value::Boolean(*value),
            Value::Date(date) => Value::Date(*date),
            Value::String(text) => Value::String(copy_text(text)),
            Value::Identifier(text) => Value::Identifier(copy_text(text)),
            Value::Object(entries) => {
                let mut copies: ObjectMap<'src> = Vec::new();
                let mut index: usize = 0;
                while index < entries.len()
                    invariant
                        index <= entries.len(),
                        copies.len() == index,
                        *self == Value::Object(*entries),
                        forall|i: int|
                            0 <= i < index ==> copies@[i].0@ == entries@[i].0@ && copies@[i].1@
                                == entries@[i].1@,
                    decreases entries.len() - index,
                {
                    let entry = &entries[index];
                    assert(decreases_to!(*self => self->Object_0));
                    assert(decreases_to!(self->Object_0 => self->Object_0@));
                    assert(decreases_to!(self->Object_0@ => self->Object_0@[index as int]));
                    assert(decreases_to!(self->Object_0@[index as int] =>
                        self->Object_0@[index as int].1));
                    copies.push((entry.0.clone(), entry.1.clone()));
                    index += 1;
                }
                proof {
                    lemma_object_tree(copies);
                    lemma_object_tree(*entries);
                    assert(entry_trees(copies@) =~= entry_trees(entries@));
                }
                Value::Object(copies)
            },
            Value::Array(values) => {
                let mut copies: Vec<Value<'src>> = Vec::new();
                let mut index: usize = 0;
                while index < values.len()
                    invariant
                        index <= values.len(),
                        copies.len() == index,
                        *self == Value::Array(*values),
                        forall|i: int| 0 <= i < index ==> copies@[i]@ == values@[i]@,
                    decreases values.len() - index,
                {
                    assert(decreases_to!(*self => self->Array_0));
                    assert(decreases_to!(self->Array_0 => self->Array_0@));
                    assert(decreases_to!(self->Array_0@ => self->Array_0@[index as int]));
                    copies.push(values[index].clone());
                    index += 1;
                }
                proof {
                    lemma_array_tree(copies);
                    lemma_array_tree(*values);
                    assert(trees(copies@) =~= trees(values@));
                }
                Value::Array(copies)
            },
        }
    }
}

/// The trees of the values, one for one.
pub open spec fn trees(values: Seq<Value>) -> Seq<Tree> {
    Seq::new(values.len(), |i: int| values[i]@)
}

/// The keys and trees of the entries, one for one.
pub open spec fn entry_trees(entries: Seq<ObjectEntry>) -> Seq<(Key, Tree)> {
    Seq::new(entries.len(), |i: int| (entries[i].0@, entries[i].1@))
}

/// The tree of an array is made of the trees of its values.
pub proof fn lemma_array_tree(values: Vec<Value>)
    ensures
        Value::Array(values)@ == Tree::Array(trees(values@)),
{
    reveal_with_fuel(Value::tree, 2);
    assert(Value::Array(values)@->Array_0 =~= trees(values@));
}

/// The tree of an object is made of the keys and trees of its entries.
pub proof fn lemma_object_tree(entries: ObjectMap)
    ensures
        Value::Object(entries)@ == Tree::Object(entry_trees(entries@)),
{
    reveal_with_fuel(Value::tree, 2);
    assert(Value::Object(entries)@->Object_0 =~= entry_trees(entries@));
}

/// Whether `result` is what `outcome` says: a value with the same tree, or an error
/// of the same kind at the same offset.
pub open spec fn gives_tree(result: Result<Value, Error>, outcome: Result<Tree, Failure>) -> bool {
    match outcome {
        Ok(tree) => result matches Ok(value) && value@ == tree,
        Err(failure) => failed(result, failure),
    }
}

/// Whether `result` is what `outcome` says: values with the same trees, or an error
/// of the same kind at the same offset.
pub open spec fn gives_trees(
    result: Result<Vec<Value>, Error>,
    outcome: Result<Seq<Tree>, Failure>,
) -> bool {
    match outcome {
        Ok(found) => result matches Ok(values) && trees(values@) == found,
        Err(failure) => failed(result, failure),
    }
}

/// Whether `result` is what `outcome` says: entries with the same keys and trees, or
/// an error of the same kind at the same offset.
pub open spec fn gives_entries(
    result: Result<ObjectMap, Error>,
    outcome: Result<Seq<(Key, Tree)>, Failure>,
) -> bool {
    match outcome {
        Ok(found) => result matches Ok(entries) && entry_trees(entries@) == found,
        Err(failure) => failed(result, failure),
    }
}

/// A value that has been read leaves the depth as it was: each collection that was
/// entered for it has been left.
pub proof fn lemma_value_balanced(s: Seq<u8>, state: State)
    ensures
        grammar::value(s, state).outcome is Ok ==> grammar::value(s, state).state.depth
            == state.depth,
    decreases s.len() - state.position, 0int,
{
    grammar::lemma_depth_steps(s, state);
    grammar::lemma_begin_collection(s, state);
    if let Ok(Some(RealType::ObjectOrArray)) = grammar::peek_next_type(s, state).outcome {
        if let Ok(Some(kind)) = grammar::try_discern_array_or_map(s, state).outcome {
            let begun = grammar::begin_collection(s, state);
            if begun.outcome is Ok {
                match kind {
                    CollectionType::Array => {
                        lemma_elements_balanced(s, begun.state, Seq::empty());
                        grammar::lemma_depth_steps(
                            s,
                            grammar::elements(s, begun.state, Seq::empty()).state,
                        );
                    },
                    CollectionType::Object => {
                        lemma_properties_balanced(s, begun.state, Seq::empty());
                        grammar::lemma_depth_steps(
                            s,
                            grammar::properties(s, begun.state, Seq::empty()).state,
                        );
                    },
                }
            }
        }
    }
}

/// The values of an array that have been read leave the depth as it was.
pub proof fn lemma_elements_balanced(s: Seq<u8>, state: State, found: Seq<Tree>)
    ensures
        grammar::elements(s, state, found).outcome is Ok ==> grammar::elements(
            s,
            state,
            found,
        ).state.depth == state.depth,
    decreases s.len() - state.position, 1int,
{
    if let Ok(false) = grammar::is_collection_ended(s, state).outcome {
        lemma_value_balanced(s, state);
        let item = grammar::value(s, state);
        if let Ok(tree) = item.outcome {
            if state.position < item.state.position <= s.len() {
                lemma_elements_balanced(s, item.state, found.push(tree));
            }
        }
    }
}

/// The properties of an object that have been read leave the depth as it was.
pub proof fn lemma_properties_balanced(s: Seq<u8>, state: State, found: Seq<(Key, Tree)>)
    ensures
        grammar::properties(s, state, found).outcome is Ok ==> grammar::properties(
            s,
            state,
            found,
        ).state.depth == state.depth,
    decreases s.len() - state.position, 1int,
{
    grammar::lemma_depth_steps(s, state);
    grammar::lemma_next_property(s, state);
    let property = grammar::next_property(s, state);
    if let Ok(Some((key, _))) = property.outcome {
        lemma_value_balanced(s, property.state);
        let item = grammar::value(s, property.state);
        if let Ok(tree) = item.outcome {
            if state.position < item.state.position <= s.len() {
                lemma_properties_balanced(s, item.state, found.push((key, tree)));
            }
        }
    }
}

/// A document that has been read from outside of any collection ends outside of any
/// collection: the depth is 0 again at the end of the parse.
pub proof fn lemma_document_balanced(s: Seq<u8>)
    ensures
        grammar::document(s, State { position: 0, depth: 0 }).outcome is Ok ==> grammar::document(
            s,
            State { position: 0, depth: 0 },
        ).state.depth == 0,
{
    lemma_properties_balanced(s, State { position: 0, depth: 0 }, Seq::empty());
}

/// The value of a property lies behind its key: reading a property and its value
/// moves the cursor forward, within the text.
pub proof fn lemma_value_behind_key(s: Seq<u8>, state: State)
    ensures
        grammar::next_property(s, state).outcome matches Ok(Some(_)) ==> state.position
            < grammar::value(s, grammar::next_property(s, state).state).state.position <= s.len(),
{
    grammar::lemma_next_property(s, state);
    lemma_property_within_text(s, state);
    if let Ok(Some(_)) = grammar::next_property(s, state).outcome {
        lemma_value(s, grammar::next_property(s, state).state);
    }
}

/// A property is read only from a cursor that is within the text.
proof fn lemma_property_within_text(s: Seq<u8>, state: State)
    ensures
        grammar::next_property(s, state).outcome matches Ok(Some(_)) ==> 0 <= state.position
            <= s.len(),
{
    lemma_lex(s, state.position);
}

/// The entries of an object are its properties in the order of the text, each one
/// kept: what has been found stays in its place before what is found later, and a
/// key that comes again is another entry.
pub proof fn lemma_properties_in_order(s: Seq<u8>, state: State, found: Seq<(Key, Tree)>)
    ensures
        grammar::properties(s, state, found).state == grammar::properties(
            s,
            state,
            Seq::empty(),
        ).state,
        match grammar::properties(s, state, Seq::empty()).outcome {
            Ok(more) => grammar::properties(s, state, found).outcome == Ok::<
                Seq<(Key, Tree)>,
                Failure,
            >(found + more),
            Err(failure) => grammar::properties(s, state, found).outcome == Err::<
                Seq<(Key, Tree)>,
                Failure,
            >(failure),
        },
    decreases s.len() - state.position,
{
    grammar::lemma_next_property(s, state);
    let property = grammar::next_property(s, state);
    match property.outcome {
        Ok(Some((key, _))) => {
            let item = grammar::value(s, property.state);
            if let Ok(tree) = item.outcome {
                if state.position < item.state.position <= s.len() {
                    let entry = seq![(key, tree)];
                    lemma_properties_in_order(s, item.state, found.push((key, tree)));
                    lemma_properties_in_order(s, item.state, entry);
                    assert(Seq::<(Key, Tree)>::empty().push((key, tree)) =~= entry);
                    if let Ok(more) = grammar::properties(s, item.state, Seq::empty()).outcome {
                        assert(found.push((key, tree)) + more =~= found + (entry + more));
                    }
                }
            }
        },
        Ok(None) => {
            assert(found + Seq::<(Key, Tree)>::empty() =~= found);
        },
        Err(_) => {},
    }
}

/// The values of an array are its values in the order of the text, each one kept.
pub proof fn lemma_elements_in_order(s: Seq<u8>, state: State, found: Seq<Tree>)
    ensures
        grammar::elements(s, state, found).state == grammar::elements(s, state, Seq::empty()).state,
        match grammar::elements(s, state, Seq::empty()).outcome {
            Ok(more) => grammar::elements(s, state, found).outcome == Ok::<Seq<Tree>, Failure>(
                found + more,
            ),
            Err(failure) => grammar::elements(s, state, found).outcome == Err::<
                Seq<Tree>,
                Failure,
            >(failure),
        },
    decreases s.len() - state.position,
{
    match grammar::is_collection_ended(s, state).outcome {
        Ok(false) => {
            let item = grammar::value(s, state);
            if let Ok(tree) = item.outcome {
                if state.position < item.state.position <= s.len() {
                    let entry = seq![tree];
                    lemma_elements_in_order(s, item.state, found.push(tree));
                    lemma_elements_in_order(s, item.state, entry);
                    assert(Seq::<Tree>::empty().push(tree) =~= entry);
                    if let Ok(more) = grammar::elements(s, item.state, Seq::empty()).outcome {
                        assert(found.push(tree) + more =~= found + (entry + more));
                    }
                }
            }
        },
        Ok(true) => {
            assert(found + Seq::<Tree>::empty() =~= found);
        },
        Err(_) => {},
    }
}

/// Reading a value never moves the cursor back, nor beyond the end of the text.
pub proof fn lemma_value(s: Seq<u8>, state: State)
    requires
        0 <= state.position <= s.len(),
    ensures
        state.position <= grammar::value(s, state).state.position <= s.len(),
    decreases s.len() - state.position, 0int,
{
    grammar::lemma_steps_stay(s, state);
    grammar::lemma_begin_collection(s, state);
    if let Ok(Some(RealType::ObjectOrArray)) = grammar::peek_next_type(s, state).outcome {
        if let Ok(Some(kind)) = grammar::try_discern_array_or_map(s, state).outcome {
            let begun = grammar::begin_collection(s, state);
            if begun.outcome is Ok {
                match kind {
                    CollectionType::Array => {
                        lemma_elements(s, begun.state, Seq::empty());
                        grammar::lemma_steps_stay(
                            s,
                            grammar::elements(s, begun.state, Seq::empty()).state,
                        );
                    },
                    CollectionType::Object => {
                        lemma_properties(s, begun.state, Seq::empty());
                        grammar::lemma_steps_stay(
                            s,
                            grammar::properties(s, begun.state, Seq::empty()).state,
                        );
                    },
                }
            }
        }
    }
}

/// Reading the values of an array never moves the cursor back, nor beyond the end
/// of the text.
pub proof fn lemma_elements(s: Seq<u8>, state: State, found: Seq<Tree>)
    requires
        0 <= state.position <= s.len(),
    ensures
        state.position <= grammar::elements(s, state, found).state.position <= s.len(),
    decreases s.len() - state.position, 1int,
{
    if let Ok(false) = grammar::is_collection_ended(s, state).outcome {
        lemma_value(s, state);
        let item = grammar::value(s, state);
        if let Ok(tree) = item.outcome {
            if state.position < item.state.position {
                lemma_elements(s, item.state, found.push(tree));
            }
        }
    }
}

/// Reading the properties of an object never moves the cursor back, nor beyond the
/// end of the text.
pub proof fn lemma_properties(s: Seq<u8>, state: State, found: Seq<(Key, Tree)>)
    requires
        0 <= state.position <= s.len(),
    ensures
        state.position <= grammar::properties(s, state, found).state.position <= s.len(),
    decreases s.len() - state.position, 1int,
{
    grammar::lemma_steps_stay(s, state);
    grammar::lemma_next_property(s, state);
    let property = grammar::next_property(s, state);
    if let Ok(Some((key, _))) = property.outcome {
        lemma_value(s, property.state);
        let item = grammar::value(s, property.state);
        if let Ok(tree) = item.outcome {
            lemma_properties(s, item.state, found.push((key, tree)));
        }
    }
}

impl<'src> Value<'src> {
    /// Reads the values of an array up to its `}`.
    fn read_elements(reader: &mut Reader<'src>) -> (result: Result<Vec<Value<'src>>, Error>)
        ensures
            final(reader).text() == old(reader).text(),
            gives_trees(
                result,
                grammar::elements(old(reader).source(), old(reader).state(), Seq::empty()).outcome,
            ),
            final(reader).state() == grammar::elements(
                old(reader).source(),
                old(reader).state(),
                Seq::empty(),
            ).state,
        decreases old(reader).source().len() - old(reader).state().position, 1int,
    {
        let ghost s = reader.source();
        let ghost start = reader.state();
        let begin = reader.current_position();
        let mut values: Vec<Value<'src>> = Vec::new();
        assert(trees(values@) =~= Seq::empty());
        loop
            invariant
                reader.text() == old(reader).text(),
                s == old(reader).source(),
                start == old(reader).state(),
                begin == start.position,
                begin <= reader.state().position <= s.len(),
                grammar::elements(s, reader.state(), trees(values@)) == grammar::elements(
                    s,
                    start,
                    Seq::empty(),
                ),
            decreases s.len() - reader.state().position,
        {
            match reader.is_collection_ended() {
                Ok(true) => {
                    return Ok(values);
                },
                Ok(false) => {},
                Err(error) => {
                    return Err(error);
                },
            }
            let before = reader.current_position();
            proof {
                lemma_value(s, reader.state());
            }
            let value = match Self::next_from_reader(reader) {
                Ok(value) => value,
                Err(error) => {
                    return Err(error);
                },
            };
            if reader.current_position() <= before {
                return Err(
                    reader.parse_error(
                        ErrorType::UnexpectedTokenError,
                        "the text ends within a collection",
                    ),
                );
            }
            proof {
                assert(trees(values@.push(value)) =~= trees(values@).push(value@));
            }
            values.push(value);
        }
    }

    /// Reads the properties of an object up to its `}`, or of the document up to the
    /// end of the text.
    fn read_properties(reader: &mut Reader<'src>) -> (result: Result<ObjectMap<'src>, Error>)
        ensures
            final(reader).text() == old(reader).text(),
            gives_entries(
                result,
                grammar::properties(
                    old(reader).source(),
                    old(reader).state(),
                    Seq::empty(),
                ).outcome,
            ),
            final(reader).state() == grammar::properties(
                old(reader).source(),
                old(reader).state(),
                Seq::empty(),
            ).state,
        decreases old(reader).source().len() - old(reader).state().position, 1int,
    {
        let ghost s = reader.source();
        let ghost start = reader.state();
        let begin = reader.current_position();
        let mut entries: ObjectMap<'src> = Vec::new();
        assert(entry_trees(entries@) =~= Seq::empty());
        loop
            invariant
                reader.text() == old(reader).text(),
                s == old(reader).source(),
                start == old(reader).state(),
                begin == start.position,
                begin <= reader.state().position <= s.len(),
                grammar::properties(s, reader.state(), entry_trees(entries@))
                    == grammar::properties(s, start, Seq::empty()),
            decreases s.len() - reader.state().position,
        {
            let ghost before = reader.state();
            proof {
                grammar::lemma_next_property(s, before);
            }
            let key = match reader.next_property() {
                Ok(Some((key, _))) => key,
                Ok(None) => {
                    return Ok(entries);
                },
                Err(error) => {
                    return Err(error);
                },
            };
            proof {
                lemma_value(s, reader.state());
            }
            let value = match Self::next_from_reader(reader) {
                Ok(value) => value,
                Err(error) => {
                    return Err(error);
                },
            };
            proof {
                assert(entry_trees(entries@.push((key, value))) =~= entry_trees(entries@).push(
                    (key@, value@),
                ));
            }
            entries.push((key, value));
        }
    }

    /// Recursively reads a source text from a [Reader] into a [Value]: the
    /// properties of the document as an object.
    pub fn from_reader(reader: &mut Reader<'src>) -> (result: Result<Value<'src>, Error>)
        ensures
            final(reader).text() == old(reader).text(),
            gives_tree(
                result,
                grammar::document(old(reader).source(), old(reader).state()).outcome,
            ),
            final(reader).state() == grammar::document(
                old(reader).source(),
                old(reader).state(),
            ).state,
    {
        match Self::read_properties(reader) {
            Ok(entries) => {
                proof {
                    lemma_object_tree(entries);
                }
                Ok(Value::Object(entries))
            },
            Err(error) => Err(error),
        }
    }

    /// Recursively reads the next available value from a [Reader] into a [Value].
    pub fn next_from_reader(reader: &mut Reader<'src>) -> (result: Result<Value<'src>, Error>)
        ensures
            final(reader).text() == old(reader).text(),
            gives_tree(result, grammar::value(old(reader).source(), old(reader).state()).outcome),
            final(reader).state() == grammar::value(
                old(reader).source(),
                old(reader).state(),
            ).state,
        decreases old(reader).source().len() - old(reader).state().position, 0int,
    {
        let ghost s = reader.source();
        let begin = reader.current_position();
        proof {
            lemma_lex(s, reader.state().position);
            grammar::lemma_begin_collection(s, reader.state());
        }
        let next = match reader.peek_next_type() {
            Ok(Some(next)) => next,
            Ok(None) => {
                return Ok(Value::Nothing);
            },
            Err(error) => {
                return Err(error);
            },
        };
        match next {
            RealType::Boolean => match reader.read_boolean() {
                Ok(value) => Ok(Value::Boolean(value)),
                Err(error) => Err(error),
            },
            RealType::Identifier => match reader.read_identifier() {
                Ok(text) => Ok(Value::Identifier(Cow::Borrowed(text))),
                Err(error) => Err(error),
            },
            RealType::String => match reader.read_string() {
                Ok(text) => Ok(Value::String(Cow::Borrowed(text))),
                Err(error) => Err(error),
            },
            RealType::Number => {
                let number = match reader.read_number_as_str() {
                    Ok(number) => number,
                    Err(error) => {
                        return Err(error);
                    },
                };
                let bytes = number.as_bytes();
                let dot = index_of_byte(bytes, 0, 0x2e);
                proof {
                    lemma_find_byte(bytes@, 0, 0x2e);
                    if dot < bytes.len() {
                        assert(bytes@[dot as int] == 0x2eu8);
                    }
                    assert(grammar::has_dot(bytes@) == (dot < bytes.len()));
                }
                if dot < bytes.len() {
                    Ok(Value::Decimal(Cow::Borrowed(number)))
                } else {
                    match reader.parse_number::<i64>(number) {
                        Ok(value) => Ok(Value::Integer(value)),
                        Err(error) => Err(error),
                    }
                }
            },
            RealType::Date => match reader.read_date() {
                Ok(date) => Ok(Value::Date(date)),
                Err(error) => Err(error),
            },
            RealType::ObjectOrArray => {
                let collection_type = match reader.try_discern_array_or_map() {
                    Ok(Some(collection_type)) => collection_type,
                    Ok(None) => {
                        return Ok(Value::Nothing);
                    },
                    Err(error) => {
                        return Err(error);
                    },
                };
                match reader.begin_collection() {
                    Ok(_) => {},
                    Err(error) => {
                        return Err(error);
                    },
                }
                match collection_type {
                    CollectionType::Array => {
                        let values = match Self::read_elements(reader) {
                            Ok(values) => values,
                            Err(error) => {
                                return Err(error);
                            },
                        };
                        match reader.end_collection() {
                            Ok(_) => {
                                proof {
                                    lemma_array_tree(values);
                                }
                                Ok(Value::Array(values))
                            },
                            Err(error) => Err(error),
                        }
                    },
                    CollectionType::Object => {
                        let entries = match Self::read_properties(reader) {
                            Ok(entries) => entries,
                            Err(error) => {
                                return Err(error);
                            },
                        };
                        match reader.end_collection() {
                            Ok(_) => {
                                proof {
                                    lemma_object_tree(entries);
                                }
                                Ok(Value::Object(entries))
                            },
                            Err(error) => Err(error),
                        }
                    },
                }
            },
        }
    }

    /// Copies this value into one that borrows nothing from the source: each text is
    /// copied, and each entry and value stays in its place.
    pub fn to_owned(&self) -> (owned: Value<'static>)
        ensures
            owned@ == self@,
        decreases self,
    {
        match self {
            Value::Nothing => Value::Nothing,
            Value::Integer(value) => Value::Integer(*value),
            Value::Decimal(text) => Value::Decimal(own_text(text)),
            Value::Boolean(value) => Value::Boolean(*value),
            Value::Date(date) => Value::Date(*date),
            Value::String(text) => Value::String(own_text(text)),
            Value::Identifier(text) => Value::Identifier(own_text(text)),
            Value::Object(entries) => {
                let mut owned: ObjectMap<'static> = Vec::new();
                let mut index: usize = 0;
                while index < entries.len()
                    invariant
                        index <= entries.len(),
                        owned.len() == index,
                        *self == Value::Object(*entries),
                        forall|i: int|
                            0 <= i < index ==> owned@[i].0@ == entries@[i].0@ && owned@[i].1@
                                == entries@[i].1@,
                    decreases entries.len() - index,
                {
                    let entry = &entries[index];
                    assert(decreases_to!(*self => self->Object_0));
                    assert(decreases_to!(self->Object_0 => self->Object_0@));
                    assert(decreases_to!(self->Object_0@ => self->Object_0@[index as int]));
                    assert(decreases_to!(self->Object_0@[index as int] =>
                        self->Object_0@[index as int].1));
                    owned.push((entry.0.to_owned(), entry.1.to_owned()));
                    index += 1;
                }
                proof {
                    lemma_object_tree(owned);
                    lemma_object_tree(*entries);
                    assert(entry_trees(owned@) =~= entry_trees(entries@));
                }
                Value::Object(owned)
            },
            Value::Array(values) => {
                let mut owned: Vec<Value<'static>> = Vec::new();
                let mut index: usize = 0;
                while index < values.len()
                    invariant
                        index <= values.len(),
                        owned.len() == index,
                        *self == Value::Array(*values),
                        forall|i: int| 0 <= i < index ==> owned@[i]@ == values@[i]@,
                    decreases values.len() - index,
                {
                    assert(decreases_to!(*self => self->Array_0));
                    assert(decreases_to!(self->Array_0 => self->Array_0@));
                    assert(decreases_to!(self->Array_0@ => self->Array_0@[index as int]));
                    owned.push(values[index].to_owned());
                    index += 1;
                }
                proof {
                    lemma_array_tree(owned);
                    lemma_array_tree(*values);
                    assert(trees(owned@) =~= trees(values@));
                }
                Value::Array(owned)
            },
        }
    }

    /// Parses the given string into a [Value].
    pub fn from_str(s: &'src str) -> (result: Result<Value<'src>, Error>)
        ensures
            gives_tree(
                result,
                grammar::document(s.spec_bytes(), State { position: 0, depth: 0 }).outcome,
            ),
    {
        let mut reader = Reader::new(s);
        Value::from_reader(&mut reader)
    }
}

} // verus!
