//! Records whose repeated keys are collected: what is declared of such a record, and
//! the visitor that decides, key by key, where a value of the record goes.
use crate::error::{Error, ErrorType};
use crate::text::same_text;
use vstd::prelude::*;
use vstd::string::StringSliceAdditionalSpecFns;
use vstd::utf8::encode_utf8;

verus! {

/// The name of the marker on a field that collects the values of a repeated key.
pub open spec fn marker() -> Seq<char> {
    "from_duplicate_key"@
}

/// A declaration that cannot be made a record with collecting fields, and why.
#[derive(Debug)]
pub struct MacroError {
    /// What is wrong with the declaration.
    pub message: &'static str,
}

/// The arguments of a segment of a path.
#[derive(Debug)]
pub enum PathArguments {
    /// No arguments, as in `String`.
    Bare,
    /// Arguments in angle brackets, as in `Vec<T>`.
    AngleBracketed(Vec<GenericArgument>),
    /// Arguments in round brackets, as in `Fn(A) -> B`.
    Parenthesized,
}

/// One argument in angle brackets.
#[derive(Debug)]
pub enum GenericArgument {
    /// A type.
    Type(TypeDeclaration),
    /// Anything else: a lifetime, a constant, a binding.
    Other,
}

/// One segment of a path: a name and its arguments.
#[derive(Debug)]
pub struct PathSegment {
    /// The name of the segment.
    pub ident: String,
    /// The arguments behind the name.
    pub arguments: PathArguments,
}

/// The type of a field, as far as it is looked at.
#[derive(Debug)]
pub enum TypeDeclaration {
    /// A path, as in `std::vec::Vec<T>`.
    Path(Vec<PathSegment>),
    /// Any other type: a reference, a tuple, an array.
    Other,
}

/// An attribute on a field.
#[derive(Debug)]
pub enum Attribute {
    /// A bare path, as in `#[from_duplicate_key]`.
    Path(Vec<String>),
    /// Any other attribute, as in `#[doc = ".."]`.
    Other,
}

/// A field with a name.
#[derive(Debug)]
pub struct Field {
    /// The name of the field.
    pub name: String,
    /// The attributes on the field.
    pub attributes: Vec<Attribute>,
    /// The type of the field.
    pub field_type: TypeDeclaration,
}

/// The fields of a struct.
#[derive(Debug)]
pub enum Fields {
    /// Fields with names.
    Named(Vec<Field>),
    /// Fields without names, as in `struct Pair(i32, i32)`.
    Unnamed,
    /// No fields, as in `struct Unit;`.
    Unit,
}

/// What a declaration declares.
#[derive(Debug)]
pub enum Data {
    /// A struct and its fields.
    Struct(Fields),
    /// An enum.
    Enum,
    /// A union.
    Union,
}

/// A declaration of a type.
#[derive(Debug)]
pub struct DeriveInput {
    /// The name of the type.
    pub ident: String,
    /// What is declared.
    pub data: Data,
}

/// The fields of a record by their part in it: those that take one value, and those
/// that collect the values of a repeated key. Each list is in the order of the
/// declaration.
#[derive(Debug)]
pub struct StructFields<'a> {
    /// The fields that take one value.
    pub normal: Vec<&'a Field>,
    /// The fields that collect the values of a repeated key.
    pub duplicate: Vec<&'a Field>,
}

/// Whether `attribute` is the marker of a collecting field: a bare path whose last
/// segment is `from_duplicate_key`.
pub open spec fn is_marker(attribute: Attribute) -> bool {
    attribute matches Attribute::Path(path) && path.len() > 0 && path@.last()@ == marker()
}

/// Whether `attribute` is a bare path without a segment, which is no attribute.
pub open spec fn is_broken(attribute: Attribute) -> bool {
    attribute matches Attribute::Path(path) && path.len() == 0
}

/// Whether the first of `attributes` from `from` on that is a marker or broken is a
/// marker; an error if it is broken.
pub open spec fn marked_from(attributes: Seq<Attribute>, from: int) -> Result<bool, ()>
    decreases attributes.len() - from,
{
    if from < 0 || from >= attributes.len() {
        Ok(false)
    } else if is_broken(attributes[from]) {
        Err(())
    } else if is_marker(attributes[from]) {
        Ok(true)
    } else {
        marked_from(attributes, from + 1)
    }
}

/// Whether a field is marked as collecting; an error if an attribute before the
/// marker is a path without a segment.
pub open spec fn marked(field: Field) -> Result<bool, ()> {
    marked_from(field.attributes@, 0)
}

/// Returns the last segment of a type that is a path.
pub fn get_last_path_segment(t: &TypeDeclaration) -> (result: Result<&PathSegment, MacroError>)
    ensures
        match *t {
            TypeDeclaration::Path(path) => if path.len() > 0 {
                result matches Ok(segment) && *segment == path@.last()
            } else {
                result is Err
            },
            TypeDeclaration::Other => result is Err,
        },
{
    match t {
        TypeDeclaration::Path(path) => {
            if path.len() > 0 {
                Ok(&path[path.len() - 1])
            } else {
                Err(MacroError { message: "no type path found" })
            }
        },
        TypeDeclaration::Other => Err(MacroError { message: "only Type::Path is supported" }),
    }
}

/// The index of the first of `arguments` from `from` on that is a type; their number
/// where none is.
pub open spec fn first_type(arguments: Seq<GenericArgument>, from: int) -> int
    decreases arguments.len() - from,
{
    if from < 0 || from >= arguments.len() {
        arguments.len() as int
    } else if arguments[from] is Type {
        from
    } else {
        first_type(arguments, from + 1)
    }
}

/// `first_type` gives an index at or behind `from`, and within the arguments one of a
/// type.
pub proof fn lemma_first_type(arguments: Seq<GenericArgument>, from: int)
    requires
        0 <= from <= arguments.len(),
    ensures
        from <= first_type(arguments, from) <= arguments.len(),
        first_type(arguments, from) < arguments.len() ==> arguments[first_type(
            arguments,
            from,
        )] is Type,
    decreases arguments.len() - from,
{
    if from < arguments.len() && !(arguments[from] is Type) {
        lemma_first_type(arguments, from + 1);
    }
}

/// Returns the first argument in angle brackets of a segment that is a type.
#[verifier::loop_isolation(false)]
pub fn unwrap_generic_type(p: &PathSegment) -> (result: Result<&TypeDeclaration, MacroError>)
    ensures
        match p.arguments {
            PathArguments::AngleBracketed(arguments) => if first_type(arguments@, 0)
                < arguments.len() {
                result matches Ok(found) && arguments@[first_type(arguments@, 0)]
                    == GenericArgument::Type(*found)
            } else {
                result is Err
            },
            _ => result is Err,
        },
{
    match &p.arguments {
        PathArguments::Bare => Err(
            MacroError { message: "can't get generic type of a type without arguments" },
        ),
        PathArguments::AngleBracketed(arguments) => {
            let mut index: usize = 0;
            while index < arguments.len()
                invariant
                    index <= arguments.len(),
                    first_type(arguments@, index as int) == first_type(arguments@, 0),
                decreases arguments.len() - index,
            {
                match &arguments[index] {
                    GenericArgument::Type(found) => {
                        assert(first_type(arguments@, index as int) == index);
                        assert(arguments@[index as int] == GenericArgument::Type(*found));
                        return Ok(found);
                    },
                    GenericArgument::Other => {},
                }
                index += 1;
            }
            proof {
                lemma_first_type(arguments@, 0);
            }
            Err(MacroError { message: "unable to find generic type parameter" })
        },
        PathArguments::Parenthesized => Err(
            MacroError { message: "don't know how to handle parenthesized generic arguments" },
        ),
    }
}

/// Whether the field carries the marker of a collecting field.
pub fn field_has_attr_for_duplicate(field: &Field) -> (result: Result<bool, MacroError>)
    ensures
        match marked(*field) {
            Ok(is_marked) => result matches Ok(found) && found == is_marked,
            Err(_) => result is Err,
        },
{
    let mut index: usize = 0;
    while index < field.attributes.len()
        invariant
            index <= field.attributes.len(),
            marked_from(field.attributes@, index as int) == marked(*field),
        decreases field.attributes.len() - index,
    {
        match &field.attributes[index] {
            Attribute::Path(path) => {
                if path.len() == 0 {
                    return Err(MacroError { message: "couldn't get path of attribute" });
                }
                let last = &path[path.len() - 1];
                proof {
                    vstd::utf8::encode_utf8_decode_utf8(last@);
                    vstd::utf8::encode_utf8_decode_utf8(marker());
                }
                if same_text(last.as_str(), "from_duplicate_key") {
                    return Ok(true);
                }
            },
            Attribute::Other => {},
        }
        index += 1;
    }
    Ok(false)
}

/// The fields among the first `upto` of `fields` that are, or are not, marked as
/// collecting, in their order.
pub open spec fn fields_marked(fields: Seq<Field>, upto: int, collecting: bool) -> Seq<Field>
    decreases upto,
{
    if upto <= 0 || upto > fields.len() {
        Seq::empty()
    } else if marked(fields[upto - 1]) == Ok::<bool, ()>(collecting) {
        fields_marked(fields, upto - 1, collecting).push(fields[upto - 1])
    } else {
        fields_marked(fields, upto - 1, collecting)
    }
}

/// The index of the first of `fields` whose attributes are in error; their number
/// where none is.
pub open spec fn first_broken(fields: Seq<Field>, from: int) -> int
    decreases fields.len() - from,
{
    if from < 0 || from >= fields.len() {
        fields.len() as int
    } else if marked(fields[from]) is Err {
        from
    } else {
        first_broken(fields, from + 1)
    }
}

/// `first_broken` gives an index at or behind `from`.
pub proof fn lemma_first_broken(fields: Seq<Field>, from: int)
    requires
        0 <= from <= fields.len(),
    ensures
        from <= first_broken(fields, from) <= fields.len(),
    decreases fields.len() - from,
{
    if from < fields.len() && !(marked(fields[from]) is Err) {
        lemma_first_broken(fields, from + 1);
    }
}

/// The fields that the references refer to.
pub open spec fn referred(fields: Seq<&Field>) -> Seq<Field> {
    Seq::new(fields.len(), |i: int| *fields[i])
}

/// Tells the fields of a struct apart by the marker. A struct whose fields have no
/// names has no such fields.
#[verifier::loop_isolation(false)]
pub fn discern_fields<'a>(s: &'a Fields) -> (result: Result<Option<StructFields<'a>>, MacroError>)
    ensures
        match *s {
            Fields::Named(fields) => if first_broken(fields@, 0) < fields.len() {
                result is Err
            } else {
                &&& result matches Ok(Some(found))
                &&& referred(found.normal@) == fields_marked(fields@, fields.len() as int, false)
                &&& referred(found.duplicate@) == fields_marked(
                    fields@,
                    fields.len() as int,
                    true,
                )
            },
            _ => result matches Ok(None),
        },
{
    match s {
        Fields::Named(fields) => {
            let mut normal: Vec<&'a Field> = Vec::new();
            let mut duplicate: Vec<&'a Field> = Vec::new();
            let mut index: usize = 0;
            while index < fields.len()
                invariant
                    index <= fields.len(),
                    first_broken(fields@, index as int) == first_broken(fields@, 0),
                    referred(normal@) == fields_marked(fields@, index as int, false),
                    referred(duplicate@) == fields_marked(fields@, index as int, true),
                decreases fields.len() - index,
            {
                let field = &fields[index];
                proof {
                    lemma_first_broken(fields@, index + 1);
                }
                match field_has_attr_for_duplicate(field) {
                    Ok(true) => {
                        duplicate.push(field);
                        assert(referred(duplicate@) =~= fields_marked(fields@, index + 1, true));
                    },
                    Ok(false) => {
                        normal.push(field);
                        assert(referred(normal@) =~= fields_marked(fields@, index + 1, false));
                    },
                    Err(error) => {
                        return Err(error);
                    },
                }
                index += 1;
            }
            proof {
                lemma_first_broken(fields@, 0);
            }
            Ok(Some(StructFields { normal, duplicate }))
        },
        _ => Ok(None),
    }
}

/// Whether a type can collect values: it is a path whose last segment has a type
/// among its arguments in angle brackets, the type of the values.
pub open spec fn collects(t: TypeDeclaration) -> bool {
    &&& t matches TypeDeclaration::Path(path)
    &&& path.len() > 0
    &&& path@.last().arguments matches PathArguments::AngleBracketed(arguments)
    &&& first_type(arguments@, 0) < arguments.len()
}

/// The names of the fields.
pub open spec fn names_of(fields: Seq<Field>) -> Seq<Seq<char>> {
    Seq::new(fields.len(), |i: int| fields[i].name@)
}

/// What each of the names is as characters.
pub open spec fn views_of(names: Seq<String>) -> Seq<Seq<char>> {
    Seq::new(names.len(), |i: int| names[i]@)
}

/// The index of the first of `names` from `from` on that is spelt by `key`; their
/// number where none is.
pub open spec fn find_name(names: Seq<Seq<char>>, from: int, key: Seq<u8>) -> int
    decreases names.len() - from,
{
    if from < 0 || from >= names.len() {
        names.len() as int
    } else if encode_utf8(names[from]) == key {
        from
    } else {
        find_name(names, from + 1, key)
    }
}

/// The first `upto` of `names`, with `, ` between them.
pub open spec fn listed(names: Seq<Seq<char>>, upto: int) -> Seq<char>
    decreases upto,
{
    if upto <= 0 || upto > names.len() {
        Seq::empty()
    } else if upto == 1 {
        names[0]
    } else {
        listed(names, upto - 1) + ", "@ + names[upto - 1]
    }
}

/// Where a value of a record goes.
#[derive(Debug, PartialEq, Eq, Clone, Copy, Structural)]
pub enum FieldSlot {
    /// Into the field of that index among those that take one value.
    Normal(usize),
    /// Into the collection of the field of that index among those that collect.
    Duplicate(usize),
}

/// The visitor of a record with collecting fields: it knows the fields by their part
/// in the record, and which of those that take one value have got theirs.
#[derive(Debug)]
pub struct RecordVisitor {
    /// The name of the visitor.
    pub name: String,
    /// The names of the fields that take one value.
    pub normal: Vec<String>,
    /// The names of the fields that collect the values of a repeated key.
    pub duplicate: Vec<String>,
    /// For each field that takes one value, whether it has got it.
    pub filled: Vec<bool>,
}

/// The name of the visitor of the declared type: its name and `Visitor`.
pub fn visitor_name(item: &DeriveInput) -> (name: String)
    ensures
        name@ == item.ident@ + "Visitor"@,
{
    let mut name = item.ident.clone();
    name.append("Visitor");
    name
}

/// The name under which the names of the fields of the type `name` are kept.
pub fn field_names_ident_for_struct(name: &str) -> (ident: String)
    ensures
        ident@ == "_Cl_"@ + name@ + "_FIELDS"@,
{
    let mut ident = "_Cl_".to_owned();
    ident.append(name);
    ident.append("_FIELDS");
    ident
}

/// Copies the names of the fields.
fn names(fields: &Vec<&Field>) -> (names: Vec<String>)
    ensures
        views_of(names@) == names_of(referred(fields@)),
{
    let mut names: Vec<String> = Vec::new();
    let mut index: usize = 0;
    while index < fields.len()
        invariant
            index <= fields.len(),
            names.len() == index,
            forall|i: int| 0 <= i < index ==> names@[i]@ == fields@[i].name@,
        decreases fields.len() - index,
    {
        names.push(fields[index].name.clone());
        index += 1;
    }
    assert(views_of(names@) =~= names_of(referred(fields@)));
    names
}

/// The index of the first of `fields` from `from` on whose type cannot collect;
/// their number where each can.
pub open spec fn first_uncollecting(fields: Seq<Field>, from: int) -> int
    decreases fields.len() - from,
{
    if from < 0 || from >= fields.len() {
        fields.len() as int
    } else if !collects(fields[from].field_type) {
        from
    } else {
        first_uncollecting(fields, from + 1)
    }
}

/// Whether a record with collecting fields can be made of the fields of a struct:
/// they have names, no attribute of theirs is in error, and each field that is
/// marked as collecting has a type that can collect.
pub open spec fn declares_record(s: Fields) -> bool {
    &&& s matches Fields::Named(fields)
    &&& first_broken(fields@, 0) >= fields.len()
    &&& first_uncollecting(fields_marked(fields@, fields.len() as int, true), 0)
        >= fields_marked(fields@, fields.len() as int, true).len()
}

/// Makes the visitor of the record that a struct declares.
#[verifier::loop_isolation(false)]
pub fn visitor_for_struct(item: &DeriveInput, s: &Fields) -> (result: Result<
    RecordVisitor,
    MacroError,
>)
    ensures
        match result {
            Ok(visitor) => {
                &&& declares_record(*s)
                &&& s matches Fields::Named(fields)
                &&& visitor.name@ == item.ident@ + "Visitor"@
                &&& views_of(visitor.normal@) == names_of(
                    fields_marked(fields@, fields.len() as int, false),
                )
                &&& views_of(visitor.duplicate@) == names_of(
                    fields_marked(fields@, fields.len() as int, true),
                )
                &&& forall|i: int| !visitor.is_filled(i)
            },
            Err(_) => !declares_record(*s),
        },
{
    let struct_fields = match discern_fields(s) {
        Ok(Some(struct_fields)) => struct_fields,
        Ok(None) => {
            return Err(
                MacroError { message: "from_duplicate_key only supported on named fields" },
            );
        },
        Err(error) => {
            return Err(error);
        },
    };
    let ghost collecting = referred(struct_fields.duplicate@);
    let mut index: usize = 0;
    while index < struct_fields.duplicate.len()
        invariant
            index <= struct_fields.duplicate.len(),
            first_uncollecting(collecting, index as int) == first_uncollecting(collecting, 0),
        decreases struct_fields.duplicate.len() - index,
    {
        let field_type = &struct_fields.duplicate[index].field_type;
        assert(collecting[index as int] == *struct_fields.duplicate@[index as int]);
        let last = match get_last_path_segment(field_type) {
            Ok(last) => last,
            Err(error) => {
                proof {
                    lemma_first_uncollecting(collecting, 0);
                }
                return Err(error);
            },
        };
        match unwrap_generic_type(last) {
            Ok(_) => {},
            Err(error) => {
                proof {
                    lemma_first_uncollecting(collecting, 0);
                }
                return Err(error);
            },
        }
        proof {
            lemma_first_uncollecting(collecting, index + 1);
        }
        index += 1;
    }
    proof {
        lemma_first_uncollecting(collecting, 0);
        lemma_first_broken(s->Named_0@, 0);
    }
    Ok(
        RecordVisitor::new(
            visitor_name(item),
            names(&struct_fields.normal),
            names(&struct_fields.duplicate),
        ),
    )
}

/// `first_uncollecting` gives an index at or behind `from`.
pub proof fn lemma_first_uncollecting(fields: Seq<Field>, from: int)
    requires
        0 <= from <= fields.len(),
    ensures
        from <= first_uncollecting(fields, from) <= fields.len(),
    decreases fields.len() - from,
{
    if from < fields.len() && collects(fields[from].field_type) {
        lemma_first_uncollecting(fields, from + 1);
    }
}

/// Makes the visitor of the record that a declaration declares. Only a struct
/// declares one.
pub fn duplicate_keys_impl(item: &DeriveInput) -> (result: Result<RecordVisitor, MacroError>)
    ensures
        match result {
            Ok(visitor) => {
                &&& item.data matches Data::Struct(s)
                &&& declares_record(s)
                &&& s matches Fields::Named(fields)
                &&& visitor.name@ == item.ident@ + "Visitor"@
                &&& views_of(visitor.normal@) == names_of(
                    fields_marked(fields@, fields.len() as int, false),
                )
                &&& views_of(visitor.duplicate@) == names_of(
                    fields_marked(fields@, fields.len() as int, true),
                )
                &&& forall|i: int| !visitor.is_filled(i)
            },
            Err(_) => !(item.data matches Data::Struct(s) && declares_record(s)),
        },
{
    match &item.data {
        Data::Struct(s) => visitor_for_struct(item, s),
        _ => Err(MacroError { message: "duplicate_keys is only valid for structs" }),
    }
}

/// Makes the visitor of a record some of whose fields collect the values of a
/// repeated key: those that carry the marker `from_duplicate_key`. Such a field is
/// a collection, as `Vec` is, that can hold the values.
pub fn duplicate_keys(item: &DeriveInput) -> (result: Result<RecordVisitor, MacroError>)
    ensures
        match result {
            Ok(visitor) => {
                &&& item.data matches Data::Struct(s)
                &&& declares_record(s)
                &&& s matches Fields::Named(fields)
                &&& visitor.name@ == item.ident@ + "Visitor"@
                &&& views_of(visitor.normal@) == names_of(
                    fields_marked(fields@, fields.len() as int, false),
                )
                &&& views_of(visitor.duplicate@) == names_of(
                    fields_marked(fields@, fields.len() as int, true),
                )
                &&& forall|i: int| !visitor.is_filled(i)
            },
            Err(_) => !(item.data matches Data::Struct(s) && declares_record(s)),
        },
{
    duplicate_keys_impl(item)
}

impl RecordVisitor {
    /// Whether the field of the given index among those that take one value has got
    /// its value.
    pub open spec fn is_filled(&self, index: int) -> bool {
        0 <= index < self.filled.len() && self.filled@[index]
    }

    /// Where a value for `key` goes: into the first field of that name that takes one
    /// value, else into the first of that name that collects. Nowhere if no field has
    /// that name.
    pub open spec fn slot_of(&self, key: Seq<u8>) -> Option<FieldSlot> {
        let normal = find_name(views_of(self.normal@), 0, key);
        let duplicate = find_name(views_of(self.duplicate@), 0, key);
        if normal < self.normal.len() {
            Some(FieldSlot::Normal(normal as usize))
        } else if duplicate < self.duplicate.len() {
            Some(FieldSlot::Duplicate(duplicate as usize))
        } else {
            None
        }
    }

    /// What the error says of a key that is the name of no field: the key, and the
    /// names of the fields, first those that take one value.
    pub open spec fn unknown_field_message(&self, key: Seq<char>) -> Seq<char> {
        "unknown field "@ + key + ", expected one of: "@ + listed(
            views_of(self.normal@) + views_of(self.duplicate@),
            self.normal.len() + self.duplicate.len(),
        )
    }

    /// The index of the first field from `from` on that takes one value and has not
    /// got it; the number of such fields where each has.
    pub open spec fn first_missing(&self, from: int) -> int
        decreases self.normal.len() - from,
    {
        if from < 0 || from >= self.normal.len() {
            self.normal.len() as int
        } else if !self.is_filled(from) {
            from
        } else {
            self.first_missing(from + 1)
        }
    }

    /// The visit can end without error exactly when each field that takes one value
    /// has got it; a field that collects may have got none.
    pub proof fn lemma_complete(&self, from: int)
        requires
            0 <= from <= self.normal.len(),
        ensures
            from <= self.first_missing(from) <= self.normal.len(),
            self.first_missing(from) == self.normal.len() <==> forall|i: int|
                from <= i < self.normal.len() ==> self.is_filled(i),
            self.first_missing(from) < self.normal.len() ==> !self.is_filled(
                self.first_missing(from),
            ),
        decreases self.normal.len() - from,
    {
        if from < self.normal.len() && self.is_filled(from) {
            self.lemma_complete(from + 1);
        }
    }

    /// Creates the visitor of a record with the given fields, none of which has got
    /// a value.
    pub fn new(name: String, normal: Vec<String>, duplicate: Vec<String>) -> (visitor:
        RecordVisitor)
        ensures
            visitor.name == name,
            visitor.normal == normal,
            visitor.duplicate == duplicate,
            forall|i: int| !visitor.is_filled(i),
    {
        RecordVisitor { name, normal, duplicate, filled: Vec::new() }
    }

    /// The names of the fields: first those that take one value, then those that
    /// collect.
    pub fn field_names(&self) -> (names: Vec<&str>)
        ensures
            names.len() == self.normal.len() + self.duplicate.len(),
            forall|i: int| 0 <= i < self.normal.len() ==> names@[i]@ == self.normal@[i]@,
            forall|i: int|
                0 <= i < self.duplicate.len() ==> names@[self.normal.len() + i]@
                    == self.duplicate@[i]@,
    {
        let mut names: Vec<&str> = Vec::new();
        let mut index: usize = 0;
        while index < self.normal.len()
            invariant
                index <= self.normal.len(),
                names.len() == index,
                forall|i: int| 0 <= i < index ==> names@[i]@ == self.normal@[i]@,
            decreases self.normal.len() - index,
        {
            names.push(self.normal[index].as_str());
            index += 1;
        }
        let mut index: usize = 0;
        while index < self.duplicate.len()
            invariant
                index <= self.duplicate.len(),
                names.len() == self.normal.len() + index,
                forall|i: int| 0 <= i < self.normal.len() ==> names@[i]@ == self.normal@[i]@,
                forall|i: int|
                    0 <= i < index ==> names@[self.normal.len() + i]@ == self.duplicate@[i]@,
            decreases self.duplicate.len() - index,
        {
            names.push(self.duplicate[index].as_str());
            index += 1;
        }
        names
    }

    /// Finds the first of `names` that `key` spells.
    fn find(names: &Vec<String>, key: &str) -> (index: usize)
        ensures
            index == find_name(views_of(names@), 0, key.spec_bytes()),
            index <= names.len(),
    {
        let mut index: usize = 0;
        while index < names.len()
            invariant
                index <= names.len(),
                find_name(views_of(names@), index as int, key.spec_bytes()) == find_name(
                    views_of(names@),
                    0,
                    key.spec_bytes(),
                ),
            decreases names.len() - index,
        {
            assert(views_of(names@)[index as int] == names@[index as int]@);
            if same_text(names[index].as_str(), key) {
                return index;
            }
            index += 1;
        }
        index
    }

    /// Says where a value for `key` goes. A key that is the name of no field is an
    /// `UnknownField` at `position`, whose message lists the names of the fields.
    pub fn visit_key(&self, key: &str, position: usize) -> (result: Result<FieldSlot, Error>)
        ensures
            match self.slot_of(key.spec_bytes()) {
                Some(slot) => result == Ok::<FieldSlot, Error>(slot),
                None => result matches Err(error) && error.is(
                    ErrorType::UnknownField,
                    position as int,
                ) && error.message@ == self.unknown_field_message(key@),
            },
    {
        let normal = Self::find(&self.normal, key);
        if normal < self.normal.len() {
            return Ok(FieldSlot::Normal(normal));
        }
        let duplicate = Self::find(&self.duplicate, key);
        if duplicate < self.duplicate.len() {
            return Ok(FieldSlot::Duplicate(duplicate));
        }
        let mut message = "unknown field ".to_owned();
        message.append(key);
        message.append(", expected one of: ");
        let names = self.field_names();
        let ghost all = views_of(self.normal@) + views_of(self.duplicate@);
        let ghost head = message@;
        let mut index: usize = 0;
        while index < names.len()
            invariant
                index <= names.len(),
                names.len() == all.len(),
                forall|i: int| 0 <= i < names.len() ==> names@[i]@ == all[i],
                message@ == head + listed(all, index as int),
            decreases names.len() - index,
        {
            if index > 0 {
                message.append(", ");
            }
            message.append(names[index]);
            proof {
                if index == 0 {
                    assert(head + Seq::<char>::empty() + all[0] =~= head + all[0]);
                } else {
                    assert(head + listed(all, index as int) + ", "@ + all[index as int] =~= head + (
                    listed(all, index as int) + ", "@ + all[index as int]));
                }
            }
            index += 1;
        }
        Err(Error::new(ErrorType::UnknownField, position, message.as_str()))
    }

    /// Takes note that a value has been read for `slot`. A second value for a field
    /// that takes one is a `DuplicateField` at `position`, whose message names the
    /// field; a collecting field takes any number. A slot that the record does not
    /// have is an `InvalidState`.
    pub fn accept(&mut self, slot: FieldSlot, position: usize) -> (result: Result<(), Error>)
        ensures
            final(self).name == old(self).name,
            final(self).normal == old(self).normal,
            final(self).duplicate == old(self).duplicate,
            match slot {
                FieldSlot::Normal(index) => if index >= old(self).normal.len() {
                    &&& result matches Err(error)
                    &&& error.is(ErrorType::InvalidState, position as int)
                    &&& final(self).filled == old(self).filled
                } else if old(self).is_filled(index as int) {
                    &&& result matches Err(error)
                    &&& error.is(ErrorType::DuplicateField, position as int)
                    &&& error.message@ == "duplicate field "@ + old(self).normal@[index as int]@
                    &&& final(self).filled == old(self).filled
                } else {
                    &&& result is Ok
                    &&& forall|i: int|
                        final(self).is_filled(i) == (i == index || old(self).is_filled(i))
                },
                FieldSlot::Duplicate(index) => {
                    &&& final(self).filled == old(self).filled
                    &&& if index < old(self).duplicate.len() {
                        result is Ok
                    } else {
                        result matches Err(error) && error.is(
                            ErrorType::InvalidState,
                            position as int,
                        )
                    }
                },
            },
    {
        match slot {
            FieldSlot::Normal(index) => {
                if index >= self.normal.len() {
                    return Err(
                        Error::new(
                            ErrorType::InvalidState,
                            position,
                            "the record has no such field",
                        ),
                    );
                }
                if index < self.filled.len() && self.filled[index] {
                    let mut message = "duplicate field ".to_owned();
                    message.append(self.normal[index].as_str());
                    return Err(Error::new(ErrorType::DuplicateField, position, message.as_str()));
                }
                while self.filled.len() <= index
                    invariant
                        self.name == old(self).name,
                        self.normal == old(self).normal,
                        self.duplicate == old(self).duplicate,
                        old(self).filled.len() <= self.filled.len(),
                        forall|i: int| self.is_filled(i) == old(self).is_filled(i),
                    decreases index + 1 - self.filled.len(),
                {
                    self.filled.push(false);
                }
                self.filled.set(index, true);
                Ok(())
            },
            FieldSlot::Duplicate(index) => {
                if index < self.duplicate.len() {
                    Ok(())
                } else {
                    Err(
                        Error::new(
                            ErrorType::InvalidState,
                            position,
                            "the record has no such field",
                        ),
                    )
                }
            },
        }
    }

    /// Ends the visit. A field that takes one value and has not got it is a
    /// `MissingField` at `position`, whose message names the first such field.
    pub fn finish(&self, position: usize) -> (result: Result<(), Error>)
        ensures
            if self.first_missing(0) < self.normal.len() {
                &&& result matches Err(error)
                &&& error.is(ErrorType::MissingField, position as int)
                &&& error.message@ == "missing field "@ + self.normal@[self.first_missing(0)]@
            } else {
                result is Ok
            },
    {
        let mut index: usize = 0;
        while index < self.normal.len()
            invariant
                index <= self.normal.len(),
                self.first_missing(index as int) == self.first_missing(0),
            decreases self.normal.len() - index,
        {
            if !(index < self.filled.len() && self.filled[index]) {
                let mut message = "missing field ".to_owned();
                message.append(self.normal[index].as_str());
                return Err(Error::new(ErrorType::MissingField, position, message.as_str()));
            }
            index += 1;
        }
        Ok(())
    }
}

} // verus!
