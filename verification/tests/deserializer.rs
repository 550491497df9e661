use std::collections::HashMap;
use std::fmt::Debug;
use std::hash::Hash;

use clauser::de::{Any, Deserializer, Variant};
use clauser::error::{Error, ErrorType};
use clauser::record::{
    duplicate_keys as record_for, Attribute, Data, DeriveInput, Field, FieldSlot, Fields,
    GenericArgument, PathArguments, PathSegment, RecordVisitor, TypeDeclaration,
};
use clauser::types::Date;

// What a type does to be read from a text: it asks the driver for its shape.
trait Parse<'de>: Sized {
    fn parse(de: &mut Deserializer<'de>) -> Result<Self, Error>;
}

fn from_str<'de, T: Parse<'de>>(source: &'de str) -> Result<T, Error> {
    let mut de = Deserializer::from_str(source);
    T::parse(&mut de)
}

impl<'de> Parse<'de> for bool {
    fn parse(de: &mut Deserializer<'de>) -> Result<Self, Error> {
        de.deserialize_bool()
    }
}

impl<'de> Parse<'de> for i32 {
    fn parse(de: &mut Deserializer<'de>) -> Result<Self, Error> {
        de.deserialize_i32()
    }
}

impl<'de> Parse<'de> for i64 {
    fn parse(de: &mut Deserializer<'de>) -> Result<Self, Error> {
        de.deserialize_i64()
    }
}

impl<'de> Parse<'de> for f64 {
    fn parse(de: &mut Deserializer<'de>) -> Result<Self, Error> {
        Ok(de.deserialize_decimal()?.parse::<f64>().unwrap())
    }
}

impl<'de> Parse<'de> for f32 {
    fn parse(de: &mut Deserializer<'de>) -> Result<Self, Error> {
        Ok(de.deserialize_decimal()?.parse::<f32>().unwrap())
    }
}

impl<'de> Parse<'de> for String {
    fn parse(de: &mut Deserializer<'de>) -> Result<Self, Error> {
        Ok(String::from(de.deserialize_string()?))
    }
}

impl<'de> Parse<'de> for Date {
    fn parse(de: &mut Deserializer<'de>) -> Result<Self, Error> {
        Ok(Date::from_u128(de.deserialize_u128()?))
    }
}

impl<'de, T: Parse<'de>> Parse<'de> for Option<T> {
    fn parse(de: &mut Deserializer<'de>) -> Result<Self, Error> {
        match de.deserialize_option()? {
            true => Ok(Some(T::parse(de)?)),
            false => Ok(None),
        }
    }
}

impl<'de, T: Parse<'de>> Parse<'de> for Vec<T> {
    fn parse(de: &mut Deserializer<'de>) -> Result<Self, Error> {
        let mut items = Vec::new();
        de.begin_seq()?;
        while de.next_element()? {
            items.push(T::parse(de)?);
        }
        de.end_seq()?;
        Ok(items)
    }
}

impl<'de, K: Parse<'de> + Hash + Eq, V: Parse<'de>> Parse<'de> for HashMap<K, V> {
    fn parse(de: &mut Deserializer<'de>) -> Result<Self, Error> {
        let mut map = HashMap::new();
        let nested = de.begin_map()?;
        while de.next_key()? {
            let key = K::parse(de)?;
            de.end_key()?;
            map.insert(key, V::parse(de)?);
        }
        de.end_map(nested)?;
        Ok(map)
    }
}

fn names(names: &[&str]) -> Vec<String> {
    names.iter().map(|name| String::from(*name)).collect()
}

// Reads a record: each value goes where the visitor of the record says.
fn parse_record<'de>(
    de: &mut Deserializer<'de>,
    mut visitor: RecordVisitor,
    mut value: impl FnMut(&mut Deserializer<'de>, FieldSlot) -> Result<(), Error>,
) -> Result<(), Error> {
    let nested = de.begin_map()?;
    while let Some(key) = de.next_field()? {
        let slot = visitor.visit_key(key, de.current_position())?;
        value(de, slot)?;
        visitor.accept(slot, de.current_position())?;
    }
    visitor.finish(de.current_position())?;
    de.end_map(nested)
}

fn plain_record(name: &str, fields: &[&str]) -> RecordVisitor {
    RecordVisitor::new(String::from(name), names(fields), Vec::new())
}

#[derive(Debug, PartialEq)]
pub struct SingleContainer<T: Debug + PartialEq> {
    pub val: T,
}

impl<'de, T: Debug + PartialEq + Parse<'de>> Parse<'de> for SingleContainer<T> {
    fn parse(de: &mut Deserializer<'de>) -> Result<Self, Error> {
        let mut val = None;
        parse_record(de, plain_record("SingleContainer", &["val"]), |de, _| {
            val = Some(T::parse(de)?);
            Ok(())
        })?;
        Ok(SingleContainer { val: val.unwrap() })
    }
}

impl<'de, T: Debug + PartialEq + Parse<'de>> SingleContainer<T> {
    pub fn new(val: T) -> SingleContainer<T> {
        SingleContainer { val }
    }

    pub fn expect(text: &'de str, expected: T) -> Result<(), Error> {
        assert_eq!(from_str::<SingleContainer<T>>(text)?.val, expected);
        Ok(())
    }
}

pub fn expect_str<'a, T: Debug + PartialEq + Parse<'a>>(
    text: &'a str,
    expected: T,
) -> Result<(), Error> {
    assert_eq!(from_str::<T>(text)?, expected);
    Ok(())
}

pub fn expect_error<'a, T: Parse<'a> + Debug>(
    source: &'a str,
    expected_error: ErrorType,
) -> Result<(), Error> {
    let result = from_str::<T>(source);
    assert!(
        result.is_err(),
        "expected error {:?} but got result {:?}",
        expected_error,
        result.unwrap()
    );
    match result {
        Ok(_) => Ok(()),
        Err(e) => match e.error_type == expected_error {
            true => Ok(()),
            false => Err(e),
        },
    }
}

#[derive(Debug)]
struct BasicKeyValue {
    pub bool_val: bool,
    pub int_val: i32,
    pub float_val: f64,
    pub str_val: String,
    pub id_val: String,
}

impl<'de> Parse<'de> for BasicKeyValue {
    fn parse(de: &mut Deserializer<'de>) -> Result<Self, Error> {
        let mut bool_val = None;
        let mut int_val = None;
        let mut float_val = None;
        let mut str_val = None;
        let mut id_val = None;
        let fields = ["bool_val", "int_val", "float_val", "str_val", "id_val"];
        parse_record(de, plain_record("BasicKeyValue", &fields), |de, slot| {
            match slot {
                FieldSlot::Normal(0) => bool_val = Some(bool::parse(de)?),
                FieldSlot::Normal(1) => int_val = Some(i32::parse(de)?),
                FieldSlot::Normal(2) => float_val = Some(f64::parse(de)?),
                FieldSlot::Normal(3) => str_val = Some(String::parse(de)?),
                _ => id_val = Some(String::parse(de)?),
            }
            Ok(())
        })?;
        Ok(BasicKeyValue {
            bool_val: bool_val.unwrap(),
            int_val: int_val.unwrap(),
            float_val: float_val.unwrap(),
            str_val: str_val.unwrap(),
            id_val: id_val.unwrap(),
        })
    }
}

#[test]
fn basic_key_value() -> Result<(), Error> {
    let source = "
	bool_val = yes
	int_val = -193
	float_val = 19.3
	str_val = \"hello world!\"
	id_val = ident";

    let deserialized = from_str::<BasicKeyValue>(&source)?;
    assert_eq!(deserialized.bool_val, true);
    assert_eq!(deserialized.int_val, -193);
    assert_eq!(deserialized.float_val, 19.3);
    assert_eq!(deserialized.str_val, "hello world!");
    assert_eq!(deserialized.id_val, "ident");

    expect_error::<BasicKeyValue>("bool_val = yes", ErrorType::MissingField)?;
    expect_error::<BasicKeyValue>("bool_val = 18", ErrorType::UnexpectedTokenError)?;

    Ok(())
}

#[derive(Debug)]
struct NestedKeyValue {
    pub obj: BasicKeyValue,
}

impl<'de> Parse<'de> for NestedKeyValue {
    fn parse(de: &mut Deserializer<'de>) -> Result<Self, Error> {
        let mut obj = None;
        parse_record(de, plain_record("NestedKeyValue", &["obj"]), |de, _| {
            obj = Some(BasicKeyValue::parse(de)?);
            Ok(())
        })?;
        Ok(NestedKeyValue { obj: obj.unwrap() })
    }
}

#[test]
fn nested_key_value() -> Result<(), Error> {
    let source = "
	obj = {
		bool_val = no
		int_val = 2
		float_val = 1.0
		str_val = \"test\"
		id_val = none
	}";

    let deserialized = from_str::<NestedKeyValue>(&source)?;
    assert_eq!(deserialized.obj.bool_val, false);
    assert_eq!(deserialized.obj.int_val, 2);
    assert_eq!(deserialized.obj.float_val, 1.0);
    assert_eq!(deserialized.obj.str_val, "test");
    assert_eq!(deserialized.obj.id_val, "none");

    expect_error::<NestedKeyValue>("obj = 18", ErrorType::UnexpectedTokenError)?;
    expect_error::<NestedKeyValue>("obj = {}", ErrorType::MissingField)?;
    expect_error::<NestedKeyValue>("obj = { bool_val = 18 }", ErrorType::UnexpectedTokenError)?;

    Ok(())
}

#[test]
fn primitive_array() -> Result<(), Error> {
    assert_eq!(
        from_str::<SingleContainer<Vec<i32>>>("val = { 8 -10 20 30000 49982 0 }")?.val,
        vec![8, -10, 20, 30000, 49982, 0]
    );
    assert_eq!(
        from_str::<SingleContainer<Vec<i32>>>("val = {}")?.val,
        Vec::<i32>::new()
    );

    expect_error::<SingleContainer<Vec<i32>>>(
        "val = { 10.0 93 -1 }",
        ErrorType::InvalidNumberError,
    )?;
    expect_error::<SingleContainer<Vec<i32>>>(
        "val = { \"test\" }",
        ErrorType::UnexpectedTokenError,
    )?;
    expect_error::<SingleContainer<Vec<i32>>>(
        "val = { 18 test }",
        ErrorType::UnexpectedTokenError,
    )?;

    Ok(())
}

#[derive(Debug, PartialEq)]
struct StringField {
    str: String,
}

impl<'de> Parse<'de> for StringField {
    fn parse(de: &mut Deserializer<'de>) -> Result<Self, Error> {
        let mut str = None;
        parse_record(de, plain_record("StringField", &["str"]), |de, _| {
            str = Some(String::parse(de)?);
            Ok(())
        })?;
        Ok(StringField { str: str.unwrap() })
    }
}

#[test]
pub fn empty_string() -> Result<(), Error> {
    SingleContainer::<String>::expect("val = ", String::new())?;
    SingleContainer::<StringField>::expect("val = { str = }", StringField { str: String::new() })?;

    Ok(())
}

#[derive(Debug, PartialEq)]
struct MultiStringField {
    str1: String,
    str2: String,
    str3: String,
    str4: String,
}

impl<'de> Parse<'de> for MultiStringField {
    fn parse(de: &mut Deserializer<'de>) -> Result<Self, Error> {
        let mut values: [Option<String>; 4] = [None, None, None, None];
        let fields = ["str1", "str2", "str3", "str4"];
        parse_record(de, plain_record("MultiStringField", &fields), |de, slot| {
            if let FieldSlot::Normal(index) = slot {
                values[index] = Some(String::parse(de)?);
            }
            Ok(())
        })?;
        let [str1, str2, str3, str4] = values;
        Ok(MultiStringField {
            str1: str1.unwrap(),
            str2: str2.unwrap(),
            str3: str3.unwrap(),
            str4: str4.unwrap(),
        })
    }
}

#[test]
pub fn significant_newlines() -> Result<(), Error> {
    let source = "
		str1 = 
		str2 = test
		str3 =
		str4 = test";

    expect_str::<MultiStringField>(
        source,
        MultiStringField {
            str1: String::new(),
            str2: String::from("test"),
            str3: String::new(),
            str4: String::from("test"),
        },
    )?;

    Ok(())
}

#[derive(Debug, PartialEq)]
struct DateAsKeys {
    keys: HashMap<Date, String>,
}

impl<'de> Parse<'de> for DateAsKeys {
    fn parse(de: &mut Deserializer<'de>) -> Result<Self, Error> {
        let mut keys = None;
        parse_record(de, plain_record("DateAsKeys", &["keys"]), |de, _| {
            keys = Some(HashMap::parse(de)?);
            Ok(())
        })?;
        Ok(DateAsKeys { keys: keys.unwrap() })
    }
}

#[test]
pub fn de_dates() -> Result<(), Error> {
    SingleContainer::<Date>::expect("val = 1940.1.1.18", Date::new(1940, 1, 1, 18))?;
    SingleContainer::<Date>::expect("val = 1933.11.4", Date::new(1933, 11, 4, 0))?;
    SingleContainer::<Date>::expect("val = 1033.08.2.30", Date::new(1033, 8, 2, 30))?;
    let mut map = HashMap::new();
    map.insert(Date::new(1932, 1, 3, 0), String::from("test"));
    map.insert(Date::new(1, 1, 1, 1), String::from("ok"));
    SingleContainer::<DateAsKeys>::expect(
        "val = { keys = { 1932.01.3 = test 01.01.01.01 = ok } }",
        DateAsKeys { keys: map },
    )?;

    Ok(())
}

// The declaration of a field, built as the attribute reads it.
fn path_type(name: &str, arguments: PathArguments) -> TypeDeclaration {
    TypeDeclaration::Path(vec![PathSegment {
        ident: String::from(name),
        arguments,
    }])
}

fn plain_type(name: &str) -> TypeDeclaration {
    path_type(name, PathArguments::Bare)
}

fn collection_type(collection: &str, element: &str) -> TypeDeclaration {
    path_type(
        collection,
        PathArguments::AngleBracketed(vec![GenericArgument::Type(plain_type(element))]),
    )
}

fn field(name: &str, collecting: bool, field_type: TypeDeclaration) -> Field {
    Field {
        name: String::from(name),
        attributes: match collecting {
            true => vec![Attribute::Path(vec![String::from("from_duplicate_key")])],
            false => vec![Attribute::Other],
        },
        field_type,
    }
}

fn declaration(name: &str, data: Data) -> DeriveInput {
    DeriveInput {
        ident: String::from(name),
        data,
    }
}

#[derive(Debug, PartialEq)]
struct DuplicateKeys {
    item: Vec<String>,
}

impl<'de> Parse<'de> for DuplicateKeys {
    fn parse(de: &mut Deserializer<'de>) -> Result<Self, Error> {
        let declared = declaration(
            "DuplicateKeys",
            Data::Struct(Fields::Named(vec![field(
                "item",
                true,
                collection_type("Vec", "String"),
            )])),
        );
        let visitor = record_for(&declared).unwrap();
        let mut item: Vec<String> = Vec::new();
        parse_record(de, visitor, |de, _| {
            item.extend(std::iter::once(String::parse(de)?));
            Ok(())
        })?;
        Ok(DuplicateKeys { item })
    }
}

#[test]
pub fn duplicate_keys() -> Result<(), Error> {
    SingleContainer::<DuplicateKeys>::expect(
        "val = { item = one item = two item = three }",
        DuplicateKeys {
            item: vec!["one", "two", "three"]
                .iter()
                .map(|s| String::from(*s))
                .collect(),
        },
    )?;
    SingleContainer::<DuplicateKeys>::expect(
        "val = { item = one }",
        DuplicateKeys {
            item: vec![String::from("one")],
        },
    )?;

    Ok(())
}

#[derive(Debug, PartialEq)]
struct DuplicateAndNormalKeys {
    item: Vec<String>,
    unique1: i32,
    unique2: String,
}

impl<'de> Parse<'de> for DuplicateAndNormalKeys {
    fn parse(de: &mut Deserializer<'de>) -> Result<Self, Error> {
        let declared = declaration(
            "DuplicateAndNormalKeys",
            Data::Struct(Fields::Named(vec![
                field("item", true, collection_type("Vec", "String")),
                field("unique1", false, plain_type("i32")),
                field("unique2", false, plain_type("String")),
            ])),
        );
        let visitor = record_for(&declared).unwrap();
        let mut item: Vec<String> = Vec::new();
        let mut unique1 = None;
        let mut unique2 = None;
        parse_record(de, visitor, |de, slot| {
            match slot {
                FieldSlot::Duplicate(_) => item.extend(std::iter::once(String::parse(de)?)),
                FieldSlot::Normal(0) => unique1 = Some(i32::parse(de)?),
                FieldSlot::Normal(_) => unique2 = Some(String::parse(de)?),
            }
            Ok(())
        })?;
        Ok(DuplicateAndNormalKeys {
            item,
            unique1: unique1.unwrap(),
            unique2: unique2.unwrap(),
        })
    }
}

#[test]
pub fn duplicate_and_normal_keys() -> Result<(), Error> {
    let source = "
	val = { 
		item = one 
		unique1 = 50 
		item = two 
		item = three 
		unique2 = cool 
	}";
    SingleContainer::<DuplicateAndNormalKeys>::expect(
        source,
        DuplicateAndNormalKeys {
            item: vec!["one", "two", "three"]
                .iter()
                .map(|s| String::from(*s))
                .collect(),
            unique1: 50,
            unique2: String::from("cool"),
        },
    )?;

    Ok(())
}

#[test]
pub fn empty_duplicate() -> Result<(), Error> {
    SingleContainer::<DuplicateAndNormalKeys>::expect(
        "val = { unique1 = 0 unique2 = test }",
        DuplicateAndNormalKeys {
            item: vec![],
            unique1: 0,
            unique2: String::from("test"),
        },
    )?;

    SingleContainer::<DuplicateKeys>::expect("val = { }", DuplicateKeys { item: vec![] })?;

    Ok(())
}

#[test]
pub fn duplicate_keys_invalid() -> Result<(), Error> {
    expect_error::<SingleContainer<i32>>("val = 1 val = 2 val = 3", ErrorType::DuplicateField)?;

    Ok(())
}

#[test]
pub fn only_named_structs() {
    assert!(record_for(&declaration("AnEnum", Data::Enum)).is_err());
    assert!(record_for(&declaration("AUnion", Data::Union)).is_err());
    assert!(record_for(&declaration("Unnamed", Data::Struct(Fields::Unnamed))).is_err());
    assert!(record_for(&declaration("NoFields", Data::Struct(Fields::Unit))).is_err());
}

#[test]
pub fn correct_field_type() {
    let wrong_type = declaration(
        "WrongType",
        Data::Struct(Fields::Named(vec![field(
            "item",
            true,
            TypeDeclaration::Other,
        )])),
    );
    assert!(record_for(&wrong_type).is_err());
    let not_a_collection = declaration(
        "NotVec",
        Data::Struct(Fields::Named(vec![field("item", true, plain_type("String"))])),
    );
    assert!(record_for(&not_a_collection).is_err());
    let generic = declaration(
        "Generic",
        Data::Struct(Fields::Named(vec![
            field("item", true, collection_type("VecDeque", "T")),
            field("other", false, plain_type("T")),
        ])),
    );
    let visitor = record_for(&generic).unwrap();
    assert_eq!(visitor.name, "GenericVisitor");
    assert_eq!(visitor.normal, vec![String::from("other")]);
    assert_eq!(visitor.duplicate, vec![String::from("item")]);
    assert_eq!(visitor.field_names(), vec!["other", "item"]);
}

#[test]
fn record_visitor_reports_each_error() {
    let mut visitor = RecordVisitor::new(
        String::from("PairVisitor"),
        names(&["first", "second"]),
        names(&["rest"]),
    );
    assert_eq!(visitor.visit_key("second", 3).unwrap(), FieldSlot::Normal(1));
    assert_eq!(visitor.visit_key("rest", 3).unwrap(), FieldSlot::Duplicate(0));
    let unknown = visitor.visit_key("third", 7).unwrap_err();
    assert_eq!(unknown.error_type, ErrorType::UnknownField);
    assert_eq!(unknown.position, 7);
    assert_eq!(
        unknown.message,
        "unknown field third, expected one of: first, second, rest"
    );
    visitor.accept(FieldSlot::Normal(1), 9).unwrap();
    visitor.accept(FieldSlot::Duplicate(0), 9).unwrap();
    visitor.accept(FieldSlot::Duplicate(0), 9).unwrap();
    let duplicate = visitor.accept(FieldSlot::Normal(1), 11).unwrap_err();
    assert_eq!(duplicate.error_type, ErrorType::DuplicateField);
    assert_eq!(duplicate.position, 11);
    assert_eq!(duplicate.message, "duplicate field second");
    let missing = visitor.finish(13).unwrap_err();
    assert_eq!(missing.error_type, ErrorType::MissingField);
    assert_eq!(missing.position, 13);
    assert_eq!(missing.message, "missing field first");
    visitor.accept(FieldSlot::Normal(0), 15).unwrap();
    visitor.finish(17).unwrap();
    assert_eq!(
        visitor.accept(FieldSlot::Normal(2), 19).unwrap_err().error_type,
        ErrorType::InvalidState
    );
}

#[derive(PartialEq, Debug)]
enum BasicEnum {
    Value1,
    Value2,
    Value3,
}

impl<'de> Parse<'de> for BasicEnum {
    fn parse(de: &mut Deserializer<'de>) -> Result<Self, Error> {
        let variants = ["Value1", "Value2", "Value3"];
        let name = match de.deserialize_enum(&variants)? {
            Variant::Unit(name) => name,
            Variant::Payload => {
                let name = de.deserialize_identifier()?;
                de.unit_variant()?;
                name
            }
        };
        match de.variant_index(name, &variants)? {
            0 => Ok(BasicEnum::Value1),
            1 => Ok(BasicEnum::Value2),
            _ => Ok(BasicEnum::Value3),
        }
    }
}

#[test]
fn basic_enum() -> Result<(), Error> {
    assert_eq!(
        from_str::<SingleContainer<BasicEnum>>("val = Value1")?.val,
        BasicEnum::Value1
    );
    assert_eq!(
        from_str::<SingleContainer<BasicEnum>>("val = Value2")?.val,
        BasicEnum::Value2
    );
    assert_eq!(
        from_str::<SingleContainer<BasicEnum>>("val = Value3")?.val,
        BasicEnum::Value3
    );

    expect_error::<SingleContainer<BasicEnum>>("val = Value0", ErrorType::UnknownVariant)?;
    expect_error::<SingleContainer<BasicEnum>>("val = 100", ErrorType::UnexpectedTokenError)?;
    expect_error::<SingleContainer<BasicEnum>>("val = ", ErrorType::UnexpectedTokenError)?;

    Ok(())
}

// A value that was read without its type being known, kept until a variant takes it.
#[derive(Debug, Clone, PartialEq)]
enum Content {
    Nothing,
    Boolean(bool),
    Integer(i64),
    Decimal(f64),
    Date(u128),
    Text(String),
    Sequence(Vec<Content>),
    Mapping(Vec<(Content, Content)>),
}

fn read_content<'de>(de: &mut Deserializer<'de>) -> Result<Content, Error> {
    Ok(match de.deserialize_any()? {
        Any::Nothing => Content::Nothing,
        Any::Boolean(value) => Content::Boolean(value),
        Any::Integer(value) => Content::Integer(value),
        Any::Decimal(text) => Content::Decimal(text.parse().unwrap()),
        Any::Date(value) => Content::Date(value),
        Any::String(text) | Any::Identifier(text) => Content::Text(String::from(text)),
        Any::Sequence => {
            let mut items = Vec::new();
            while de.next_element()? {
                items.push(read_content(de)?);
            }
            de.end_seq()?;
            Content::Sequence(items)
        }
        Any::Mapping(nested) => {
            let mut entries = Vec::new();
            while de.next_key()? {
                let key = read_content(de)?;
                de.end_key()?;
                entries.push((key, read_content(de)?));
            }
            de.end_map(nested)?;
            Content::Mapping(entries)
        }
    })
}

fn as_i32(content: &Content) -> Option<i32> {
    match content {
        Content::Integer(value) => i32::try_from(*value).ok(),
        _ => None,
    }
}

fn as_f32(content: &Content) -> Option<f32> {
    match content {
        Content::Integer(value) => Some(*value as f32),
        Content::Decimal(value) => Some(*value as f32),
        _ => None,
    }
}

fn as_text(content: &Content) -> Option<String> {
    match content {
        Content::Text(text) => Some(text.clone()),
        _ => None,
    }
}

#[derive(Debug, PartialEq)]
enum BasicUntaggedEnum {
    Unit,
    Item(bool),
    Pair(i32, i32),
    Tuple(i32, f32, String),
}

impl<'de> Parse<'de> for BasicUntaggedEnum {
    fn parse(de: &mut Deserializer<'de>) -> Result<Self, Error> {
        let content = read_content(de)?;
        if content == Content::Nothing {
            return Ok(BasicUntaggedEnum::Unit);
        }
        if let Content::Boolean(value) = content {
            return Ok(BasicUntaggedEnum::Item(value));
        }
        if let Content::Sequence(items) = &content {
            if let [first, second] = items.as_slice() {
                if let (Some(first), Some(second)) = (as_i32(first), as_i32(second)) {
                    return Ok(BasicUntaggedEnum::Pair(first, second));
                }
            }
            if let [first, second, third] = items.as_slice() {
                if let (Some(first), Some(second), Some(third)) =
                    (as_i32(first), as_f32(second), as_text(third))
                {
                    return Ok(BasicUntaggedEnum::Tuple(first, second, third));
                }
            }
        }
        Err(de.parse_error(
            ErrorType::Message,
            "data did not match any variant of untagged enum BasicUntaggedEnum",
        ))
    }
}

#[test]
fn basic_untagged_enum() -> Result<(), Error> {
    SingleContainer::<BasicUntaggedEnum>::expect("val = ", BasicUntaggedEnum::Unit)?;
    SingleContainer::<BasicUntaggedEnum>::expect("val = yes", BasicUntaggedEnum::Item(true))?;
    SingleContainer::<BasicUntaggedEnum>::expect("val = { 0 1 }", BasicUntaggedEnum::Pair(0, 1))?;
    SingleContainer::<BasicUntaggedEnum>::expect(
        "val = { 0 1.0 \"test\" }",
        BasicUntaggedEnum::Tuple(0, 1.0, String::from("test")),
    )?;

    Ok(())
}

#[derive(Debug, PartialEq)]
enum ComplexUntaggedEnum {
    Newtype(i32),
    Struct(SingleContainer<Vec<i32>>),
    Array(Vec<bool>),
    Tuple(f32, f32, f32),
    Optional(Option<String>),
}

impl<'de> Parse<'de> for ComplexUntaggedEnum {
    fn parse(de: &mut Deserializer<'de>) -> Result<Self, Error> {
        let content = read_content(de)?;
        if let Some(value) = as_i32(&content) {
            return Ok(ComplexUntaggedEnum::Newtype(value));
        }
        if let Content::Mapping(entries) = &content {
            if let [(Content::Text(key), Content::Sequence(items))] = entries.as_slice() {
                let values: Option<Vec<i32>> = items.iter().map(as_i32).collect();
                if let (true, Some(values)) = (key == "val", values) {
                    return Ok(ComplexUntaggedEnum::Struct(SingleContainer::new(values)));
                }
            }
        }
        if let Content::Sequence(items) = &content {
            let flags: Option<Vec<bool>> = items
                .iter()
                .map(|item| match item {
                    Content::Boolean(value) => Some(*value),
                    _ => None,
                })
                .collect();
            if let Some(flags) = flags {
                return Ok(ComplexUntaggedEnum::Array(flags));
            }
            if let [first, second, third] = items.as_slice() {
                if let (Some(first), Some(second), Some(third)) =
                    (as_f32(first), as_f32(second), as_f32(third))
                {
                    return Ok(ComplexUntaggedEnum::Tuple(first, second, third));
                }
            }
        }
        match content {
            Content::Nothing => Ok(ComplexUntaggedEnum::Optional(None)),
            Content::Text(text) => Ok(ComplexUntaggedEnum::Optional(Some(text))),
            _ => Err(de.parse_error(
                ErrorType::Message,
                "data did not match any variant of untagged enum ComplexUntaggedEnum",
            )),
        }
    }
}

#[test]
fn complex_enum() -> Result<(), Error> {
    SingleContainer::<ComplexUntaggedEnum>::expect("val = 20", ComplexUntaggedEnum::Newtype(20))?;

    assert_eq!(
        from_str::<SingleContainer<ComplexUntaggedEnum>>("val = { val = { 0 1 2 3 } }")?.val,
        ComplexUntaggedEnum::Struct(SingleContainer::new(vec![0, 1, 2, 3]))
    );
    assert_eq!(
        from_str::<SingleContainer<ComplexUntaggedEnum>>("val = { yes no yes }")?.val,
        ComplexUntaggedEnum::Array(vec![true, false, true])
    );
    assert_eq!(
        from_str::<SingleContainer<ComplexUntaggedEnum>>("val = { 0.0 1.0 2.0 }")?.val,
        ComplexUntaggedEnum::Tuple(0.0, 1.0, 2.0)
    );
    assert_eq!(
        from_str::<SingleContainer<ComplexUntaggedEnum>>("val = \"test\"")?.val,
        ComplexUntaggedEnum::Optional(Some(String::from("test")))
    );
    assert_eq!(
        from_str::<SingleContainer<ComplexUntaggedEnum>>("val = ")?.val,
        ComplexUntaggedEnum::Optional(None)
    );

    Ok(())
}

#[derive(Debug, PartialEq)]
enum InternallyTaggedEnum {
    Unit,
    Item { num: i64 },
}

impl<'de> Parse<'de> for InternallyTaggedEnum {
    fn parse(de: &mut Deserializer<'de>) -> Result<Self, Error> {
        // The tag is a key of the map; its value names the variant.
        let nested = match de.deserialize_any()? {
            Any::Mapping(nested) => nested,
            _ => {
                return Err(de.parse_error(
                    ErrorType::InvalidType,
                    "expected internally tagged enum InternallyTaggedEnum",
                ))
            }
        };
        let mut tag = None;
        let mut rest = Vec::new();
        while de.next_key()? {
            let key = read_content(de)?;
            de.end_key()?;
            if key == Content::Text(String::from("type")) {
                tag = Some(de.deserialize_identifier()?);
            } else {
                rest.push((key, read_content(de)?));
            }
        }
        de.end_map(nested)?;
        let tag = match tag {
            None => return Err(de.parse_error(ErrorType::MissingField, "missing field type")),
            Some(tag) => tag,
        };
        match de.variant_index(tag, &["Unit", "Item"])? {
            0 => Ok(InternallyTaggedEnum::Unit),
            _ => match rest.as_slice() {
                [(Content::Text(key), Content::Integer(num))] if key == "num" => {
                    Ok(InternallyTaggedEnum::Item { num: *num })
                }
                _ => Err(de.parse_error(ErrorType::MissingField, "missing field num")),
            },
        }
    }
}

#[test]
fn internally_tagged_enum() -> Result<(), Error> {
    SingleContainer::<InternallyTaggedEnum>::expect(
        "val = { type = Unit }",
        InternallyTaggedEnum::Unit,
    )?;
    SingleContainer::<InternallyTaggedEnum>::expect(
        "val = { type = Item num = 900 }",
        InternallyTaggedEnum::Item { num: 900 },
    )?;

    expect_error::<SingleContainer<InternallyTaggedEnum>>(
        "val = { type = Incorrect }",
        ErrorType::UnknownVariant,
    )?;
    expect_error::<SingleContainer<InternallyTaggedEnum>>(
        "val = { num = 900 }",
        ErrorType::MissingField,
    )?;
    expect_error::<SingleContainer<InternallyTaggedEnum>>("val = 900", ErrorType::InvalidType)?;
    expect_error::<SingleContainer<InternallyTaggedEnum>>(
        "val = { type = \"String\" }",
        ErrorType::UnexpectedTokenError,
    )?;

    Ok(())
}

#[test]
fn any_tells_what_comes_next() {
    let mut de = Deserializer::from_str("1 2.5 yes \"s\" id 1.2.3 { 1 } { a = 1 } { b");
    assert_eq!(de.deserialize_any().unwrap(), Any::Integer(1));
    assert_eq!(de.deserialize_any().unwrap(), Any::Decimal("2.5"));
    assert_eq!(de.deserialize_any().unwrap(), Any::Boolean(true));
    assert_eq!(de.deserialize_any().unwrap(), Any::String("s"));
    assert_eq!(de.deserialize_any().unwrap(), Any::Identifier("id"));
    assert_eq!(
        de.deserialize_any().unwrap(),
        Any::Date(Date::new(1, 2, 3, 0).to_u128())
    );
    assert_eq!(de.deserialize_any().unwrap(), Any::Sequence);
    assert_eq!(de.current_depth(), 1);
    assert!(de.next_element().unwrap());
    assert_eq!(de.deserialize_any().unwrap(), Any::Integer(1));
    assert!(!de.next_element().unwrap());
    de.end_seq().unwrap();
    // the first map is the document: nothing is read for it
    assert_eq!(de.deserialize_any().unwrap(), Any::Mapping(false));
    assert_eq!(de.current_depth(), 0);
    assert_eq!(de.deserialize_any().unwrap(), Any::Mapping(true));
    assert_eq!(de.current_depth(), 1);
    assert_eq!(de.next_field().unwrap(), Some("a"));
    assert_eq!(de.deserialize_any().unwrap(), Any::Integer(1));
    assert_eq!(de.next_field().unwrap(), None);
    de.end_map(true).unwrap();
    assert_eq!(de.deserialize_any().unwrap(), Any::Nothing);
    let mut de = Deserializer::from_str("9223372036854775808");
    let error = de.deserialize_any().unwrap_err();
    assert_eq!(error.error_type, ErrorType::InvalidNumberError);
    assert_eq!(error.position, 0);
}

#[test]
fn variants_by_the_next_value() {
    let variants = ["Known", "Other"];
    let mut de = Deserializer::from_str("Tag \"Known\" \"else\" 12 { 1 } {");
    assert_eq!(de.deserialize_enum(&variants).unwrap(), Variant::Unit("Tag"));
    assert_eq!(de.deserialize_enum(&variants).unwrap(), Variant::Unit("Known"));
    assert_eq!(de.deserialize_enum(&variants).unwrap(), Variant::Payload);
    assert_eq!(de.deserialize_string().unwrap(), "else");
    assert_eq!(de.deserialize_enum(&variants).unwrap(), Variant::Payload);
    assert_eq!(de.deserialize_i8().unwrap(), 12);
    assert_eq!(de.deserialize_enum(&variants).unwrap(), Variant::Payload);
    de.begin_seq().unwrap();
    assert_eq!(de.deserialize_u8().unwrap(), 1);
    de.end_seq().unwrap();
    let error = de.deserialize_enum(&variants).unwrap_err();
    assert_eq!(error.error_type, ErrorType::InvalidValue);
    assert_eq!(
        de.unit_variant().unwrap_err().error_type,
        ErrorType::UnexpectedTokenError
    );
    let mut de = Deserializer::from_str("");
    assert_eq!(
        de.deserialize_enum(&variants).unwrap_err().error_type,
        ErrorType::UnexpectedTokenError
    );
}

#[test]
fn units_and_options() {
    let mut de = Deserializer::from_str("a = b = 1");
    assert_eq!(de.next_field().unwrap(), Some("a"));
    de.deserialize_unit().unwrap();
    assert!(!de.deserialize_option().unwrap());
    assert_eq!(de.next_field().unwrap(), Some("b"));
    assert!(de.deserialize_option().unwrap());
    let error = de.deserialize_unit_struct().unwrap_err();
    assert_eq!(error.error_type, ErrorType::InvalidType);
    assert_eq!(error.position, 7);
    assert_eq!(de.deserialize_u16().unwrap(), 1);
}

#[test]
fn variants_are_found_by_name() {
    let de = Deserializer::from_str("  tail");
    assert_eq!(de.variant_index("b", &["a", "b", "b"]).unwrap(), 1);
    let error = de.variant_index("c", &["a", "b"]).unwrap_err();
    assert_eq!(error.error_type, ErrorType::UnknownVariant);
    assert_eq!(error.position, 0);
    assert!(de.variant_index("a", &[]).is_err());
}

#[test]
fn finishing_adds_the_lines_around_the_cursor() {
    let mut de = Deserializer::from_str("a = 1\nb = ?\nc = 3");
    assert_eq!(de.next_field().unwrap(), Some("a"));
    assert_eq!(de.deserialize_i32().unwrap(), 1);
    assert_eq!(de.next_field().unwrap(), Some("b"));
    let result = de.deserialize_i32();
    let error = de.finish(result).unwrap_err();
    assert_eq!(error.error_type, ErrorType::TokenizerError);
    assert_eq!(error.position, 10);
    let context = error.context.clone().unwrap();
    assert_eq!(context.line, 2);
    assert_eq!(context.column, 4);
    assert_eq!(context.lines, "a = 1\nb = ?\nc = 3");
    // an error that has its context keeps it
    let again = de.finish::<i32>(Err(error.clone())).unwrap_err();
    assert_eq!(again, error);
    assert_eq!(de.finish(Ok(7)).unwrap(), 7);
}
