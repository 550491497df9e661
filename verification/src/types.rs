use crate::token::TokenType;
use std::borrow::Cow;
use vstd::prelude::*;
use vstd::std_specs::convert::FromSpecImpl;
use vstd::utf8::encode_utf8;

verus! {

/// The types of value that can be told apart by a single token.
#[derive(Debug, Eq, PartialEq, Clone, Copy, Structural)]
pub enum RealType {
    /// An object or an array.
    ///
    /// Most objects and arrays can be told apart, but `{}` may be either.
    ObjectOrArray,
    /// An integer or decimal number.
    Number,
    /// A boolean "yes" or "no" value.
    Boolean,
    /// A string.
    String,
    /// An identifier.
    Identifier,
    /// A date.
    Date,
}

/// The possible kinds of collections in a source text.
#[derive(Debug, Eq, PartialEq, Clone, Copy, Structural)]
pub enum CollectionType {
    /// A key-value map.
    Object,
    /// A sequence of values.
    Array,
}

impl RealType {
    /// The type of the value that a token of the given kind begins, if it begins one.
    pub open spec fn of(t: TokenType) -> Option<RealType> {
        match t {
            TokenType::Boolean => Some(RealType::Boolean),
            TokenType::Number => Some(RealType::Number),
            TokenType::Identifier => Some(RealType::Identifier),
            TokenType::String => Some(RealType::String),
            TokenType::OpenBracket => Some(RealType::ObjectOrArray),
            TokenType::Date => Some(RealType::Date),
            _ => None,
        }
    }

    /// Creates a [RealType] from a [TokenType], if possible.
    ///
    /// The tokens `=`, `}`, `>`, `<`, `>=`, `<=` and `?=` begin no value.
    pub fn from_token_type(t: &TokenType) -> (real_type: Option<RealType>)
        ensures
            real_type == RealType::of(*t),
    {
        match *t {
            TokenType::Boolean => Some(RealType::Boolean),
            TokenType::Number => Some(RealType::Number),
            TokenType::Identifier => Some(RealType::Identifier),
            TokenType::String => Some(RealType::String),
            TokenType::OpenBracket => Some(RealType::ObjectOrArray),
            TokenType::Date => Some(RealType::Date),
            _ => None,
        }
    }
}

/// A value specifying years, months, days, and possibly hours.
///
/// Dates are structural: no range of a month or a day is checked.
#[derive(Debug, PartialEq, Eq, Ord, Clone, Copy, Hash, Structural)]
pub struct Date {
    /// The number of years in this date.
    pub years: u32,
    /// The number of months in this date.
    pub months: u32,
    /// The number of days in this date.
    pub days: u32,
    /// The number of hours in this date; 0 where the source gave none.
    pub hours: u32,
}

/// Two to the power of 32: the weight of `months` in the integer form of a date.
pub const MONTHS_WEIGHT: u128 = 0x1_0000_0000;

/// Two to the power of 64: the weight of `days` in the integer form of a date.
pub const DAYS_WEIGHT: u128 = 0x1_0000_0000_0000_0000;

/// Two to the power of 96: the weight of `hours` in the integer form of a date.
pub const HOURS_WEIGHT: u128 = 0x1_0000_0000_0000_0000_0000_0000;

impl Date {
    /// The integer that stands for this date: its four fields as base-2^32 digits,
    /// `years` being the least significant.
    pub open spec fn spec_to_u128(self) -> int {
        self.years as int + self.months as int * 0x1_0000_0000 + self.days as int
            * 0x1_0000_0000_0000_0000 + self.hours as int * 0x1_0000_0000_0000_0000_0000_0000
    }

    /// The date that an integer stands for.
    pub open spec fn spec_from_u128(value: int) -> Date {
        Date {
            years: (value % 0x1_0000_0000) as u32,
            months: ((value / 0x1_0000_0000) % 0x1_0000_0000) as u32,
            days: ((value / 0x1_0000_0000_0000_0000) % 0x1_0000_0000) as u32,
            hours: ((value / 0x1_0000_0000_0000_0000_0000_0000) % 0x1_0000_0000) as u32,
        }
    }

    /// Packing four fields and unpacking the result gives the four fields back.
    proof fn lemma_unpack_packed(y: u128, m: u128, d: u128, h: u128)
        by (bit_vector)
        requires
            y < 0x1_0000_0000,
            m < 0x1_0000_0000,
            d < 0x1_0000_0000,
            h < 0x1_0000_0000,
        ensures
            ({
                let v = (y + m * 0x1_0000_0000 + d * 0x1_0000_0000_0000_0000 + h
                    * 0x1_0000_0000_0000_0000_0000_0000) as u128;
                &&& v % 0x1_0000_0000 == y
                &&& (v / 0x1_0000_0000) % 0x1_0000_0000 == m
                &&& (v / 0x1_0000_0000_0000_0000) % 0x1_0000_0000 == d
                &&& (v / 0x1_0000_0000_0000_0000_0000_0000) % 0x1_0000_0000 == h
            }),
    {
    }

    /// Unpacking an integer and packing the fields gives the integer back.
    proof fn lemma_pack_unpacked(v: u128)
        by (bit_vector)
        ensures
            v == (v % 0x1_0000_0000) + ((v / 0x1_0000_0000) % 0x1_0000_0000) * 0x1_0000_0000 + ((v
                / 0x1_0000_0000_0000_0000) % 0x1_0000_0000) * 0x1_0000_0000_0000_0000 + ((v
                / 0x1_0000_0000_0000_0000_0000_0000) % 0x1_0000_0000)
                * 0x1_0000_0000_0000_0000_0000_0000,
    {
    }

    /// Creates a new [Date] from the given years, months, days, and hours values.
    pub fn new(years: u32, months: u32, days: u32, hours: u32) -> (date: Date)
        ensures
            date == (Date { years, months, days, hours }),
    {
        Date { years, months, days, hours }
    }

    /// Packs the four fields into one 128-bit integer, `years` lowest.
    pub fn to_u128(self) -> (value: u128)
        ensures
            value == self.spec_to_u128(),
            Date::spec_from_u128(value as int) == self,
    {
        proof {
            Self::lemma_unpack_packed(
                self.years as u128,
                self.months as u128,
                self.days as u128,
                self.hours as u128,
            );
        }
        self.years as u128 + self.months as u128 * MONTHS_WEIGHT + self.days as u128 * DAYS_WEIGHT
            + self.hours as u128 * HOURS_WEIGHT
    }

    /// Unpacks a 128-bit integer into the four fields, `years` lowest.
    pub fn from_u128(value: u128) -> (date: Date)
        ensures
            date == Date::spec_from_u128(value as int),
            date.spec_to_u128() == value,
    {
        proof {
            Self::lemma_pack_unpacked(value);
        }
        let years: u32 = (value % MONTHS_WEIGHT) as u32;
        let months: u32 = ((value / MONTHS_WEIGHT) % MONTHS_WEIGHT) as u32;
        let days: u32 = ((value / DAYS_WEIGHT) % MONTHS_WEIGHT) as u32;
        let hours: u32 = ((value / HOURS_WEIGHT) % MONTHS_WEIGHT) as u32;
        Date { years, months, days, hours }
    }
}

/// Every date comes back unchanged from its integer form.
pub proof fn lemma_date_round_trip(date: Date)
    ensures
        0 <= date.spec_to_u128() <= u128::MAX,
        Date::spec_from_u128(date.spec_to_u128()) == date,
{
    Date::lemma_unpack_packed(
        date.years as u128,
        date.months as u128,
        date.days as u128,
        date.hours as u128,
    );
}

/// Every 128-bit integer comes back unchanged from the date that it stands for.
pub proof fn lemma_integer_round_trip(value: u128)
    ensures
        Date::spec_from_u128(value as int).spec_to_u128() == value,
{
    Date::lemma_pack_unpacked(value);
}

/// What the key of an object is: the bytes of an identifier, or a date.
pub enum Key {
    /// An identifier, as the bytes that spell it.
    Identifier(Seq<u8>),
    /// A date.
    Date(Date),
}

/// Represents the key of an object in a [Value](`crate::value::Value`).
#[derive(Debug, PartialEq, PartialOrd)]
pub enum ObjectKey<'src> {
    /// An Identifier key
    Identifier(Cow<'src, str>),
    /// A Date key
    Date(Date),
}

/// Copies a text: what is borrowed is borrowed again, what is owned is copied.
pub fn copy_text<'src>(text: &Cow<'src, str>) -> (copy: Cow<'src, str>)
    ensures
        copy@ == text@,
{
    match text {
        Cow::Borrowed(borrowed) => Cow::Borrowed(*borrowed),
        Cow::Owned(owned) => Cow::Owned(owned.clone()),
    }
}

impl<'src> Clone for ObjectKey<'src> {
    fn clone(&self) -> (copy: Self)
        ensures
            copy@ == self@,
    {
        match self {
            ObjectKey::Identifier(name) => ObjectKey::Identifier(copy_text(name)),
            ObjectKey::Date(date) => ObjectKey::Date(*date),
        }
    }
}

/// Copies a text that may be borrowed into one that is owned.
pub fn own_text(text: &Cow<'_, str>) -> (owned: Cow<'static, str>)
    ensures
        owned@ == text@,
        owned is Owned,
{
    match text {
        Cow::Borrowed(borrowed) => Cow::Owned((*borrowed).to_owned()),
        Cow::Owned(owned) => Cow::Owned(owned.clone()),
    }
}

impl<'src> ObjectKey<'src> {
    /// Copies this key into one that borrows nothing from the source.
    pub fn to_owned(&self) -> (owned: ObjectKey<'static>)
        ensures
            owned@ == self@,
    {
        match self {
            ObjectKey::Identifier(name) => ObjectKey::Identifier(own_text(name)),
            ObjectKey::Date(date) => ObjectKey::Date(*date),
        }
    }
}

impl<'src> View for ObjectKey<'src> {
    type V = Key;

    open spec fn view(&self) -> Key {
        match self {
            ObjectKey::Identifier(name) => Key::Identifier(encode_utf8(name@)),
            ObjectKey::Date(date) => Key::Date(*date),
        }
    }
}

impl From<[u32; 4]> for Date {
    fn from(value: [u32; 4]) -> (date: Date) {
        Date { years: value[0], months: value[1], days: value[2], hours: value[3] }
    }
}

impl FromSpecImpl<[u32; 4]> for Date {
    open spec fn obeys_from_spec() -> bool {
        true
    }

    open spec fn from_spec(value: [u32; 4]) -> Date {
        Date { years: value[0], months: value[1], days: value[2], hours: value[3] }
    }
}

impl From<Date> for [u32; 4] {
    fn from(value: Date) -> (fields: [u32; 4]) {
        [value.years, value.months, value.days, value.hours]
    }
}

impl FromSpecImpl<Date> for [u32; 4] {
    open spec fn obeys_from_spec() -> bool {
        true
    }

    open spec fn from_spec(value: Date) -> [u32; 4] {
        [value.years, value.months, value.days, value.hours]
    }
}

impl From<u128> for Date {
    fn from(value: u128) -> (date: Date) {
        Date::from_u128(value)
    }
}

impl FromSpecImpl<u128> for Date {
    open spec fn obeys_from_spec() -> bool {
        true
    }

    open spec fn from_spec(value: u128) -> Date {
        Date::spec_from_u128(value as int)
    }
}

impl From<Date> for u128 {
    fn from(value: Date) -> (integer: u128) {
        value.to_u128()
    }
}

impl FromSpecImpl<Date> for u128 {
    open spec fn obeys_from_spec() -> bool {
        true
    }

    open spec fn from_spec(value: Date) -> u128 {
        value.spec_to_u128() as u128
    }
}

impl From<Date> for (u32, u32, u32, u32) {
    fn from(value: Date) -> (fields: (u32, u32, u32, u32)) {
        (value.years, value.months, value.days, value.hours)
    }
}

impl FromSpecImpl<Date> for (u32, u32, u32, u32) {
    open spec fn obeys_from_spec() -> bool {
        true
    }

    open spec fn from_spec(value: Date) -> (u32, u32, u32, u32) {
        (value.years, value.months, value.days, value.hours)
    }
}

impl<'src> From<Date> for ObjectKey<'src> {
    fn from(value: Date) -> (key: ObjectKey<'src>) {
        ObjectKey::Date(value)
    }
}

impl<'src> FromSpecImpl<Date> for ObjectKey<'src> {
    open spec fn obeys_from_spec() -> bool {
        true
    }

    open spec fn from_spec(value: Date) -> ObjectKey<'src> {
        ObjectKey::Date(value)
    }
}

impl<'src> From<&'src str> for ObjectKey<'src> {
    fn from(value: &'src str) -> (key: ObjectKey<'src>) {
        ObjectKey::Identifier(Cow::Borrowed(value))
    }
}

impl<'src> FromSpecImpl<&'src str> for ObjectKey<'src> {
    open spec fn obeys_from_spec() -> bool {
        true
    }

    open spec fn from_spec(value: &'src str) -> ObjectKey<'src> {
        ObjectKey::Identifier(Cow::Borrowed(value))
    }
}

impl<'src> From<String> for ObjectKey<'src> {
    fn from(value: String) -> (key: ObjectKey<'src>) {
        ObjectKey::Identifier(Cow::Owned(value))
    }
}

impl<'src> FromSpecImpl<String> for ObjectKey<'src> {
    open spec fn obeys_from_spec() -> bool {
        true
    }

    open spec fn from_spec(value: String) -> ObjectKey<'src> {
        ObjectKey::Identifier(Cow::Owned(value))
    }
}

} // verus!
