//! The output of a decode: an ordered list of named entries.

use vstd::prelude::*;
use crate::tables::str_text;

verus! {

/// A decoded number, kept exact: it stands for
/// `(raw + reference) * 10^(-scale)`.
#[derive(Clone, Copy, Debug, PartialEq, Eq, Structural)]
pub struct Scaled {
    /// The bits as read from the stream.
    pub raw: u64,
    /// The reference value added to them.
    pub reference: i32,
    /// The decimal scale: the sum is divided by ten to this power.
    pub scale: i32,
}

/// One decoded value.
#[derive(Clone, Debug)]
pub enum Value {
    Number(Scaled),
    Missing,
    String(String),
}

/// What a value is, with a string taken by its characters.
pub enum ValueModel {
    Number(Scaled),
    Missing,
    Text(Seq<char>),
}

impl View for Value {
    type V = ValueModel;

    open spec fn view(&self) -> ValueModel {
        match self {
            Value::Number(s) => ValueModel::Number(*s),
            Value::Missing => ValueModel::Missing,
            Value::String(s) => ValueModel::Text(s@),
        }
    }
}

impl ValueModel {
    /// The value as a sample of an array: a number, or nothing for the
    /// missing value.
    pub open spec fn sample(self) -> Option<Scaled> {
        match self {
            ValueModel::Number(s) => Some(s),
            _ => None,
        }
    }
}

impl Value {
    /// The number, where the value is one.
    pub fn number(&self) -> (r: Option<Scaled>)
        ensures
            r == (match self@ {
                ValueModel::Number(s) => Some(s),
                _ => None,
            }),
    {
        match self {
            Value::Number(s) => Some(*s),
            _ => None,
        }
    }

    /// The text, where the value is a string.
    pub fn as_str(&self) -> (r: Option<&str>)
        ensures
            str_text(r) == (match self@ {
                ValueModel::Text(t) => Some(t),
                _ => None,
            }),
    {
        match self {
            Value::String(v) => Some(v.as_str()),
            Value::Number(_) => None,
            Value::Missing => None,
        }
    }

    pub fn is_missing(&self) -> (r: bool)
        ensures
            r == (self@ is Missing),
    {
        match self {
            Value::Missing => true,
            _ => false,
        }
    }
}

/// The values of one entry.
#[derive(Clone, Debug)]
pub enum BUFRData {
    /// The values of a repeated group.
    Repeat(Vec<Value>),
    /// One value.
    Single(Value),
    /// The samples of one field of a compiled array, in repetition order;
    /// `None` is a missing sample.
    Array(Vec<Option<Scaled>>),
}

pub enum DataModel {
    Repeat(Seq<ValueModel>),
    Single(ValueModel),
    Array(Seq<Option<Scaled>>),
}

impl View for BUFRData {
    type V = DataModel;

    open spec fn view(&self) -> DataModel {
        match self {
            BUFRData::Repeat(v) => DataModel::Repeat(v@.map_values(|x: Value| x@)),
            BUFRData::Single(v) => DataModel::Single(v@),
            BUFRData::Array(v) => DataModel::Array(v@),
        }
    }
}

/// One entry of the output: values with the name and unit of the element
/// they belong to, both borrowed from the catalog.
#[derive(Clone, Debug)]
pub struct BUFRRecord<'a> {
    pub name: Option<&'a str>,
    pub values: BUFRData,
    pub unit: Option<&'a str>,
}

pub struct RecordModel {
    pub name: Option<Seq<char>>,
    pub values: DataModel,
    pub unit: Option<Seq<char>>,
}

impl<'a> View for BUFRRecord<'a> {
    type V = RecordModel;

    open spec fn view(&self) -> RecordModel {
        RecordModel { name: str_text(self.name), values: self.values@, unit: str_text(self.unit) }
    }
}

/// The entry of a single value.
pub open spec fn single_record(value: ValueModel, name: Seq<char>, unit: Seq<char>) -> RecordModel {
    RecordModel { name: Some(name), values: DataModel::Single(value), unit: Some(unit) }
}

/// The entry of one field of a compiled array.
pub open spec fn array_record(samples: Seq<Option<Scaled>>, name: Seq<char>, unit: Seq<char>)
    -> RecordModel {
    RecordModel { name: Some(name), values: DataModel::Array(samples), unit: Some(unit) }
}

/// The decoded record of a message: its entries in the order in which the
/// walk produced them.
#[derive(Clone, Debug)]
pub struct BUFRParsed<'a> {
    records: Vec<BUFRRecord<'a>>,
}

impl<'a> View for BUFRParsed<'a> {
    type V = Seq<RecordModel>;

    closed spec fn view(&self) -> Seq<RecordModel> {
        self.records@.map_values(|r: BUFRRecord<'a>| r@)
    }
}

impl<'a> BUFRParsed<'a> {
    pub fn new() -> (r: Self)
        ensures
            r@ == Seq::<RecordModel>::empty(),
    {
        let r = BUFRParsed { records: Vec::new() };
        assert(r@ =~= Seq::<RecordModel>::empty());
        r
    }

    /// Appends the entry of a single value.
    pub fn push(&mut self, value: Value, element_name: &'a str, unit: &'a str)
        ensures
            final(self)@ == old(self)@.push(single_record(value@, element_name@, unit@)),
    {
        self.records.push(
            BUFRRecord { name: Some(element_name), values: BUFRData::Single(value), unit: Some(unit) },
        );
        assert(self@ =~= old(self)@.push(single_record(value@, element_name@, unit@)));
    }

    /// Appends the entry of one field of a compiled array.
    pub fn push_array(&mut self, samples: Vec<Option<Scaled>>, name: &'a str, unit: &'a str)
        ensures
            final(self)@ == old(self)@.push(array_record(samples@, name@, unit@)),
    {
        let ghost model = array_record(samples@, name@, unit@);
        self.records.push(
            BUFRRecord { name: Some(name), values: BUFRData::Array(samples), unit: Some(unit) },
        );
        assert(self@ =~= old(self)@.push(model));
    }

    pub fn record_count(&self) -> (r: usize)
        ensures
            r == self@.len(),
    {
        self.records.len()
    }

    pub fn records(&self) -> (r: &[BUFRRecord<'a>])
        ensures
            r@.map_values(|x: BUFRRecord<'a>| x@) == self@,
    {
        self.records.as_slice()
    }
}

} // verus!
