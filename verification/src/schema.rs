//! Logical column types, schemas and column selections.
//!
//! A column is a tag, a typed field or the timestamp; a schema is an
//! ordered list of named column types; a selection picks which columns
//! of a chunk a read touches.

use vstd::prelude::*;

verus! {

/// Name of the timestamp column every table carries.
pub const TIME_COLUMN_NAME: &'static str = "time";

/// The value type of a field column.
#[derive(Debug, Clone, Copy, PartialEq, Eq, Structural)]
pub enum InfluxFieldType {
    Float,
    Integer,
    UInteger,
    Str,
    Boolean,
}

/// The logical type of a column. It is fixed when the column first
/// appears; appending a value of any other logical type is a schema
/// error, even where both types are numeric.
#[derive(Debug, Clone, Copy, PartialEq, Eq, Structural)]
pub enum InfluxColumnType {
    Tag,
    Field(InfluxFieldType),
    Timestamp,
}

/// An ordered list of named, typed columns.
#[derive(Debug, Clone, PartialEq)]
pub struct Schema {
    pub fields: Vec<(String, InfluxColumnType)>,
}

impl Schema {
    pub fn new() -> (r: Self)
        ensures
            r.fields@.len() == 0,
    {
        Schema { fields: Vec::new() }
    }

    pub fn len(&self) -> (r: usize)
        ensures
            r == self.fields@.len(),
    {
        self.fields.len()
    }

    /// The name and type at one position.
    pub fn field(&self, i: usize) -> (r: &(String, InfluxColumnType))
        requires
            i < self.fields@.len(),
        ensures
            *r == self.fields@[i as int],
    {
        &self.fields[i]
    }
}

/// Which columns a read touches: every column, sorted by name, or a
/// caller-given list in the caller's order.
#[derive(Debug, Clone, PartialEq)]
pub enum Selection {
    All,
    Columns(Vec<String>),
}

} // verus!
