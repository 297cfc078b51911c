//! Owned columnar arrays: the export form of a chunk's columns.
//!
//! An array carries one value slot per row plus a validity flag per
//! row; slots at invalid rows hold defaults. Tag arrays stay
//! dictionary-encoded: integer keys into a list of distinct strings.
//! A record batch pairs a schema with one array per schema field, all
//! of one length.

use crate::entry::CellV;
use crate::schema::Schema;
use vstd::prelude::*;

verus! {

/// One exported column. Doubles are IEEE-754 bit patterns.
#[derive(Debug)]
pub enum ArrayData {
    F64 { values: Vec<u64>, valid: Vec<bool> },
    I64 { values: Vec<i64>, valid: Vec<bool> },
    U64 { values: Vec<u64>, valid: Vec<bool> },
    Bool { values: Vec<bool>, valid: Vec<bool> },
    Str { values: Vec<String>, valid: Vec<bool> },
    Tag { keys: Vec<i32>, dict: Vec<String>, valid: Vec<bool> },
}

impl ArrayData {
    /// The validity flags, one per row.
    pub open spec fn spec_valid(&self) -> Seq<bool> {
        match self {
            ArrayData::F64 { valid, .. } => valid@,
            ArrayData::I64 { valid, .. } => valid@,
            ArrayData::U64 { valid, .. } => valid@,
            ArrayData::Bool { valid, .. } => valid@,
            ArrayData::Str { valid, .. } => valid@,
            ArrayData::Tag { valid, .. } => valid@,
        }
    }

    /// Number of rows.
    pub open spec fn spec_len(&self) -> int {
        self.spec_valid().len() as int
    }

    /// The array holds one value slot per row, and tag keys point into
    /// the array's dictionary at every valid row.
    pub open spec fn wf(&self) -> bool {
        match self {
            ArrayData::F64 { values, valid } => values@.len() == valid@.len(),
            ArrayData::I64 { values, valid } => values@.len() == valid@.len(),
            ArrayData::U64 { values, valid } => values@.len() == valid@.len(),
            ArrayData::Bool { values, valid } => values@.len() == valid@.len(),
            ArrayData::Str { values, valid } => values@.len() == valid@.len(),
            ArrayData::Tag { keys, dict, valid } => keys@.len() == valid@.len() && forall|r: int|
                0 <= r < valid@.len() && valid@[r] ==> 0 <= #[trigger] keys@[r] < dict@.len(),
        }
    }

    /// The ghost cells: one optional value per row, nulls at invalid
    /// rows.
    pub open spec fn cells(&self) -> Seq<Option<CellV>> {
        Seq::new(
            self.spec_valid().len(),
            |r: int|
                if !self.spec_valid()[r] {
                    None
                } else {
                    Some(
                        match self {
                            ArrayData::F64 { values, .. } => CellV::F(values@[r]),
                            ArrayData::I64 { values, .. } => CellV::I(values@[r]),
                            ArrayData::U64 { values, .. } => CellV::U(values@[r]),
                            ArrayData::Bool { values, .. } => CellV::B(values@[r]),
                            ArrayData::Str { values, .. } => CellV::S(values@[r]@),
                            ArrayData::Tag { keys, dict, .. } => CellV::S(dict@[keys@[r] as int]@),
                        },
                    )
                },
        )
    }

    /// Number of rows.
    pub fn len(&self) -> (r: usize)
        ensures
            r == self.spec_len(),
    {
        match self {
            ArrayData::F64 { valid, .. } => valid.len(),
            ArrayData::I64 { valid, .. } => valid.len(),
            ArrayData::U64 { valid, .. } => valid.len(),
            ArrayData::Bool { valid, .. } => valid.len(),
            ArrayData::Str { valid, .. } => valid.len(),
            ArrayData::Tag { valid, .. } => valid.len(),
        }
    }
}

/// A copy of a flag vector.
pub(crate) fn copy_bools(v: &Vec<bool>) -> (r: Vec<bool>)
    ensures
        r@ == v@,
{
    let mut r: Vec<bool> = Vec::new();
    let mut i: usize = 0;
    while i < v.len()
        invariant
            i <= v@.len(),
            r@ == v@.take(i as int),
        decreases v@.len() - i,
    {
        r.push(v[i]);
        proof {
            assert(r@ =~= v@.take(i as int + 1));
        }
        i = i + 1;
    }
    proof {
        assert(v@.take(v@.len() as int) =~= v@);
    }
    r
}

impl ArrayData {
    /// A deep copy of the array, cell for cell.
    pub(crate) fn duplicate(&self) -> (r: ArrayData)
        ensures
            r.cells() == self.cells(),
            r.spec_valid() == self.spec_valid(),
            self.wf() ==> r.wf(),
            (r is F64) == (self is F64),
            (r is I64) == (self is I64),
            (r is U64) == (self is U64),
            (r is Bool) == (self is Bool),
            (r is Str) == (self is Str),
            (r is Tag) == (self is Tag),
    {
        match self {
            ArrayData::F64 { values, valid } => ArrayData::F64 {
                values: crate::column::copy_u64s(values),
                valid: copy_bools(valid),
            },
            ArrayData::I64 { values, valid } => ArrayData::I64 {
                values: crate::column::copy_i64s(values),
                valid: copy_bools(valid),
            },
            ArrayData::U64 { values, valid } => ArrayData::U64 {
                values: crate::column::copy_u64s(values),
                valid: copy_bools(valid),
            },
            ArrayData::Bool { values, valid } => ArrayData::Bool {
                values: copy_bools(values),
                valid: copy_bools(valid),
            },
            ArrayData::Str { values, valid } => ArrayData::Str {
                values: crate::column::clone_strings(values),
                valid: copy_bools(valid),
            },
            ArrayData::Tag { keys, dict, valid } => ArrayData::Tag {
                keys: crate::column::copy_i32s(keys),
                dict: crate::column::clone_strings(dict),
                valid: copy_bools(valid),
            },
        }
    }

}

/// A schema plus one exported array per schema field, all of one
/// length.
#[derive(Debug)]
pub struct RecordBatch {
    pub schema: Schema,
    pub columns: Vec<ArrayData>,
}

impl RecordBatch {
    /// One array per field, every array well formed and of the batch's
    /// row count.
    pub open spec fn wf(&self) -> bool {
        &&& self.columns@.len() == self.schema.fields@.len()
        &&& forall|i: int|
            0 <= i < self.columns@.len() ==> (#[trigger] self.columns@[i]).wf()
        &&& forall|i: int|
            0 <= i < self.columns@.len() ==> (#[trigger] self.columns@[i]).spec_len()
                == self.spec_num_rows()
    }

    /// The row count: that of the first column, or zero without
    /// columns.
    pub open spec fn spec_num_rows(&self) -> int {
        if self.columns@.len() == 0 {
            0
        } else {
            self.columns@[0].spec_len()
        }
    }

    /// Number of rows in the batch.
    pub fn num_rows(&self) -> (r: usize)
        ensures
            r == self.spec_num_rows(),
    {
        if self.columns.len() == 0 {
            0
        } else {
            self.columns[0].len()
        }
    }
}

} // verus!
