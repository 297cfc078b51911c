//! Immutable, point-in-time snapshots of a chunk.
//!
//! A snapshot is built once from a chunk's columns, converted to their
//! export array form with the schema sorted by column name, and is
//! never mutated afterwards: readers holding a snapshot keep a frozen,
//! fully consistent view however the owning chunk moves on.

use crate::arrays::{ArrayData, RecordBatch};
use crate::chunk::{has_col, snapshot_matches, MBChunk};
use crate::chunk::Error;
use crate::column::Column;
use crate::schema::{InfluxColumnType, Schema, Selection};
use vstd::prelude::*;

verus! {

/// An immutable columnar view of one chunk at one point in time.
pub struct ChunkSnapshot {
    pub(crate) table_name: String,
    pub(crate) batch: RecordBatch,
}

impl ChunkSnapshot {
    /// The table this snapshot covers.
    pub open(crate) spec fn spec_table_name(&self) -> Seq<char> {
        self.table_name@
    }

    /// The materialized batch: schema plus one array per column.
    pub open(crate) spec fn spec_batch(&self) -> RecordBatch {
        self.batch
    }

    /// Materializes a chunk: every column exported in name order.
    pub fn new(chunk: &MBChunk) -> (r: Self)
        requires
            chunk.wf(),
        ensures
            snapshot_matches(r, chunk.spec_table_name(), chunk.spec_columns()),
            r.spec_batch().wf(),
    {
        let n = chunk.columns.len();
        let mut fields: Vec<(String, InfluxColumnType)> = Vec::new();
        let mut arrays: Vec<ArrayData> = Vec::new();
        let mut i: usize = 0;
        while i < n
            invariant
                chunk.wf(),
                n == chunk.spec_columns().len(),
                i <= n,
                fields@.len() == i,
                arrays@.len() == i,
                forall|j: int|
                    0 <= j < i ==> (#[trigger] fields@[j]).0@ == chunk.spec_columns()[j].0@
                        && fields@[j].1 == chunk.spec_columns()[j].1.spec_type(),
                forall|j: int|
                    0 <= j < i ==> (#[trigger] arrays@[j]).cells()
                        == chunk.spec_columns()[j].1.cells() && arrays@[j].wf()
                        && arrays@[j].spec_len() == chunk.spec_columns()[j].1.spec_len(),
            decreases n - i,
        {
            let name = chunk.columns[i].0.clone();
            let col = &chunk.columns[i].1;
            fields.push((name, col.influx_type()));
            arrays.push(col.to_arrow());
            i = i + 1;
        }
        let r = ChunkSnapshot {
            table_name: chunk.table_name.clone(),
            batch: RecordBatch { schema: Schema { fields }, columns: arrays },
        };
        proof {
            assert forall|j: int| 0 <= j < n implies (#[trigger] r.batch.columns@[j]).spec_len()
                == r.batch.spec_num_rows() by {
                assert(chunk.spec_columns()[j].1.spec_len() == chunk.spec_rows());
                if n > 0 {
                    assert(chunk.spec_columns()[0].1.spec_len() == chunk.spec_rows());
                }
            }
        }
        r
    }

    /// The snapshot's table name.
    pub fn table_name(&self) -> (r: &str)
        ensures
            r@ == self.spec_table_name(),
    {
        self.table_name.as_str()
    }

    /// Number of rows frozen in this snapshot.
    pub fn rows(&self) -> (r: usize)
        ensures
            r == self.spec_batch().spec_num_rows(),
    {
        self.batch.num_rows()
    }

    /// The schema of a selection: every column in the snapshot's own
    /// (name-sorted) order, or the named columns in the caller's order.
    /// Naming a column the snapshot lacks is an error.
    pub fn schema(&self, selection: &Selection) -> (r: Result<Schema, Error>)
        ensures
            (r is Ok) == selection_in_schema(self.spec_batch().schema, *selection),
            r matches Ok(schema) ==> selected_schema(
                self.spec_batch().schema,
                *selection,
                schema,
            ),
            r matches Err(e) ==> selection matches Selection::Columns(names) && (e
                matches Error::ColumnNotFound { column } && missing_column_err(
                names@,
                column,
                self.spec_batch().schema,
            )),
    {
        schema_for_selection(&self.batch.schema, selection)
    }

    /// Materializes the selected columns, in schema order, as one
    /// record batch. Every array has the snapshot's row count.
    pub fn to_arrow(&self, selection: &Selection) -> (r: Result<RecordBatch, Error>)
        requires
            self.spec_batch().wf(),
        ensures
            (r is Ok) == selection_in_schema(self.spec_batch().schema, *selection),
            r matches Ok(batch) ==> {
                &&& batch.wf()
                &&& selected_schema(self.spec_batch().schema, *selection, batch.schema)
                &&& batch.spec_num_rows() == (if batch.columns@.len() == 0 {
                    0int
                } else {
                    self.spec_batch().spec_num_rows()
                })
                &&& batch.columns@.len() == batch.schema.fields@.len()
                &&& forall|i: int|
                    0 <= i < batch.columns@.len() ==> array_from(
                        self.spec_batch(),
                        batch.schema.fields@[i].0@,
                        #[trigger] batch.columns@[i],
                    )
            },
            r matches Err(e) ==> selection matches Selection::Columns(names) && (e
                matches Error::ColumnNotFound { column } && missing_column_err(
                names@,
                column,
                self.spec_batch().schema,
            )),
    {
        let schema = match self.schema(selection) {
            Ok(s) => s,
            Err(e) => {
                return Err(e);
            },
        };
        proof {
            assert forall|k: int| #![trigger schema.fields@[k]]
                0 <= k < schema.fields@.len() implies field_from(
                self.spec_batch().schema,
                schema.fields@[k].0@,
                schema.fields@[k].1,
            ) by {
                match selection {
                    Selection::All => {
                        assert(self.spec_batch().schema.fields@[k].0@ == schema.fields@[k].0@
                            && self.spec_batch().schema.fields@[k].1 == schema.fields@[k].1);
                    },
                    Selection::Columns(names) => {
                        assert(schema.fields@[k].0@ == names@[k]@);
                    },
                }
            }
        }
        let mut arrays: Vec<ArrayData> = Vec::new();
        let mut i: usize = 0;
        while i < schema.fields.len()
            invariant
                self.spec_batch().wf(),
                i <= schema.fields@.len(),
                arrays@.len() == i,
                forall|k: int| #![trigger schema.fields@[k]]
                    0 <= k < schema.fields@.len() ==> field_from(
                        self.spec_batch().schema,
                        schema.fields@[k].0@,
                        schema.fields@[k].1,
                    ),
                forall|j: int|
                    0 <= j < i ==> (#[trigger] arrays@[j]).wf() && arrays@[j].spec_len()
                        == self.spec_batch().spec_num_rows() && array_from(
                        self.spec_batch(),
                        schema.fields@[j].0@,
                        arrays@[j],
                    ),
            decreases schema.fields@.len() - i,
        {
            let name = &schema.fields[i].0;
            match find_field(&self.batch.schema, name.as_str()) {
                Some(j) => {
                    let a = self.batch.columns[j].duplicate();
                    proof {
                        assert(first_field_at(self.spec_batch().schema, name@, j as int)
                            && a.cells() == self.spec_batch().columns@[j as int].cells());
                        assert(array_from(self.spec_batch(), schema.fields@[i as int].0@, a));
                    }
                    arrays.push(a);
                },
                None => {
                    proof {
                        assert(false);
                    }
                    return Err(Error::ColumnNotFound { column: name.clone() });
                },
            }
            i = i + 1;
        }
        Ok(RecordBatch { schema, columns: arrays })
    }
}

/// Whether a schema has a field of the given name and type.
pub open spec fn field_from(full: Schema, name: Seq<char>, t: InfluxColumnType) -> bool {
    exists|j: int|
        0 <= j < full.fields@.len() && (#[trigger] full.fields@[j]).0@ == name && t
            == full.fields@[j].1
}

/// Whether a schema lacks any field of the given name.
pub open spec fn no_field(full: Schema, name: Seq<char>) -> bool {
    forall|j: int| 0 <= j < full.fields@.len() ==> (#[trigger] full.fields@[j]).0@ != name
}

/// A selection named a column the schema lacks.
pub open spec fn missing_column_err(names: Seq<String>, column: String, full: Schema) -> bool {
    exists|i: int|
        0 <= i < names.len() && (#[trigger] names[i])@ == column@ && no_field(full, column@)
}

/// Whether a schema holds every column a selection names.
pub open spec fn selection_in_schema(full: Schema, selection: Selection) -> bool {
    match selection {
        Selection::All => true,
        Selection::Columns(names) => forall|i: int|
            0 <= i < names@.len() ==> !no_field(full, (#[trigger] names@[i])@),
    }
}

/// Whether `schema` lists exactly what the selection picks from the
/// full schema: every field in stored order for `All`, the named
/// fields in their given order otherwise, each typed as stored.
pub open spec fn selected_schema(full: Schema, selection: Selection, schema: Schema) -> bool {
    match selection {
        Selection::All => schema.fields@ == full.fields@,
        Selection::Columns(names) => schema.fields@.len() == names@.len() && forall|i: int|
            0 <= i < names@.len() ==> (#[trigger] schema.fields@[i]).0@ == names@[i]@
                && field_from(full, names@[i]@, schema.fields@[i].1),
    }
}

/// A named, absent field refutes a selection's coverage.
proof fn lemma_not_in_schema(full: Schema, selection: Selection, i: int)
    requires
        match selection {
            Selection::Columns(names) => 0 <= i < names@.len() && no_field(full, names@[i]@),
            _ => false,
        },
    ensures
        !selection_in_schema(full, selection),
{
    match selection {
        Selection::Columns(names) => {
            assert(0 <= i < names@.len() && no_field(full, (#[trigger] names@[i])@));
        },
        _ => {},
    }
}

/// Whether position `j` holds the first field of the given name.
pub open spec fn first_field_at(full: Schema, name: Seq<char>, j: int) -> bool {
    &&& 0 <= j < full.fields@.len()
    &&& full.fields@[j].0@ == name
    &&& forall|k: int| 0 <= k < j ==> (#[trigger] full.fields@[k]).0@ != name
}

/// Whether `a` carries the cells of the first stored array under the
/// given name.
pub open spec fn array_from(snap: RecordBatch, name: Seq<char>, a: ArrayData) -> bool {
    exists|j: int|
        #[trigger] first_field_at(snap.schema, name, j) && a.cells() == snap.columns@[j].cells()
}

/// Finds the position of a named field in a schema.
pub(crate) fn find_field(schema: &Schema, name: &str) -> (r: Option<usize>)
    ensures
        match r {
            Some(j) => first_field_at(*schema, name@, j as int),
            None => forall|j: int|
                0 <= j < schema.fields@.len() ==> (#[trigger] schema.fields@[j]).0@ != name@,
        },
{
    let mut j: usize = 0;
    while j < schema.fields.len()
        invariant
            j <= schema.fields@.len(),
            forall|k: int| 0 <= k < j ==> (#[trigger] schema.fields@[k]).0@ != name@,
        decreases schema.fields@.len() - j,
    {
        if crate::strcmp::str_eq(schema.fields[j].0.as_str(), name) {
            return Some(j);
        }
        j = j + 1;
    }
    None
}

/// Builds the schema a selection asks for out of a full, name-sorted
/// schema.
pub(crate) fn schema_for_selection(full: &Schema, selection: &Selection) -> (r: Result<
    Schema,
    Error,
>)
    ensures
        (r is Ok) == selection_in_schema(*full, *selection),
        r matches Ok(schema) ==> selected_schema(*full, *selection, schema),
        r matches Err(e) ==> selection matches Selection::Columns(names) && (e
            matches Error::ColumnNotFound { column } && missing_column_err(
            names@,
            column,
            *full,
        )),
{
    match selection {
        Selection::All => {
            let mut fields: Vec<(String, InfluxColumnType)> = Vec::new();
            let mut i: usize = 0;
            while i < full.fields.len()
                invariant
                    *selection == Selection::All,
                    i <= full.fields@.len(),
                    fields@.len() == i,
                    forall|k: int| 0 <= k < i ==> fields@[k] == full.fields@[k],
                decreases full.fields@.len() - i,
            {
                fields.push((full.fields[i].0.clone(), full.fields[i].1));
                i = i + 1;
            }
            proof {
                assert(fields@ =~= full.fields@);
            }
            Ok(Schema { fields })
        },
        Selection::Columns(names) => {
            let mut fields: Vec<(String, InfluxColumnType)> = Vec::new();
            let mut i: usize = 0;
            while i < names.len()
                invariant
                    *selection == Selection::Columns(*names),
                    i <= names@.len(),
                    fields@.len() == i,
                    forall|k: int|
                        0 <= k < i ==> (#[trigger] fields@[k]).0@ == names@[k]@ && field_from(
                            *full,
                            names@[k]@,
                            fields@[k].1,
                        ),
                decreases names@.len() - i,
            {
                let name = &names[i];
                match find_field(full, name.as_str()) {
                    Some(j) => {
                        proof {
                            assert(field_from(*full, names@[i as int]@, full.fields@[j as int].1));
                        }
                        fields.push((name.clone(), full.fields[j].1));
                    },
                    None => {
                        let column_name = name.as_str().to_owned();
                        proof {
                            assert(0 <= i < names@.len() && names@[i as int]@ == name@);
                            assert(column_name@ == name@);
                            assert(no_field(*full, column_name@));
                            assert(names@[i as int]@ == column_name@);
                            assert(missing_column_err(names@, column_name, *full));
                            lemma_not_in_schema(*full, *selection, i as int);
                        }
                        return Err(Error::ColumnNotFound { column: column_name });
                    },
                }
                i = i + 1;
            }
            let schema = Schema { fields };
            proof {
                assert forall|k: int| 0 <= k < names@.len() implies !no_field(
                    *full,
                    (#[trigger] names@[k])@,
                ) by {
                    assert(field_from(*full, names@[k]@, schema.fields@[k].1));
                    let j = choose|j: int|
                        0 <= j < full.fields@.len() && (#[trigger] full.fields@[j]).0@
                            == names@[k]@ && schema.fields@[k].1 == full.fields@[j].1;
                    assert(full.fields@[j].0@ == names@[k]@);
                }
                assert(selection_in_schema(*full, *selection));
                assert(selected_schema(*full, *selection, schema));
            }
            Ok(schema)
        },
    }
}

} // verus!
