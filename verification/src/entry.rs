//! Decoded write entries: typed column batches grouped by table and
//! partition.
//!
//! A batch column carries a name, a logical type, a row count, an
//! optional null mask and the non-null values in row order. Doubles are
//! carried as IEEE-754 bit patterns. The ghost form of a column is its
//! sequence of cells: one optional value per row.

use crate::clock::ClockValue;
use crate::nullmask::{is_null_value, spec_is_null_value};
use crate::schema::{InfluxColumnType, InfluxFieldType};
use vstd::prelude::*;

verus! {

/// Identifier of a shard a write is routed to.
pub type ShardId = u32;

/// Identifier of the writer that produced an entry.
pub type WriterId = u32;

/// Position of a write within a sequencer's stream.
#[derive(Debug, Clone, Copy, PartialEq, Eq, Structural)]
pub struct Sequence {
    pub id: u32,
    pub number: u64,
}

impl Sequence {
    pub fn new(id: u32, number: u64) -> (r: Self)
        ensures
            r.id == id,
            r.number == number,
    {
        Sequence { id, number }
    }
}

/// The logical kind a batch column declares.
#[derive(Debug, Clone, Copy, PartialEq, Eq, Structural)]
pub enum LogicalColumnType {
    Tag,
    Field,
    Time,
}

/// One field value of a parsed line. Doubles are bit patterns.
#[derive(Debug, PartialEq)]
pub enum FieldValue {
    Boolean(bool),
    I64(i64),
    U64(u64),
    F64(u64),
    Str(String),
}

/// One parsed line: a measurement, its tags and fields, and an optional
/// timestamp in nanoseconds.
#[derive(Debug, PartialEq)]
pub struct Line {
    pub measurement: String,
    pub tag_set: Vec<(String, String)>,
    pub field_set: Vec<(String, FieldValue)>,
    pub timestamp: Option<i64>,
}

/// The non-null values of one batch column, in row order.
#[derive(Debug, PartialEq)]
pub enum ColumnValues {
    Bool(Vec<bool>),
    I64(Vec<i64>),
    U64(Vec<u64>),
    F64(Vec<u64>),
    Str(Vec<String>),
}

/// Ghost form of one cell value.
pub enum CellV {
    B(bool),
    I(i64),
    U(u64),
    F(u64),
    S(Seq<char>),
}

/// How many of the first `r` rows are non-null under the given mask.
pub open spec fn valid_before(mask: Option<Seq<u8>>, r: int) -> int
    decreases r,
{
    if r <= 0 {
        0
    } else {
        valid_before(mask, r - 1) + (if spec_is_null_value(r, mask) {
            0int
        } else {
            1int
        })
    }
}

/// The count of non-null rows never shrinks and grows by at most one
/// per row.
pub proof fn lemma_valid_before_nonneg(mask: Option<Seq<u8>>, a: int)
    ensures
        valid_before(mask, a) >= 0,
    decreases a,
{
    if a > 0 {
        lemma_valid_before_nonneg(mask, a - 1);
    }
}

pub proof fn lemma_valid_before_monotone(mask: Option<Seq<u8>>, a: int, b: int)
    requires
        0 <= a <= b,
    ensures
        valid_before(mask, a) <= valid_before(mask, b),
        valid_before(mask, b) <= valid_before(mask, a) + (b - a),
        valid_before(mask, a) >= 0,
    decreases b - a,
{
    lemma_valid_before_nonneg(mask, a);
    if a < b {
        lemma_valid_before_monotone(mask, a, b - 1);
    }
}

/// The number of values a `ColumnValues` holds.
pub open spec fn values_len(v: ColumnValues) -> int {
    match v {
        ColumnValues::Bool(d) => d.len() as int,
        ColumnValues::I64(d) => d.len() as int,
        ColumnValues::U64(d) => d.len() as int,
        ColumnValues::F64(d) => d.len() as int,
        ColumnValues::Str(d) => d.len() as int,
    }
}

/// The ghost cell of the value at position `i`.
pub open spec fn value_cell(v: ColumnValues, i: int) -> CellV {
    match v {
        ColumnValues::Bool(d) => CellV::B(d[i]),
        ColumnValues::I64(d) => CellV::I(d[i]),
        ColumnValues::U64(d) => CellV::U(d[i]),
        ColumnValues::F64(d) => CellV::F(d[i]),
        ColumnValues::Str(d) => CellV::S(d[i]@),
    }
}

/// Whether a values variant carries the given logical type.
pub open spec fn values_match_type(t: InfluxColumnType, v: ColumnValues) -> bool {
    match t {
        InfluxColumnType::Tag => v is Str,
        InfluxColumnType::Field(InfluxFieldType::Float) => v is F64,
        InfluxColumnType::Field(InfluxFieldType::Integer) => v is I64,
        InfluxColumnType::Field(InfluxFieldType::UInteger) => v is U64,
        InfluxColumnType::Field(InfluxFieldType::Str) => v is Str,
        InfluxColumnType::Field(InfluxFieldType::Boolean) => v is Bool,
        InfluxColumnType::Timestamp => v is I64,
    }
}

/// One typed column of a table batch.
#[derive(Debug)]
pub struct Column {
    pub(crate) name: String,
    pub(crate) influx_type: InfluxColumnType,
    /// Number of rows this column covers, null rows included.
    pub row_count: usize,
    pub(crate) null_mask: Option<Vec<u8>>,
    pub(crate) values: ColumnValues,
}

impl Column {
    /// A batch column from its parts: the typed values in row order,
    /// with an optional null mask (most significant bit first, a set
    /// bit marking a null row).
    pub fn new(
        name: String,
        influx_type: InfluxColumnType,
        row_count: usize,
        null_mask: Option<Vec<u8>>,
        values: ColumnValues,
    ) -> (r: Column)
        ensures
            r.spec_name() == name@,
            r.spec_type() == influx_type,
            r.spec_row_count() == row_count,
            r.mask_view() == (match null_mask {
                Some(m) => Some(m@),
                None => None::<Seq<u8>>,
            }),
            r.spec_values() == values,
    {
        Column { name, influx_type, row_count, null_mask, values }
    }

    /// The column's name.
    pub open(crate) spec fn spec_name(&self) -> Seq<char> {
        self.name@
    }

    /// The column's logical type.
    pub open(crate) spec fn spec_type(&self) -> InfluxColumnType {
        self.influx_type
    }

    /// Number of rows this column covers.
    pub open(crate) spec fn spec_row_count(&self) -> int {
        self.row_count as int
    }

    /// The null mask bytes, where the column carries one.
    pub open(crate) spec fn mask_view(&self) -> Option<Seq<u8>> {
        match self.null_mask {
            Some(ref m) => Some(m@),
            None => None,
        }
    }

    /// Whether 0-based row `r` is null.
    pub open(crate) spec fn row_null(&self, r: int) -> bool {
        spec_is_null_value(r + 1, self.mask_view())
    }

    /// The ghost cells: one optional value per row.
    pub open(crate) spec fn cells(&self) -> Seq<Option<CellV>> {
        Seq::new(
            self.row_count as nat,
            |r: int|
                if self.row_null(r) {
                    None
                } else {
                    Some(value_cell(self.spec_values(), valid_before(self.mask_view(), r)))
                },
        )
    }

    /// The values the column carries.
    pub open(crate) spec fn spec_values(&self) -> ColumnValues {
        self.values
    }

    /// The values variant matches the declared type and carries exactly
    /// one value per non-null row.
    pub open(crate) spec fn data_consistent(&self) -> bool {
        &&& values_match_type(self.spec_type(), self.spec_values())
        &&& values_len(self.spec_values()) == valid_before(self.mask_view(), self.row_count as int)
    }

    /// Whether any mask has the byte length the row count calls for.
    pub open(crate) spec fn mask_len_ok(&self) -> bool {
        self.mask_view() matches Some(m) ==> m.len() == (self.row_count + 7) / 8
    }

    /// A batch column is well formed when its values are consistent and
    /// any mask has the right byte length.
    pub open(crate) spec fn wf(&self) -> bool {
        self.data_consistent() && self.mask_len_ok()
    }

    pub fn name(&self) -> (r: &str)
        ensures
            r@ == self.spec_name(),
    {
        self.name.as_str()
    }

    pub fn influx_type(&self) -> (r: InfluxColumnType)
        ensures
            r == self.spec_type(),
    {
        self.influx_type
    }

    /// The logical kind this column declares.
    pub fn logical_type(&self) -> (r: LogicalColumnType)
        ensures
            r == (match self.spec_type() {
                InfluxColumnType::Tag => LogicalColumnType::Tag,
                InfluxColumnType::Field(_) => LogicalColumnType::Field,
                InfluxColumnType::Timestamp => LogicalColumnType::Time,
            }),
    {
        match self.influx_type {
            InfluxColumnType::Tag => LogicalColumnType::Tag,
            InfluxColumnType::Field(_) => LogicalColumnType::Field,
            InfluxColumnType::Timestamp => LogicalColumnType::Time,
        }
    }

    pub fn is_tag(&self) -> (r: bool)
        ensures
            r == (self.spec_type() is Tag),
    {
        matches!(self.influx_type, InfluxColumnType::Tag)
    }

    pub fn is_field(&self) -> (r: bool)
        ensures
            r == (self.spec_type() is Field),
    {
        matches!(self.influx_type, InfluxColumnType::Field(_))
    }

    pub fn is_time(&self) -> (r: bool)
        ensures
            r == (self.spec_type() is Timestamp),
    {
        matches!(self.influx_type, InfluxColumnType::Timestamp)
    }

    /// The signed values row by row, nulls included, where this column
    /// holds signed integers or timestamps.
    pub fn i64_values(&self) -> (r: Option<Vec<Option<i64>>>)
        requires
            self.wf(),
        ensures
            (r is Some) == (self.spec_values() is I64),
            r matches Some(v) ==> v@.len() == self.cells().len() && forall|q: int|
                0 <= q < v@.len() ==> v@[q] == (match self.cells()[q] {
                    Some(CellV::I(x)) => Some(x),
                    _ => None,
                }),
    {
        match &self.values {
            ColumnValues::I64(data) => Some(self.read_i64(data)),
            _ => None,
        }
    }

    fn read_i64(&self, data: &Vec<i64>) -> (r: Vec<Option<i64>>)
        requires
            self.wf(),
            self.spec_values() == ColumnValues::I64(*data),
        ensures
            r@.len() == self.cells().len(),
            forall|q: int|
                0 <= q < r@.len() ==> r@[q] == (match self.cells()[q] {
                    Some(CellV::I(x)) => Some(x),
                    _ => None,
                }),
    {
        let mut out: Vec<Option<i64>> = Vec::new();
        let mut q: usize = 0;
        let mut vi: usize = 0;
        while q < self.row_count
            invariant
                self.wf(),
                self.spec_values() == ColumnValues::I64(*data),
                q <= self.row_count,
                vi == valid_before(self.mask_view(), q as int),
                out@.len() == q,
                forall|p: int|
                    0 <= p < q ==> out@[p] == (match self.cells()[p] {
                        Some(CellV::I(x)) => Some(x),
                        _ => None,
                    }),
            decreases self.row_count - q,
        {
            proof {
                lemma_valid_before_monotone(self.mask_view(), q as int, self.row_count as int);
            }
            if self.is_row_null(q) {
                out.push(None);
            } else {
                proof {
                    lemma_valid_before_monotone(
                        self.mask_view(),
                        q as int + 1,
                        self.row_count as int,
                    );
                }
                out.push(Some(data[vi]));
                vi = vi + 1;
            }
            q = q + 1;
        }
        out
    }

    /// The unsigned values row by row, nulls included, where this
    /// column holds unsigned integers.
    pub fn u64_values(&self) -> (r: Option<Vec<Option<u64>>>)
        requires
            self.wf(),
        ensures
            (r is Some) == (self.spec_values() is U64),
            r matches Some(v) ==> v@.len() == self.cells().len() && forall|q: int|
                0 <= q < v@.len() ==> v@[q] == (match self.cells()[q] {
                    Some(CellV::U(x)) => Some(x),
                    _ => None,
                }),
    {
        match &self.values {
            ColumnValues::U64(data) => Some(self.read_u64(data)),
            _ => None,
        }
    }

    fn read_u64(&self, data: &Vec<u64>) -> (r: Vec<Option<u64>>)
        requires
            self.wf(),
            self.spec_values() == ColumnValues::U64(*data),
        ensures
            r@.len() == self.cells().len(),
            forall|q: int|
                0 <= q < r@.len() ==> r@[q] == (match self.cells()[q] {
                    Some(CellV::U(x)) => Some(x),
                    _ => None,
                }),
    {
        let mut out: Vec<Option<u64>> = Vec::new();
        let mut q: usize = 0;
        let mut vi: usize = 0;
        while q < self.row_count
            invariant
                self.wf(),
                self.spec_values() == ColumnValues::U64(*data),
                q <= self.row_count,
                vi == valid_before(self.mask_view(), q as int),
                out@.len() == q,
                forall|p: int|
                    0 <= p < q ==> out@[p] == (match self.cells()[p] {
                        Some(CellV::U(x)) => Some(x),
                        _ => None,
                    }),
            decreases self.row_count - q,
        {
            proof {
                lemma_valid_before_monotone(self.mask_view(), q as int, self.row_count as int);
            }
            if self.is_row_null(q) {
                out.push(None);
            } else {
                proof {
                    lemma_valid_before_monotone(
                        self.mask_view(),
                        q as int + 1,
                        self.row_count as int,
                    );
                }
                out.push(Some(data[vi]));
                vi = vi + 1;
            }
            q = q + 1;
        }
        out
    }

    /// The double bit patterns row by row, nulls included, where this
    /// column holds doubles.
    pub fn f64_values(&self) -> (r: Option<Vec<Option<u64>>>)
        requires
            self.wf(),
        ensures
            (r is Some) == (self.spec_values() is F64),
            r matches Some(v) ==> v@.len() == self.cells().len() && forall|q: int|
                0 <= q < v@.len() ==> v@[q] == (match self.cells()[q] {
                    Some(CellV::F(x)) => Some(x),
                    _ => None,
                }),
    {
        match &self.values {
            ColumnValues::F64(data) => Some(self.read_f64(data)),
            _ => None,
        }
    }

    fn read_f64(&self, data: &Vec<u64>) -> (r: Vec<Option<u64>>)
        requires
            self.wf(),
            self.spec_values() == ColumnValues::F64(*data),
        ensures
            r@.len() == self.cells().len(),
            forall|q: int|
                0 <= q < r@.len() ==> r@[q] == (match self.cells()[q] {
                    Some(CellV::F(x)) => Some(x),
                    _ => None,
                }),
    {
        let mut out: Vec<Option<u64>> = Vec::new();
        let mut q: usize = 0;
        let mut vi: usize = 0;
        while q < self.row_count
            invariant
                self.wf(),
                self.spec_values() == ColumnValues::F64(*data),
                q <= self.row_count,
                vi == valid_before(self.mask_view(), q as int),
                out@.len() == q,
                forall|p: int|
                    0 <= p < q ==> out@[p] == (match self.cells()[p] {
                        Some(CellV::F(x)) => Some(x),
                        _ => None,
                    }),
            decreases self.row_count - q,
        {
            proof {
                lemma_valid_before_monotone(self.mask_view(), q as int, self.row_count as int);
            }
            if self.is_row_null(q) {
                out.push(None);
            } else {
                proof {
                    lemma_valid_before_monotone(
                        self.mask_view(),
                        q as int + 1,
                        self.row_count as int,
                    );
                }
                out.push(Some(data[vi]));
                vi = vi + 1;
            }
            q = q + 1;
        }
        out
    }

    /// The strings row by row, nulls included, where this column holds
    /// strings (a tag or a string field).
    pub fn string_values(&self) -> (r: Option<Vec<Option<String>>>)
        requires
            self.wf(),
        ensures
            (r is Some) == (self.spec_values() is Str),
            r matches Some(v) ==> v@.len() == self.cells().len() && forall|q: int|
                0 <= q < v@.len() ==> (match (#[trigger] v@[q], self.cells()[q]) {
                    (Some(s), Some(CellV::S(x))) => s@ == x,
                    (None, None) => true,
                    _ => false,
                }),
    {
        match &self.values {
            ColumnValues::Str(data) => Some(self.read_strings(data)),
            _ => None,
        }
    }

    fn read_strings(&self, data: &Vec<String>) -> (r: Vec<Option<String>>)
        requires
            self.wf(),
            self.spec_values() == ColumnValues::Str(*data),
        ensures
            r@.len() == self.cells().len(),
            forall|q: int|
                0 <= q < r@.len() ==> (match (#[trigger] r@[q], self.cells()[q]) {
                    (Some(s), Some(CellV::S(x))) => s@ == x,
                    (None, None) => true,
                    _ => false,
                }),
    {
        let mut out: Vec<Option<String>> = Vec::new();
        let mut q: usize = 0;
        let mut vi: usize = 0;
        while q < self.row_count
            invariant
                self.wf(),
                self.spec_values() == ColumnValues::Str(*data),
                q <= self.row_count,
                vi == valid_before(self.mask_view(), q as int),
                out@.len() == q,
                forall|p: int|
                    0 <= p < q ==> (match (#[trigger] out@[p], self.cells()[p]) {
                        (Some(s), Some(CellV::S(x))) => s@ == x,
                        (None, None) => true,
                        _ => false,
                    }),
            decreases self.row_count - q,
        {
            proof {
                lemma_valid_before_monotone(self.mask_view(), q as int, self.row_count as int);
            }
            if self.is_row_null(q) {
                out.push(None);
            } else {
                proof {
                    lemma_valid_before_monotone(
                        self.mask_view(),
                        q as int + 1,
                        self.row_count as int,
                    );
                }
                out.push(Some(data[vi].as_str().to_owned()));
                vi = vi + 1;
            }
            q = q + 1;
        }
        out
    }

    /// The booleans row by row, nulls included, where this column holds
    /// booleans.
    pub fn bool_values(&self) -> (r: Option<Vec<Option<bool>>>)
        requires
            self.wf(),
        ensures
            (r is Some) == (self.spec_values() is Bool),
            r matches Some(v) ==> v@.len() == self.cells().len() && forall|q: int|
                0 <= q < v@.len() ==> v@[q] == (match self.cells()[q] {
                    Some(CellV::B(x)) => Some(x),
                    _ => None,
                }),
    {
        match &self.values {
            ColumnValues::Bool(data) => {
                let mut it = BoolIterator {
                    row_count: self.row_count,
                    position: 0,
                    null_mask: match &self.null_mask {
                        Some(m) => Some(m),
                        None => None,
                    },
                    values: data,
                    value_position: 0,
                };
                proof {
                    assert(it.mask_view() == self.mask_view());
                }
                let mut out: Vec<Option<bool>> = Vec::new();
                loop
                    invariant
                        self.wf(),
                        self.spec_values() == ColumnValues::Bool(*data),
                        it.values == data,
                        it.row_count == self.row_count,
                        it.mask_view() == self.mask_view(),
                        it.wf(),
                        it.position <= it.row_count,
                        out@.len() == it.position,
                        forall|p: int|
                            0 <= p < it.position ==> out@[p] == (match self.cells()[p] {
                                Some(CellV::B(x)) => Some(x),
                                _ => None,
                            }),
                    decreases it.row_count - it.position,
                {
                    proof {
                        lemma_valid_before_monotone(
                            self.mask_view(),
                            it.position as int,
                            self.row_count as int,
                        );
                    }
                    match it.next() {
                        Some(v) => out.push(v),
                        None => {
                            return Some(out);
                        },
                    }
                }
            },
            _ => None,
        }
    }

    /// The number of values this column carries.
    pub(crate) fn values_count(&self) -> (r: usize)
        ensures
            r == values_len(self.spec_values()),
    {
        match &self.values {
            ColumnValues::Bool(d) => d.len(),
            ColumnValues::I64(d) => d.len(),
            ColumnValues::U64(d) => d.len(),
            ColumnValues::F64(d) => d.len(),
            ColumnValues::Str(d) => d.len(),
        }
    }

    /// The number of non-null rows the declared count and mask admit.
    pub(crate) fn valid_count(&self) -> (r: usize)
        requires
            self.spec_row_count() < usize::MAX,
        ensures
            r == valid_before(self.mask_view(), self.spec_row_count()),
    {
        let mut q: usize = 0;
        let mut n: usize = 0;
        while q < self.row_count
            invariant
                self.spec_row_count() < usize::MAX,
                q <= self.spec_row_count(),
                n as int == valid_before(self.mask_view(), q as int),
                n <= q,
            decreases self.spec_row_count() - q,
        {
            if !self.is_row_null(q) {
                n = n + 1;
            }
            q = q + 1;
        }
        n
    }

    /// Whether 0-based row `q` is null, read from the mask.
    fn is_row_null(&self, q: usize) -> (r: bool)
        requires
            q < usize::MAX,
        ensures
            r == self.row_null(q as int),
    {
        let mask: Option<&[u8]> = match &self.null_mask {
            Some(m) => Some(m.as_slice()),
            None => None,
        };
        is_null_value(q + 1, &mask)
    }
}

/// Walks the rows of a boolean batch column, handing out one optional
/// value per row.
pub struct BoolIterator<'a> {
    pub row_count: usize,
    pub position: usize,
    pub null_mask: Option<&'a Vec<u8>>,
    pub values: &'a Vec<bool>,
    pub value_position: usize,
}

impl<'a> BoolIterator<'a> {
    /// The mask bytes this iterator reads.
    pub open spec fn mask_view(&self) -> Option<Seq<u8>> {
        match self.null_mask {
            Some(m) => Some(m@),
            None => None,
        }
    }

    /// The iterator's value cursor always sits at the count of non-null
    /// rows already passed.
    pub open spec fn wf(&self) -> bool {
        &&& self.value_position == valid_before(self.mask_view(), self.position as int)
        &&& valid_before(self.mask_view(), self.row_count as int) <= self.values@.len()
    }

    /// The next row's value: nothing when the rows are exhausted, a null
    /// marker for a null row, else the row's boolean.
    pub fn next(&mut self) -> (r: Option<Option<bool>>)
        requires
            old(self).wf(),
            old(self).position <= old(self).row_count,
        ensures
            final(self).wf(),
            final(self).row_count == old(self).row_count,
            final(self).values == old(self).values,
            final(self).mask_view() == old(self).mask_view(),
            old(self).position == old(self).row_count ==> r is None && *final(self) == *old(self),
            old(self).position < old(self).row_count ==> {
                &&& final(self).position == old(self).position + 1
                &&& r == Some(
                    if spec_is_null_value(old(self).position + 1, old(self).mask_view()) {
                        None
                    } else {
                        Some(old(self).values@[valid_before(
                            old(self).mask_view(),
                            old(self).position as int,
                        )])
                    },
                )
            },
    {
        if self.position >= self.row_count {
            return None;
        }

        proof {
            lemma_valid_before_monotone(
                self.mask_view(),
                self.position as int,
                self.row_count as int,
            );
        }

        self.position = self.position + 1;
        let mask: Option<&[u8]> = match &self.null_mask {
            Some(m) => Some(m.as_slice()),
            None => None,
        };
        if is_null_value(self.position, &mask) {
            return Some(None);
        }

        proof {
            lemma_valid_before_monotone(
                self.mask_view(),
                self.position as int,
                self.row_count as int,
            );
        }
        let total = self.values.len();
        proof {
            assert(valid_before(self.mask_view(), self.position as int) == self.value_position
                + 1);
            assert(self.value_position < total);
        }
        let val = Some(self.values[self.value_position]);
        self.value_position = self.value_position + 1;

        Some(val)
    }
}

/// One table's columns within a partitioned write, all covering the
/// same rows.
#[derive(Debug)]
pub struct TableBatch {
    pub(crate) name: String,
    pub(crate) columns: Vec<Column>,
}

/// Set bits of `b` among its lowest `k`.
pub open spec fn bits_set(b: u8, k: int) -> int
    decreases k,
{
    if k <= 0 {
        0
    } else {
        bits_set(b, k - 1) + (if b & (1u8 << ((k - 1) as u8)) != 0 {
            1int
        } else {
            0int
        })
    }
}

/// Total set bits across mask bytes.
pub open spec fn mask_ones(m: Seq<u8>) -> int
    decreases m.len(),
{
    if m.len() == 0 {
        0
    } else {
        mask_ones(m.drop_last()) + bits_set(m.last(), 8)
    }
}

/// What the row-count reading computes for a batch: the first column's
/// null count plus its value count, or zero for an empty batch.
pub open(crate) spec fn spec_batch_row_count(b: TableBatch) -> int {
    if b.columns@.len() == 0 {
        0
    } else {
        let c = b.columns@[0];
        (match c.mask_view() {
            Some(m) => mask_ones(m),
            None => 0,
        }) + values_len(c.spec_values())
    }
}

impl TableBatch {
    /// A batch from its parts: the table name and one typed column per
    /// written attribute.
    pub fn new(name: String, columns: Vec<Column>) -> (r: TableBatch)
        ensures
            r.spec_name() == name@,
            r.spec_columns() == columns@,
    {
        TableBatch { name, columns }
    }

    /// The table this batch writes to.
    pub open(crate) spec fn spec_name(&self) -> Seq<char> {
        self.name@
    }

    /// The batch's columns.
    pub open(crate) spec fn spec_columns(&self) -> Seq<Column> {
        self.columns@
    }

    pub fn name(&self) -> (r: &str)
        ensures
            r@ == self.spec_name(),
    {
        self.name.as_str()
    }

    pub fn columns(&self) -> (r: &Vec<Column>)
        ensures
            r@ == self.spec_columns(),
    {
        &self.columns
    }

    /// Derives the row count from the first column: its null count plus
    /// its value count.
    pub fn row_count(&self) -> (r: usize)
        requires
            spec_batch_row_count(*self) <= usize::MAX,
        ensures
            r == spec_batch_row_count(*self),
    {
        if self.columns.len() == 0 {
            return 0;
        }
        let c = &self.columns[0];
        let null_count: usize = match &c.null_mask {
            Some(m) => count_mask_ones(m),
            None => 0,
        };
        let value_count: usize = match &c.values {
            ColumnValues::Bool(d) => d.len(),
            ColumnValues::I64(d) => d.len(),
            ColumnValues::U64(d) => d.len(),
            ColumnValues::F64(d) => d.len(),
            ColumnValues::Str(d) => d.len(),
        };
        null_count + value_count
    }
}

/// Counts the set bits of one byte.
fn count_byte_ones(b: u8) -> (r: u8)
    ensures
        r == bits_set(b, 8),
        r <= 8,
{
    let mut k: usize = 0;
    let mut n: u8 = 0;
    while k < 8
        invariant
            k <= 8,
            n == bits_set(b, k as int),
            n <= k,
        decreases 8 - k,
    {
        if b & (1u8 << (k as u8)) != 0 {
            n = n + 1;
        }
        k = k + 1;
    }
    n
}

/// Counts the set bits of a mask.
fn count_mask_ones(m: &Vec<u8>) -> (r: usize)
    requires
        mask_ones(m@) <= usize::MAX,
    ensures
        r == mask_ones(m@),
{
    let mut i: usize = 0;
    let mut n: usize = 0;
    while i < m.len()
        invariant
            i <= m@.len(),
            n == mask_ones(m@.take(i as int)),
            mask_ones(m@) <= usize::MAX,
        decreases m@.len() - i,
    {
        proof {
            assert(m@.take(i + 1).drop_last() =~= m@.take(i as int));
            assert(m@.take(i + 1).last() == m@[i as int]);
            lemma_mask_ones_bounds(m@, i as int);
        }
        n = n + (count_byte_ones(m[i]) as usize);
        i = i + 1;
    }
    proof {
        assert(m@.take(m@.len() as int) =~= m@);
    }
    n
}

/// Prefix counts of set bits never exceed the total.
proof fn lemma_mask_ones_bounds(m: Seq<u8>, i: int)
    requires
        0 <= i < m.len(),
    ensures
        mask_ones(m.take(i)) + bits_set(m[i], 8) <= mask_ones(m),
        mask_ones(m.take(i)) >= 0,
        bits_set(m[i], 8) >= 0,
    decreases m.len(),
{
    lemma_bits_set_bounds(m[i], 8);
    lemma_mask_ones_nonneg(m.take(i));
    if i == m.len() - 1 {
        assert(m.take(i) =~= m.drop_last());
    } else {
        lemma_mask_ones_bounds(m.drop_last(), i);
        lemma_bits_set_bounds(m.last(), 8);
        assert(m.drop_last().take(i) =~= m.take(i));
        assert(m.drop_last()[i] == m[i]);
    }
}

proof fn lemma_bits_set_bounds(b: u8, k: int)
    ensures
        0 <= bits_set(b, k) <= (if k >= 0 {
            k
        } else {
            0
        }),
    decreases (if k >= 0 {
        k
    } else {
        0
    }),
{
    if k > 0 {
        lemma_bits_set_bounds(b, k - 1);
    }
}

proof fn lemma_mask_ones_nonneg(m: Seq<u8>)
    ensures
        mask_ones(m) >= 0,
    decreases m.len(),
{
    if m.len() > 0 {
        lemma_mask_ones_nonneg(m.drop_last());
        lemma_bits_set_bounds(m.last(), 8);
    }
}

/// One partition's table batches within an entry.
#[derive(Debug)]
pub struct PartitionWrite {
    pub(crate) key: String,
    pub(crate) table_batches: Vec<TableBatch>,
}

impl PartitionWrite {
    /// The partition key these batches land in.
    pub open(crate) spec fn spec_key(&self) -> Seq<char> {
        self.key@
    }

    /// The batches, one table each.
    pub open(crate) spec fn spec_table_batches(&self) -> Seq<TableBatch> {
        self.table_batches@
    }

    pub fn key(&self) -> (r: &str)
        ensures
            r@ == self.spec_key(),
    {
        self.key.as_str()
    }

    pub fn table_batches(&self) -> (r: &Vec<TableBatch>)
        ensures
            r@ == self.spec_table_batches(),
    {
        &self.table_batches
    }

    /// Takes the table batches out of the write.
    pub fn into_table_batches(self) -> (r: Vec<TableBatch>)
        ensures
            r@ == self.spec_table_batches(),
    {
        self.table_batches
    }
}

/// One decoded write entry: the writes it makes, grouped by partition.
#[derive(Debug)]
pub struct Entry {
    pub(crate) partition_writes: Vec<PartitionWrite>,
}

impl Entry {
    /// The partitioned writes this entry carries.
    pub open(crate) spec fn spec_partition_writes(&self) -> Seq<PartitionWrite> {
        self.partition_writes@
    }

    pub fn partition_writes(&self) -> (r: Option<&Vec<PartitionWrite>>)
        ensures
            match r {
                Some(w) => w@ == self.spec_partition_writes(),
                None => false,
            },
    {
        Some(&self.partition_writes)
    }

    /// Takes the partitioned writes out of the entry.
    pub fn into_partition_writes(self) -> (r: Vec<PartitionWrite>)
        ensures
            r@ == self.spec_partition_writes(),
    {
        self.partition_writes
    }
}

/// An entry routed to one shard, or to no shard where sharding is off.
#[derive(Debug)]
pub struct ShardedEntry {
    pub shard_id: Option<ShardId>,
    pub entry: Entry,
}

/// An entry stamped by the write buffer with a clock value and the
/// writer that produced it.
#[derive(Debug)]
pub struct SequencedEntry {
    pub(crate) clock_value: ClockValue,
    pub(crate) writer_id: WriterId,
    pub(crate) entry: Option<Entry>,
}

impl SequencedEntry {
    /// The stamped clock value.
    pub open(crate) spec fn spec_clock_value(&self) -> ClockValue {
        self.clock_value
    }

    /// The stamped writer.
    pub open(crate) spec fn spec_writer_id(&self) -> WriterId {
        self.writer_id
    }

    /// The entry the stamp covers, where one was attached.
    pub open(crate) spec fn spec_entry(&self) -> Option<Entry> {
        self.entry
    }

    /// Stamps an entry with a clock value and a writer.
    pub fn new_from_entry(clock_value: ClockValue, writer_id: WriterId, entry: Entry) -> (r: Self)
        ensures
            r.spec_clock_value() == clock_value,
            r.spec_writer_id() == writer_id,
            r.spec_entry() == Some(entry),
    {
        SequencedEntry { clock_value, writer_id, entry: Some(entry) }
    }

    pub fn partition_writes(&self) -> (r: Option<&Vec<PartitionWrite>>)
        ensures
            match r {
                Some(w) => self.spec_entry() matches Some(e) && w@ == e.spec_partition_writes(),
                None => self.spec_entry() is None,
            },
    {
        match &self.entry {
            Some(e) => Some(&e.partition_writes),
            None => None,
        }
    }

    pub fn clock_value(&self) -> (r: ClockValue)
        ensures
            r == self.spec_clock_value(),
    {
        self.clock_value
    }

    pub fn writer_id(&self) -> (r: WriterId)
        ensures
            r == self.spec_writer_id(),
    {
        self.writer_id
    }
}

} // verus!
