//! Building write entries out of parsed lines.
//!
//! Parsed lines are grouped by shard, partition key and table, and each
//! table's lines become one typed column batch: tags, fields and the
//! timestamp of each line land in their columns, with null flags for
//! the columns a line does not mention. Sharding and partitioning are
//! the caller's policies, supplied as traits.

use crate::entry::{
    CellV, Column as EntryColumn, ColumnValues, Entry, FieldValue, Line, PartitionWrite, ShardId,
    ShardedEntry, TableBatch,
};
use crate::nullmask::NullMaskBuilder;
use crate::schema::{InfluxColumnType, InfluxFieldType};
use crate::strcmp::chars_lt;
use vstd::prelude::*;
use vstd::string::StringExecFns;

verus! {

/// A type clash on one column of a batch under construction.
#[derive(Debug)]
pub enum ColumnError {
    /// The value's kind differs from what the column already holds.
    ColumnTypeMismatch { new_type: String, expected_type: String },
}

/// An error of entry building.
#[derive(Debug)]
pub enum Error {
    /// A line gives a column a type another line already contradicted.
    TableColumnTypeMismatch {
        table: String,
        column: String,
        line_number: usize,
        source: ColumnError,
    },
    /// The sharder could not place a line.
    GeneratingShardId { message: String },
    /// The partitioner could not key a line.
    GeneratingPartitionKey { message: String },
}

/// The wire-format word for a builder's kind.
fn kind_description(v: &BuilderValues) -> &'static str {
    match v {
        BuilderValues::Tag(_) => "tag",
        BuilderValues::Time(_) => "time",
        BuilderValues::I64(_) => "i64",
        BuilderValues::F64(_) => "f64",
        BuilderValues::U64(_) => "u64",
        BuilderValues::Str(_) => "string",
        BuilderValues::Bool(_) => "bool",
    }
}

/// The wire-format word for a field value's kind.
fn field_kind_description(v: &FieldValue) -> &'static str {
    match v {
        FieldValue::Boolean(_) => "bool",
        FieldValue::I64(_) => "i64",
        FieldValue::U64(_) => "u64",
        FieldValue::F64(_) => "f64",
        FieldValue::Str(_) => "string",
    }
}

/// A policy that routes each line to a shard.
pub trait Sharder {
    /// The shard the line belongs on.
    fn shard(&mut self, line: &Line) -> Result<ShardId, String>;
}

/// A policy that assigns each line a partition key. `default_time` is
/// the timestamp, in nanoseconds, to use for lines that carry none.
pub trait Partitioner {
    /// The partition key the line belongs under.
    fn partition_key(&mut self, line: &Line, default_time: i64) -> Result<String, String>;
}

/// Relies on chrono's UTC formatting: the hour key is a pure function
/// of the timestamp.
pub uninterp spec fn hour_key_chars(ts_nanos: i64) -> Seq<char>;

/// Relies on chrono: formats the timestamp's UTC hour as the partition
/// key.
#[verifier::external_body]
fn format_hour_key(ts_nanos: i64) -> (r: String)
    ensures
        r@ == hour_key_chars(ts_nanos),
{
    chrono::DateTime::<chrono::Utc>::from_timestamp_nanos(ts_nanos).format(
        "%Y-%m-%dT%H",
    ).to_string()
}

/// Relies on std::time::SystemTime for the wall clock; nothing is
/// assumed of the reading beyond it being some timestamp. Both sides of
/// the epoch are handled, saturating at the representable range, so no
/// clock state can abort.
#[verifier::external_body]
fn now_nanos() -> (r: i64) {
    match std::time::SystemTime::now().duration_since(std::time::UNIX_EPOCH) {
        Ok(d) => i64::try_from(d.as_nanos()).unwrap_or(i64::MAX),
        Err(e) => i64::try_from(e.duration().as_nanos()).map_or(i64::MIN, |n| -n),
    }
}

/// Partitions lines by the UTC hour of their timestamps.
#[derive(Debug)]
pub struct HourPartitioner {}

/// A partitioner that keys lines by the hour.
pub fn hour_partitioner() -> HourPartitioner {
    HourPartitioner {  }
}

impl Partitioner for HourPartitioner {
    fn partition_key(&mut self, line: &Line, default_time: i64) -> (r: Result<String, String>)
        ensures
            r matches Ok(key) && key@ == hour_key_chars(
                match line.timestamp {
                    Some(t) => t,
                    None => default_time,
                },
            ),
            *final(self) == *old(self),
    {
        let ts = match line.timestamp {
            Some(t) => t,
            None => default_time,
        };
        Ok(format_hour_key(ts))
    }
}

/// The decimal digit character of one digit value.
pub open spec fn digit_char(d: int) -> char {
    if d == 0 {
        '0'
    } else if d == 1 {
        '1'
    } else if d == 2 {
        '2'
    } else if d == 3 {
        '3'
    } else if d == 4 {
        '4'
    } else if d == 5 {
        '5'
    } else if d == 6 {
        '6'
    } else if d == 7 {
        '7'
    } else if d == 8 {
        '8'
    } else {
        '9'
    }
}

/// The decimal digits of a byte-sized number.
pub open spec fn dec_chars(n: int) -> Seq<char> {
    if n < 10 {
        seq![digit_char(n)]
    } else if n < 100 {
        seq![digit_char(n / 10), digit_char(n % 10)]
    } else {
        seq![digit_char(n / 100), digit_char((n / 10) % 10), digit_char(n % 10)]
    }
}

/// One decimal digit as a string.
fn digit_str(d: u8) -> (r: &'static str)
    requires
        d < 10,
    ensures
        r@ == seq![digit_char(d as int)],
{
    proof {
        reveal_strlit("0");
        reveal_strlit("1");
        reveal_strlit("2");
        reveal_strlit("3");
        reveal_strlit("4");
        reveal_strlit("5");
        reveal_strlit("6");
        reveal_strlit("7");
        reveal_strlit("8");
        reveal_strlit("9");
    }
    let r = match d {
        0 => "0",
        1 => "1",
        2 => "2",
        3 => "3",
        4 => "4",
        5 => "5",
        6 => "6",
        7 => "7",
        8 => "8",
        _ => "9",
    };
    proof {
        assert(r@ =~= seq![digit_char(d as int)]);
    }
    r
}

/// A byte-sized number in decimal.
fn dec_string(n: u8) -> (r: String)
    ensures
        r@ == dec_chars(n as int),
{
    let mut s = String::new();
    if n >= 100 {
        s.append(digit_str(n / 100));
        s.append(digit_str((n / 10) % 10));
        s.append(digit_str(n % 10));
        proof {
            assert(s@ =~= dec_chars(n as int));
        }
    } else if n >= 10 {
        s.append(digit_str(n / 10));
        s.append(digit_str(n % 10));
        proof {
            assert(s@ =~= dec_chars(n as int));
        }
    } else {
        s.append(digit_str(n));
        proof {
            assert(s@ =~= dec_chars(n as int));
        }
    }
    s
}

/// A partitioner for tests: keys lines round-robin as `key_0`,
/// `key_1` and so on, up to the given count.
#[derive(Debug)]
pub struct TestPartitioner {
    pub count: u8,
    pub n: u8,
}

/// A test partitioner handing out keys from a rotating counter.
pub fn partitioner(count: u8) -> (r: TestPartitioner)
    ensures
        r.count == count,
        r.n == 0,
{
    TestPartitioner { count, n: 0 }
}

impl Partitioner for TestPartitioner {
    fn partition_key(&mut self, _line: &Line, _default_time: i64) -> (r: Result<String, String>)
        ensures
            r matches Ok(key) && key@ == "key_"@ + dec_chars(
                if old(self).count == 0 {
                    0int
                } else {
                    (old(self).n % old(self).count) as int
                },
            ),
            final(self).count == old(self).count,
            final(self).n == (if old(self).n == u8::MAX {
                0u8
            } else {
                (old(self).n + 1) as u8
            }),
    {
        let d = if self.count == 0 {
            0
        } else {
            self.n % self.count
        };
        self.n = if self.n == u8::MAX {
            0
        } else {
            self.n + 1
        };
        let mut key = String::from_str("key_");
        proof {
            reveal_strlit("key_");
        }
        key.append(dec_string(d).as_str());
        Ok(key)
    }
}

/// A sharder for tests: assigns shard ids round-robin from a counter.
#[derive(Debug)]
pub struct TestSharder {
    pub count: ShardId,
    pub n: ShardId,
}

/// A test sharder that rotates through `count` shard ids.
pub fn sharder(count: ShardId) -> (r: Option<TestSharder>)
    ensures
        r matches Some(s) && s.count == count && s.n == 0,
{
    Some(TestSharder { count, n: 0 })
}

impl Sharder for TestSharder {
    fn shard(&mut self, _line: &Line) -> (r: Result<ShardId, String>)
        ensures
            r matches Ok(id) && id == (if old(self).count == 0 {
                0u32
            } else {
                old(self).n % old(self).count
            }),
            final(self).count == old(self).count,
            final(self).n == (if old(self).n == u32::MAX {
                0u32
            } else {
                (old(self).n + 1) as u32
            }),
    {
        let id = if self.count == 0 {
            0
        } else {
            self.n % self.count
        };
        self.n = if self.n == u32::MAX {
            0
        } else {
            self.n + 1
        };
        Ok(id)
    }
}

/// One column under construction: its null flags and its values.
pub(crate) struct ColBuilder {
    pub(crate) nulls: NullMaskBuilder,
    pub(crate) values: BuilderValues,
}

/// The typed values a column gathers while lines stream in.
pub(crate) enum BuilderValues {
    Tag(Vec<String>),
    Time(Vec<i64>),
    I64(Vec<i64>),
    F64(Vec<u64>),
    U64(Vec<u64>),
    Str(Vec<String>),
    Bool(Vec<bool>),
}

/// The logical type a builder is gathering.
fn builder_type(v: &BuilderValues) -> (r: InfluxColumnType)
    ensures
        r == spec_builder_type(*v),
{
    match v {
        BuilderValues::Tag(_) => InfluxColumnType::Tag,
        BuilderValues::Time(_) => InfluxColumnType::Timestamp,
        BuilderValues::I64(_) => InfluxColumnType::Field(InfluxFieldType::Integer),
        BuilderValues::F64(_) => InfluxColumnType::Field(InfluxFieldType::Float),
        BuilderValues::U64(_) => InfluxColumnType::Field(InfluxFieldType::UInteger),
        BuilderValues::Str(_) => InfluxColumnType::Field(InfluxFieldType::Str),
        BuilderValues::Bool(_) => InfluxColumnType::Field(InfluxFieldType::Boolean),
    }
}

/// The logical type a builder is gathering.
pub(crate) open spec fn spec_builder_type(v: BuilderValues) -> InfluxColumnType {
    match v {
        BuilderValues::Tag(_) => InfluxColumnType::Tag,
        BuilderValues::Time(_) => InfluxColumnType::Timestamp,
        BuilderValues::I64(_) => InfluxColumnType::Field(InfluxFieldType::Integer),
        BuilderValues::F64(_) => InfluxColumnType::Field(InfluxFieldType::Float),
        BuilderValues::U64(_) => InfluxColumnType::Field(InfluxFieldType::UInteger),
        BuilderValues::Str(_) => InfluxColumnType::Field(InfluxFieldType::Str),
        BuilderValues::Bool(_) => InfluxColumnType::Field(InfluxFieldType::Boolean),
    }
}

/// How many values a builder holds.
pub(crate) open spec fn builder_values_len(v: BuilderValues) -> int {
    match v {
        BuilderValues::Tag(d) => d.len() as int,
        BuilderValues::Time(d) => d.len() as int,
        BuilderValues::I64(d) => d.len() as int,
        BuilderValues::F64(d) => d.len() as int,
        BuilderValues::U64(d) => d.len() as int,
        BuilderValues::Str(d) => d.len() as int,
        BuilderValues::Bool(d) => d.len() as int,
    }
}

/// Counting set flags only reads the first `r` positions.
proof fn lemma_trues_prefix(a: Seq<bool>, b: Seq<bool>, r: int)
    requires
        0 <= r,
        r <= a.len(),
        r <= b.len(),
        forall|i: int| 0 <= i < r ==> a[i] == b[i],
    ensures
        crate::column::trues_upto(a, r) == crate::column::trues_upto(b, r),
    decreases r,
{
    if r > 0 {
        lemma_trues_prefix(a, b, r - 1);
    }
}

impl ColBuilder {
    /// A builder holds one value per non-null row recorded so far.
    pub(crate) open spec fn wf(&self) -> bool {
        &&& self.nulls.wf()
        &&& builder_values_len(self.values) == self.nulls@.len() - crate::column::trues_upto(
            self.nulls@,
            self.nulls@.len() as int,
        )
    }

    /// Rows recorded so far.
    pub(crate) open spec fn rows(&self) -> int {
        self.nulls@.len() as int
    }

    /// The cells gathered so far: one optional value per row.
    pub(crate) open spec fn cells(&self) -> Seq<Option<CellV>> {
        Seq::new(
            self.nulls@.len(),
            |r: int|
                if self.nulls@[r] {
                    None
                } else {
                    Some(
                        builder_value_cell(
                            self.values,
                            r - crate::column::trues_upto(self.nulls@, r),
                        ),
                    )
                },
        )
    }

    /// Rows recorded so far.
    fn row_count(&self) -> (r: usize)
        requires
            self.wf(),
            self.rows() <= usize::MAX - 8,
        ensures
            r == self.rows(),
    {
        self.nulls.row_count()
    }

    /// A fresh builder of the given kind.
    fn new_of(values: BuilderValues) -> (r: ColBuilder)
        requires
            builder_values_len(values) == 0,
        ensures
            r.wf(),
            r.rows() == 0,
            r.values == values,
            r.cells() == Seq::<Option<CellV>>::empty(),
    {
        let r = ColBuilder { nulls: NullMaskBuilder::new(), values };
        proof {
            crate::column::lemma_trues_upto_bounds(r.nulls@, 0, 0);
            assert(r.cells() =~= Seq::<Option<CellV>>::empty());
        }
        r
    }

    /// Pads the column with nulls up to `target` rows; a no-op when
    /// already there or beyond.
    fn pad_to(&mut self, target: usize)
        requires
            old(self).wf(),
            old(self).rows() <= usize::MAX - 8,
            target <= usize::MAX - 8,
        ensures
            final(self).wf(),
            final(self).values == old(self).values,
            final(self).rows() == (if old(self).rows() >= target {
                old(self).rows()
            } else {
                target as int
            }),
            final(self).cells() == old(self).cells() + Seq::new(
                (final(self).rows() - old(self).rows()) as nat,
                |q: int| None::<CellV>,
            ),
    {
        proof {
            assert(old(self).cells() + Seq::new(0nat, |q: int| None::<CellV>) =~= old(
                self,
            ).cells());
        }
        let mut rows = self.nulls.row_count();
        while rows < target
            invariant
                self.wf(),
                rows == self.rows(),
                self.values == old(self).values,
                self.rows() <= usize::MAX - 8,
                target <= usize::MAX - 8,
                old(self).rows() >= target ==> rows == old(self).rows(),
                old(self).rows() < target ==> old(self).rows() <= rows <= target,
                self.cells() == old(self).cells() + Seq::new(
                    (self.rows() - old(self).rows()) as nat,
                    |q: int| None::<CellV>,
                ),
            decreases target - rows,
        {
            let ghost prev = self.nulls@;
            let ghost prev_cells = self.cells();
            self.nulls.push(true);
            proof {
                lemma_trues_prefix(self.nulls@, prev, prev.len() as int);
                assert(crate::column::trues_upto(self.nulls@, self.nulls@.len() as int)
                    == crate::column::trues_upto(prev, prev.len() as int) + 1);
                assert forall|r: int| 0 <= r < prev.len() implies self.cells()[r]
                    == prev_cells[r] by {
                    lemma_trues_prefix(self.nulls@, prev, r);
                }
                assert(self.cells() =~= prev_cells.push(None));
                assert(self.cells() =~= old(self).cells() + Seq::new(
                    (self.rows() - old(self).rows()) as nat,
                    |q: int| None::<CellV>,
                ));
            }
            rows = rows + 1;
        }
    }

    /// Records one non-null row.
    proof fn lemma_push_valid(prev: Seq<bool>)
        ensures
            crate::column::trues_upto(prev.push(false), prev.push(false).len() as int)
                == crate::column::trues_upto(prev, prev.len() as int),
    {
        lemma_trues_prefix(prev.push(false), prev, prev.len() as int);
    }

    /// Appends a tag value at the given row; reports whether this
    /// builder is a tag column. A row that already has a value keeps
    /// it.
    fn push_tag_row(&mut self, value: &str, row: usize) -> (ok: bool)
        requires
            old(self).wf(),
            row + 9 <= usize::MAX,
            old(self).rows() == row || old(self).rows() == row + 1,
        ensures
            final(self).wf(),
            spec_builder_type(final(self).values) == spec_builder_type(old(self).values),
            ok == (old(self).values is Tag),
            row <= final(self).rows() <= row + 1,
            !ok ==> *final(self) == *old(self),
            ok && old(self).rows() == row + 1 ==> *final(self) == *old(self),
            ok && old(self).rows() == row ==> final(self).cells() == old(self).cells().push(
                Some(CellV::S(value@)),
            ) && final(self).rows() == row + 1,
    {
        let mut pushed = false;
        let ok = match &mut self.values {
            BuilderValues::Tag(vals) => {
                if self.nulls.row_count() == row {
                    vals.push(value.to_owned());
                    self.nulls.push(false);
                    pushed = true;
                }
                true
            },
            _ => false,
        };
        proof {
            if pushed {
                Self::lemma_push_valid(old(self).nulls@);
                Self::lemma_cells_after_push(*old(self), *self, CellV::S(value@));
            }
        }
        ok
    }

    /// Appends a field value at the given row; reports whether the
    /// kinds agree. A row that already has a value keeps it.
    fn push_field_row(&mut self, value: &FieldValue, row: usize) -> (ok: bool)
        requires
            old(self).wf(),
            row + 9 <= usize::MAX,
            old(self).rows() == row || old(self).rows() == row + 1,
        ensures
            final(self).wf(),
            spec_builder_type(final(self).values) == spec_builder_type(old(self).values),
            ok == (match (old(self).values, *value) {
                (BuilderValues::Bool(_), FieldValue::Boolean(_)) => true,
                (BuilderValues::I64(_), FieldValue::I64(_)) => true,
                (BuilderValues::U64(_), FieldValue::U64(_)) => true,
                (BuilderValues::F64(_), FieldValue::F64(_)) => true,
                (BuilderValues::Str(_), FieldValue::Str(_)) => true,
                _ => false,
            }),
            row <= final(self).rows() <= row + 1,
            !ok ==> *final(self) == *old(self),
            ok && old(self).rows() == row + 1 ==> *final(self) == *old(self),
            ok && old(self).rows() == row ==> final(self).cells() == old(self).cells().push(
                Some(field_cell(*value)),
            ) && final(self).rows() == row + 1,
    {
        let mut pushed = false;
        let ok = match (&mut self.values, value) {
            (BuilderValues::Bool(vals), FieldValue::Boolean(v)) => {
                if self.nulls.row_count() == row {
                    vals.push(*v);
                    self.nulls.push(false);
                    pushed = true;
                }
                true
            },
            (BuilderValues::I64(vals), FieldValue::I64(v)) => {
                if self.nulls.row_count() == row {
                    vals.push(*v);
                    self.nulls.push(false);
                    pushed = true;
                }
                true
            },
            (BuilderValues::U64(vals), FieldValue::U64(v)) => {
                if self.nulls.row_count() == row {
                    vals.push(*v);
                    self.nulls.push(false);
                    pushed = true;
                }
                true
            },
            (BuilderValues::F64(vals), FieldValue::F64(v)) => {
                if self.nulls.row_count() == row {
                    vals.push(*v);
                    self.nulls.push(false);
                    pushed = true;
                }
                true
            },
            (BuilderValues::Str(vals), FieldValue::Str(v)) => {
                if self.nulls.row_count() == row {
                    vals.push(v.clone());
                    self.nulls.push(false);
                    pushed = true;
                }
                true
            },
            _ => false,
        };
        proof {
            if pushed {
                Self::lemma_push_valid(old(self).nulls@);
                Self::lemma_cells_after_push(*old(self), *self, field_cell(*value));
            }
        }
        ok
    }

    /// Appends a timestamp at the given row; reports whether this
    /// builder is the time column. A row that already has a value
    /// keeps it.
    fn push_time_row(&mut self, value: i64, row: usize) -> (ok: bool)
        requires
            old(self).wf(),
            row + 9 <= usize::MAX,
            old(self).rows() == row || old(self).rows() == row + 1,
        ensures
            final(self).wf(),
            spec_builder_type(final(self).values) == spec_builder_type(old(self).values),
            ok == (old(self).values is Time),
            row <= final(self).rows() <= row + 1,
            !ok ==> *final(self) == *old(self),
            ok && old(self).rows() == row + 1 ==> *final(self) == *old(self),
            ok && old(self).rows() == row ==> final(self).cells() == old(self).cells().push(
                Some(CellV::I(value)),
            ) && final(self).rows() == row + 1,
    {
        let mut pushed = false;
        let ok = match &mut self.values {
            BuilderValues::Time(vals) => {
                if self.nulls.row_count() == row {
                    vals.push(value);
                    self.nulls.push(false);
                    pushed = true;
                }
                true
            },
            _ => false,
        };
        proof {
            if pushed {
                Self::lemma_push_valid(old(self).nulls@);
                Self::lemma_cells_after_push(*old(self), *self, CellV::I(value));
            }
        }
        ok
    }

    /// After recording one non-null row whose value went to the end of
    /// the value list, the cells grew by exactly that cell.
    proof fn lemma_cells_after_push(prev: ColBuilder, cur: ColBuilder, cell: CellV)
        requires
            prev.wf(),
            cur.nulls@ == prev.nulls@.push(false),
            builder_values_len(cur.values) == builder_values_len(prev.values) + 1,
            forall|i: int|
                0 <= i < builder_values_len(prev.values) ==> builder_value_cell(cur.values, i)
                    == builder_value_cell(prev.values, i),
            builder_value_cell(cur.values, builder_values_len(prev.values)) == cell,
        ensures
            cur.cells() == prev.cells().push(Some(cell)),
    {
        let n = prev.nulls@.len() as int;
        assert forall|r: int| 0 <= r < n implies cur.cells()[r] == prev.cells()[r] by {
            lemma_trues_prefix(cur.nulls@, prev.nulls@, r);
            assert(cur.nulls@[r] == prev.nulls@[r]);
            if !prev.nulls@[r] {
                lemma_trues_prefix(cur.nulls@, prev.nulls@, r + 1);
                crate::column::lemma_trues_upto_bounds(prev.nulls@, r + 1, n);
                assert(crate::column::trues_upto(prev.nulls@, r + 1)
                    == crate::column::trues_upto(prev.nulls@, r));
                crate::column::lemma_trues_upto_bounds(prev.nulls@, 0, r);
                let idx = r - crate::column::trues_upto(prev.nulls@, r);
                assert(0 <= idx < builder_values_len(prev.values));
                assert(crate::column::trues_upto(cur.nulls@, r) == crate::column::trues_upto(
                    prev.nulls@,
                    r,
                ));
                assert(builder_value_cell(cur.values, idx) == builder_value_cell(
                    prev.values,
                    idx,
                ));
                assert(cur.cells()[r] == Some(builder_value_cell(cur.values, idx)));
                assert(prev.cells()[r] == Some(builder_value_cell(prev.values, idx)));
            }
        }
        lemma_trues_prefix(cur.nulls@, prev.nulls@, n);
        assert(!cur.nulls@[n]);
        assert(cur.cells()[n] == Some(cell));
        assert(cur.cells() =~= prev.cells().push(Some(cell)));
    }

    /// Finishes the builder into a wire batch column carrying exactly
    /// the gathered cells.
    fn build(self, name: String, row_count: usize) -> (r: EntryColumn)
        requires
            self.wf(),
            self.rows() == row_count,
        ensures
            r.wf(),
            r.spec_name() == name@,
            r.row_count == row_count,
            r.spec_type() == spec_builder_type(self.values),
            r.cells() == self.cells(),
    {
        let ghost snap = self;
        proof {
            self.nulls.lemma_bytes_encode();
        }
        let has_nulls = self.nulls.has_nulls();
        let ghost flags = self.nulls@;
        let null_mask: Option<Vec<u8>> = if has_nulls {
            Some(copy_bytes(self.nulls.mask_bytes()))
        } else {
            None
        };
        proof {
            if !has_nulls {
                crate::column::lemma_trues_upto_all_false(flags, flags.len() as int);
                lemma_valid_of_no_mask(flags.len() as int);
            } else {
                lemma_valid_vs_trues(self.nulls.spec_bytes(), flags, flags.len() as int);
            }
        }
        let influx_type = builder_type(&self.values);
        let values = match self.values {
            BuilderValues::Tag(v) => ColumnValues::Str(v),
            BuilderValues::Time(v) => ColumnValues::I64(v),
            BuilderValues::I64(v) => ColumnValues::I64(v),
            BuilderValues::F64(v) => ColumnValues::F64(v),
            BuilderValues::U64(v) => ColumnValues::U64(v),
            BuilderValues::Str(v) => ColumnValues::Str(v),
            BuilderValues::Bool(v) => ColumnValues::Bool(v),
        };
        let r = EntryColumn { name, influx_type, row_count, null_mask, values };
        proof {
            assert forall|q: int| 0 <= q < row_count implies r.cells()[q] == snap.cells()[q] by {
                if has_nulls {
                    lemma_valid_vs_trues(snap.nulls.spec_bytes(), snap.nulls@, q);
                    assert(snap.nulls@[q] == crate::nullmask::null_bit(
                        snap.nulls.spec_bytes(),
                        q,
                    ));
                } else {
                    lemma_valid_of_no_mask(q);
                    crate::column::lemma_trues_upto_all_false(snap.nulls@, q);
                    assert(!snap.nulls@[q]);
                }
                assert(crate::entry::value_cell(r.spec_values(), q - crate::column::trues_upto(
                    snap.nulls@,
                    q,
                )) == builder_value_cell(snap.values, q - crate::column::trues_upto(
                    snap.nulls@,
                    q,
                )));
            }
            assert(r.cells() =~= snap.cells());
        }
        r
    }
}

/// Without a mask every row counts as present.
proof fn lemma_valid_of_no_mask(r: int)
    requires
        r >= 0,
    ensures
        crate::entry::valid_before(Option::None, r) == r,
    decreases r,
{
    if r > 0 {
        lemma_valid_of_no_mask(r - 1);
    }
}

/// Under a mask that encodes the given flags, the non-null count is the
/// rows minus the set flags.
proof fn lemma_valid_vs_trues(bytes: Seq<u8>, flags: Seq<bool>, r: int)
    requires
        0 <= r <= flags.len(),
        forall|i: int| 0 <= i < flags.len() ==> flags[i] == crate::nullmask::null_bit(bytes, i),
    ensures
        crate::entry::valid_before(Some(bytes), r) == r - crate::column::trues_upto(flags, r),
    decreases r,
{
    if r > 0 {
        lemma_valid_vs_trues(bytes, flags, r - 1);
    }
}

/// The value of the first tag of the given key, if any.
pub open spec fn first_tag(tags: Seq<(String, String)>, nm: Seq<char>) -> Option<Seq<char>>
    decreases tags.len(),
{
    if tags.len() == 0 {
        None
    } else if tags[0].0@ == nm {
        Some(tags[0].1@)
    } else {
        first_tag(tags.drop_first(), nm)
    }
}

/// The first field value of the given key, if any.
pub open spec fn first_field(fields: Seq<(String, FieldValue)>, nm: Seq<char>) -> Option<
    FieldValue,
>
    decreases fields.len(),
{
    if fields.len() == 0 {
        None
    } else if fields[0].0@ == nm {
        Some(fields[0].1)
    } else {
        first_field(fields.drop_first(), nm)
    }
}

/// The cell a field value writes.
pub open spec fn field_cell(v: FieldValue) -> CellV {
    match v {
        FieldValue::Boolean(b) => CellV::B(b),
        FieldValue::I64(x) => CellV::I(x),
        FieldValue::U64(x) => CellV::U(x),
        FieldValue::F64(x) => CellV::F(x),
        FieldValue::Str(s) => CellV::S(s@),
    }
}

/// The cell one line contributes to the named column, reading only its
/// first `t` tags and `f` fields, and the timestamp once `time_done`:
/// the first tag of the key wins, then the first field, and the `time`
/// column takes the line's timestamp or the default.
pub open spec fn line_cell_pref(
    l: Line,
    nm: Seq<char>,
    dt: i64,
    t: int,
    f: int,
    time_done: bool,
) -> Option<CellV> {
    match first_tag(l.tag_set@.take(t), nm) {
        Some(v) => Some(CellV::S(v)),
        None => match first_field(l.field_set@.take(f), nm) {
            Some(fv) => Some(field_cell(fv)),
            None => if time_done && nm == "time"@ {
                Some(
                    CellV::I(
                        match l.timestamp {
                            Some(ts) => ts,
                            None => dt,
                        },
                    ),
                )
            } else {
                None
            },
        },
    }
}

/// The cell one line contributes to the named column.
pub open spec fn line_cell(l: Line, nm: Seq<char>, dt: i64) -> Option<CellV> {
    line_cell_pref(l, nm, dt, l.tag_set@.len() as int, l.field_set@.len() as int, true)
}

/// Reading one more tag decides the key it names and nothing else.
proof fn lemma_first_tag_extend(tags: Seq<(String, String)>, t: int, nm: Seq<char>)
    requires
        0 <= t < tags.len(),
    ensures
        first_tag(tags.take(t + 1), nm) == (match first_tag(tags.take(t), nm) {
            Some(v) => Some(v),
            None => if tags[t].0@ == nm {
                Some(tags[t].1@)
            } else {
                None
            },
        }),
    decreases t,
{
    if t == 0 {
        assert(tags.take(0) =~= Seq::<(String, String)>::empty());
        assert(tags.take(1)[0] == tags[0]);
        assert(tags.take(1).drop_first() =~= Seq::<(String, String)>::empty());
    } else {
        assert(tags.take(t + 1)[0] == tags[0]);
        assert(tags.take(t)[0] == tags[0]);
        if tags[0].0@ != nm {
            assert(tags.take(t + 1).drop_first() =~= tags.drop_first().take(t));
            assert(tags.take(t).drop_first() =~= tags.drop_first().take(t - 1));
            assert(tags.drop_first()[t - 1] == tags[t]);
            lemma_first_tag_extend(tags.drop_first(), t - 1, nm);
        }
    }
}

/// Reading one more field decides the key it names and nothing else.
proof fn lemma_first_field_extend(fields: Seq<(String, FieldValue)>, f: int, nm: Seq<char>)
    requires
        0 <= f < fields.len(),
    ensures
        first_field(fields.take(f + 1), nm) == (match first_field(fields.take(f), nm) {
            Some(v) => Some(v),
            None => if fields[f].0@ == nm {
                Some(fields[f].1)
            } else {
                None
            },
        }),
    decreases f,
{
    if f == 0 {
        assert(fields.take(0) =~= Seq::<(String, FieldValue)>::empty());
        assert(fields.take(1)[0] == fields[0]);
        assert(fields.take(1).drop_first() =~= Seq::<(String, FieldValue)>::empty());
    } else {
        assert(fields.take(f + 1)[0] == fields[0]);
        assert(fields.take(f)[0] == fields[0]);
        if fields[0].0@ != nm {
            assert(fields.take(f + 1).drop_first() =~= fields.drop_first().take(f));
            assert(fields.take(f).drop_first() =~= fields.drop_first().take(f - 1));
            assert(fields.drop_first()[f - 1] == fields[f]);
            lemma_first_field_extend(fields.drop_first(), f - 1, nm);
        }
    }
}

/// The cell a builder's value list holds at position `i`.
pub(crate) open spec fn builder_value_cell(v: BuilderValues, i: int) -> CellV {
    match v {
        BuilderValues::Tag(d) => CellV::S(d[i]@),
        BuilderValues::Time(d) => CellV::I(d[i]),
        BuilderValues::I64(d) => CellV::I(d[i]),
        BuilderValues::F64(d) => CellV::F(d[i]),
        BuilderValues::U64(d) => CellV::U(d[i]),
        BuilderValues::Str(d) => CellV::S(d[i]@),
        BuilderValues::Bool(d) => CellV::B(d[i]),
    }
}

/// Name-keyed lists stay strictly sorted.
pub(crate) open spec fn keys_sorted<T>(s: Seq<(String, T)>) -> bool {
    forall|i: int, j: int| 0 <= i < j < s.len() ==> chars_lt(s[i].0@, s[j].0@)
}

/// Whether a name-keyed list holds the given name.
pub(crate) open spec fn key_has<T>(s: Seq<(String, T)>, nm: Seq<char>) -> bool {
    exists|i: int| 0 <= i < s.len() && s[i].0@ == nm
}

/// Two positions of a sorted list carry distinct names.
proof fn lemma_sorted_names_distinct<T>(s: Seq<(String, T)>, a: int, b: int)
    requires
        keys_sorted(s),
        0 <= a < b < s.len(),
    ensures
        s[a].0@ != s[b].0@,
{
    assert(chars_lt(s[a].0@, s[b].0@));
    crate::strcmp::lemma_bytes_lt_irreflexive(vstd::utf8::encode_utf8(s[a].0@));
}

/// The cells the first `i` lines contribute to the named column.
pub open spec fn line_cells_upto(lines: Seq<Line>, nm: Seq<char>, dt: i64, i: int) -> Seq<
    Option<CellV>,
> {
    Seq::new(i as nat, |j: int| line_cell(lines[j], nm, dt))
}

/// The builders' state in the middle of absorbing line `i`, having
/// read its first `t` tags and `f` fields, and its timestamp once
/// `td`: every builder holds the cells of the lines before `i`, plus
/// row `i` exactly where the read part of line `i` mentions its name.
pub(crate) open spec fn builder_entry_inv(
    nm: Seq<char>,
    b: ColBuilder,
    lines: Seq<Line>,
    i: int,
    t: int,
    f: int,
    td: bool,
    dt: i64,
) -> bool {
    &&& b.wf()
    &&& (b.rows() == i || b.rows() == i + 1)
    &&& (b.rows() == i + 1 ==> (line_cell_pref(lines[i], nm, dt, t, f, td) matches Some(cv)
        && b.cells() == line_cells_upto(lines, nm, dt, i).push(Some(cv))))
    &&& (b.rows() == i ==> line_cell_pref(lines[i], nm, dt, t, f, td) is None && b.cells()
        == line_cells_upto(lines, nm, dt, i))
}

pub(crate) open spec fn builders_inv(
    bs: Seq<(String, ColBuilder)>,
    lines: Seq<Line>,
    i: int,
    t: int,
    f: int,
    td: bool,
    dt: i64,
) -> bool {
    forall|k: int|
        0 <= k < bs.len() ==> builder_entry_inv(
            (#[trigger] bs[k]).0@,
            bs[k].1,
            lines,
            i,
            t,
            f,
            td,
            dt,
        )
}

/// A builder that has fully absorbed line `i`.
pub(crate) open spec fn builder_done_inv(
    nm: Seq<char>,
    b: ColBuilder,
    lines: Seq<Line>,
    i: int,
    dt: i64,
) -> bool {
    &&& b.wf()
    &&& b.rows() == i + 1
    &&& b.cells() == line_cells_upto(lines, nm, dt, i + 1)
}

/// The builders' names in the middle of absorbing line `i`: exactly
/// the columns some earlier line mentions, plus those the read part of
/// line `i` mentions.
pub(crate) open spec fn names_inv(
    bs: Seq<(String, ColBuilder)>,
    lines: Seq<Line>,
    i: int,
    t: int,
    f: int,
    td: bool,
    dt: i64,
) -> bool {
    forall|nm: Seq<char>|
        #![trigger key_has(bs, nm)]
        key_has(bs, nm) == ((exists|j: int|
            0 <= j < i && (#[trigger] line_cell(lines[j], nm, dt)) is Some) || line_cell_pref(
            lines[i],
            nm,
            dt,
            t,
            f,
            td,
        ) is Some)
}

/// One more piece of line `i` decides the named column and no other.
pub(crate) open spec fn pref_step(
    lines: Seq<Line>,
    i: int,
    dt: i64,
    t0: int,
    f0: int,
    td0: bool,
    t1: int,
    f1: int,
    td1: bool,
    name: Seq<char>,
    cell: CellV,
) -> bool {
    forall|nm: Seq<char>|
        #![trigger line_cell_pref(lines[i], nm, dt, t1, f1, td1)]
        line_cell_pref(lines[i], nm, dt, t1, f1, td1) == (if nm == name {
            Some(cell)
        } else {
            line_cell_pref(lines[i], nm, dt, t0, f0, td0)
        })
}

/// Absorbing one piece of line `i` into the builder already holding its
/// column keeps the middle-of-line state.
proof fn lemma_step_existing(
    pre: Seq<(String, ColBuilder)>,
    cur: Seq<(String, ColBuilder)>,
    lines: Seq<Line>,
    i: int,
    dt: i64,
    j: int,
    t0: int,
    f0: int,
    td0: bool,
    t1: int,
    f1: int,
    td1: bool,
    cell: CellV,
)
    requires
        0 <= i < lines.len(),
        keys_sorted(pre),
        0 <= j < pre.len(),
        cur == pre.update(j, (pre[j].0, cur[j].1)),
        builders_inv(pre, lines, i, t0, f0, td0, dt),
        names_inv(pre, lines, i, t0, f0, td0, dt),
        pre[j].1.rows() == i,
        cur[j].1.wf(),
        cur[j].1.rows() == i + 1,
        cur[j].1.cells() == pre[j].1.cells().push(Some(cell)),
        pref_step(lines, i, dt, t0, f0, td0, t1, f1, td1, pre[j].0@, cell),
    ensures
        keys_sorted(cur),
        builders_inv(cur, lines, i, t1, f1, td1, dt),
        names_inv(cur, lines, i, t1, f1, td1, dt),
{
    let name = pre[j].0@;
    assert forall|a: int, b: int| 0 <= a < b < cur.len() implies chars_lt(
        cur[a].0@,
        cur[b].0@,
    ) by {
        assert(cur[a].0 == pre[a].0 && cur[b].0 == pre[b].0);
    }
    assert forall|k: int| 0 <= k < cur.len() implies builder_entry_inv(
        (#[trigger] cur[k]).0@,
        cur[k].1,
        lines,
        i,
        t1,
        f1,
        td1,
        dt,
    ) by {
        if k == j {
            assert(line_cell_pref(lines[i], name, dt, t1, f1, td1) == Some(cell));
        } else {
            assert(cur[k] == pre[k]);
            if k < j {
                lemma_sorted_names_distinct(pre, k, j);
            } else {
                lemma_sorted_names_distinct(pre, j, k);
            }
            assert(line_cell_pref(lines[i], cur[k].0@, dt, t1, f1, td1) == line_cell_pref(
                lines[i],
                cur[k].0@,
                dt,
                t0,
                f0,
                td0,
            ));
        }
    }
    assert forall|nm: Seq<char>|
        #![trigger key_has(cur, nm)]
        key_has(cur, nm) == ((exists|j2: int|
            0 <= j2 < i && (#[trigger] line_cell(lines[j2], nm, dt)) is Some) || line_cell_pref(
            lines[i],
            nm,
            dt,
            t1,
            f1,
            td1,
        ) is Some) by {
        assert(key_has(cur, nm) == key_has(pre, nm)) by {
            if key_has(cur, nm) {
                let w = choose|w: int| 0 <= w < cur.len() && cur[w].0@ == nm;
                assert(pre[w].0@ == nm);
            }
            if key_has(pre, nm) {
                let w = choose|w: int| 0 <= w < pre.len() && pre[w].0@ == nm;
                assert(cur[w].0@ == nm);
            }
        }
        if nm == name {
            assert(pre[j].0@ == nm);
            assert(key_has(pre, nm));
        }
    }
}

/// Absorbing one piece of line `i` that opens a fresh column keeps the
/// middle-of-line state.
proof fn lemma_step_fresh(
    pre: Seq<(String, ColBuilder)>,
    cur: Seq<(String, ColBuilder)>,
    lines: Seq<Line>,
    i: int,
    dt: i64,
    name: Seq<char>,
    fresh: ColBuilder,
    t0: int,
    f0: int,
    td0: bool,
    t1: int,
    f1: int,
    td1: bool,
    cell: CellV,
)
    requires
        0 <= i < lines.len(),
        builders_inv(pre, lines, i, t0, f0, td0, dt),
        names_inv(pre, lines, i, t0, f0, td0, dt),
        !key_has(pre, name),
        key_has(cur, name),
        forall|nm: Seq<char>| nm != name ==> key_has(cur, nm) == key_has(pre, nm),
        forall|k: int|
            0 <= k < cur.len() ==> (((#[trigger] cur[k]).0@ == name && cur[k].1 == fresh)
                || (exists|j2: int| 0 <= j2 < pre.len() && cur[k] == pre[j2])),
        fresh.wf(),
        fresh.rows() == i + 1,
        fresh.cells() == line_cells_upto(lines, name, dt, i).push(Some(cell)),
        pref_step(lines, i, dt, t0, f0, td0, t1, f1, td1, name, cell),
    ensures
        builders_inv(cur, lines, i, t1, f1, td1, dt),
        names_inv(cur, lines, i, t1, f1, td1, dt),
{
    assert forall|k: int| 0 <= k < cur.len() implies builder_entry_inv(
        (#[trigger] cur[k]).0@,
        cur[k].1,
        lines,
        i,
        t1,
        f1,
        td1,
        dt,
    ) by {
        if cur[k].0@ == name && cur[k].1 == fresh {
            assert(line_cell_pref(lines[i], name, dt, t1, f1, td1) == Some(cell));
        } else {
            let j2 = choose|j2: int| 0 <= j2 < pre.len() && cur[k] == pre[j2];
            assert(pre[j2].0@ == cur[k].0@);
            if cur[k].0@ == name {
                assert(key_has(pre, name));
            }
            assert(cur[k].0@ != name);
            assert(line_cell_pref(lines[i], cur[k].0@, dt, t1, f1, td1) == line_cell_pref(
                lines[i],
                cur[k].0@,
                dt,
                t0,
                f0,
                td0,
            ));
        }
    }
    assert forall|nm: Seq<char>|
        #![trigger key_has(cur, nm)]
        key_has(cur, nm) == ((exists|j2: int|
            0 <= j2 < i && (#[trigger] line_cell(lines[j2], nm, dt)) is Some) || line_cell_pref(
            lines[i],
            nm,
            dt,
            t1,
            f1,
            td1,
        ) is Some) by {
        if nm == name {
            assert(line_cell_pref(lines[i], nm, dt, t1, f1, td1) == Some(cell));
        }
    }
}

/// The position of a named entry, if any.
fn find_key<T>(v: &Vec<(String, T)>, name: &str) -> (r: Option<usize>)
    ensures
        match r {
            Some(i) => 0 <= i < v@.len() && v@[i as int].0@ == name@,
            None => !key_has(v@, name@),
        },
{
    let mut i: usize = 0;
    while i < v.len()
        invariant
            i <= v@.len(),
            forall|k: int| 0 <= k < i ==> (#[trigger] v@[k]).0@ != name@,
        decreases v@.len() - i,
    {
        if crate::strcmp::str_eq(v[i].0.as_str(), name) {
            return Some(i);
        }
        i = i + 1;
    }
    None
}

/// The first position whose name is not below the given name.
fn find_key_pos<T>(v: &Vec<(String, T)>, name: &str) -> (p: usize)
    ensures
        p <= v@.len(),
        forall|j: int| 0 <= j < p ==> chars_lt((#[trigger] v@[j]).0@, name@),
        p < v@.len() ==> !chars_lt(v@[p as int].0@, name@),
{
    let mut p: usize = 0;
    while p < v.len()
        invariant
            p <= v@.len(),
            forall|j: int| 0 <= j < p ==> chars_lt((#[trigger] v@[j]).0@, name@),
        decreases v@.len() - p,
    {
        if !crate::strcmp::str_compare_lt(v[p].0.as_str(), name) {
            return p;
        }
        p = p + 1;
    }
    p
}

/// Inserts a fresh entry at its place in the name order.
fn insert_key_sorted<T>(v: &mut Vec<(String, T)>, name: String, val: T)
    requires
        keys_sorted(old(v)@),
        !key_has(old(v)@, name@),
    ensures
        keys_sorted(final(v)@),
        final(v)@.len() == old(v)@.len() + 1,
        key_has(final(v)@, name@),
        forall|nm: Seq<char>| nm != name@ ==> key_has(final(v)@, nm) == key_has(old(v)@, nm),
        forall|k: int|
            0 <= k < final(v)@.len() ==> ((#[trigger] final(v)@[k]).0@ == name@ && final(v)@[k].1
                == val) || (exists|j: int| 0 <= j < old(v)@.len() && final(v)@[k] == old(v)@[j]),
{
    let ghost prev = v@;
    let p = find_key_pos(v, name.as_str());
    proof {
        if p < prev.len() {
            assert(!chars_lt(prev[p as int].0@, name@));
            assert(prev[p as int].0@ != name@);
            crate::strcmp::lemma_bytes_lt_trichotomy(
                vstd::utf8::encode_utf8(prev[p as int].0@),
                vstd::utf8::encode_utf8(name@),
            );
            crate::strcmp::lemma_chars_of_bytes(prev[p as int].0@, name@);
            assert(chars_lt(name@, prev[p as int].0@));
        }
        assert forall|j: int| p <= j < prev.len() implies chars_lt(
            name@,
            (#[trigger] prev[j]).0@,
        ) by {
            assert(chars_lt(name@, prev[p as int].0@));
            if j > p {
                assert(chars_lt(prev[p as int].0@, prev[j].0@));
                crate::strcmp::lemma_bytes_lt_transitive(
                    vstd::utf8::encode_utf8(name@),
                    vstd::utf8::encode_utf8(prev[p as int].0@),
                    vstd::utf8::encode_utf8(prev[j].0@),
                );
            }
        }
    }
    let ghost name_snap = name@;
    let ghost pos = p as int;
    v.insert(p, (name, val));
    proof {
        let cur = v@;
        assert(cur[pos].0@ == name_snap);
        assert forall|i: int, j: int| 0 <= i < j < cur.len() implies chars_lt(
            cur[i].0@,
            cur[j].0@,
        ) by {
            if i < pos && j < pos {
                assert(cur[i] == prev[i] && cur[j] == prev[j]);
            } else if i < pos && j == pos {
                assert(cur[i] == prev[i]);
            } else if i < pos && j > pos {
                assert(cur[i] == prev[i] && cur[j] == prev[j - 1]);
            } else if i == pos && j > pos {
                assert(cur[j] == prev[j - 1]);
            } else if i > pos && j > pos {
                assert(cur[i] == prev[i - 1] && cur[j] == prev[j - 1]);
            }
        }
        assert forall|nm: Seq<char>| nm != name_snap implies key_has(cur, nm) == key_has(
            prev,
            nm,
        ) by {
            if key_has(cur, nm) {
                let w = choose|i: int| 0 <= i < cur.len() && cur[i].0@ == nm;
                if w < pos {
                    assert(prev[w].0@ == nm);
                } else {
                    assert(w > pos);
                    assert(prev[w - 1].0@ == nm);
                }
            }
            if key_has(prev, nm) {
                let w = choose|i: int| 0 <= i < prev.len() && prev[i].0@ == nm;
                if w < pos {
                    assert(cur[w].0@ == nm);
                } else {
                    assert(cur[w + 1].0@ == nm);
                }
            }
        }
    }
}

/// Builds one table's batch out of its lines. Column by column, cell
/// by cell: row `j` of a column holds line `j`'s first tag of that
/// key, else its first field of that key, else — for the `time`
/// column — the line's timestamp or `default_time`, and is null where
/// line `j` says nothing. The batch has exactly the columns some line
/// mentions. A line typing a column against an earlier line's type, or
/// naming one column twice, rejects the whole batch.
pub fn build_table_batch(table_name: &str, lines: &Vec<Line>, default_time: i64) -> (r: Result<
    TableBatch,
    Error,
>)
    requires
        lines@.len() + 9 <= usize::MAX,
    ensures
        match r {
            Ok(batch) => {
                &&& batch.spec_name() == table_name@
                &&& crate::chunk::batch_wf(batch.spec_columns())
                &&& forall|k: int|
                    0 <= k < batch.spec_columns().len() ==> (#[trigger] batch.spec_columns()[
                    k]).wf() && batch.spec_columns()[k].spec_row_count() == lines@.len()
                &&& forall|a: int, b: int|
                    0 <= a < b < batch.spec_columns().len() ==> chars_lt(
                        batch.spec_columns()[a].spec_name(),
                        batch.spec_columns()[b].spec_name(),
                    )
                &&& forall|k: int|
                    0 <= k < batch.spec_columns().len() ==> (#[trigger] batch.spec_columns()[
                    k]).cells() == line_cells_upto(
                        lines@,
                        batch.spec_columns()[k].spec_name(),
                        default_time,
                        lines@.len() as int,
                    )
                &&& forall|nm: Seq<char>|
                    #![trigger crate::chunk::batch_has(batch.spec_columns(), nm)]
                    crate::chunk::batch_has(batch.spec_columns(), nm) == (exists|j: int|
                        0 <= j < lines@.len() && (#[trigger] line_cell(
                            lines@[j],
                            nm,
                            default_time,
                        )) is Some)
            },
            Err(e) => e matches Error::TableColumnTypeMismatch { table, line_number, .. }
                && table@ == table_name@ && line_number < lines@.len(),
        },
{
    let n = lines.len();
    let mut builders: Vec<(String, ColBuilder)> = Vec::new();
    let mut i: usize = 0;
    while i < n
        invariant
            n == lines@.len(),
            n + 9 <= usize::MAX,
            i <= n,
            keys_sorted(builders@),
            forall|k: int|
                0 <= k < builders@.len() ==> (#[trigger] builders@[k]).1.wf() && builders@[
                k].1.rows() == i && builders@[k].1.cells() == line_cells_upto(
                    lines@,
                    builders@[k].0@,
                    default_time,
                    i as int,
                ),
            forall|nm: Seq<char>|
                #![trigger key_has(builders@, nm)]
                key_has(builders@, nm) == (exists|j: int|
                    0 <= j < i && (#[trigger] line_cell(lines@[j], nm, default_time)) is Some),
        decreases n - i,
    {
        let line = &lines[i];
        proof {
            assert(line.tag_set@.take(0) =~= Seq::<(String, String)>::empty());
            assert(line.field_set@.take(0) =~= Seq::<(String, FieldValue)>::empty());
            assert forall|k: int|
                0 <= k < builders@.len() implies builder_entry_inv(
                (#[trigger] builders@[k]).0@,
                builders@[k].1,
                lines@,
                i as int,
                0,
                0,
                false,
                default_time,
            ) by {}
            assert(names_inv(builders@, lines@, i as int, 0, 0, false, default_time));
        }

        let mut t: usize = 0;
        while t < line.tag_set.len()
            invariant
                n == lines@.len(),
                n + 9 <= usize::MAX,
                i < n,
                line == &lines@[i as int],
                t <= line.tag_set@.len(),
                keys_sorted(builders@),
                builders_inv(builders@, lines@, i as int, t as int, 0, false, default_time),
                names_inv(builders@, lines@, i as int, t as int, 0, false, default_time),
            decreases line.tag_set@.len() - t,
        {
            let key = &line.tag_set[t].0;
            let value = &line.tag_set[t].1;
            let ghost pre = builders@;
            match find_key(&builders, key.as_str()) {
                Some(j) => {
                    let pair = &mut builders[j];
                    pair.1.pad_to(i);
                    proof {
                        assert(pair.1.cells() =~= pre[j as int].1.cells() + Seq::new(
                            0nat,
                            |q: int| None::<CellV>,
                        ));
                        assert(pair.1.cells() =~= pre[j as int].1.cells());
                    }
                    if pair.1.row_count() != i {
                        return Err(
                            Error::TableColumnTypeMismatch {
                                table: table_name.to_owned(),
                                column: key.as_str().to_owned(),
                                line_number: i,
                                source: ColumnError::ColumnTypeMismatch {
                                    new_type: "tag".to_owned(),
                                    expected_type: kind_description(&pair.1.values).to_owned(),
                                },
                            },
                        );
                    }
                    let ok = pair.1.push_tag_row(value.as_str(), i);
                    if !ok {
                        return Err(
                            Error::TableColumnTypeMismatch {
                                table: table_name.to_owned(),
                                column: key.as_str().to_owned(),
                                line_number: i,
                                source: ColumnError::ColumnTypeMismatch {
                                    new_type: "tag".to_owned(),
                                    expected_type: kind_description(&pair.1.values).to_owned(),
                                },
                            },
                        );
                    }
                    proof {
                        assert forall|nm: Seq<char>|
                            #![trigger line_cell_pref(lines@[i as int], nm, default_time, t as int + 1, 0, false)]
                            line_cell_pref(
                                lines@[i as int],
                                nm,
                                default_time,
                                t as int + 1,
                                0,
                                false,
                            ) == (if nm == pre[j as int].0@ {
                                Some(CellV::S(value@))
                            } else {
                                line_cell_pref(
                                    lines@[i as int],
                                    nm,
                                    default_time,
                                    t as int,
                                    0,
                                    false,
                                )
                            }) by {
                            lemma_first_tag_extend(lines@[i as int].tag_set@, t as int, nm);
                        }
                        lemma_step_existing(
                            pre,
                            builders@,
                            lines@,
                            i as int,
                            default_time,
                            j as int,
                            t as int,
                            0,
                            false,
                            t as int + 1,
                            0,
                            false,
                            CellV::S(value@),
                        );
                    }
                },
                None => {
                    let mut b = ColBuilder::new_of(BuilderValues::Tag(Vec::new()));
                    b.pad_to(i);
                    let ok = b.push_tag_row(value.as_str(), i);
                    proof {
                        assert(ok);
                        assert(!key_has(pre, key@));
                        assert forall|j2: int| 0 <= j2 < i implies line_cell(
                            lines@[j2],
                            key@,
                            default_time,
                        ) is None by {
                            if line_cell(lines@[j2], key@, default_time) is Some {
                                assert(key_has(pre, key@));
                            }
                        }
                        assert(b.cells() =~= line_cells_upto(
                            lines@,
                            key@,
                            default_time,
                            i as int,
                        ).push(Some(CellV::S(value@))));
                    }
                    insert_key_sorted(&mut builders, key.as_str().to_owned(), b);
                    proof {
                        assert forall|nm: Seq<char>|
                            #![trigger line_cell_pref(lines@[i as int], nm, default_time, t as int + 1, 0, false)]
                            line_cell_pref(
                                lines@[i as int],
                                nm,
                                default_time,
                                t as int + 1,
                                0,
                                false,
                            ) == (if nm == key@ {
                                Some(CellV::S(value@))
                            } else {
                                line_cell_pref(
                                    lines@[i as int],
                                    nm,
                                    default_time,
                                    t as int,
                                    0,
                                    false,
                                )
                            }) by {
                            lemma_first_tag_extend(lines@[i as int].tag_set@, t as int, nm);
                        }
                        lemma_step_fresh(
                            pre,
                            builders@,
                            lines@,
                            i as int,
                            default_time,
                            key@,
                            b,
                            t as int,
                            0,
                            false,
                            t as int + 1,
                            0,
                            false,
                            CellV::S(value@),
                        );
                    }
                },
            }
            t = t + 1;
        }

        let ghost full_t = line.tag_set@.len() as int;
        let mut f: usize = 0;
        while f < line.field_set.len()
            invariant
                n == lines@.len(),
                n + 9 <= usize::MAX,
                i < n,
                line == &lines@[i as int],
                f <= line.field_set@.len(),
                full_t == line.tag_set@.len(),
                keys_sorted(builders@),
                builders_inv(builders@, lines@, i as int, full_t, f as int, false, default_time),
                names_inv(builders@, lines@, i as int, full_t, f as int, false, default_time),
            decreases line.field_set@.len() - f,
        {
            let key = &line.field_set[f].0;
            let value = &line.field_set[f].1;
            let ghost pre = builders@;
            match find_key(&builders, key.as_str()) {
                Some(j) => {
                    let pair = &mut builders[j];
                    pair.1.pad_to(i);
                    proof {
                        assert(pair.1.cells() =~= pre[j as int].1.cells() + Seq::new(
                            0nat,
                            |q: int| None::<CellV>,
                        ));
                        assert(pair.1.cells() =~= pre[j as int].1.cells());
                    }
                    if pair.1.row_count() != i {
                        return Err(
                            Error::TableColumnTypeMismatch {
                                table: table_name.to_owned(),
                                column: key.as_str().to_owned(),
                                line_number: i,
                                source: ColumnError::ColumnTypeMismatch {
                                    new_type: field_kind_description(value).to_owned(),
                                    expected_type: kind_description(&pair.1.values).to_owned(),
                                },
                            },
                        );
                    }
                    let ok = pair.1.push_field_row(value, i);
                    if !ok {
                        return Err(
                            Error::TableColumnTypeMismatch {
                                table: table_name.to_owned(),
                                column: key.as_str().to_owned(),
                                line_number: i,
                                source: ColumnError::ColumnTypeMismatch {
                                    new_type: field_kind_description(value).to_owned(),
                                    expected_type: kind_description(&pair.1.values).to_owned(),
                                },
                            },
                        );
                    }
                    proof {
                        assert forall|nm: Seq<char>|
                            #![trigger line_cell_pref(lines@[i as int], nm, default_time, full_t, f as int + 1, false)]
                            line_cell_pref(
                                lines@[i as int],
                                nm,
                                default_time,
                                full_t,
                                f as int + 1,
                                false,
                            ) == (if nm == pre[j as int].0@ {
                                Some(field_cell(*value))
                            } else {
                                line_cell_pref(
                                    lines@[i as int],
                                    nm,
                                    default_time,
                                    full_t,
                                    f as int,
                                    false,
                                )
                            }) by {
                            lemma_first_field_extend(lines@[i as int].field_set@, f as int, nm);
                        }
                        lemma_step_existing(
                            pre,
                            builders@,
                            lines@,
                            i as int,
                            default_time,
                            j as int,
                            full_t,
                            f as int,
                            false,
                            full_t,
                            f as int + 1,
                            false,
                            field_cell(*value),
                        );
                    }
                },
                None => {
                    let fresh_kind = match value {
                        FieldValue::Boolean(_) => BuilderValues::Bool(Vec::new()),
                        FieldValue::I64(_) => BuilderValues::I64(Vec::new()),
                        FieldValue::U64(_) => BuilderValues::U64(Vec::new()),
                        FieldValue::F64(_) => BuilderValues::F64(Vec::new()),
                        FieldValue::Str(_) => BuilderValues::Str(Vec::new()),
                    };
                    let mut b = ColBuilder::new_of(fresh_kind);
                    b.pad_to(i);
                    let ok = b.push_field_row(value, i);
                    proof {
                        assert(ok);
                        assert(!key_has(pre, key@));
                        assert forall|j2: int| 0 <= j2 < i implies line_cell(
                            lines@[j2],
                            key@,
                            default_time,
                        ) is None by {
                            if line_cell(lines@[j2], key@, default_time) is Some {
                                assert(key_has(pre, key@));
                            }
                        }
                        assert(b.cells() =~= line_cells_upto(
                            lines@,
                            key@,
                            default_time,
                            i as int,
                        ).push(Some(field_cell(*value))));
                    }
                    insert_key_sorted(&mut builders, key.as_str().to_owned(), b);
                    proof {
                        assert forall|nm: Seq<char>|
                            #![trigger line_cell_pref(lines@[i as int], nm, default_time, full_t, f as int + 1, false)]
                            line_cell_pref(
                                lines@[i as int],
                                nm,
                                default_time,
                                full_t,
                                f as int + 1,
                                false,
                            ) == (if nm == key@ {
                                Some(field_cell(*value))
                            } else {
                                line_cell_pref(
                                    lines@[i as int],
                                    nm,
                                    default_time,
                                    full_t,
                                    f as int,
                                    false,
                                )
                            }) by {
                            lemma_first_field_extend(lines@[i as int].field_set@, f as int, nm);
                        }
                        lemma_step_fresh(
                            pre,
                            builders@,
                            lines@,
                            i as int,
                            default_time,
                            key@,
                            b,
                            full_t,
                            f as int,
                            false,
                            full_t,
                            f as int + 1,
                            false,
                            field_cell(*value),
                        );
                    }
                },
            }
            f = f + 1;
        }

        let ghost full_f = line.field_set@.len() as int;
        let ts = match line.timestamp {
            Some(t2) => t2,
            None => default_time,
        };
        let ghost pre = builders@;
        match find_key(&builders, "time") {
            Some(j) => {
                let pair = &mut builders[j];
                pair.1.pad_to(i);
                proof {
                    assert(pair.1.cells() =~= pre[j as int].1.cells() + Seq::new(
                        0nat,
                        |q: int| None::<CellV>,
                    ));
                    assert(pair.1.cells() =~= pre[j as int].1.cells());
                }
                if pair.1.row_count() != i {
                    return Err(
                        Error::TableColumnTypeMismatch {
                            table: table_name.to_owned(),
                            column: "time".to_owned(),
                            line_number: i,
                            source: ColumnError::ColumnTypeMismatch {
                                new_type: "time".to_owned(),
                                expected_type: kind_description(&pair.1.values).to_owned(),
                            },
                        },
                    );
                }
                let ok = pair.1.push_time_row(ts, i);
                if !ok {
                    return Err(
                        Error::TableColumnTypeMismatch {
                            table: table_name.to_owned(),
                            column: "time".to_owned(),
                            line_number: i,
                            source: ColumnError::ColumnTypeMismatch {
                                new_type: "time".to_owned(),
                                expected_type: kind_description(&pair.1.values).to_owned(),
                            },
                        },
                    );
                }
                proof {
                    assert forall|nm: Seq<char>|
                        #![trigger line_cell_pref(lines@[i as int], nm, default_time, full_t, full_f, true)]
                        line_cell_pref(lines@[i as int], nm, default_time, full_t, full_f, true)
                            == (if nm == pre[j as int].0@ {
                            Some(CellV::I(ts))
                        } else {
                            line_cell_pref(
                                lines@[i as int],
                                nm,
                                default_time,
                                full_t,
                                full_f,
                                false,
                            )
                        }) by {}
                    lemma_step_existing(
                        pre,
                        builders@,
                        lines@,
                        i as int,
                        default_time,
                        j as int,
                        full_t,
                        full_f,
                        false,
                        full_t,
                        full_f,
                        true,
                        CellV::I(ts),
                    );
                }
            },
            None => {
                let mut b = ColBuilder::new_of(BuilderValues::Time(Vec::new()));
                b.pad_to(i);
                let ok = b.push_time_row(ts, i);
                proof {
                    assert(ok);
                    assert(!key_has(pre, "time"@));
                    assert forall|j2: int| 0 <= j2 < i implies line_cell(
                        lines@[j2],
                        "time"@,
                        default_time,
                    ) is None by {
                        if line_cell(lines@[j2], "time"@, default_time) is Some {
                            assert(key_has(pre, "time"@));
                        }
                    }
                    assert(b.cells() =~= line_cells_upto(
                        lines@,
                        "time"@,
                        default_time,
                        i as int,
                    ).push(Some(CellV::I(ts))));
                }
                insert_key_sorted(&mut builders, "time".to_owned(), b);
                proof {
                    assert forall|nm: Seq<char>|
                        #![trigger line_cell_pref(lines@[i as int], nm, default_time, full_t, full_f, true)]
                        line_cell_pref(lines@[i as int], nm, default_time, full_t, full_f, true)
                            == (if nm == "time"@ {
                            Some(CellV::I(ts))
                        } else {
                            line_cell_pref(
                                lines@[i as int],
                                nm,
                                default_time,
                                full_t,
                                full_f,
                                false,
                            )
                        }) by {}
                    lemma_step_fresh(
                        pre,
                        builders@,
                        lines@,
                        i as int,
                        default_time,
                        "time"@,
                        b,
                        full_t,
                        full_f,
                        false,
                        full_t,
                        full_f,
                        true,
                        CellV::I(ts),
                    );
                }
            },
        }

        let mut j: usize = 0;
        while j < builders.len()
            invariant
                n == lines@.len(),
                n + 9 <= usize::MAX,
                i < n,
                line == &lines@[i as int],
                full_t == line.tag_set@.len(),
                full_f == line.field_set@.len(),
                j <= builders@.len(),
                keys_sorted(builders@),
                names_inv(builders@, lines@, i as int, full_t, full_f, true, default_time),
                forall|k: int|
                    0 <= k < builders@.len() ==> ((k < j ==> builder_done_inv(
                        (#[trigger] builders@[k]).0@,
                        builders@[k].1,
                        lines@,
                        i as int,
                        default_time,
                    )) && (k >= j ==> builder_entry_inv(
                        builders@[k].0@,
                        builders@[k].1,
                        lines@,
                        i as int,
                        full_t,
                        full_f,
                        true,
                        default_time,
                    ))),
            decreases builders@.len() - j,
        {
            let ghost pre = builders@;
            let pair = &mut builders[j];
            pair.1.pad_to(i + 1);
            proof {
                assert(builders@ =~= pre.update(
                    j as int,
                    (pre[j as int].0, builders@[j as int].1),
                ));
                let nm = pre[j as int].0@;
                assert(line_cell(lines@[i as int], nm, default_time) == line_cell_pref(
                    lines@[i as int],
                    nm,
                    default_time,
                    full_t,
                    full_f,
                    true,
                ));
                if pre[j as int].1.rows() == i {
                    assert(builders@[j as int].1.cells() =~= line_cells_upto(
                        lines@,
                        nm,
                        default_time,
                        i as int,
                    ).push(None));
                    assert(builders@[j as int].1.cells() =~= line_cells_upto(
                        lines@,
                        nm,
                        default_time,
                        i as int + 1,
                    ));
                } else {
                    assert(builders@[j as int].1.cells() =~= pre[j as int].1.cells() + Seq::new(
                        0nat,
                        |q: int| None::<CellV>,
                    ));
                    assert(builders@[j as int].1.cells() =~= pre[j as int].1.cells());
                    assert(builders@[j as int].1.cells() =~= line_cells_upto(
                        lines@,
                        nm,
                        default_time,
                        i as int + 1,
                    ));
                }
                assert forall|nm2: Seq<char>|
                    #![trigger key_has(builders@, nm2)]
                    key_has(builders@, nm2) == key_has(pre, nm2) by {
                    if key_has(builders@, nm2) {
                        let w = choose|w: int|
                            0 <= w < builders@.len() && builders@[w].0@ == nm2;
                        assert(pre[w].0@ == nm2);
                    }
                    if key_has(pre, nm2) {
                        let w = choose|w: int| 0 <= w < pre.len() && pre[w].0@ == nm2;
                        assert(builders@[w].0@ == nm2);
                    }
                }
            }
            j = j + 1;
        }
        proof {
            assert forall|k: int|
                0 <= k < builders@.len() implies (#[trigger] builders@[k]).1.wf() && builders@[
                k].1.rows() == i + 1 && builders@[k].1.cells() == line_cells_upto(
                lines@,
                builders@[k].0@,
                default_time,
                i as int + 1,
            ) by {}
            assert forall|nm: Seq<char>|
                #![trigger key_has(builders@, nm)]
                key_has(builders@, nm) == (exists|j2: int|
                    0 <= j2 < i + 1 && (#[trigger] line_cell(lines@[j2], nm, default_time))
                        is Some) by {
                assert(line_cell(lines@[i as int], nm, default_time) == line_cell_pref(
                    lines@[i as int],
                    nm,
                    default_time,
                    full_t,
                    full_f,
                    true,
                ));
                if key_has(builders@, nm) {
                    if line_cell(lines@[i as int], nm, default_time) is Some {
                        assert(0 <= i < i + 1 && line_cell(lines@[i as int], nm, default_time)
                            is Some);
                    }
                }
                if exists|j2: int|
                    0 <= j2 < i + 1 && (#[trigger] line_cell(lines@[j2], nm, default_time))
                        is Some {
                    let w = choose|j2: int|
                        0 <= j2 < i + 1 && (#[trigger] line_cell(lines@[j2], nm, default_time))
                            is Some;
                    if w < i {
                        assert(exists|j2: int|
                            0 <= j2 < i && (#[trigger] line_cell(lines@[j2], nm, default_time))
                                is Some);
                    }
                }
            }
        }
        i = i + 1;
    }

    let mut columns: Vec<EntryColumn> = Vec::new();
    let ghost all = builders@;
    let mut idx: usize = 0;
    let total = builders.len();
    proof {
        assert(builders@ =~= all.skip(0));
    }
    while idx < total
        invariant
            n == lines@.len(),
            total == all.len(),
            idx <= total,
            builders@ == all.skip(idx as int),
            keys_sorted(all),
            forall|k: int|
                0 <= k < all.len() ==> (#[trigger] all[k]).1.wf() && all[k].1.rows() == n
                    && all[k].1.cells() == line_cells_upto(
                    lines@,
                    all[k].0@,
                    default_time,
                    n as int,
                ),
            columns@.len() == idx,
            forall|k: int|
                0 <= k < idx ==> (#[trigger] columns@[k]).wf() && columns@[k].spec_row_count()
                    == n && columns@[k].spec_name() == all[k].0@ && columns@[k].cells()
                    == line_cells_upto(lines@, all[k].0@, default_time, n as int),
        decreases total - idx,
    {
        let pair = builders.remove(0);
        proof {
            assert(all.skip(idx as int)[0] == all[idx as int]);
            assert(builders@ =~= all.skip(idx as int + 1));
        }
        let built = pair.1.build(pair.0, n);
        columns.push(built);
        idx = idx + 1;
    }
    proof {
        assert forall|a: int, b: int| 0 <= a < b < columns@.len() implies chars_lt(
            columns@[a].spec_name(),
            columns@[b].spec_name(),
        ) by {
            assert(chars_lt(all[a].0@, all[b].0@));
        }
        assert forall|a: int, b: int|
            0 <= a < b < columns@.len() implies columns@[a].spec_name() != columns@[
            b].spec_name() by {
            assert(chars_lt(columns@[a].spec_name(), columns@[b].spec_name()));
            crate::strcmp::lemma_bytes_lt_irreflexive(
                vstd::utf8::encode_utf8(columns@[a].spec_name()),
            );
        }
        assert forall|nm: Seq<char>|
            #![trigger crate::chunk::batch_has(columns@, nm)]
            crate::chunk::batch_has(columns@, nm) == (exists|j: int|
                0 <= j < lines@.len() && (#[trigger] line_cell(lines@[j], nm, default_time))
                    is Some) by {
            if crate::chunk::batch_has(columns@, nm) {
                let w = choose|k: int|
                    0 <= k < columns@.len() && (#[trigger] columns@[k]).spec_name() == nm;
                assert(all[w].0@ == nm);
                assert(key_has(all, nm));
            }
            if key_has(all, nm) {
                let w = choose|k: int| 0 <= k < all.len() && (#[trigger] all[k]).0@ == nm;
                assert(columns@[w].spec_name() == nm);
                assert(crate::chunk::batch_has(columns@, nm));
            }
        }
    }
    Ok(TableBatch { name: table_name.to_owned(), columns })
}

/// A copy of the mask bytes.
fn copy_bytes(v: &Vec<u8>) -> (r: Vec<u8>)
    ensures
        r@ == v@,
{
    let mut r: Vec<u8> = Vec::new();
    let mut i: usize = 0;
    while i < v.len()
        invariant
            i <= v@.len(),
            r@ == v@.take(i as int),
        decreases v@.len() - i,
    {
        r.push(v[i]);
        proof {
            assert(r@ =~= v@.take(i as int + 1));
        }
        i = i + 1;
    }
    proof {
        assert(v@.take(v@.len() as int) =~= v@);
    }
    r
}


/// A copy of one field value.
fn clone_field_value(v: &FieldValue) -> (r: FieldValue)
    ensures
        r == *v,
{
    match v {
        FieldValue::Boolean(x) => FieldValue::Boolean(*x),
        FieldValue::I64(x) => FieldValue::I64(*x),
        FieldValue::U64(x) => FieldValue::U64(*x),
        FieldValue::F64(x) => FieldValue::F64(*x),
        FieldValue::Str(x) => FieldValue::Str(x.clone()),
    }
}

/// A copy of one parsed line.
fn clone_line(l: &Line) -> (r: Line)
    ensures
        r.measurement@ == l.measurement@,
        r.tag_set@ == l.tag_set@,
        r.field_set@ == l.field_set@,
        r.timestamp == l.timestamp,
{
    let mut tag_set: Vec<(String, String)> = Vec::new();
    let mut i: usize = 0;
    while i < l.tag_set.len()
        invariant
            i <= l.tag_set@.len(),
            tag_set@ == l.tag_set@.take(i as int),
        decreases l.tag_set@.len() - i,
    {
        tag_set.push((l.tag_set[i].0.clone(), l.tag_set[i].1.clone()));
        proof {
            assert(tag_set@ =~= l.tag_set@.take(i as int + 1));
        }
        i = i + 1;
    }
    let mut field_set: Vec<(String, FieldValue)> = Vec::new();
    let mut k: usize = 0;
    while k < l.field_set.len()
        invariant
            k <= l.field_set@.len(),
            field_set@ == l.field_set@.take(k as int),
        decreases l.field_set@.len() - k,
    {
        field_set.push((l.field_set[k].0.clone(), clone_field_value(&l.field_set[k].1)));
        proof {
            assert(field_set@ =~= l.field_set@.take(k as int + 1));
        }
        k = k + 1;
    }
    proof {
        assert(l.tag_set@.take(l.tag_set@.len() as int) =~= l.tag_set@);
        assert(l.field_set@.take(l.field_set@.len() as int) =~= l.field_set@);
    }
    Line { measurement: l.measurement.clone(), tag_set, field_set, timestamp: l.timestamp }
}

/// The order on shard routes: unrouted lines come first, then shards in
/// ascending order.
pub open spec fn shard_lt(a: Option<ShardId>, b: Option<ShardId>) -> bool {
    match (a, b) {
        (None, Some(_)) => true,
        (Some(x), Some(y)) => x < y,
        _ => false,
    }
}

/// Whether the shard `a` comes strictly before `b`.
fn shard_before(a: &Option<ShardId>, b: &Option<ShardId>) -> (r: bool)
    ensures
        r == shard_lt(*a, *b),
{
    match (a, b) {
        (None, Some(_)) => true,
        (Some(x), Some(y)) => *x < *y,
        _ => false,
    }
}

/// Whether two shard routes are the same.
fn shard_same(a: &Option<ShardId>, b: &Option<ShardId>) -> (r: bool)
    ensures
        r == (*a == *b),
{
    match (a, b) {
        (None, None) => true,
        (Some(x), Some(y)) => *x == *y,
        _ => false,
    }
}

/// Whether a route list holds the given route.
pub(crate) open spec fn shard_has(l: Seq<Option<ShardId>>, s: Option<ShardId>) -> bool {
    exists|a: int| 0 <= a < l.len() && l[a] == s
}

/// Inserts a shard route into a sorted list of distinct routes, where
/// it is not already present.
fn insert_shard_sorted(v: &mut Vec<Option<ShardId>>, s: Option<ShardId>)
    requires
        forall|a: int, b: int|
            0 <= a < b < old(v)@.len() ==> shard_lt(#[trigger] old(v)@[a], #[trigger] old(v)@[b]),
        forall|a: int| 0 <= a < old(v)@.len() ==> old(v)@[a] != s,
    ensures
        forall|a: int, b: int|
            0 <= a < b < final(v)@.len() ==> shard_lt(#[trigger] final(v)@[a], #[trigger] final(v)@[b]),
        final(v)@.len() == old(v)@.len() + 1,
        shard_has(final(v)@, s),
        forall|x: Option<ShardId>|
            #![trigger shard_has(old(v)@, x)]
            shard_has(old(v)@, x) ==> shard_has(final(v)@, x),
{
    let ghost prev = v@;
    let p = find_shard_pos(v, &s);
    proof {
        if p < prev.len() {
            assert(!shard_lt(prev[p as int], s));
            assert(prev[p as int] != s);
            assert(shard_lt(s, prev[p as int]));
        }
        assert forall|j: int| p <= j < prev.len() implies shard_lt(s, #[trigger] prev[j]) by {
            assert(shard_lt(s, prev[p as int]));
        }
    }
    let ghost pos = p as int;
    v.insert(p, s);
    proof {
        let cur = v@;
        assert forall|a: int, b: int| 0 <= a < b < cur.len() implies shard_lt(
            #[trigger] cur[a],
            #[trigger] cur[b],
        ) by {
            if a < pos && b < pos {
                assert(cur[a] == prev[a] && cur[b] == prev[b]);
            } else if a < pos && b == pos {
                assert(cur[a] == prev[a]);
            } else if a < pos && b > pos {
                assert(cur[a] == prev[a] && cur[b] == prev[b - 1]);
            } else if a == pos && b > pos {
                assert(cur[b] == prev[b - 1]);
            } else if a > pos && b > pos {
                assert(cur[a] == prev[a - 1] && cur[b] == prev[b - 1]);
            }
        }
        assert(cur[pos] == s);
        assert forall|x: Option<ShardId>|
            #![trigger shard_has(prev, x)]
            shard_has(prev, x) implies shard_has(cur, x) by {
            let a = choose|a: int| 0 <= a < prev.len() && prev[a] == x;
            if a < pos {
                assert(cur[a] == x);
            } else {
                assert(cur[a + 1] == x);
            }
        }
    }
}

/// The sub-sequence of the first `upto` lines routed to the given
/// shard, keyed `key`, for table `table`, in line order.
pub open spec fn selected_lines(
    lines: Seq<Line>,
    shards: Seq<Option<ShardId>>,
    keys: Seq<String>,
    shard: Option<ShardId>,
    key: Seq<char>,
    table: Seq<char>,
    upto: int,
) -> Seq<Line>
    decreases upto,
{
    if upto <= 0 {
        Seq::empty()
    } else {
        let pre = selected_lines(lines, shards, keys, shard, key, table, upto - 1);
        if shards[upto - 1] == shard && keys[upto - 1]@ == key && lines[upto
            - 1].measurement@ == table {
            pre.push(lines[upto - 1])
        } else {
            pre
        }
    }
}

/// Never more selected lines than lines read.
proof fn lemma_selected_len(
    lines: Seq<Line>,
    shards: Seq<Option<ShardId>>,
    keys: Seq<String>,
    shard: Option<ShardId>,
    key: Seq<char>,
    table: Seq<char>,
    upto: int,
)
    requires
        upto >= 0,
    ensures
        selected_lines(lines, shards, keys, shard, key, table, upto).len() <= upto,
    decreases upto,
{
    if upto > 0 {
        lemma_selected_len(lines, shards, keys, shard, key, table, upto - 1);
    }
}

/// Two lines that read the same: equal views of every part.
pub open spec fn line_views_eq(a: Line, b: Line) -> bool {
    a.measurement@ == b.measurement@ && a.tag_set@ == b.tag_set@ && a.field_set@ == b.field_set@
        && a.timestamp == b.timestamp
}

/// View-equal lines contribute the same cell to every column.
proof fn lemma_line_cell_views(a: Line, b: Line, nm: Seq<char>, dt: i64)
    requires
        line_views_eq(a, b),
    ensures
        line_cell(a, nm, dt) == line_cell(b, nm, dt),
{
}

/// Pointwise view-equal line sequences contribute the same cells.
proof fn lemma_line_cells_views(ga: Seq<Line>, gb: Seq<Line>, nm: Seq<char>, dt: i64, len: int)
    requires
        ga.len() == gb.len(),
        0 <= len <= ga.len(),
        forall|j: int| 0 <= j < ga.len() ==> line_views_eq(#[trigger] ga[j], gb[j]),
    ensures
        line_cells_upto(ga, nm, dt, len) == line_cells_upto(gb, nm, dt, len),
{
    assert forall|j: int| 0 <= j < len implies line_cells_upto(ga, nm, dt, len)[j]
        == line_cells_upto(gb, nm, dt, len)[j] by {
        lemma_line_cell_views(ga[j], gb[j], nm, dt);
    }
    assert(line_cells_upto(ga, nm, dt, len) =~= line_cells_upto(gb, nm, dt, len));
}

/// What one batch of a routed entry holds: exactly the cells of the
/// lines routed to its shard, key and table, in line order, with
/// exactly the columns those lines mention.
pub open spec fn batch_selected(
    batch: TableBatch,
    lines: Seq<Line>,
    shards: Seq<Option<ShardId>>,
    keys: Seq<String>,
    shard: Option<ShardId>,
    key: Seq<char>,
    dt: i64,
) -> bool {
    let sel = selected_lines(lines, shards, keys, shard, key, batch.spec_name(), lines.len() as int);
    &&& crate::chunk::batch_wf(batch.spec_columns())
    &&& forall|k: int|
        0 <= k < batch.spec_columns().len() ==> (#[trigger] batch.spec_columns()[k]).wf()
            && batch.spec_columns()[k].spec_row_count() == sel.len()
            && batch.spec_columns()[k].cells() == line_cells_upto(
            sel,
            batch.spec_columns()[k].spec_name(),
            dt,
            sel.len() as int,
        )
    &&& forall|nm: Seq<char>|
        #![trigger crate::chunk::batch_has(batch.spec_columns(), nm)]
        crate::chunk::batch_has(batch.spec_columns(), nm) == (exists|j: int|
            0 <= j < sel.len() && (#[trigger] line_cell(sel[j], nm, dt)) is Some)
}

/// A batch built from a view-copy of the selected lines holds their
/// cells.
proof fn lemma_batch_selected_from_group(
    batch: TableBatch,
    group: Seq<Line>,
    lines: Seq<Line>,
    shards: Seq<Option<ShardId>>,
    keys: Seq<String>,
    shard: Option<ShardId>,
    key: Seq<char>,
    dt: i64,
)
    requires
        crate::chunk::batch_wf(batch.spec_columns()),
        forall|k: int|
            0 <= k < batch.spec_columns().len() ==> (#[trigger] batch.spec_columns()[k]).wf()
                && batch.spec_columns()[k].spec_row_count() == group.len()
                && batch.spec_columns()[k].cells() == line_cells_upto(
                group,
                batch.spec_columns()[k].spec_name(),
                dt,
                group.len() as int,
            ),
        forall|nm: Seq<char>|
            #![trigger crate::chunk::batch_has(batch.spec_columns(), nm)]
            crate::chunk::batch_has(batch.spec_columns(), nm) == (exists|j: int|
                0 <= j < group.len() && (#[trigger] line_cell(group[j], nm, dt)) is Some),
        group.len() == selected_lines(
            lines,
            shards,
            keys,
            shard,
            key,
            batch.spec_name(),
            lines.len() as int,
        ).len(),
        forall|j: int|
            0 <= j < group.len() ==> line_views_eq(
                #[trigger] group[j],
                selected_lines(
                    lines,
                    shards,
                    keys,
                    shard,
                    key,
                    batch.spec_name(),
                    lines.len() as int,
                )[j],
            ),
    ensures
        batch_selected(batch, lines, shards, keys, shard, key, dt),
{
    let sel = selected_lines(lines, shards, keys, shard, key, batch.spec_name(), lines.len() as int);
    assert forall|k: int|
        0 <= k < batch.spec_columns().len() implies (#[trigger] batch.spec_columns()[k]).wf()
        && batch.spec_columns()[k].spec_row_count() == sel.len() && batch.spec_columns()[
    k].cells() == line_cells_upto(sel, batch.spec_columns()[k].spec_name(), dt, sel.len() as int) by {
        lemma_line_cells_views(
            group,
            sel,
            batch.spec_columns()[k].spec_name(),
            dt,
            sel.len() as int,
        );
    }
    assert forall|nm: Seq<char>|
        #![trigger crate::chunk::batch_has(batch.spec_columns(), nm)]
        crate::chunk::batch_has(batch.spec_columns(), nm) == (exists|j: int|
            0 <= j < sel.len() && (#[trigger] line_cell(sel[j], nm, dt)) is Some) by {
        if exists|j: int| 0 <= j < group.len() && (#[trigger] line_cell(group[j], nm, dt))
            is Some {
            let w = choose|j: int|
                0 <= j < group.len() && (#[trigger] line_cell(group[j], nm, dt)) is Some;
            lemma_line_cell_views(group[w], sel[w], nm, dt);
            assert(line_cell(sel[w], nm, dt) is Some);
        }
        if exists|j: int| 0 <= j < sel.len() && (#[trigger] line_cell(sel[j], nm, dt)) is Some {
            let w = choose|j: int|
                0 <= j < sel.len() && (#[trigger] line_cell(sel[j], nm, dt)) is Some;
            lemma_line_cell_views(group[w], sel[w], nm, dt);
            assert(line_cell(group[w], nm, dt) is Some);
        }
    }
}

/// What one partition write of a routed entry holds: batches in table
/// order, each carrying the cells of its shard, key and table.
pub open spec fn pw_outcome(
    lines: Seq<Line>,
    shards: Seq<Option<ShardId>>,
    keys: Seq<String>,
    dt: i64,
    shard: Option<ShardId>,
    pw: PartitionWrite,
) -> bool {
    &&& forall|a: int, b: int|
        0 <= a < b < pw.spec_table_batches().len() ==> chars_lt(
            (#[trigger] pw.spec_table_batches()[a]).spec_name(),
            (#[trigger] pw.spec_table_batches()[b]).spec_name(),
        )
    &&& forall|b: int|
        0 <= b < pw.spec_table_batches().len() ==> batch_selected(
            #[trigger] pw.spec_table_batches()[b],
            lines,
            shards,
            keys,
            shard,
            pw.spec_key(),
            dt,
        )
    &&& forall|idx: int|
        0 <= idx < lines.len() && (#[trigger] shards[idx]) == shard && keys[idx]@
            == pw.spec_key() ==> exists|b: int|
            0 <= b < pw.spec_table_batches().len() && (#[trigger] pw.spec_table_batches()[
            b]).spec_name() == lines[idx].measurement@
}

/// What one routed entry holds: partition writes in key order, each of
/// its shard.
pub open spec fn entry_outcome(
    lines: Seq<Line>,
    shards: Seq<Option<ShardId>>,
    keys: Seq<String>,
    dt: i64,
    shard: Option<ShardId>,
    pws: Seq<PartitionWrite>,
) -> bool {
    &&& forall|a: int, b: int|
        0 <= a < b < pws.len() ==> chars_lt(
            (#[trigger] pws[a]).spec_key(),
            (#[trigger] pws[b]).spec_key(),
        )
    &&& forall|p: int|
        0 <= p < pws.len() ==> pw_outcome(lines, shards, keys, dt, shard, #[trigger] pws[p])
    &&& forall|idx: int|
        0 <= idx < lines.len() && (#[trigger] shards[idx]) == shard ==> exists|p: int|
            0 <= p < pws.len() && (#[trigger] pws[p]).spec_key() == keys[idx]@
}

/// What routing leaves behind, for one per-line route and key
/// assignment and one default timestamp: entries in shard order, each
/// holding exactly the cells of the lines routed its way.
pub open spec fn routed_outcome(
    lines: Seq<Line>,
    shards: Seq<Option<ShardId>>,
    keys: Seq<String>,
    dt: i64,
    v: Seq<ShardedEntry>,
) -> bool {
    &&& shards.len() == lines.len()
    &&& keys.len() == lines.len()
    &&& forall|a: int, b: int|
        0 <= a < b < v.len() ==> shard_lt((#[trigger] v[a]).shard_id, (#[trigger] v[b]).shard_id)
    &&& forall|e: int|
        0 <= e < v.len() ==> entry_outcome(
            lines,
            shards,
            keys,
            dt,
            (#[trigger] v[e]).shard_id,
            v[e].entry.spec_partition_writes(),
        )
    &&& forall|idx: int|
        #![trigger shards[idx]]
        0 <= idx < lines.len() ==> exists|e: int|
            0 <= e < v.len() && (#[trigger] v[e]).shard_id == shards[idx]
}

/// Converts parsed lines into entries: lines are routed by the sharder
/// where one is given, keyed by the partitioner, grouped by table, and
/// each group becomes one typed column batch holding exactly its
/// lines' cells, in line order. Entries come out with shard routes
/// ascending, unrouted first; partition keys and table names are
/// sorted within each entry. The guarantee is stated for the route and
/// key the policies assigned each line and the default timestamp
/// taken from the clock.
pub fn lines_to_sharded_entries<S: Sharder, P: Partitioner>(
    lines: &Vec<Line>,
    sharder: &mut Option<S>,
    partitioner: &mut P,
) -> (r: Result<Vec<ShardedEntry>, Error>)
    requires
        lines@.len() + 9 <= usize::MAX,
    ensures
        lines@.len() == 0 ==> r is Ok,
        r matches Ok(v) ==> exists|shards2: Seq<Option<ShardId>>, keys2: Seq<String>, dt2: i64|
            routed_outcome(lines@, shards2, keys2, dt2, v@),
        r matches Ok(v) ==> forall|a: int, b: int|
            0 <= a < b < v@.len() ==> shard_lt(
                (#[trigger] v@[a]).shard_id,
                (#[trigger] v@[b]).shard_id,
            ),
{
    let n = lines.len();
    let default_time = now_nanos();

    // Route and key every line first.
    let mut shards: Vec<Option<ShardId>> = Vec::new();
    let mut keys: Vec<String> = Vec::new();
    let mut i: usize = 0;
    while i < n
        invariant
            n == lines@.len(),
            i <= n,
            shards@.len() == i,
            keys@.len() == i,
        decreases n - i,
    {
        let line = &lines[i];
        let s: Option<ShardId> = match sharder {
            Some(sh) => match sh.shard(line) {
                Ok(id) => Some(id),
                Err(message) => {
                    return Err(Error::GeneratingShardId { message });
                },
            },
            None => None,
        };
        let key = match partitioner.partition_key(line, default_time) {
            Ok(k) => k,
            Err(message) => {
                return Err(Error::GeneratingPartitionKey { message });
            },
        };
        shards.push(s);
        keys.push(key);
        i = i + 1;
    }

    // The distinct shard routes, in order.
    let mut shard_list: Vec<Option<ShardId>> = Vec::new();
    let mut i: usize = 0;
    while i < n
        invariant
            n == shards@.len(),
            i <= n,
            forall|a: int, b: int|
                0 <= a < b < shard_list@.len() ==> shard_lt(
                    #[trigger] shard_list@[a],
                    #[trigger] shard_list@[b],
                ),
            forall|idx: int| 0 <= idx < i ==> shard_has(shard_list@, #[trigger] shards@[idx]),
        decreases n - i,
    {
        let ghost pre_list = shard_list@;
        match find_shard(&shard_list, &shards[i]) {
            Some(j) => {
                proof {
                    assert(shard_list@[j as int] == shards@[i as int]);
                    assert(shard_has(shard_list@, shards@[i as int]));
                }
            },
            None => {
                let s = match &shards[i] {
                    Some(x) => Some(*x),
                    None => None,
                };
                insert_shard_sorted(&mut shard_list, s);
                proof {
                    assert(s == shards@[i as int]);
                    assert forall|idx: int| 0 <= idx < i implies shard_has(
                        shard_list@,
                        #[trigger] shards@[idx],
                    ) by {
                        assert(shard_has(pre_list, shards@[idx]));
                    }
                }
            },
        }
        i = i + 1;
    }

    let batch_time = now_nanos();

    // Build the entries shard by shard.
    let mut entries: Vec<ShardedEntry> = Vec::new();
    let mut si: usize = 0;
    while si < shard_list.len()
        invariant
            n == lines@.len(),
            n == shards@.len(),
            n == keys@.len(),
            n + 9 <= usize::MAX,
            si <= shard_list@.len(),
            forall|a: int, b: int|
                0 <= a < b < shard_list@.len() ==> shard_lt(
                    #[trigger] shard_list@[a],
                    #[trigger] shard_list@[b],
                ),
            entries@.len() == si,
            forall|idx: int| 0 <= idx < n ==> shard_has(shard_list@, #[trigger] shards@[idx]),
            forall|a: int| 0 <= a < si ==> (#[trigger] entries@[a]).shard_id == shard_list@[a],
            forall|e: int|
                0 <= e < si ==> entry_outcome(
                    lines@,
                    shards@,
                    keys@,
                    batch_time,
                    (#[trigger] entries@[e]).shard_id,
                    entries@[e].entry.spec_partition_writes(),
                ),
        decreases shard_list@.len() - si,
    {
        let shard = &shard_list[si];

        // The distinct partition keys of this shard's lines, in order.
        let mut key_list: Vec<(String, ())> = Vec::new();
        let mut i: usize = 0;
        while i < n
            invariant
                n == shards@.len(),
                n == keys@.len(),
                i <= n,
                keys_sorted(key_list@),
                forall|idx: int|
                    0 <= idx < i && (#[trigger] shards@[idx]) == *shard ==> key_has(
                        key_list@,
                        keys@[idx]@,
                    ),
            decreases n - i,
        {
            if shard_same(&shards[i], shard) {
                match find_key(&key_list, keys[i].as_str()) {
                    Some(j) => {
                        proof {
                            assert(key_has(key_list@, keys@[i as int]@));
                        }
                    },
                    None => {
                        insert_key_sorted(&mut key_list, keys[i].clone(), ());
                    },
                }
            }
            i = i + 1;
        }

        let mut partition_writes: Vec<PartitionWrite> = Vec::new();
        let mut ki: usize = 0;
        while ki < key_list.len()
            invariant
                n == lines@.len(),
                n == shards@.len(),
                n == keys@.len(),
                n + 9 <= usize::MAX,
                ki <= key_list@.len(),
                keys_sorted(key_list@),
                partition_writes@.len() == ki,
                forall|p: int|
                    0 <= p < ki ==> (#[trigger] partition_writes@[p]).spec_key() == key_list@[
                    p].0@,
                forall|p: int|
                    0 <= p < ki ==> pw_outcome(
                        lines@,
                        shards@,
                        keys@,
                        batch_time,
                        *shard,
                        #[trigger] partition_writes@[p],
                    ),
            decreases key_list@.len() - ki,
        {
            let key = &key_list[ki].0;

            // The distinct table names under this key, in order.
            let mut table_list: Vec<(String, ())> = Vec::new();
            let mut i: usize = 0;
            while i < n
                invariant
                    n == lines@.len(),
                    n == shards@.len(),
                    n == keys@.len(),
                    i <= n,
                    table_list@.len() <= i,
                    keys_sorted(table_list@),
                    forall|idx: int|
                        0 <= idx < i && (#[trigger] shards@[idx]) == *shard && keys@[idx]@ == key@
                            ==> key_has(table_list@, lines@[idx].measurement@),
                decreases n - i,
            {
                if shard_same(&shards[i], shard) && crate::strcmp::str_eq(
                    keys[i].as_str(),
                    key.as_str(),
                ) {
                    match find_key(&table_list, lines[i].measurement.as_str()) {
                        Some(j) => {
                            proof {
                                assert(key_has(table_list@, lines@[i as int].measurement@));
                            }
                        },
                        None => {
                            insert_key_sorted(&mut table_list, lines[i].measurement.clone(), ());
                        },
                    }
                }
                i = i + 1;
            }

            let mut table_batches: Vec<TableBatch> = Vec::new();
            let mut ti: usize = 0;
            while ti < table_list.len()
                invariant
                    n == lines@.len(),
                    n == shards@.len(),
                    n == keys@.len(),
                    n + 9 <= usize::MAX,
                    ti <= table_list@.len(),
                    table_list@.len() <= n,
                    keys_sorted(table_list@),
                    table_batches@.len() == ti,
                    forall|b: int|
                        0 <= b < ti ==> (#[trigger] table_batches@[b]).spec_name()
                            == table_list@[b].0@,
                    forall|b: int|
                        0 <= b < ti ==> batch_selected(
                            #[trigger] table_batches@[b],
                            lines@,
                            shards@,
                            keys@,
                            *shard,
                            key@,
                            batch_time,
                        ),
                decreases table_list@.len() - ti,
            {
                let table = &table_list[ti].0;

                let mut group: Vec<Line> = Vec::new();
                let mut i: usize = 0;
                proof {
                    assert(group@.len() == selected_lines(
                        lines@,
                        shards@,
                        keys@,
                        *shard,
                        key@,
                        table@,
                        0,
                    ).len());
                }
                while i < n
                    invariant
                        n == lines@.len(),
                        n == shards@.len(),
                        n == keys@.len(),
                        i <= n,
                        group@.len() == selected_lines(
                            lines@,
                            shards@,
                            keys@,
                            *shard,
                            key@,
                            table@,
                            i as int,
                        ).len(),
                        forall|j: int|
                            0 <= j < group@.len() ==> line_views_eq(
                                #[trigger] group@[j],
                                selected_lines(
                                    lines@,
                                    shards@,
                                    keys@,
                                    *shard,
                                    key@,
                                    table@,
                                    i as int,
                                )[j],
                            ),
                    decreases n - i,
                {
                    let ghost sel_pre = selected_lines(
                        lines@,
                        shards@,
                        keys@,
                        *shard,
                        key@,
                        table@,
                        i as int,
                    );
                    if shard_same(&shards[i], shard) && crate::strcmp::str_eq(
                        keys[i].as_str(),
                        key.as_str(),
                    ) && crate::strcmp::str_eq(lines[i].measurement.as_str(), table.as_str()) {
                        group.push(clone_line(&lines[i]));
                        proof {
                            assert(selected_lines(
                                lines@,
                                shards@,
                                keys@,
                                *shard,
                                key@,
                                table@,
                                i as int + 1,
                            ) == sel_pre.push(lines@[i as int]));
                        }
                    } else {
                        proof {
                            assert(selected_lines(
                                lines@,
                                shards@,
                                keys@,
                                *shard,
                                key@,
                                table@,
                                i as int + 1,
                            ) == sel_pre);
                        }
                    }
                    i = i + 1;
                }

                proof {
                    lemma_selected_len(
                        lines@,
                        shards@,
                        keys@,
                        *shard,
                        key@,
                        table@,
                        n as int,
                    );
                }
                let batch = match build_table_batch(table.as_str(), &group, batch_time) {
                    Ok(b) => b,
                    Err(e) => {
                        return Err(e);
                    },
                };
                proof {
                    lemma_batch_selected_from_group(
                        batch,
                        group@,
                        lines@,
                        shards@,
                        keys@,
                        *shard,
                        key@,
                        batch_time,
                    );
                }
                table_batches.push(batch);
                ti = ti + 1;
            }

            let pw = PartitionWrite { key: key.clone(), table_batches };
            proof {
                assert(pw.spec_key() == key@);
                assert forall|idx: int|
                    0 <= idx < lines@.len() && (#[trigger] shards@[idx]) == *shard && keys@[idx]@
                        == pw.spec_key() implies exists|b: int|
                    0 <= b < pw.spec_table_batches().len() && (
                    #[trigger] pw.spec_table_batches()[b]).spec_name()
                        == lines@[idx].measurement@ by {
                    assert(key_has(table_list@, lines@[idx].measurement@));
                    let tb = choose|tb: int|
                        0 <= tb < table_list@.len() && table_list@[tb].0@ == lines@[
                        idx].measurement@;
                    assert(pw.spec_table_batches()[tb].spec_name() == table_list@[tb].0@);
                }
                assert forall|a: int, b: int|
                    0 <= a < b < pw.spec_table_batches().len() implies chars_lt(
                    (#[trigger] pw.spec_table_batches()[a]).spec_name(),
                    (#[trigger] pw.spec_table_batches()[b]).spec_name(),
                ) by {
                    assert(chars_lt(table_list@[a].0@, table_list@[b].0@));
                }
            }
            partition_writes.push(pw);
            ki = ki + 1;
        }

        let shard_id = match shard {
            Some(x) => Some(*x),
            None => None,
        };
        let entry = Entry { partition_writes };
        proof {
            assert(shard_id == *shard);
            assert forall|idx: int|
                0 <= idx < lines@.len() && (#[trigger] shards@[idx]) == *shard implies exists|
                p: int,
            |
                0 <= p < entry.spec_partition_writes().len() && (
                #[trigger] entry.spec_partition_writes()[p]).spec_key() == keys@[idx]@ by {
                assert(key_has(key_list@, keys@[idx]@));
                let kp = choose|kp: int|
                    0 <= kp < key_list@.len() && key_list@[kp].0@ == keys@[idx]@;
                assert(entry.spec_partition_writes()[kp].spec_key() == key_list@[kp].0@);
            }
            assert forall|a: int, b: int|
                0 <= a < b < entry.spec_partition_writes().len() implies chars_lt(
                (#[trigger] entry.spec_partition_writes()[a]).spec_key(),
                (#[trigger] entry.spec_partition_writes()[b]).spec_key(),
            ) by {
                assert(chars_lt(key_list@[a].0@, key_list@[b].0@));
            }
        }
        entries.push(ShardedEntry { shard_id, entry });
        si = si + 1;
    }
    proof {
        assert forall|idx: int| #![trigger shards@[idx]] 0 <= idx < lines@.len() implies exists|
            e: int,
        |
            0 <= e < entries@.len() && (#[trigger] entries@[e]).shard_id == shards@[idx] by {
            assert(shard_has(shard_list@, shards@[idx]));
            let a = choose|a: int| 0 <= a < shard_list@.len() && shard_list@[a] == shards@[idx];
            assert(entries@[a].shard_id == shard_list@[a]);
        }
        assert(routed_outcome(lines@, shards@, keys@, batch_time, entries@));
    }
    Ok(entries)
}

/// The first position whose shard route is not below the given one.
fn find_shard_pos(v: &Vec<Option<ShardId>>, s: &Option<ShardId>) -> (p: usize)
    ensures
        p <= v@.len(),
        forall|j: int| 0 <= j < p ==> shard_lt(#[trigger] v@[j], *s),
        p < v@.len() ==> !shard_lt(v@[p as int], *s),
{
    let mut p: usize = 0;
    while p < v.len()
        invariant
            p <= v@.len(),
            forall|j: int| 0 <= j < p ==> shard_lt(#[trigger] v@[j], *s),
        decreases v@.len() - p,
    {
        if !shard_before(&v[p], s) {
            return p;
        }
        p = p + 1;
    }
    p
}

/// The position of a shard route in a list, if present.
fn find_shard(v: &Vec<Option<ShardId>>, s: &Option<ShardId>) -> (r: Option<usize>)
    ensures
        match r {
            Some(i) => 0 <= i < v@.len() && v@[i as int] == *s,
            None => forall|a: int| 0 <= a < v@.len() ==> v@[a] != *s,
        },
{
    let mut i: usize = 0;
    while i < v.len()
        invariant
            i <= v@.len(),
            forall|a: int| 0 <= a < i ==> v@[a] != *s,
        decreases v@.len() - i,
    {
        if shard_same(&v[i], s) {
            return Some(i);
        }
        i = i + 1;
    }
    None
}

} // verus!
