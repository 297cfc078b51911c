//! Typed column storage with validity bitmap and running statistics.
//!
//! A column holds one attribute across all rows appended to a chunk so
//! far: a validity bitmap with one bit per row, a typed backing store
//! with a default slot at every null row, and a streaming accumulator
//! of the non-null values appended. The logical type is fixed at
//! creation; a batch of any other type is rejected before anything is
//! touched. Doubles live as IEEE-754 bit patterns; tag values are
//! dictionary-encoded symbols.

use crate::arrays::ArrayData;
use crate::bitset::BitSet;
use crate::dictionary::{
    dict_after, dict_contains, sat_add, sat_cap, sat_mul4, sat_mul8, storage_bytes,
    vec_string_bytes, StringDictionary, DID, INVALID_DID,
};
use crate::entry::{
    valid_before, value_cell, values_len, values_match_type, CellV, Column as EntryColumn,
    ColumnValues,
};
use crate::schema::{InfluxColumnType, InfluxFieldType};
use crate::stats::{
    empty_stats, empty_str_stats, spec_update_bool_seq, spec_update_f64_seq, spec_update_i64_seq,
    spec_update_str_seq, spec_update_u64_seq, str_stats_view, StatValues, Statistics, StrStatsV,
};
use vstd::prelude::*;

verus! {

/// A schema error a column append can report.
#[derive(Debug)]
pub enum Error {
    /// The batch column's logical type differs from the column's.
    TypeMismatch { existing: InfluxColumnType, inserted: InfluxColumnType },
    /// The batch column's null mask has the wrong byte length.
    InvalidNullMask { expected_bytes: usize, actual_bytes: usize },
}

/// How many of the first `r` flags are set.
pub open spec fn trues_upto(flags: Seq<bool>, r: int) -> int
    decreases r,
{
    if r <= 0 {
        0
    } else {
        trues_upto(flags, r - 1) + (if flags[r - 1] {
            1int
        } else {
            0int
        })
    }
}

/// Set-flag counts agree with non-null counts when the flags negate the
/// mask's null bits.
pub proof fn lemma_trues_match_valid(flags: Seq<bool>, mask: Option<Seq<u8>>, r: int)
    requires
        0 <= r <= flags.len(),
        forall|p: int|
            0 <= p < flags.len() ==> flags[p] == !crate::nullmask::spec_is_null_value(p + 1, mask),
    ensures
        trues_upto(flags, r) == valid_before(mask, r),
    decreases r,
{
    if r > 0 {
        lemma_trues_match_valid(flags, mask, r - 1);
    }
}

/// The set-flag count never exceeds the flag count and never shrinks.
pub proof fn lemma_trues_upto_bounds(flags: Seq<bool>, a: int, b: int)
    requires
        0 <= a <= b,
    ensures
        trues_upto(flags, a) <= trues_upto(flags, b),
        trues_upto(flags, b) <= trues_upto(flags, a) + (b - a),
        trues_upto(flags, a) >= 0,
    decreases b,
{
    if a < b {
        lemma_trues_upto_bounds(flags, a, b - 1);
    } else if a > 0 {
        lemma_trues_upto_bounds(flags, a - 1, a - 1);
    }
}

/// The values at the set positions, in order: unsigned payloads.
pub open spec fn valid_vals_u64(valid: Seq<bool>, d: Seq<u64>) -> Seq<u64>
    decreases valid.len(),
{
    if valid.len() == 0 {
        Seq::empty()
    } else {
        let pre = valid_vals_u64(valid.drop_last(), d.drop_last());
        if valid.last() {
            pre.push(d.last())
        } else {
            pre
        }
    }
}

/// The values at the set positions, in order: signed payloads.
pub open spec fn valid_vals_i64(valid: Seq<bool>, d: Seq<i64>) -> Seq<i64>
    decreases valid.len(),
{
    if valid.len() == 0 {
        Seq::empty()
    } else {
        let pre = valid_vals_i64(valid.drop_last(), d.drop_last());
        if valid.last() {
            pre.push(d.last())
        } else {
            pre
        }
    }
}

/// The values at the set positions, in order: boolean payloads.
pub open spec fn valid_vals_bool(valid: Seq<bool>, d: Seq<bool>) -> Seq<bool>
    decreases valid.len(),
{
    if valid.len() == 0 {
        Seq::empty()
    } else {
        let pre = valid_vals_bool(valid.drop_last(), d.drop_last());
        if valid.last() {
            pre.push(d.last())
        } else {
            pre
        }
    }
}

/// The values at the set positions, in order: string payloads.
pub open spec fn valid_vals_str(valid: Seq<bool>, d: Seq<Seq<char>>) -> Seq<Seq<char>>
    decreases valid.len(),
{
    if valid.len() == 0 {
        Seq::empty()
    } else {
        let pre = valid_vals_str(valid.drop_last(), d.drop_last());
        if valid.last() {
            pre.push(d.last())
        } else {
            pre
        }
    }
}

/// Tag rows resolved through the dictionary: the interned string at
/// each valid row, an empty placeholder elsewhere.
pub open spec fn resolved_tags(valid: Seq<bool>, keys: Seq<i32>, dict: Seq<Seq<char>>) -> Seq<
    Seq<char>,
> {
    Seq::new(
        valid.len(),
        |r: int|
            if valid[r] && 0 <= keys[r] < dict.len() {
                dict[keys[r] as int]
            } else {
                Seq::empty()
            },
    )
}

/// There are never more selected values than rows.
pub proof fn lemma_valid_vals_str_len(valid: Seq<bool>, d: Seq<Seq<char>>)
    ensures
        valid_vals_str(valid, d).len() <= valid.len(),
    decreases valid.len(),
{
    if valid.len() > 0 {
        lemma_valid_vals_str_len(valid.drop_last(), d.drop_last());
    }
}

/// Every value at a set position appears among the selected values.
pub proof fn lemma_valid_vals_i64_membership(valid: Seq<bool>, d: Seq<i64>, r: int)
    requires
        0 <= r < valid.len(),
        valid.len() == d.len(),
        valid[r],
    ensures
        exists|i: int|
            0 <= i < valid_vals_i64(valid, d).len() && valid_vals_i64(valid, d)[i] == d[r],
    decreases valid.len(),
{
    let vals = valid_vals_i64(valid, d);
    let pre = valid_vals_i64(valid.drop_last(), d.drop_last());
    if r == valid.len() - 1 {
        assert(vals == pre.push(d.last()));
        assert(vals[pre.len() as int] == d[r]);
    } else {
        lemma_valid_vals_i64_membership(valid.drop_last(), d.drop_last(), r);
        let w = choose|i: int| 0 <= i < pre.len() && pre[i] == d.drop_last()[r];
        assert(d.drop_last()[r] == d[r]);
        if valid.last() {
            assert(vals == pre.push(d.last()));
            assert(vals[w] == d[r]);
        } else {
            assert(vals == pre);
            assert(vals[w] == d[r]);
        }
    }
}

/// There are never more selected values than rows.
pub proof fn lemma_valid_vals_u64_len(valid: Seq<bool>, d: Seq<u64>)
    ensures
        valid_vals_u64(valid, d).len() <= valid.len(),
    decreases valid.len(),
{
    if valid.len() > 0 {
        lemma_valid_vals_u64_len(valid.drop_last(), d.drop_last());
    }
}

/// There are never more selected values than rows.
pub proof fn lemma_valid_vals_i64_len(valid: Seq<bool>, d: Seq<i64>)
    ensures
        valid_vals_i64(valid, d).len() <= valid.len(),
    decreases valid.len(),
{
    if valid.len() > 0 {
        lemma_valid_vals_i64_len(valid.drop_last(), d.drop_last());
    }
}

/// There are never more selected values than rows.
pub proof fn lemma_valid_vals_bool_len(valid: Seq<bool>, d: Seq<bool>)
    ensures
        valid_vals_bool(valid, d).len() <= valid.len(),
    decreases valid.len(),
{
    if valid.len() > 0 {
        lemma_valid_vals_bool_len(valid.drop_last(), d.drop_last());
    }
}

/// The typed backing store of a column, together with its accumulator.
pub enum ColumnData {
    F64(Vec<u64>, StatValues<u64>),
    I64(Vec<i64>, StatValues<i64>),
    U64(Vec<u64>, StatValues<u64>),
    Str(Vec<String>, StatValues<String>),
    Bool(BitSet, StatValues<bool>),
    Tag(Vec<DID>, StringDictionary, StatValues<String>),
}

/// One column of a chunk: logical type, validity bitmap, typed store
/// and running statistics.
pub struct Column {
    pub(crate) influx_type: InfluxColumnType,
    pub(crate) valid: BitSet,
    pub(crate) data: ColumnData,
}

impl Column {
    /// The column's logical type.
    pub open(crate) spec fn spec_type(&self) -> InfluxColumnType {
        self.influx_type
    }

    /// The validity bitmap: one flag per row.
    pub open(crate) spec fn spec_valid(&self) -> Seq<bool> {
        self.valid@
    }

    /// Number of rows.
    pub open(crate) spec fn spec_len(&self) -> int {
        self.spec_valid().len() as int
    }

    /// The ghost cells: one optional value per row.
    pub open(crate) spec fn cells(&self) -> Seq<Option<CellV>> {
        Seq::new(
            self.valid@.len(),
            |r: int|
                if !self.valid@[r] {
                    None
                } else {
                    Some(
                        match self.data {
                            ColumnData::F64(d, _) => CellV::F(d@[r]),
                            ColumnData::I64(d, _) => CellV::I(d@[r]),
                            ColumnData::U64(d, _) => CellV::U(d@[r]),
                            ColumnData::Str(d, _) => CellV::S(d@[r]@),
                            ColumnData::Bool(d, _) => CellV::B(d@[r]),
                            ColumnData::Tag(d, dict, _) => CellV::S(
                                dict.strings()[d@[r] as int],
                            ),
                        },
                    )
                },
        )
    }

    /// The number of non-null values folded into the statistics so far.
    pub open(crate) spec fn spec_stats_count(&self) -> u64 {
        match self.data {
            ColumnData::F64(_, st) => st.count,
            ColumnData::I64(_, st) => st.count,
            ColumnData::U64(_, st) => st.count,
            ColumnData::Str(_, st) => st.count,
            ColumnData::Bool(_, st) => st.count,
            ColumnData::Tag(_, _, st) => st.count,
        }
    }

    /// The column's internal invariant: the store covers every row with
    /// the variant its type calls for, tag symbols stay within the
    /// dictionary, and the accumulator equals the fold of the non-null
    /// values in row order.
    pub open(crate) spec fn wf(&self) -> bool {
        &&& self.valid.wf()
        &&& match self.data {
            ColumnData::F64(d, st) => {
                &&& self.influx_type == InfluxColumnType::Field(InfluxFieldType::Float)
                &&& d@.len() == self.valid@.len()
                &&& st == spec_update_f64_seq(empty_stats::<u64>(), valid_vals_u64(self.valid@, d@))
                &&& st.count == valid_vals_u64(self.valid@, d@).len()
            },
            ColumnData::I64(d, st) => {
                &&& (self.influx_type == InfluxColumnType::Field(InfluxFieldType::Integer)
                    || self.influx_type == InfluxColumnType::Timestamp)
                &&& d@.len() == self.valid@.len()
                &&& st == spec_update_i64_seq(empty_stats::<i64>(), valid_vals_i64(self.valid@, d@))
                &&& st.count == valid_vals_i64(self.valid@, d@).len()
            },
            ColumnData::U64(d, st) => {
                &&& self.influx_type == InfluxColumnType::Field(InfluxFieldType::UInteger)
                &&& d@.len() == self.valid@.len()
                &&& st == spec_update_u64_seq(empty_stats::<u64>(), valid_vals_u64(self.valid@, d@))
                &&& st.count == valid_vals_u64(self.valid@, d@).len()
            },
            ColumnData::Str(d, st) => {
                &&& self.influx_type == InfluxColumnType::Field(InfluxFieldType::Str)
                &&& d@.len() == self.valid@.len()
                &&& str_stats_view(st) == spec_update_str_seq(
                    empty_str_stats(),
                    valid_vals_str(self.valid@, d@.map_values(|s: String| s@)),
                )
                &&& st.count == valid_vals_str(self.valid@, d@.map_values(|s: String| s@)).len()
            },
            ColumnData::Bool(d, st) => {
                &&& self.influx_type == InfluxColumnType::Field(InfluxFieldType::Boolean)
                &&& d.wf()
                &&& d@.len() == self.valid@.len()
                &&& st == spec_update_bool_seq(
                    empty_stats::<bool>(),
                    valid_vals_bool(self.valid@, d@),
                )
                &&& st.count == valid_vals_bool(self.valid@, d@).len()
            },
            ColumnData::Tag(d, dict, st) => {
                &&& self.influx_type == InfluxColumnType::Tag
                &&& dict.wf()
                &&& d@.len() == self.valid@.len()
                &&& (forall|r: int|
                    0 <= r < self.valid@.len() && self.valid@[r] ==> 0 <= #[trigger] d@[r]
                        < dict.strings().len())
                &&& (forall|r: int|
                    0 <= r < self.valid@.len() && !self.valid@[r] ==> #[trigger] d@[r]
                        == INVALID_DID)
                &&& str_stats_view(st) == spec_update_str_seq(
                    empty_str_stats(),
                    valid_vals_str(self.valid@, resolved_tags(self.valid@, d@, dict.strings())),
                )
                &&& st.count == valid_vals_str(
                    self.valid@,
                    resolved_tags(self.valid@, d@, dict.strings()),
                ).len()
            },
        }
    }

    /// The size of a tag column's dictionary; zero for other kinds.
    pub open(crate) spec fn spec_dict_len(&self) -> int {
        match self.data {
            ColumnData::Tag(_, dict, _) => dict.strings().len() as int,
            _ => 0,
        }
    }

    /// The interned strings of a tag column's dictionary, in symbol
    /// order; empty for other kinds.
    pub open(crate) spec fn spec_dict_strings(&self) -> Seq<Seq<char>> {
        match self.data {
            ColumnData::Tag(_, dict, _) => dict.strings(),
            _ => Seq::empty(),
        }
    }

    /// Limits an append must respect: the new rows fit the machine, and
    /// a tag column's dictionary keeps its symbols within range.
    pub open(crate) spec fn append_fits(&self, entry: &EntryColumn) -> bool {
        &&& self.valid@.len() + entry.row_count <= usize::MAX
        &&& (self.spec_type() is Tag ==> self.spec_dict_len() + entry.row_count <= i32::MAX)
    }

    /// A new column of the given type, starting as `row_count` null
    /// rows so that earlier rows of the chunk read as null.
    pub fn new(row_count: usize, column_type: InfluxColumnType) -> (r: Self)
        ensures
            r.wf(),
            r.spec_type() == column_type,
            r.cells() == Seq::new(row_count as nat, |i: int| None::<CellV>),
            r.spec_len() == row_count,
            r.spec_stats_count() == 0,
            r.spec_dict_len() == 0,
            r.spec_dict_strings() == Seq::<Seq<char>>::empty(),
    {
        let mut valid = BitSet::new();
        valid.append_unset(row_count);

        let data = match column_type {
            InfluxColumnType::Field(InfluxFieldType::Boolean) => {
                let mut d = BitSet::new();
                d.append_unset(row_count);
                ColumnData::Bool(d, StatValues::new())
            },
            InfluxColumnType::Field(InfluxFieldType::UInteger) => {
                ColumnData::U64(zero_u64s(row_count), StatValues::new())
            },
            InfluxColumnType::Field(InfluxFieldType::Float) => {
                ColumnData::F64(zero_u64s(row_count), StatValues::new())
            },
            InfluxColumnType::Field(InfluxFieldType::Integer) | InfluxColumnType::Timestamp => {
                ColumnData::I64(zero_i64s(row_count), StatValues::new())
            },
            InfluxColumnType::Field(InfluxFieldType::Str) => {
                ColumnData::Str(empty_strings(row_count), StatValues::new())
            },
            InfluxColumnType::Tag => {
                ColumnData::Tag(invalid_dids(row_count), StringDictionary::new(), StatValues::new())
            },
        };

        let r = Column { influx_type: column_type, valid, data };
        proof {
            lemma_valid_vals_of_unset(r.valid@, row_count as int);
            assert(r.cells() =~= Seq::new(row_count as nat, |i: int| None::<CellV>));
        }
        r
    }

    /// Checks that a batch column carries exactly this column's logical
    /// type.
    pub fn validate_schema(&self, entry: &EntryColumn) -> (r: Result<(), Error>)
        ensures
            match r {
                Ok(()) => entry.spec_type() == self.spec_type(),
                Err(e) => entry.spec_type() != self.spec_type() && (e matches Error::TypeMismatch {
                    existing,
                    inserted,
                } && existing == self.spec_type() && inserted == entry.spec_type()),
            },
    {
        let entry_type = entry.influx_type();
        if !influx_type_eq(entry_type, self.influx_type) {
            return Err(
                Error::TypeMismatch { existing: self.influx_type, inserted: entry_type },
            );
        }
        Ok(())
    }

    pub fn influx_type(&self) -> (r: InfluxColumnType)
        ensures
            r == self.spec_type(),
    {
        self.influx_type
    }

    /// Number of rows.
    pub fn len(&self) -> (r: usize)
        ensures
            r == self.spec_len(),
    {
        self.valid.len()
    }

    /// The number of strings a tag column's dictionary holds; zero for
    /// every other kind. A producer can check, before a write, that the
    /// batch's rows keep the symbols within range.
    pub fn dict_len(&self) -> (r: usize)
        ensures
            r == self.spec_dict_len(),
    {
        match &self.data {
            ColumnData::Tag(_, dict, _) => dict.len(),
            _ => 0,
        }
    }

    /// Law: every non-null cell of a signed or timestamp column lies
    /// between the minimum and maximum its statistics report, so a
    /// summary's bounds always cover the column's actual values.
    pub proof fn lemma_i64_cells_within_stats(&self, r: int)
        requires
            self.wf(),
            self.spec_type() == InfluxColumnType::Field(InfluxFieldType::Integer)
                || self.spec_type() == InfluxColumnType::Timestamp,
            0 <= r < self.cells().len(),
            self.cells()[r] is Some,
        ensures
            self.spec_statistics() matches Statistics::I64(st) && (self.cells()[r]
                matches Some(CellV::I(x)) ==> (st.min matches Some(mn) && mn <= x) && (st.max
                matches Some(mx) && x <= mx)),
    {
        match self.data {
            ColumnData::I64(d, st) => {
                lemma_valid_vals_i64_membership(self.valid@, d@, r);
                crate::stats::lemma_i64_fold_bounds(
                    empty_stats::<i64>(),
                    valid_vals_i64(self.valid@, d@),
                );
            },
            _ => {
                assert(false);
            },
        }
    }

    /// Appends a batch column's rows. The logical type is validated
    /// first and the null mask second, so a rejected batch leaves the
    /// column untouched; on success the cells grow by exactly the
    /// batch's cells, and the statistics fold in exactly the batch's
    /// non-null values.
    pub fn append(&mut self, entry: &EntryColumn) -> (r: Result<(), Error>)
        requires
            old(self).wf(),
            entry.data_consistent(),
            old(self).append_fits(entry),
            entry.spec_row_count() + 7 <= usize::MAX,
        ensures
            final(self).wf(),
            final(self).spec_type() == old(self).spec_type(),
            match r {
                Ok(()) => entry.spec_type() == old(self).spec_type() && (entry.spec_row_count()
                    == 0 || entry.mask_len_ok()) && final(self).cells() == old(self).cells()
                    + entry.cells() && final(self).spec_stats_count() == old(
                    self,
                ).spec_stats_count() + valid_before(entry.mask_view(), entry.spec_row_count())
                    && final(self).spec_dict_len() <= old(self).spec_dict_len() + valid_before(
                    entry.mask_view(),
                    entry.spec_row_count(),
                ) && final(self).spec_dict_strings() == (if old(self).spec_type() is Tag {
                    dict_after(old(self).spec_dict_strings(), entry_tag_values(*entry))
                } else {
                    old(self).spec_dict_strings()
                }),
                Err(e) => *final(self) == *old(self) && (match e {
                    Error::TypeMismatch { existing, inserted } => existing == old(
                        self,
                    ).spec_type() && inserted == entry.spec_type() && entry.spec_type() != old(
                        self,
                    ).spec_type(),
                    Error::InvalidNullMask { expected_bytes, actual_bytes } => entry.spec_type()
                        == old(self).spec_type() && !entry.mask_len_ok() && entry.spec_row_count()
                        > 0 && expected_bytes == (entry.spec_row_count() + 7) / 8 && (
                    entry.mask_view() matches Some(m) && actual_bytes == m.len()),
                }),
            },
    {
        match self.validate_schema(entry) {
            Err(e) => {
                return Err(e);
            },
            Ok(()) => {},
        }

        let row_count = entry.row_count;
        if row_count == 0 {
            proof {
                assert(entry.cells().len() == 0);
                assert(old(self).cells() + entry.cells() =~= old(self).cells());
                assert(values_len(entry.spec_values()) == 0);
                assert(entry_tag_values(*entry).len() == 0);
            }
            return Ok(());
        }

        let flags = match construct_valid_mask(entry) {
            Ok(f) => f,
            Err(e) => {
                return Err(e);
            },
        };

        proof {
            assert forall|p2: int|
                0 <= p2 < flags@.len() implies flags@[p2]
                == !crate::nullmask::spec_is_null_value(p2 + 1, entry.mask_view()) by {
                assert(flags@[p2] == !entry.row_null(p2));
            }
            assert forall|p: int| 0 <= p <= flags@.len() implies trues_upto(flags@, p)
                == valid_before(entry.mask_view(), p) by {
                lemma_trues_match_valid(flags@, entry.mask_view(), p);
            }
        }
        let ghost old_cells = old(self).cells();
        let ghost old_len = old(self).spec_valid().len() as int;

        match (&mut self.data, &entry.values) {
            (ColumnData::F64(d, st), ColumnValues::F64(vals)) => {
                append_vals_u64(&mut self.valid, d, st, &flags, vals, true);
            },
            (ColumnData::U64(d, st), ColumnValues::U64(vals)) => {
                append_vals_u64(&mut self.valid, d, st, &flags, vals, false);
            },
            (ColumnData::I64(d, st), ColumnValues::I64(vals)) => {
                append_vals_i64(&mut self.valid, d, st, &flags, vals);
            },
            (ColumnData::Bool(d, st), ColumnValues::Bool(vals)) => {
                append_vals_bool(&mut self.valid, d, st, &flags, vals);
            },
            (ColumnData::Str(d, st), ColumnValues::Str(vals)) => {
                append_vals_str(&mut self.valid, d, st, &flags, vals);
            },
            (ColumnData::Tag(d, dict, st), ColumnValues::Str(vals)) => {
                proof {
                    crate::entry::lemma_valid_before_monotone(
                        entry.mask_view(),
                        0,
                        entry.row_count as int,
                    );
                }
                append_vals_tag(&mut self.valid, d, dict, st, &flags, vals);
            },
            _ => {
                proof {
                    assert(false);
                }
                return Ok(());
            },
        }

        proof {
            self.lemma_append_cells(*old(self), entry, flags@, old_cells, old_len);
        }
        Ok(())
    }

    /// Pads the column with nulls up to `len` rows: the bitmap and the
    /// store grow with default slots, the statistics stay untouched.
    /// A no-op when the column already has `len` rows; columns never
    /// shrink.
    pub fn push_nulls_to_len(&mut self, len: usize)
        requires
            old(self).wf(),
            len >= old(self).spec_len(),
        ensures
            final(self).wf(),
            final(self).spec_type() == old(self).spec_type(),
            final(self).cells() == old(self).cells() + Seq::new(
                (len - old(self).spec_len()) as nat,
                |i: int| None::<CellV>,
            ),
            final(self).spec_stats_count() == old(self).spec_stats_count(),
            final(self).spec_dict_len() == old(self).spec_dict_len(),
            final(self).spec_dict_strings() == old(self).spec_dict_strings(),
    {
        let cur = self.valid.len();
        if cur == len {
            proof {
                assert(old(self).cells() + Seq::new(0nat, |i: int| None::<CellV>) =~= old(
                    self,
                ).cells());
            }
            return ;
        }
        let delta = len - cur;
        let flags = false_flags(delta);
        proof {
            lemma_trues_upto_all_false(flags@, flags@.len() as int);
        }
        let ghost old_cells = old(self).cells();
        let ghost old_len = old(self).spec_valid().len() as int;

        match &mut self.data {
            ColumnData::F64(d, st) => {
                let vals: Vec<u64> = Vec::new();
                append_vals_u64(&mut self.valid, d, st, &flags, &vals, true);
            },
            ColumnData::U64(d, st) => {
                let vals: Vec<u64> = Vec::new();
                append_vals_u64(&mut self.valid, d, st, &flags, &vals, false);
            },
            ColumnData::I64(d, st) => {
                let vals: Vec<i64> = Vec::new();
                append_vals_i64(&mut self.valid, d, st, &flags, &vals);
            },
            ColumnData::Bool(d, st) => {
                let vals: Vec<bool> = Vec::new();
                append_vals_bool(&mut self.valid, d, st, &flags, &vals);
            },
            ColumnData::Str(d, st) => {
                let vals: Vec<String> = Vec::new();
                append_vals_str(&mut self.valid, d, st, &flags, &vals);
            },
            ColumnData::Tag(d, dict, st) => {
                let vals: Vec<String> = Vec::new();
                proof {
                    dict.lemma_len_bound();
                }
                append_vals_tag(&mut self.valid, d, dict, st, &flags, &vals);
            },
        }

        proof {
            assert forall|r: int| 0 <= r < self.cells().len() implies self.cells()[r] == (old_cells
                + Seq::new((len - old_len) as nat, |i: int| None::<CellV>))[r] by {
                if r < old_len {
                    assert(self.spec_valid()[r] == old(self).spec_valid()[r]);
                } else {
                    assert(self.spec_valid()[r] == flags@[r - old_len]);
                }
            }
            assert(self.cells() =~= old_cells + Seq::new(
                (len - old_len) as nat,
                |i: int| None::<CellV>,
            ));
        }
    }

    /// A snapshot copy of the running statistics, typed by the column's
    /// kind. A tag column reports its distinct count: the dictionary's
    /// size, plus one where the column has null rows.
    pub fn stats(&self) -> (r: Statistics)
        requires
            self.wf(),
        ensures
            r == self.spec_statistics(),
    {
        match &self.data {
            ColumnData::F64(_, st) => Statistics::F64(
                StatValues {
                    min: st.min,
                    max: st.max,
                    count: st.count,
                    distinct_count: st.distinct_count,
                },
            ),
            ColumnData::I64(_, st) => Statistics::I64(
                StatValues {
                    min: st.min,
                    max: st.max,
                    count: st.count,
                    distinct_count: st.distinct_count,
                },
            ),
            ColumnData::U64(_, st) => Statistics::U64(
                StatValues {
                    min: st.min,
                    max: st.max,
                    count: st.count,
                    distinct_count: st.distinct_count,
                },
            ),
            ColumnData::Bool(_, st) => Statistics::Bool(
                StatValues {
                    min: st.min,
                    max: st.max,
                    count: st.count,
                    distinct_count: st.distinct_count,
                },
            ),
            ColumnData::Str(_, st) => Statistics::Str(
                StatValues {
                    min: clone_opt_string(&st.min),
                    max: clone_opt_string(&st.max),
                    count: st.count,
                    distinct_count: st.distinct_count,
                },
            ),
            ColumnData::Tag(_, dict, st) => {
                proof {
                    dict.lemma_len_bound();
                }
                let nulls: u64 = if (self.valid.len() as u64) > st.count {
                    1
                } else {
                    0
                };
                let distinct = dict.len() as u64 + nulls;
                Statistics::Str(
                    StatValues {
                        min: clone_opt_string(&st.min),
                        max: clone_opt_string(&st.max),
                        count: st.count,
                        distinct_count: if distinct > 0 {
                            Some(distinct)
                        } else {
                            None
                        },
                    },
                )
            },
        }
    }

    /// What `stats` reports: the accumulator, with a tag column's
    /// distinct count filled in from its dictionary and null rows.
    pub open(crate) spec fn spec_statistics(&self) -> Statistics {
        match self.data {
            ColumnData::F64(_, st) => Statistics::F64(st),
            ColumnData::I64(_, st) => Statistics::I64(st),
            ColumnData::U64(_, st) => Statistics::U64(st),
            ColumnData::Bool(_, st) => Statistics::Bool(st),
            ColumnData::Str(_, st) => Statistics::Str(st),
            ColumnData::Tag(_, dict, st) => {
                let nulls: int = if self.valid@.len() > st.count {
                    1int
                } else {
                    0int
                };
                let distinct = dict.strings().len() + nulls;
                Statistics::Str(
                    StatValues {
                        min: st.min,
                        max: st.max,
                        count: st.count,
                        distinct_count: if distinct > 0 {
                            Some(distinct as u64)
                        } else {
                            None
                        },
                    },
                )
            },
        }
    }

    /// Approximate byte footprint of the column: the typed store, the
    /// validity bitmap, and for tags the dictionary, saturating at the
    /// machine limit. Symbols take four bytes, numeric slots eight.
    pub fn size(&self) -> (r: usize)
        requires
            self.wf(),
        ensures
            r == self.spec_size(),
    {
        let data_size: usize = match &self.data {
            ColumnData::F64(d, _) => sat_mul8(d.len()),
            ColumnData::I64(d, _) => sat_mul8(d.len()),
            ColumnData::U64(d, _) => sat_mul8(d.len()),
            ColumnData::Bool(d, _) => d.byte_len(),
            ColumnData::Str(d, _) => vec_string_bytes(d),
            ColumnData::Tag(d, dict, _) => sat_add(sat_mul4(d.len()), dict.size()),
        };
        sat_add(data_size, self.valid.byte_len())
    }

    /// What `size` reports.
    pub open(crate) spec fn spec_size(&self) -> int {
        let data_size: int = match self.data {
            ColumnData::F64(d, _) => sat_cap(d@.len() * 8int),
            ColumnData::I64(d, _) => sat_cap(d@.len() * 8int),
            ColumnData::U64(d, _) => sat_cap(d@.len() * 8int),
            ColumnData::Bool(d, _) => (d@.len() + 7int) / 8,
            ColumnData::Str(d, _) => sat_cap(storage_bytes(d@.map_values(|s: String| s@))),
            ColumnData::Tag(d, dict, _) => sat_cap(
                sat_cap(d@.len() * 4int) + sat_cap(
                    storage_bytes(dict.strings()) + dict.strings().len() * 4,
                ),
            ),
        };
        sat_cap(data_size + (self.valid@.len() + 7) / 8)
    }

    /// Converts the column into its export array form: one value slot
    /// per row with the validity flags alongside, the same cells as the
    /// column's own.
    pub fn to_arrow(&self) -> (r: ArrayData)
        requires
            self.wf(),
        ensures
            r.wf(),
            r.cells() == self.cells(),
            r.spec_len() == self.spec_len(),
            (r is Tag) == (self.spec_type() is Tag),
            (r is F64) == (self.spec_type() == InfluxColumnType::Field(InfluxFieldType::Float)),
            (r is U64) == (self.spec_type() == InfluxColumnType::Field(InfluxFieldType::UInteger)),
            (r is Bool) == (self.spec_type() == InfluxColumnType::Field(InfluxFieldType::Boolean)),
            (r is Str) == (self.spec_type() == InfluxColumnType::Field(InfluxFieldType::Str)),
            (r is I64) == (self.spec_type() == InfluxColumnType::Field(InfluxFieldType::Integer)
                || self.spec_type() == InfluxColumnType::Timestamp),
    {
        let valid = self.valid_flags();
        let r = match &self.data {
            ColumnData::F64(d, _) => ArrayData::F64 { values: copy_u64s(d), valid },
            ColumnData::I64(d, _) => ArrayData::I64 { values: copy_i64s(d), valid },
            ColumnData::U64(d, _) => ArrayData::U64 { values: copy_u64s(d), valid },
            ColumnData::Bool(d, _) => ArrayData::Bool { values: bitset_flags(d), valid },
            ColumnData::Str(d, _) => ArrayData::Str { values: clone_strings(d), valid },
            ColumnData::Tag(d, dict, _) => ArrayData::Tag {
                keys: copy_i32s(d),
                dict: clone_strings(dict.values()),
                valid,
            },
        };
        proof {
            assert(r.cells() =~= self.cells());
        }
        r
    }

    /// The validity bitmap as one flag per row.
    fn valid_flags(&self) -> (r: Vec<bool>)
        requires
            self.wf(),
        ensures
            r@ == self.spec_valid(),
    {
        let n = self.valid.len();
        let mut r: Vec<bool> = Vec::new();
        let mut i: usize = 0;
        while i < n
            invariant
                self.wf(),
                n == self.valid@.len(),
                i <= n,
                r@.len() == i,
                forall|j: int| 0 <= j < i ==> r@[j] == self.valid@[j],
            decreases n - i,
        {
            r.push(self.valid.get(i));
            i = i + 1;
        }
        proof {
            assert(r@ =~= self.spec_valid());
        }
        r
    }

    /// After an append, the cells are the old cells followed by the
    /// batch's cells.
    proof fn lemma_append_cells(
        &self,
        prev: Column,
        entry: &EntryColumn,
        flags: Seq<bool>,
        old_cells: Seq<Option<CellV>>,
        old_len: int,
    )
        requires
            prev.wf(),
            entry.data_consistent(),
            entry.spec_type() == prev.spec_type(),
            old_cells == prev.cells(),
            old_len == prev.spec_valid().len(),
            flags.len() == entry.row_count,
            forall|p: int| 0 <= p < flags.len() ==> flags[p] == !entry.row_null(p),
            forall|p: int|
                0 <= p <= flags.len() ==> trues_upto(flags, p) == valid_before(
                    entry.mask_view(),
                    p,
                ),
            self.spec_type() == prev.spec_type(),
            self.spec_valid() == prev.spec_valid() + flags,
            append_payload_ok(*self, prev, entry, flags),
        ensures
            self.cells() == old_cells + entry.cells(),
    {
        assert forall|r: int| 0 <= r < self.cells().len() implies self.cells()[r] == (old_cells
            + entry.cells())[r] by {
            if r < old_len {
                assert(self.spec_valid()[r] == prev.spec_valid()[r]);
            } else {
                let p = r - old_len;
                assert(self.spec_valid()[r] == flags[p]);
                if flags[p] {
                    lemma_trues_upto_in_range(flags, p);
                }
            }
        }
        assert(self.cells() =~= old_cells + entry.cells());
    }

}

/// The relation the typed append helpers leave between the new and the
/// old payloads of a column, for each storage kind.
pub open(crate) spec fn append_payload_ok(
    cur: Column,
    prev: Column,
    entry: &EntryColumn,
    flags: Seq<bool>,
) -> bool {
    let old_len = prev.spec_valid().len() as int;
    match (cur.data, prev.data, entry.spec_values()) {
        (ColumnData::F64(d, _), ColumnData::F64(pd, _), ColumnValues::F64(vals)) => {
            &&& d@.len() == pd@.len() + flags.len()
            &&& (forall|p: int| 0 <= p < pd@.len() ==> d@[p] == pd@[p])
            &&& (forall|p: int|
                0 <= p < flags.len() && flags[p] ==> d@[old_len + p] == vals@[trues_upto(
                    flags,
                    p,
                )])
        },
        (ColumnData::U64(d, _), ColumnData::U64(pd, _), ColumnValues::U64(vals)) => {
            &&& d@.len() == pd@.len() + flags.len()
            &&& (forall|p: int| 0 <= p < pd@.len() ==> d@[p] == pd@[p])
            &&& (forall|p: int|
                0 <= p < flags.len() && flags[p] ==> d@[old_len + p] == vals@[trues_upto(
                    flags,
                    p,
                )])
        },
        (ColumnData::I64(d, _), ColumnData::I64(pd, _), ColumnValues::I64(vals)) => {
            &&& d@.len() == pd@.len() + flags.len()
            &&& (forall|p: int| 0 <= p < pd@.len() ==> d@[p] == pd@[p])
            &&& (forall|p: int|
                0 <= p < flags.len() && flags[p] ==> d@[old_len + p] == vals@[trues_upto(
                    flags,
                    p,
                )])
        },
        (ColumnData::Bool(d, _), ColumnData::Bool(pd, _), ColumnValues::Bool(vals)) => {
            &&& d@.len() == pd@.len() + flags.len()
            &&& (forall|p: int| 0 <= p < pd@.len() ==> d@[p] == pd@[p])
            &&& (forall|p: int|
                0 <= p < flags.len() && flags[p] ==> d@[old_len + p] == vals@[trues_upto(
                    flags,
                    p,
                )])
        },
        (ColumnData::Str(d, _), ColumnData::Str(pd, _), ColumnValues::Str(vals)) => {
            &&& d@.len() == pd@.len() + flags.len()
            &&& (forall|p: int| 0 <= p < pd@.len() ==> d@[p] == pd@[p])
            &&& (forall|p: int|
                0 <= p < flags.len() && flags[p] ==> d@[old_len + p]@ == vals@[trues_upto(
                    flags,
                    p,
                )]@)
        },
        (
            ColumnData::Tag(d, dict, _),
            ColumnData::Tag(pd, pdict, _),
            ColumnValues::Str(vals),
        ) => {
            &&& d@.len() == pd@.len() + flags.len()
            &&& (forall|p: int| 0 <= p < pd@.len() ==> d@[p] == pd@[p])
            &&& pdict.strings().len() <= dict.strings().len()
            &&& (forall|i: int|
                0 <= i < pdict.strings().len() ==> dict.strings()[i] == pdict.strings()[i])
            &&& (forall|r: int|
                0 <= r < cur.spec_valid().len() && cur.spec_valid()[r] ==> 0 <= #[trigger] d@[r]
                    < dict.strings().len())
            &&& (forall|p: int|
                0 <= p < flags.len() && flags[p] ==> dict.strings()[d@[old_len + p] as int]
                    == vals@[trues_upto(flags, p)]@)
        },
        _ => false,
    }
}

/// A copy of an optional string.
fn clone_opt_string(v: &Option<String>) -> (r: Option<String>)
    ensures
        r == *v,
{
    match v {
        Some(s) => Some(s.clone()),
        None => None,
    }
}

/// A copy of an unsigned vector.
pub(crate) fn copy_u64s(v: &Vec<u64>) -> (r: Vec<u64>)
    ensures
        r@ == v@,
{
    let mut r: Vec<u64> = Vec::new();
    let mut i: usize = 0;
    while i < v.len()
        invariant
            i <= v@.len(),
            r@ == v@.take(i as int),
        decreases v@.len() - i,
    {
        r.push(v[i]);
        proof {
            assert(r@ =~= v@.take(i as int + 1));
        }
        i = i + 1;
    }
    proof {
        assert(v@.take(v@.len() as int) =~= v@);
    }
    r
}

/// A copy of a signed vector.
pub(crate) fn copy_i64s(v: &Vec<i64>) -> (r: Vec<i64>)
    ensures
        r@ == v@,
{
    let mut r: Vec<i64> = Vec::new();
    let mut i: usize = 0;
    while i < v.len()
        invariant
            i <= v@.len(),
            r@ == v@.take(i as int),
        decreases v@.len() - i,
    {
        r.push(v[i]);
        proof {
            assert(r@ =~= v@.take(i as int + 1));
        }
        i = i + 1;
    }
    proof {
        assert(v@.take(v@.len() as int) =~= v@);
    }
    r
}

/// A copy of a symbol vector.
pub(crate) fn copy_i32s(v: &Vec<i32>) -> (r: Vec<i32>)
    ensures
        r@ == v@,
{
    let mut r: Vec<i32> = Vec::new();
    let mut i: usize = 0;
    while i < v.len()
        invariant
            i <= v@.len(),
            r@ == v@.take(i as int),
        decreases v@.len() - i,
    {
        r.push(v[i]);
        proof {
            assert(r@ =~= v@.take(i as int + 1));
        }
        i = i + 1;
    }
    proof {
        assert(v@.take(v@.len() as int) =~= v@);
    }
    r
}

/// A copy of a string vector, element by element.
pub(crate) fn clone_strings(v: &Vec<String>) -> (r: Vec<String>)
    ensures
        r@ == v@,
{
    let mut r: Vec<String> = Vec::new();
    let mut i: usize = 0;
    while i < v.len()
        invariant
            i <= v@.len(),
            r@ == v@.take(i as int),
        decreases v@.len() - i,
    {
        r.push(v[i].clone());
        proof {
            assert(r@ =~= v@.take(i as int + 1));
        }
        i = i + 1;
    }
    proof {
        assert(v@.take(v@.len() as int) =~= v@);
    }
    r
}

/// A packed bitmap unpacked into one flag per position.
fn bitset_flags(d: &BitSet) -> (r: Vec<bool>)
    requires
        d.wf(),
    ensures
        r@ == d@,
{
    let n = d.len();
    let mut r: Vec<bool> = Vec::new();
    let mut i: usize = 0;
    while i < n
        invariant
            d.wf(),
            n == d@.len(),
            i <= n,
            r@.len() == i,
            forall|j: int| 0 <= j < i ==> r@[j] == d@[j],
        decreases n - i,
    {
        r.push(d.get(i));
        i = i + 1;
    }
    proof {
        assert(r@ =~= d@);
    }
    r
}

/// A run of clear flags selects nothing.
pub proof fn lemma_trues_upto_all_false(flags: Seq<bool>, r: int)
    requires
        forall|p: int| 0 <= p < flags.len() ==> !flags[p],
        r <= flags.len(),
    ensures
        trues_upto(flags, r) == 0,
    decreases r,
{
    if r > 0 {
        lemma_trues_upto_all_false(flags, r - 1);
    }
}

/// While a set flag is in range, its value index is below the total.
pub proof fn lemma_trues_upto_in_range(flags: Seq<bool>, p: int)
    requires
        0 <= p < flags.len(),
        flags[p],
    ensures
        0 <= trues_upto(flags, p),
        trues_upto(flags, p) < trues_upto(flags, flags.len() as int),
{
    lemma_trues_upto_bounds(flags, 0, p);
    lemma_trues_upto_bounds(flags, p + 1, flags.len() as int);
}

/// Whether two logical types are the same.
fn influx_type_eq(a: InfluxColumnType, b: InfluxColumnType) -> (r: bool)
    ensures
        r == (a == b),
{
    match (a, b) {
        (InfluxColumnType::Tag, InfluxColumnType::Tag) => true,
        (InfluxColumnType::Timestamp, InfluxColumnType::Timestamp) => true,
        (InfluxColumnType::Field(x), InfluxColumnType::Field(y)) => match (x, y) {
            (InfluxFieldType::Float, InfluxFieldType::Float) => true,
            (InfluxFieldType::Integer, InfluxFieldType::Integer) => true,
            (InfluxFieldType::UInteger, InfluxFieldType::UInteger) => true,
            (InfluxFieldType::Str, InfluxFieldType::Str) => true,
            (InfluxFieldType::Boolean, InfluxFieldType::Boolean) => true,
            _ => false,
        },
        _ => false,
    }
}

/// On an all-clear bitmap no value is selected.
proof fn lemma_valid_vals_of_unset(valid: Seq<bool>, n: int)
    requires
        valid =~= Seq::new(n as nat, |i: int| false),
        n >= 0,
    ensures
        forall|d: Seq<u64>| #[trigger] valid_vals_u64(valid, d) == Seq::<u64>::empty(),
        forall|d: Seq<i64>| #[trigger] valid_vals_i64(valid, d) == Seq::<i64>::empty(),
        forall|d: Seq<bool>| #[trigger] valid_vals_bool(valid, d) == Seq::<bool>::empty(),
        forall|d: Seq<Seq<char>>| #[trigger] valid_vals_str(valid, d) == Seq::<Seq<char>>::empty(),
    decreases n,
{
    if n > 0 {
        let prev = Seq::new((n - 1) as nat, |i: int| false);
        assert(valid.drop_last() =~= prev);
        lemma_valid_vals_of_unset(prev, n - 1);
        assert(!valid.last());
        assert forall|d: Seq<u64>| #[trigger] valid_vals_u64(valid, d)
            == Seq::<u64>::empty() by {
            assert(valid_vals_u64(prev, d.drop_last()) == Seq::<u64>::empty());
        }
        assert forall|d: Seq<i64>| #[trigger] valid_vals_i64(valid, d)
            == Seq::<i64>::empty() by {
            assert(valid_vals_i64(prev, d.drop_last()) == Seq::<i64>::empty());
        }
        assert forall|d: Seq<bool>| #[trigger] valid_vals_bool(valid, d)
            == Seq::<bool>::empty() by {
            assert(valid_vals_bool(prev, d.drop_last()) == Seq::<bool>::empty());
        }
        assert forall|d: Seq<Seq<char>>| #[trigger] valid_vals_str(valid, d)
            == Seq::<Seq<char>>::empty() by {
            assert(valid_vals_str(prev, d.drop_last()) == Seq::<Seq<char>>::empty());
        }
    }
}

/// A vector of `n` zero slots.
fn zero_u64s(n: usize) -> (r: Vec<u64>)
    ensures
        r@ == Seq::new(n as nat, |i: int| 0u64),
{
    let mut r: Vec<u64> = Vec::new();
    let mut i: usize = 0;
    while i < n
        invariant
            i <= n,
            r@ =~= Seq::new(i as nat, |j: int| 0u64),
        decreases n - i,
    {
        r.push(0);
        proof {
            assert(r@ =~= Seq::new((i + 1) as nat, |j: int| 0u64));
        }
        i = i + 1;
    }
    r
}

/// A vector of `n` zero slots.
fn zero_i64s(n: usize) -> (r: Vec<i64>)
    ensures
        r@ == Seq::new(n as nat, |i: int| 0i64),
{
    let mut r: Vec<i64> = Vec::new();
    let mut i: usize = 0;
    while i < n
        invariant
            i <= n,
            r@ =~= Seq::new(i as nat, |j: int| 0i64),
        decreases n - i,
    {
        r.push(0);
        proof {
            assert(r@ =~= Seq::new((i + 1) as nat, |j: int| 0i64));
        }
        i = i + 1;
    }
    r
}

/// A vector of `n` empty-string slots.
fn empty_strings(n: usize) -> (r: Vec<String>)
    ensures
        r@.len() == n,
{
    let mut r: Vec<String> = Vec::new();
    let mut i: usize = 0;
    while i < n
        invariant
            i <= n,
            r@.len() == i,
        decreases n - i,
    {
        r.push(String::new());
        i = i + 1;
    }
    r
}

/// A vector of `n` clear flags.
fn false_flags(n: usize) -> (r: Vec<bool>)
    ensures
        r@ == Seq::new(n as nat, |i: int| false),
{
    let mut r: Vec<bool> = Vec::new();
    let mut i: usize = 0;
    while i < n
        invariant
            i <= n,
            r@ =~= Seq::new(i as nat, |j: int| false),
        decreases n - i,
    {
        r.push(false);
        proof {
            assert(r@ =~= Seq::new((i + 1) as nat, |j: int| false));
        }
        i = i + 1;
    }
    r
}

/// Builds the per-row validity flags of a batch column from its null
/// mask: a set flag marks a row with a value. A missing mask means
/// every row has a value; a mask of the wrong byte length is rejected
/// before anything is touched.
fn construct_valid_mask(entry: &EntryColumn) -> (r: Result<Vec<bool>, Error>)
    requires
        entry.row_count + 7 <= usize::MAX,
    ensures
        match r {
            Ok(flags) => entry.mask_len_ok() && flags@.len() == entry.row_count && forall|p: int|
                0 <= p < flags@.len() ==> flags@[p] == !entry.row_null(p),
            Err(e) => !entry.mask_len_ok() && (e matches Error::InvalidNullMask {
                expected_bytes,
                actual_bytes,
            } && expected_bytes == (entry.row_count + 7) / 8 && Some(actual_bytes as int)
                == (match entry.mask_view() {
                Some(m) => Some(m.len() as int),
                None => None,
            })),
        },
{
    let buf_len = (entry.row_count + 7) / 8;
    match &entry.null_mask {
        Some(mask) => {
            if mask.len() != buf_len {
                return Err(
                    Error::InvalidNullMask { expected_bytes: buf_len, actual_bytes: mask.len() },
                );
            }
            let mut flags: Vec<bool> = Vec::new();
            let mut p: usize = 0;
            while p < entry.row_count
                invariant
                    p <= entry.row_count,
                    entry.row_count + 7 <= usize::MAX,
                    flags@.len() == p,
                    entry.mask_view() matches Some(m) && m == mask@,
                    forall|j: int| 0 <= j < p ==> flags@[j] == !entry.row_null(j),
                decreases entry.row_count - p,
            {
                let is_null = crate::nullmask::is_null_value(p + 1, &Some(mask.as_slice()));
                flags.push(!is_null);
                p = p + 1;
            }
            Ok(flags)
        },
        None => {
            let flags = false_flags_negated(entry.row_count);
            proof {
                assert(entry.mask_view() is None);
            }
            Ok(flags)
        },
    }
}

/// A vector of `n` set flags.
fn false_flags_negated(n: usize) -> (r: Vec<bool>)
    ensures
        r@ == Seq::new(n as nat, |i: int| true),
{
    let mut r: Vec<bool> = Vec::new();
    let mut i: usize = 0;
    while i < n
        invariant
            i <= n,
            r@ =~= Seq::new(i as nat, |j: int| true),
        decreases n - i,
    {
        r.push(true);
        proof {
            assert(r@ =~= Seq::new((i + 1) as nat, |j: int| true));
        }
        i = i + 1;
    }
    r
}

/// Appends batch rows into a signed store: one value per set flag, a
/// zero slot per clear flag, folding each value into the accumulator.
fn append_vals_i64(
    valid: &mut BitSet,
    d: &mut Vec<i64>,
    st: &mut StatValues<i64>,
    flags: &Vec<bool>,
    vals: &Vec<i64>,
)
    requires
        old(valid).wf(),
        old(d)@.len() == old(valid)@.len(),
        *old(st) == spec_update_i64_seq(empty_stats::<i64>(), valid_vals_i64(old(valid)@, old(d)@)),
        old(st).count == valid_vals_i64(old(valid)@, old(d)@).len(),
        vals@.len() == trues_upto(flags@, flags@.len() as int),
        old(valid)@.len() + flags@.len() <= usize::MAX,
    ensures
        final(valid).wf(),
        final(valid)@ == old(valid)@ + flags@,
        final(d)@.len() == old(d)@.len() + flags@.len(),
        forall|p: int| 0 <= p < old(d)@.len() ==> final(d)@[p] == old(d)@[p],
        forall|p: int|
            0 <= p < flags@.len() && flags@[p] ==> final(d)@[old(d)@.len() + p] == vals@[trues_upto(
                flags@,
                p,
            )],
        *final(st) == spec_update_i64_seq(
            empty_stats::<i64>(),
            valid_vals_i64(final(valid)@, final(d)@),
        ),
        final(st).count == valid_vals_i64(final(valid)@, final(d)@).len(),
        final(st).count == old(st).count + vals@.len(),
{
    let n = flags.len();
    let mut q: usize = 0;
    let mut vi: usize = 0;
    while q < n
        invariant
            valid.wf(),
            n == flags@.len(),
            q <= n,
            vi == trues_upto(flags@, q as int),
            vals@.len() == trues_upto(flags@, n as int),
            old(valid)@.len() + n <= usize::MAX,
            valid@ == old(valid)@ + flags@.take(q as int),
            d@.len() == old(d)@.len() + q,
            old(d)@.len() == old(valid)@.len(),
            forall|p: int| 0 <= p < old(d)@.len() ==> d@[p] == old(d)@[p],
            forall|p: int|
                0 <= p < q && flags@[p] ==> d@[old(d)@.len() + p] == vals@[trues_upto(flags@, p)],
            valid_vals_i64(valid@, d@) == valid_vals_i64(old(valid)@, old(d)@) + vals@.take(
                vi as int,
            ),
            *st == spec_update_i64_seq(empty_stats::<i64>(), valid_vals_i64(valid@, d@)),
            st.count == valid_vals_i64(valid@, d@).len(),
        decreases n - q,
    {
        let ghost prev_valid = valid@;
        let ghost prev_d = d@;
        let ghost prev_vals = valid_vals_i64(valid@, d@);
        proof {
            lemma_trues_upto_bounds(flags@, q as int + 1, n as int);
            lemma_trues_upto_bounds(flags@, 0, q as int);
            lemma_valid_vals_i64_len(old(valid)@, old(d)@);
        }
        if flags[q] {
            let v = vals[vi];
            proof {
                assert(st.count == valid_vals_i64(old(valid)@, old(d)@).len() + vi);
                assert(st.count < usize::MAX);
                assert(usize::MAX <= u64::MAX);
            }
            st.update(v);
            d.push(v);
            valid.push(true);
            vi = vi + 1;
            proof {
                assert(valid@.drop_last() =~= prev_valid);
                assert(d@.drop_last() =~= prev_d);
                assert(valid_vals_i64(valid@, d@) == prev_vals.push(v));
                assert(vals@.take(vi as int).drop_last() =~= vals@.take(vi as int - 1));
                assert(vals@.take(vi as int) =~= vals@.take(vi as int - 1).push(v));
                assert(valid_vals_i64(valid@, d@) =~= valid_vals_i64(old(valid)@, old(d)@)
                    + vals@.take(vi as int));
                assert((valid_vals_i64(old(valid)@, old(d)@) + vals@.take(vi as int)).drop_last()
                    =~= valid_vals_i64(old(valid)@, old(d)@) + vals@.take(vi as int - 1));
            }
        } else {
            d.push(0);
            valid.push(false);
            proof {
                assert(valid@.drop_last() =~= prev_valid);
                assert(d@.drop_last() =~= prev_d);
                assert(valid_vals_i64(valid@, d@) == prev_vals);
            }
        }
        proof {
            assert(valid@ =~= old(valid)@ + flags@.take(q as int + 1));
        }
        q = q + 1;
    }
    proof {
        assert(flags@.take(n as int) =~= flags@);
        assert(vals@.take(vals@.len() as int) =~= vals@);
    }
}

/// Appends batch rows into an unsigned store, folding each value with
/// the given treatment of doubles: plain unsigned order, or double
/// order over bit patterns with NaN kept out of min and max.
fn append_vals_u64(
    valid: &mut BitSet,
    d: &mut Vec<u64>,
    st: &mut StatValues<u64>,
    flags: &Vec<bool>,
    vals: &Vec<u64>,
    as_f64: bool,
)
    requires
        old(valid).wf(),
        old(d)@.len() == old(valid)@.len(),
        *old(st) == (if as_f64 {
            spec_update_f64_seq(empty_stats::<u64>(), valid_vals_u64(old(valid)@, old(d)@))
        } else {
            spec_update_u64_seq(empty_stats::<u64>(), valid_vals_u64(old(valid)@, old(d)@))
        }),
        old(st).count == valid_vals_u64(old(valid)@, old(d)@).len(),
        vals@.len() == trues_upto(flags@, flags@.len() as int),
        old(valid)@.len() + flags@.len() <= usize::MAX,
    ensures
        final(valid).wf(),
        final(valid)@ == old(valid)@ + flags@,
        final(d)@.len() == old(d)@.len() + flags@.len(),
        forall|p: int| 0 <= p < old(d)@.len() ==> final(d)@[p] == old(d)@[p],
        forall|p: int|
            0 <= p < flags@.len() && flags@[p] ==> final(d)@[old(d)@.len() + p] == vals@[trues_upto(
                flags@,
                p,
            )],
        *final(st) == (if as_f64 {
            spec_update_f64_seq(empty_stats::<u64>(), valid_vals_u64(final(valid)@, final(d)@))
        } else {
            spec_update_u64_seq(empty_stats::<u64>(), valid_vals_u64(final(valid)@, final(d)@))
        }),
        final(st).count == valid_vals_u64(final(valid)@, final(d)@).len(),
        final(st).count == old(st).count + vals@.len(),
{
    let n = flags.len();
    let mut q: usize = 0;
    let mut vi: usize = 0;
    while q < n
        invariant
            valid.wf(),
            n == flags@.len(),
            q <= n,
            vi == trues_upto(flags@, q as int),
            vals@.len() == trues_upto(flags@, n as int),
            old(valid)@.len() + n <= usize::MAX,
            valid@ == old(valid)@ + flags@.take(q as int),
            d@.len() == old(d)@.len() + q,
            old(d)@.len() == old(valid)@.len(),
            forall|p: int| 0 <= p < old(d)@.len() ==> d@[p] == old(d)@[p],
            forall|p: int|
                0 <= p < q && flags@[p] ==> d@[old(d)@.len() + p] == vals@[trues_upto(flags@, p)],
            valid_vals_u64(valid@, d@) == valid_vals_u64(old(valid)@, old(d)@) + vals@.take(
                vi as int,
            ),
            *st == (if as_f64 {
                spec_update_f64_seq(empty_stats::<u64>(), valid_vals_u64(valid@, d@))
            } else {
                spec_update_u64_seq(empty_stats::<u64>(), valid_vals_u64(valid@, d@))
            }),
            st.count == valid_vals_u64(valid@, d@).len(),
        decreases n - q,
    {
        let ghost prev_valid = valid@;
        let ghost prev_d = d@;
        let ghost prev_vals = valid_vals_u64(valid@, d@);
        proof {
            lemma_trues_upto_bounds(flags@, q as int + 1, n as int);
            lemma_trues_upto_bounds(flags@, 0, q as int);
            lemma_valid_vals_u64_len(old(valid)@, old(d)@);
        }
        if flags[q] {
            let v = vals[vi];
            proof {
                assert(st.count == valid_vals_u64(old(valid)@, old(d)@).len() + vi);
                assert(st.count < usize::MAX);
                assert(usize::MAX <= u64::MAX);
            }
            if as_f64 {
                st.update_f64_bits(v);
            } else {
                st.update(v);
            }
            d.push(v);
            valid.push(true);
            vi = vi + 1;
            proof {
                assert(valid@.drop_last() =~= prev_valid);
                assert(d@.drop_last() =~= prev_d);
                assert(valid_vals_u64(valid@, d@) == prev_vals.push(v));
                assert(vals@.take(vi as int).drop_last() =~= vals@.take(vi as int - 1));
                assert(vals@.take(vi as int) =~= vals@.take(vi as int - 1).push(v));
                assert(valid_vals_u64(valid@, d@) =~= valid_vals_u64(old(valid)@, old(d)@)
                    + vals@.take(vi as int));
                assert((valid_vals_u64(old(valid)@, old(d)@) + vals@.take(vi as int)).drop_last()
                    =~= valid_vals_u64(old(valid)@, old(d)@) + vals@.take(vi as int - 1));
            }
        } else {
            d.push(0);
            valid.push(false);
            proof {
                assert(valid@.drop_last() =~= prev_valid);
                assert(d@.drop_last() =~= prev_d);
                assert(valid_vals_u64(valid@, d@) == prev_vals);
            }
        }
        proof {
            assert(valid@ =~= old(valid)@ + flags@.take(q as int + 1));
        }
        q = q + 1;
    }
    proof {
        assert(flags@.take(n as int) =~= flags@);
        assert(vals@.take(vals@.len() as int) =~= vals@);
    }
}

/// Appends batch rows into a boolean store: one bit per set flag, a
/// clear bit per clear flag, folding each value into the accumulator.
fn append_vals_bool(
    valid: &mut BitSet,
    d: &mut BitSet,
    st: &mut StatValues<bool>,
    flags: &Vec<bool>,
    vals: &Vec<bool>,
)
    requires
        old(valid).wf(),
        old(d).wf(),
        old(d)@.len() == old(valid)@.len(),
        *old(st) == spec_update_bool_seq(
            empty_stats::<bool>(),
            valid_vals_bool(old(valid)@, old(d)@),
        ),
        old(st).count == valid_vals_bool(old(valid)@, old(d)@).len(),
        vals@.len() == trues_upto(flags@, flags@.len() as int),
        old(valid)@.len() + flags@.len() <= usize::MAX,
    ensures
        final(valid).wf(),
        final(d).wf(),
        final(valid)@ == old(valid)@ + flags@,
        final(d)@.len() == old(d)@.len() + flags@.len(),
        forall|p: int| 0 <= p < old(d)@.len() ==> final(d)@[p] == old(d)@[p],
        forall|p: int|
            0 <= p < flags@.len() && flags@[p] ==> final(d)@[old(d)@.len() + p] == vals@[trues_upto(
                flags@,
                p,
            )],
        *final(st) == spec_update_bool_seq(
            empty_stats::<bool>(),
            valid_vals_bool(final(valid)@, final(d)@),
        ),
        final(st).count == valid_vals_bool(final(valid)@, final(d)@).len(),
        final(st).count == old(st).count + vals@.len(),
{
    let n = flags.len();
    let mut q: usize = 0;
    let mut vi: usize = 0;
    while q < n
        invariant
            valid.wf(),
            d.wf(),
            n == flags@.len(),
            q <= n,
            vi == trues_upto(flags@, q as int),
            vals@.len() == trues_upto(flags@, n as int),
            old(valid)@.len() + n <= usize::MAX,
            valid@ == old(valid)@ + flags@.take(q as int),
            d@.len() == old(d)@.len() + q,
            old(d)@.len() == old(valid)@.len(),
            forall|p: int| 0 <= p < old(d)@.len() ==> d@[p] == old(d)@[p],
            forall|p: int|
                0 <= p < q && flags@[p] ==> d@[old(d)@.len() + p] == vals@[trues_upto(flags@, p)],
            valid_vals_bool(valid@, d@) == valid_vals_bool(old(valid)@, old(d)@) + vals@.take(
                vi as int,
            ),
            *st == spec_update_bool_seq(empty_stats::<bool>(), valid_vals_bool(valid@, d@)),
            st.count == valid_vals_bool(valid@, d@).len(),
        decreases n - q,
    {
        let ghost prev_valid = valid@;
        let ghost prev_d = d@;
        let ghost prev_vals = valid_vals_bool(valid@, d@);
        proof {
            lemma_trues_upto_bounds(flags@, q as int + 1, n as int);
            lemma_trues_upto_bounds(flags@, 0, q as int);
            lemma_valid_vals_bool_len(old(valid)@, old(d)@);
        }
        if flags[q] {
            let v = vals[vi];
            proof {
                assert(st.count == valid_vals_bool(old(valid)@, old(d)@).len() + vi);
                assert(st.count < usize::MAX);
                assert(usize::MAX <= u64::MAX);
            }
            st.update(v);
            d.push(v);
            valid.push(true);
            vi = vi + 1;
            proof {
                assert(valid@.drop_last() =~= prev_valid);
                assert(d@.drop_last() =~= prev_d);
                assert(valid_vals_bool(valid@, d@) == prev_vals.push(v));
                assert(vals@.take(vi as int).drop_last() =~= vals@.take(vi as int - 1));
                assert(vals@.take(vi as int) =~= vals@.take(vi as int - 1).push(v));
                assert(valid_vals_bool(valid@, d@) =~= valid_vals_bool(old(valid)@, old(d)@)
                    + vals@.take(vi as int));
                assert((valid_vals_bool(old(valid)@, old(d)@) + vals@.take(vi as int)).drop_last()
                    =~= valid_vals_bool(old(valid)@, old(d)@) + vals@.take(vi as int - 1));
            }
        } else {
            d.push(false);
            valid.push(false);
            proof {
                assert(valid@.drop_last() =~= prev_valid);
                assert(d@.drop_last() =~= prev_d);
                assert(valid_vals_bool(valid@, d@) == prev_vals);
            }
        }
        proof {
            assert(valid@ =~= old(valid)@ + flags@.take(q as int + 1));
        }
        q = q + 1;
    }
    proof {
        assert(flags@.take(n as int) =~= flags@);
        assert(vals@.take(vals@.len() as int) =~= vals@);
    }
}

/// Appends batch rows into a string store: one string per set flag, an
/// empty slot per clear flag, folding each value into the accumulator.
fn append_vals_str(
    valid: &mut BitSet,
    d: &mut Vec<String>,
    st: &mut StatValues<String>,
    flags: &Vec<bool>,
    vals: &Vec<String>,
)
    requires
        old(valid).wf(),
        old(d)@.len() == old(valid)@.len(),
        str_stats_view(*old(st)) == spec_update_str_seq(
            empty_str_stats(),
            valid_vals_str(old(valid)@, old(d)@.map_values(|s: String| s@)),
        ),
        old(st).count == valid_vals_str(old(valid)@, old(d)@.map_values(|s: String| s@)).len(),
        vals@.len() == trues_upto(flags@, flags@.len() as int),
        old(valid)@.len() + flags@.len() <= usize::MAX,
    ensures
        final(valid).wf(),
        final(valid)@ == old(valid)@ + flags@,
        final(d)@.len() == old(d)@.len() + flags@.len(),
        forall|p: int| 0 <= p < old(d)@.len() ==> final(d)@[p] == old(d)@[p],
        forall|p: int|
            0 <= p < flags@.len() && flags@[p] ==> final(d)@[old(d)@.len() + p]@ == vals@[
                trues_upto(flags@, p)]@,
        str_stats_view(*final(st)) == spec_update_str_seq(
            empty_str_stats(),
            valid_vals_str(final(valid)@, final(d)@.map_values(|s: String| s@)),
        ),
        final(st).count == valid_vals_str(
            final(valid)@,
            final(d)@.map_values(|s: String| s@),
        ).len(),
        final(st).count == old(st).count + vals@.len(),
{
    let n = flags.len();
    let mut q: usize = 0;
    let mut vi: usize = 0;
    while q < n
        invariant
            valid.wf(),
            n == flags@.len(),
            q <= n,
            vi == trues_upto(flags@, q as int),
            vals@.len() == trues_upto(flags@, n as int),
            old(valid)@.len() + n <= usize::MAX,
            valid@ == old(valid)@ + flags@.take(q as int),
            d@.len() == old(d)@.len() + q,
            old(d)@.len() == old(valid)@.len(),
            forall|p: int| 0 <= p < old(d)@.len() ==> d@[p] == old(d)@[p],
            forall|p: int|
                0 <= p < q && flags@[p] ==> d@[old(d)@.len() + p]@ == vals@[trues_upto(flags@, p)]@,
            valid_vals_str(valid@, d@.map_values(|s: String| s@)) == valid_vals_str(
                old(valid)@,
                old(d)@.map_values(|s: String| s@),
            ) + vals@.map_values(|s: String| s@).take(vi as int),
            str_stats_view(*st) == spec_update_str_seq(
                empty_str_stats(),
                valid_vals_str(valid@, d@.map_values(|s: String| s@)),
            ),
            st.count == valid_vals_str(valid@, d@.map_values(|s: String| s@)).len(),
        decreases n - q,
    {
        let ghost prev_valid = valid@;
        let ghost prev_dm = d@.map_values(|s: String| s@);
        let ghost prev_vals = valid_vals_str(valid@, d@.map_values(|s: String| s@));
        proof {
            lemma_trues_upto_bounds(flags@, q as int + 1, n as int);
            lemma_trues_upto_bounds(flags@, 0, q as int);
            lemma_valid_vals_str_len(old(valid)@, old(d)@.map_values(|s: String| s@));
        }
        if flags[q] {
            let v = vals[vi].clone();
            proof {
                assert(st.count == valid_vals_str(
                    old(valid)@,
                    old(d)@.map_values(|s: String| s@),
                ).len() + vi);
                assert(st.count < usize::MAX);
                assert(usize::MAX <= u64::MAX);
            }
            st.update(v.as_str());
            d.push(v);
            valid.push(true);
            vi = vi + 1;
            proof {
                let dm = d@.map_values(|s: String| s@);
                let vm = vals@.map_values(|s: String| s@);
                assert(valid@.drop_last() =~= prev_valid);
                assert(dm.drop_last() =~= prev_dm);
                assert(dm.last() == vm[vi as int - 1]);
                assert(valid_vals_str(valid@, dm) == prev_vals.push(vm[vi as int - 1]));
                assert(vm.take(vi as int).drop_last() =~= vm.take(vi as int - 1));
                assert(vm.take(vi as int) =~= vm.take(vi as int - 1).push(vm[vi as int - 1]));
                assert(valid_vals_str(valid@, dm) =~= valid_vals_str(old(valid)@, old(d)@.map_values(|s: String| s@)) + vm.take(vi as int));
                assert((valid_vals_str(old(valid)@, old(d)@.map_values(|s: String| s@)) + vm.take(
                    vi as int,
                )).drop_last() =~= valid_vals_str(
                    old(valid)@,
                    old(d)@.map_values(|s: String| s@),
                ) + vm.take(vi as int - 1));
            }
        } else {
            d.push(String::new());
            valid.push(false);
            proof {
                let dm = d@.map_values(|s: String| s@);
                assert(valid@.drop_last() =~= prev_valid);
                assert(dm.drop_last() =~= prev_dm);
                assert(valid_vals_str(valid@, dm) == prev_vals);
            }
        }
        proof {
            assert(valid@ =~= old(valid)@ + flags@.take(q as int + 1));
        }
        q = q + 1;
    }
    proof {
        assert(flags@.take(n as int) =~= flags@);
        assert(vals@.map_values(|s: String| s@).take(vals@.len() as int) =~= vals@.map_values(
            |s: String| s@,
        ));
    }
}

/// Appends batch rows into a tag store: each string is interned and its
/// symbol stored; clear flags store the placeholder symbol. The
/// accumulator folds the strings themselves.
/// The string values a batch column carries for its non-null rows, in
/// row order; empty for non-string payloads.
pub open spec fn entry_tag_values(entry: EntryColumn) -> Seq<Seq<char>> {
    match entry.spec_values() {
        ColumnValues::Str(d) => d@.map_values(|s: String| s@),
        _ => Seq::empty(),
    }
}

fn append_vals_tag(
    valid: &mut BitSet,
    keys: &mut Vec<DID>,
    dict: &mut StringDictionary,
    st: &mut StatValues<String>,
    flags: &Vec<bool>,
    vals: &Vec<String>,
)
    requires
        old(valid).wf(),
        old(keys)@.len() == old(valid)@.len(),
        old(dict).wf(),
        forall|r: int|
            0 <= r < old(valid)@.len() && old(valid)@[r] ==> 0 <= #[trigger] old(keys)@[r] < old(
                dict,
            ).strings().len(),
        forall|r: int|
            0 <= r < old(valid)@.len() && !old(valid)@[r] ==> #[trigger] old(keys)@[r]
                == INVALID_DID,
        str_stats_view(*old(st)) == spec_update_str_seq(
            empty_str_stats(),
            valid_vals_str(
                old(valid)@,
                resolved_tags(old(valid)@, old(keys)@, old(dict).strings()),
            ),
        ),
        old(st).count == valid_vals_str(
            old(valid)@,
            resolved_tags(old(valid)@, old(keys)@, old(dict).strings()),
        ).len(),
        vals@.len() == trues_upto(flags@, flags@.len() as int),
        old(valid)@.len() + flags@.len() <= usize::MAX,
        old(dict).strings().len() + vals@.len() <= i32::MAX,
    ensures
        final(valid).wf(),
        final(valid)@ == old(valid)@ + flags@,
        final(keys)@.len() == old(keys)@.len() + flags@.len(),
        final(dict).wf(),
        final(dict).strings() == dict_after(
            old(dict).strings(),
            vals@.map_values(|s: String| s@),
        ),
        old(dict).strings().len() <= final(dict).strings().len(),
        final(dict).strings().len() <= old(dict).strings().len() + vals@.len(),
        forall|i: int|
            0 <= i < old(dict).strings().len() ==> final(dict).strings()[i] == old(
                dict,
            ).strings()[i],
        forall|p: int| 0 <= p < old(keys)@.len() ==> final(keys)@[p] == old(keys)@[p],
        forall|r: int|
            0 <= r < final(valid)@.len() && final(valid)@[r] ==> 0 <= #[trigger] final(keys)@[r]
                < final(dict).strings().len(),
        forall|r: int|
            0 <= r < final(valid)@.len() && !final(valid)@[r] ==> #[trigger] final(keys)@[r]
                == INVALID_DID,
        forall|p: int|
            0 <= p < flags@.len() && flags@[p] ==> final(dict).strings()[final(keys)@[old(
                keys,
            )@.len() + p] as int] == vals@[trues_upto(flags@, p)]@,
        str_stats_view(*final(st)) == spec_update_str_seq(
            empty_str_stats(),
            valid_vals_str(
                final(valid)@,
                resolved_tags(final(valid)@, final(keys)@, final(dict).strings()),
            ),
        ),
        final(st).count == valid_vals_str(
            final(valid)@,
            resolved_tags(final(valid)@, final(keys)@, final(dict).strings()),
        ).len(),
        final(st).count == old(st).count + vals@.len(),
{
    let n = flags.len();
    let mut q: usize = 0;
    let mut vi: usize = 0;
    while q < n
        invariant
            valid.wf(),
            dict.wf(),
            n == flags@.len(),
            q <= n,
            vi == trues_upto(flags@, q as int),
            vals@.len() == trues_upto(flags@, n as int),
            old(valid)@.len() + n <= usize::MAX,
            old(dict).strings().len() + vals@.len() <= i32::MAX,
            valid@ == old(valid)@ + flags@.take(q as int),
            keys@.len() == old(keys)@.len() + q,
            old(keys)@.len() == old(valid)@.len(),
            dict.strings() == dict_after(
                old(dict).strings(),
                vals@.map_values(|s: String| s@).take(vi as int),
            ),
            old(dict).strings().len() <= dict.strings().len(),
            dict.strings().len() <= old(dict).strings().len() + vi,
            forall|i: int|
                0 <= i < old(dict).strings().len() ==> dict.strings()[i] == old(
                    dict,
                ).strings()[i],
            forall|p: int| 0 <= p < old(keys)@.len() ==> keys@[p] == old(keys)@[p],
            forall|r: int|
                0 <= r < valid@.len() && valid@[r] ==> 0 <= #[trigger] keys@[r]
                    < dict.strings().len(),
            forall|r: int|
                0 <= r < valid@.len() && !valid@[r] ==> #[trigger] keys@[r] == INVALID_DID,
            forall|p: int|
                0 <= p < q && flags@[p] ==> dict.strings()[keys@[old(keys)@.len() + p] as int]
                    == vals@[trues_upto(flags@, p)]@,
            valid_vals_str(valid@, resolved_tags(valid@, keys@, dict.strings()))
                == valid_vals_str(
                old(valid)@,
                resolved_tags(old(valid)@, old(keys)@, old(dict).strings()),
            ) + vals@.map_values(|s: String| s@).take(vi as int),
            str_stats_view(*st) == spec_update_str_seq(
                empty_str_stats(),
                valid_vals_str(valid@, resolved_tags(valid@, keys@, dict.strings())),
            ),
            st.count == valid_vals_str(
                valid@,
                resolved_tags(valid@, keys@, dict.strings()),
            ).len(),
        decreases n - q,
    {
        let ghost prev_valid = valid@;
        let ghost prev_keys = keys@;
        let ghost prev_dict = dict.strings();
        let ghost prev_resolved = resolved_tags(valid@, keys@, dict.strings());
        let ghost prev_vals = valid_vals_str(valid@, prev_resolved);
        proof {
            lemma_trues_upto_bounds(flags@, q as int + 1, n as int);
            lemma_trues_upto_bounds(flags@, 0, q as int);
            lemma_valid_vals_str_len(
                old(valid)@,
                resolved_tags(old(valid)@, old(keys)@, old(dict).strings()),
            );
        }
        if flags[q] {
            let v = &vals[vi];
            proof {
                assert(st.count == valid_vals_str(
                    old(valid)@,
                    resolved_tags(old(valid)@, old(keys)@, old(dict).strings()),
                ).len() + vi);
                assert(st.count < usize::MAX);
                assert(usize::MAX <= u64::MAX);
            }
            let did = dict.lookup_value_or_insert(v.as_str());
            st.update(v.as_str());
            keys.push(did);
            valid.push(true);
            vi = vi + 1;
            proof {
                let vm = vals@.map_values(|s: String| s@);
                assert(valid@.drop_last() =~= prev_valid);
                assert(keys@.drop_last() =~= prev_keys);
                // the dictionary only grew: earlier rows resolve unchanged
                assert(resolved_tags(prev_valid, prev_keys, dict.strings()) =~= prev_resolved);
                let new_resolved = resolved_tags(valid@, keys@, dict.strings());
                assert(new_resolved.drop_last() =~= prev_resolved);
                assert(0 <= did < dict.strings().len());
                assert(dict.strings()[did as int] == vm[vi as int - 1]);
                assert(new_resolved.last() == vm[vi as int - 1]);
                assert(valid_vals_str(valid@, new_resolved) == prev_vals.push(
                    vm[vi as int - 1],
                ));
                assert(vm.take(vi as int).drop_last() =~= vm.take(vi as int - 1));
                assert(vm.take(vi as int) =~= vm.take(vi as int - 1).push(vm[vi as int - 1]));
                assert(vm.take(vi as int).last() == v@);
                assert(dict.strings() == dict_after(old(dict).strings(), vm.take(vi as int)));
                assert(valid_vals_str(valid@, new_resolved) =~= valid_vals_str(
                    old(valid)@,
                    resolved_tags(old(valid)@, old(keys)@, old(dict).strings()),
                ) + vm.take(vi as int));
                assert((valid_vals_str(
                    old(valid)@,
                    resolved_tags(old(valid)@, old(keys)@, old(dict).strings()),
                ) + vm.take(vi as int)).drop_last() =~= valid_vals_str(
                    old(valid)@,
                    resolved_tags(old(valid)@, old(keys)@, old(dict).strings()),
                ) + vm.take(vi as int - 1));
            }
        } else {
            keys.push(INVALID_DID);
            valid.push(false);
            proof {
                assert(valid@.drop_last() =~= prev_valid);
                assert(keys@.drop_last() =~= prev_keys);
                let new_resolved = resolved_tags(valid@, keys@, dict.strings());
                assert(new_resolved.drop_last() =~= prev_resolved);
                assert(valid_vals_str(valid@, new_resolved) == prev_vals);
            }
        }
        proof {
            assert(valid@ =~= old(valid)@ + flags@.take(q as int + 1));
        }
        q = q + 1;
    }
    proof {
        assert(flags@.take(n as int) =~= flags@);
        assert(vals@.map_values(|s: String| s@).take(vals@.len() as int) =~= vals@.map_values(
            |s: String| s@,
        ));
    }
}

/// A vector of `n` placeholder symbols.
fn invalid_dids(n: usize) -> (r: Vec<DID>)
    ensures
        r@ == Seq::new(n as nat, |i: int| INVALID_DID),
{
    let mut r: Vec<DID> = Vec::new();
    let mut i: usize = 0;
    while i < n
        invariant
            i <= n,
            r@ =~= Seq::new(i as nat, |j: int| INVALID_DID),
        decreases n - i,
    {
        r.push(INVALID_DID);
        proof {
            assert(r@ =~= Seq::new((i + 1) as nat, |j: int| INVALID_DID));
        }
        i = i + 1;
    }
    r
}

} // verus!
