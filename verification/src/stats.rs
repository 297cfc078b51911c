//! Running statistics and read-only summaries.
//!
//! Every column keeps a streaming accumulator of minimum, maximum and
//! count of the values appended so far; tag columns also report an
//! approximate distinct count. Summaries are derived, read-only copies
//! of these accumulators consumed by the pruning engine and by
//! administrative listings; they never drive control flow inside a
//! chunk.

use crate::bits::{f64_lt_bits, is_nan_bits};
use crate::strcmp::chars_lt;
use vstd::prelude::*;

verus! {

/// Law: whatever signed values are folded into an accumulator, every
/// folded value lies between the reported minimum and maximum.
pub proof fn lemma_i64_fold_bounds(s: StatValues<i64>, vs: Seq<i64>)
    ensures
        forall|i: int|
            #![trigger vs[i]]
            0 <= i < vs.len() ==> {
                let f = spec_update_i64_seq(s, vs);
                &&& f.min matches Some(m) && m <= vs[i]
                &&& f.max matches Some(x) && vs[i] <= x
            },
    decreases vs.len(),
{
    if vs.len() > 0 {
        lemma_i64_fold_bounds(s, vs.drop_last());
        let pre = spec_update_i64_seq(s, vs.drop_last());
        let f = spec_update_i64_seq(s, vs);
        assert forall|i: int| #![trigger vs[i]]
            0 <= i < vs.len() implies (f.min matches Some(m) && m <= vs[i]) && (f.max
            matches Some(x) && vs[i] <= x) by {
            if i < vs.len() - 1 {
                assert(vs.drop_last()[i] == vs[i]);
            }
        }
    }
}

/// A streaming min/max/count accumulator.
///
/// `distinct_count` is filled in only where a column kind can report it
/// (tag columns); it never changes under `update`.
#[derive(Debug, Clone, PartialEq)]
pub struct StatValues<T> {
    pub min: Option<T>,
    pub max: Option<T>,
    pub count: u64,
    pub distinct_count: Option<u64>,
}

impl<T> StatValues<T> {
    pub fn new() -> (r: Self)
        ensures
            r.min is None,
            r.max is None,
            r.count == 0,
            r.distinct_count is None,
    {
        StatValues { min: None, max: None, count: 0, distinct_count: None }
    }
}

/// One update step for a signed integer accumulator.
pub open spec fn spec_update_i64(s: StatValues<i64>, v: i64) -> StatValues<i64> {
    StatValues {
        min: match s.min {
            Some(m) => if v < m {
                Some(v)
            } else {
                Some(m)
            },
            None => Some(v),
        },
        max: match s.max {
            Some(m) => if v > m {
                Some(v)
            } else {
                Some(m)
            },
            None => Some(v),
        },
        count: (s.count + 1) as u64,
        distinct_count: s.distinct_count,
    }
}

/// One update step for an unsigned integer accumulator.
pub open spec fn spec_update_u64(s: StatValues<u64>, v: u64) -> StatValues<u64> {
    StatValues {
        min: match s.min {
            Some(m) => if v < m {
                Some(v)
            } else {
                Some(m)
            },
            None => Some(v),
        },
        max: match s.max {
            Some(m) => if v > m {
                Some(v)
            } else {
                Some(m)
            },
            None => Some(v),
        },
        count: (s.count + 1) as u64,
        distinct_count: s.distinct_count,
    }
}

/// One update step for a boolean accumulator, with `false < true`.
pub open spec fn spec_update_bool(s: StatValues<bool>, v: bool) -> StatValues<bool> {
    StatValues {
        min: match s.min {
            Some(m) => if m && !v {
                Some(v)
            } else {
                Some(m)
            },
            None => Some(v),
        },
        max: match s.max {
            Some(m) => if !m && v {
                Some(v)
            } else {
                Some(m)
            },
            None => Some(v),
        },
        count: (s.count + 1) as u64,
        distinct_count: s.distinct_count,
    }
}

/// One update step for a double accumulator over bit patterns. A NaN
/// counts as a value but never becomes the minimum or the maximum.
pub open spec fn spec_update_f64(s: StatValues<u64>, v: u64) -> StatValues<u64> {
    StatValues {
        min: if is_nan_bits(v) {
            s.min
        } else {
            match s.min {
                Some(m) => if f64_lt_bits(v, m) {
                    Some(v)
                } else {
                    Some(m)
                },
                None => Some(v),
            }
        },
        max: if is_nan_bits(v) {
            s.max
        } else {
            match s.max {
                Some(m) => if f64_lt_bits(m, v) {
                    Some(v)
                } else {
                    Some(m)
                },
                None => Some(v),
            }
        },
        count: (s.count + 1) as u64,
        distinct_count: s.distinct_count,
    }
}

/// Ghost form of a string accumulator.
pub struct StrStatsV {
    pub min: Option<Seq<char>>,
    pub max: Option<Seq<char>>,
    pub count: u64,
    pub distinct_count: Option<u64>,
}

/// The ghost form of a string accumulator's current state.
pub open spec fn str_stats_view(s: StatValues<String>) -> StrStatsV {
    StrStatsV {
        min: match s.min {
            Some(m) => Some(m@),
            None => None,
        },
        max: match s.max {
            Some(m) => Some(m@),
            None => None,
        },
        count: s.count,
        distinct_count: s.distinct_count,
    }
}

/// One update step for a string accumulator, ordered byte-wise.
pub open spec fn spec_update_str(s: StrStatsV, v: Seq<char>) -> StrStatsV {
    StrStatsV {
        min: match s.min {
            Some(m) => if chars_lt(v, m) {
                Some(v)
            } else {
                Some(m)
            },
            None => Some(v),
        },
        max: match s.max {
            Some(m) => if chars_lt(m, v) {
                Some(v)
            } else {
                Some(m)
            },
            None => Some(v),
        },
        count: (s.count + 1) as u64,
        distinct_count: s.distinct_count,
    }
}

impl StatValues<i64> {
    /// Folds one signed value into the accumulator.
    pub fn update(&mut self, v: i64)
        requires
            old(self).count < u64::MAX,
        ensures
            *final(self) == spec_update_i64(*old(self), v),
    {
        match self.min {
            Some(m) => if v < m {
                self.min = Some(v);
            },
            None => self.min = Some(v),
        }
        match self.max {
            Some(m) => if v > m {
                self.max = Some(v);
            },
            None => self.max = Some(v),
        }
        self.count = self.count + 1;
    }
}

impl StatValues<u64> {
    /// Folds one unsigned value into the accumulator.
    pub fn update(&mut self, v: u64)
        requires
            old(self).count < u64::MAX,
        ensures
            *final(self) == spec_update_u64(*old(self), v),
    {
        match self.min {
            Some(m) => if v < m {
                self.min = Some(v);
            },
            None => self.min = Some(v),
        }
        match self.max {
            Some(m) => if v > m {
                self.max = Some(v);
            },
            None => self.max = Some(v),
        }
        self.count = self.count + 1;
    }

    /// Folds one double, given as its bit pattern, into the
    /// accumulator. A NaN counts but never becomes minimum or maximum.
    pub fn update_f64_bits(&mut self, v: u64)
        requires
            old(self).count < u64::MAX,
        ensures
            *final(self) == spec_update_f64(*old(self), v),
    {
        if !crate::bits::f64_is_nan(v) {
            match self.min {
                Some(m) => if crate::bits::f64_lt(v, m) {
                    self.min = Some(v);
                },
                None => self.min = Some(v),
            }
            match self.max {
                Some(m) => if crate::bits::f64_lt(m, v) {
                    self.max = Some(v);
                },
                None => self.max = Some(v),
            }
        }
        self.count = self.count + 1;
    }
}

impl StatValues<bool> {
    /// Folds one boolean into the accumulator, with `false < true`.
    pub fn update(&mut self, v: bool)
        requires
            old(self).count < u64::MAX,
        ensures
            *final(self) == spec_update_bool(*old(self), v),
    {
        match self.min {
            Some(m) => if m && !v {
                self.min = Some(v);
            },
            None => self.min = Some(v),
        }
        match self.max {
            Some(m) => if !m && v {
                self.max = Some(v);
            },
            None => self.max = Some(v),
        }
        self.count = self.count + 1;
    }
}

impl StatValues<String> {
    /// Folds one string into the accumulator, ordered byte-wise.
    pub fn update(&mut self, v: &str)
        requires
            old(self).count < u64::MAX,
        ensures
            str_stats_view(*final(self)) == spec_update_str(str_stats_view(*old(self)), v@),
    {
        let new_min = match &self.min {
            Some(m) => crate::strcmp::str_compare_lt(v, m.as_str()),
            None => true,
        };
        if new_min {
            self.min = Some(v.to_owned());
        }
        let new_max = match &self.max {
            Some(m) => crate::strcmp::str_compare_lt(m.as_str(), v),
            None => true,
        };
        if new_max {
            self.max = Some(v.to_owned());
        }
        self.count = self.count + 1;
    }
}

/// Folding a sequence of signed values into an accumulator.
pub open spec fn spec_update_i64_seq(s: StatValues<i64>, vs: Seq<i64>) -> StatValues<i64>
    decreases vs.len(),
{
    if vs.len() == 0 {
        s
    } else {
        spec_update_i64(spec_update_i64_seq(s, vs.drop_last()), vs.last())
    }
}

/// Folding a sequence of unsigned values into an accumulator.
pub open spec fn spec_update_u64_seq(s: StatValues<u64>, vs: Seq<u64>) -> StatValues<u64>
    decreases vs.len(),
{
    if vs.len() == 0 {
        s
    } else {
        spec_update_u64(spec_update_u64_seq(s, vs.drop_last()), vs.last())
    }
}

/// Folding a sequence of booleans into an accumulator.
pub open spec fn spec_update_bool_seq(s: StatValues<bool>, vs: Seq<bool>) -> StatValues<bool>
    decreases vs.len(),
{
    if vs.len() == 0 {
        s
    } else {
        spec_update_bool(spec_update_bool_seq(s, vs.drop_last()), vs.last())
    }
}

/// Folding a sequence of strings into an accumulator.
pub open spec fn spec_update_str_seq(s: StrStatsV, vs: Seq<Seq<char>>) -> StrStatsV
    decreases vs.len(),
{
    if vs.len() == 0 {
        s
    } else {
        spec_update_str(spec_update_str_seq(s, vs.drop_last()), vs.last())
    }
}

/// The state a fresh accumulator starts from.
pub open spec fn empty_stats<T>() -> StatValues<T> {
    StatValues { min: None, max: None, count: 0, distinct_count: None }
}

/// The state a fresh string accumulator starts from, in ghost form.
pub open spec fn empty_str_stats() -> StrStatsV {
    StrStatsV { min: None, max: None, count: 0, distinct_count: None }
}

/// Folding a sequence of doubles, by bit pattern, into an accumulator.
pub open spec fn spec_update_f64_seq(s: StatValues<u64>, vs: Seq<u64>) -> StatValues<u64>
    decreases vs.len(),
{
    if vs.len() == 0 {
        s
    } else {
        spec_update_f64(spec_update_f64_seq(s, vs.drop_last()), vs.last())
    }
}

/// Law: however many doubles are folded into a float accumulator, a NaN
/// pattern never becomes the minimum or the maximum, while the count
/// still includes every value.
pub proof fn lemma_float_stats_never_nan(s: StatValues<u64>, vs: Seq<u64>)
    requires
        s.min matches Some(m) ==> !is_nan_bits(m),
        s.max matches Some(m) ==> !is_nan_bits(m),
    ensures
        spec_update_f64_seq(s, vs).min matches Some(m) ==> !is_nan_bits(m),
        spec_update_f64_seq(s, vs).max matches Some(m) ==> !is_nan_bits(m),
        s.count + vs.len() <= u64::MAX ==> spec_update_f64_seq(s, vs).count == s.count + vs.len(),
    decreases vs.len(),
{
    if vs.len() > 0 {
        lemma_float_stats_never_nan(s, vs.drop_last());
    }
}

/// Typed statistics of one column, keyed by the column's storage kind.
/// Double statistics carry IEEE-754 bit patterns.
#[derive(Debug, Clone, PartialEq)]
pub enum Statistics {
    F64(StatValues<u64>),
    I64(StatValues<i64>),
    U64(StatValues<u64>),
    Bool(StatValues<bool>),
    Str(StatValues<String>),
}

/// How a column takes part in the data model.
#[derive(Debug, Clone, Copy, PartialEq, Eq, Structural)]
pub enum InfluxDbType {
    Tag,
    Field,
    Timestamp,
}

/// Derived, read-only statistics of one column.
#[derive(Debug, Clone, PartialEq)]
pub struct ColumnSummary {
    pub name: String,
    pub influxdb_type: Option<InfluxDbType>,
    pub stats: Statistics,
}

/// Derived, read-only statistics of every column of one table.
#[derive(Debug, Clone, PartialEq)]
pub struct TableSummary {
    pub name: String,
    pub columns: Vec<ColumnSummary>,
}

impl TableSummary {
    pub fn new(name: &str) -> (r: Self)
        ensures
            r.name@ == name@,
            r.columns@.len() == 0,
    {
        TableSummary { name: name.to_owned(), columns: Vec::new() }
    }

    /// The summary of the named column, if any: the first with that
    /// name.
    pub fn column(&self, name: &str) -> (r: Option<&ColumnSummary>)
        ensures
            match r {
                Some(c) => exists|i: int|
                    0 <= i < self.columns@.len() && self.columns@[i].name@ == name@ && *c
                        == self.columns@[i] && (forall|k: int|
                        0 <= k < i ==> self.columns@[k].name@ != name@),
                None => forall|i: int|
                    0 <= i < self.columns@.len() ==> self.columns@[i].name@ != name@,
            },
    {
        let mut i: usize = 0;
        while i < self.columns.len()
            invariant
                i <= self.columns@.len(),
                forall|j: int| 0 <= j < i ==> self.columns@[j].name@ != name@,
            decreases self.columns@.len() - i,
        {
            if crate::strcmp::str_eq(self.columns[i].name.as_str(), name) {
                return Some(&self.columns[i]);
            }
            i = i + 1;
        }
        None
    }
}

/// A closed interval of timestamps, in nanoseconds.
#[derive(Debug, Clone, Copy, PartialEq, Eq, Structural)]
pub struct TimestampRange {
    pub start: i64,
    pub end: i64,
}

impl TimestampRange {
    pub fn new(start: i64, end: i64) -> (r: Self)
        ensures
            r.start == start,
            r.end == end,
    {
        TimestampRange { start, end }
    }
}

/// Whether position `i` holds the first column named `time` in a
/// summary's column list.
pub open spec fn first_time_col(columns: Seq<ColumnSummary>, i: int) -> bool {
    &&& 0 <= i < columns.len()
    &&& columns[i].name@ == "time"@
    &&& forall|k: int| 0 <= k < i ==> columns[k].name@ != "time"@
}

/// The min/max timestamps of a summary's time column, where both are
/// known.
pub open spec fn spec_extract_range(columns: Seq<ColumnSummary>, i: int) -> Option<TimestampRange> {
    match columns[i].stats {
        Statistics::I64(s) => match (s.min, s.max) {
            (Some(mn), Some(mx)) => Some(TimestampRange { start: mn, end: mx }),
            _ => None,
        },
        _ => None,
    }
}

/// Extracts the min/max of the timestamp column from a table summary,
/// where the summary knows both ends.
pub fn extract_range(table_summary: &TableSummary) -> (r: Option<TimestampRange>)
    ensures
        match r {
            Some(range) => exists|i: int|
                first_time_col(table_summary.columns@, i) && spec_extract_range(
                    table_summary.columns@,
                    i,
                ) == Some(range),
            None => forall|i: int|
                #[trigger] first_time_col(table_summary.columns@, i) ==> spec_extract_range(
                    table_summary.columns@,
                    i,
                ) is None,
        },
{
    let cols = Ghost(table_summary.columns@);
    match table_summary.column("time") {
        Some(c) => {
            proof {
                let i = choose|i: int|
                    0 <= i < cols@.len() && cols@[i].name@ == "time"@ && *c == cols@[i] && (
                    forall|k: int| 0 <= k < i ==> cols@[k].name@ != "time"@);
                assert(first_time_col(cols@, i));
                assert forall|j: int| #[trigger] first_time_col(cols@, j) implies j == i by {
                    if j < i {
                        assert(cols@[j].name@ != "time"@);
                    }
                    if i < j {
                        assert(cols@[i].name@ != "time"@);
                    }
                }
            }
            match &c.stats {
                Statistics::I64(s) => match (&s.min, &s.max) {
                    (Some(mn), Some(mx)) => {
                        proof {
                            let i = choose|i: int| first_time_col(cols@, i) && *c == cols@[i];
                            assert(spec_extract_range(cols@, i) == Some(
                                TimestampRange { start: *mn, end: *mx },
                            ));
                        }
                        Some(TimestampRange::new(*mn, *mx))
                    },
                    _ => None,
                },
                _ => None,
            }
        },
        None => None,
    }
}

} // verus!
