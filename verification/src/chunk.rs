//! The mutable chunk: one table's columns under construction.
//!
//! A chunk maps column names to typed columns, all of one row count.
//! A table batch is validated in full before any column is touched, so
//! a rejected batch never leaves a partial write behind; after a batch,
//! every column of the chunk is padded to the new row count. Each
//! successful write invalidates the cached snapshot, and `snapshot`
//! rebuilds and caches one lazily.

use crate::column::{Column, Error as ColumnError};
use crate::arrays::{ArrayData, RecordBatch};
use crate::entry::{CellV, Column as EntryColumn, Sequence, TableBatch};
use crate::schema::{InfluxColumnType, Schema, Selection};
use crate::snapshot::ChunkSnapshot;
use crate::stats::{ColumnSummary, InfluxDbType, Statistics, TableSummary};
use crate::strcmp::chars_lt;
use std::sync::Arc;
use vstd::prelude::*;

verus! {

/// An error a chunk write or read can report.
#[derive(Debug)]
pub enum Error {
    /// A column rejected a batch: a type mismatch or a bad null mask.
    ColumnError { column: String, source: ColumnError },
    /// A batch's columns disagree on their row count.
    IncorrectRowCount { column: String, expected: usize, actual: usize },
    /// A selection named a column the chunk does not have.
    ColumnNotFound { column: String },
}

/// Memory accounting attached to a chunk. The reading is advisory: it
/// tracks the chunk's approximate size after each write.
pub struct ChunkMetrics {
    pub(crate) memory_bytes: usize,
}

impl ChunkMetrics {
    /// The last recorded size.
    pub open(crate) spec fn spec_memory_bytes(&self) -> usize {
        self.memory_bytes
    }

    /// Metrics not registered anywhere: observations stay local to this
    /// chunk.
    pub fn new_unregistered() -> (r: Self)
        ensures
            r.spec_memory_bytes() == 0,
    {
        ChunkMetrics { memory_bytes: 0 }
    }

    /// The last recorded size.
    pub fn memory_bytes(&self) -> (r: usize)
        ensures
            r == self.spec_memory_bytes(),
    {
        self.memory_bytes
    }
}

/// Whether a column list holds the given name.
pub open spec fn has_col(cols: Seq<(String, Column)>, nm: Seq<char>) -> bool {
    exists|i: int| 0 <= i < cols.len() && cols[i].0@ == nm
}

/// The position of a named column.
pub open spec fn col_idx(cols: Seq<(String, Column)>, nm: Seq<char>) -> int {
    choose|i: int| 0 <= i < cols.len() && cols[i].0@ == nm
}

/// The named column.
pub open spec fn col_of(cols: Seq<(String, Column)>, nm: Seq<char>) -> Column {
    cols[col_idx(cols, nm)].1
}

/// Whether a selection asks only for columns that `cols` holds.
pub open spec fn selection_covered(cols: Seq<(String, Column)>, selection: Selection) -> bool {
    match selection {
        Selection::All => true,
        Selection::Columns(names) => forall|i: int|
            0 <= i < names@.len() ==> has_col(cols, (#[trigger] names@[i])@),
    }
}

/// Whether `schema` lists exactly what the selection picks from
/// `cols`: every stored column in order for `All`, the named columns
/// in their given order otherwise, each with its stored type.
pub open spec fn schema_of_selection(
    cols: Seq<(String, Column)>,
    selection: Selection,
    schema: Schema,
) -> bool {
    match selection {
        Selection::All => schema.fields@.len() == cols.len() && forall|i: int|
            0 <= i < schema.fields@.len() ==> (#[trigger] schema.fields@[i]).0@ == cols[i].0@
                && schema.fields@[i].1 == cols[i].1.spec_type(),
        Selection::Columns(names) => schema.fields@.len() == names@.len() && forall|i: int|
            0 <= i < names@.len() ==> (#[trigger] schema.fields@[i]).0@ == names@[i]@ && has_col(
                cols,
                names@[i]@,
            ) && schema.fields@[i].1 == col_of(cols, names@[i]@).spec_type(),
    }
}

/// Whether `e` reports a column the selection names and `cols` lacks.
pub open spec fn selection_missing_err(
    cols: Seq<(String, Column)>,
    selection: Selection,
    e: Error,
) -> bool {
    match (selection, e) {
        (Selection::Columns(names), Error::ColumnNotFound { column }) => exists|i: int|
            0 <= i < names@.len() && (#[trigger] names@[i])@ == column@ && !has_col(
                cols,
                column@,
            ),
        _ => false,
    }
}

/// A named, absent column witnesses a missing-column error.
proof fn lemma_missing_err(cols: Seq<(String, Column)>, selection: Selection, e: Error, i: int)
    requires
        match (selection, e) {
            (Selection::Columns(names), Error::ColumnNotFound { column }) => 0 <= i
                < names@.len() && names@[i]@ == column@ && !has_col(cols, column@),
            _ => false,
        },
    ensures
        selection_missing_err(cols, selection, e),
        !selection_covered(cols, selection),
{
    match (selection, e) {
        (Selection::Columns(names), Error::ColumnNotFound { column }) => {
            assert(0 <= i < names@.len() && (#[trigger] names@[i])@ == column@ && !has_col(
                cols,
                column@,
            ));
        },
        _ => {},
    }
}

/// Column lists stay strictly sorted by name.
pub open spec fn sorted_cols(cols: Seq<(String, Column)>) -> bool {
    forall|i: int, j: int| 0 <= i < j < cols.len() ==> chars_lt(cols[i].0@, cols[j].0@)
}

/// In a sorted list each name occurs once, so any witness position of a
/// name is its position.
pub proof fn lemma_col_at(cols: Seq<(String, Column)>, nm: Seq<char>, i: int)
    requires
        sorted_cols(cols),
        0 <= i < cols.len(),
        cols[i].0@ == nm,
    ensures
        has_col(cols, nm),
        col_idx(cols, nm) == i,
        col_of(cols, nm) == cols[i].1,
{
    assert(has_col(cols, nm));
    let j = col_idx(cols, nm);
    if j != i {
        if j < i {
            assert(chars_lt(cols[j].0@, cols[i].0@));
        } else {
            assert(chars_lt(cols[i].0@, cols[j].0@));
        }
        crate::strcmp::lemma_bytes_lt_irreflexive(vstd::utf8::encode_utf8(nm));
    }
}

/// Whether a batch holds a column of the given name.
pub open spec fn batch_has(batch: Seq<EntryColumn>, nm: Seq<char>) -> bool {
    exists|i: int| 0 <= i < batch.len() && batch[i].spec_name() == nm
}

/// What a snapshot must say about the chunk it came from: the same
/// table, one schema field and one exported array per column, in the
/// chunk's own order, with exactly the columns' cells.
pub open(crate) spec fn snapshot_matches(
    s: ChunkSnapshot,
    name: Seq<char>,
    cols: Seq<(String, Column)>,
) -> bool {
    &&& s.spec_table_name() == name
    &&& s.spec_batch().schema.fields@.len() == cols.len()
    &&& s.spec_batch().columns@.len() == cols.len()
    &&& forall|i: int|
        0 <= i < cols.len() ==> (#[trigger] s.spec_batch().schema.fields@[i]).0@ == cols[i].0@
            && s.spec_batch().schema.fields@[i].1 == cols[i].1.spec_type()
            && s.spec_batch().columns@[i].cells() == cols[i].1.cells()
}

/// The conditions under which a chunk accepts a batch: a rectangular
/// batch with sound null masks, one value per non-null row in every
/// column, and exactly the types the chunk already has for those
/// names.
pub open(crate) spec fn batch_ok(cols: Seq<(String, Column)>, batch: Seq<EntryColumn>) -> bool {
    &&& forall|i: int|
        0 <= i < batch.len() ==> (#[trigger] batch[i]).spec_row_count() == batch[0].spec_row_count()
    &&& forall|i: int| 0 <= i < batch.len() ==> (#[trigger] batch[i]).mask_len_ok()
    &&& forall|i: int| 0 <= i < batch.len() ==> count_ok(#[trigger] batch[i])
    &&& forall|i: int|
        0 <= i < batch.len() ==> (has_col(cols, (#[trigger] batch[i]).spec_name()) ==> col_of(
            cols,
            batch[i].spec_name(),
        ).spec_type() == batch[i].spec_type())
}

/// The first ragged column of a batch: everything before it matches
/// the first column's row count, it does not.
pub open(crate) spec fn first_ragged(batch: Seq<EntryColumn>, k: int) -> bool {
    &&& 0 <= k < batch.len()
    &&& batch[k].spec_row_count() != batch[0].spec_row_count()
    &&& forall|j: int|
        0 <= j < k ==> (#[trigger] batch[j]).spec_row_count() == batch[0].spec_row_count()
}

/// Whether a column's declared row count agrees with its values: the
/// value array holds exactly one value per non-null row.
pub open(crate) spec fn count_ok(c: EntryColumn) -> bool {
    crate::entry::values_len(c.spec_values()) == crate::entry::valid_before(
        c.mask_view(),
        c.spec_row_count(),
    )
}

/// Every value array matches its column's declared logical type.
pub open(crate) spec fn batch_typed(batch: Seq<EntryColumn>) -> bool {
    forall|i: int|
        0 <= i < batch.len() ==> crate::entry::values_match_type(
            (#[trigger] batch[i]).spec_type(),
            batch[i].spec_values(),
        )
}

/// Batch column names are distinct.
pub open(crate) spec fn batch_distinct(batch: Seq<EntryColumn>) -> bool {
    forall|i: int, j: int| 0 <= i < j < batch.len() ==> batch[i].spec_name() != batch[j].spec_name()
}

/// The first column of a rectangular batch whose null mask has the
/// wrong byte length.
pub open(crate) spec fn first_bad_mask(batch: Seq<EntryColumn>, k: int) -> bool {
    &&& forall|j: int|
        0 <= j < batch.len() ==> (#[trigger] batch[j]).spec_row_count() == batch[
            0].spec_row_count()
    &&& 0 <= k < batch.len()
    &&& !batch[k].mask_len_ok()
    &&& forall|j: int| 0 <= j < k ==> (#[trigger] batch[j]).mask_len_ok()
}

/// The first column of a rectangular, sound-masked batch whose value
/// count disagrees with its declared rows.
pub open(crate) spec fn first_bad_count(batch: Seq<EntryColumn>, k: int) -> bool {
    &&& forall|j: int|
        0 <= j < batch.len() ==> (#[trigger] batch[j]).spec_row_count() == batch[
            0].spec_row_count()
    &&& forall|j: int| 0 <= j < batch.len() ==> (#[trigger] batch[j]).mask_len_ok()
    &&& 0 <= k < batch.len()
    &&& !count_ok(batch[k])
    &&& forall|j: int| 0 <= j < k ==> count_ok(#[trigger] batch[j])
}

/// The first column of a rectangular, sound-masked, count-consistent
/// batch whose type clashes with the chunk's column of that name.
pub open(crate) spec fn first_type_clash(
    cols: Seq<(String, Column)>,
    batch: Seq<EntryColumn>,
    k: int,
) -> bool {
    &&& forall|j: int|
        0 <= j < batch.len() ==> (#[trigger] batch[j]).spec_row_count() == batch[
            0].spec_row_count()
    &&& forall|j: int| 0 <= j < batch.len() ==> (#[trigger] batch[j]).mask_len_ok()
    &&& forall|j: int| 0 <= j < batch.len() ==> count_ok(#[trigger] batch[j])
    &&& 0 <= k < batch.len()
    &&& has_col(cols, batch[k].spec_name())
    &&& col_of(cols, batch[k].spec_name()).spec_type() != batch[k].spec_type()
    &&& forall|j: int|
        0 <= j < k ==> (has_col(cols, (#[trigger] batch[j]).spec_name()) ==> col_of(
            cols,
            batch[j].spec_name(),
        ).spec_type() == batch[j].spec_type())
}

/// Which error a rejected batch yields: row counts are checked for
/// every column first, then every null mask, then every value count
/// against its declared rows, then every logical type, and the first
/// offending column is named with the exact details.
pub open(crate) spec fn write_error(
    cols: Seq<(String, Column)>,
    batch: Seq<EntryColumn>,
    e: Error,
) -> bool {
    match e {
        Error::IncorrectRowCount { column, expected, actual } => (exists|k: int|
            #[trigger] first_ragged(batch, k) && batch[k].spec_name() == column@ && expected
                == batch[0].spec_row_count() && actual == batch[k].spec_row_count()) || (exists|
            k: int,
        |
            #[trigger] first_bad_count(batch, k) && batch[k].spec_name() == column@ && expected
                == crate::entry::valid_before(batch[k].mask_view(), batch[k].spec_row_count())
                && actual == crate::entry::values_len(batch[k].spec_values())),
        Error::ColumnError { column, source } => match source {
            ColumnError::InvalidNullMask { expected_bytes, actual_bytes } => exists|k: int|
                #[trigger] first_bad_mask(batch, k) && batch[k].spec_name() == column@
                    && expected_bytes == (batch[k].spec_row_count() + 7) / 8 && (batch[
                k].mask_view() matches Some(m) && actual_bytes == m.len()),
            ColumnError::TypeMismatch { existing, inserted } => exists|k: int|
                #[trigger] first_type_clash(cols, batch, k) && batch[k].spec_name() == column@
                    && existing == col_of(cols, batch[k].spec_name()).spec_type() && inserted
                    == batch[k].spec_type(),
        },
        Error::ColumnNotFound { .. } => false,
    }
}

/// A batch whose columns carry consistent data under distinct names.
pub open(crate) spec fn batch_wf(batch: Seq<EntryColumn>) -> bool {
    &&& forall|i: int| 0 <= i < batch.len() ==> (#[trigger] batch[i]).data_consistent()
    &&& forall|i: int, j: int|
        0 <= i < j < batch.len() ==> batch[i].spec_name() != batch[j].spec_name()
}

/// Machine limits a batch must respect against a chunk: the new rows
/// fit, and every touched tag dictionary keeps its symbols in range.
pub open(crate) spec fn chunk_batch_fits(
    cols: Seq<(String, Column)>,
    rows: int,
    batch: Seq<EntryColumn>,
) -> bool {
    forall|i: int|
        0 <= i < batch.len() ==> {
            &&& rows + (#[trigger] batch[i]).spec_row_count() + 7 <= usize::MAX
            &&& batch[i].spec_row_count() <= i32::MAX
            &&& (has_col(cols, batch[i].spec_name()) ==> col_of(
                cols,
                batch[i].spec_name(),
            ).append_fits(&batch[i]))
        }
}

/// What a column named `nm` held before a batch: its cells, or a null
/// backfill where the batch introduces the name.
pub open(crate) spec fn base_cells(cols: Seq<(String, Column)>, nm: Seq<char>, rows: int) -> Seq<
    Option<CellV>,
> {
    if has_col(cols, nm) {
        col_of(cols, nm).cells()
    } else {
        Seq::new(rows as nat, |q: int| None::<CellV>)
    }
}

/// The dictionary size a column named `nm` had before a batch: its
/// tag dictionary's size, or zero where the batch introduces the name.
pub open(crate) spec fn base_dict(cols: Seq<(String, Column)>, nm: Seq<char>) -> int {
    if has_col(cols, nm) {
        col_of(cols, nm).spec_dict_len()
    } else {
        0
    }
}

/// The dictionary contents a column named `nm` had before a batch: its
/// interned strings, or none where the batch introduces the name.
pub open(crate) spec fn base_dict_strings(cols: Seq<(String, Column)>, nm: Seq<char>) -> Seq<
    Seq<char>,
> {
    if has_col(cols, nm) {
        col_of(cols, nm).spec_dict_strings()
    } else {
        Seq::empty()
    }
}

/// The dictionary a batch column leaves behind: a tag column interns
/// exactly the batch's strings, in order, over what it already held;
/// any other kind keeps no dictionary.
pub open(crate) spec fn dict_outcome(
    prev: Seq<(String, Column)>,
    batch_col: EntryColumn,
    col: Column,
) -> bool {
    col.spec_dict_strings() == (if col.spec_type() is Tag {
        crate::dictionary::dict_after(
            base_dict_strings(prev, batch_col.spec_name()),
            crate::column::entry_tag_values(batch_col),
        )
    } else {
        base_dict_strings(prev, batch_col.spec_name())
    })
}

/// What a successful write leaves behind: the row count grows by the
/// batch's rows; the chunk has exactly the old and the batch's column
/// names; a column the batch touches grows by the batch's cells over
/// its old cells or a null backfill; every other column grows by nulls.
pub open(crate) spec fn write_outcome(
    prev: Seq<(String, Column)>,
    before: int,
    batch: Seq<EntryColumn>,
    cur: Seq<(String, Column)>,
    cur_rows: int,
) -> bool {
    let add: int = if batch.len() == 0 {
        0int
    } else {
        batch[0].spec_row_count()
    };
    &&& cur_rows == before + add
    &&& forall|nm: Seq<char>| has_col(cur, nm) == (has_col(prev, nm) || batch_has(batch, nm))
    &&& forall|k: int|
        0 <= k < batch.len() ==> has_col(cur, (#[trigger] batch[k]).spec_name()) && col_of(
            cur,
            batch[k].spec_name(),
        ).cells() == base_cells(prev, batch[k].spec_name(), before) + batch[k].cells() && col_of(
            cur,
            batch[k].spec_name(),
        ).spec_type() == (if has_col(prev, batch[k].spec_name()) {
            col_of(prev, batch[k].spec_name()).spec_type()
        } else {
            batch[k].spec_type()
        })
    &&& forall|k: int|
        0 <= k < batch.len() ==> col_of(
            cur,
            (#[trigger] batch[k]).spec_name(),
        ).spec_dict_len() <= base_dict(prev, batch[k].spec_name()) + add
    &&& forall|k: int|
        0 <= k < batch.len() ==> dict_outcome(
            prev,
            #[trigger] batch[k],
            col_of(cur, batch[k].spec_name()),
        )
    &&& forall|nm: Seq<char>|
        has_col(prev, nm) && !batch_has(batch, nm) ==> has_col(cur, nm) && col_of(cur, nm).cells()
            == col_of(prev, nm).cells() + Seq::new(add as nat, |q: int| None::<CellV>) && col_of(
            cur,
            nm,
        ).spec_type() == col_of(prev, nm).spec_type() && col_of(cur, nm).spec_dict_len() == col_of(
            prev,
            nm,
        ).spec_dict_len() && col_of(cur, nm).spec_dict_strings() == col_of(
            prev,
            nm,
        ).spec_dict_strings()
}

/// The first position whose column name is not below the given name.
fn find_insert_pos(cols: &Vec<(String, Column)>, name: &str) -> (p: usize)
    ensures
        p <= cols@.len(),
        forall|j: int| 0 <= j < p ==> chars_lt((#[trigger] cols@[j]).0@, name@),
        p < cols@.len() ==> !chars_lt(cols@[p as int].0@, name@),
{
    let mut p: usize = 0;
    while p < cols.len()
        invariant
            p <= cols@.len(),
            forall|j: int| 0 <= j < p ==> chars_lt((#[trigger] cols@[j]).0@, name@),
        decreases cols@.len() - p,
    {
        if !crate::strcmp::str_compare_lt(cols[p].0.as_str(), name) {
            return p;
        }
        p = p + 1;
    }
    p
}

/// Inserts a fresh column at its place in the name order.
fn insert_column_sorted(cols: &mut Vec<(String, Column)>, name: String, col: Column)
    requires
        sorted_cols(old(cols)@),
        !has_col(old(cols)@, name@),
    ensures
        sorted_cols(final(cols)@),
        final(cols)@.len() == old(cols)@.len() + 1,
        has_col(final(cols)@, name@),
        col_of(final(cols)@, name@) == col,
        forall|nm: Seq<char>|
            nm != name@ ==> has_col(final(cols)@, nm) == has_col(old(cols)@, nm),
        forall|nm: Seq<char>|
            has_col(old(cols)@, nm) ==> col_of(final(cols)@, nm) == col_of(old(cols)@, nm),
        forall|k: int|
            0 <= k < final(cols)@.len() ==> ((#[trigger] final(cols)@[k]).1 == col || exists|
                j: int,
            | 0 <= j < old(cols)@.len() && final(cols)@[k] == old(cols)@[j]),
    {
    let ghost prev = cols@;
    let p = find_insert_pos(cols, name.as_str());
    proof {
        if p < prev.len() {
            assert(!chars_lt(prev[p as int].0@, name@));
            assert(prev[p as int].0@ != name@);
            crate::strcmp::lemma_bytes_lt_trichotomy(
                vstd::utf8::encode_utf8(prev[p as int].0@),
                vstd::utf8::encode_utf8(name@),
            );
            crate::strcmp::lemma_chars_of_bytes(prev[p as int].0@, name@);
            assert(chars_lt(name@, prev[p as int].0@));
        }
        assert forall|j: int| p <= j < prev.len() implies chars_lt(
            name@,
            (#[trigger] prev[j]).0@,
        ) by {
            assert(chars_lt(name@, prev[p as int].0@));
            if j > p {
                assert(chars_lt(prev[p as int].0@, prev[j].0@));
                crate::strcmp::lemma_bytes_lt_transitive(
                    vstd::utf8::encode_utf8(name@),
                    vstd::utf8::encode_utf8(prev[p as int].0@),
                    vstd::utf8::encode_utf8(prev[j].0@),
                );
            }
        }
    }
    let ghost name_snap = name@;
    let ghost pos = p as int;
    cols.insert(p, (name, col));
    proof {
        let cur = cols@;
        assert(cur == prev.insert(pos, (cur[pos].0, col)));
        assert(cur[pos].0@ == name_snap);
        assert forall|i: int, j: int| 0 <= i < j < cur.len() implies chars_lt(
            cur[i].0@,
            cur[j].0@,
        ) by {
            if i < pos && j < pos {
                assert(cur[i] == prev[i] && cur[j] == prev[j]);
            } else if i < pos && j == pos {
                assert(cur[i] == prev[i]);
            } else if i < pos && j > pos {
                assert(cur[i] == prev[i] && cur[j] == prev[j - 1]);
            } else if i == pos && j > pos {
                assert(cur[j] == prev[j - 1]);
            } else if i > pos && j > pos {
                assert(cur[i] == prev[i - 1] && cur[j] == prev[j - 1]);
            }
        }
        lemma_col_at(cur, name_snap, pos);
        assert forall|nm: Seq<char>| nm != name_snap implies has_col(cur, nm) == has_col(
            prev,
            nm,
        ) by {
            if has_col(cur, nm) {
                let w = choose|i: int| 0 <= i < cur.len() && cur[i].0@ == nm;
                if w < pos {
                    assert(prev[w].0@ == nm);
                } else {
                    assert(w > pos);
                    assert(prev[w - 1].0@ == nm);
                }
            }
            if has_col(prev, nm) {
                let w = choose|i: int| 0 <= i < prev.len() && prev[i].0@ == nm;
                if w < pos {
                    assert(cur[w].0@ == nm);
                } else {
                    assert(cur[w + 1].0@ == nm);
                }
            }
        }
        assert forall|nm: Seq<char>| has_col(prev, nm) implies col_of(cur, nm) == col_of(
            prev,
            nm,
        ) by {
            let w = col_idx(prev, nm);
            lemma_col_at(prev, nm, w);
            if w < pos {
                lemma_col_at(cur, nm, w);
            } else {
                lemma_col_at(cur, nm, w + 1);
            }
        }
    }
}

/// What one `snapshot` call does to a chunk: the columns stay as they
/// were, the result is cached, and a live cache is handed back as is.
pub open(crate) spec fn snapshot_step(pre: MBChunk, post: MBChunk, r: Arc<ChunkSnapshot>) -> bool {
    &&& post.spec_columns() == pre.spec_columns()
    &&& post.spec_table_name() == pre.spec_table_name()
    &&& post.spec_snapshot() == Some(r)
    &&& (pre.spec_snapshot() matches Some(s) ==> r == s && post == pre)
}

/// Law: two snapshots with no intervening write return the very same
/// shared handle, and the second call changes nothing.
pub proof fn lemma_snapshot_caching(
    c0: MBChunk,
    c1: MBChunk,
    s1: Arc<ChunkSnapshot>,
    c2: MBChunk,
    s2: Arc<ChunkSnapshot>,
)
    requires
        snapshot_step(c0, c1, s1),
        snapshot_step(c1, c2, s2),
    ensures
        s2 == s1,
        c2 == c1,
{
}

/// Relies on std::sync::Arc::clone: the clone is the same shared
/// snapshot.
#[verifier::external_body]
fn clone_arc_snapshot(a: &Arc<ChunkSnapshot>) -> (r: Arc<ChunkSnapshot>)
    ensures
        r == *a,
{
    Arc::clone(a)
}

/// A chunk of one table in the mutable store: its columns, the memory
/// gauge, and the cached snapshot of the last read.
pub struct MBChunk {
    pub(crate) table_name: String,
    pub(crate) metrics: ChunkMetrics,
    pub(crate) columns: Vec<(String, Column)>,
    pub(crate) snapshot: Option<Arc<ChunkSnapshot>>,
}

impl MBChunk {
    /// The table this chunk accumulates.
    pub open(crate) spec fn spec_table_name(&self) -> Seq<char> {
        self.table_name@
    }

    /// The named columns, sorted by name.
    pub open(crate) spec fn spec_columns(&self) -> Seq<(String, Column)> {
        self.columns@
    }

    /// The cached snapshot, if one is live.
    pub open(crate) spec fn spec_snapshot(&self) -> Option<Arc<ChunkSnapshot>> {
        self.snapshot
    }

    /// The last size the memory gauge recorded.
    pub open(crate) spec fn spec_memory_bytes(&self) -> usize {
        self.metrics.memory_bytes
    }

    /// The chunk's row count: that of any column, all being equal.
    pub open(crate) spec fn spec_rows(&self) -> int {
        if self.columns@.len() == 0 {
            0
        } else {
            self.columns@[0].1.spec_len()
        }
    }

    /// The chunk's invariant: columns strictly sorted by name, each
    /// well formed, all of one row count, and any cached snapshot an
    /// exact image of the current columns.
    pub open(crate) spec fn wf(&self) -> bool {
        &&& sorted_cols(self.columns@)
        &&& forall|i: int| 0 <= i < self.columns@.len() ==> (#[trigger] self.columns@[i]).1.wf()
        &&& forall|i: int|
            0 <= i < self.columns@.len() ==> (#[trigger] self.columns@[i]).1.spec_len()
                == self.spec_rows()
        &&& (self.snapshot matches Some(s) ==> snapshot_matches(
            *s,
            self.spec_table_name(),
            self.columns@,
        ) && s.spec_batch().wf())
    }

    /// Every column of a chunk always has the same row count as every
    /// other: successful writes pad every column to the new total.
    pub proof fn lemma_row_count_invariant(&self)
        requires
            self.wf(),
        ensures
            forall|i: int, j: int|
                0 <= i < self.spec_columns().len() && 0 <= j < self.spec_columns().len()
                    ==> (#[trigger] self.spec_columns()[i]).1.spec_len()
                    == (#[trigger] self.spec_columns()[j]).1.spec_len(),
    {
    }

    /// A fresh, empty chunk for one table.
    pub fn new(table_name: &str, metrics: ChunkMetrics) -> (r: Self)
        ensures
            r.wf(),
            r.spec_table_name() == table_name@,
            r.spec_columns().len() == 0,
            r.spec_snapshot() is None,
            r.spec_memory_bytes() == r.spec_size(),
    {
        let mut chunk = MBChunk {
            table_name: table_name.to_owned(),
            metrics,
            columns: Vec::new(),
            snapshot: None,
        };
        let size = chunk.size();
        let ghost pre = chunk;
        chunk.metrics.memory_bytes = size;
        proof {
            Self::lemma_size_ignores_rest(pre, chunk, chunk.spec_columns().len() as int);
        }
        chunk
    }

    /// The name of the table in this chunk.
    pub fn table_name(&self) -> (r: &str)
        ensures
            r@ == self.spec_table_name(),
    {
        self.table_name.as_str()
    }

    /// The number of rows in this chunk.
    pub fn rows(&self) -> (r: usize)
        requires
            self.wf(),
        ensures
            r == self.spec_rows(),
    {
        if self.columns.len() == 0 {
            0
        } else {
            self.columns[0].1.len()
        }
    }

    /// The position of a named column, if the chunk has one.
    fn find_column(&self, name: &str) -> (r: Option<usize>)
        ensures
            match r {
                Some(i) => 0 <= i < self.spec_columns().len() && self.spec_columns()[
                    i as int].0@ == name@,
                None => !has_col(self.spec_columns(), name@),
            },
    {
        let mut i: usize = 0;
        while i < self.columns.len()
            invariant
                i <= self.spec_columns().len(),
                forall|k: int| 0 <= k < i ==> (#[trigger] self.spec_columns()[k]).0@ != name@,
            decreases self.spec_columns().len() - i,
        {
            if crate::strcmp::str_eq(self.columns[i].0.as_str(), name) {
                return Some(i);
            }
            i = i + 1;
        }
        None
    }

    /// What `size` reports up to the first `i` columns: the running
    /// total of column names and column sizes, saturating at the
    /// machine limit.
    pub open(crate) spec fn spec_size_upto(&self, i: int) -> int
        decreases i,
    {
        if i <= 0 {
            vstd::utf8::encode_utf8(self.spec_table_name()).len() as usize as int
        } else {
            crate::dictionary::sat_cap(
                crate::dictionary::sat_cap(
                    self.spec_size_upto(i - 1) + vstd::utf8::encode_utf8(
                        self.spec_columns()[i - 1].0@,
                    ).len() as usize,
                ) + self.spec_columns()[i - 1].1.spec_size(),
            )
        }
    }

    /// What `size` reports.
    pub open(crate) spec fn spec_size(&self) -> int {
        self.spec_size_upto(self.spec_columns().len() as int)
    }

    /// The size is a function of the table name and the columns alone.
    proof fn lemma_size_ignores_rest(a: MBChunk, b: MBChunk, i: int)
        requires
            a.spec_table_name() == b.spec_table_name(),
            a.spec_columns() == b.spec_columns(),
        ensures
            a.spec_size_upto(i) == b.spec_size_upto(i),
        decreases i,
    {
        if i > 0 {
            Self::lemma_size_ignores_rest(a, b, i - 1);
        }
    }

    /// Approximate memory size of the chunk in bytes: the columns, the
    /// table name, and the column names, saturating at the machine
    /// limit. Any cached snapshot is not counted.
    pub fn size(&self) -> (r: usize)
        requires
            forall|i: int| 0 <= i < self.spec_columns().len() ==> (#[trigger] self.spec_columns()[i]).1.wf(),
        ensures
            r == self.spec_size(),
    {
        let mut total: usize = self.table_name.as_str().len();
        let mut i: usize = 0;
        while i < self.columns.len()
            invariant
                forall|k: int|
                    0 <= k < self.spec_columns().len() ==> (#[trigger] self.spec_columns()[
                    k]).1.wf(),
                i <= self.spec_columns().len(),
                total == self.spec_size_upto(i as int),
            decreases self.spec_columns().len() - i,
        {
            total = crate::dictionary::sat_add(total, self.columns[i].0.as_str().len());
            total = crate::dictionary::sat_add(total, self.columns[i].1.size());
            i = i + 1;
        }
        total
    }

    /// The estimated size of every column, by name.
    pub fn column_sizes(&self) -> (r: Vec<(String, usize)>)
        requires
            self.wf(),
        ensures
            r@.len() == self.spec_columns().len(),
            forall|i: int|
                0 <= i < r@.len() ==> (#[trigger] r@[i]).0@ == self.spec_columns()[i].0@
                    && r@[i].1 == self.spec_columns()[i].1.spec_size(),
    {
        let mut r: Vec<(String, usize)> = Vec::new();
        let mut i: usize = 0;
        while i < self.columns.len()
            invariant
                self.wf(),
                i <= self.spec_columns().len(),
                r@.len() == i,
                forall|k: int|
                    0 <= k < i ==> (#[trigger] r@[k]).0@ == self.spec_columns()[k].0@ && r@[k].1
                        == self.spec_columns()[k].1.spec_size(),
            decreases self.spec_columns().len() - i,
        {
            r.push((self.columns[i].0.clone(), self.columns[i].1.size()));
            i = i + 1;
        }
        r
    }

    /// The summary statistics of every column, sorted by name: the
    /// chunk keeps its columns in name order.
    pub fn table_summary(&self) -> (r: TableSummary)
        requires
            self.wf(),
        ensures
            r.name@ == self.spec_table_name(),
            r.columns@.len() == self.spec_columns().len(),
            forall|i: int|
                0 <= i < r.columns@.len() ==> (#[trigger] r.columns@[i]).name@
                    == self.spec_columns()[i].0@ && r.columns@[i].stats == self.spec_columns()[
                    i].1.spec_statistics() && r.columns@[i].influxdb_type == Some(
                    match self.spec_columns()[i].1.spec_type() {
                        InfluxColumnType::Tag => InfluxDbType::Tag,
                        InfluxColumnType::Field(_) => InfluxDbType::Field,
                        InfluxColumnType::Timestamp => InfluxDbType::Timestamp,
                    },
                ),
    {
        let mut columns: Vec<ColumnSummary> = Vec::new();
        let mut i: usize = 0;
        while i < self.columns.len()
            invariant
                self.wf(),
                i <= self.spec_columns().len(),
                columns@.len() == i,
                forall|k: int|
                    0 <= k < i ==> (#[trigger] columns@[k]).name@ == self.spec_columns()[k].0@
                        && columns@[k].stats == self.spec_columns()[k].1.spec_statistics()
                        && columns@[k].influxdb_type == Some(
                        match self.spec_columns()[k].1.spec_type() {
                            InfluxColumnType::Tag => InfluxDbType::Tag,
                            InfluxColumnType::Field(_) => InfluxDbType::Field,
                            InfluxColumnType::Timestamp => InfluxDbType::Timestamp,
                        },
                    ),
            decreases self.spec_columns().len() - i,
        {
            let c = &self.columns[i].1;
            let influxdb_type = match c.influx_type() {
                InfluxColumnType::Tag => InfluxDbType::Tag,
                InfluxColumnType::Field(_) => InfluxDbType::Field,
                InfluxColumnType::Timestamp => InfluxDbType::Timestamp,
            };
            columns.push(
                ColumnSummary {
                    name: self.columns[i].0.clone(),
                    influxdb_type: Some(influxdb_type),
                    stats: c.stats(),
                },
            );
            i = i + 1;
        }
        TableSummary { name: self.table_name.clone(), columns }
    }

    /// The schema for a selection: every column (already sorted by
    /// name), or the named columns in the given order.
    pub fn schema(&self, selection: &Selection) -> (r: Result<Schema, Error>)
        requires
            self.wf(),
        ensures
            (r is Ok) == selection_covered(self.spec_columns(), *selection),
            r matches Ok(schema) ==> schema_of_selection(
                self.spec_columns(),
                *selection,
                schema,
            ),
            r matches Err(e) ==> selection_missing_err(self.spec_columns(), *selection, e),
    {
        match selection {
            Selection::All => {
                let mut fields: Vec<(String, InfluxColumnType)> = Vec::new();
                let mut i: usize = 0;
                while i < self.columns.len()
                    invariant
                        self.wf(),
                        *selection == Selection::All,
                        i <= self.spec_columns().len(),
                        fields@.len() == i,
                        forall|k: int|
                            0 <= k < i ==> (#[trigger] fields@[k]).0@ == self.spec_columns()[
                            k].0@ && fields@[k].1 == self.spec_columns()[k].1.spec_type(),
                    decreases self.spec_columns().len() - i,
                {
                    fields.push((self.columns[i].0.clone(), self.columns[i].1.influx_type()));
                    i = i + 1;
                }
                let schema = Schema { fields };
                proof {
                    assert(schema_of_selection(self.spec_columns(), *selection, schema));
                }
                Ok(schema)
            },
            Selection::Columns(names) => {
                let mut fields: Vec<(String, InfluxColumnType)> = Vec::new();
                let mut i: usize = 0;
                while i < names.len()
                    invariant
                        self.wf(),
                        *selection == Selection::Columns(*names),
                        i <= names@.len(),
                        fields@.len() == i,
                        forall|k: int|
                            0 <= k < i ==> (#[trigger] fields@[k]).0@ == names@[k]@ && has_col(
                                self.spec_columns(),
                                names@[k]@,
                            ) && fields@[k].1 == col_of(
                                self.spec_columns(),
                                names@[k]@,
                            ).spec_type(),
                    decreases names@.len() - i,
                {
                    let name = &names[i];
                    match self.find_column(name.as_str()) {
                        Some(j) => {
                            proof {
                                lemma_col_at(self.spec_columns(), name@, j as int);
                            }
                            fields.push((name.clone(), self.columns[j].1.influx_type()));
                        },
                        None => {
                            let column_name = name.as_str().to_owned();
                            let err = Error::ColumnNotFound { column: column_name };
                            proof {
                                assert(0 <= i < names@.len() && names@[i as int]@ == name@
                                    && column_name@ == name@ && !has_col(
                                    self.spec_columns(),
                                    name@,
                                ));
                                lemma_missing_err(
                                    self.spec_columns(),
                                    *selection,
                                    err,
                                    i as int,
                                );
                            }
                            return Err(err);
                        },
                    }
                    i = i + 1;
                }
                let schema = Schema { fields };
                proof {
                    assert forall|k: int| 0 <= k < names@.len() implies has_col(
                        self.spec_columns(),
                        (#[trigger] names@[k])@,
                    ) by {
                        assert(fields@[k].0@ == names@[k]@);
                    }
                    assert(selection_covered(self.spec_columns(), *selection));
                    assert(schema_of_selection(self.spec_columns(), *selection, schema));
                }
                Ok(schema)
            },
        }
    }

    /// Converts the selected columns of this chunk into one record
    /// batch, in schema order; every array carries the chunk's rows.
    pub fn to_arrow(&self, selection: &Selection) -> (r: Result<RecordBatch, Error>)
        requires
            self.wf(),
        ensures
            (r is Ok) == selection_covered(self.spec_columns(), *selection),
            r matches Ok(batch) ==> {
                &&& batch.wf()
                &&& schema_of_selection(self.spec_columns(), *selection, batch.schema)
                &&& batch.columns@.len() == batch.schema.fields@.len()
                &&& forall|i: int|
                    0 <= i < batch.schema.fields@.len() ==> has_col(
                        self.spec_columns(),
                        (#[trigger] batch.schema.fields@[i]).0@,
                    ) && batch.columns@[i].cells() == col_of(
                        self.spec_columns(),
                        batch.schema.fields@[i].0@,
                    ).cells()
            },
            r matches Err(e) ==> selection_missing_err(self.spec_columns(), *selection, e),
    {
        let schema = match self.schema(selection) {
            Ok(s) => s,
            Err(e) => {
                return Err(e);
            },
        };
        let mut arrays: Vec<ArrayData> = Vec::new();
        let mut i: usize = 0;
        while i < schema.fields.len()
            invariant
                self.wf(),
                i <= schema.fields@.len(),
                arrays@.len() == i,
                forall|k: int|
                    0 <= k < schema.fields@.len() ==> has_col(
                        self.spec_columns(),
                        (#[trigger] schema.fields@[k]).0@,
                    ),
                forall|k: int|
                    0 <= k < i ==> (#[trigger] arrays@[k]).cells() == col_of(
                        self.spec_columns(),
                        schema.fields@[k].0@,
                    ).cells() && arrays@[k].wf() && arrays@[k].spec_len() == self.spec_rows(),
            decreases schema.fields@.len() - i,
        {
            let name = &schema.fields[i].0;
            match self.find_column(name.as_str()) {
                Some(j) => {
                    proof {
                        lemma_col_at(self.spec_columns(), name@, j as int);
                    }
                    arrays.push(self.columns[j].1.to_arrow());
                },
                None => {
                    proof {
                        assert(false);
                    }
                    return Err(Error::ColumnNotFound { column: name.clone() });
                },
            }
            i = i + 1;
        }
        Ok(RecordBatch { schema, columns: arrays })
    }

    /// A queryable snapshot of this chunk: the cached one where a cache
    /// is live, else a fresh materialization that is cached for the
    /// next reader. Two calls with no intervening write return the same
    /// shared handle.
    pub fn snapshot(&mut self) -> (r: Arc<ChunkSnapshot>)
        requires
            old(self).wf(),
        ensures
            final(self).wf(),
            final(self).spec_columns() == old(self).spec_columns(),
            final(self).spec_table_name() == old(self).spec_table_name(),
            snapshot_matches(*r, old(self).spec_table_name(), old(self).spec_columns()),
            final(self).spec_snapshot() == Some(r),
            old(self).spec_snapshot() matches Some(s) ==> r == s && *final(self) == *old(self),
            snapshot_step(*old(self), *final(self), r),
    {
        match &self.snapshot {
            Some(s) => {
                return clone_arc_snapshot(s);
            },
            None => {},
        }
        let snap = Arc::new(ChunkSnapshot::new(self));
        self.snapshot = Some(clone_arc_snapshot(&snap));
        snap
    }

    /// Writes the contents of a table batch into this chunk.
    ///
    /// The batch must be for this chunk's table. The whole batch is
    /// validated before any column is touched; on success every column
    /// of the chunk is padded to the new row count and the cached
    /// snapshot is invalidated, with the memory gauge set to the new
    /// size.
    pub fn write_table_batch(&mut self, sequence: Option<&Sequence>, batch: TableBatch) -> (r:
        Result<(), Error>)
        requires
            old(self).wf(),
            batch.spec_name() == old(self).spec_table_name(),
            batch_typed(batch.spec_columns()),
            batch_distinct(batch.spec_columns()),
            chunk_batch_fits(
                old(self).spec_columns(),
                old(self).spec_rows(),
                batch.spec_columns(),
            ),
        ensures
            final(self).wf(),
            final(self).spec_table_name() == old(self).spec_table_name(),
            (r is Ok) == batch_ok(old(self).spec_columns(), batch.spec_columns()),
            r is Ok ==> write_outcome(
                old(self).spec_columns(),
                old(self).spec_rows(),
                batch.spec_columns(),
                final(self).spec_columns(),
                final(self).spec_rows(),
            ) && final(self).spec_snapshot() is None
                && final(self).spec_memory_bytes() == final(self).spec_size(),
            r is Err ==> final(self).spec_columns() == old(self).spec_columns() && final(self).spec_snapshot() == old(self).spec_snapshot()
                && final(self).spec_memory_bytes() == old(self).spec_memory_bytes(),
            r matches Err(e) ==> write_error(old(self).spec_columns(), batch.spec_columns(), e),
    {
        match self.write_columns(sequence, &batch.columns) {
            Ok(()) => {},
            Err(e) => {
                return Err(e);
            },
        }
        let size = self.size();
        let ghost pre = *self;
        self.metrics.memory_bytes = size;
        proof {
            Self::lemma_size_ignores_rest(pre, *self, self.spec_columns().len() as int);
        }
        Ok(())
    }

    /// Validates the schema of the passed columns, then appends their
    /// values and pads every column of the chunk to the new row count.
    /// Validation happens in full before any column is touched: every
    /// row count is checked first, then every null mask, then every
    /// value count against its declared rows, then every logical type,
    /// and the first offending column is named.
    #[verifier::rlimit(60)]
    pub fn write_columns(&mut self, _sequence: Option<&Sequence>, columns: &Vec<EntryColumn>) -> (r:
        Result<(), Error>)
        requires
            old(self).wf(),
            batch_typed(columns@),
            batch_distinct(columns@),
            chunk_batch_fits(old(self).spec_columns(), old(self).spec_rows(), columns@),
        ensures
            final(self).wf(),
            final(self).spec_table_name() == old(self).spec_table_name(),
            (r is Ok) == batch_ok(old(self).spec_columns(), columns@),
            r is Ok ==> write_outcome(
                old(self).spec_columns(),
                old(self).spec_rows(),
                columns@,
                final(self).spec_columns(),
                final(self).spec_rows(),
            ) && final(self).spec_snapshot() is None,
            final(self).spec_memory_bytes() == old(self).spec_memory_bytes(),
            r is Err ==> final(self).spec_columns() == old(self).spec_columns() && final(self).spec_snapshot() == old(self).spec_snapshot() && final(self).spec_table_name()
                == old(self).spec_table_name(),
            r matches Err(e) ==> write_error(old(self).spec_columns(), columns@, e),
    {
        let row_count_before = self.rows();
        let additional_rows: usize = if columns.len() == 0 {
            0
        } else {
            columns[0].row_count
        };

        // Validation, before anything is touched: every row count
        // first, then every null mask, then every value count, then
        // every logical type.
        let mut i: usize = 0;
        while i < columns.len()
            invariant
                self.wf(),
                *self == *old(self),
                batch_typed(columns@),
                batch_distinct(columns@),
                chunk_batch_fits(old(self).spec_columns(), old(self).spec_rows(), columns@),
                additional_rows as int == (if columns@.len() == 0 {
                    0int
                } else {
                    columns@[0].spec_row_count()
                }),
                i <= columns@.len(),
                forall|k: int|
                    0 <= k < i ==> (#[trigger] columns@[k]).spec_row_count()
                        == additional_rows as int,
            decreases columns@.len() - i,
        {
            let c = &columns[i];
            if c.row_count != additional_rows {
                proof {
                    assert(first_ragged(columns@, i as int));
                }
                return Err(
                    Error::IncorrectRowCount {
                        column: c.name().to_owned(),
                        expected: additional_rows,
                        actual: c.row_count,
                    },
                );
            }
            i = i + 1;
        }

        let mut i: usize = 0;
        while i < columns.len()
            invariant
                self.wf(),
                *self == *old(self),
                batch_typed(columns@),
                batch_distinct(columns@),
                chunk_batch_fits(old(self).spec_columns(), old(self).spec_rows(), columns@),
                additional_rows as int == (if columns@.len() == 0 {
                    0int
                } else {
                    columns@[0].spec_row_count()
                }),
                i <= columns@.len(),
                forall|k: int|
                    0 <= k < columns@.len() ==> (#[trigger] columns@[k]).spec_row_count()
                        == additional_rows as int,
                forall|k: int| 0 <= k < i ==> (#[trigger] columns@[k]).mask_len_ok(),
            decreases columns@.len() - i,
        {
            let c = &columns[i];
            match &c.null_mask {
                Some(m) => {
                    let expected = (c.row_count + 7) / 8;
                    if m.len() != expected {
                        proof {
                            assert(first_bad_mask(columns@, i as int));
                        }
                        return Err(
                            Error::ColumnError {
                                column: c.name().to_owned(),
                                source: ColumnError::InvalidNullMask {
                                    expected_bytes: expected,
                                    actual_bytes: m.len(),
                                },
                            },
                        );
                    }
                },
                None => {},
            }
            i = i + 1;
        }

        let mut i: usize = 0;
        while i < columns.len()
            invariant
                self.wf(),
                *self == *old(self),
                batch_typed(columns@),
                batch_distinct(columns@),
                chunk_batch_fits(old(self).spec_columns(), old(self).spec_rows(), columns@),
                additional_rows as int == (if columns@.len() == 0 {
                    0int
                } else {
                    columns@[0].spec_row_count()
                }),
                i <= columns@.len(),
                forall|k: int|
                    0 <= k < columns@.len() ==> (#[trigger] columns@[k]).spec_row_count()
                        == additional_rows as int,
                forall|k: int|
                    0 <= k < columns@.len() ==> (#[trigger] columns@[k]).mask_len_ok(),
                forall|k: int| 0 <= k < i ==> count_ok(#[trigger] columns@[k]),
            decreases columns@.len() - i,
        {
            let c = &columns[i];
            proof {
                assert(columns@[i as int].spec_row_count() + 7 <= usize::MAX);
            }
            let expected = c.valid_count();
            let actual = c.values_count();
            if actual != expected {
                proof {
                    assert(first_bad_count(columns@, i as int));
                }
                return Err(
                    Error::IncorrectRowCount {
                        column: c.name().to_owned(),
                        expected,
                        actual,
                    },
                );
            }
            i = i + 1;
        }

        proof {
            assert forall|k: int| 0 <= k < columns@.len() implies (
            #[trigger] columns@[k]).data_consistent() by {
                assert(count_ok(columns@[k]));
            }
            assert(batch_wf(columns@));
        }

        let mut i: usize = 0;
        while i < columns.len()
            invariant
                self.wf(),
                *self == *old(self),
                batch_typed(columns@),
                batch_distinct(columns@),
                batch_wf(columns@),
                chunk_batch_fits(old(self).spec_columns(), old(self).spec_rows(), columns@),
                additional_rows as int == (if columns@.len() == 0 {
                    0int
                } else {
                    columns@[0].spec_row_count()
                }),
                i <= columns@.len(),
                forall|k: int|
                    0 <= k < columns@.len() ==> (#[trigger] columns@[k]).spec_row_count()
                        == additional_rows as int,
                forall|k: int|
                    0 <= k < columns@.len() ==> (#[trigger] columns@[k]).mask_len_ok(),
                forall|k: int| 0 <= k < columns@.len() ==> count_ok(#[trigger] columns@[k]),
                forall|k: int|
                    0 <= k < i ==> (has_col(
                        old(self).spec_columns(),
                        (#[trigger] columns@[k]).spec_name(),
                    ) ==> col_of(old(self).spec_columns(), columns@[k].spec_name()).spec_type()
                        == columns@[k].spec_type()),
            decreases columns@.len() - i,
        {
            let c = &columns[i];
            match self.find_column(c.name()) {
                Some(j) => {
                    proof {
                        lemma_col_at(self.spec_columns(), c.spec_name(), j as int);
                    }
                    match self.columns[j].1.validate_schema(c) {
                        Ok(()) => {},
                        Err(e) => {
                            proof {
                                assert(first_type_clash(
                                    old(self).spec_columns(),
                                    columns@,
                                    i as int,
                                ));
                            }
                            return Err(
                                Error::ColumnError { column: c.name().to_owned(), source: e },
                            );
                        },
                    }
                },
                None => {},
            }
            i = i + 1;
        }

        // The batch is accepted: invalidate the cached snapshot before
        // the first mutation so readers never see a stale image.
        self.snapshot = None;

        let ghost prev_cols = old(self).spec_columns();
        let ghost before = old(self).spec_rows();

        // Creation pass: give every new column a null backfill for the
        // rows that came before it.
        let mut i: usize = 0;
        while i < columns.len()
            invariant
                batch_wf(columns@),
                chunk_batch_fits(prev_cols, before, columns@),
                sorted_cols(self.spec_columns()),
                forall|k: int|
                    0 <= k < self.spec_columns().len() ==> (#[trigger] self.spec_columns()[
                    k]).1.wf(),
                forall|k: int|
                    0 <= k < self.spec_columns().len() ==> (#[trigger] self.spec_columns()[
                    k]).1.spec_len() == before,
                i <= columns@.len(),
                self.spec_table_name() == old(self).spec_table_name(),
                self.spec_snapshot() is None,
                self.spec_memory_bytes() == old(self).spec_memory_bytes(),
                before == old(self).spec_rows(),
                row_count_before == before,
                prev_cols == old(self).spec_columns(),
                before + additional_rows + 7 <= usize::MAX || columns@.len() == 0,
                additional_rows as int == (if columns@.len() == 0 {
                    0int
                } else {
                    columns@[0].spec_row_count()
                }),
                forall|nm: Seq<char>|
                    has_col(self.spec_columns(), nm) == (has_col(prev_cols, nm) || exists|k: int|
                        0 <= k < i && (#[trigger] columns@[k]).spec_name() == nm),
                forall|nm: Seq<char>|
                    has_col(prev_cols, nm) ==> has_col(self.spec_columns(), nm) && col_of(
                        self.spec_columns(),
                        nm,
                    ) == col_of(prev_cols, nm),
                forall|k: int|
                    0 <= k < i ==> has_col(
                        self.spec_columns(),
                        (#[trigger] columns@[k]).spec_name(),
                    ),
                forall|k: int|
                    0 <= k < i && !has_col(prev_cols, (#[trigger] columns@[k]).spec_name())
                        ==> col_of(self.spec_columns(), columns@[k].spec_name()).cells()
                        == Seq::new(before as nat, |q: int| None::<CellV>) && col_of(
                        self.spec_columns(),
                        columns@[k].spec_name(),
                    ).spec_type() == columns@[k].spec_type() && col_of(
                        self.spec_columns(),
                        columns@[k].spec_name(),
                    ).spec_stats_count() == 0 && col_of(
                        self.spec_columns(),
                        columns@[k].spec_name(),
                    ).spec_dict_len() == 0 && col_of(
                        self.spec_columns(),
                        columns@[k].spec_name(),
                    ).spec_dict_strings() == Seq::<Seq<char>>::empty(),
            decreases columns@.len() - i,
        {
            let c = &columns[i];
            let ghost step_cols = self.spec_columns();
            match self.find_column(c.name()) {
                Some(j) => {
                    proof {
                        lemma_col_at(step_cols, c.spec_name(), j as int);
                    }
                },
                None => {
                    let fresh = Column::new(row_count_before, c.influx_type());
                    insert_column_sorted(&mut self.columns, c.name().to_owned(), fresh);
                    proof {
                        assert forall|k: int|
                            0 <= k < self.spec_columns().len() implies (
                        #[trigger] self.spec_columns()[k]).1.wf()
                            && self.spec_columns()[k].1.spec_len() == before by {
                            if self.spec_columns()[k].1 == fresh {
                            } else {
                                let j = choose|j: int|
                                    0 <= j < step_cols.len() && self.spec_columns()[k]
                                        == step_cols[j];
                                assert(step_cols[j].1.wf());
                            }
                        }
                    }
                },
            }
            i = i + 1;
        }

        let ghost mid_cols = self.spec_columns();

        // Append pass: every batch column lands in its column.
        let mut i: usize = 0;
        while i < columns.len()
            invariant
                batch_wf(columns@),
                chunk_batch_fits(prev_cols, before, columns@),
                sorted_cols(self.spec_columns()),
                forall|k: int|
                    0 <= k < self.spec_columns().len() ==> (#[trigger] self.spec_columns()[
                    k]).1.wf(),
                i <= columns@.len(),
                self.spec_table_name() == old(self).spec_table_name(),
                self.spec_snapshot() is None,
                self.spec_memory_bytes() == old(self).spec_memory_bytes(),
                before == old(self).spec_rows(),
                row_count_before == before,
                prev_cols == old(self).spec_columns(),
                before + additional_rows + 7 <= usize::MAX || columns@.len() == 0,
                additional_rows as int == (if columns@.len() == 0 {
                    0int
                } else {
                    columns@[0].spec_row_count()
                }),
                forall|k: int|
                    0 <= k < columns@.len() ==> (#[trigger] columns@[k]).spec_row_count()
                        == additional_rows as int,
                forall|k: int| 0 <= k < columns@.len() ==> (#[trigger] columns@[k]).mask_len_ok(),
                forall|k: int|
                    0 <= k < columns@.len() ==> (has_col(
                        prev_cols,
                        (#[trigger] columns@[k]).spec_name(),
                    ) ==> col_of(prev_cols, columns@[k].spec_name()).spec_type() == columns@[
                        k].spec_type()),
                forall|nm: Seq<char>|
                    has_col(self.spec_columns(), nm) == has_col(mid_cols, nm),
                forall|k: int|
                    0 <= k < columns@.len() ==> has_col(
                        mid_cols,
                        (#[trigger] columns@[k]).spec_name(),
                    ),
                forall|nm: Seq<char>|
                    has_col(mid_cols, nm) && !(exists|k: int|
                        0 <= k < i && (#[trigger] columns@[k]).spec_name() == nm) ==> col_of(
                        self.spec_columns(),
                        nm,
                    ) == col_of(mid_cols, nm),
                forall|nm: Seq<char>|
                    has_col(mid_cols, nm) ==> col_of(mid_cols, nm).cells() == base_cells(
                        prev_cols,
                        nm,
                        before,
                    ) && col_of(mid_cols, nm).spec_len() == before && (has_col(prev_cols, nm)
                        ==> col_of(mid_cols, nm) == col_of(prev_cols, nm)) && (!has_col(
                        prev_cols,
                        nm,
                    ) ==> col_of(mid_cols, nm).spec_dict_len() == 0 && col_of(
                        mid_cols,
                        nm,
                    ).spec_dict_strings() == Seq::<Seq<char>>::empty()),
                forall|k: int|
                    0 <= k < columns@.len() ==> col_of(
                        mid_cols,
                        (#[trigger] columns@[k]).spec_name(),
                    ).spec_type() == columns@[k].spec_type(),
                forall|k: int|
                    0 <= k < i ==> col_of(
                        self.spec_columns(),
                        (#[trigger] columns@[k]).spec_name(),
                    ).cells() == base_cells(prev_cols, columns@[k].spec_name(), before)
                        + columns@[k].cells() && col_of(
                        self.spec_columns(),
                        columns@[k].spec_name(),
                    ).spec_type() == columns@[k].spec_type() && col_of(
                        self.spec_columns(),
                        columns@[k].spec_name(),
                    ).spec_len() == before + additional_rows && col_of(
                        self.spec_columns(),
                        columns@[k].spec_name(),
                    ).spec_dict_len() <= base_dict(prev_cols, columns@[k].spec_name())
                        + additional_rows && dict_outcome(
                        prev_cols,
                        columns@[k],
                        col_of(self.spec_columns(), columns@[k].spec_name()),
                    ),
            decreases columns@.len() - i,
        {
            let c = &columns[i];
            let idx = match self.find_column(c.name()) {
                Some(j) => j,
                None => {
                    proof {
                        assert(false);
                    }
                    return Ok(());
                },
            };
            proof {
                lemma_col_at(self.spec_columns(), c.spec_name(), idx as int);
            }
            let ghost pre_cols = self.spec_columns();
            let pair = &mut self.columns[idx];
            proof {
                assert(pair.1 == col_of(pre_cols, c.spec_name()));
                crate::entry::lemma_valid_before_monotone(c.mask_view(), 0, c.spec_row_count());
            }
            match pair.1.append(c) {
                Ok(()) => {},
                Err(_) => {
                    proof {
                        assert(false);
                    }
                    return Ok(());
                },
            }
            proof {
                assert(self.spec_columns() =~= pre_cols.update(
                    idx as int,
                    (pre_cols[idx as int].0, self.spec_columns()[idx as int].1),
                ));
                assert forall|nm: Seq<char>|
                    has_col(self.spec_columns(), nm) == has_col(pre_cols, nm) by {
                    if has_col(self.spec_columns(), nm) {
                        let w = choose|w: int|
                            0 <= w < self.spec_columns().len() && self.spec_columns()[w].0@ == nm;
                        assert(pre_cols[w].0@ == nm);
                    }
                    if has_col(pre_cols, nm) {
                        let w = choose|w: int| 0 <= w < pre_cols.len() && pre_cols[w].0@ == nm;
                        assert(self.spec_columns()[w].0@ == nm);
                    }
                }
                assert forall|nm: Seq<char>|
                    has_col(pre_cols, nm) && nm != c.spec_name() implies col_of(
                    self.spec_columns(),
                    nm,
                ) == col_of(pre_cols, nm) by {
                    let j = col_idx(pre_cols, nm);
                    lemma_col_at(pre_cols, nm, j);
                    lemma_col_at(self.spec_columns(), nm, j);
                }
                lemma_col_at(self.spec_columns(), c.spec_name(), idx as int);
                assert(col_of(self.spec_columns(), c.spec_name()) == self.spec_columns()[
                    idx as int].1);
                assert(self.spec_columns()[idx as int].1.cells() == col_of(
                    pre_cols,
                    c.spec_name(),
                ).cells() + c.cells());
                assert(col_of(pre_cols, c.spec_name()) == col_of(mid_cols, c.spec_name()));
                assert(col_of(mid_cols, c.spec_name()).cells() == base_cells(
                    prev_cols,
                    c.spec_name(),
                    before,
                ));
                assert(col_of(mid_cols, c.spec_name()).spec_dict_strings() == base_dict_strings(
                    prev_cols,
                    c.spec_name(),
                ));
                assert(dict_outcome(
                    prev_cols,
                    *c,
                    col_of(self.spec_columns(), c.spec_name()),
                ));
                assert(c.cells().len() == c.spec_row_count());
                assert(base_cells(prev_cols, c.spec_name(), before).len() == before);
                assert(col_of(self.spec_columns(), c.spec_name()).cells().len() == before
                    + additional_rows);
            }
            i = i + 1;
        }

        // Padding pass: bring every column, touched or not, to the new
        // row count.
        let final_row_count = row_count_before + additional_rows;
        let ghost app_cols = self.spec_columns();
        proof {
            assert forall|k: int|
                0 <= k < app_cols.len() implies (#[trigger] app_cols[k]).1.spec_len()
                <= final_row_count by {
                let nm = app_cols[k].0@;
                lemma_col_at(app_cols, nm, k);
                assert(has_col(app_cols, nm));
                assert(has_col(mid_cols, nm));
                if batch_has(columns@, nm) {
                    let b = choose|b: int|
                        0 <= b < columns@.len() && columns@[b].spec_name() == nm;
                    assert(col_of(app_cols, nm).spec_len() == before + additional_rows);
                } else {
                    assert(col_of(app_cols, nm) == col_of(mid_cols, nm));
                    assert(col_of(mid_cols, nm).spec_len() == before);
                }
            }
        }
        let mut j: usize = 0;
        while j < self.columns.len()
            invariant
                sorted_cols(self.spec_columns()),
                forall|k: int|
                    0 <= k < self.spec_columns().len() ==> (#[trigger] self.spec_columns()[
                    k]).1.wf(),
                j <= self.spec_columns().len(),
                self.spec_table_name() == old(self).spec_table_name(),
                self.spec_snapshot() is None,
                self.spec_memory_bytes() == old(self).spec_memory_bytes(),
                self.spec_columns().len() == app_cols.len(),
                final_row_count == before + additional_rows,
                forall|k: int|
                    0 <= k < self.spec_columns().len() ==> (#[trigger] self.spec_columns()[
                    k]).0@ == app_cols[k].0@,
                forall|k: int|
                    0 <= k < app_cols.len() ==> (#[trigger] app_cols[k]).1.spec_len()
                        <= final_row_count,
                forall|k: int|
                    j <= k < app_cols.len() ==> #[trigger] self.spec_columns()[k] == app_cols[k],
                forall|k: int|
                    0 <= k < j ==> (#[trigger] self.spec_columns()[k]).1.spec_len()
                        == final_row_count && self.spec_columns()[k].1.cells() == app_cols[
                        k].1.cells() + Seq::new(
                        (final_row_count - app_cols[k].1.spec_len()) as nat,
                        |q: int| None::<CellV>,
                    ) && self.spec_columns()[k].1.spec_type() == app_cols[k].1.spec_type()
                        && self.spec_columns()[k].1.spec_stats_count() == app_cols[
                        k].1.spec_stats_count() && self.spec_columns()[k].1.spec_dict_len()
                        == app_cols[k].1.spec_dict_len() && self.spec_columns()[
                        k].1.spec_dict_strings() == app_cols[k].1.spec_dict_strings(),
            decreases self.spec_columns().len() - j,
        {
            let ghost pre_cols = self.spec_columns();
            let pair = &mut self.columns[j];
            proof {
                assert(pre_cols[j as int].1.spec_len() <= final_row_count);
            }
            pair.1.push_nulls_to_len(final_row_count);
            proof {
                assert(self.spec_columns() =~= pre_cols.update(
                    j as int,
                    (pre_cols[j as int].0, self.spec_columns()[j as int].1),
                ));
                assert(pre_cols[j as int] == app_cols[j as int]);
                assert(self.spec_columns()[j as int].1.cells() == app_cols[j as int].1.cells()
                    + Seq::new(
                    (final_row_count - app_cols[j as int].1.spec_len()) as nat,
                    |q: int| None::<CellV>,
                ));
                assert(self.spec_columns()[j as int].1.spec_len() == final_row_count);
            }
            j = j + 1;
        }

        proof {
            self.lemma_write_outcome(prev_cols, before, columns@, mid_cols, app_cols);
        }
        Ok(())
    }

    /// After the three passes, the chunk columns are exactly the old
    /// and batch columns combined.
    proof fn lemma_write_outcome(
        &self,
        prev_cols: Seq<(String, Column)>,
        before: int,
        batch: Seq<EntryColumn>,
        mid_cols: Seq<(String, Column)>,
        app_cols: Seq<(String, Column)>,
    )
        requires
            batch_wf(batch),
            sorted_cols(self.spec_columns()),
            prev_cols.len() == 0 ==> before == 0,
            batch.len() > 0 ==> batch[0].spec_row_count() + before + 7 <= usize::MAX,
            forall|k: int|
                0 <= k < batch.len() ==> (#[trigger] batch[k]).spec_row_count() == (if batch.len()
                    == 0 {
                    0int
                } else {
                    batch[0].spec_row_count()
                }),
            self.spec_columns().len() == app_cols.len(),
            forall|k: int|
                0 <= k < self.spec_columns().len() ==> (#[trigger] self.spec_columns()[k]).0@
                    == app_cols[k].0@,
            forall|k: int|
                0 <= k < self.spec_columns().len() ==> (#[trigger] self.spec_columns()[
                k]).1.spec_len() == before + (if batch.len() == 0 {
                    0int
                } else {
                    batch[0].spec_row_count()
                }) && self.spec_columns()[k].1.cells() == app_cols[k].1.cells() + Seq::new(
                    (before + (if batch.len() == 0 {
                        0int
                    } else {
                        batch[0].spec_row_count()
                    }) - app_cols[k].1.spec_len()) as nat,
                    |q: int| None::<CellV>,
                ) && self.spec_columns()[k].1.spec_type() == app_cols[k].1.spec_type()
                    && self.spec_columns()[k].1.spec_dict_len() == app_cols[k].1.spec_dict_len()
                    && self.spec_columns()[k].1.spec_dict_strings() == app_cols[
                    k].1.spec_dict_strings(),
            forall|nm: Seq<char>| has_col(app_cols, nm) == has_col(mid_cols, nm),
            sorted_cols(app_cols),
            sorted_cols(mid_cols),
            forall|nm: Seq<char>|
                has_col(mid_cols, nm) == (has_col(prev_cols, nm) || batch_has(batch, nm)),
            forall|k: int|
                0 <= k < batch.len() ==> has_col(mid_cols, (#[trigger] batch[k]).spec_name()),
            forall|k: int|
                0 <= k < batch.len() ==> col_of(
                    mid_cols,
                    (#[trigger] batch[k]).spec_name(),
                ).spec_type() == batch[k].spec_type(),
            forall|nm: Seq<char>|
                has_col(mid_cols, nm) && !batch_has(batch, nm) ==> col_of(app_cols, nm) == col_of(
                    mid_cols,
                    nm,
                ),
            forall|nm: Seq<char>|
                has_col(mid_cols, nm) ==> col_of(mid_cols, nm).cells() == base_cells(
                    prev_cols,
                    nm,
                    before,
                ) && col_of(mid_cols, nm).spec_len() == before && (has_col(prev_cols, nm)
                    ==> col_of(mid_cols, nm) == col_of(prev_cols, nm)),
            forall|k: int|
                0 <= k < batch.len() ==> has_col(app_cols, (#[trigger] batch[k]).spec_name())
                    && col_of(app_cols, batch[k].spec_name()).cells() == base_cells(
                    prev_cols,
                    batch[k].spec_name(),
                    before,
                ) + batch[k].cells() && col_of(app_cols, batch[k].spec_name()).spec_type()
                    == batch[k].spec_type() && col_of(app_cols, batch[k].spec_name()).spec_len()
                    == before + (if batch.len() == 0 {
                    0int
                } else {
                    batch[0].spec_row_count()
                }) && col_of(app_cols, batch[k].spec_name()).spec_dict_len() <= base_dict(
                    prev_cols,
                    batch[k].spec_name(),
                ) + (if batch.len() == 0 {
                    0int
                } else {
                    batch[0].spec_row_count()
                }) && dict_outcome(
                    prev_cols,
                    batch[k],
                    col_of(app_cols, batch[k].spec_name()),
                ),
        ensures
            write_outcome(
                prev_cols,
                before,
                batch,
                self.spec_columns(),
                if self.spec_columns().len() == 0 {
                    0int
                } else {
                    self.spec_columns()[0].1.spec_len()
                },
            ),
    {
        let add: int = if batch.len() == 0 {
            0int
        } else {
            batch[0].spec_row_count()
        };
        let cur = self.spec_columns();
        assert forall|nm: Seq<char>|
            has_col(cur, nm) == (has_col(prev_cols, nm) || batch_has(batch, nm)) by {
            assert(has_col(cur, nm) == has_col(app_cols, nm)) by {
                if has_col(cur, nm) {
                    let w = choose|i: int| 0 <= i < cur.len() && cur[i].0@ == nm;
                    assert(app_cols[w].0@ == nm);
                }
                if has_col(app_cols, nm) {
                    let w = choose|i: int| 0 <= i < app_cols.len() && app_cols[i].0@ == nm;
                    assert(cur[w].0@ == nm);
                }
            }
        }
        assert forall|k: int| 0 <= k < batch.len() implies {
            let nm = (#[trigger] batch[k]).spec_name();
            has_col(cur, nm) && col_of(cur, nm).cells() == base_cells(prev_cols, nm, before)
                + batch[k].cells() && col_of(cur, nm).spec_type() == (if has_col(prev_cols, nm) {
                col_of(prev_cols, nm).spec_type()
            } else {
                batch[k].spec_type()
            }) && col_of(cur, nm).spec_dict_len() <= base_dict(prev_cols, nm) + add
                && dict_outcome(prev_cols, batch[k], col_of(cur, nm))
        } by {
            let nm = batch[k].spec_name();
            let j = col_idx(app_cols, nm);
            lemma_col_at(app_cols, nm, j);
            assert(cur[j].0@ == nm);
            lemma_col_at(cur, nm, j);
            assert(col_of(app_cols, nm).spec_len() == before + add);
            assert(col_of(cur, nm).cells() == col_of(app_cols, nm).cells() + Seq::new(
                0nat,
                |q: int| None::<CellV>,
            ));
            assert(col_of(cur, nm).cells() =~= col_of(app_cols, nm).cells());
            if has_col(prev_cols, nm) {
                assert(col_of(mid_cols, nm) == col_of(prev_cols, nm));
                assert(col_of(mid_cols, nm).spec_type() == batch[k].spec_type());
            }
        }
        assert forall|nm: Seq<char>|
            has_col(prev_cols, nm) && !batch_has(batch, nm) implies has_col(cur, nm) && col_of(
            cur,
            nm,
        ).cells() == col_of(prev_cols, nm).cells() + Seq::new(add as nat, |q: int| None::<CellV>)
            && col_of(cur, nm).spec_type() == col_of(prev_cols, nm).spec_type() && col_of(
            cur,
            nm,
        ).spec_dict_len() == col_of(prev_cols, nm).spec_dict_len() && col_of(
            cur,
            nm,
        ).spec_dict_strings() == col_of(prev_cols, nm).spec_dict_strings() by {
            assert(has_col(mid_cols, nm));
            let j = col_idx(app_cols, nm);
            lemma_col_at(app_cols, nm, j);
            assert(cur[j].0@ == nm);
            lemma_col_at(cur, nm, j);
            assert(col_of(app_cols, nm) == col_of(mid_cols, nm));
            assert(col_of(app_cols, nm).cells() == base_cells(prev_cols, nm, before));
            assert(col_of(app_cols, nm).spec_len() == before);
        }
        if cur.len() > 0 {
            assert(cur[0].1.spec_len() == before + add);
        } else {
            if batch.len() > 0 {
                assert(has_col(app_cols, batch[0].spec_name()));
                assert(false);
            }
            if prev_cols.len() > 0 {
                assert(prev_cols[0].0@ == prev_cols[0].0@);
                assert(has_col(prev_cols, prev_cols[0].0@));
                assert(has_col(cur, prev_cols[0].0@));
                assert(false);
            }
        }
    }

    /// A reference to the named column.
    pub fn column(&self, column: &str) -> (r: Result<&Column, Error>)
        requires
            self.wf(),
        ensures
            match r {
                Ok(c) => has_col(self.spec_columns(), column@) && *c == col_of(
                    self.spec_columns(),
                    column@,
                ),
                Err(e) => !has_col(self.spec_columns(), column@) && (e
                    matches Error::ColumnNotFound { column: c } && c@ == column@),
            },
    {
        match self.find_column(column) {
            Some(i) => {
                proof {
                    lemma_col_at(self.spec_columns(), column@, i as int);
                }
                Ok(&self.columns[i].1)
            },
            None => Err(Error::ColumnNotFound { column: column.to_owned() }),
        }
    }
}

} // verus!
