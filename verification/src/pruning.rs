//! Statistics-based pruning of chunks.
//!
//! Given per-chunk summaries (min/max/count per column) and a predicate
//! over columns, whole chunks are excluded from a scan when their
//! bounds provably cannot satisfy the predicate. The policy is
//! conservative: a missing column, a type that cannot be compared to
//! the literal, or missing statistics all keep the chunk, and a chunk
//! is pruned only when some comparison is impossible for every value
//! within the chunk's bounds. Chunks are judged independently; the
//! output keeps the input's order.
//!
//! Two policy choices are deliberate. A chunk kept because its summary
//! carries no statistics at all for a compared column is reported to
//! the observer with its own could-not-prune reason; statistics that
//! are present but hold no bound on the side the operator needs keep
//! the chunk silently. And statistics that are present but hold
//! neither minimum nor maximum (a column of only nulls) also keep the
//! chunk rather than prune it.

use crate::bits::{f64_key, is_nan_bits};
use crate::entry::CellV;
use crate::schema::{InfluxColumnType, InfluxFieldType, Schema};
use crate::stats::{ColumnSummary, Statistics, TableSummary};
use crate::strcmp::chars_lt;
use vstd::prelude::*;

verus! {

/// A comparison operator of a predicate.
#[derive(Debug, Clone, Copy, PartialEq, Eq, Structural)]
pub enum Op {
    Eq,
    NotEq,
    Lt,
    LtEq,
    Gt,
    GtEq,
}

/// A scalar constant a column is compared against. Doubles are
/// IEEE-754 bit patterns.
#[derive(Debug, PartialEq)]
pub enum ScalarValue {
    I64(i64),
    U64(u64),
    F64(u64),
    Boolean(bool),
    Str(String),
}

/// One comparison of a named column against a scalar constant.
#[derive(Debug, PartialEq)]
pub struct Comparison {
    pub column: String,
    pub op: Op,
    pub value: ScalarValue,
}

/// A conjunction of comparisons.
#[derive(Debug, PartialEq)]
pub struct Expr {
    pub comparisons: Vec<Comparison>,
}

impl Expr {
    /// The conjunction of two expressions.
    pub fn and(self, other: Expr) -> (r: Expr)
        ensures
            r.comparisons@ == self.comparisons@ + other.comparisons@,
    {
        let mut comparisons = self.comparisons;
        let mut rest = other.comparisons;
        comparisons.append(&mut rest);
        Expr { comparisons }
    }
}

/// A reference to a named column, ready to be compared.
#[derive(Debug)]
pub struct ColumnRef {
    pub name: String,
}

/// Starts a comparison against the named column.
pub fn col(name: &str) -> (r: ColumnRef)
    ensures
        r.name@ == name@,
{
    ColumnRef { name: name.to_owned() }
}

impl ColumnRef {
    /// The column is strictly above the constant.
    pub fn gt(self, value: ScalarValue) -> (r: Expr)
        ensures
            r.comparisons@.len() == 1,
            r.comparisons@[0].column@ == self.name@,
            r.comparisons@[0].op == Op::Gt,
            r.comparisons@[0].value == value,
    {
        Expr { comparisons: vec![Comparison { column: self.name, op: Op::Gt, value }] }
    }

    /// The column is at least the constant.
    pub fn gt_eq(self, value: ScalarValue) -> (r: Expr)
        ensures
            r.comparisons@.len() == 1,
            r.comparisons@[0].column@ == self.name@,
            r.comparisons@[0].op == Op::GtEq,
            r.comparisons@[0].value == value,
    {
        Expr { comparisons: vec![Comparison { column: self.name, op: Op::GtEq, value }] }
    }

    /// The column is strictly below the constant.
    pub fn lt(self, value: ScalarValue) -> (r: Expr)
        ensures
            r.comparisons@.len() == 1,
            r.comparisons@[0].column@ == self.name@,
            r.comparisons@[0].op == Op::Lt,
            r.comparisons@[0].value == value,
    {
        Expr { comparisons: vec![Comparison { column: self.name, op: Op::Lt, value }] }
    }

    /// The column is at most the constant.
    pub fn lt_eq(self, value: ScalarValue) -> (r: Expr)
        ensures
            r.comparisons@.len() == 1,
            r.comparisons@[0].column@ == self.name@,
            r.comparisons@[0].op == Op::LtEq,
            r.comparisons@[0].value == value,
    {
        Expr { comparisons: vec![Comparison { column: self.name, op: Op::LtEq, value }] }
    }

    /// The column equals the constant.
    pub fn eq_value(self, value: ScalarValue) -> (r: Expr)
        ensures
            r.comparisons@.len() == 1,
            r.comparisons@[0].column@ == self.name@,
            r.comparisons@[0].op == Op::Eq,
            r.comparisons@[0].value == value,
    {
        Expr { comparisons: vec![Comparison { column: self.name, op: Op::Eq, value }] }
    }

    /// The column differs from the constant.
    pub fn not_eq_value(self, value: ScalarValue) -> (r: Expr)
        ensures
            r.comparisons@.len() == 1,
            r.comparisons@[0].column@ == self.name@,
            r.comparisons@[0].op == Op::NotEq,
            r.comparisons@[0].value == value,
    {
        Expr { comparisons: vec![Comparison { column: self.name, op: Op::NotEq, value }] }
    }
}

/// A predicate: a conjunction of expressions, empty meaning no filter.
#[derive(Debug)]
pub struct Predicate {
    pub exprs: Vec<Expr>,
}

/// All comparisons of a predicate's expressions, in order.
pub open spec fn all_comparisons(exprs: Seq<Expr>) -> Seq<Comparison>
    decreases exprs.len(),
{
    if exprs.len() == 0 {
        Seq::empty()
    } else {
        all_comparisons(exprs.drop_last()) + exprs.last().comparisons@
    }
}

impl Predicate {
    /// The single filter expression the predicate amounts to: nothing
    /// where the predicate holds no expression, else the conjunction of
    /// them all.
    pub fn filter_expr(&self) -> (r: Option<Expr>)
        ensures
            (r is Some) == (self.exprs@.len() > 0),
            r matches Some(e) ==> e.comparisons@ == all_comparisons(self.exprs@),
    {
        if self.exprs.len() == 0 {
            proof {
                assert(all_comparisons(self.exprs@) =~= Seq::<Comparison>::empty());
            }
            return None;
        }
        let mut comparisons: Vec<Comparison> = Vec::new();
        let mut i: usize = 0;
        while i < self.exprs.len()
            invariant
                i <= self.exprs@.len(),
                comparisons@ == all_comparisons(self.exprs@.take(i as int)),
            decreases self.exprs@.len() - i,
        {
            let e = &self.exprs[i];
            let mut k: usize = 0;
            while k < e.comparisons.len()
                invariant
                    0 <= i < self.exprs@.len(),
                    e == self.exprs@[i as int],
                    k <= e.comparisons@.len(),
                    comparisons@ == all_comparisons(self.exprs@.take(i as int))
                        + e.comparisons@.take(k as int),
                decreases e.comparisons@.len() - k,
            {
                comparisons.push(clone_comparison(&e.comparisons[k]));
                proof {
                    assert(e.comparisons@.take(k as int + 1) =~= e.comparisons@.take(
                        k as int,
                    ).push(e.comparisons@[k as int]));
                    assert(comparisons@ =~= all_comparisons(self.exprs@.take(i as int))
                        + e.comparisons@.take(k as int + 1));
                }
                k = k + 1;
            }
            proof {
                assert(e.comparisons@.take(e.comparisons@.len() as int) =~= e.comparisons@);
                assert(self.exprs@.take(i as int + 1).drop_last() =~= self.exprs@.take(i as int));
                assert(self.exprs@.take(i as int + 1).last() == self.exprs@[i as int]);
            }
            i = i + 1;
        }
        proof {
            assert(self.exprs@.take(self.exprs@.len() as int) =~= self.exprs@);
        }
        Some(Expr { comparisons })
    }
}

/// Builds a predicate expression by expression.
#[derive(Debug)]
pub struct PredicateBuilder {
    exprs: Vec<Expr>,
}

impl PredicateBuilder {
    pub fn new() -> (r: Self)
        ensures
            r.spec_exprs().len() == 0,
    {
        PredicateBuilder { exprs: Vec::new() }
    }

    /// The expressions added so far.
    pub closed spec fn spec_exprs(&self) -> Seq<Expr> {
        self.exprs@
    }

    /// Adds one expression to the conjunction.
    pub fn add_expr(self, expr: Expr) -> (r: Self)
        ensures
            r.spec_exprs() == self.spec_exprs().push(expr),
    {
        let mut exprs = self.exprs;
        exprs.push(expr);
        PredicateBuilder { exprs }
    }

    pub fn build(self) -> (r: Predicate)
        ensures
            r.exprs@ == self.spec_exprs(),
    {
        Predicate { exprs: self.exprs }
    }
}

/// A copy of a scalar constant.
fn clone_scalar(v: &ScalarValue) -> (r: ScalarValue)
    ensures
        r == *v,
{
    match v {
        ScalarValue::I64(x) => ScalarValue::I64(*x),
        ScalarValue::U64(x) => ScalarValue::U64(*x),
        ScalarValue::F64(x) => ScalarValue::F64(*x),
        ScalarValue::Boolean(x) => ScalarValue::Boolean(*x),
        ScalarValue::Str(s) => ScalarValue::Str(s.clone()),
    }
}

/// A copy of a comparison.
fn clone_comparison(c: &Comparison) -> (r: Comparison)
    ensures
        r == *c,
{
    Comparison { column: c.column.clone(), op: c.op, value: clone_scalar(&c.value) }
}

/// A chunk as the pruning engine sees it: a name for reporting, the
/// table summary, and the schema of its data.
#[derive(Debug)]
pub struct PrunableChunk {
    pub name: String,
    pub summary: TableSummary,
    pub schema: Schema,
}

/// Something that cares to be notified when pruning of chunks occurs.
pub trait PruningObserver {
    /// The chunk was pruned from observation.
    fn was_pruned(&mut self, chunk: &PrunableChunk);

    /// No pruning could happen at all, for the given reason.
    fn could_not_prune(&mut self, reason: &str);

    /// The chunk could not be judged, for the given reason.
    fn could_not_prune_chunk(&mut self, chunk: &PrunableChunk, reason: &str);
}

/// How one chunk fares against a predicate.
#[derive(Debug, Clone, Copy, PartialEq, Eq, Structural)]
pub enum PruneOutcome {
    /// The bounds leave room for a matching row: the chunk stays.
    Keep,
    /// The bounds rule every row out: the chunk is dropped.
    Pruned,
    /// Some comparison is against a column type it cannot apply to.
    CannotCreate,
    /// Some compared column is missing from the chunk's schema.
    CannotEvaluate,
}

/// The type of the first schema field of the given name.
pub open spec fn schema_find(fields: Seq<(String, InfluxColumnType)>, nm: Seq<char>) -> Option<
    InfluxColumnType,
>
    decreases fields.len(),
{
    if fields.len() == 0 {
        None
    } else if fields[0].0@ == nm {
        Some(fields[0].1)
    } else {
        schema_find(fields.drop_first(), nm)
    }
}

/// The statistics of the first summary column of the given name.
pub open spec fn summary_find(cols: Seq<ColumnSummary>, nm: Seq<char>) -> Option<Statistics>
    decreases cols.len(),
{
    if cols.len() == 0 {
        None
    } else if cols[0].name@ == nm {
        Some(cols[0].stats)
    } else {
        summary_find(cols.drop_first(), nm)
    }
}

/// Whether a comparison against the given literal can be built over a
/// column of the given logical type.
pub open spec fn type_compatible(t: InfluxColumnType, v: ScalarValue) -> bool {
    match (t, v) {
        (InfluxColumnType::Field(InfluxFieldType::Float), ScalarValue::F64(_)) => true,
        (InfluxColumnType::Field(InfluxFieldType::Integer), ScalarValue::I64(_)) => true,
        (InfluxColumnType::Field(InfluxFieldType::Integer), ScalarValue::U64(_)) => true,
        (InfluxColumnType::Timestamp, ScalarValue::I64(_)) => true,
        (InfluxColumnType::Timestamp, ScalarValue::U64(_)) => true,
        (InfluxColumnType::Field(InfluxFieldType::UInteger), ScalarValue::I64(_)) => true,
        (InfluxColumnType::Field(InfluxFieldType::UInteger), ScalarValue::U64(_)) => true,
        (InfluxColumnType::Field(InfluxFieldType::Str), ScalarValue::Str(_)) => true,
        (InfluxColumnType::Tag, ScalarValue::Str(_)) => true,
        (InfluxColumnType::Field(InfluxFieldType::Boolean), ScalarValue::Boolean(_)) => true,
        _ => false,
    }
}

/// Whether some value between the known bounds could satisfy `op`
/// against the literal, for integer bounds.
pub open spec fn int_possible(mn: Option<int>, mx: Option<int>, op: Op, lit: int) -> bool {
    match op {
        Op::Gt => mx is None || mx->0 > lit,
        Op::GtEq => mx is None || mx->0 >= lit,
        Op::Lt => mn is None || mn->0 < lit,
        Op::LtEq => mn is None || mn->0 <= lit,
        Op::Eq => (mn is None || mn->0 <= lit) && (mx is None || mx->0 >= lit),
        Op::NotEq => !(mn is Some && mx is Some && mn->0 == lit && mx->0 == lit),
    }
}

/// The numeric value of an integer-kind literal, if it is one.
pub open spec fn int_lit(v: ScalarValue) -> Option<int> {
    match v {
        ScalarValue::I64(x) => Some(x as int),
        ScalarValue::U64(x) => Some(x as int),
        _ => None,
    }
}

/// Whether some string between the known bounds could satisfy `op`
/// against the literal, in byte-wise order.
pub open spec fn str_possible(
    mn: Option<Seq<char>>,
    mx: Option<Seq<char>>,
    op: Op,
    lit: Seq<char>,
) -> bool {
    match op {
        Op::Gt => mx is None || chars_lt(lit, mx->0),
        Op::GtEq => mx is None || !chars_lt(mx->0, lit),
        Op::Lt => mn is None || chars_lt(mn->0, lit),
        Op::LtEq => mn is None || !chars_lt(lit, mn->0),
        Op::Eq => (mn is None || !chars_lt(lit, mn->0)) && (mx is None || !chars_lt(mx->0, lit)),
        Op::NotEq => !(mn is Some && mx is Some && mn->0 == lit && mx->0 == lit),
    }
}

/// Whether some value within the summary's bounds could satisfy the
/// comparison. Statistics of a kind the literal cannot be compared to
/// leave the answer open, which keeps the chunk.
pub open spec fn stats_possible(st: Statistics, op: Op, v: ScalarValue) -> bool {
    match (st, v) {
        (Statistics::I64(s), _) => match int_lit(v) {
            Some(lit) => int_possible(
                match s.min {
                    Some(m) => Some(m as int),
                    None => None,
                },
                match s.max {
                    Some(m) => Some(m as int),
                    None => None,
                },
                op,
                lit,
            ),
            None => true,
        },
        (Statistics::U64(s), _) => match int_lit(v) {
            Some(lit) => int_possible(
                match s.min {
                    Some(m) => Some(m as int),
                    None => None,
                },
                match s.max {
                    Some(m) => Some(m as int),
                    None => None,
                },
                op,
                lit,
            ),
            None => true,
        },
        (Statistics::F64(s), ScalarValue::F64(lit)) => if is_nan_bits(lit) {
            op is NotEq
        } else {
            int_possible(
                match s.min {
                    Some(m) => Some(f64_key(m)),
                    None => None,
                },
                match s.max {
                    Some(m) => Some(f64_key(m)),
                    None => None,
                },
                op,
                f64_key(lit),
            )
        },
        (Statistics::Bool(s), ScalarValue::Boolean(lit)) => int_possible(
            match s.min {
                Some(m) => Some(
                    if m {
                        1int
                    } else {
                        0int
                    },
                ),
                None => None,
            },
            match s.max {
                Some(m) => Some(
                    if m {
                        1int
                    } else {
                        0int
                    },
                ),
                None => None,
            },
            op,
            if lit {
                1int
            } else {
                0int
            },
        ),
        (Statistics::Str(s), ScalarValue::Str(lit)) => str_possible(
            match s.min {
                Some(ref m) => Some(m@),
                None => None,
            },
            match s.max {
                Some(ref m) => Some(m@),
                None => None,
            },
            op,
            lit@,
        ),
        _ => true,
    }
}

/// How a chunk fares against a conjunction of comparisons: a type the
/// literal cannot apply to blocks the whole predicate; a missing
/// column leaves it unjudgeable; otherwise the chunk is pruned exactly
/// when some comparison is impossible within the chunk's bounds.
pub open spec fn chunk_outcome(chunk: PrunableChunk, cmps: Seq<Comparison>) -> PruneOutcome {
    if exists|k: int|
        0 <= k < cmps.len() && (schema_find(chunk.schema.fields@, (#[trigger] cmps[k]).column@)
            matches Some(t) && !type_compatible(t, cmps[k].value)) {
        PruneOutcome::CannotCreate
    } else if exists|k: int|
        0 <= k < cmps.len() && schema_find(chunk.schema.fields@, (#[trigger] cmps[k]).column@)
            is None {
        PruneOutcome::CannotEvaluate
    } else if exists|k: int|
        0 <= k < cmps.len() && (summary_find(chunk.summary.columns@, (#[trigger] cmps[k]).column@)
            matches Some(st) && !stats_possible(st, cmps[k].op, cmps[k].value)) {
        PruneOutcome::Pruned
    } else {
        PruneOutcome::Keep
    }
}

/// Whether the summary holds no statistics at all for some compared
/// column. Such a chunk can never be judged on that comparison, and
/// the observer is told so when the chunk is kept.
pub open spec fn lacks_statistics(chunk: PrunableChunk, cmps: Seq<Comparison>) -> bool {
    exists|k: int|
        0 <= k < cmps.len() && summary_find(
            chunk.summary.columns@,
            (#[trigger] cmps[k]).column@,
        ) is None
}

/// How one integer compares under an operator.
pub open spec fn int_cmp(x: int, op: Op, l: int) -> bool {
    match op {
        Op::Gt => x > l,
        Op::GtEq => x >= l,
        Op::Lt => x < l,
        Op::LtEq => x <= l,
        Op::Eq => x == l,
        Op::NotEq => x != l,
    }
}

/// How one string compares under an operator, byte-wise.
pub open spec fn str_cmp(x: Seq<char>, op: Op, l: Seq<char>) -> bool {
    match op {
        Op::Gt => chars_lt(l, x),
        Op::GtEq => !chars_lt(x, l),
        Op::Lt => chars_lt(x, l),
        Op::LtEq => !chars_lt(l, x),
        Op::Eq => x == l,
        Op::NotEq => x != l,
    }
}

/// Whether one concrete row value satisfies a comparison. A NaN cell
/// never counts as matching: a NaN compares as nothing under every
/// operator here.
pub open spec fn cell_satisfies(c: CellV, op: Op, v: ScalarValue) -> bool {
    match (c, v) {
        (CellV::I(x), _) => match int_lit(v) {
            Some(l) => int_cmp(x as int, op, l),
            None => false,
        },
        (CellV::U(x), _) => match int_lit(v) {
            Some(l) => int_cmp(x as int, op, l),
            None => false,
        },
        (CellV::F(x), ScalarValue::F64(l)) => !is_nan_bits(x) && !is_nan_bits(l) && int_cmp(
            f64_key(x),
            op,
            f64_key(l),
        ),
        (CellV::B(x), ScalarValue::Boolean(l)) => int_cmp(
            if x {
                1int
            } else {
                0int
            },
            op,
            if l {
                1int
            } else {
                0int
            },
        ),
        (CellV::S(x), ScalarValue::Str(l)) => str_cmp(x, op, l@),
        _ => false,
    }
}

/// Whether one concrete row value lies within a summary's bounds, for
/// matching kinds. A NaN double is outside every bound's reach.
pub open spec fn cell_within(st: Statistics, c: CellV) -> bool {
    match (st, c) {
        (Statistics::I64(s), CellV::I(x)) => (s.min matches Some(m) ==> m <= x) && (s.max
            matches Some(m) ==> x <= m),
        (Statistics::U64(s), CellV::U(x)) => (s.min matches Some(m) ==> m <= x) && (s.max
            matches Some(m) ==> x <= m),
        (Statistics::F64(s), CellV::F(x)) => !is_nan_bits(x) ==> ((s.min matches Some(m)
            ==> f64_key(m) <= f64_key(x)) && (s.max matches Some(m) ==> f64_key(x) <= f64_key(m))),
        (Statistics::Bool(s), CellV::B(x)) => (s.min matches Some(m) ==> (m ==> x)) && (s.max
            matches Some(m) ==> (x ==> m)),
        (Statistics::Str(s), CellV::S(x)) => (s.min matches Some(m) ==> !chars_lt(x, m@)) && (s.max
            matches Some(m) ==> !chars_lt(m@, x)),
        _ => false,
    }
}

/// String order helper: below-or-equal against a bound propagates
/// through a strict comparison.
proof fn lemma_chars_facts(a: Seq<char>, b: Seq<char>, c: Seq<char>)
    ensures
        chars_lt(a, b) && chars_lt(b, c) ==> chars_lt(a, c),
        chars_lt(a, b) || chars_lt(b, a) || a == b,
        !(chars_lt(a, b) && chars_lt(b, a)),
{
    crate::strcmp::lemma_bytes_lt_transitive(
        vstd::utf8::encode_utf8(a),
        vstd::utf8::encode_utf8(b),
        vstd::utf8::encode_utf8(c),
    );
    crate::strcmp::lemma_bytes_lt_trichotomy(
        vstd::utf8::encode_utf8(a),
        vstd::utf8::encode_utf8(b),
    );
    crate::strcmp::lemma_bytes_lt_asymmetric(
        vstd::utf8::encode_utf8(a),
        vstd::utf8::encode_utf8(b),
    );
    crate::strcmp::lemma_chars_of_bytes(a, b);
}

/// Law: pruning is conservative. A chunk that holds a row satisfying
/// every comparison, with each compared value inside the bounds its
/// summary states, is never pruned: uncertainty always keeps the chunk.
pub proof fn lemma_pruning_sound(
    chunk: PrunableChunk,
    cmps: Seq<Comparison>,
    row: Map<Seq<char>, CellV>,
)
    requires
        forall|k: int|
            0 <= k < cmps.len() ==> {
                &&& row.dom().contains((#[trigger] cmps[k]).column@)
                &&& cell_satisfies(row[cmps[k].column@], cmps[k].op, cmps[k].value)
                &&& (summary_find(chunk.summary.columns@, cmps[k].column@) matches Some(st)
                    ==> cell_within(st, row[cmps[k].column@]))
            },
    ensures
        chunk_outcome(chunk, cmps) != PruneOutcome::Pruned,
{
    if chunk_outcome(chunk, cmps) == PruneOutcome::Pruned {
        let k = choose|k: int|
            0 <= k < cmps.len() && (summary_find(
                chunk.summary.columns@,
                (#[trigger] cmps[k]).column@,
            ) matches Some(st) && !stats_possible(st, cmps[k].op, cmps[k].value));
        let st = summary_find(chunk.summary.columns@, cmps[k].column@)->0;
        let c = row[cmps[k].column@];
        let op = cmps[k].op;
        let v = cmps[k].value;
        assert(cell_satisfies(c, op, v));
        assert(cell_within(st, c));
        assert(!stats_possible(st, op, v));
        match (st, c, v) {
            (Statistics::Str(s), CellV::S(x), ScalarValue::Str(l)) => {
                match s.min {
                    Some(mn) => {
                        lemma_chars_facts(x, mn@, l@);
                        lemma_chars_facts(mn@, x, l@);
                        lemma_chars_facts(x, l@, mn@);
                        lemma_chars_facts(mn@, l@, x);
                        lemma_chars_facts(l@, mn@, x);
                    },
                    None => {},
                }
                match s.max {
                    Some(mx) => {
                        lemma_chars_facts(x, mx@, l@);
                        lemma_chars_facts(mx@, x, l@);
                        lemma_chars_facts(l@, x, mx@);
                        lemma_chars_facts(x, l@, mx@);
                        lemma_chars_facts(mx@, l@, x);
                        lemma_chars_facts(l@, mx@, x);
                    },
                    None => {},
                }
                assert(false);
            },
            _ => {
                assert(false);
            },
        }
    }
}

/// The type of the first schema field of the given name.
fn find_schema_type(schema: &Schema, name: &str) -> (r: Option<InfluxColumnType>)
    ensures
        r == schema_find(schema.fields@, name@),
{
    let mut i: usize = 0;
    proof {
        assert(schema.fields@.skip(0) =~= schema.fields@);
    }
    while i < schema.fields.len()
        invariant
            i <= schema.fields@.len(),
            schema_find(schema.fields@, name@) == schema_find(
                schema.fields@.skip(i as int),
                name@,
            ),
        decreases schema.fields@.len() - i,
    {
        proof {
            assert(schema.fields@.skip(i as int)[0] == schema.fields@[i as int]);
            assert(schema.fields@.skip(i as int).drop_first() =~= schema.fields@.skip(
                i as int + 1,
            ));
        }
        if crate::strcmp::str_eq(schema.fields[i].0.as_str(), name) {
            return Some(schema.fields[i].1);
        }
        i = i + 1;
    }
    proof {
        assert(schema.fields@.skip(schema.fields@.len() as int) =~= Seq::<(
            String,
            InfluxColumnType,
        )>::empty());
    }
    None
}

/// The statistics of the first summary column of the given name.
fn find_summary_stats<'a>(summary: &'a TableSummary, name: &str) -> (r: Option<&'a Statistics>)
    ensures
        match r {
            Some(st) => summary_find(summary.columns@, name@) == Some(*st),
            None => summary_find(summary.columns@, name@) is None,
        },
{
    let mut i: usize = 0;
    proof {
        assert(summary.columns@.skip(0) =~= summary.columns@);
    }
    while i < summary.columns.len()
        invariant
            i <= summary.columns@.len(),
            summary_find(summary.columns@, name@) == summary_find(
                summary.columns@.skip(i as int),
                name@,
            ),
        decreases summary.columns@.len() - i,
    {
        proof {
            assert(summary.columns@.skip(i as int)[0] == summary.columns@[i as int]);
            assert(summary.columns@.skip(i as int).drop_first() =~= summary.columns@.skip(
                i as int + 1,
            ));
        }
        if crate::strcmp::str_eq(summary.columns[i].name.as_str(), name) {
            return Some(&summary.columns[i].stats);
        }
        i = i + 1;
    }
    proof {
        assert(summary.columns@.skip(summary.columns@.len() as int) =~= Seq::<
            ColumnSummary,
        >::empty());
    }
    None
}

/// Whether the literal applies to the column type.
fn check_type_compatible(t: InfluxColumnType, v: &ScalarValue) -> (r: bool)
    ensures
        r == type_compatible(t, *v),
{
    match (t, v) {
        (InfluxColumnType::Field(InfluxFieldType::Float), ScalarValue::F64(_)) => true,
        (InfluxColumnType::Field(InfluxFieldType::Integer), ScalarValue::I64(_)) => true,
        (InfluxColumnType::Field(InfluxFieldType::Integer), ScalarValue::U64(_)) => true,
        (InfluxColumnType::Timestamp, ScalarValue::I64(_)) => true,
        (InfluxColumnType::Timestamp, ScalarValue::U64(_)) => true,
        (InfluxColumnType::Field(InfluxFieldType::UInteger), ScalarValue::I64(_)) => true,
        (InfluxColumnType::Field(InfluxFieldType::UInteger), ScalarValue::U64(_)) => true,
        (InfluxColumnType::Field(InfluxFieldType::Str), ScalarValue::Str(_)) => true,
        (InfluxColumnType::Tag, ScalarValue::Str(_)) => true,
        (InfluxColumnType::Field(InfluxFieldType::Boolean), ScalarValue::Boolean(_)) => true,
        _ => false,
    }
}

/// Compares two known integer-kind bounds against the literal.
fn check_int_possible(mn: Option<i128>, mx: Option<i128>, op: Op, lit: i128) -> (r: bool)
    requires
        -0x8000_0000_0000_0000 <= lit <= 0xffff_ffff_ffff_ffff,
        mn matches Some(m) ==> -0x8000_0000_0000_0000 <= m <= 0xffff_ffff_ffff_ffff,
        mx matches Some(m) ==> -0x8000_0000_0000_0000 <= m <= 0xffff_ffff_ffff_ffff,
    ensures
        r == int_possible(
            match mn {
                Some(m) => Some(m as int),
                None => None,
            },
            match mx {
                Some(m) => Some(m as int),
                None => None,
            },
            op,
            lit as int,
        ),
{
    match op {
        Op::Gt => match mx {
            Some(m) => m > lit,
            None => true,
        },
        Op::GtEq => match mx {
            Some(m) => m >= lit,
            None => true,
        },
        Op::Lt => match mn {
            Some(m) => m < lit,
            None => true,
        },
        Op::LtEq => match mn {
            Some(m) => m <= lit,
            None => true,
        },
        Op::Eq => (match mn {
            Some(m) => m <= lit,
            None => true,
        }) && (match mx {
            Some(m) => m >= lit,
            None => true,
        }),
        Op::NotEq => !(match (mn, mx) {
            (Some(a), Some(b)) => a == lit && b == lit,
            _ => false,
        }),
    }
}

/// The order key of a double's bit pattern, as a machine integer.
fn f64_key_exec(bits: u64) -> (r: i128)
    ensures
        r as int == f64_key(bits),
        -0x8000_0000_0000_0000 <= r <= 0xffff_ffff_ffff_ffff,
{
    let magnitude = bits & 0x7fff_ffff_ffff_ffff;
    proof {
        assert(bits & 0x7fff_ffff_ffff_ffff <= 0x7fff_ffff_ffff_ffff) by (bit_vector);
    }
    if bits >> 63 == 1 {
        -(magnitude as i128)
    } else {
        magnitude as i128
    }
}

/// Compares two known string bounds against the literal, byte-wise.
fn check_str_possible(mn: Option<&String>, mx: Option<&String>, op: Op, lit: &str) -> (r: bool)
    ensures
        r == str_possible(
            match mn {
                Some(m) => Some(m@),
                None => None,
            },
            match mx {
                Some(m) => Some(m@),
                None => None,
            },
            op,
            lit@,
        ),
{
    match op {
        Op::Gt => match mx {
            Some(m) => crate::strcmp::str_compare_lt(lit, m.as_str()),
            None => true,
        },
        Op::GtEq => match mx {
            Some(m) => !crate::strcmp::str_compare_lt(m.as_str(), lit),
            None => true,
        },
        Op::Lt => match mn {
            Some(m) => crate::strcmp::str_compare_lt(m.as_str(), lit),
            None => true,
        },
        Op::LtEq => match mn {
            Some(m) => !crate::strcmp::str_compare_lt(lit, m.as_str()),
            None => true,
        },
        Op::Eq => (match mn {
            Some(m) => !crate::strcmp::str_compare_lt(lit, m.as_str()),
            None => true,
        }) && (match mx {
            Some(m) => !crate::strcmp::str_compare_lt(m.as_str(), lit),
            None => true,
        }),
        Op::NotEq => !(match (mn, mx) {
            (Some(a), Some(b)) => crate::strcmp::str_eq(a.as_str(), lit)
                && crate::strcmp::str_eq(b.as_str(), lit),
            _ => false,
        }),
    }
}

/// Whether some value within the summary's bounds could satisfy the
/// comparison.
fn check_stats_possible(st: &Statistics, op: Op, v: &ScalarValue) -> (r: bool)
    ensures
        r == stats_possible(*st, op, *v),
{
    match (st, v) {
        (Statistics::I64(s), _) => {
            let lit: i128 = match v {
                ScalarValue::I64(x) => *x as i128,
                ScalarValue::U64(x) => *x as i128,
                _ => {
                    return true;
                },
            };
            check_int_possible(
                match &s.min {
                    Some(m) => Some(*m as i128),
                    None => None,
                },
                match &s.max {
                    Some(m) => Some(*m as i128),
                    None => None,
                },
                op,
                lit,
            )
        },
        (Statistics::U64(s), _) => {
            let lit: i128 = match v {
                ScalarValue::I64(x) => *x as i128,
                ScalarValue::U64(x) => *x as i128,
                _ => {
                    return true;
                },
            };
            check_int_possible(
                match &s.min {
                    Some(m) => Some(*m as i128),
                    None => None,
                },
                match &s.max {
                    Some(m) => Some(*m as i128),
                    None => None,
                },
                op,
                lit,
            )
        },
        (Statistics::F64(s), ScalarValue::F64(lit)) => {
            if crate::bits::f64_is_nan(*lit) {
                matches!(op, Op::NotEq)
            } else {
                check_int_possible(
                    match &s.min {
                        Some(m) => Some(f64_key_exec(*m)),
                        None => None,
                    },
                    match &s.max {
                        Some(m) => Some(f64_key_exec(*m)),
                        None => None,
                    },
                    op,
                    f64_key_exec(*lit),
                )
            }
        },
        (Statistics::Bool(s), ScalarValue::Boolean(lit)) => check_int_possible(
            match &s.min {
                Some(m) => Some(
                    if *m {
                        1
                    } else {
                        0
                    },
                ),
                None => None,
            },
            match &s.max {
                Some(m) => Some(
                    if *m {
                        1
                    } else {
                        0
                    },
                ),
                None => None,
            },
            op,
            if *lit {
                1
            } else {
                0
            },
        ),
        (Statistics::Str(s), ScalarValue::Str(lit)) => check_str_possible(
            match &s.min {
                Some(m) => Some(m),
                None => None,
            },
            match &s.max {
                Some(m) => Some(m),
                None => None,
            },
            op,
            lit.as_str(),
        ),
        _ => true,
    }
}

/// Judges one chunk against the conjunction of comparisons.
fn judge_chunk(chunk: &PrunableChunk, cmps: &Vec<Comparison>) -> (r: PruneOutcome)
    ensures
        r == chunk_outcome(*chunk, cmps@),
{
    let n = cmps.len();
    let mut k: usize = 0;
    while k < n
        invariant
            n == cmps@.len(),
            k <= n,
            forall|j: int|
                0 <= j < k ==> !(schema_find(
                    chunk.schema.fields@,
                    (#[trigger] cmps@[j]).column@,
                ) matches Some(t) && !type_compatible(t, cmps@[j].value)),
        decreases n - k,
    {
        let c = &cmps[k];
        match find_schema_type(&chunk.schema, c.column.as_str()) {
            Some(t) => {
                if !check_type_compatible(t, &c.value) {
                    return PruneOutcome::CannotCreate;
                }
            },
            None => {},
        }
        k = k + 1;
    }
    let mut k: usize = 0;
    while k < n
        invariant
            n == cmps@.len(),
            k <= n,
            forall|j: int|
                0 <= j < n ==> !(schema_find(
                    chunk.schema.fields@,
                    (#[trigger] cmps@[j]).column@,
                ) matches Some(t) && !type_compatible(t, cmps@[j].value)),
            forall|j: int|
                0 <= j < k ==> !(schema_find(
                    chunk.schema.fields@,
                    (#[trigger] cmps@[j]).column@,
                ) is None),
        decreases n - k,
    {
        let c = &cmps[k];
        match find_schema_type(&chunk.schema, c.column.as_str()) {
            Some(_) => {},
            None => {
                return PruneOutcome::CannotEvaluate;
            },
        }
        k = k + 1;
    }
    let mut k: usize = 0;
    while k < n
        invariant
            n == cmps@.len(),
            k <= n,
            forall|j: int|
                0 <= j < n ==> !(schema_find(
                    chunk.schema.fields@,
                    (#[trigger] cmps@[j]).column@,
                ) matches Some(t) && !type_compatible(t, cmps@[j].value)),
            forall|j: int|
                0 <= j < n ==> !(schema_find(
                    chunk.schema.fields@,
                    (#[trigger] cmps@[j]).column@,
                ) is None),
            forall|j: int|
                0 <= j < k ==> !(summary_find(
                    chunk.summary.columns@,
                    (#[trigger] cmps@[j]).column@,
                ) matches Some(st) && !stats_possible(st, cmps@[j].op, cmps@[j].value)),
        decreases n - k,
    {
        let c = &cmps[k];
        match find_summary_stats(&chunk.summary, c.column.as_str()) {
            Some(st) => {
                if !check_stats_possible(st, c.op, &c.value) {
                    return PruneOutcome::Pruned;
                }
            },
            None => {},
        }
        k = k + 1;
    }
    PruneOutcome::Keep
}

/// Whether any compared column has no statistics in the summary.
fn lacks_stats(chunk: &PrunableChunk, cmps: &Vec<Comparison>) -> (r: bool)
    ensures
        r == lacks_statistics(*chunk, cmps@),
{
    let n = cmps.len();
    let mut k: usize = 0;
    while k < n
        invariant
            n == cmps@.len(),
            k <= n,
            forall|j: int|
                0 <= j < k ==> !(summary_find(
                    chunk.summary.columns@,
                    (#[trigger] cmps@[j]).column@,
                ) is None),
        decreases n - k,
    {
        let c = &cmps[k];
        match find_summary_stats(&chunk.summary, c.column.as_str()) {
            Some(_) => {},
            None => {
                return true;
            },
        }
        k = k + 1;
    }
    false
}

/// Given prunable chunks, returns the possibly smaller list of those
/// whose bounds leave room for the predicate, in the input's order.
/// Without a filter expression nothing can be pruned, and the observer
/// hears why; a chunk that cannot be judged is kept and reported, as
/// is one kept while a compared column has no statistics at all.
pub fn prune_chunks<O: PruningObserver>(
    observer: &mut O,
    summaries: Vec<PrunableChunk>,
    predicate: &Predicate,
) -> (r: Vec<PrunableChunk>)
    ensures
        predicate.exprs@.len() == 0 ==> r@ == summaries@,
        predicate.exprs@.len() > 0 ==> r@ == summaries@.filter(
            |c: PrunableChunk|
                chunk_outcome(c, all_comparisons(predicate.exprs@)) != PruneOutcome::Pruned,
        ),
{
    let filter = match predicate.filter_expr() {
        Some(e) => e,
        None => {
            observer.could_not_prune("No expression on predicate");
            return summaries;
        },
    };
    let ghost keep_pred = |c: PrunableChunk|
        chunk_outcome(c, all_comparisons(predicate.exprs@)) != PruneOutcome::Pruned;

    let mut kept: Vec<PrunableChunk> = Vec::new();
    let mut rest = summaries;
    let ghost all = rest@;
    proof {
        assert(all.take(0) =~= Seq::<PrunableChunk>::empty());
        assert(Seq::<PrunableChunk>::empty().filter(keep_pred) =~= Seq::<
            PrunableChunk,
        >::empty()) by {
            reveal(Seq::filter);
        }
        assert(rest@ =~= all.skip(0));
    }
    let mut idx: usize = 0;
    let n = rest.len();
    while idx < n
        invariant
            n == all.len(),
            idx <= n,
            rest@ == all.skip(idx as int),
            filter.comparisons@ == all_comparisons(predicate.exprs@),
            keep_pred == (|c: PrunableChunk|
                chunk_outcome(c, all_comparisons(predicate.exprs@)) != PruneOutcome::Pruned),
            kept@ == all.take(idx as int).filter(keep_pred),
        decreases n - idx,
    {
        let c = rest.remove(0);
        proof {
            assert(all.skip(idx as int)[0] == all[idx as int]);
            assert(c == all[idx as int]);
            assert(rest@ =~= all.skip(idx as int + 1));
        }
        let outcome = judge_chunk(&c, &filter.comparisons);
        match outcome {
            PruneOutcome::Pruned => {
                observer.was_pruned(&c);
            },
            PruneOutcome::CannotCreate => {
                observer.could_not_prune_chunk(&c, "Can not create pruning predicate");
                kept.push(c);
            },
            PruneOutcome::CannotEvaluate => {
                observer.could_not_prune_chunk(&c, "Can not evaluate pruning predicate");
                kept.push(c);
            },
            PruneOutcome::Keep => {
                if lacks_stats(&c, &filter.comparisons) {
                    observer.could_not_prune_chunk(&c, "No statistics for pruning column");
                }
                kept.push(c);
            },
        }
        proof {
            reveal(Seq::filter);
            assert(all.take(idx as int + 1).drop_last() =~= all.take(idx as int));
            assert(all.take(idx as int + 1).last() == all[idx as int]);
            assert(kept@ =~= all.take(idx as int + 1).filter(keep_pred));
        }
        idx = idx + 1;
    }
    proof {
        assert(all.take(n as int) =~= all);
    }
    kept
}

} // verus!
