//! Statistics-based pruning decisions.

use mutable_buffer::pruning::{
    col, prune_chunks, Predicate, PredicateBuilder, PrunableChunk, PruningObserver, ScalarValue,
};
use mutable_buffer::schema::{InfluxColumnType, InfluxFieldType, Schema};
use mutable_buffer::stats::{ColumnSummary, StatValues, Statistics, TableSummary};

#[derive(Debug, Default)]
struct TestObserver {
    events: Vec<String>,
}

impl TestObserver {
    fn new() -> Self {
        Self::default()
    }

    fn events(&self) -> Vec<String> {
        self.events.clone()
    }
}

impl PruningObserver for TestObserver {
    fn was_pruned(&mut self, chunk: &PrunableChunk) {
        self.events.push(format!("{}: Pruned", chunk.name))
    }

    fn could_not_prune(&mut self, reason: &str) {
        self.events.push(format!("Could not prune: {}", reason))
    }

    fn could_not_prune_chunk(&mut self, chunk: &PrunableChunk, reason: &str) {
        self.events
            .push(format!("{}: Could not prune chunk: {}", chunk.name, reason))
    }
}

struct TestPrunable {
    name: String,
    summary: TableSummary,
    schema: Schema,
}

impl TestPrunable {
    fn new(name: impl Into<String>) -> Self {
        let name = name.into();
        Self {
            summary: TableSummary {
                name: name.clone(),
                columns: Vec::new(),
            },
            schema: Schema { fields: Vec::new() },
            name,
        }
    }

    fn finish(self) -> PrunableChunk {
        PrunableChunk {
            name: self.name,
            summary: self.summary,
            schema: self.schema,
        }
    }

    fn with_field(mut self, name: &str, t: InfluxColumnType, stats: Option<Statistics>) -> Self {
        self.schema.fields.push((name.to_string(), t));
        if let Some(stats) = stats {
            self.summary.columns.push(ColumnSummary {
                name: name.to_string(),
                influxdb_type: None,
                stats,
            });
        }
        self
    }

    fn with_f64_column(self, name: &str, min: Option<f64>, max: Option<f64>) -> Self {
        self.with_field(
            name,
            InfluxColumnType::Field(InfluxFieldType::Float),
            Some(Statistics::F64(StatValues {
                min: min.map(f64::to_bits),
                max: max.map(f64::to_bits),
                count: 42,
                distinct_count: None,
            })),
        )
    }

    fn with_i64_column(self, name: &str, min: Option<i64>, max: Option<i64>) -> Self {
        self.with_field(
            name,
            InfluxColumnType::Field(InfluxFieldType::Integer),
            Some(Statistics::I64(StatValues {
                min,
                max,
                count: 42,
                distinct_count: None,
            })),
        )
    }

    fn with_i64_column_no_stats(self, name: &str) -> Self {
        self.with_field(name, InfluxColumnType::Field(InfluxFieldType::Integer), None)
    }

    fn with_u64_column(self, name: &str, min: Option<u64>, max: Option<u64>) -> Self {
        self.with_field(
            name,
            InfluxColumnType::Field(InfluxFieldType::UInteger),
            Some(Statistics::U64(StatValues {
                min,
                max,
                count: 42,
                distinct_count: None,
            })),
        )
    }

    fn with_string_column(self, name: &str, min: Option<&str>, max: Option<&str>) -> Self {
        self.with_field(
            name,
            InfluxColumnType::Field(InfluxFieldType::Str),
            Some(Statistics::Str(StatValues {
                min: min.map(str::to_string),
                max: max.map(str::to_string),
                count: 42,
                distinct_count: None,
            })),
        )
    }
}

fn names(pruned: &Vec<PrunableChunk>) -> Vec<&str> {
    pruned.iter().map(|p| p.name.as_str()).collect()
}

fn empty_predicate() -> Predicate {
    PredicateBuilder::new().build()
}

#[test]
fn test_empty() {
    let mut observer = TestObserver::new();
    let c1 = TestPrunable::new("chunk1").finish();

    let predicate = empty_predicate();
    let pruned = prune_chunks(&mut observer, vec![c1], &predicate);

    assert_eq!(
        observer.events(),
        vec!["Could not prune: No expression on predicate"]
    );
    assert_eq!(names(&pruned), vec!["chunk1"]);
}

#[test]
fn test_pruned_f64() {
    // column1 > 100.0 where
    //   c1: [0.0, 10.0] --> pruned
    let mut observer = TestObserver::new();
    let c1 = TestPrunable::new("chunk1")
        .with_f64_column("column1", Some(0.0), Some(10.0))
        .finish();

    let predicate = PredicateBuilder::new()
        .add_expr(col("column1").gt(ScalarValue::F64(100.0f64.to_bits())))
        .build();

    let pruned = prune_chunks(&mut observer, vec![c1], &predicate);
    assert_eq!(observer.events(), vec!["chunk1: Pruned"]);
    assert!(pruned.is_empty())
}

#[test]
fn test_pruned_i64() {
    // column1 > 100 where
    //   c1: [0, 10] --> pruned
    let mut observer = TestObserver::new();
    let c1 = TestPrunable::new("chunk1")
        .with_i64_column("column1", Some(0), Some(10))
        .finish();

    let predicate = PredicateBuilder::new()
        .add_expr(col("column1").gt(ScalarValue::I64(100)))
        .build();

    let pruned = prune_chunks(&mut observer, vec![c1], &predicate);

    assert_eq!(observer.events(), vec!["chunk1: Pruned"]);
    assert!(pruned.is_empty())
}

#[test]
fn test_pruned_u64() {
    // column1 > 100 where
    //   c1: [0, 10] --> pruned
    let mut observer = TestObserver::new();
    let c1 = TestPrunable::new("chunk1")
        .with_u64_column("column1", Some(0), Some(10))
        .finish();

    let predicate = PredicateBuilder::new()
        .add_expr(col("column1").gt(ScalarValue::I64(100)))
        .build();

    let pruned = prune_chunks(&mut observer, vec![c1], &predicate);

    assert_eq!(observer.events(), vec!["chunk1: Pruned"]);
    assert!(pruned.is_empty())
}

#[test]
fn test_pruned_string() {
    // column1 > "z" where
    //   c1: ["a", "q"] --> pruned
    let mut observer = TestObserver::new();
    let c1 = TestPrunable::new("chunk1")
        .with_string_column("column1", Some("a"), Some("q"))
        .finish();

    let predicate = PredicateBuilder::new()
        .add_expr(col("column1").gt(ScalarValue::Str("z".to_string())))
        .build();

    let pruned = prune_chunks(&mut observer, vec![c1], &predicate);

    assert_eq!(observer.events(), vec!["chunk1: Pruned"]);
    assert!(pruned.is_empty())
}

#[test]
fn test_not_pruned_f64() {
    // column1 < 100.0 where
    //   c1: [0.0, 10.0] --> not pruned
    let mut observer = TestObserver::new();
    let c1 = TestPrunable::new("chunk1")
        .with_f64_column("column1", Some(0.0), Some(10.0))
        .finish();

    let predicate = PredicateBuilder::new()
        .add_expr(col("column1").lt(ScalarValue::F64(100.0f64.to_bits())))
        .build();

    let pruned = prune_chunks(&mut observer, vec![c1], &predicate);
    assert!(observer.events().is_empty());
    assert_eq!(names(&pruned), vec!["chunk1"]);
}

#[test]
fn test_not_pruned_i64() {
    // column1 < 100 where
    //   c1: [0, 10] --> not pruned
    let mut observer = TestObserver::new();
    let c1 = TestPrunable::new("chunk1")
        .with_i64_column("column1", Some(0), Some(10))
        .finish();

    let predicate = PredicateBuilder::new()
        .add_expr(col("column1").lt(ScalarValue::I64(100)))
        .build();

    let pruned = prune_chunks(&mut observer, vec![c1], &predicate);

    assert!(observer.events().is_empty());
    assert_eq!(names(&pruned), vec!["chunk1"]);
}

#[test]
fn test_not_pruned_u64() {
    // column1 < 100 where
    //   c1: [0, 10] --> not pruned
    let mut observer = TestObserver::new();
    let c1 = TestPrunable::new("chunk1")
        .with_u64_column("column1", Some(0), Some(10))
        .finish();

    let predicate = PredicateBuilder::new()
        .add_expr(col("column1").lt(ScalarValue::I64(100)))
        .build();

    let pruned = prune_chunks(&mut observer, vec![c1], &predicate);

    assert!(observer.events().is_empty());
    assert_eq!(names(&pruned), vec!["chunk1"]);
}

#[test]
fn test_not_pruned_string() {
    // column1 < "z" where
    //   c1: ["a", "q"] --> not pruned
    let mut observer = TestObserver::new();
    let c1 = TestPrunable::new("chunk1")
        .with_string_column("column1", Some("a"), Some("q"))
        .finish();

    let predicate = PredicateBuilder::new()
        .add_expr(col("column1").lt(ScalarValue::Str("z".to_string())))
        .build();

    let pruned = prune_chunks(&mut observer, vec![c1], &predicate);

    assert!(observer.events().is_empty());
    assert_eq!(names(&pruned), vec!["chunk1"]);
}

#[test]
fn test_pruned_null() {
    // column1 > 100 where
    //   c1: [Null, 10] --> pruned
    //   c2: [0, Null] --> not pruned
    //   c3: [Null, Null] --> not pruned (no bound to judge by)
    //   c4: Null --> not pruned, and reported (no statistics at all)
    let mut observer = TestObserver::new();
    let c1 = TestPrunable::new("chunk1")
        .with_i64_column("column1", None, Some(10))
        .finish();
    let c2 = TestPrunable::new("chunk2")
        .with_i64_column("column1", Some(0), None)
        .finish();
    let c3 = TestPrunable::new("chunk3")
        .with_i64_column("column1", None, None)
        .finish();
    let c4 = TestPrunable::new("chunk4")
        .with_i64_column_no_stats("column1")
        .finish();

    let predicate = PredicateBuilder::new()
        .add_expr(col("column1").gt(ScalarValue::I64(100)))
        .build();

    let pruned = prune_chunks(&mut observer, vec![c1, c2, c3, c4], &predicate);

    assert_eq!(
        observer.events(),
        vec![
            "chunk1: Pruned",
            "chunk4: Could not prune chunk: No statistics for pruning column",
        ]
    );
    assert_eq!(names(&pruned), vec!["chunk2", "chunk3", "chunk4"]);
}

#[test]
fn test_pruned_multi_chunk() {
    // column1 > 100 where
    //   c1: [0, 10] --> pruned
    //   c2: [0, 1000] --> not pruned
    //   c3: [10, 20] --> pruned
    //   c4: [None, None] --> not pruned
    //   c5: [10, None] --> not pruned
    //   c6: [None, 10] --> pruned
    let mut observer = TestObserver::new();
    let c1 = TestPrunable::new("chunk1")
        .with_i64_column("column1", Some(0), Some(10))
        .finish();
    let c2 = TestPrunable::new("chunk2")
        .with_i64_column("column1", Some(0), Some(1000))
        .finish();
    let c3 = TestPrunable::new("chunk3")
        .with_i64_column("column1", Some(10), Some(20))
        .finish();
    let c4 = TestPrunable::new("chunk4")
        .with_i64_column("column1", None, None)
        .finish();
    let c5 = TestPrunable::new("chunk5")
        .with_i64_column("column1", Some(10), None)
        .finish();
    let c6 = TestPrunable::new("chunk6")
        .with_i64_column("column1", None, Some(10))
        .finish();

    let predicate = PredicateBuilder::new()
        .add_expr(col("column1").gt(ScalarValue::I64(100)))
        .build();

    let pruned = prune_chunks(&mut observer, vec![c1, c2, c3, c4, c5, c6], &predicate);

    assert_eq!(
        observer.events(),
        vec!["chunk1: Pruned", "chunk3: Pruned", "chunk6: Pruned"]
    );
    assert_eq!(names(&pruned), vec!["chunk2", "chunk4", "chunk5"]);
}

#[test]
fn test_pruned_different_schema() {
    // column1 > 100 where
    //   c1: column1 [0, 100], column2 [0, 4] --> pruned
    //   c2: column1 [0, 1000], column2 [0, 4] --> not pruned
    //   c3: None, column2 [0, 4] --> not pruned (no column1 at all)
    let mut observer = TestObserver::new();
    let c1 = TestPrunable::new("chunk1")
        .with_i64_column("column1", Some(0), Some(100))
        .with_i64_column("column2", Some(0), Some(4))
        .finish();
    let c2 = TestPrunable::new("chunk2")
        .with_i64_column("column1", Some(0), Some(1000))
        .with_i64_column("column2", Some(0), Some(4))
        .finish();
    let c3 = TestPrunable::new("chunk3")
        .with_i64_column("column2", Some(0), Some(4))
        .finish();

    let predicate = PredicateBuilder::new()
        .add_expr(col("column1").gt(ScalarValue::I64(100)))
        .build();

    let pruned = prune_chunks(&mut observer, vec![c1, c2, c3], &predicate);

    assert_eq!(
        observer.events(),
        vec![
            "chunk1: Pruned",
            "chunk3: Could not prune chunk: Can not evaluate pruning predicate"
        ]
    );
    assert_eq!(names(&pruned), vec!["chunk2", "chunk3"]);
}

#[test]
fn test_pruned_multi_column() {
    // column1 > 100 AND column2 < 5 where
    //   c1: column1 [0, 1000], column2 [0, 4] --> not pruned
    //   c2: column1 [0, 10], column2 [0, 4] --> pruned
    //   c3: column1 [0, 10], column2 [5, 10] --> pruned
    //   c4: column1 [1000, 2000], column2 [0, 4] --> not pruned
    //   c5: column1 [0, 10], column2 Null --> pruned by column1 alone
    //   c6: column1 Null, column2 [0, 4] --> not pruned, and reported
    let mut observer = TestObserver::new();
    let c1 = TestPrunable::new("chunk1")
        .with_i64_column("column1", Some(0), Some(1000))
        .with_i64_column("column2", Some(0), Some(4))
        .finish();
    let c2 = TestPrunable::new("chunk2")
        .with_i64_column("column1", Some(0), Some(10))
        .with_i64_column("column2", Some(0), Some(4))
        .finish();
    let c3 = TestPrunable::new("chunk3")
        .with_i64_column("column1", Some(0), Some(10))
        .with_i64_column("column2", Some(5), Some(10))
        .finish();
    let c4 = TestPrunable::new("chunk4")
        .with_i64_column("column1", Some(1000), Some(2000))
        .with_i64_column("column2", Some(0), Some(4))
        .finish();
    let c5 = TestPrunable::new("chunk5")
        .with_i64_column("column1", Some(0), Some(10))
        .with_i64_column_no_stats("column2")
        .finish();
    let c6 = TestPrunable::new("chunk6")
        .with_i64_column_no_stats("column1")
        .with_i64_column("column2", Some(0), Some(4))
        .finish();

    let predicate = PredicateBuilder::new()
        .add_expr(
            col("column1")
                .gt(ScalarValue::I64(100))
                .and(col("column2").lt(ScalarValue::I64(5))),
        )
        .build();

    let pruned = prune_chunks(&mut observer, vec![c1, c2, c3, c4, c5, c6], &predicate);

    assert_eq!(
        observer.events(),
        vec![
            "chunk2: Pruned",
            "chunk3: Pruned",
            "chunk5: Pruned",
            "chunk6: Could not prune chunk: No statistics for pruning column",
        ]
    );
    assert_eq!(names(&pruned), vec!["chunk1", "chunk4", "chunk6"]);
}

#[test]
fn test_pruned_incompatible_types() {
    // Ensure pruning doesn't error / works when some chunks
    // return stats of incompatible types

    // column1 < 100
    //   c1: column1 ["0", "9"] --> not pruned (types are different)
    //   c2: column1 ["1000", "2000"] --> not pruned (types are still different)
    //   c3: column1 [1000, 2000] --> pruned (types are correct)
    let mut observer = TestObserver::new();
    let c1 = TestPrunable::new("chunk1")
        .with_string_column("column1", Some("0"), Some("9"))
        .finish();
    let c2 = TestPrunable::new("chunk2")
        .with_string_column("column1", Some("1000"), Some("2000"))
        .finish();
    let c3 = TestPrunable::new("chunk3")
        .with_i64_column("column1", Some(1000), Some(2000))
        .finish();

    let predicate = PredicateBuilder::new()
        .add_expr(col("column1").lt(ScalarValue::I64(100)))
        .build();

    let pruned = prune_chunks(&mut observer, vec![c1, c2, c3], &predicate);

    assert_eq!(
        observer.events(),
        vec![
            "chunk1: Could not prune chunk: Can not create pruning predicate",
            "chunk2: Could not prune chunk: Can not create pruning predicate",
            "chunk3: Pruned",
        ]
    );
    assert_eq!(names(&pruned), vec!["chunk1", "chunk2"]);
}

#[test]
fn test_pruned_different_types() {
    // Ensure pruning works even when different chunks have
    // different types for the columns

    // column1 < 100
    //   c1: column1 [0i64, 1000i64]  --> not pruned (in range)
    //   c2: column1 [0u64, 1000u64] --> not pruned (note types are different)
    //   c3: column1 [1000i64, 2000i64] --> pruned (out of range)
    //   c4: column1 [1000u64, 2000u64] --> pruned (types are different)
    let mut observer = TestObserver::new();
    let c1 = TestPrunable::new("chunk1")
        .with_i64_column("column1", Some(0), Some(1000))
        .finish();
    let c2 = TestPrunable::new("chunk2")
        .with_u64_column("column1", Some(0), Some(1000))
        .finish();
    let c3 = TestPrunable::new("chunk3")
        .with_i64_column("column1", Some(1000), Some(2000))
        .finish();
    let c4 = TestPrunable::new("chunk4")
        .with_u64_column("column1", Some(1000), Some(2000))
        .finish();

    let predicate = PredicateBuilder::new()
        .add_expr(col("column1").lt(ScalarValue::I64(100)))
        .build();

    let pruned = prune_chunks(&mut observer, vec![c1, c2, c3, c4], &predicate);

    assert_eq!(observer.events(), vec!["chunk3: Pruned", "chunk4: Pruned"]);
    assert_eq!(names(&pruned), vec!["chunk1", "chunk2"]);
}

#[test]
fn prunes_only_the_chunk_below_the_bound() {
    // column1 > 100 with ranges [0, 10], [0, 1000] and no stats at all:
    // only the first chunk goes.
    let mut observer = TestObserver::new();
    let c1 = TestPrunable::new("chunk1")
        .with_i64_column("column1", Some(0), Some(10))
        .finish();
    let c2 = TestPrunable::new("chunk2")
        .with_i64_column("column1", Some(0), Some(1000))
        .finish();
    let c3 = TestPrunable::new("chunk3")
        .with_i64_column_no_stats("column1")
        .finish();

    let predicate = PredicateBuilder::new()
        .add_expr(col("column1").gt(ScalarValue::I64(100)))
        .build();

    let pruned = prune_chunks(&mut observer, vec![c1, c2, c3], &predicate);
    assert_eq!(names(&pruned), vec!["chunk2", "chunk3"]);
    assert_eq!(
        observer.events(),
        vec![
            "chunk1: Pruned",
            "chunk3: Could not prune chunk: No statistics for pruning column",
        ]
    );
}
