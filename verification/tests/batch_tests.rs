//! Hand-built batches: the rejection paths a producer can hit.

use mutable_buffer::builder::{
    build_table_batch, lines_to_sharded_entries, partitioner, sharder, Error as BuilderError,
    Partitioner, Sharder, TestPartitioner,
};
use mutable_buffer::chunk::{ChunkMetrics, Error, MBChunk};
use mutable_buffer::column::Error as ColumnError;
use mutable_buffer::entry::{
    Column, ColumnValues, FieldValue, Line, Sequence, ShardId,
};
use mutable_buffer::schema::{InfluxColumnType, InfluxFieldType, Selection};

fn line(measurement: &str, fields: Vec<(&str, FieldValue)>, ts: Option<i64>) -> Line {
    Line {
        measurement: measurement.to_string(),
        tag_set: Vec::new(),
        field_set: fields
            .into_iter()
            .map(|(k, v)| (k.to_string(), v))
            .collect(),
        timestamp: ts,
    }
}

#[test]
fn bad_null_mask_is_rejected_before_any_write() {
    let mut chunk = MBChunk::new("cpu", ChunkMetrics::new_unregistered());

    // Nine rows need two mask bytes; one byte is a malformed mask.
    let bad = Column::new(
        "val".to_string(),
        InfluxColumnType::Field(InfluxFieldType::Integer),
        9,
        Some(vec![0x00]),
        ColumnValues::I64(vec![1, 2, 3, 4, 5, 6, 7, 8]),
    );
    let seq = Some(Sequence::new(1, 5));
    let response = chunk.write_columns(seq.as_ref(), &vec![bad]).err().unwrap();
    assert!(matches!(
        &response,
        Error::ColumnError {
            column,
            source: ColumnError::InvalidNullMask {
                expected_bytes: 2,
                actual_bytes: 1
            }
        } if column == "val"
    ));
    assert_eq!(chunk.rows(), 0);
}

#[test]
fn ragged_batches_are_rejected_whole() {
    let mut chunk = MBChunk::new("cpu", ChunkMetrics::new_unregistered());

    let a = Column::new(
        "a".to_string(),
        InfluxColumnType::Field(InfluxFieldType::Integer),
        2,
        None,
        ColumnValues::I64(vec![1, 2]),
    );
    let b = Column::new(
        "b".to_string(),
        InfluxColumnType::Field(InfluxFieldType::Integer),
        3,
        None,
        ColumnValues::I64(vec![1, 2, 3]),
    );
    let seq = Some(Sequence::new(1, 5));
    let response = chunk
        .write_columns(seq.as_ref(), &vec![a, b])
        .err()
        .unwrap();
    assert!(matches!(
        &response,
        Error::IncorrectRowCount {
            column,
            expected: 2,
            actual: 3
        } if column == "b"
    ));
    assert_eq!(chunk.rows(), 0);
}

#[test]
fn value_count_must_match_declared_rows() {
    // Two declared rows but three values: the write is rejected before
    // anything lands, naming the non-null slots owed and the values
    // handed in.
    let mut chunk = MBChunk::new("cpu", ChunkMetrics::new_unregistered());
    let a = Column::new(
        "a".to_string(),
        InfluxColumnType::Field(InfluxFieldType::Integer),
        2,
        None,
        ColumnValues::I64(vec![1, 2, 3]),
    );
    let seq = Some(Sequence::new(1, 5));
    let response = chunk.write_columns(seq.as_ref(), &vec![a]).err().unwrap();
    assert!(matches!(
        &response,
        Error::IncorrectRowCount {
            column,
            expected: 2,
            actual: 3
        } if column == "a"
    ));
    assert_eq!(chunk.rows(), 0);

    // One of the two rows masked null (most significant bit first): a
    // single value is what fits.
    let b = Column::new(
        "b".to_string(),
        InfluxColumnType::Field(InfluxFieldType::Integer),
        2,
        Some(vec![0b1000_0000]),
        ColumnValues::I64(vec![1, 2]),
    );
    let response = chunk.write_columns(seq.as_ref(), &vec![b]).err().unwrap();
    assert!(matches!(
        &response,
        Error::IncorrectRowCount {
            column,
            expected: 1,
            actual: 2
        } if column == "b"
    ));
    assert_eq!(chunk.rows(), 0);
}

#[test]
fn selecting_a_missing_column_reports_it() {
    let mut chunk = MBChunk::new("cpu", ChunkMetrics::new_unregistered());
    let a = Column::new(
        "a".to_string(),
        InfluxColumnType::Field(InfluxFieldType::Integer),
        1,
        None,
        ColumnValues::I64(vec![7]),
    );
    let seq = Some(Sequence::new(1, 5));
    chunk.write_columns(seq.as_ref(), &vec![a]).unwrap();

    let selection = Selection::Columns(vec!["nope".to_string()]);
    let response = chunk.schema(&selection).err().unwrap();
    assert!(matches!(
        &response,
        Error::ColumnNotFound { column } if column == "nope"
    ));
}

#[test]
fn batch_columns_come_out_sorted_with_time() {
    let lines = vec![line(
        "cpu",
        vec![
            ("zz", FieldValue::I64(1)),
            ("aa", FieldValue::Boolean(true)),
        ],
        Some(5),
    )];
    let batch = build_table_batch("cpu", &lines, 0).unwrap();
    let names: Vec<&str> = batch.columns().iter().map(|c| c.name()).collect();
    assert_eq!(names, vec!["aa", "time", "zz"]);
    assert_eq!(batch.row_count(), 1);
}

struct FailingSharder;

impl Sharder for FailingSharder {
    fn shard(&mut self, _line: &Line) -> Result<ShardId, String> {
        Err("no shard for this line".to_string())
    }
}

struct FailingPartitioner;

impl Partitioner for FailingPartitioner {
    fn partition_key(&mut self, _line: &Line, _default_time: i64) -> Result<String, String> {
        Err("no key for this line".to_string())
    }
}

#[test]
fn sharder_errors_surface() {
    let lines = vec![line("cpu", vec![("v", FieldValue::I64(1))], Some(1))];
    let mut sh = Some(FailingSharder);
    let mut pt = partitioner(1);
    let r = lines_to_sharded_entries(&lines, &mut sh, &mut pt);
    assert!(matches!(
        r.err().unwrap(),
        BuilderError::GeneratingShardId { .. }
    ));
}

#[test]
fn partitioner_errors_surface() {
    let lines = vec![line("cpu", vec![("v", FieldValue::I64(1))], Some(1))];
    let mut sh = sharder(1);
    let mut pt = FailingPartitioner;
    let r = lines_to_sharded_entries(&lines, &mut sh, &mut pt);
    assert!(matches!(
        r.err().unwrap(),
        BuilderError::GeneratingPartitionKey { .. }
    ));
}

#[test]
fn type_conflicts_name_both_types() {
    let lines = vec![
        line("a", vec![("val", FieldValue::I64(1))], Some(1)),
        line("a", vec![("val", FieldValue::F64(2.1f64.to_bits()))], Some(2)),
    ];
    let mut sh = sharder(1);
    let mut pt = partitioner(1);
    let err = lines_to_sharded_entries(&lines, &mut sh, &mut pt)
        .err()
        .unwrap();
    match err {
        BuilderError::TableColumnTypeMismatch {
            table,
            column,
            line_number,
            source,
        } => {
            assert_eq!(table, "a");
            assert_eq!(column, "val");
            assert_eq!(line_number, 1);
            let mutable_buffer::builder::ColumnError::ColumnTypeMismatch {
                new_type,
                expected_type,
            } = source;
            assert_eq!(new_type, "f64");
            assert_eq!(expected_type, "i64");
        }
        other => panic!("unexpected error: {:?}", other),
    }
}

#[test]
fn hour_partitioner_splits_hours() {
    let lines = vec![
        line("cpu", vec![("v", FieldValue::I64(1))], Some(1)),
        line(
            "cpu",
            vec![("v", FieldValue::I64(2))],
            Some(7_200_000_000_000),
        ),
    ];
    let mut sh = sharder(1);
    let mut pt = mutable_buffer::builder::hour_partitioner();
    let entries = lines_to_sharded_entries(&lines, &mut sh, &mut pt).unwrap();
    let writes = entries[0].entry.partition_writes().unwrap();
    assert_eq!(writes.len(), 2);
    assert_eq!(writes[0].key(), "1970-01-01T00");
    assert_eq!(writes[1].key(), "1970-01-01T02");
}

#[test]
fn test_partitioner_rotates_keys() {
    let mut pt: TestPartitioner = partitioner(2);
    let l = line("cpu", vec![("v", FieldValue::I64(1))], Some(1));
    assert_eq!(pt.partition_key(&l, 0).unwrap(), "key_0");
    assert_eq!(pt.partition_key(&l, 0).unwrap(), "key_1");
    assert_eq!(pt.partition_key(&l, 0).unwrap(), "key_0");
}
