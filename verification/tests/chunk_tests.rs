//! Writing batches into chunks and reading them back.

use influxdb_line_protocol::{parse_lines, FieldValue as LpFieldValue};
use mutable_buffer::arrays::{ArrayData, RecordBatch};
use mutable_buffer::builder::{hour_partitioner, lines_to_sharded_entries, sharder};
use mutable_buffer::chunk::{ChunkMetrics, Error, MBChunk};
use mutable_buffer::column::Error as ColumnError;
use mutable_buffer::entry::{FieldValue, Line, Sequence, TableBatch};
use mutable_buffer::schema::{InfluxColumnType, InfluxFieldType, Schema, Selection};
use mutable_buffer::stats::{ColumnSummary, InfluxDbType, StatValues, Statistics, TableSummary};

/// Parses line protocol into the library's line values.
fn lp_to_lines(lp: &str) -> Vec<Line> {
    parse_lines(lp)
        .map(|l| {
            let l = l.unwrap();
            let tag_set = match &l.series.tag_set {
                Some(tags) => tags
                    .iter()
                    .map(|(k, v)| (k.to_string(), v.to_string()))
                    .collect(),
                None => Vec::new(),
            };
            let field_set = l
                .field_set
                .iter()
                .map(|(k, v)| {
                    let value = match v {
                        LpFieldValue::I64(x) => FieldValue::I64(*x),
                        LpFieldValue::U64(x) => FieldValue::U64(*x),
                        LpFieldValue::F64(x) => FieldValue::F64(x.to_bits()),
                        LpFieldValue::String(s) => FieldValue::Str(s.to_string()),
                        LpFieldValue::Boolean(b) => FieldValue::Boolean(*b),
                    };
                    (k.to_string(), value)
                })
                .collect();
            Line {
                measurement: l.series.measurement.to_string(),
                tag_set,
                field_set,
                timestamp: l.timestamp,
            }
        })
        .collect()
}

/// The table batches the line protocol produces, across all partitions.
fn lp_to_batches(lp: &str) -> Vec<TableBatch> {
    let lines = lp_to_lines(lp);
    let mut sh = sharder(1);
    let mut pt = hour_partitioner();
    let entries = lines_to_sharded_entries(&lines, &mut sh, &mut pt).unwrap();
    let mut batches = Vec::new();
    for e in entries {
        for w in e.entry.into_partition_writes() {
            for b in w.into_table_batches() {
                batches.push(b);
            }
        }
    }
    batches
}

/// Writes line protocol into the chunk, one table batch at a time.
fn write_lp_to_chunk(lp: &str, chunk: &mut MBChunk) -> Result<(), Error> {
    for batch in lp_to_batches(lp) {
        assert_eq!(batch.name(), chunk.table_name());
        let seq = Some(Sequence::new(1, 5));
        chunk.write_table_batch(seq.as_ref(), batch)?;
    }
    Ok(())
}

fn chunk_to_batches(chunk: &MBChunk) -> Vec<RecordBatch> {
    vec![chunk.to_arrow(&Selection::All).unwrap()]
}

/// The named column of a batch.
fn batch_column<'a>(batch: &'a RecordBatch, name: &str) -> &'a ArrayData {
    let i = (0..batch.schema.len())
        .find(|i| batch.schema.field(*i).0 == name)
        .unwrap();
    &batch.columns[i]
}

fn tag_strings(a: &ArrayData) -> Vec<Option<String>> {
    match a {
        ArrayData::Tag { keys, dict, valid } => keys
            .iter()
            .zip(valid.iter())
            .map(|(k, v)| {
                if *v {
                    Some(dict[*k as usize].clone())
                } else {
                    None
                }
            })
            .collect(),
        _ => panic!("not a tag column"),
    }
}

fn f64_values(a: &ArrayData) -> Vec<Option<f64>> {
    match a {
        ArrayData::F64 { values, valid } => values
            .iter()
            .zip(valid.iter())
            .map(|(x, v)| if *v { Some(f64::from_bits(*x)) } else { None })
            .collect(),
        _ => panic!("not a float column"),
    }
}

fn i64_values(a: &ArrayData) -> Vec<Option<i64>> {
    match a {
        ArrayData::I64 { values, valid } => values
            .iter()
            .zip(valid.iter())
            .map(|(x, v)| if *v { Some(*x) } else { None })
            .collect(),
        _ => panic!("not a signed column"),
    }
}

fn string_values(a: &ArrayData) -> Vec<Option<String>> {
    match a {
        ArrayData::Str { values, valid } => values
            .iter()
            .zip(valid.iter())
            .map(|(x, v)| if *v { Some(x.clone()) } else { None })
            .collect(),
        _ => panic!("not a string column"),
    }
}

#[test]
fn writes_table_batches() {
    let mut chunk = MBChunk::new("cpu", ChunkMetrics::new_unregistered());

    let lp = vec!["cpu,host=a val=23 1", "cpu,host=b val=2 1"].join("\n");

    write_lp_to_chunk(&lp, &mut chunk).unwrap();

    let batches = chunk_to_batches(&chunk);
    let batch = &batches[0];
    assert_eq!(batch.num_rows(), 2);
    assert_eq!(
        tag_strings(batch_column(batch, "host")),
        vec![Some("a".to_string()), Some("b".to_string())]
    );
    assert_eq!(
        i64_values(batch_column(batch, "time")),
        vec![Some(1), Some(1)]
    );
    assert_eq!(
        f64_values(batch_column(batch, "val")),
        vec![Some(23.0), Some(2.0)]
    );
}

#[test]
fn writes_table_3_batches() {
    let mut chunk = MBChunk::new("cpu", ChunkMetrics::new_unregistered());

    let lp = vec!["cpu,host=a val=23 1", "cpu,host=b val=2 1"].join("\n");
    write_lp_to_chunk(&lp, &mut chunk).unwrap();

    let lp = vec!["cpu,host=c val=11 1"].join("\n");
    write_lp_to_chunk(&lp, &mut chunk).unwrap();

    let lp = vec!["cpu,host=a val=14 2"].join("\n");
    write_lp_to_chunk(&lp, &mut chunk).unwrap();

    let batches = chunk_to_batches(&chunk);
    let batch = &batches[0];
    assert_eq!(batch.num_rows(), 4);
    assert_eq!(
        tag_strings(batch_column(batch, "host")),
        vec![
            Some("a".to_string()),
            Some("b".to_string()),
            Some("c".to_string()),
            Some("a".to_string())
        ]
    );
    assert_eq!(
        i64_values(batch_column(batch, "time")),
        vec![Some(1), Some(1), Some(1), Some(2)]
    );
    assert_eq!(
        f64_values(batch_column(batch, "val")),
        vec![Some(23.0), Some(2.0), Some(11.0), Some(14.0)]
    );
}

#[test]
fn test_summary() {
    let mut chunk = MBChunk::new("cpu", ChunkMetrics::new_unregistered());
    let lp = r#"
        cpu,host=a val=23 1
        cpu,host=b,env=prod val=2 1
        cpu,host=c,env=stage val=11 1
        cpu,host=a,env=prod val=14 2
    "#;
    write_lp_to_chunk(lp, &mut chunk).unwrap();

    let summary = chunk.table_summary();
    assert_eq!(
        summary,
        TableSummary {
            name: "cpu".to_string(),
            columns: vec![
                ColumnSummary {
                    name: "env".to_string(),
                    influxdb_type: Some(InfluxDbType::Tag),
                    stats: Statistics::Str(StatValues {
                        min: Some("prod".to_string()),
                        max: Some("stage".to_string()),
                        count: 3,
                        distinct_count: Some(3)
                    })
                },
                ColumnSummary {
                    name: "host".to_string(),
                    influxdb_type: Some(InfluxDbType::Tag),
                    stats: Statistics::Str(StatValues {
                        min: Some("a".to_string()),
                        max: Some("c".to_string()),
                        count: 4,
                        distinct_count: Some(3)
                    })
                },
                ColumnSummary {
                    name: "time".to_string(),
                    influxdb_type: Some(InfluxDbType::Timestamp),
                    stats: Statistics::I64(StatValues {
                        min: Some(1),
                        max: Some(2),
                        count: 4,
                        distinct_count: None
                    })
                },
                ColumnSummary {
                    name: "val".to_string(),
                    influxdb_type: Some(InfluxDbType::Field),
                    stats: Statistics::F64(StatValues {
                        min: Some(2.0f64.to_bits()),
                        max: Some(23.0f64.to_bits()),
                        count: 4,
                        distinct_count: None
                    })
                },
            ]
        }
    )
}

#[test]
fn test_snapshot() {
    let mut chunk = MBChunk::new("cpu", ChunkMetrics::new_unregistered());

    let lp = vec!["cpu,host=a val=23 1", "cpu,host=b val=2 1"].join("\n");

    write_lp_to_chunk(&lp, &mut chunk).unwrap();
    let s1 = chunk.snapshot();
    let s2 = chunk.snapshot();

    write_lp_to_chunk(&lp, &mut chunk).unwrap();
    let s3 = chunk.snapshot();
    let s4 = chunk.snapshot();

    assert_eq!(std::sync::Arc::as_ptr(&s1), std::sync::Arc::as_ptr(&s2));
    assert_ne!(std::sync::Arc::as_ptr(&s1), std::sync::Arc::as_ptr(&s3));
    assert_eq!(std::sync::Arc::as_ptr(&s3), std::sync::Arc::as_ptr(&s4));
}

///  Writes the line protocol lines into the table's chunk.
fn write_lines_to_table(table: &mut MBChunk, lp_lines: Vec<&str>) {
    let lp_data = lp_lines.join("\n");
    for batch in lp_to_batches(&lp_data) {
        table
            .write_columns(Some(&Sequence::new(1, 5)), batch.columns())
            .unwrap();
    }
}

#[test]
fn table_size() {
    let mut table = MBChunk::new("table_name", ChunkMetrics::new_unregistered());

    let lp_lines = vec![
        "h2o,state=MA,city=Boston temp=70.4 100",
        "h2o,state=MA,city=Boston temp=72.4 250",
    ];

    write_lines_to_table(&mut table, lp_lines.clone());
    let s1 = table.size();

    write_lines_to_table(&mut table, lp_lines.clone());
    let s2 = table.size();

    write_lines_to_table(&mut table, lp_lines);
    let s3 = table.size();

    // Should increase by a constant amount each time
    assert_eq!(s2 - s1, s3 - s2);
}

#[test]
fn test_to_arrow_schema_all() {
    let mut table = MBChunk::new("table_name", ChunkMetrics::new_unregistered());

    let lp_lines = vec![
        "h2o,state=MA,city=Boston float_field=70.4,int_field=8i,uint_field=42u,bool_field=t,string_field=\"foo\" 100",
    ];

    write_lines_to_table(&mut table, lp_lines);

    let selection = Selection::All;
    let actual_schema = table.schema(&selection).unwrap();
    let expected_schema = Schema {
        fields: vec![
            (
                "bool_field".to_string(),
                InfluxColumnType::Field(InfluxFieldType::Boolean),
            ),
            ("city".to_string(), InfluxColumnType::Tag),
            (
                "float_field".to_string(),
                InfluxColumnType::Field(InfluxFieldType::Float),
            ),
            (
                "int_field".to_string(),
                InfluxColumnType::Field(InfluxFieldType::Integer),
            ),
            ("state".to_string(), InfluxColumnType::Tag),
            (
                "string_field".to_string(),
                InfluxColumnType::Field(InfluxFieldType::Str),
            ),
            ("time".to_string(), InfluxColumnType::Timestamp),
            (
                "uint_field".to_string(),
                InfluxColumnType::Field(InfluxFieldType::UInteger),
            ),
        ],
    };

    assert_eq!(
        expected_schema, actual_schema,
        "Expected:\n{:#?}\nActual:\n{:#?}\n",
        expected_schema, actual_schema
    );
}

#[test]
fn test_to_arrow_schema_subset() {
    let mut table = MBChunk::new("table_name", ChunkMetrics::new_unregistered());

    let lp_lines = vec!["h2o,state=MA,city=Boston float_field=70.4 100"];

    write_lines_to_table(&mut table, lp_lines);

    let selection = Selection::Columns(vec!["float_field".to_string()]);
    let actual_schema = table.schema(&selection).unwrap();
    let expected_schema = Schema {
        fields: vec![(
            "float_field".to_string(),
            InfluxColumnType::Field(InfluxFieldType::Float),
        )],
    };

    assert_eq!(
        expected_schema, actual_schema,
        "Expected:\n{:#?}\nActual:\n{:#?}\n",
        expected_schema, actual_schema
    );
}

#[test]
fn write_columns_validates_schema() {
    let mut table = MBChunk::new("foo", ChunkMetrics::new_unregistered());
    let sequence = Some(Sequence::new(1, 5));

    let lp = "foo,t1=asdf iv=1i,uv=1u,fv=1.0,bv=true,sv=\"hi\" 1";
    let batches = lp_to_batches(lp);
    table
        .write_columns(sequence.as_ref(), batches.first().unwrap().columns())
        .unwrap();

    let lp = "foo t1=\"string\" 1";
    let batches = lp_to_batches(lp);
    let response = table
        .write_columns(sequence.as_ref(), batches.first().unwrap().columns())
        .err()
        .unwrap();
    assert!(
        matches!(
            &response,
            Error::ColumnError {
                column,
                source: ColumnError::TypeMismatch {
                    existing: InfluxColumnType::Tag,
                    inserted: InfluxColumnType::Field(InfluxFieldType::Str)
                }
            } if column == "t1"
        ),
        "didn't match returned error: {:?}",
        response
    );

    let lp = "foo iv=1u 1";
    let batches = lp_to_batches(lp);
    let response = table
        .write_columns(sequence.as_ref(), batches.first().unwrap().columns())
        .err()
        .unwrap();
    assert!(
        matches!(
            &response,
            Error::ColumnError {
                column,
                source: ColumnError::TypeMismatch {
                    inserted: InfluxColumnType::Field(InfluxFieldType::UInteger),
                    existing: InfluxColumnType::Field(InfluxFieldType::Integer)
                }
            } if column == "iv"
        ),
        "didn't match returned error: {:?}",
        response
    );

    let lp = "foo fv=1i 1";
    let batches = lp_to_batches(lp);
    let response = table
        .write_columns(sequence.as_ref(), batches.first().unwrap().columns())
        .err()
        .unwrap();
    assert!(
        matches!(
            &response,
            Error::ColumnError {
                column,
                source: ColumnError::TypeMismatch {
                    existing: InfluxColumnType::Field(InfluxFieldType::Float),
                    inserted: InfluxColumnType::Field(InfluxFieldType::Integer)
                }
            } if column == "fv"
        ),
        "didn't match returned error: {:?}",
        response
    );

    let lp = "foo bv=1 1";
    let batches = lp_to_batches(lp);
    let response = table
        .write_columns(sequence.as_ref(), batches.first().unwrap().columns())
        .err()
        .unwrap();
    assert!(
        matches!(
            &response,
            Error::ColumnError {
                column,
                source: ColumnError::TypeMismatch {
                    existing: InfluxColumnType::Field(InfluxFieldType::Boolean),
                    inserted: InfluxColumnType::Field(InfluxFieldType::Float)
                }
            } if column == "bv"
        ),
        "didn't match returned error: {:?}",
        response
    );

    let lp = "foo sv=true 1";
    let batches = lp_to_batches(lp);
    let response = table
        .write_columns(sequence.as_ref(), batches.first().unwrap().columns())
        .err()
        .unwrap();
    assert!(
        matches!(
            &response,
            Error::ColumnError {
                column,
                source: ColumnError::TypeMismatch {
                    existing: InfluxColumnType::Field(InfluxFieldType::Str),
                    inserted: InfluxColumnType::Field(InfluxFieldType::Boolean),
                }
            } if column == "sv"
        ),
        "didn't match returned error: {:?}",
        response
    );

    let lp = "foo,sv=\"bar\" f=3i 1";
    let batches = lp_to_batches(lp);
    let response = table
        .write_columns(sequence.as_ref(), batches.first().unwrap().columns())
        .err()
        .unwrap();
    assert!(
        matches!(
            &response,
            Error::ColumnError {
                column,
                source: ColumnError::TypeMismatch {
                    existing: InfluxColumnType::Field(InfluxFieldType::Str),
                    inserted: InfluxColumnType::Tag,
                }
            } if column == "sv"
        ),
        "didn't match returned error: {:?}",
        response
    );
}

#[test]
fn new_field_backfills_nulls() {
    let mut chunk = MBChunk::new("cpu", ChunkMetrics::new_unregistered());

    let lp = vec!["cpu,host=a val=23 1", "cpu,host=b val=2 1"].join("\n");
    write_lp_to_chunk(&lp, &mut chunk).unwrap();

    let lp = "cpu,host=c val=3,string_field=\"foo\" 2";
    write_lp_to_chunk(lp, &mut chunk).unwrap();

    let batches = chunk_to_batches(&chunk);
    let batch = &batches[0];
    let col = batch_column(batch, "string_field");
    assert_eq!(col.len(), 3);
    assert_eq!(
        string_values(col),
        vec![None, None, Some("foo".to_string())]
    );
}

#[test]
fn uint_column_rejects_int_without_mutation() {
    let mut chunk = MBChunk::new("foo", ChunkMetrics::new_unregistered());
    let seq = Some(Sequence::new(1, 5));

    let batches = lp_to_batches("foo uv=1u 1");
    chunk
        .write_columns(seq.as_ref(), batches.first().unwrap().columns())
        .unwrap();
    let rows_before = chunk.rows();
    let summary_before = chunk.table_summary();

    let batches = lp_to_batches("foo uv=1i 2");
    let response = chunk
        .write_columns(seq.as_ref(), batches.first().unwrap().columns())
        .err()
        .unwrap();
    assert!(matches!(
        &response,
        Error::ColumnError {
            column,
            source: ColumnError::TypeMismatch {
                existing: InfluxColumnType::Field(InfluxFieldType::UInteger),
                inserted: InfluxColumnType::Field(InfluxFieldType::Integer)
            }
        } if column == "uv"
    ));
    assert_eq!(chunk.rows(), rows_before);
    assert_eq!(chunk.table_summary(), summary_before);
}

#[test]
fn repeated_batch_interns_no_new_symbols() {
    // The same tag values arriving again reuse the dictionary: the
    // symbol count stays at the number of distinct strings ever seen.
    let lp = "cpu,host=a,env=prod val=1 1\ncpu,host=b,env=prod val=2 2";
    let mut chunk = MBChunk::new("cpu", ChunkMetrics::new_unregistered());
    write_lp_to_chunk(lp, &mut chunk).unwrap();
    let host = chunk.column("host").unwrap();
    assert_eq!(host.dict_len(), 2);
    let env = chunk.column("env").unwrap();
    assert_eq!(env.dict_len(), 1);

    write_lp_to_chunk(lp, &mut chunk).unwrap();
    let host = chunk.column("host").unwrap();
    assert_eq!(host.dict_len(), 2);
    let env = chunk.column("env").unwrap();
    assert_eq!(env.dict_len(), 1);
    assert_eq!(chunk.rows(), 4);
}
