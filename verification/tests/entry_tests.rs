//! Building entries from parsed lines.

use influxdb_line_protocol::{parse_lines, FieldValue as LpFieldValue};
use mutable_buffer::builder::{
    hour_partitioner, lines_to_sharded_entries, partitioner, sharder, TestSharder,
};
use mutable_buffer::entry::{FieldValue, Line, LogicalColumnType, SequencedEntry};
use mutable_buffer::ClockValue;

/// Parses line protocol into the library's line values.
fn lp_to_lines(lp: &str) -> Vec<Line> {
    parse_lines(lp)
        .map(|l| {
            let l = l.unwrap();
            let tag_set = match &l.series.tag_set {
                Some(tags) => tags
                    .iter()
                    .map(|(k, v)| (k.to_string(), v.to_string()))
                    .collect(),
                None => Vec::new(),
            };
            let field_set = l
                .field_set
                .iter()
                .map(|(k, v)| {
                    let value = match v {
                        LpFieldValue::I64(x) => FieldValue::I64(*x),
                        LpFieldValue::U64(x) => FieldValue::U64(*x),
                        LpFieldValue::F64(x) => FieldValue::F64(x.to_bits()),
                        LpFieldValue::String(s) => FieldValue::Str(s.to_string()),
                        LpFieldValue::Boolean(b) => FieldValue::Boolean(*b),
                    };
                    (k.to_string(), value)
                })
                .collect();
            Line {
                measurement: l.series.measurement.to_string(),
                tag_set,
                field_set,
                timestamp: l.timestamp,
            }
        })
        .collect()
}

#[test]
fn shards_lines() {
    let lp = vec![
        "cpu,host=a,region=west user=23.1,system=66.1 123",
        "mem,host=a,region=west used=23432 123",
        "foo bar=true 21",
    ]
    .join("\n");
    let lines = lp_to_lines(&lp);

    let mut sh = sharder(2);
    let mut pt = partitioner(1);
    let sharded_entries = lines_to_sharded_entries(&lines, &mut sh, &mut pt).unwrap();

    assert_eq!(sharded_entries.len(), 2);
    assert_eq!(sharded_entries[0].shard_id, Some(0));
    assert_eq!(sharded_entries[1].shard_id, Some(1));
}

#[test]
fn no_shard_config() {
    let lp = vec![
        "cpu,host=a,region=west user=23.1,system=66.1 123",
        "mem,host=a,region=west used=23432 123",
        "foo bar=true 21",
    ]
    .join("\n");
    let lines = lp_to_lines(&lp);

    let mut sh: Option<TestSharder> = None;
    let mut pt = partitioner(1);
    let sharded_entries = lines_to_sharded_entries(&lines, &mut sh, &mut pt).unwrap();

    assert_eq!(sharded_entries.len(), 1);
    assert_eq!(sharded_entries[0].shard_id, None);
}

#[test]
fn multiple_partitions() {
    let lp = vec![
        "cpu,host=a,region=west user=23.1,system=66.1 123",
        "mem,host=a,region=west used=23432 123",
        "asdf foo=\"bar\" 9999",
    ]
    .join("\n");
    let lines = lp_to_lines(&lp);

    let mut sh = sharder(1);
    let mut pt = partitioner(2);
    let sharded_entries = lines_to_sharded_entries(&lines, &mut sh, &mut pt).unwrap();

    let partition_writes = sharded_entries[0].entry.partition_writes().unwrap();
    assert_eq!(partition_writes.len(), 2);
    assert_eq!(partition_writes[0].key(), "key_0");
    assert_eq!(partition_writes[1].key(), "key_1");
}

#[test]
fn multiple_tables() {
    let lp = vec![
        "cpu val=1 55",
        "mem val=23 10",
        "cpu val=88 100",
        "disk foo=23.2 110",
        "mem val=55 111",
    ]
    .join("\n");
    let lines = lp_to_lines(&lp);

    let mut sh = sharder(1);
    let mut pt = partitioner(1);
    let sharded_entries = lines_to_sharded_entries(&lines, &mut sh, &mut pt).unwrap();

    let partition_writes = sharded_entries[0].entry.partition_writes().unwrap();
    let table_batches = partition_writes[0].table_batches();

    assert_eq!(table_batches.len(), 3);
    assert_eq!(table_batches[0].name(), "cpu");
    assert_eq!(table_batches[1].name(), "disk");
    assert_eq!(table_batches[2].name(), "mem");
}

#[test]
fn logical_column_types() {
    let lp = vec!["a,host=a val=23 983", "a,host=a,region=west val2=23.2 2343"].join("\n");
    let lines = lp_to_lines(&lp);

    let mut sh = sharder(1);
    let mut pt = partitioner(1);
    let sharded_entries = lines_to_sharded_entries(&lines, &mut sh, &mut pt).unwrap();

    let partition_writes = sharded_entries[0].entry.partition_writes().unwrap();
    let table_batches = partition_writes[0].table_batches();
    let batch = &table_batches[0];

    let columns = batch.columns();

    assert_eq!(columns.len(), 5);

    assert_eq!(columns[0].name(), "host");
    assert_eq!(columns[0].logical_type(), LogicalColumnType::Tag);

    assert_eq!(columns[1].name(), "region");
    assert_eq!(columns[1].logical_type(), LogicalColumnType::Tag);

    assert_eq!(columns[2].name(), "time");
    assert_eq!(columns[2].logical_type(), LogicalColumnType::Time);

    assert_eq!(columns[3].name(), "val");
    assert_eq!(columns[3].logical_type(), LogicalColumnType::Field);

    assert_eq!(columns[4].name(), "val2");
    assert_eq!(columns[4].logical_type(), LogicalColumnType::Field);
}

fn f64s(v: Vec<Option<u64>>) -> Vec<Option<f64>> {
    v.into_iter().map(|o| o.map(f64::from_bits)).collect()
}

#[test]
fn columns_without_nulls() {
    let lp = vec![
        "a,host=a ival=23i,fval=1.2,uval=7u,sval=\"hi\",bval=true 1",
        "a,host=b ival=22i,fval=2.2,uval=1u,sval=\"world\",bval=false 2",
    ]
    .join("\n");
    let lines = lp_to_lines(&lp);

    let mut sh = sharder(1);
    let mut pt = partitioner(1);
    let sharded_entries = lines_to_sharded_entries(&lines, &mut sh, &mut pt).unwrap();

    let partition_writes = sharded_entries
        .first()
        .unwrap()
        .entry
        .partition_writes()
        .unwrap();
    let table_batches = partition_writes.first().unwrap().table_batches();
    let batch = table_batches.first().unwrap();

    let columns = batch.columns();

    assert_eq!(batch.row_count(), 2);
    assert_eq!(columns.len(), 7);

    let col = columns.get(0).unwrap();
    assert_eq!(col.name(), "bval");
    let values = col.bool_values().unwrap();
    assert_eq!(&values, &[Some(true), Some(false)]);

    let col = columns.get(1).unwrap();
    assert_eq!(col.name(), "fval");
    let values = f64s(col.f64_values().unwrap());
    assert_eq!(&values, &[Some(1.2), Some(2.2)]);

    let col = columns.get(2).unwrap();
    assert_eq!(col.name(), "host");
    let values = col.string_values().unwrap();
    assert_eq!(&values, &[Some("a".to_string()), Some("b".to_string())]);

    let col = columns.get(3).unwrap();
    assert_eq!(col.name(), "ival");
    let values = col.i64_values().unwrap();
    assert_eq!(&values, &[Some(23), Some(22)]);

    let col = columns.get(4).unwrap();
    assert_eq!(col.name(), "sval");
    let values = col.string_values().unwrap();
    assert_eq!(&values, &[Some("hi".to_string()), Some("world".to_string())]);

    let col = columns.get(5).unwrap();
    assert_eq!(col.name(), "time");
    let values = col.i64_values().unwrap();
    assert_eq!(&values, &[Some(1), Some(2)]);

    let col = columns.get(6).unwrap();
    assert_eq!(col.name(), "uval");
    let values = col.u64_values().unwrap();
    assert_eq!(&values, &[Some(7), Some(1)]);
}

#[test]
fn columns_with_nulls() {
    let lp = vec![
        "a,host=a val=23i 983",
        "a,host=a,region=west val2=23.2 2343",
        "a val=21i,bool=true,string=\"hello\" 222",
    ]
    .join("\n");
    let lines = lp_to_lines(&lp);

    let mut sh = sharder(1);
    let mut pt = partitioner(1);
    let sharded_entries = lines_to_sharded_entries(&lines, &mut sh, &mut pt).unwrap();

    let partition_writes = sharded_entries
        .first()
        .unwrap()
        .entry
        .partition_writes()
        .unwrap();
    let table_batches = partition_writes.first().unwrap().table_batches();
    let batch = table_batches.first().unwrap();

    let columns = batch.columns();

    assert_eq!(batch.row_count(), 3);
    assert_eq!(columns.len(), 7);

    let col = columns.get(0).unwrap();
    assert_eq!(col.name(), "bool");
    assert_eq!(col.logical_type(), LogicalColumnType::Field);
    let values = col.bool_values().unwrap();
    assert_eq!(&values, &[None, None, Some(true)]);

    let col = columns.get(1).unwrap();
    assert_eq!(col.name(), "host");
    assert_eq!(col.logical_type(), LogicalColumnType::Tag);
    let values = col.string_values().unwrap();
    assert_eq!(&values, &[Some("a".to_string()), Some("a".to_string()), None]);

    let col = columns.get(2).unwrap();
    assert_eq!(col.name(), "region");
    assert_eq!(col.logical_type(), LogicalColumnType::Tag);
    let values = col.string_values().unwrap();
    assert_eq!(&values, &[None, Some("west".to_string()), None]);

    let col = columns.get(3).unwrap();
    assert_eq!(col.name(), "string");
    assert_eq!(col.logical_type(), LogicalColumnType::Field);
    let values = col.string_values().unwrap();
    assert_eq!(&values, &[None, None, Some("hello".to_string())]);

    let col = columns.get(4).unwrap();
    assert_eq!(col.name(), "time");
    assert_eq!(col.logical_type(), LogicalColumnType::Time);
    let values = col.i64_values().unwrap();
    assert_eq!(&values, &[Some(983), Some(2343), Some(222)]);

    let col = columns.get(5).unwrap();
    assert_eq!(col.name(), "val");
    assert_eq!(col.logical_type(), LogicalColumnType::Field);
    let values = col.i64_values().unwrap();
    assert_eq!(&values, &[Some(23), None, Some(21)]);

    let col = columns.get(6).unwrap();
    assert_eq!(col.name(), "val2");
    assert_eq!(col.logical_type(), LogicalColumnType::Field);
    let values = f64s(col.f64_values().unwrap());
    assert_eq!(&values, &[None, Some(23.2), None]);
}

#[test]
fn row_count_edge_cases() {
    let lp = vec!["a val=1i 1"].join("\n");
    let lines = lp_to_lines(&lp);

    let mut sh = sharder(1);
    let mut pt = partitioner(1);
    let sharded_entries = lines_to_sharded_entries(&lines, &mut sh, &mut pt).unwrap();
    let partition_writes = sharded_entries
        .first()
        .unwrap()
        .entry
        .partition_writes()
        .unwrap();
    let table_batches = partition_writes.first().unwrap().table_batches();
    let batch = table_batches.first().unwrap();
    let columns = batch.columns();

    assert_eq!(batch.row_count(), 1);
    let col = columns.get(1).unwrap();
    assert_eq!(col.name(), "val");
    let values = col.i64_values().unwrap();
    assert_eq!(&values, &[Some(1)]);

    let lp = vec![
        "a val=1i 1",
        "a val=1i 2",
        "a val=1i 3",
        "a val=1i 4",
        "a val=1i 5",
        "a val=1i 6",
        "a val2=1i 7",
        "a val=1i 8",
    ]
    .join("\n");
    let lines = lp_to_lines(&lp);

    let mut sh = sharder(1);
    let mut pt = partitioner(1);
    let sharded_entries = lines_to_sharded_entries(&lines, &mut sh, &mut pt).unwrap();
    let partition_writes = sharded_entries
        .first()
        .unwrap()
        .entry
        .partition_writes()
        .unwrap();
    let table_batches = partition_writes.first().unwrap().table_batches();
    let batch = table_batches.first().unwrap();
    let columns = batch.columns();

    assert_eq!(batch.row_count(), 8);
    let col = columns.get(1).unwrap();
    assert_eq!(col.name(), "val");
    let values = col.i64_values().unwrap();
    assert_eq!(
        &values,
        &[
            Some(1),
            Some(1),
            Some(1),
            Some(1),
            Some(1),
            Some(1),
            None,
            Some(1)
        ]
    );

    let lp = vec![
        "a val=1i 1",
        "a val=1i 2",
        "a val=1i 3",
        "a val=1i 4",
        "a val=1i 5",
        "a val=1i 6",
        "a val2=1i 7",
        "a val=1i 8",
        "a val=1i 9",
    ]
    .join("\n");
    let lines = lp_to_lines(&lp);

    let mut sh = sharder(1);
    let mut pt = partitioner(1);
    let sharded_entries = lines_to_sharded_entries(&lines, &mut sh, &mut pt).unwrap();
    let partition_writes = sharded_entries
        .first()
        .unwrap()
        .entry
        .partition_writes()
        .unwrap();
    let table_batches = partition_writes.first().unwrap().table_batches();
    let batch = table_batches.first().unwrap();
    let columns = batch.columns();

    assert_eq!(batch.row_count(), 9);
    let col = columns.get(1).unwrap();
    assert_eq!(col.name(), "val");
    let values = col.i64_values().unwrap();
    assert_eq!(
        &values,
        &[
            Some(1),
            Some(1),
            Some(1),
            Some(1),
            Some(1),
            Some(1),
            None,
            Some(1),
            Some(1)
        ]
    );
}

#[test]
fn missing_times() {
    let lp = vec!["a val=1i", "a val=2i 123"].join("\n");
    let lines = lp_to_lines(&lp);

    let t = chrono::Utc::now().timestamp_nanos_opt().unwrap();

    let mut sh = sharder(1);
    let mut pt = partitioner(1);
    let sharded_entries = lines_to_sharded_entries(&lines, &mut sh, &mut pt).unwrap();

    let partition_writes = sharded_entries
        .first()
        .unwrap()
        .entry
        .partition_writes()
        .unwrap();
    let table_batches = partition_writes.first().unwrap().table_batches();
    let batch = table_batches.first().unwrap();
    let columns = batch.columns();

    let col = columns.get(0).unwrap();
    assert_eq!(col.name(), "time");
    let values = col.i64_values().unwrap();
    assert!(values[0].unwrap() > t);
    assert_eq!(values[1], Some(123));
}

#[test]
fn field_type_conflict() {
    let lp = vec!["a val=1i 1", "a val=2.1 123"].join("\n");
    let lines = lp_to_lines(&lp);

    let mut sh = sharder(1);
    let mut pt = partitioner(1);
    let sharded_entries = lines_to_sharded_entries(&lines, &mut sh, &mut pt);

    assert!(sharded_entries.is_err());
}

#[test]
fn logical_type_conflict() {
    let lp = vec!["a,host=a val=1i 1", "a host=\"b\" 123"].join("\n");
    let lines = lp_to_lines(&lp);

    let mut sh = sharder(1);
    let mut pt = partitioner(1);
    let sharded_entries = lines_to_sharded_entries(&lines, &mut sh, &mut pt);

    assert!(sharded_entries.is_err());
}

#[test]
fn sequenced_entry() {
    let lp = vec![
        "a,host=a val=23i 983",
        "a,host=a,region=west val2=23.2 2343",
        "a val=21i,bool=true,string=\"hello\" 222",
    ]
    .join("\n");
    let lines = lp_to_lines(&lp);

    let mut sh = sharder(1);
    let mut pt = partitioner(1);
    let mut sharded_entries = lines_to_sharded_entries(&lines, &mut sh, &mut pt).unwrap();

    let entry = sharded_entries.pop().unwrap().entry;
    let clock_value = ClockValue::new(23);
    let sequenced_entry = SequencedEntry::new_from_entry(clock_value, 2, entry);
    assert_eq!(sequenced_entry.clock_value(), clock_value);
    assert_eq!(sequenced_entry.writer_id(), 2);

    let partition_writes = sequenced_entry.partition_writes().unwrap();
    let table_batches = partition_writes.first().unwrap().table_batches();
    let batch = table_batches.first().unwrap();

    let columns = batch.columns();

    assert_eq!(batch.row_count(), 3);
    assert_eq!(columns.len(), 7);

    let col = columns.get(0).unwrap();
    assert_eq!(col.name(), "bool");
    assert_eq!(col.logical_type(), LogicalColumnType::Field);
    let values = col.bool_values().unwrap();
    assert_eq!(&values, &[None, None, Some(true)]);

    let col = columns.get(1).unwrap();
    assert_eq!(col.name(), "host");
    assert_eq!(col.logical_type(), LogicalColumnType::Tag);
    let values = col.string_values().unwrap();
    assert_eq!(&values, &[Some("a".to_string()), Some("a".to_string()), None]);

    let col = columns.get(2).unwrap();
    assert_eq!(col.name(), "region");
    assert_eq!(col.logical_type(), LogicalColumnType::Tag);
    let values = col.string_values().unwrap();
    assert_eq!(&values, &[None, Some("west".to_string()), None]);

    let col = columns.get(3).unwrap();
    assert_eq!(col.name(), "string");
    assert_eq!(col.logical_type(), LogicalColumnType::Field);
    let values = col.string_values().unwrap();
    assert_eq!(&values, &[None, None, Some("hello".to_string())]);

    let col = columns.get(4).unwrap();
    assert_eq!(col.name(), "time");
    assert_eq!(col.logical_type(), LogicalColumnType::Time);
    let values = col.i64_values().unwrap();
    assert_eq!(&values, &[Some(983), Some(2343), Some(222)]);

    let col = columns.get(5).unwrap();
    assert_eq!(col.name(), "val");
    assert_eq!(col.logical_type(), LogicalColumnType::Field);
    let values = col.i64_values().unwrap();
    assert_eq!(&values, &[Some(23), None, Some(21)]);

    let col = columns.get(6).unwrap();
    assert_eq!(col.name(), "val2");
    assert_eq!(col.logical_type(), LogicalColumnType::Field);
    let values = f64s(col.f64_values().unwrap());
    assert_eq!(&values, &[None, Some(23.2), None]);
}

#[test]
fn clock_values_order_by_reading() {
    let a = ClockValue::new(1);
    let b = ClockValue::new(2);
    assert!(a < b);
    assert!(b > a);
    assert_eq!(a.cmp(&a), std::cmp::Ordering::Equal);
}
