//! Line protocol turned into per-table column writes.

use influxdb_line_protocol::{parse_lines, FieldValue as LpFieldValue};
use mutable_buffer::builder::{build_table_batch, lines_to_sharded_entries, partitioner, sharder};
use mutable_buffer::entry::{FieldValue, Line};
use mutable_buffer::schema::{InfluxColumnType, InfluxFieldType};

/// Parses line protocol into the library's line values.
fn lp_to_lines(lp: &str) -> Vec<Line> {
    parse_lines(lp)
        .map(|l| {
            let l = l.unwrap();
            let tag_set = match &l.series.tag_set {
                Some(tags) => tags
                    .iter()
                    .map(|(k, v)| (k.to_string(), v.to_string()))
                    .collect(),
                None => Vec::new(),
            };
            let field_set = l
                .field_set
                .iter()
                .map(|(k, v)| {
                    let value = match v {
                        LpFieldValue::I64(x) => FieldValue::I64(*x),
                        LpFieldValue::U64(x) => FieldValue::U64(*x),
                        LpFieldValue::F64(x) => FieldValue::F64(x.to_bits()),
                        LpFieldValue::String(s) => FieldValue::Str(s.to_string()),
                        LpFieldValue::Boolean(b) => FieldValue::Boolean(*b),
                    };
                    (k.to_string(), value)
                })
                .collect();
            Line {
                measurement: l.series.measurement.to_string(),
                tag_set,
                field_set,
                timestamp: l.timestamp,
            }
        })
        .collect()
}

fn f64s(v: Vec<Option<u64>>) -> Vec<Option<f64>> {
    v.into_iter().map(|o| o.map(f64::from_bits)).collect()
}

#[test]
fn test_basic() {
    let lp = r#"
        a,host=a ival=23i,fval=1.2,uval=7u,sval="hi",bval=true 1
        a,host=b ival=22i,fval=2.2,uval=1u,sval="world",bval=false 2
    "#;

    let lines = lp_to_lines(lp);
    let batch = build_table_batch("a", &lines, 0).unwrap();

    assert_eq!(batch.name(), "a");
    let columns = batch.columns();
    assert_eq!(columns.len(), 7);

    let col = &columns[0];
    assert_eq!(col.name(), "bval");
    assert_eq!(
        col.influx_type(),
        InfluxColumnType::Field(InfluxFieldType::Boolean)
    );
    assert_eq!(col.bool_values().unwrap(), vec![Some(true), Some(false)]);

    let col = &columns[1];
    assert_eq!(col.name(), "fval");
    assert_eq!(
        col.influx_type(),
        InfluxColumnType::Field(InfluxFieldType::Float)
    );
    assert_eq!(f64s(col.f64_values().unwrap()), vec![Some(1.2), Some(2.2)]);

    let col = &columns[2];
    assert_eq!(col.name(), "host");
    assert_eq!(col.influx_type(), InfluxColumnType::Tag);
    assert_eq!(
        col.string_values().unwrap(),
        vec![Some("a".to_string()), Some("b".to_string())]
    );

    let col = &columns[3];
    assert_eq!(col.name(), "ival");
    assert_eq!(
        col.influx_type(),
        InfluxColumnType::Field(InfluxFieldType::Integer)
    );
    assert_eq!(col.i64_values().unwrap(), vec![Some(23), Some(22)]);

    let col = &columns[4];
    assert_eq!(col.name(), "sval");
    assert_eq!(
        col.influx_type(),
        InfluxColumnType::Field(InfluxFieldType::Str)
    );
    assert_eq!(
        col.string_values().unwrap(),
        vec![Some("hi".to_string()), Some("world".to_string())]
    );

    let col = &columns[5];
    assert_eq!(col.name(), "time");
    assert_eq!(col.influx_type(), InfluxColumnType::Timestamp);
    assert_eq!(col.i64_values().unwrap(), vec![Some(1), Some(2)]);

    let col = &columns[6];
    assert_eq!(col.name(), "uval");
    assert_eq!(
        col.influx_type(),
        InfluxColumnType::Field(InfluxFieldType::UInteger)
    );
    assert_eq!(col.u64_values().unwrap(), vec![Some(7), Some(1)]);
}

#[test]
fn test_nulls() {
    let lp = r#"
        a,host=a val=23i 983
        a val=21i,bool=true,string="hello" 222
        a,host=a,region=west val2=23.2
    "#;

    let lines = lp_to_lines(lp);
    let batch = build_table_batch("a", &lines, 32).unwrap();

    let columns = batch.columns();
    assert_eq!(columns.len(), 7);

    let time = columns.iter().find(|c| c.name() == "time").unwrap();
    assert_eq!(time.influx_type(), InfluxColumnType::Timestamp);
    assert_eq!(
        time.i64_values().unwrap(),
        vec![Some(983), Some(222), Some(32)]
    );

    let host = columns.iter().find(|c| c.name() == "host").unwrap();
    assert_eq!(host.influx_type(), InfluxColumnType::Tag);
    assert_eq!(
        host.string_values().unwrap(),
        vec![Some("a".to_string()), None, Some("a".to_string())]
    );

    let val = columns.iter().find(|c| c.name() == "val").unwrap();
    assert_eq!(
        val.influx_type(),
        InfluxColumnType::Field(InfluxFieldType::Integer)
    );
    assert_eq!(val.i64_values().unwrap(), vec![Some(23), Some(21), None]);
}

#[test]
fn test_multiple_table() {
    let lp = r#"
        cpu val=1 55
        mem val=23 10
        cpu val=88 100
        disk foo=23.2 110
        mem val=55 111
    "#;
    let lines = lp_to_lines(lp);

    let mut sh = sharder(1);
    let mut pt = partitioner(1);
    let entries = lines_to_sharded_entries(&lines, &mut sh, &mut pt).unwrap();

    let writes = entries[0].entry.partition_writes().unwrap();
    let batches = writes[0].table_batches();
    assert_eq!(batches.len(), 3);
    let names: Vec<&str> = batches.iter().map(|b| b.name()).collect();
    assert!(names.contains(&"cpu"));
    assert!(names.contains(&"mem"));
    assert!(names.contains(&"disk"));
}
