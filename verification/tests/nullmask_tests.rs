//! Null mask construction and readback.

use mutable_buffer::nullmask::NullMaskBuilder;

#[test]
fn null_mask_builder() {
    let mut m = NullMaskBuilder::new();
    m.push(true);
    m.push(false);
    m.push(true);
    assert_eq!(m.row_count(), 3);
    assert_eq!(m.to_bool_vec(), vec![true, false, true]);
}

#[test]
fn null_mask_builder_eight_edge_case() {
    let mut m = NullMaskBuilder::new();
    m.push(false);
    m.push(true);
    m.push(true);
    m.push(false);
    m.push(false);
    m.push(true);
    m.push(true);
    m.push(false);
    assert_eq!(m.row_count(), 8);
    assert_eq!(
        m.to_bool_vec(),
        vec![false, true, true, false, false, true, true, false]
    );
}

#[test]
fn null_mask_builder_more_than_eight() {
    let mut m = NullMaskBuilder::new();
    m.push(false);
    m.push(true);
    m.push(true);
    m.push(false);
    m.push(false);
    m.push(true);
    m.push(false);
    m.push(false);
    m.push(false);
    m.push(true);
    assert_eq!(m.row_count(), 10);
    assert_eq!(
        m.to_bool_vec(),
        vec![false, true, true, false, false, true, false, false, false, true]
    );
}

#[test]
fn has_nulls_reports_any_set_flag() {
    let mut m = NullMaskBuilder::new();
    m.push(false);
    m.push(false);
    assert!(!m.has_nulls());
    m.push(true);
    assert!(m.has_nulls());
}

#[test]
fn is_null_value_beyond_mask_counts_as_null() {
    let mask: &[u8] = &[0b0100_0000];
    assert!(!mutable_buffer::nullmask::is_null_value(1, &Some(mask)));
    assert!(mutable_buffer::nullmask::is_null_value(2, &Some(mask)));
    assert!(mutable_buffer::nullmask::is_null_value(9, &Some(mask)));
    assert!(!mutable_buffer::nullmask::is_null_value(7, &None));
}
