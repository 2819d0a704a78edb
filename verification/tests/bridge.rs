//! Batches that cross between Arrow versions.

use std::sync::Arc;

use arrow::array::{RecordBatch, RecordBatchOptions};
use arrow::datatypes::Schema;
use sail_lance::bridge::{batch_route, BatchRoute};

fn without_columns(rows: usize) -> RecordBatch {
    let options = RecordBatchOptions::new().with_row_count(Some(rows));
    RecordBatch::try_new_with_options(Arc::new(Schema::empty()), vec![], &options).unwrap()
}

#[test]
fn a_batch_without_columns_keeps_its_row_count() {
    let batch = without_columns(7);
    let converted = match batch_route(batch.num_columns(), batch.num_rows()) {
        BatchRoute::RowsOnly { rows } => without_columns(rows),
        BatchRoute::Columns => panic!("a batch without columns has no struct array"),
    };
    assert_eq!(converted.num_rows(), 7);
    assert_eq!(converted.num_columns(), 0);
}

#[test]
fn columns_cross_together() {
    assert_eq!(batch_route(1, 0), BatchRoute::Columns);
    assert_eq!(batch_route(5, 7), BatchRoute::Columns);
    assert_eq!(batch_route(0, 0), BatchRoute::RowsOnly { rows: 0 });
}
