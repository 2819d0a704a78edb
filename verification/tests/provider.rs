//! Planning of scans.

use arrow::datatypes::{DataType, TimeUnit};
use sail_lance::expr::{Column, Expr, Operator};
use sail_lance::options::{DatasetRef, LanceReadOptions, NearestOptions};
use sail_lance::provider::{
    bytes_in_bits, lance_filter, partition_fragments, scan_columns, supports_filters_pushdown,
    width_in_bits, FilterPushDown, LanceTableProvider,
};
use sail_lance::scalar::Scalar;
use sail_lance::schema::{Field, ProjectionError, Schema};
use sail_lance::value_type::ValueType;

fn schema(fields: Vec<(&str, ValueType)>) -> Schema {
    Schema {
        fields: fields
            .into_iter()
            .map(|(name, value_type)| Field { name: name.to_string(), value_type })
            .collect(),
    }
}

fn utf8() -> ValueType {
    ValueType::Utf8
}

fn options(nearest: bool) -> LanceReadOptions {
    LanceReadOptions {
        version: Some(DatasetRef::Tag("stable".to_string())),
        batch_size: Some(1024),
        with_row_id: true,
        nearest: if nearest {
            Some(NearestOptions {
                column: "vector".to_string(),
                query: vec![1.0_f32.to_bits()],
                k: 3,
                nprobes: Some(20),
                refine_factor: Some(2),
                use_index: Some(false),
            })
        } else {
            None
        },
    }
}

fn greater(name: &str, value: i64) -> Expr {
    Expr::BinaryExpr {
        left: Box::new(Expr::Column(Column { qualifier: vec![], name: name.to_string() })),
        op: Operator::Gt,
        right: Box::new(Expr::Literal(Scalar::Int64(Some(value)))),
    }
}

fn table() -> Schema {
    schema(vec![
        ("_rowid", ValueType::UInt64),
        ("name", utf8()),
        ("id", ValueType::Int64),
        ("age", ValueType::UInt8),
    ])
}

#[test]
fn scans_read_the_output_without_metadata() {
    let output = schema(vec![
        ("id", ValueType::Int64),
        ("_rowid", ValueType::UInt64),
        ("_rowaddr", ValueType::UInt64),
        ("_distance", ValueType::Float32),
        ("_score", ValueType::Float32),
        ("name", utf8()),
    ]);
    assert_eq!(scan_columns(&output, &table()), ["id", "name"]);
}

#[test]
fn an_empty_output_reads_the_narrowest_column() {
    let empty = schema(vec![]);
    assert_eq!(scan_columns(&empty, &table()), ["age"]);
    assert_eq!(scan_columns(&schema(vec![("_rowid", ValueType::UInt64)]), &table()), ["age"]);
    // The first of several, and any width before none.
    let narrowest = |fields| scan_columns(&empty, &schema(fields));
    assert_eq!(
        narrowest(vec![("a", utf8()), ("b", ValueType::Int16), ("c", ValueType::Float16)]),
        ["b"]
    );
    assert_eq!(narrowest(vec![("a", utf8()), ("b", utf8())]), ["a"]);
    assert_eq!(
        narrowest(vec![
            ("a", ValueType::Int8),
            ("b", ValueType::Boolean),
        ]),
        ["b"]
    );
    let timestamp = DataType::Timestamp(TimeUnit::Second, None);
    assert_eq!(
        narrowest(vec![
            ("a", ValueType::Other(timestamp)),
            ("b", ValueType::Other(DataType::Date32)),
        ]),
        ["b"]
    );
    assert!(narrowest(vec![("_score", ValueType::Float32)]).is_empty());
}

#[test]
fn types_have_widths() {
    let list = |item, size| ValueType::FixedSizeList(Box::new(item), size);
    for (value_type, bits) in [
        (ValueType::Null, Some(0)),
        (ValueType::Boolean, Some(1)),
        (ValueType::UInt8, Some(8)),
        (ValueType::Float16, Some(16)),
        (ValueType::Int32, Some(32)),
        (ValueType::Float64, Some(64)),
        (ValueType::Decimal128(10, 2), Some(128)),
        (ValueType::Utf8, None),
        (ValueType::LargeUtf8, None),
        (ValueType::Utf8View, None),
        (ValueType::FixedSizeBinary(1), Some(8)),
        (ValueType::FixedSizeBinary(0), Some(0)),
        (ValueType::FixedSizeBinary(-1), None),
        (list(ValueType::Float32, 3), Some(96)),
        (list(list(ValueType::Boolean, 3), 5), Some(15)),
        (list(ValueType::Utf8, 3), None),
        (list(ValueType::Int8, -1), None),
        (ValueType::Other(DataType::Date64), Some(64)),
        (ValueType::Other(DataType::Binary), None),
    ] {
        assert_eq!(width_in_bits(&value_type), bits, "{value_type:?}");
        assert_eq!(width_in_bits(&value_type.clone()), bits);
    }
    let mut deep = ValueType::Int64;
    for _ in 0..5 {
        deep = list(deep, i32::MAX);
    }
    assert_eq!(width_in_bits(&deep), None);
    assert_eq!(bytes_in_bits(Some(usize::MAX)), Some(8 * usize::MAX as u128));
    assert_eq!(bytes_in_bits(None), None);
    let empty = schema(vec![]);
    let table = schema(vec![
        ("id", ValueType::Int64),
        ("flags", ValueType::FixedSizeBinary(1)),
        ("vector", list(ValueType::Float32, 4)),
    ]);
    assert_eq!(scan_columns(&empty, &table), ["flags"]);
}

#[test]
fn fragments_go_round() {
    let fragments = |n: u64| (0..n).collect::<Vec<u64>>();
    assert_eq!(
        partition_fragments(fragments(7), 3, false),
        vec![vec![0, 3, 6], vec![1, 4], vec![2, 5]]
    );
    assert_eq!(
        partition_fragments(fragments(2), 8, false),
        vec![vec![0], vec![1]]
    );
    let whole: Vec<Vec<u64>> = vec![vec![]];
    assert_eq!(partition_fragments(fragments(7), 1, false), whole);
    assert_eq!(partition_fragments(fragments(7), 0, false), whole);
    assert_eq!(partition_fragments(fragments(1), 4, false), whole);
    assert_eq!(partition_fragments(fragments(0), 4, false), whole);
    assert_eq!(partition_fragments(fragments(7), 3, true), whole);
}

#[test]
fn every_fragment_is_in_one_partition() {
    for n in 2..20_usize {
        for target in 2..25_usize {
            let partitions = partition_fragments((0..n).collect(), target, false);
            assert_eq!(partitions.len(), target.min(n));
            let mut all: Vec<usize> = partitions.iter().flatten().copied().collect();
            all.sort_unstable();
            assert_eq!(all, (0..n).collect::<Vec<usize>>());
            let most = partitions.iter().map(Vec::len).max().unwrap();
            let least = partitions.iter().map(Vec::len).min().unwrap();
            assert!(least > 0 && most - least <= 1);
        }
    }
}

#[test]
fn the_dataset_has_the_final_word_on_filters() {
    let accepts = |filter: &str| filter.contains("id");
    assert_eq!(lance_filter(&greater("id", 3), &accepts).as_deref(), Some("(id > 3)"));
    assert_eq!(lance_filter(&greater("name", 3), &accepts), None);
    assert_eq!(lance_filter(&greater("id 2", 3), &accepts), None);
    assert_eq!(
        supports_filters_pushdown(
            &vec![greater("id", 3), greater("name", 3), greater("id 2", 3)],
            &accepts
        ),
        [
            FilterPushDown::Inexact,
            FilterPushDown::Unsupported,
            FilterPushDown::Unsupported,
        ]
    );
}

fn provider(nearest: bool) -> LanceTableProvider<&'static str> {
    LanceTableProvider::try_open(
        "s3://bucket/table.lance",
        options(nearest),
        Ok::<_, String>(("dataset", table())),
    )
    .unwrap()
}

#[test]
fn opening_keeps_what_was_opened() {
    let provider = provider(false);
    assert_eq!(provider.uri(), "s3://bucket/table.lance");
    assert_eq!(provider.dataset, "dataset");
    assert_eq!(provider.schema, table());
    assert_eq!(provider.read_options, options(false));
    let failed = LanceTableProvider::<u8>::try_open("x", options(false), Err("no such dataset"));
    assert_eq!(failed.map(|_| ()), Err("no such dataset"));
}

#[test]
fn a_scan_is_planned() {
    let accepts = |filter: &str| !filter.contains("name");
    let scan = provider(false)
        .scan(
            Some(&vec![0, 2]),
            &vec![greater("id", 3), greater("name", 4), greater("age", 5)],
            Some(10),
            vec!['a', 'b', 'c'],
            2,
            &accepts,
        )
        .unwrap();
    let names: Vec<&str> = scan.output.fields.iter().map(|field| field.name.as_str()).collect();
    assert_eq!(names, ["_rowid", "id"]);
    assert_eq!(scan.config.columns, ["id"]);
    assert_eq!(scan.config.filter.as_deref(), Some("(id > 3) AND (age > 5)"));
    assert_eq!(scan.config.limit, Some(10));
    assert_eq!(scan.config.options, options(false));
    assert_eq!(scan.partitions, vec![vec!['a', 'c'], vec!['b']]);
}

#[test]
fn a_vector_search_is_one_scan() {
    let accepts = |_: &str| true;
    let scan = provider(true)
        .scan(None, &vec![], None, vec!['a', 'b', 'c'], 2, &accepts)
        .unwrap();
    assert_eq!(scan.output, table());
    assert_eq!(scan.config.columns, ["name", "id", "age"]);
    assert_eq!(scan.config.filter, None);
    assert_eq!(scan.config.limit, None);
    assert_eq!(scan.config.options, options(true));
    assert_eq!(scan.partitions, vec![Vec::<char>::new()]);
}

#[test]
fn a_projection_out_of_bounds_is_an_error() {
    let accepts = |_: &str| true;
    let error = provider(false)
        .scan(Some(&vec![1, 4]), &vec![], None, vec!['a'], 2, &accepts)
        .unwrap_err();
    assert_eq!(error, ProjectionError { index: 4, fields: 4 });
}
