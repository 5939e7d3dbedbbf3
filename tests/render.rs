use city_flatten::columnar::{Batch, Column, ColumnData, TimeUnit};
use city_flatten::decimal::{format_i32, format_i64, format_u64};
use city_flatten::error::CoreError;
use city_flatten::render::{header_record, render_cell, render_records, render_row};

fn col(name: &str, valid: Vec<bool>, data: ColumnData) -> Column {
    Column { name: name.to_string(), valid, data }
}

fn kind_of(r: Result<String, CoreError>) -> String {
    match r {
        Err(CoreError::UnsupportedType { kind }) => kind,
        other => panic!("expected an unsupported type, got {:?}", other),
    }
}

#[test]
fn int64_forty_two_and_null() {
    let c = col("n", vec![true, false], ColumnData::Int64(vec![42, 42]));
    assert_eq!(render_cell(&c, 0).unwrap(), "42");
    assert_eq!(render_cell(&c, 1).unwrap(), "");
}

#[test]
fn each_supported_kind_renders() {
    let cases = vec![
        (ColumnData::Utf8(vec!["a, \"b\"".to_string()]), "a, \"b\""),
        (ColumnData::Int32(vec![-7]), "-7"),
        (ColumnData::Int64(vec![1234567890123]), "1234567890123"),
        (ColumnData::Float64(vec![2.5f64.to_string()]), "2.5"),
        (ColumnData::Timestamp(TimeUnit::Second, vec![1700000000]), "1700000000"),
        (ColumnData::Timestamp(TimeUnit::Millisecond, vec![-5]), "-5"),
        (ColumnData::Timestamp(TimeUnit::Microsecond, vec![0]), "0"),
        (ColumnData::Timestamp(TimeUnit::Nanosecond, vec![10]), "10"),
    ];
    for (data, want) in cases {
        let c = col("x", vec![true], data);
        assert_eq!(render_cell(&c, 0).unwrap(), want);
    }
}

#[test]
fn null_of_every_kind_is_empty() {
    let kinds = vec![
        ColumnData::Utf8(vec!["x".to_string()]),
        ColumnData::Int32(vec![1]),
        ColumnData::Int64(vec![1]),
        ColumnData::Float64(vec!["1.5".to_string()]),
        ColumnData::Timestamp(TimeUnit::Second, vec![9]),
    ];
    for data in kinds {
        assert_eq!(render_cell(&col("x", vec![false], data), 0).unwrap(), "");
    }
}

#[test]
fn unsupported_kinds_fail_with_their_name() {
    let other = col("x", vec![true], ColumnData::Other("Boolean".to_string()));
    assert_eq!(kind_of(render_cell(&other, 0)), "Boolean");
    let s = col("x", vec![true], ColumnData::Struct(vec![]));
    assert_eq!(kind_of(render_cell(&s, 0)), "Struct");
    let item = col("item", vec![], ColumnData::Utf8(vec![]));
    let l = col("x", vec![true], ColumnData::List(vec![0, 0], Box::new(item)));
    assert_eq!(kind_of(render_cell(&l, 0)), "List");
}

#[test]
fn integers_round_trip_through_text() {
    for v in [0i64, 1, -1, 9, 10, 99, 100, -100, 42, i64::MAX, i64::MIN, 1 << 40] {
        assert_eq!(format_i64(v).parse::<i64>().unwrap(), v);
        assert_eq!(format_i64(v), v.to_string());
    }
    for v in [0i32, -2147483648, 2147483647, 305] {
        assert_eq!(format_i32(v).parse::<i32>().unwrap(), v);
    }
    assert_eq!(format_u64(u64::MAX), "18446744073709551615");
}

#[test]
fn floats_round_trip_through_text() {
    for v in [0.1f64, -3.25, 1e300, 6.02214076e23] {
        let c = col("f", vec![true], ColumnData::Float64(vec![v.to_string()]));
        assert_eq!(render_cell(&c, 0).unwrap().parse::<f64>().unwrap(), v);
    }
}

fn result_batch(counts: Vec<Option<i64>>, names: Vec<&str>) -> Batch {
    let n = names.len();
    Batch {
        columns: vec![
            col("country_name", vec![true; n], ColumnData::Utf8(names.iter().map(|s| s.to_string()).collect())),
            col(
                "city_count",
                counts.iter().map(|c| c.is_some()).collect(),
                ColumnData::Int64(counts.iter().map(|c| c.unwrap_or(0)).collect()),
            ),
        ],
        num_rows: n,
    }
}

#[test]
fn row_renders_in_schema_order() {
    let b = result_batch(vec![Some(3), None], vec!["Nepal", "Chad"]);
    assert!(b.is_well_formed());
    assert_eq!(render_row(&b, 0).unwrap(), vec!["Nepal", "3"]);
    assert_eq!(render_row(&b, 1).unwrap(), vec!["Chad", ""]);
    assert_eq!(header_record(&b), vec!["country_name", "city_count"]);
}

fn header() -> Vec<String> {
    vec!["country_name".to_string(), "city_count".to_string()]
}

#[test]
fn records_have_one_header_then_all_rows() {
    let b1 = result_batch(vec![Some(2)], vec!["Nepal"]);
    let b2 = result_batch(vec![Some(1), Some(5)], vec!["Malta", "Peru"]);
    let (recs, outcome) = render_records(header(), &vec![b1, b2]);
    assert!(outcome.is_ok());
    assert_eq!(
        recs,
        vec![
            vec!["country_name", "city_count"],
            vec!["Nepal", "2"],
            vec!["Malta", "1"],
            vec!["Peru", "5"],
        ]
    );
}

#[test]
fn header_is_written_without_any_row() {
    let (recs, outcome) = render_records(header(), &vec![]);
    assert!(outcome.is_ok());
    assert_eq!(recs, vec![vec!["country_name", "city_count"]]);
    let empty = result_batch(vec![], vec![]);
    let (recs, outcome) = render_records(header(), &vec![empty]);
    assert!(outcome.is_ok());
    assert_eq!(recs, vec![vec!["country_name", "city_count"]]);
}

#[test]
fn records_fail_on_unsupported_column() {
    let mut b = result_batch(vec![Some(2)], vec!["Nepal"]);
    b.columns.push(col("flag", vec![true], ColumnData::Other("Boolean".to_string())));
    let (recs, outcome) = render_records(header(), &vec![b]);
    match outcome {
        Err(CoreError::UnsupportedType { kind }) => assert_eq!(kind, "Boolean"),
        other => panic!("expected an unsupported type, got {:?}", other),
    }
    assert_eq!(recs, vec![vec!["country_name", "city_count"]]);
}

#[test]
fn records_stop_at_the_first_failing_row() {
    let b1 = result_batch(vec![Some(2)], vec!["Nepal"]);
    let mut b2 = result_batch(vec![Some(1), Some(5), Some(6)], vec!["Malta", "Peru", "Chad"]);
    b2.columns.push(col("flag", vec![false, true, true], ColumnData::Other("Boolean".to_string())));
    b2.columns.push(col("when", vec![true, true, true], ColumnData::Other("Date32".to_string())));
    let b3 = result_batch(vec![Some(9)], vec!["Fiji"]);
    let (recs, outcome) = render_records(header(), &vec![b1, b2, b3]);
    match outcome {
        Err(CoreError::UnsupportedType { kind }) => assert_eq!(kind, "Date32"),
        other => panic!("expected an unsupported type, got {:?}", other),
    }
    assert_eq!(
        recs,
        vec![
            vec!["country_name", "city_count"],
            vec!["Nepal", "2"],
        ]
    );
}

#[test]
fn malformed_batch_is_detected() {
    let mut b = result_batch(vec![Some(2)], vec!["Nepal"]);
    b.num_rows = 2;
    assert!(!b.is_well_formed());
    assert!(b.columns[1].check_buffers());
}
