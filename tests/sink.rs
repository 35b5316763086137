use goodmetrics::copy_writer::{build_row, copy_statement, get_all_column_names, get_all_column_types, Cell};
use goodmetrics::errors::{DescribedError, MissingColumn, MissingTable, StringError};
use goodmetrics::errors::{classify_open_error, missing_column_error, missing_table_error, sql_data_type_string, sql_dimension_type_string, PostgresError, SinkError};
use goodmetrics::grouping::group_metrics;
use goodmetrics::ident::clean_id;
use goodmetrics::order::compare_names;
use goodmetrics::recovery::{histogram_type_statement, statistic_set_type_statement};
use goodmetrics::recovery::{add_column_statement, create_table_statement, recovery_for, recovery_statement, should_retry, DropReason, Recovery};
use goodmetrics::sink::{build_rows, plan_batch};
use goodmetrics::type_conversion::TypeConverter;
use goodmetrics::types::{Datum, Dimension, DimensionValue, Histogram, Measurement, MeasurementValue, SqlType, StatisticSet};

fn text(s: &str) -> Dimension {
    Dimension { value: Some(DimensionValue::String(s.to_string())) }
}

fn datum(metric: &str, nanos: u64, dims: Vec<(&str, Dimension)>, meas: Vec<(&str, Measurement)>) -> Datum {
    Datum {
        metric: metric.to_string(),
        unix_nanos: nanos,
        dimensions: dims.into_iter().map(|(k, v)| (k.to_string(), v)).collect(),
        measurements: meas.into_iter().map(|(k, v)| (k.to_string(), v)).collect(),
    }
}

fn i64m(v: i64) -> Measurement {
    Measurement { value: Some(MeasurementValue::I64(v)) }
}

fn db(code: &str, message: &str) -> PostgresError {
    PostgresError::Db { code: code.to_string(), message: message.to_string() }
}

#[test]
fn clean_id_lowercases_and_replaces_runs() {
    assert_eq!(clean_id("HTTP Requests"), "http_requests");
    assert_eq!(clean_id("a.b--c"), "a_b_c");
    assert_eq!(clean_id("--x"), "_x");
    assert_eq!(clean_id("snake_case_9"), "snake_case_9");
}

#[test]
fn clean_id_strips_leading_digits() {
    assert_eq!(clean_id("123abc"), "abc");
    assert_eq!(clean_id("1-a"), "_a");
}

#[test]
fn clean_id_of_empty_or_all_digits_is_underscore() {
    assert_eq!(clean_id(""), "_");
    assert_eq!(clean_id("42"), "_");
}

#[test]
fn clean_id_is_idempotent_on_examples() {
    for x in ["Weird.Name!!", "9lives", "", "ÄÖü", "already_clean", "__a"] {
        let once = clean_id(x);
        assert_eq!(clean_id(&once), once);
        let first = once.chars().next().unwrap();
        assert!(first == '_' || first.is_ascii_lowercase());
        assert!(once.chars().all(|c| c == '_' || c.is_ascii_lowercase() || c.is_ascii_digit()));
    }
}

#[test]
fn compare_names_orders_by_code_point() {
    assert!(compare_names("a", "b") < 0);
    assert!(compare_names("b", "a") > 0);
    assert_eq!(compare_names("abc", "abc"), 0);
    assert!(compare_names("ab", "abc") < 0);
    assert!(compare_names("B", "a") < 0);
}

#[test]
fn type_table_of_dimensions_and_measurements() {
    let tc = TypeConverter::new();
    assert_eq!(tc.dimension_sql_type(&text("x")), Some(SqlType::Text));
    assert_eq!(tc.dimension_sql_type(&Dimension { value: Some(DimensionValue::Number(4)) }), Some(SqlType::Int8));
    assert_eq!(tc.dimension_sql_type(&Dimension { value: Some(DimensionValue::Boolean(true)) }), Some(SqlType::Bool));
    assert_eq!(tc.dimension_sql_type(&Dimension { value: None }), None);
    assert_eq!(tc.measurement_sql_type(&i64m(1)), Some(SqlType::Int8));
    assert_eq!(tc.measurement_sql_type(&Measurement { value: Some(MeasurementValue::I32(1)) }), Some(SqlType::Int4));
    assert_eq!(tc.measurement_sql_type(&Measurement { value: Some(MeasurementValue::F64(1.5f64.to_bits())) }), Some(SqlType::Float8));
    assert_eq!(tc.measurement_sql_type(&Measurement { value: Some(MeasurementValue::F32(1.5f32.to_bits())) }), Some(SqlType::Float4));
    let stats = StatisticSet { minimum_bits: 0, maximum_bits: 0, samplesum_bits: 0, samplecount: 0 };
    assert_eq!(tc.measurement_sql_type(&Measurement { value: Some(MeasurementValue::StatisticSet(stats)) }), Some(SqlType::StatisticSet));
    assert_eq!(tc.measurement_sql_type(&Measurement { value: Some(MeasurementValue::Histogram(Histogram { buckets: vec![] })) }), Some(SqlType::Jsonb));
}

#[test]
fn type_names_for_ddl() {
    assert_eq!(sql_dimension_type_string(&text("x")), "text");
    assert_eq!(sql_dimension_type_string(&Dimension { value: Some(DimensionValue::Boolean(false)) }), "boolean");
    assert_eq!(sql_data_type_string(&i64m(3)), "int8");
    assert_eq!(sql_data_type_string(&Measurement { value: Some(MeasurementValue::F64(0)) }), "float8");
    assert_eq!(sql_data_type_string(&Measurement { value: Some(MeasurementValue::Histogram(Histogram { buckets: vec![(1, 2)] })) }), "histogram");
    assert_eq!(sql_data_type_string(&Measurement { value: Some(MeasurementValue::I32(1)) }), "int4");
}

#[test]
fn type_maps_are_sorted_and_last_observation_wins() {
    let tc = TypeConverter::new();
    let datums = vec![
        datum("m", 1, vec![("zeta", text("a")), ("alpha", text("b"))], vec![("v", i64m(1))]),
        datum("m", 2, vec![("alpha", Dimension { value: Some(DimensionValue::Number(3)) })], vec![("c", i64m(2))]),
    ];
    let dims = tc.get_dimension_type_map(&datums);
    assert_eq!(dims, vec![("alpha".to_string(), SqlType::Int8), ("zeta".to_string(), SqlType::Text)]);
    let meas = tc.get_measurement_type_map(&datums);
    assert_eq!(meas, vec![("c".to_string(), SqlType::Int8), ("v".to_string(), SqlType::Int8)]);
}

#[test]
fn first_write_plan_and_row() {
    let tc = TypeConverter::new();
    let datums = vec![datum("http_requests", 1_700_000_000_000_000_000, vec![("route", text("/x"))], vec![("count", i64m(3))])];
    let plan = plan_batch(&tc, "http_requests", &datums);
    assert_eq!(plan.column_names, vec!["time", "route", "count"]);
    assert_eq!(plan.column_types, vec![SqlType::Timestamptz, SqlType::Text, SqlType::Int8]);
    assert_eq!(plan.statement, "copy http_requests (time,route,count) from stdin with binary");
    let rows = build_rows(&plan, &datums);
    assert_eq!(rows.len(), 1);
    assert_eq!(rows[0].len(), 3);
    assert!(matches!(rows[0][0], Cell::Timestamp(1_700_000_000_000_000_000)));
    assert!(matches!(&rows[0][1], Cell::Text(s) if s == "/x"));
    assert!(matches!(rows[0][2], Cell::Int8(3)));
}

#[test]
fn coalesced_batch_has_union_of_columns_and_nulls() {
    let tc = TypeConverter::new();
    let datums = vec![
        datum("m", 1, vec![("a", text("x"))], vec![("v", i64m(1))]),
        datum("m", 2, vec![("b", text("y"))], vec![("v", i64m(2))]),
    ];
    let plan = plan_batch(&tc, "m", &datums);
    assert_eq!(plan.column_names, vec!["time", "a", "b", "v"]);
    let rows = build_rows(&plan, &datums);
    assert_eq!(rows.len(), 2);
    assert!(rows.iter().all(|r| r.len() == 4));
    assert!(matches!(&rows[0][1], Cell::Text(s) if s == "x"));
    assert!(matches!(rows[0][2], Cell::NullText));
    assert!(matches!(rows[1][1], Cell::NullText));
    assert!(matches!(&rows[1][2], Cell::Text(s) if s == "y"));
}

#[test]
fn absent_dimension_and_measurement_become_nulls() {
    let dims = vec![("a".to_string(), SqlType::Text)];
    let meas = vec![("v".to_string(), SqlType::Float8)];
    let d = datum("m", 5, vec![], vec![]);
    let row = build_row(&d, &dims, &meas);
    assert_eq!(row.len(), 3);
    assert!(matches!(row[0], Cell::Timestamp(5)));
    assert!(matches!(row[1], Cell::NullText));
    assert!(matches!(row[2], Cell::NullFloat8));
}

#[test]
fn row_cells_carry_values() {
    let dims = vec![("n".to_string(), SqlType::Int8), ("t".to_string(), SqlType::Bool)];
    let meas = vec![("f".to_string(), SqlType::Float8), ("h".to_string(), SqlType::Jsonb)];
    let d = datum(
        "m",
        7,
        vec![("n", Dimension { value: Some(DimensionValue::Number(-2)) }), ("t", Dimension { value: Some(DimensionValue::Boolean(true)) })],
        vec![
            ("f", Measurement { value: Some(MeasurementValue::F64(2.5f64.to_bits())) }),
            ("h", Measurement { value: Some(MeasurementValue::Histogram(Histogram { buckets: vec![(10, 2), (20, 1)] })) }),
        ],
    );
    let row = build_row(&d, &dims, &meas);
    assert!(matches!(row[1], Cell::Int8(-2)));
    assert!(matches!(row[2], Cell::Bool(true)));
    assert!(matches!(row[3], Cell::Float8(b) if f64::from_bits(b) == 2.5));
    assert!(matches!(&row[4], Cell::Histogram(h) if *h == vec![(10, 2), (20, 1)]));
}

#[test]
fn column_lists_clean_names() {
    let dims = vec![("Host Name".to_string(), SqlType::Text)];
    let meas = vec![("p99.latency".to_string(), SqlType::Float8)];
    assert_eq!(get_all_column_names(&dims, &meas), vec!["time", "host_name", "p99_latency"]);
    assert_eq!(get_all_column_types(&dims, &meas), vec![SqlType::Timestamptz, SqlType::Text, SqlType::Float8]);
    assert_eq!(copy_statement("My.Metric", &vec!["time".to_string()]), "copy my_metric (time) from stdin with binary");
}

#[test]
fn grouping_sorts_metrics_and_keeps_order() {
    let batch = vec![
        datum("b", 1, vec![], vec![]),
        datum("a", 2, vec![], vec![]),
        datum("b", 3, vec![], vec![]),
        datum("a", 4, vec![], vec![]),
    ];
    let groups = group_metrics(batch);
    assert_eq!(groups.len(), 2);
    assert_eq!(groups[0].0, "a");
    assert_eq!(groups[0].1.iter().map(|d| d.unix_nanos).collect::<Vec<_>>(), vec![2, 4]);
    assert_eq!(groups[1].0, "b");
    assert_eq!(groups[1].1.iter().map(|d| d.unix_nanos).collect::<Vec<_>>(), vec![1, 3]);
}

#[test]
fn grouping_empty_batch() {
    assert!(group_metrics(vec![]).is_empty());
}

#[test]
fn undefined_column_becomes_missing_column() {
    let datums = vec![datum("m", 1, vec![("a", text("x")), ("b", text("y"))], vec![("v", Measurement { value: Some(MeasurementValue::F64(0)) })])];
    let e = classify_open_error(db("42703", "column \"b\" of relation \"m\" does not exist"), &datums);
    match e {
        SinkError::MissingColumn(m) => {
            assert_eq!(m.table, "m");
            assert_eq!(m.column, "b");
            assert_eq!(m.data_type, "text");
        }
        _ => panic!("expected a missing column"),
    }
    let e = classify_open_error(db("42703", "column \"v\" of relation \"m\" does not exist"), &datums);
    assert!(matches!(e, SinkError::MissingColumn(m) if m.data_type == "float8"));
}

#[test]
fn undefined_column_with_dotted_mixed_case_names() {
    let datums = vec![datum("m", 1, vec![("Odd.Col", text("x"))], vec![])];
    let e = classify_open_error(db("42703", "column \"odd_col\" of relation \"Schema.T\" does not exist"), &datums);
    assert!(matches!(e, SinkError::MissingColumn(m) if m.column == "odd_col" && m.table == "Schema.T" && m.data_type == "text"));
}

#[test]
fn undefined_column_without_type_is_described() {
    let datums = vec![datum("m", 1, vec![], vec![])];
    let e = classify_open_error(db("42703", "column \"q\" of relation \"m\" does not exist"), &datums);
    assert!(matches!(e, SinkError::DescribedError(_)));
    assert!(matches!(recovery_for(e), Recovery::Drop(DropReason::Described)));
}

#[test]
fn undefined_table_becomes_missing_table() {
    let e = classify_open_error(db("42P01", "relation \"http_requests\" does not exist"), &[]);
    assert!(matches!(&e, SinkError::MissingTable(t) if t.table == "http_requests"));
    let r = recovery_for(e);
    assert!(matches!(&r, Recovery::CreateTable { table } if table == "http_requests"));
    assert_eq!(recovery_statement(&r).unwrap(), "create table if not exists http_requests (time timestamptz not null)");
    assert!(should_retry(&r, true));
    assert!(!should_retry(&r, false));
}

#[test]
fn unmatched_messages_stay_database_errors() {
    let e = classify_open_error(db("42P01", "something else"), &[]);
    assert!(matches!(e, SinkError::Postgres(_)));
    let e = missing_table_error(db("42P01", "x"), Some(vec!["whole".to_string()]));
    assert!(matches!(e, SinkError::Postgres(_)));
    let e = missing_column_error(db("42703", "x"), None, &[]);
    assert!(matches!(e, SinkError::Postgres(_)));
}

#[test]
fn permission_denied_is_terminal() {
    let e = classify_open_error(db("42501", "permission denied for table m"), &[]);
    let r = recovery_for(e);
    assert!(matches!(r, Recovery::Drop(DropReason::PermissionDenied)));
    assert!(!should_retry(&r, true));
    assert!(recovery_statement(&r).is_none());
}

#[test]
fn other_failures_drop() {
    assert!(matches!(recovery_for(SinkError::Postgres(db("23505", "dup"))), Recovery::Drop(DropReason::UnhandledDb)));
    assert!(matches!(recovery_for(SinkError::Postgres(PostgresError::WrongType { message: "w".to_string() })), Recovery::Drop(DropReason::WrongType)));
    assert!(matches!(recovery_for(SinkError::Postgres(PostgresError::Other { message: "io".to_string() })), Recovery::Drop(DropReason::Transient)));
    let s = StringError { message: "s".to_string() };
    assert!(matches!(recovery_for(SinkError::StringError(s)), Recovery::Drop(DropReason::Unhandled)));
}

#[test]
fn add_column_recovery_statement() {
    let r = Recovery::AddColumn { table: "m".to_string(), column: "b".to_string(), data_type: "text".to_string() };
    assert_eq!(recovery_statement(&r).unwrap(), "alter table m add column if not exists b text");
    assert_eq!(add_column_statement("M", "V-1", "float8"), "alter table m add column if not exists v_1 float8");
    assert_eq!(create_table_statement("Q"), "create table if not exists q (time timestamptz not null)");
}

#[test]
fn error_descriptions() {
    let t = MissingTable { table: "t".to_string() };
    assert_eq!(t.describe(), "MissingTable { table: \"t\" }");
    let c = MissingColumn { table: "t".to_string(), column: "a\"b".to_string(), data_type: "text".to_string() };
    assert_eq!(c.describe(), "MissingColumn { table: \"t\", column: \"a\\\"b\" }");
    let s = StringError { message: "oops".to_string() };
    assert_eq!(s.describe(), "StringError { message: \"oops\" }");
    let d = DescribedError { message: "m".to_string(), inner: PostgresError::Other { message: "io".to_string() } };
    assert_eq!(d.describe(), "DescribedError { message: \"m\", cause: \"io\" }");
    assert_eq!(SinkError::MissingTable(t).describe(), "i gotta have more table");
    assert_eq!(SinkError::StringError(s).describe(), "unhandled error");
}

#[test]
fn grouping_orders_metrics_by_code_point() {
    let batch = vec![
        datum("zz", 1, vec![], vec![]),
        datum("Zz", 2, vec![], vec![]),
        datum("a", 3, vec![], vec![]),
        datum("zz", 4, vec![], vec![]),
    ];
    let groups = group_metrics(batch);
    let names: Vec<&str> = groups.iter().map(|g| g.0.as_str()).collect();
    assert_eq!(names, vec!["Zz", "a", "zz"]);
    assert_eq!(groups[2].1.iter().map(|d| d.unix_nanos).collect::<Vec<_>>(), vec![1, 4]);
}

#[test]
fn plans_of_the_same_batch_agree() {
    let tc = TypeConverter::new();
    let datums = vec![
        datum("m", 1, vec![("b", text("x")), ("a", text("y"))], vec![("z", i64m(1)), ("y", i64m(2))]),
    ];
    let p1 = plan_batch(&tc, "m", &datums);
    let p2 = plan_batch(&tc, "m", &datums);
    assert_eq!(p1.statement, p2.statement);
    assert_eq!(p1.statement, "copy m (time,a,b,y,z) from stdin with binary");
    assert_eq!(p1.column_types, p2.column_types);
}

#[test]
fn undefined_column_matches_cleaned_names() {
    let datums = vec![datum("m", 1, vec![("Host Name", text("x"))], vec![("P99.Latency", Measurement { value: Some(MeasurementValue::F64(0)) })])];
    let e = classify_open_error(db("42703", "column \"host_name\" of relation \"m\" does not exist"), &datums);
    assert!(matches!(&e, SinkError::MissingColumn(m) if m.column == "host_name" && m.data_type == "text"));
    let r = recovery_for(e);
    assert_eq!(recovery_statement(&r).unwrap(), "alter table m add column if not exists host_name text");
    let e = classify_open_error(db("42703", "column \"p99_latency\" of relation \"m\" does not exist"), &datums);
    assert!(matches!(&e, SinkError::MissingColumn(m) if m.column == "p99_latency" && m.data_type == "float8"));
}

#[test]
fn described_error_keeps_its_message() {
    let datums = vec![datum("m", 1, vec![], vec![])];
    let e = classify_open_error(db("42703", "column \"q\" of relation \"m\" does not exist"), &datums);
    assert!(matches!(&e, SinkError::DescribedError(d) if d.message == "Type not foud, can't add column"));
}

#[test]
fn statement_does_not_depend_on_datum_order() {
    let tc = TypeConverter::new();
    let first = vec![
        datum("m", 1, vec![("b", text("x"))], vec![("z", i64m(1))]),
        datum("m", 2, vec![("a", text("y"))], vec![("y", i64m(2))]),
    ];
    let second = vec![
        datum("m", 2, vec![("a", text("y"))], vec![("y", i64m(2))]),
        datum("m", 1, vec![("b", text("x"))], vec![("z", i64m(1))]),
    ];
    let p1 = plan_batch(&tc, "m", &first);
    let p2 = plan_batch(&tc, "m", &second);
    assert_eq!(p1.statement, p2.statement);
    assert_eq!(p1.statement, "copy m (time,a,b,y,z) from stdin with binary");
}

#[test]
fn type_creation_statements_are_idempotent_blocks() {
    assert!(histogram_type_statement().contains("create domain histogram as jsonb"));
    assert!(histogram_type_statement().contains("when duplicate_object then null"));
    assert!(statistic_set_type_statement().contains("create type statistic_set"));
}
