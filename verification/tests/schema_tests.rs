use argus::error::ArgusError;
use argus::schema::{
    canonical_schema, data_type_eq, data_type_text, validate_batch, BatchLayout, DataType, Field, Schema,
    SCHEMA_VERSION,
};

fn layout(schema: Schema, versions: Option<Vec<Option<u16>>>) -> BatchLayout {
    BatchLayout { schema, schema_versions: versions }
}

fn invalid_schema_message(r: Result<(), ArgusError>) -> String {
    match r {
        Err(ArgusError::InvalidSchema(msg)) => msg,
        other => panic!("unexpected result {other:?}"),
    }
}

#[test]
fn canonical_schema_columns() {
    let s = canonical_schema();
    let names: Vec<&str> = s.fields.iter().map(|f| f.name.as_str()).collect();
    assert_eq!(names, vec!["asset_id", "timestamp_ns", "price", "volume", "source", "schema_version"]);
    let nullable: Vec<bool> = s.fields.iter().map(|f| f.nullable).collect();
    assert_eq!(nullable, vec![false, false, false, true, false, false]);
    assert_eq!(data_type_text(&s.fields[4].data_type), "Dictionary(Int8, Utf8)");
    assert_eq!(data_type_text(&s.fields[0].data_type), "UInt32");
    assert_eq!(SCHEMA_VERSION, 1);
    assert_eq!(s.metadata, vec![(String::from("argus_schema_version"), String::from("1"))]);
}

#[test]
fn canonical_batch_validates() {
    assert!(validate_batch(&layout(canonical_schema(), Some(vec![Some(1), Some(1), Some(1)]))).is_ok());
    assert!(validate_batch(&layout(canonical_schema(), Some(vec![]))).is_ok());
}

#[test]
fn wrong_column_count_is_refused() {
    let mut s = canonical_schema();
    s.fields.pop();
    let msg = invalid_schema_message(validate_batch(&layout(s, Some(vec![]))));
    assert_eq!(msg, "expected 6 columns, got 5");
}

#[test]
fn wrong_field_name_is_refused() {
    let mut s = canonical_schema();
    s.fields[2].name = String::from("px");
    let msg = invalid_schema_message(validate_batch(&layout(s, Some(vec![Some(1)]))));
    assert_eq!(msg, "field 2: expected name 'price', got 'px'");
}

#[test]
fn wrong_field_type_is_refused() {
    let mut s = canonical_schema();
    s.fields[1].data_type = DataType::Other(String::from("Timestamp(Nanosecond, None)"));
    let msg = invalid_schema_message(validate_batch(&layout(s, Some(vec![Some(1)]))));
    assert_eq!(msg, "field 'timestamp_ns': expected type Int64, got Timestamp(Nanosecond, None)");
    let mut s2 = canonical_schema();
    s2.fields[4].data_type = DataType::Dictionary(Box::new(DataType::Int8), Box::new(DataType::Int64));
    let msg2 = invalid_schema_message(validate_batch(&layout(s2, Some(vec![]))));
    assert_eq!(msg2, "field 'source': expected type Dictionary(Int8, Utf8), got Dictionary(Int8, Int64)");
}

#[test]
fn first_failing_field_is_reported() {
    let mut s = canonical_schema();
    s.fields[3].data_type = DataType::Int8;
    s.fields[1].name = String::from("ts");
    let msg = invalid_schema_message(validate_batch(&layout(s, None)));
    assert_eq!(msg, "field 1: expected name 'timestamp_ns', got 'ts'");
}

#[test]
fn version_column_problems_are_refused() {
    let msg = invalid_schema_message(validate_batch(&layout(canonical_schema(), None)));
    assert_eq!(msg, "schema_version column is not UInt16");
    let msg2 = invalid_schema_message(validate_batch(&layout(canonical_schema(), Some(vec![Some(1), None]))));
    assert_eq!(msg2, "schema_version contains nulls");
    match validate_batch(&layout(canonical_schema(), Some(vec![Some(1), Some(2), None]))) {
        Err(ArgusError::SchemaVersionMismatch { expected, actual }) => {
            assert_eq!(expected, 1);
            assert_eq!(actual, 2);
        }
        other => panic!("unexpected result {other:?}"),
    }
}

#[test]
fn nullability_is_not_checked() {
    let mut s = canonical_schema();
    s.fields[0].nullable = true;
    assert!(validate_batch(&layout(s, Some(vec![Some(1)]))).is_ok());
}

#[test]
fn data_type_equality() {
    let d1 = DataType::Dictionary(Box::new(DataType::Int8), Box::new(DataType::Utf8));
    let d2 = DataType::Dictionary(Box::new(DataType::Int8), Box::new(DataType::Utf8));
    assert!(data_type_eq(&d1, &d2));
    assert!(!data_type_eq(&d1, &DataType::Utf8));
    assert!(data_type_eq(&DataType::Other(String::from("Null")), &DataType::Other(String::from("Null"))));
    assert!(!data_type_eq(&DataType::Other(String::from("Null")), &DataType::Other(String::from("Boolean"))));
    let f = Field { name: String::from("x"), data_type: DataType::Float64, nullable: true };
    assert_eq!(data_type_text(&f.data_type), "Float64");
}
