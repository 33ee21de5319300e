use argus::error::{require_observations, ArgusError};
use argus::text::{push_decimal, push_signed_decimal};
use argus::types::{AssetId, TimestampNs};

#[test]
fn asset_id_display() {
    let id = AssetId(42);
    assert_eq!(id.to_string(), "Asset(42)");
}

#[test]
fn asset_id_accessors() {
    assert_eq!(AssetId(7).as_u32(), 7);
    assert_eq!(AssetId(0).to_string(), "Asset(0)");
    assert_eq!(AssetId(u32::MAX).to_string(), "Asset(4294967295)");
}

#[test]
fn timestamp_display_and_value() {
    assert_eq!(TimestampNs(1_500).as_nanos(), 1_500);
    assert_eq!(TimestampNs(1_500).to_string(), "1500ns");
    assert_eq!(TimestampNs(0).to_string(), "0ns");
    assert_eq!(TimestampNs(-42).to_string(), "-42ns");
    assert_eq!(TimestampNs(i64::MIN).to_string(), "-9223372036854775808ns");
    assert_eq!(TimestampNs(i64::MAX).to_string(), "9223372036854775807ns");
}

#[test]
fn decimal_rendering_appends() {
    let mut s = String::from("n=");
    push_decimal(&mut s, 1_000_000);
    assert_eq!(s, "n=1000000");
    let mut t = String::new();
    push_decimal(&mut t, u64::MAX);
    assert_eq!(t, "18446744073709551615");
    let mut u = String::from("[");
    push_signed_decimal(&mut u, -9);
    assert_eq!(u, "[-9");
}

#[test]
fn require_observations_reports_shortfall() {
    assert!(require_observations(2, 2).is_ok());
    assert!(require_observations(0, 0).is_ok());
    match require_observations(2, 1) {
        Err(ArgusError::InsufficientData { needed, have }) => {
            assert_eq!(needed, 2);
            assert_eq!(have, 1);
        }
        other => panic!("unexpected result {other:?}"),
    }
}

#[test]
fn error_messages() {
    assert_eq!(
        ArgusError::SchemaVersionMismatch { expected: 1, actual: 3 }.message(),
        "schema version mismatch: expected 1, got 3"
    );
    assert_eq!(
        ArgusError::InvalidParameter { name: "lambda", reason: String::from("too big") }.message(),
        "invalid parameter `lambda`: too big"
    );
    assert_eq!(
        ArgusError::InsufficientData { needed: 2, have: 0 }.message(),
        "insufficient data: need at least 2 observations, have 0"
    );
    assert_eq!(
        ArgusError::DataIngestion { source_name: String::from("yfinance"), detail: String::from("down") }.message(),
        "data ingestion error from yfinance: down"
    );
    assert_eq!(ArgusError::InvalidSchema(String::from("bad")).message(), "invalid schema: bad");
    let arrow = ArgusError::Arrow(arrow::error::ArrowError::ComputeError(String::from("x"))).message();
    assert!(arrow.starts_with("arrow error: "));
    assert!(arrow.len() > "arrow error: ".len());
}
