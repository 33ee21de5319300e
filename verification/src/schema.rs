//! The canonical tick schema and the validation of incoming batches against it.
//!
//! Batches arrive as Arrow record batches. Validation reads only the field list of a
//! batch and the values of its `schema_version` column; [`BatchLayout`] holds exactly
//! those, and [`DataType`] the column types, named and written as Arrow writes them.

use vstd::prelude::*;
use crate::error::ArgusError;
use crate::text::{decimal, push_decimal};

verus! {

/// The canonical schema version. Bumped on structural changes.
pub const SCHEMA_VERSION: u16 = 1;

/// The number of columns of the canonical schema.
pub const NUM_COLUMNS: usize = 6;

/// A column type.
#[derive(Debug)]
pub enum DataType {
    Int8,
    Int64,
    UInt16,
    UInt32,
    Float64,
    Utf8,
    /// A dictionary-encoded column: key type and value type.
    Dictionary(Box<DataType>, Box<DataType>),
    /// Any other type, by the text that Arrow writes for it.
    Other(String),
}

/// Two column types are the same: same variant, same parts, and for another type the
/// same text.
pub open spec fn same_type(a: DataType, b: DataType) -> bool
    decreases a,
{
    match a {
        DataType::Int8 => b is Int8,
        DataType::Int64 => b is Int64,
        DataType::UInt16 => b is UInt16,
        DataType::UInt32 => b is UInt32,
        DataType::Float64 => b is Float64,
        DataType::Utf8 => b is Utf8,
        DataType::Dictionary(ak, av) => match b {
            DataType::Dictionary(bk, bv) => same_type(*ak, *bk) && same_type(*av, *bv),
            _ => false,
        },
        DataType::Other(s) => match b {
            DataType::Other(t) => s@ == t@,
            _ => false,
        },
    }
}

/// The text of a column type, as Arrow displays it.
pub open spec fn type_text(t: DataType) -> Seq<char>
    decreases t,
{
    match t {
        DataType::Int8 => "Int8"@,
        DataType::Int64 => "Int64"@,
        DataType::UInt16 => "UInt16"@,
        DataType::UInt32 => "UInt32"@,
        DataType::Float64 => "Float64"@,
        DataType::Utf8 => "Utf8"@,
        DataType::Dictionary(k, v) => "Dictionary("@ + type_text(*k) + ", "@ + type_text(*v) + ")"@,
        DataType::Other(s) => s@,
    }
}

/// Whether two column types are the same.
pub fn data_type_eq(a: &DataType, b: &DataType) -> (r: bool)
    ensures
        r == same_type(*a, *b),
        r ==> type_text(*a) == type_text(*b),
    decreases a,
{
    proof {
        lemma_same_type_same_text(*a, *b);
    }
    match a {
        DataType::Int8 => matches!(b, DataType::Int8),
        DataType::Int64 => matches!(b, DataType::Int64),
        DataType::UInt16 => matches!(b, DataType::UInt16),
        DataType::UInt32 => matches!(b, DataType::UInt32),
        DataType::Float64 => matches!(b, DataType::Float64),
        DataType::Utf8 => matches!(b, DataType::Utf8),
        DataType::Dictionary(ak, av) => match b {
            DataType::Dictionary(bk, bv) => data_type_eq(ak, bk) && data_type_eq(av, bv),
            _ => false,
        },
        DataType::Other(s) => match b {
            DataType::Other(t) => *s == *t,
            _ => false,
        },
    }
}

fn push_type_text(out: &mut String, t: &DataType)
    ensures
        final(out)@ == old(out)@ + type_text(*t),
    decreases t,
{
    match t {
        DataType::Int8 => out.append("Int8"),
        DataType::Int64 => out.append("Int64"),
        DataType::UInt16 => out.append("UInt16"),
        DataType::UInt32 => out.append("UInt32"),
        DataType::Float64 => out.append("Float64"),
        DataType::Utf8 => out.append("Utf8"),
        DataType::Dictionary(k, v) => {
            out.append("Dictionary(");
            push_type_text(out, k);
            out.append(", ");
            push_type_text(out, v);
            out.append(")");
            assert(final(out)@ == old(out)@ + type_text(*t));
        },
        DataType::Other(s) => out.append(s.as_str()),
    }
}

/// Renders a column type as Arrow displays it.
pub fn data_type_text(t: &DataType) -> (s: String)
    ensures
        s@ == type_text(*t),
{
    let mut s = String::new();
    push_type_text(&mut s, t);
    s
}

/// A named, typed column of a schema.
#[derive(Debug)]
pub struct Field {
    pub name: String,
    pub data_type: DataType,
    pub nullable: bool,
}

/// An ordered list of fields and the schema-level metadata, as key-value pairs.
#[derive(Debug)]
pub struct Schema {
    pub fields: Vec<Field>,
    pub metadata: Vec<(String, String)>,
}

/// The parts of a record batch that validation reads: its schema, and the values of its
/// column at position 5 when that column holds `u16` values (`None` otherwise).
#[derive(Debug)]
pub struct BatchLayout {
    pub schema: Schema,
    pub schema_versions: Option<Vec<Option<u16>>>,
}

/// The name of canonical column `i`.
pub open spec fn canonical_name(i: int) -> Seq<char> {
    if i == 0 {
        "asset_id"@
    } else if i == 1 {
        "timestamp_ns"@
    } else if i == 2 {
        "price"@
    } else if i == 3 {
        "volume"@
    } else if i == 4 {
        "source"@
    } else {
        "schema_version"@
    }
}

/// The type of canonical column `i`.
pub open spec fn canonical_type(i: int) -> DataType {
    if i == 0 {
        DataType::UInt32
    } else if i == 1 {
        DataType::Int64
    } else if i == 2 {
        DataType::Float64
    } else if i == 3 {
        DataType::Float64
    } else if i == 4 {
        DataType::Dictionary(Box::new(DataType::Int8), Box::new(DataType::Utf8))
    } else {
        DataType::UInt16
    }
}

/// Whether canonical column `i` may hold nulls: only the volume may.
pub open spec fn canonical_nullable(i: int) -> bool {
    i == 3
}

fn canonical_field(i: usize) -> (f: Field)
    requires
        i < NUM_COLUMNS,
    ensures
        f.name@ == canonical_name(i as int),
        f.data_type == canonical_type(i as int),
        f.nullable == canonical_nullable(i as int),
{
    if i == 0 {
        Field { name: String::from_str("asset_id"), data_type: DataType::UInt32, nullable: false }
    } else if i == 1 {
        Field { name: String::from_str("timestamp_ns"), data_type: DataType::Int64, nullable: false }
    } else if i == 2 {
        Field { name: String::from_str("price"), data_type: DataType::Float64, nullable: false }
    } else if i == 3 {
        Field { name: String::from_str("volume"), data_type: DataType::Float64, nullable: true }
    } else if i == 4 {
        Field {
            name: String::from_str("source"),
            data_type: DataType::Dictionary(Box::new(DataType::Int8), Box::new(DataType::Utf8)),
            nullable: false,
        }
    } else {
        Field { name: String::from_str("schema_version"), data_type: DataType::UInt16, nullable: false }
    }
}

/// Returns the canonical schema of normalized tick data: `asset_id: UInt32`,
/// `timestamp_ns: Int64`, `price: Float64`, `volume: Float64` (nullable),
/// `source: Dictionary(Int8, Utf8)`, `schema_version: UInt16`, with the schema-level
/// metadata `{"argus_schema_version": "1"}`.
pub fn canonical_schema() -> (s: Schema)
    ensures
        s.metadata@.len() == 1,
        s.metadata@[0].0@ == "argus_schema_version"@,
        s.metadata@[0].1@ == "1"@,
        s.fields@.len() == NUM_COLUMNS,
        forall|i: int|
            0 <= i < NUM_COLUMNS ==> {
                &&& (#[trigger] s.fields@[i]).name@ == canonical_name(i)
                &&& s.fields@[i].data_type == canonical_type(i)
                &&& s.fields@[i].nullable == canonical_nullable(i)
            },
        s.fields@[0].name@ == "asset_id"@ && s.fields@[0].data_type == DataType::UInt32 && !s.fields@[0].nullable,
        s.fields@[1].name@ == "timestamp_ns"@ && s.fields@[1].data_type == DataType::Int64 && !s.fields@[1].nullable,
        s.fields@[2].name@ == "price"@ && s.fields@[2].data_type == DataType::Float64 && !s.fields@[2].nullable,
        s.fields@[3].name@ == "volume"@ && s.fields@[3].data_type == DataType::Float64 && s.fields@[3].nullable,
        s.fields@[4].name@ == "source"@ && s.fields@[4].data_type == DataType::Dictionary(
            Box::new(DataType::Int8),
            Box::new(DataType::Utf8),
        ) && !s.fields@[4].nullable,
        s.fields@[5].name@ == "schema_version"@ && s.fields@[5].data_type == DataType::UInt16
            && !s.fields@[5].nullable,
{
    let mut fields: Vec<Field> = Vec::new();
    let mut i: usize = 0;
    while i < NUM_COLUMNS
        invariant
            i <= NUM_COLUMNS,
            fields@.len() == i,
            forall|k: int|
                0 <= k < i ==> {
                    &&& (#[trigger] fields@[k]).name@ == canonical_name(k)
                    &&& fields@[k].data_type == canonical_type(k)
                    &&& fields@[k].nullable == canonical_nullable(k)
                },
        decreases NUM_COLUMNS - i,
    {
        fields.push(canonical_field(i));
        i = i + 1;
    }
    proof {
        lemma_canonical_columns();
    }
    let mut metadata: Vec<(String, String)> = Vec::new();
    metadata.push((String::from_str("argus_schema_version"), String::from_str("1")));
    Schema { fields, metadata }
}

/// Field `f` matches canonical column `i` in name and type (nullability is not checked).
pub open spec fn field_matches(f: Field, i: int) -> bool {
    f.name@ == canonical_name(i) && same_type(f.data_type, canonical_type(i))
}

/// The fields of `s` match the canonical columns one by one.
pub open spec fn schema_matches(s: Schema) -> bool {
    &&& s.fields@.len() == NUM_COLUMNS
    &&& forall|i: int| 0 <= i < NUM_COLUMNS ==> field_matches(#[trigger] s.fields@[i], i)
}

/// A batch conforms: its schema matches the canonical one and every value of its
/// `schema_version` column is present and equal to [`SCHEMA_VERSION`].
pub open spec fn batch_conforms(b: BatchLayout) -> bool {
    &&& schema_matches(b.schema)
    &&& b.schema_versions is Some
    &&& forall|m: int|
        0 <= m < b.schema_versions->0@.len() ==> #[trigger] b.schema_versions->0@[m] == Some(
            SCHEMA_VERSION,
        )
}

/// The message for a wrong number of columns.
pub open spec fn column_count_message(actual: nat) -> Seq<char> {
    "expected "@ + decimal(NUM_COLUMNS as nat) + " columns, got "@ + decimal(actual)
}

/// The message for a wrong field name at position `i`.
pub open spec fn field_name_message(i: nat, actual: Seq<char>) -> Seq<char> {
    "field "@ + decimal(i) + ": expected name '"@ + canonical_name(i as int) + "', got '"@ + actual
        + "'"@
}

/// The message for a wrong field type at position `i`.
pub open spec fn field_type_message(i: int, actual: DataType) -> Seq<char> {
    "field '"@ + canonical_name(i) + "': expected type "@ + type_text(canonical_type(i)) + ", got "@
        + type_text(actual)
}

/// Validates a batch against the canonical schema, checking in order: the number of
/// columns; then, column by column, the name and the type; then that the
/// `schema_version` column holds `u16` values; then, row by row, that each version is
/// present and equal to [`SCHEMA_VERSION`]. The first failed check gives the error.
pub fn validate_batch(batch: &BatchLayout) -> (r: Result<(), ArgusError>)
    ensures
        r is Ok <==> batch_conforms(*batch),
        r is Ok <==> columns_are_canonical(*batch),
        batch.schema.fields@.len() != NUM_COLUMNS ==> (r matches Err(ArgusError::InvalidSchema(msg))
            && msg@ == column_count_message(batch.schema.fields@.len())),
        batch.schema.fields@.len() == NUM_COLUMNS ==> forall|k: int|
            0 <= k < NUM_COLUMNS && (forall|i: int| 0 <= i < k ==> field_matches(#[trigger] batch.schema.fields@[i], i))
                && !field_matches(#[trigger] batch.schema.fields@[k], k) ==> {
                let f = batch.schema.fields@[k];
                if f.name@ != canonical_name(k) {
                    r matches Err(ArgusError::InvalidSchema(msg)) && msg@ == field_name_message(
                        k as nat,
                        f.name@,
                    )
                } else {
                    r matches Err(ArgusError::InvalidSchema(msg)) && msg@ == field_type_message(
                        k,
                        f.data_type,
                    )
                }
            },
        (schema_matches(batch.schema) && batch.schema_versions is None) ==> (r matches Err(
            ArgusError::InvalidSchema(msg),
        ) && msg@ == "schema_version column is not UInt16"@),
        (schema_matches(batch.schema) && batch.schema_versions is Some) ==> forall|m: int|
            0 <= m < batch.schema_versions->0@.len() && (forall|l: int|
                0 <= l < m ==> #[trigger] batch.schema_versions->0@[l] == Some(SCHEMA_VERSION))
                && #[trigger] batch.schema_versions->0@[m] != Some(SCHEMA_VERSION) ==> {
                match batch.schema_versions->0@[m] {
                    None => r matches Err(ArgusError::InvalidSchema(msg)) && msg@
                        == "schema_version contains nulls"@,
                    Some(v) => r matches Err(ArgusError::SchemaVersionMismatch { expected, actual })
                        && expected == SCHEMA_VERSION && actual == v,
                }
            },
{
    proof {
        lemma_conforming_batch_layout(*batch);
    }
    let fields = &batch.schema.fields;
    if fields.len() != NUM_COLUMNS {
        let mut msg = String::new();
        msg.append("expected ");
        push_decimal(&mut msg, NUM_COLUMNS as u64);
        msg.append(" columns, got ");
        push_decimal(&mut msg, fields.len() as u64);
        return Err(ArgusError::InvalidSchema(msg));
    }
    let expected = canonical_schema();
    let mut i: usize = 0;
    while i < NUM_COLUMNS
        invariant
            i <= NUM_COLUMNS,
            fields@.len() == NUM_COLUMNS,
            fields == &batch.schema.fields,
            batch_conforms(*batch) <==> columns_are_canonical(*batch),
            expected.fields@.len() == NUM_COLUMNS,
            forall|k: int|
                0 <= k < NUM_COLUMNS ==> {
                    &&& (#[trigger] expected.fields@[k]).name@ == canonical_name(k)
                    &&& expected.fields@[k].data_type == canonical_type(k)
                },
            forall|k: int| 0 <= k < i ==> field_matches(#[trigger] fields@[k], k),
        decreases NUM_COLUMNS - i,
    {
        let actual_field = &fields[i];
        let expected_field = &expected.fields[i];
        if actual_field.name != expected_field.name {
            let mut msg = String::new();
            msg.append("field ");
            push_decimal(&mut msg, i as u64);
            msg.append(": expected name '");
            msg.append(expected_field.name.as_str());
            msg.append("', got '");
            msg.append(actual_field.name.as_str());
            msg.append("'");
            proof {
                assert(!field_matches(fields@[i as int], i as int));
            }
            return Err(ArgusError::InvalidSchema(msg));
        }
        if !data_type_eq(&actual_field.data_type, &expected_field.data_type) {
            let mut msg = String::new();
            msg.append("field '");
            msg.append(expected_field.name.as_str());
            msg.append("': expected type ");
            push_type_text(&mut msg, &expected_field.data_type);
            msg.append(", got ");
            push_type_text(&mut msg, &actual_field.data_type);
            proof {
                assert(!field_matches(fields@[i as int], i as int));
            }
            return Err(ArgusError::InvalidSchema(msg));
        }
        i = i + 1;
    }
    assert(schema_matches(batch.schema));
    match &batch.schema_versions {
        None => {
            let msg = String::from_str("schema_version column is not UInt16");
            Err(ArgusError::InvalidSchema(msg))
        },
        Some(versions) => {
            let mut m: usize = 0;
            while m < versions.len()
                invariant
                    m <= versions@.len(),
                    schema_matches(batch.schema),
                    batch_conforms(*batch) <==> columns_are_canonical(*batch),
                    batch.schema_versions == Some(*versions),
                    forall|l: int| 0 <= l < m ==> #[trigger] versions@[l] == Some(SCHEMA_VERSION),
                decreases versions@.len() - m,
            {
                match versions[m] {
                    None => {
                        let msg = String::from_str("schema_version contains nulls");
                        return Err(ArgusError::InvalidSchema(msg));
                    },
                    Some(v) => {
                        if v != SCHEMA_VERSION {
                            return Err(ArgusError::SchemaVersionMismatch { expected: SCHEMA_VERSION, actual: v });
                        }
                    },
                }
                m = m + 1;
            }
            Ok(())
        },
    }
}

/// The canonical schema matches itself: a batch laid out on the canonical schema whose
/// version column holds [`SCHEMA_VERSION`] in every row passes validation.
pub proof fn lemma_canonical_batch_conforms(b: BatchLayout)
    requires
        b.schema.fields@.len() == NUM_COLUMNS,
        forall|i: int|
            0 <= i < NUM_COLUMNS ==> {
                &&& (#[trigger] b.schema.fields@[i]).name@ == canonical_name(i)
                &&& b.schema.fields@[i].data_type == canonical_type(i)
            },
        b.schema_versions is Some,
        forall|m: int|
            0 <= m < b.schema_versions->0@.len() ==> #[trigger] b.schema_versions->0@[m] == Some(
                SCHEMA_VERSION,
            ),
    ensures
        batch_conforms(b),
{
    assert forall|i: int| 0 <= i < NUM_COLUMNS implies field_matches(#[trigger] b.schema.fields@[i], i) by {
        let t = canonical_type(i);
        if i == 4 {
            assert(same_type(*Box::new(DataType::Int8), *Box::new(DataType::Int8)));
            assert(same_type(*Box::new(DataType::Utf8), *Box::new(DataType::Utf8)));
        }
    }
}

/// The canonical columns, one by one: `asset_id: UInt32`, `timestamp_ns: Int64`,
/// `price: Float64`, `volume: Float64` (the only nullable one), `source:
/// Dictionary(Int8, Utf8)` and `schema_version: UInt16`.
pub proof fn lemma_canonical_columns()
    ensures
        canonical_name(0) == "asset_id"@ && canonical_type(0) == DataType::UInt32 && !canonical_nullable(0),
        canonical_name(1) == "timestamp_ns"@ && canonical_type(1) == DataType::Int64 && !canonical_nullable(1),
        canonical_name(2) == "price"@ && canonical_type(2) == DataType::Float64 && !canonical_nullable(2),
        canonical_name(3) == "volume"@ && canonical_type(3) == DataType::Float64 && canonical_nullable(3),
        canonical_name(4) == "source"@ && canonical_type(4) == DataType::Dictionary(
            Box::new(DataType::Int8),
            Box::new(DataType::Utf8),
        ) && !canonical_nullable(4),
        canonical_name(5) == "schema_version"@ && canonical_type(5) == DataType::UInt16
            && !canonical_nullable(5),
{
}

/// Two types found the same are written the same: a dictionary type matches another
/// only when both its key and its value types do.
pub proof fn lemma_same_type_same_text(a: DataType, b: DataType)
    ensures
        same_type(a, b) ==> type_text(a) == type_text(b),
    decreases a,
{
    match a {
        DataType::Dictionary(ak, av) => match b {
            DataType::Dictionary(bk, bv) => {
                lemma_same_type_same_text(*ak, *bk);
                lemma_same_type_same_text(*av, *bv);
            },
            _ => {},
        },
        _ => {},
    }
}

/// The columns of a batch are exactly the canonical ones, each with its name and its
/// type (nullable columns included), and every row's schema version is present and
/// equal to [`SCHEMA_VERSION`].
pub open spec fn columns_are_canonical(b: BatchLayout) -> bool {
    let f = b.schema.fields@;
    &&& f.len() == 6
    &&& f[0].name@ == "asset_id"@ && f[0].data_type == DataType::UInt32
    &&& f[1].name@ == "timestamp_ns"@ && f[1].data_type == DataType::Int64
    &&& f[2].name@ == "price"@ && f[2].data_type == DataType::Float64
    &&& f[3].name@ == "volume"@ && f[3].data_type == DataType::Float64
    &&& f[4].name@ == "source"@ && f[4].data_type == DataType::Dictionary(
        Box::new(DataType::Int8),
        Box::new(DataType::Utf8),
    )
    &&& f[5].name@ == "schema_version"@ && f[5].data_type == DataType::UInt16
    &&& b.schema_versions is Some
    &&& forall|m: int|
        0 <= m < b.schema_versions->0@.len() ==> #[trigger] b.schema_versions->0@[m] == Some(1u16)
}

/// A batch conforms exactly when its six columns have, in order, the canonical names
/// and exactly the canonical types (a dictionary with another key type, or a volume of
/// another type, does not), and every schema version is present and equal to 1.
pub proof fn lemma_conforming_batch_layout(b: BatchLayout)
    ensures
        batch_conforms(b) <==> columns_are_canonical(b),
{
    lemma_canonical_columns();
    let f = b.schema.fields@;
    if batch_conforms(b) {
        assert(field_matches(f[0], 0));
        assert(field_matches(f[1], 1));
        assert(field_matches(f[2], 2));
        assert(field_matches(f[3], 3));
        assert(field_matches(f[4], 4));
        assert(field_matches(f[5], 5));
        match f[4].data_type {
            DataType::Dictionary(k, v) => {
                assert(same_type(*k, DataType::Int8));
                assert(same_type(*v, DataType::Utf8));
                assert(*k == DataType::Int8);
                assert(*v == DataType::Utf8);
            },
            _ => {},
        }
    }
    if columns_are_canonical(b) {
        assert(same_type(DataType::Int8, DataType::Int8));
        assert(same_type(DataType::Utf8, DataType::Utf8));
        assert forall|i: int| 0 <= i < NUM_COLUMNS implies field_matches(#[trigger] f[i], i) by {
            if i == 4 {
                assert(same_type(*Box::new(DataType::Int8), *Box::new(DataType::Int8)));
                assert(same_type(*Box::new(DataType::Utf8), *Box::new(DataType::Utf8)));
            }
        }
    }
}

} // verus!
