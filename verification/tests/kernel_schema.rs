use deltalake_core::column_mapping::with_mapping_metadata;
use deltalake_core::constraints::{invariant_of_node, GeneratedColumn, Invariant, KernelError};
use deltalake_core::json::{get_member, get_nested_string, parse_json, JsonValue};
use deltalake_core::schema::{
    first_repeated_name, same_data_type, ArrayType, DataType, MapType, MetadataColumnSpec, MetadataValue, PrimitiveType,
    SchemaError, StructField, StructType,
};
use deltalake_core::schema_ext::StructTypeExt;
use deltalake_core::strmap::StrMap;

fn integer() -> DataType {
    DataType::Primitive(PrimitiveType::Integer)
}

fn string() -> DataType {
    DataType::Primitive(PrimitiveType::String)
}

fn with_text(key: &str, value: &str) -> StrMap<MetadataValue> {
    let mut m = StrMap::new();
    m.insert(key.to_string(), MetadataValue::String(value.to_string()));
    m
}

fn field(name: &str, data_type: DataType, nullable: bool) -> StructField {
    StructField::new(name.to_string(), data_type, nullable)
}

/// The column ids and physical names of all fields, in pre-order.
fn mapping_of(fields: &[StructField], out: &mut Vec<(Option<i64>, Option<String>)>) {
    for f in fields {
        let id = match f.metadata().get("delta.columnMapping.id") {
            Some(MetadataValue::Number(n)) => Some(*n),
            _ => None,
        };
        let physical = match f.metadata().get("delta.columnMapping.physicalName") {
            Some(MetadataValue::String(s)) => Some(s.clone()),
            _ => None,
        };
        out.push((id, physical));
        if let DataType::Struct(inner) = f.data_type() {
            mapping_of(inner.fields(), out);
        }
    }
}

#[test]
fn test_get_generated_columns() {
    let schema = StructType::new(vec![field("id", integer(), true), field("gc", integer(), true)]);
    let cols = schema.get_generated_columns().unwrap();
    assert_eq!(cols.len(), 0);

    let schema = StructType::new(vec![
        field("id", integer(), true),
        field("gc", integer(), true).with_metadata(with_text("delta.generationExpression", "5")),
    ]);
    let cols = schema.get_generated_columns().unwrap();
    assert_eq!(cols.len(), 1);
    assert!(same_data_type(&cols[0].data_type, &integer()));
    assert_eq!(cols[0].validation_expr, "gc <=> 5");

    let schema = StructType::new(vec![
        field("id", integer(), true),
        field("gc", integer(), true).with_metadata(with_text("delta.generationExpression", "5")),
        field("id2", integer(), true).with_metadata(with_text("delta.generationExpression", "id * 10")),
    ]);
    let cols = schema.get_generated_columns().unwrap();
    assert_eq!(cols.len(), 2);
}

#[test]
fn test_get_invariants() {
    let schema = StructType::new(vec![field("x", string(), true)]);
    let invariants = schema.get_invariants().unwrap();
    assert_eq!(invariants.len(), 0);

    let schema = StructType::new(vec![
        field("x", integer(), true)
            .with_metadata(with_text("delta.invariants", "{\"expression\": { \"expression\": \"x > 2\"} }")),
        field("y", integer(), true)
            .with_metadata(with_text("delta.invariants", "{\"expression\": { \"expression\": \"y < 4\"} }")),
    ]);
    let invariants = schema.get_invariants().unwrap();
    assert_eq!(invariants.len(), 2);
    assert!(invariants.contains(&Invariant::new("x", "x > 2")));
    assert!(invariants.contains(&Invariant::new("y", "y < 4")));

    let d = field("d", integer(), false).with_metadata(with_text(
        "delta.invariants",
        "{\"expression\": { \"expression\": \"a_map.value.element.d < 4\"} }",
    ));
    let element = DataType::Struct(Box::new(StructType::new(vec![d])));
    let value = DataType::Array(Box::new(ArrayType { element_type: element, contains_null: false }));
    let map = DataType::MapOf(Box::new(MapType { key_type: string(), value_type: value, value_contains_null: false }));
    let schema = StructType::new(vec![field("a_map", map, false)]);
    let invariants = schema.get_invariants().unwrap();
    assert_eq!(invariants.len(), 1);
    assert_eq!(invariants[0], Invariant::new("a_map.value.element.d", "a_map.value.element.d < 4"));
}

/// <https://github.com/delta-io/delta-rs/issues/2152>
#[test]
fn test_identity_columns() {
    let buf = r#"{"type":"struct","fields":[{"name":"ID_D_DATE","type":"long","nullable":true,"metadata":{"delta.identity.start":1,"delta.identity.step":1,"delta.identity.allowExplicitInsert":false}},{"name":"TXT_DateKey","type":"string","nullable":true,"metadata":{}}]}"#;
    let _schema: delta_kernel::schema::StructType = serde_json::from_str(buf).expect("Failed to load");
}

#[test]
fn invalid_invariant_json_is_refused_with_its_text() {
    let schema = StructType::new(vec![
        field("x", integer(), true).with_metadata(with_text("delta.invariants", "{not json")),
    ]);
    match schema.get_invariants() {
        Err(KernelError::InvalidInvariantJson { line, .. }) => assert_eq!(line, "{not json"),
        other => panic!("expected an invalid invariant, got {:?}", other),
    }
}

#[test]
fn invariant_json_without_expression_adds_nothing() {
    let schema = StructType::new(vec![
        field("x", integer(), true).with_metadata(with_text("delta.invariants", "{\"other\": 1}")),
    ]);
    assert_eq!(schema.get_invariants().unwrap().len(), 0);
}

#[test]
fn nested_struct_invariants_use_dotted_paths() {
    let inner = field("b", integer(), true)
        .with_metadata(with_text("delta.invariants", "{\"expression\": { \"expression\": \"a.b > 0\"} }"));
    let schema = StructType::new(vec![field(
        "a",
        DataType::Struct(Box::new(StructType::new(vec![inner]))),
        true,
    )]);
    let invariants = schema.get_invariants().unwrap();
    assert_eq!(invariants, vec![Invariant::new("a.b", "a.b > 0")]);
}

#[test]
fn generated_columns_come_last_field_first() {
    let schema = StructType::new(vec![
        field("a", integer(), true).with_metadata(with_text("delta.generationExpression", "1")),
        field("b", string(), true).with_metadata(with_text("delta.generationExpression", "'x'")),
    ]);
    let cols = schema.get_generated_columns().unwrap();
    assert_eq!(cols.len(), 2);
    assert_eq!(cols[0].get_name(), "b");
    assert_eq!(cols[0].get_generation_expression(), "'x'");
    assert_eq!(cols[0].get_expression(), "b <=> 'x'");
    assert_eq!(cols[1].get_name(), "a");
}

#[test]
fn generated_column_new_builds_its_check() {
    let col = GeneratedColumn::new("total", "price * 2", &integer());
    assert_eq!(col.name, "total");
    assert_eq!(col.generation_expr, "price * 2");
    assert_eq!(col.validation_expr, "total <=> price * 2");
}

#[test]
fn invariant_accessors() {
    let inv = Invariant::new("x", "x > 2");
    assert_eq!(inv.get_name(), "x");
    assert_eq!(inv.get_expression(), "x > 2");
}

#[test]
fn column_mapping_numbers_fields_in_pre_order() {
    let inner = StructType::new(vec![field("c", integer(), true), field("d", integer(), true)]);
    let schema = StructType::new(vec![
        field("a", integer(), true),
        field("b", DataType::Struct(Box::new(inner)), true),
        field("e", string(), true),
    ]);
    assert_eq!(schema.column_mapping_field_count(), 5);
    let random: Vec<u128> = vec![0, 1, 2, 3, u128::MAX];
    let mapped = schema.with_column_mapping_metadata(&random).unwrap();
    let mut found = Vec::new();
    mapping_of(mapped.fields(), &mut found);
    let ids: Vec<Option<i64>> = found.iter().map(|(id, _)| *id).collect();
    assert_eq!(ids, vec![Some(1), Some(2), Some(3), Some(4), Some(5)]);
    let names: Vec<String> = found.into_iter().map(|(_, n)| n.expect("every field gets a physical name")).collect();
    assert_eq!(
        names,
        vec![
            "col-00000000-0000-4000-8000-000000000000",
            "col-00000000-0000-4000-8000-000000000001",
            "col-00000000-0000-4000-8000-000000000002",
            "col-00000000-0000-4000-8000-000000000003",
            "col-ffffffff-ffff-4fff-bfff-ffffffffffff",
        ]
    );
}

#[test]
fn column_mapping_refuses_names_equal_ignoring_case() {
    let inner = StructType::new(vec![field("x", integer(), true), field("X", integer(), true)]);
    let schema = StructType::new(vec![field("s", DataType::Struct(Box::new(inner)), true)]);
    match schema.with_column_mapping_metadata(&vec![7, 8, 9]) {
        Err(KernelError::Schema(SchemaError::DuplicateFieldName(_))) => {},
        other => panic!("expected a duplicate name, got {:?}", other.map(|_| ())),
    }
}

#[test]
fn logical_to_physical_mapping_skips_identity_names() {
    let mut same = StrMap::new();
    same.insert("delta.columnMapping.physicalName".to_string(), MetadataValue::String("a".to_string()));
    let schema = StructType::new(vec![
        field("a", integer(), true).with_metadata(same),
        field("b", integer(), true).with_metadata(with_text("delta.columnMapping.physicalName", "col-b")),
        field("c", integer(), true),
    ]);
    let mapping = schema.get_logical_to_physical_mapping();
    assert_eq!(mapping.len(), 1);
    assert_eq!(mapping.get("b").map(|s| s.as_str()), Some("col-b"));
    assert!(mapping.get("a").is_none());
}

#[test]
fn try_new_refuses_names_equal_ignoring_case() {
    let r = StructType::try_new(vec![field("Name", string(), true), field("name", string(), true)]);
    assert!(matches!(r, Err(SchemaError::DuplicateFieldName(_))));
    let ok = StructType::try_new(vec![field("a", string(), true), field("b", string(), true)]).unwrap();
    assert_eq!(ok.fields().len(), 2);
}

#[test]
fn struct_type_new_keeps_the_later_field_of_a_name_in_place() {
    let s = StructType::new(vec![field("a", integer(), true), field("b", integer(), true), field("a", string(), false)]);
    assert_eq!(s.fields().len(), 2);
    let a = s.field("a").unwrap();
    assert!(same_data_type(a.data_type(), &string()));
    assert!(!a.is_nullable());
    assert_eq!(s.fields()[1].name(), "b");
}

#[test]
fn first_repeated_name_finds_the_first_repeat() {
    let names = |v: &[&str]| v.iter().map(|s| s.to_string()).collect::<Vec<String>>();
    assert_eq!(first_repeated_name(&names(&["a", "b", "c"])), None);
    assert_eq!(first_repeated_name(&names(&["a", "b", "b", "a"])), Some(2));
    assert_eq!(first_repeated_name(&names(&[])), None);
}

#[test]
fn mapping_metadata_keeps_other_keys() {
    let md = with_text("comment", "hello");
    let out = with_mapping_metadata(&md, 4, "0000");
    assert!(matches!(out.get("delta.columnMapping.id"), Some(MetadataValue::Number(4))));
    match out.get("delta.columnMapping.physicalName") {
        Some(MetadataValue::String(s)) => assert_eq!(s, "col-0000"),
        _ => panic!("expected a physical name"),
    }
    assert!(matches!(out.get("comment"), Some(MetadataValue::String(s)) if s == "hello"));
}

#[test]
fn invariant_of_node_turns_the_reading_into_an_invariant() {
    let path = "a.b".to_string();
    let line = "{...}".to_string();
    let json = JsonValue::Object(vec![(
        "expression".to_string(),
        JsonValue::Object(vec![("expression".to_string(), JsonValue::String("a.b > 1".to_string()))]),
    )]);
    let inv = invariant_of_node(&path, &line, Ok(json)).unwrap();
    assert_eq!(inv, Some(Invariant::new("a.b", "a.b > 1")));
    assert_eq!(invariant_of_node(&path, &line, Ok(JsonValue::Null)).unwrap(), None);
    let not_a_string = JsonValue::Object(vec![(
        "expression".to_string(),
        JsonValue::Object(vec![("expression".to_string(), JsonValue::Number("1".to_string()))]),
    )]);
    assert_eq!(invariant_of_node(&path, &line, Ok(not_a_string)).unwrap(), None);
    let err = serde_json::from_str::<serde_json::Value>("{").unwrap_err();
    match invariant_of_node(&path, &line, Err(err)) {
        Err(KernelError::InvalidInvariantJson { line: l, .. }) => assert_eq!(l, "{...}"),
        _ => panic!("expected an invalid invariant"),
    }
}

#[test]
fn parse_json_converts_every_variant() {
    let v = parse_json("{\"b\": [1, true, null], \"a\": \"x\", \"n\": 2.5}").unwrap();
    match &v {
        JsonValue::Object(ms) => {
            assert_eq!(ms.len(), 3);
            assert_eq!(ms[0].0, "a");
            assert_eq!(ms[1].0, "b");
            assert_eq!(ms[2].0, "n");
            match &ms[1].1 {
                JsonValue::Array(items) => {
                    assert_eq!(items.len(), 3);
                    assert!(matches!(&items[0], JsonValue::Number(t) if t == "1"));
                    assert!(matches!(&items[1], JsonValue::Bool(true)));
                    assert!(matches!(&items[2], JsonValue::Null));
                }
                _ => panic!("expected an array"),
            }
            assert!(matches!(&ms[2].1, JsonValue::Number(t) if t == "2.5"));
        }
        _ => panic!("expected an object"),
    }
    assert!(matches!(get_member(&v, "a"), Some(JsonValue::String(s)) if s == "x"));
    assert!(get_member(&v, "z").is_none());
    assert!(get_member(&JsonValue::Null, "a").is_none());
    assert!(parse_json("{").is_err());
}

#[test]
fn nested_string_reads_two_levels() {
    let v = parse_json("{\"expression\": {\"expression\": \"x > 2\"}}").unwrap();
    assert_eq!(get_nested_string(&v, "expression").map(|s| s.as_str()), Some("x > 2"));
    let flat = parse_json("{\"expression\": \"x > 2\"}").unwrap();
    assert!(get_nested_string(&flat, "expression").is_none());
    let other = parse_json("{\"expression\": {\"other\": \"x\"}}").unwrap();
    assert!(get_nested_string(&other, "expression").is_none());
}

#[test]
fn field_constructors() {
    let f = StructField::not_null("a".to_string(), integer());
    assert!(!f.is_nullable());
    let g = StructField::nullable("b".to_string(), string());
    assert!(g.is_nullable());
    assert_eq!(g.name(), "b");
    assert!(g.metadata().is_empty());
}

#[test]
fn try_new_refuses_nested_and_repeated_metadata_columns() {
    let row_index = || with_text("delta.metadataSpec", "row_index");
    let ok = StructType::try_new(vec![
        field("a", integer(), true).with_metadata(row_index()),
        field("b", integer(), true).with_metadata(with_text("delta.metadataSpec", "_file")),
    ]);
    assert!(ok.is_ok());

    let inner = StructType::new(vec![field("x", integer(), true).with_metadata(row_index())]);
    let nested = StructType::try_new(vec![field("s", DataType::Struct(Box::new(inner)), true)]);
    assert!(matches!(nested, Err(SchemaError::NestedMetadataColumn)));

    let marked_struct = StructType::try_new(vec![field(
        "s",
        DataType::Struct(Box::new(StructType::new(vec![field("x", integer(), true)]))),
        true,
    )
    .with_metadata(row_index())]);
    assert!(matches!(marked_struct, Err(SchemaError::NestedMetadataColumn)));

    let twice = StructType::try_new(vec![
        field("a", integer(), true).with_metadata(row_index()),
        field("b", integer(), true).with_metadata(row_index()),
    ]);
    assert!(matches!(twice, Err(SchemaError::DuplicateMetadataColumn(MetadataColumnSpec::RowIndex))));

    let unknown = StructType::try_new(vec![
        field("a", integer(), true).with_metadata(with_text("delta.metadataSpec", "other")),
        field("b", integer(), true).with_metadata(with_text("delta.metadataSpec", "other")),
    ]);
    assert!(unknown.is_ok());

    let both = StructType::try_new(vec![
        field("a", integer(), true).with_metadata(row_index()),
        field("A", integer(), true).with_metadata(row_index()),
    ]);
    assert!(matches!(both, Err(SchemaError::DuplicateMetadataColumn(MetadataColumnSpec::RowIndex))));
}

#[test]
fn deeper_structs_are_left_to_their_own_construction() {
    let deep = StructType::new(vec![field("x", integer(), true).with_metadata(with_text("delta.metadataSpec", "row_id"))]);
    let middle = StructType::new(vec![field("d", DataType::Struct(Box::new(deep)), true)]);
    let top = StructType::try_new(vec![field("m", DataType::Struct(Box::new(middle)), true)]);
    assert!(top.is_ok());
    let in_array = ArrayType {
        element_type: DataType::Struct(Box::new(StructType::new(vec![
            field("x", integer(), true).with_metadata(with_text("delta.metadataSpec", "row_id")),
        ]))),
        contains_null: true,
    };
    let arr = StructType::try_new(vec![field("l", DataType::Array(Box::new(in_array)), true)]);
    assert!(matches!(arr, Err(SchemaError::NestedMetadataColumn)));
}
