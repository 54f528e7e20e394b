use deltalake_core::constraints::GeneratedColumn;
use deltalake_core::generated_columns::{able_to_gc, add_column_mapping_metadata, get_max_column_id, missing_generated_columns};
use deltalake_core::schema::{DataType, MetadataValue, PrimitiveType, StructField, StructType};
use deltalake_core::strmap::StrMap;
use deltalake_core::table::{DeltaTableState, Protocol, TableFeature};

fn field(name: &str) -> StructField {
    StructField::new(name.to_string(), DataType::Primitive(PrimitiveType::Integer), true)
}

fn with_id(f: StructField, id: i64) -> StructField {
    let mut md = StrMap::new();
    md.insert("delta.columnMapping.id".to_string(), MetadataValue::Number(id));
    f.with_metadata(md)
}

fn snapshot(min_writer_version: i32, writer_features: Option<Vec<TableFeature>>) -> DeltaTableState {
    DeltaTableState {
        configuration: StrMap::new(),
        protocol: Protocol { min_reader_version: 1, min_writer_version, reader_features: None, writer_features },
        schema: StructType::new(vec![]),
    }
}

fn metadata_of(f: &StructField) -> (Option<i64>, Option<String>) {
    let id = match f.metadata().get("delta.columnMapping.id") {
        Some(MetadataValue::Number(n)) => Some(*n),
        _ => None,
    };
    let physical = match f.metadata().get("delta.columnMapping.physicalName") {
        Some(MetadataValue::String(s)) => Some(s.clone()),
        _ => None,
    };
    (id, physical)
}

#[test]
fn able_to_gc_follows_the_writer_version_and_features() {
    assert!(!able_to_gc(&snapshot(2, None)).unwrap());
    assert!(!able_to_gc(&snapshot(3, None)).unwrap());
    assert!(!able_to_gc(&snapshot(3, Some(vec![]))).unwrap());
    assert!(able_to_gc(&snapshot(4, None)).unwrap());
    assert!(!able_to_gc(&snapshot(7, None)).unwrap());
    assert!(able_to_gc(&snapshot(4, Some(vec![]))).unwrap());
    assert!(!able_to_gc(&snapshot(7, Some(vec![TableFeature::AppendOnly]))).unwrap());
    assert!(able_to_gc(&snapshot(7, Some(vec![TableFeature::GeneratedColumns]))).unwrap());
}

#[test]
fn max_column_id_is_the_largest_number() {
    assert_eq!(get_max_column_id(&StructType::new(vec![field("a")])), 0);
    let s = StructType::new(vec![with_id(field("a"), 3), field("b"), with_id(field("c"), 11), with_id(field("d"), 5)]);
    assert_eq!(get_max_column_id(&s), 11);
    let mut md = StrMap::new();
    md.insert("delta.columnMapping.id".to_string(), MetadataValue::String("99".to_string()));
    assert_eq!(get_max_column_id(&StructType::new(vec![field("a").with_metadata(md)])), 0);
}

#[test]
fn first_time_numbers_from_one_and_keeps_existing_ids() {
    let s = StructType::new(vec![with_id(field("a"), 7), field("b"), field("c")]);
    let out = add_column_mapping_metadata(s, true).unwrap();
    let md: Vec<_> = out.fields().iter().map(metadata_of).collect();
    assert_eq!(md[0], (Some(7), Some("col-7".to_string())));
    assert_eq!(md[1], (Some(1), Some("col-1".to_string())));
    assert_eq!(md[2], (Some(2), Some("col-2".to_string())));
}

#[test]
fn later_times_number_past_the_largest_id() {
    let s = StructType::new(vec![with_id(field("a"), 7), field("b")]);
    let out = add_column_mapping_metadata(s, false).unwrap();
    let md: Vec<_> = out.fields().iter().map(metadata_of).collect();
    assert_eq!(md[1], (Some(8), Some("col-8".to_string())));
}

#[test]
fn adding_mapping_metadata_twice_changes_nothing() {
    let s = StructType::new(vec![with_id(field("a"), 2), field("b")]);
    let once = add_column_mapping_metadata(s, true).unwrap();
    let first: Vec<_> = once.fields().iter().map(metadata_of).collect();
    let twice = add_column_mapping_metadata(once, false).unwrap();
    let second: Vec<_> = twice.fields().iter().map(metadata_of).collect();
    assert_eq!(first, second);
}

#[test]
fn ids_near_the_limit_are_fine_where_none_is_handed_out() {
    let s = StructType::new(vec![with_id(field("a"), i64::MAX - 1), with_id(field("b"), 3)]);
    let once = add_column_mapping_metadata(s, false).unwrap();
    let got: Vec<_> = once.fields().iter().map(metadata_of).collect();
    assert_eq!(
        got,
        vec![
            (Some(i64::MAX - 1), Some(format!("col-{}", i64::MAX - 1))),
            (Some(3), Some("col-3".to_string())),
        ]
    );
    let twice = add_column_mapping_metadata(once, false).unwrap();
    let again: Vec<_> = twice.fields().iter().map(metadata_of).collect();
    assert_eq!(got, again);
}

#[test]
fn generated_columns_missing_from_the_source() {
    let int = DataType::Primitive(PrimitiveType::Integer);
    let cols = vec![
        GeneratedColumn::new("a", "id + 1", &int),
        GeneratedColumn::new("b", "id * 2", &int),
        GeneratedColumn::new("c", "5", &int),
        GeneratedColumn::new("b", "id * 3", &int),
    ];
    let source = vec!["id".to_string(), "a".to_string()];
    assert_eq!(missing_generated_columns(&cols, &source), vec!["b".to_string(), "c".to_string()]);
    assert!(missing_generated_columns(&cols, &vec!["a".to_string(), "b".to_string(), "c".to_string()]).is_empty());
}
