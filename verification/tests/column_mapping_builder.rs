use deltalake_core::column_mapping_builder::ColumnMappingBuilder;
use deltalake_core::schema::{DataType, MetadataValue, PrimitiveType, StructField, StructType};
use deltalake_core::strmap::StrMap;
use deltalake_core::table::{ColumnMappingMode, DeltaTableState, Protocol, TableFeature};

fn field(name: &str) -> StructField {
    StructField::new(name.to_string(), DataType::Primitive(PrimitiveType::Integer), true)
}

fn state(config: &[(&str, &str)], fields: Vec<StructField>) -> DeltaTableState {
    let mut configuration = StrMap::new();
    for (k, v) in config {
        configuration.insert(k.to_string(), Some(v.to_string()));
    }
    DeltaTableState {
        configuration,
        protocol: Protocol {
            min_reader_version: 1,
            min_writer_version: 2,
            reader_features: Some(vec![TableFeature::DeletionVectors]),
            writer_features: None,
        },
        schema: StructType::new(fields),
    }
}

fn builder(config: &[(&str, &str)], fields: Vec<StructField>) -> ColumnMappingBuilder<(), ()> {
    ColumnMappingBuilder::new((), state(config, fields))
}

fn metadata_of(f: &StructField) -> (Option<i64>, Option<String>) {
    let id = match f.metadata().get("delta.columnMapping.id") {
        Some(MetadataValue::Number(n)) => Some(*n),
        _ => None,
    };
    let physical = match f.metadata().get("delta.columnMapping.physicalName") {
        Some(MetadataValue::String(s)) => Some(s.clone()),
        _ => None,
    };
    (id, physical)
}

#[test]
fn test_column_mapping_builder_creation() {
    let b = builder(&[], vec![field("a")]);
    assert!(b.mode.is_none());
    assert!(b.rename_columns.is_empty());
    assert!(b.drop_columns.is_empty());
    assert!(b.custom_execute_handler.is_none());
    let b = b
        .with_mode(ColumnMappingMode::Id)
        .with_rename_column("a".to_string(), "b".to_string())
        .with_drop_column("c".to_string())
        .with_custom_execute_handler(());
    assert_eq!(b.mode, Some(ColumnMappingMode::Id));
    assert_eq!(b.rename_columns.len(), 1);
    assert_eq!(b.drop_columns, vec!["c".to_string()]);
}

#[test]
fn test_column_mapping() {
    let plan = builder(&[], vec![field("a"), field("b")]).plan().unwrap().expect("mapping is turned on");
    assert_eq!(plan.configuration.get("delta.columnMapping.mode"), Some(&Some("name".to_string())));
    assert_eq!(plan.configuration.get("delta.columnMapping.maxColumnId"), Some(&Some("15".to_string())));
    assert_eq!((plan.protocol.min_reader_version, plan.protocol.min_writer_version), (2, 5));
    assert!(matches!(plan.protocol.reader_features.as_deref(), Some([TableFeature::ColumnMapping])));
    assert!(matches!(plan.protocol.writer_features.as_deref(), Some([TableFeature::ColumnMapping])));
    let fields = plan.schema.fields();
    assert_eq!(metadata_of(&fields[0]), (Some(1), Some("col-1".to_string())));
    assert_eq!(metadata_of(&fields[1]), (Some(2), Some("col-2".to_string())));
    assert_eq!(plan.properties.get("delta.columnMapping.mode").map(|s| s.as_str()), Some("name"));
    assert_eq!(plan.properties.get("delta.columnMapping.maxColumnId").map(|s| s.as_str()), Some("15"));
}

#[test]
fn id_mode_is_recorded_as_id() {
    let plan = builder(&[], vec![field("a")]).with_mode(ColumnMappingMode::Id).plan().unwrap().unwrap();
    assert_eq!(plan.configuration.get("delta.columnMapping.mode"), Some(&Some("id".to_string())));
}

#[test]
fn no_change_when_mapping_is_on_or_not_asked() {
    assert!(builder(&[("delta.columnMapping.mode", "name")], vec![field("a")]).plan().unwrap().is_none());
    assert!(builder(&[("delta.columnMapping.mode", "id")], vec![field("a")]).plan().unwrap().is_none());
    assert!(builder(&[], vec![field("a")]).with_mode(ColumnMappingMode::NoMapping).plan().unwrap().is_none());
    assert!(builder(&[("delta.columnMapping.mode", "other")], vec![field("a")]).plan().unwrap().is_some());
}

#[test]
fn recorded_max_column_id_is_kept() {
    let b = builder(&[("delta.columnMapping.maxColumnId", "42")], vec![field("a")]);
    assert_eq!(b.get_max_column_id().unwrap(), 42);
    let plan = b.plan().unwrap().unwrap();
    assert_eq!(plan.configuration.get("delta.columnMapping.maxColumnId"), Some(&Some("42".to_string())));
    let b = builder(&[("delta.columnMapping.maxColumnId", "not a number")], vec![field("a")]);
    assert_eq!(b.get_max_column_id().unwrap(), 15);
    let b = builder(&[("delta.columnMapping.maxColumnId", "-7")], vec![field("a")]);
    assert_eq!(b.get_max_column_id().unwrap(), -7);
    let b = builder(&[("delta.columnMapping.maxColumnId", "99999999999999999999")], vec![field("a")]);
    assert_eq!(b.get_max_column_id().unwrap(), 15);
}

#[test]
fn existing_ids_are_kept_and_physical_names_follow_the_last_id() {
    let mut md = StrMap::new();
    md.insert("delta.columnMapping.id".to_string(), MetadataValue::Number(9));
    let b = builder(&[], vec![field("a").with_metadata(md), field("b")]);
    let s = b.add_column_mapping_metadata(&b.snapshot.schema, ColumnMappingMode::Name).unwrap();
    assert_eq!(metadata_of(&s.fields()[0]), (Some(9), Some("col-0".to_string())));
    assert_eq!(metadata_of(&s.fields()[1]), (Some(1), Some("col-1".to_string())));
}

#[test]
fn turning_mapping_on_twice_changes_nothing_the_second_time() {
    let plan = builder(&[("delta.columnMapping.maxColumnId", "4")], vec![field("a")]).plan().unwrap().unwrap();
    let again = ColumnMappingBuilder::<(), ()>::new((), DeltaTableState {
        configuration: plan.configuration,
        protocol: plan.protocol,
        schema: plan.schema,
    });
    assert_eq!(again.get_max_column_id().unwrap(), 4);
    assert!(again.with_mode(ColumnMappingMode::Id).plan().unwrap().is_none());
}
