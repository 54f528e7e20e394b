use deltalake_core::errors::DeltaTableError;
use deltalake_core::schema::{
    same_data_type, DataType, MetadataValue, PrimitiveType, StructField, StructType,
};
use deltalake_core::schema_evolution::{
    SchemaAwareMergeBuilder, SchemaAwareWriteBuilder, SchemaEvolutionBuilder, SchemaMode,
};
use deltalake_core::strmap::StrMap;
use deltalake_core::table::{DeltaTableState, Protocol, TableFeature};

fn prim(p: PrimitiveType) -> DataType {
    DataType::Primitive(p)
}

fn field(name: &str, p: PrimitiveType, nullable: bool) -> StructField {
    StructField::new(name.to_string(), prim(p), nullable)
}

fn mapped_field(name: &str, p: PrimitiveType, id: i64) -> StructField {
    let mut md = StrMap::new();
    md.insert("delta.columnMapping.id".to_string(), MetadataValue::Number(id));
    md.insert("delta.columnMapping.physicalName".to_string(), MetadataValue::String(format!("col-{}", id)));
    field(name, p, true).with_metadata(md)
}

fn protocol() -> Protocol {
    Protocol { min_reader_version: 1, min_writer_version: 2, reader_features: None, writer_features: None }
}

fn state(fields: Vec<StructField>, mode: Option<&str>) -> DeltaTableState {
    let mut configuration = StrMap::new();
    if let Some(m) = mode {
        configuration.insert("delta.columnMapping.mode".to_string(), Some(m.to_string()));
    }
    DeltaTableState { configuration, protocol: protocol(), schema: StructType::new(fields) }
}

fn builder(fields: Vec<StructField>, mode: Option<&str>) -> SchemaEvolutionBuilder<(), ()> {
    SchemaEvolutionBuilder::new((), state(fields, mode))
}

fn id_of(f: &StructField) -> Option<i64> {
    match f.metadata().get("delta.columnMapping.id") {
        Some(MetadataValue::Number(n)) => Some(*n),
        _ => None,
    }
}

fn physical_of(f: &StructField) -> Option<String> {
    match f.metadata().get("delta.columnMapping.physicalName") {
        Some(MetadataValue::String(s)) => Some(s.clone()),
        _ => None,
    }
}

fn names(s: &StructType) -> Vec<String> {
    s.fields().iter().map(|f| f.name().clone()).collect()
}

#[test]
fn new_builder_changes_nothing() {
    let b = builder(vec![field("id", PrimitiveType::Integer, false)], None);
    assert!(b.new_columns.is_empty());
    assert!(!b.enable_column_mapping);
    assert_eq!(b.commit_properties.max_retries, 15);
    assert!(b.commit_properties.create_checkpoint);
    let plan = b.plan().unwrap();
    assert_eq!(names(&plan.schema), vec!["id"]);
    assert_eq!(plan.protocol.min_writer_version, 2);
    assert!(plan.configuration.is_empty());
}

#[test]
fn test_unsafe_schema_changes_fail_gracefully() {
    let b = builder(
        vec![field("id", PrimitiveType::Integer, false), field("value", PrimitiveType::Long, true)],
        None,
    )
    .with_type_change("value".to_string(), prim(PrimitiveType::Integer));
    let result = b.plan();
    assert!(result.is_err());
    match result {
        Err(DeltaTableError::UnsafeTypeChange { column, from, to }) => {
            assert_eq!(column, "value");
            assert!(same_data_type(&from, &prim(PrimitiveType::Long)));
            assert!(same_data_type(&to, &prim(PrimitiveType::Integer)));
        },
        _ => panic!("expected an unsafe type change"),
    }
}

#[test]
fn test_drop_all_columns_fails() {
    let b = builder(vec![field("id", PrimitiveType::Integer, false)], None).with_drop_column("id".to_string());
    let result = b.plan();
    assert!(result.is_err());
    assert!(matches!(result, Err(DeltaTableError::CannotDropAllColumns)));
}

#[test]
fn test_comprehensive_schema_evolution() {
    let initial = vec![field("id", PrimitiveType::Integer, false), field("name", PrimitiveType::String, true)];
    let plan = builder(initial, None)
        .with_new_columns(vec![field("age", PrimitiveType::Integer, true), field("email", PrimitiveType::String, true)])
        .plan()
        .unwrap();
    assert_eq!(names(&plan.schema), vec!["id", "name", "age", "email"]);

    let plan = SchemaEvolutionBuilder::<(), ()>::new((), DeltaTableState {
        configuration: plan.configuration,
        protocol: plan.protocol,
        schema: plan.schema,
    })
    .with_column_mapping()
    .with_rename_column("name".to_string(), "full_name".to_string())
    .plan()
    .unwrap();
    assert_eq!(names(&plan.schema), vec!["id", "full_name", "age", "email"]);
    assert_eq!(plan.configuration.get("delta.columnMapping.mode"), Some(&Some("name".to_string())));
    assert_eq!(plan.configuration.get("delta.columnMapping.maxColumnId"), Some(&Some("0".to_string())));
    assert_eq!((plan.protocol.min_reader_version, plan.protocol.min_writer_version), (2, 5));
    let ids: Vec<Option<i64>> = plan.schema.fields().iter().map(id_of).collect();
    assert_eq!(ids, vec![Some(1), Some(2), Some(3), Some(4)]);
    assert_eq!(physical_of(&plan.schema.fields()[1]), Some("col-2".to_string()));

    let plan = SchemaEvolutionBuilder::<(), ()>::new((), DeltaTableState {
        configuration: plan.configuration,
        protocol: plan.protocol,
        schema: plan.schema,
    })
    .with_type_change("id".to_string(), prim(PrimitiveType::Long))
    .plan()
    .unwrap();
    assert!(same_data_type(plan.schema.fields()[0].data_type(), &prim(PrimitiveType::Long)));

    let plan = SchemaEvolutionBuilder::<(), ()>::new((), DeltaTableState {
        configuration: plan.configuration,
        protocol: plan.protocol,
        schema: plan.schema,
    })
    .with_drop_column("email".to_string())
    .plan()
    .unwrap();
    let field_names = names(&plan.schema);
    assert!(field_names.contains(&"id".to_string()));
    assert!(field_names.contains(&"full_name".to_string()));
    assert!(field_names.contains(&"age".to_string()));
    assert!(!field_names.contains(&"email".to_string()));
}

#[test]
fn test_schema_evolution_column_id_assignment() {
    let b = builder(
        vec![mapped_field("id", PrimitiveType::Integer, 1), mapped_field("name", PrimitiveType::String, 2)],
        Some("name"),
    )
    .with_new_column(field("new_column", PrimitiveType::Integer, true));
    let plan = b.plan().unwrap();
    let new_field = plan.schema.field("new_column");
    assert!(new_field.is_some(), "new_column should exist in schema");
    assert_eq!(id_of(new_field.unwrap()), Some(3), "new_column should have ID 3");
    assert_eq!(physical_of(new_field.unwrap()), Some("col-3".to_string()));
}

#[test]
fn test_schema_evolution_preserves_existing_ids() {
    let b = builder(
        vec![mapped_field("id", PrimitiveType::Integer, 7), mapped_field("name", PrimitiveType::String, 4)],
        Some("name"),
    )
    .with_new_column(field("new_column", PrimitiveType::Integer, true));
    let plan = b.plan().unwrap();
    assert_eq!(id_of(plan.schema.field("id").unwrap()), Some(7), "id column should preserve its column ID");
    assert_eq!(id_of(plan.schema.field("name").unwrap()), Some(4), "name column should preserve its column ID");
    assert_eq!(id_of(plan.schema.field("new_column").unwrap()), Some(8));
}

#[test]
fn new_columns_without_mapping_get_no_ids() {
    let plan = builder(vec![field("id", PrimitiveType::Integer, false)], None)
        .with_new_column(field("extra", PrimitiveType::String, true))
        .plan()
        .unwrap();
    assert_eq!(id_of(plan.schema.field("extra").unwrap()), None);
}

#[test]
fn conflicting_new_column_is_refused() {
    let result = builder(vec![field("id", PrimitiveType::Integer, false)], None)
        .with_new_column(field("id", PrimitiveType::String, true))
        .plan();
    match result {
        Err(DeltaTableError::SchemaMerge { column }) => assert_eq!(column, "id"),
        _ => panic!("expected a merge conflict"),
    }
}

#[test]
fn enabling_mapping_twice_changes_the_protocol_once() {
    let mut s = state(vec![field("a", PrimitiveType::Integer, true)], None);
    s.protocol.writer_features = Some(vec![TableFeature::AppendOnly, TableFeature::ColumnMapping]);
    let plan = SchemaEvolutionBuilder::<(), ()>::new((), s).with_column_mapping().plan().unwrap();
    let writer = plan.protocol.writer_features.clone().unwrap();
    assert_eq!(writer.len(), 2);
    let reader = plan.protocol.reader_features.clone().unwrap();
    assert!(matches!(reader.as_slice(), [TableFeature::ColumnMapping]));
    let again = SchemaEvolutionBuilder::<(), ()>::new((), DeltaTableState {
        configuration: plan.configuration,
        protocol: plan.protocol,
        schema: plan.schema,
    })
    .with_column_mapping()
    .plan()
    .unwrap();
    assert_eq!(again.protocol.writer_features.unwrap().len(), 2);
}

#[test]
fn mapping_already_on_is_left_alone() {
    let plan = builder(vec![field("a", PrimitiveType::Integer, true)], Some("id")).with_column_mapping().plan().unwrap();
    assert_eq!(plan.protocol.min_reader_version, 1);
    assert_eq!(id_of(&plan.schema.fields()[0]), None);
}

#[test]
fn type_changes_that_widen_are_safe() {
    let b = builder(vec![], None);
    assert!(b.is_type_change_safe(&prim(PrimitiveType::Byte), &prim(PrimitiveType::Long)));
    assert!(b.is_type_change_safe(&prim(PrimitiveType::Short), &prim(PrimitiveType::Integer)));
    assert!(b.is_type_change_safe(&prim(PrimitiveType::Float), &prim(PrimitiveType::Double)));
    assert!(b.is_type_change_safe(&prim(PrimitiveType::Date), &prim(PrimitiveType::String)));
    assert!(b.is_type_change_safe(&prim(PrimitiveType::Date), &prim(PrimitiveType::Date)));
    assert!(!b.is_type_change_safe(&prim(PrimitiveType::Long), &prim(PrimitiveType::Integer)));
    assert!(!b.is_type_change_safe(&prim(PrimitiveType::Double), &prim(PrimitiveType::Float)));
}

#[test]
fn first_rename_of_a_name_wins() {
    let b = builder(vec![], None)
        .with_rename_column("a".to_string(), "b".to_string())
        .with_rename_column("a".to_string(), "c".to_string());
    assert!(b.enable_column_mapping);
    let s = b
        .rename_columns_in_schema(StructType::new(vec![field("a", PrimitiveType::Integer, true)]))
        .unwrap();
    assert_eq!(names(&s), vec!["b"]);
}

#[test]
fn last_type_change_of_a_name_wins() {
    let b = builder(vec![], None)
        .with_type_change("a".to_string(), prim(PrimitiveType::Long))
        .with_type_change("a".to_string(), prim(PrimitiveType::String));
    let s = b.change_column_types(StructType::new(vec![field("a", PrimitiveType::Integer, true)])).unwrap();
    assert!(same_data_type(s.fields()[0].data_type(), &prim(PrimitiveType::String)));
}

#[test]
fn dropping_some_columns_keeps_the_rest_in_order() {
    let b = builder(vec![], None).with_drop_column("b".to_string()).with_drop_column("zzz".to_string());
    let s = b
        .drop_columns_from_schema(StructType::new(vec![
            field("a", PrimitiveType::Integer, true),
            field("b", PrimitiveType::Integer, true),
            field("c", PrimitiveType::Integer, true),
        ]))
        .unwrap();
    assert_eq!(names(&s), vec!["a", "c"]);
}

#[test]
fn builder_setters_record_their_values() {
    let b = builder(vec![], None)
        .with_custom_execute_handler(())
        .with_commit_properties(deltalake_core::commit::CommitProperties {
            app_metadata: StrMap::new(),
            max_retries: 3,
            create_checkpoint: false,
            cleanup_expired_logs: Some(true),
        });
    assert!(b.custom_execute_handler.is_some());
    assert_eq!(b.commit_properties.max_retries, 3);
}

#[test]
fn schema_aware_write_settings() {
    let plain = SchemaAwareWriteBuilder::new(()).write_settings();
    assert!(plain.schema_mode.is_none());
    assert!(plain.table_configuration.is_empty());
    let w = SchemaAwareWriteBuilder::new(()).with_auto_schema_evolution().with_column_mapping().with_type_widening();
    assert!(w.allow_type_widening);
    let s = w.write_settings();
    assert_eq!(s.schema_mode, Some(SchemaMode::Merge));
    assert_eq!(s.table_configuration.get("delta.columnMapping.mode"), Some(&Some("name".to_string())));
}

#[test]
fn schema_aware_merge_settings() {
    let m = SchemaAwareMergeBuilder::new(());
    assert!(m.handle_new_columns && !m.handle_type_changes && !m.enable_column_mapping);
    let plain = m.merge_settings();
    assert_eq!(plain.merge_schema, Some(true));
    assert!(plain.table_configuration.is_empty());
    let m = m.with_new_columns(false).with_type_changes(true).with_column_mapping();
    let s = m.merge_settings();
    assert_eq!(s.merge_schema, None);
    assert_eq!(s.table_configuration.get("delta.columnMapping.mode"), Some(&Some("name".to_string())));
    assert!(m.handle_type_changes && m.enable_column_mapping);
}

#[test]
fn test_automatic_column_mapping_for_new_columns() {
    let b = builder(
        vec![field("id", PrimitiveType::Integer, false), field("name", PrimitiveType::String, true)],
        Some("name"),
    )
    .with_new_columns(vec![field("age", PrimitiveType::Integer, true), field("city", PrimitiveType::String, true)]);
    let plan = b.plan().unwrap();
    for f in plan.schema.fields() {
        println!("Field '{}' metadata: {:?}", f.name(), f.metadata());
    }
    assert_eq!(id_of(plan.schema.field("age").unwrap()), Some(1));
    assert_eq!(physical_of(plan.schema.field("city").unwrap()), Some("col-2".to_string()));
    assert_eq!(id_of(plan.schema.field("id").unwrap()), None);
}

#[test]
fn test_schema_evolution_with_merge() {
    let merge = SchemaAwareMergeBuilder::new(()).with_new_columns(true).with_column_mapping();
    assert_eq!(merge.merge_settings().merge_schema, Some(true));
    let plan = builder(
        vec![field("id", PrimitiveType::Integer, false), field("value", PrimitiveType::String, true)],
        None,
    )
    .with_new_column(field("new_column", PrimitiveType::Integer, true))
    .plan()
    .unwrap();
    let field_names = names(&plan.schema);
    assert!(field_names.contains(&"new_column".to_string()));
}

#[test]
fn safe_type_changes_chain_and_do_not_undo() {
    let b = builder(vec![field("a", PrimitiveType::Integer, true)], None);
    let byte = prim(PrimitiveType::Byte);
    let short = prim(PrimitiveType::Short);
    let long = prim(PrimitiveType::Long);
    let text = prim(PrimitiveType::String);
    assert!(b.is_type_change_safe(&byte, &short));
    assert!(b.is_type_change_safe(&short, &long));
    assert!(b.is_type_change_safe(&byte, &long));
    assert!(!b.is_type_change_safe(&short, &byte));
    assert!(b.is_type_change_safe(&long, &text));
    assert!(!b.is_type_change_safe(&text, &long));
    assert!(b.is_type_change_safe(&text, &text));
}

#[test]
fn type_widening_widens_a_written_column() {
    let table = StructType::new(vec![field("id", PrimitiveType::Integer, true), field("c", PrimitiveType::Integer, true)]);
    let data = StructType::new(vec![field("id", PrimitiveType::Integer, true), field("c", PrimitiveType::Long, true)]);
    let plain = SchemaAwareWriteBuilder::new(()).target_schema(&table, &data).unwrap();
    assert!(same_data_type(&plain.field("c").unwrap().data_type, &prim(PrimitiveType::Integer)));
    let widening = SchemaAwareWriteBuilder::new(()).with_type_widening().target_schema(&table, &data).unwrap();
    assert!(same_data_type(&widening.field("c").unwrap().data_type, &prim(PrimitiveType::Long)));
    assert!(same_data_type(&widening.field("id").unwrap().data_type, &prim(PrimitiveType::Integer)));
    let merged = SchemaAwareWriteBuilder::new(()).with_auto_schema_evolution().target_schema(&table, &data);
    assert!(matches!(merged, Err(DeltaTableError::SchemaMerge { column }) if column == "c"));
    let both = SchemaAwareWriteBuilder::new(())
        .with_auto_schema_evolution()
        .with_type_widening()
        .target_schema(&table, &data)
        .unwrap();
    assert_eq!(names(&both), vec!["id".to_string(), "c".to_string()]);
    let narrowing = SchemaAwareWriteBuilder::new(()).with_type_widening().target_schema(&data, &table).unwrap();
    assert!(same_data_type(&narrowing.field("c").unwrap().data_type, &prim(PrimitiveType::Long)));
}

#[test]
fn a_merge_with_new_columns_and_type_changes() {
    let table = StructType::new(vec![field("id", PrimitiveType::Short, true)]);
    let source = StructType::new(vec![field("id", PrimitiveType::Long, true), field("extra", PrimitiveType::String, true)]);
    let m = SchemaAwareMergeBuilder::new(()).with_type_changes(true);
    let s = m.target_schema(&table, &source).unwrap();
    assert_eq!(names(&s), vec!["id".to_string(), "extra".to_string()]);
    assert!(same_data_type(&s.field("id").unwrap().data_type, &prim(PrimitiveType::Long)));
    let m = SchemaAwareMergeBuilder::new(()).with_new_columns(false).with_type_changes(true);
    assert_eq!(names(&m.target_schema(&table, &source).unwrap()), vec!["id".to_string()]);
}
