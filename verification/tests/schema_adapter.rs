use deltalake_core::schema_adapter::{DeltaSchemaAdapter, SchemaMapping};
use deltalake_core::strmap::StrMap;
use deltalake_core::writer::{transform_schema_to_physical, ArrowField, ArrowFieldType, ArrowSchema};

fn leaf(name: &str, physical: Option<&str>) -> ArrowField<u8> {
    let mut metadata = StrMap::new();
    if let Some(p) = physical {
        metadata.insert("delta.columnMapping.physicalName".to_string(), p.to_string());
    }
    ArrowField { name: name.to_string(), data_type: ArrowFieldType::Other(0), nullable: true, metadata }
}

fn schema(fields: Vec<ArrowField<u8>>) -> ArrowSchema<u8> {
    ArrowSchema { fields, metadata: StrMap::new() }
}

fn names(fs: &[ArrowField<u8>]) -> Vec<String> {
    fs.iter().map(|f| f.name.clone()).collect()
}

#[test]
fn columns_are_found_by_physical_name_then_by_name() {
    let table = schema(vec![leaf("Company Very Short", Some("col-1")), leaf("plain", None), leaf("moved", Some("col-9"))]);
    let adapter = DeltaSchemaAdapter { projected_table_schema: schema(vec![]), table_schema: table };
    let file = schema(vec![leaf("plain", None), leaf("col-1", None), leaf("moved", None)]);
    assert_eq!(adapter.map_column_index(0, &file), Some(1));
    assert_eq!(adapter.map_column_index(1, &file), Some(0));
    assert_eq!(adapter.map_column_index(2, &file), Some(2));
    let other = schema(vec![leaf("x", None)]);
    assert_eq!(adapter.map_column_index(0, &other), None);
}

#[test]
fn map_schema_projects_and_renames() {
    let projected = schema(vec![leaf("Super Name", Some("col-2")), leaf("plain", None)]);
    let adapter = DeltaSchemaAdapter { projected_table_schema: projected, table_schema: schema(vec![]) };
    let file = schema(vec![leaf("unused", None), leaf("col-2", None), leaf("plain", None)]);
    let (mapping, projection) = adapter.map_schema(&file);
    assert_eq!(projection, vec![1, 2]);
    assert_eq!(mapping.physical_to_logical.len(), 1);
    assert_eq!(mapping.physical_to_logical.get("col-2").map(|s| s.as_str()), Some("Super Name"));
    assert_eq!(names(&mapping.projected_schema.fields), vec!["Super Name", "plain"]);
    let read = mapping.map_batch_fields(vec![leaf("col-2", Some("kept")), leaf("plain", Some("kept"))]);
    assert_eq!(names(&read), vec!["Super Name", "plain"]);
    assert!(read[0].metadata.is_empty());
    assert_eq!(read[1].metadata.len(), 1);
}

#[test]
fn no_renames_leave_the_batch_as_it_is() {
    let mapping = SchemaMapping { projected_schema: schema(vec![]), physical_to_logical: StrMap::new() };
    let read = mapping.map_batch_fields(vec![leaf("a", Some("p"))]);
    assert_eq!(names(&read), vec!["a"]);
    assert_eq!(read[0].metadata.len(), 1);
}

#[test]
fn written_physical_names_read_back_as_table_names() {
    let table = schema(vec![leaf("Company Very Short", Some("col-a")), leaf("Super Name", Some("col-b"))]);
    let mut to_physical = StrMap::new();
    to_physical.insert("Company Very Short".to_string(), "col-a".to_string());
    to_physical.insert("Super Name".to_string(), "col-b".to_string());
    let copy = schema(vec![leaf("Company Very Short", Some("col-a")), leaf("Super Name", Some("col-b"))]);
    let written = transform_schema_to_physical(copy, &to_physical);
    assert_eq!(names(&written.fields), vec!["col-a", "col-b"]);
    let adapter = DeltaSchemaAdapter { projected_table_schema: table, table_schema: schema(vec![]) };
    let (mapping, projection) = adapter.map_schema(&written);
    assert_eq!(projection, vec![0, 1]);
    let read = mapping.map_batch_fields(written.fields);
    assert_eq!(names(&read), vec!["Company Very Short", "Super Name"]);
}
