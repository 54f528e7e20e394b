use deltalake_core::errors::DeltaTableError;
use deltalake_core::schema_match::{equal_schemas, same_text_maps};
use deltalake_core::strmap::StrMap;
use deltalake_core::table::ColumnMappingMode;
use deltalake_core::writer::{
    gather_upload_results, max_concurrency_tasks_from_setting, transform_field_to_physical,
    transform_schema_to_physical, upload_part_size_from_setting, write_chunks, ArrowField, ArrowFieldType,
    ArrowSchema, NumIndexedCols, PartitionWriterConfig, PartitionWriterProgress, WriterConfig,
    DEFAULT_MAX_CONCURRENCY_TASKS, DEFAULT_TARGET_FILE_SIZE, DEFAULT_UPLOAD_PART_SIZE, DEFAULT_WRITE_BATCH_SIZE,
};

fn leaf(name: &str, t: &'static str) -> ArrowField<&'static str> {
    ArrowField { name: name.to_string(), data_type: ArrowFieldType::Other(t), nullable: true, metadata: StrMap::new() }
}

fn mapping(pairs: &[(&str, &str)]) -> StrMap<String> {
    let mut m = StrMap::new();
    for (k, v) in pairs {
        m.insert(k.to_string(), v.to_string());
    }
    m
}

fn schema(fields: Vec<ArrowField<&'static str>>) -> ArrowSchema<&'static str> {
    ArrowSchema { fields, metadata: StrMap::new() }
}

#[test]
fn fields_are_written_under_physical_names_at_every_level() {
    let inner = ArrowField {
        name: "s".to_string(),
        data_type: ArrowFieldType::Struct(vec![leaf("x", "int"), leaf("y", "utf8")]),
        nullable: false,
        metadata: StrMap::new(),
    };
    let list = ArrowField {
        name: "l".to_string(),
        data_type: ArrowFieldType::List(Box::new(leaf("x", "int"))),
        nullable: true,
        metadata: StrMap::new(),
    };
    let m = mapping(&[("s", "col-s"), ("x", "col-x"), ("l", "col-l")]);
    let s = transform_field_to_physical(inner, &m);
    assert_eq!(s.name, "col-s");
    assert!(!s.nullable);
    match &s.data_type {
        ArrowFieldType::Struct(fs) => {
            assert_eq!(fs[0].name, "col-x");
            assert_eq!(fs[1].name, "y");
            assert!(matches!(fs[1].data_type, ArrowFieldType::Other("utf8")));
        },
        _ => panic!("expected a struct"),
    }
    let l = transform_field_to_physical(list, &m);
    assert_eq!(l.name, "col-l");
    match &l.data_type {
        ArrowFieldType::List(inner) => assert_eq!(inner.name, "col-x"),
        _ => panic!("expected a list"),
    }
}

#[test]
fn an_empty_mapping_leaves_the_schema_as_it_is() {
    let mut s = schema(vec![leaf("a", "int"), leaf("b", "utf8")]);
    s.metadata.insert("k".to_string(), "v".to_string());
    let out = transform_schema_to_physical(s, &StrMap::new());
    assert_eq!(out.fields[0].name, "a");
    assert_eq!(out.fields[1].name, "b");
    assert_eq!(out.metadata.get("k").map(|s| s.as_str()), Some("v"));
    let out = transform_schema_to_physical(out, &mapping(&[("b", "col-b")]));
    assert_eq!(out.fields[1].name, "col-b");
    assert_eq!(out.metadata.get("k").map(|s| s.as_str()), Some("v"));
}

#[test]
fn upload_part_size_is_kept_within_the_stores_limits() {
    assert_eq!(upload_part_size_from_setting(None), DEFAULT_UPLOAD_PART_SIZE);
    assert_eq!(upload_part_size_from_setting(Some("abc")), DEFAULT_UPLOAD_PART_SIZE);
    assert_eq!(upload_part_size_from_setting(Some("1024")), 5 * 1024 * 1024);
    assert_eq!(upload_part_size_from_setting(Some("10485760")), 10485760);
    assert_eq!(upload_part_size_from_setting(Some("99999999999")), 5 * 1024 * 1024 * 1024);
}

#[test]
fn max_concurrency_tasks_default_to_ten() {
    assert_eq!(max_concurrency_tasks_from_setting(None), DEFAULT_MAX_CONCURRENCY_TASKS);
    assert_eq!(DEFAULT_MAX_CONCURRENCY_TASKS, 10);
    assert_eq!(max_concurrency_tasks_from_setting(Some("3")), 3);
    assert_eq!(max_concurrency_tasks_from_setting(Some("-3")), 10);
}

#[test]
fn writer_config_defaults_and_physical_names() {
    let c: WriterConfig<(), &'static str> = WriterConfig::new(
        schema(vec![leaf("a", "int")]),
        vec![],
        (),
        None,
        None,
        NumIndexedCols::AllColumns,
        None,
    );
    assert_eq!(c.target_file_size, DEFAULT_TARGET_FILE_SIZE);
    assert_eq!(c.target_file_size, 104_857_600);
    assert_eq!(c.write_batch_size, DEFAULT_WRITE_BATCH_SIZE);
    assert_eq!(c.column_mapping_mode(), ColumnMappingMode::NoMapping);
    assert_eq!(c.to_physical_name("a"), "a");
    let c: WriterConfig<(), &'static str> = WriterConfig::new_with_column_mapping(
        schema(vec![leaf("a", "int"), leaf("p", "utf8")]),
        vec!["p".to_string()],
        (),
        Some(10),
        Some(2),
        NumIndexedCols::NumColumns(3),
        Some(vec!["a".to_string()]),
        ColumnMappingMode::Name,
        mapping(&[("a", "col-a")]),
    );
    assert_eq!(c.target_file_size, 10);
    assert_eq!(c.write_batch_size, 2);
    assert_eq!(c.to_physical_name("a"), "col-a");
    assert_eq!(c.to_physical_name("p"), "p");
    assert_eq!(c.logical_to_physical().len(), 1);
    let file = c.file_schema();
    assert_eq!(file.fields.len(), 1);
    assert_eq!(file.fields[0].name, "a");
}

#[test]
fn partition_config_writes_physical_names() {
    let c = PartitionWriterConfig::try_new_with_column_mapping(
        schema(vec![leaf("a", "int"), leaf("b", "int")]),
        "p=1".to_string(),
        vec![("p".to_string(), 1u8), ("q".to_string(), 2u8)],
        (),
        None,
        None,
        DEFAULT_MAX_CONCURRENCY_TASKS,
        mapping(&[("a", "col-a"), ("p", "col-p")]),
    );
    assert_eq!(c.file_schema.fields[0].name, "col-a");
    assert_eq!(c.file_schema.fields[1].name, "b");
    assert_eq!(c.partition_values_physical(), vec![("col-p".to_string(), 1u8), ("q".to_string(), 2u8)]);
    let plain = PartitionWriterConfig::try_new(schema(vec![leaf("a", "int")]), String::new(), vec![("p".to_string(), 1u8)], (), Some(5), None, 1);
    assert_eq!(plain.target_file_size, 5);
    assert_eq!(plain.partition_values_physical(), vec![("p".to_string(), 1u8)]);
}

#[test]
fn partition_values_sharing_a_physical_name_keep_the_first_place() {
    let c = PartitionWriterConfig::try_new_with_column_mapping(
        schema(vec![]),
        String::new(),
        vec![("p".to_string(), 1u8), ("q".to_string(), 2u8), ("r".to_string(), 3u8)],
        (),
        None,
        None,
        1,
        mapping(&[("r", "p")]),
    );
    assert_eq!(c.partition_values_physical(), vec![("p".to_string(), 3u8), ("q".to_string(), 2u8)]);
}

#[test]
fn rows_go_to_the_writer_in_chunks() {
    assert_eq!(write_chunks(0, 1024), vec![]);
    assert_eq!(write_chunks(10, 4), vec![(0, 4), (4, 4), (8, 2)]);
    assert_eq!(write_chunks(8, 4), vec![(0, 4), (4, 4)]);
    let chunks = write_chunks(10000, 1024);
    assert_eq!(chunks.len(), 10);
    assert_eq!(chunks[9], (9216, 784));
}

#[test]
fn a_file_is_written_out_once_it_meets_the_target() {
    let mut p = PartitionWriterProgress::new();
    assert!(!p.uploads_on_close());
    assert!(!p.after_chunk(99, 100));
    assert_eq!(p.part_counter, 0);
    assert!(p.uploads_on_close());
    assert!(p.after_chunk(100, 100));
    assert!(!p.uploads_on_close());
    assert!(p.after_chunk(150, 100));
    assert_eq!(p.part_counter, 2);
    assert!(!p.uploads_on_close());
}

#[test]
fn the_first_failed_upload_ends_the_gathering() {
    let ok: Vec<Result<u32, &str>> = vec![Ok(1), Ok(2)];
    assert_eq!(gather_upload_results(ok), Ok(vec![1, 2]));
    let failed: Vec<Result<u32, &str>> = vec![Ok(1), Err("first"), Err("second"), Ok(4)];
    assert_eq!(gather_upload_results(failed), Err("first"));
}

#[test]
fn a_new_partition_writer_gets_the_file_schema_with_physical_names() {
    let c: WriterConfig<u32, &'static str> = WriterConfig::new_with_column_mapping(
        schema(vec![leaf("a", "int"), leaf("p", "utf8")]),
        vec!["p".to_string()],
        7,
        Some(100),
        Some(3),
        NumIndexedCols::AllColumns,
        None,
        ColumnMappingMode::Name,
        mapping(&[("a", "col-a"), ("p", "col-p")]),
    );
    let pc = c.partition_writer_config("p=x".to_string(), vec![("p".to_string(), 'x')], 4);
    assert_eq!(pc.file_schema.fields.len(), 1);
    assert_eq!(pc.file_schema.fields[0].name, "col-a");
    assert_eq!(pc.writer_properties, 7);
    assert_eq!((pc.target_file_size, pc.write_batch_size, pc.max_concurrency_tasks), (100, 3, 4));
    assert_eq!(pc.prefix, "p=x");
    assert_eq!(pc.partition_values_physical(), vec![("col-p".to_string(), 'x')]);
}

#[test]
fn a_batch_is_checked_against_the_file_schema() {
    let c: WriterConfig<u32, &'static str> = WriterConfig::new_with_column_mapping(
        schema(vec![leaf("a", "int"), leaf("p", "utf8")]),
        vec!["p".to_string()],
        7,
        Some(100),
        Some(3),
        NumIndexedCols::AllColumns,
        None,
        ColumnMappingMode::Name,
        mapping(&[("a", "col-a"), ("p", "col-p")]),
    );
    let pc = c.partition_writer_config("p=x".to_string(), vec![("p".to_string(), 'x')], 4);
    let written = pc.physical_batch_schema(schema(vec![leaf("a", "int")])).unwrap();
    assert_eq!(written.fields[0].name, "col-a");
    assert!(equal_schemas(&written, &pc.file_schema));
    let wrong_type = pc.physical_batch_schema(schema(vec![leaf("a", "utf8")]));
    assert!(matches!(wrong_type, Err(DeltaTableError::SchemaMismatch)));
    let extra = pc.physical_batch_schema(schema(vec![leaf("a", "int"), leaf("b", "int")]));
    assert!(matches!(extra, Err(DeltaTableError::SchemaMismatch)));
    let mut tagged = schema(vec![leaf("a", "int")]);
    tagged.metadata.insert("k".to_string(), "v".to_string());
    assert!(matches!(pc.physical_batch_schema(tagged), Err(DeltaTableError::SchemaMismatch)));
}

#[test]
fn text_maps_compare_by_content() {
    let a = mapping(&[("x", "1"), ("y", "2")]);
    let b = mapping(&[("y", "2"), ("x", "1")]);
    let c = mapping(&[("x", "1")]);
    let d = mapping(&[("x", "1"), ("y", "3")]);
    assert!(same_text_maps(&a, &b));
    assert!(!same_text_maps(&a, &c));
    assert!(!same_text_maps(&c, &a));
    assert!(!same_text_maps(&a, &d));
}

#[test]
fn partition_values_are_keyed_by_physical_names_in_order() {
    let c: WriterConfig<u32, &'static str> = WriterConfig::new_with_column_mapping(
        schema(vec![leaf("a", "int"), leaf("p", "utf8"), leaf("q", "utf8")]),
        vec!["p".to_string(), "q".to_string()],
        7,
        None,
        None,
        NumIndexedCols::AllColumns,
        None,
        ColumnMappingMode::Name,
        mapping(&[("p", "col-p"), ("q", "col-p")]),
    );
    let pc = c.partition_writer_config(
        "p=x/q=y".to_string(),
        vec![("q".to_string(), 'y'), ("p".to_string(), 'x'), ("r".to_string(), 'z')],
        1,
    );
    assert_eq!(
        pc.partition_values_physical(),
        vec![("col-p".to_string(), 'x'), ("r".to_string(), 'z')]
    );
}
