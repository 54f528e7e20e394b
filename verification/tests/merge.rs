use deltalake_core::merge::{merge_struct_fields, merge_type};
use deltalake_core::schema::{
    same_data_type, ArrayType, DataType, MetadataValue, PrimitiveType, StructField, StructType,
};
use deltalake_core::strmap::StrMap;

fn prim(p: PrimitiveType) -> DataType {
    DataType::Primitive(p)
}

fn field(name: &str, p: PrimitiveType, nullable: bool) -> StructField {
    StructField::new(name.to_string(), prim(p), nullable)
}

#[test]
fn merging_a_schema_with_itself_changes_nothing() {
    let s = StructType::new(vec![field("a", PrimitiveType::Integer, false), field("b", PrimitiveType::String, true)]);
    let merged = merge_struct_fields(&s.fields, &s.fields).unwrap();
    assert_eq!(merged.fields().len(), 2);
    assert_eq!(merged.fields()[0].name(), "a");
    assert!(!merged.fields()[0].is_nullable());
}

#[test]
fn right_only_fields_are_appended_and_nullability_joins() {
    let l = vec![field("a", PrimitiveType::Integer, false), field("b", PrimitiveType::String, false)];
    let r = vec![field("c", PrimitiveType::Long, true), field("a", PrimitiveType::Integer, true)];
    let merged = merge_struct_fields(&l, &r).unwrap();
    let names: Vec<&str> = merged.fields().iter().map(|f| f.name().as_str()).collect();
    assert_eq!(names, vec!["a", "b", "c"]);
    assert!(merged.fields()[0].is_nullable());
    assert!(!merged.fields()[1].is_nullable());
}

#[test]
fn conflicting_types_report_the_left_position() {
    let l = vec![field("a", PrimitiveType::Integer, true), field("b", PrimitiveType::String, true)];
    let r = vec![field("b", PrimitiveType::Long, true)];
    assert_eq!(merge_struct_fields(&l, &r).err(), Some(1));
}

#[test]
fn conflicting_metadata_is_refused() {
    let mut m1 = StrMap::new();
    m1.insert("k".to_string(), MetadataValue::Number(1));
    let mut m2 = StrMap::new();
    m2.insert("k".to_string(), MetadataValue::Number(2));
    let l = vec![field("a", PrimitiveType::Integer, true).with_metadata(m1)];
    let r = vec![field("a", PrimitiveType::Integer, true).with_metadata(m2)];
    assert_eq!(merge_struct_fields(&l, &r).err(), Some(0));
}

#[test]
fn array_elements_merge_and_primitives_must_agree() {
    let a = DataType::Array(Box::new(ArrayType { element_type: prim(PrimitiveType::Integer), contains_null: false }));
    let b = DataType::Array(Box::new(ArrayType { element_type: prim(PrimitiveType::Integer), contains_null: true }));
    let m = merge_type(&a, &b).unwrap();
    match m {
        DataType::Array(x) => assert!(x.contains_null),
        _ => panic!("expected an array"),
    }
    assert!(merge_type(&prim(PrimitiveType::Integer), &prim(PrimitiveType::Long)).is_none());
    assert!(same_data_type(&merge_type(&prim(PrimitiveType::Date), &prim(PrimitiveType::Date)).unwrap(), &prim(PrimitiveType::Date)));
}
