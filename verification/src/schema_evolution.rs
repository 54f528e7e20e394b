use vstd::prelude::*;

use crate::column_mapping::{column_id_key, physical_name_key};
use crate::column_mapping_builder::configured_max_column_id;
use crate::commit::{CommitProperties, DEFAULT_RETRIES};
use crate::errors::DeltaTableError;
use crate::generated_columns::{
    add_column_mapping_metadata, get_max_column_id, lemma_max_column_id_nonneg, mapped_fields,
    max_column_id_of, metadata_column_id, missing_ids,
};
use crate::merge::{
    find_first_named, first_named, lemma_first_named_range, lemma_merged_left_disjoint, lemma_right_only_disjoint, merge_struct_fields, merged_struct,
};
use crate::schema::{
    collapse_by_name, field_view, fields_view, law_same_type_reflexive, lemma_collapse_distinct,
    lemma_collapse_of_distinct, lemma_fields_view_index, lemma_fields_view_len, metadata_view,
    names_distinct, same_data_type, same_type, DataType, FieldView, MetaView, MetadataValue,
    PrimitiveType, StructField, StructType, TypeView,
};
use crate::strmap::StrMap;
use crate::table::{
    column_mapping_enabled, config_text, config_view, features_or_empty, insert_column_mapping,
    is_column_mapping_enabled, lemma_config_text_view, max_column_id_key, mode_key,
    with_column_mapping_feature, DeltaTableState, Protocol, ProtocolView, TableFeature,
};
use crate::text::{decimal, i64_to_string, law_decimal_round_trip};

verus! {

/// Builds a change of a table's schema: new columns, renames, dropped columns, type
/// changes, and column mapping turned on. `L` is the handle of the table's log, `H` the
/// handler that is told of the commit.
pub struct SchemaEvolutionBuilder<L, H> {
    pub snapshot: DeltaTableState,
    pub log_store: L,
    pub new_columns: Vec<StructField>,
    pub rename_columns: Vec<(String, String)>,
    pub drop_columns: Vec<String>,
    pub type_changes: Vec<(String, DataType)>,
    pub enable_column_mapping: bool,
    pub commit_properties: CommitProperties,
    pub custom_execute_handler: Option<H>,
}

impl<L, H> SchemaEvolutionBuilder<L, H> {
    /// A builder that changes nothing yet.
    pub fn new(log_store: L, snapshot: DeltaTableState) -> (r: Self)
        ensures
            r.snapshot == snapshot,
            r.log_store == log_store,
            r.new_columns@.len() == 0,
            r.rename_columns@.len() == 0,
            r.drop_columns@.len() == 0,
            r.type_changes@.len() == 0,
            !r.enable_column_mapping,
            r.commit_properties.app_metadata@ == Map::<Seq<char>, String>::empty(),
            r.commit_properties.max_retries == DEFAULT_RETRIES,
            r.commit_properties.create_checkpoint,
            r.commit_properties.cleanup_expired_logs is None,
            r.custom_execute_handler is None,
    {
        SchemaEvolutionBuilder {
            snapshot,
            log_store,
            new_columns: Vec::new(),
            rename_columns: Vec::new(),
            drop_columns: Vec::new(),
            type_changes: Vec::new(),
            enable_column_mapping: false,
            commit_properties: CommitProperties::default(),
            custom_execute_handler: None,
        }
    }

    /// Adds a new column.
    pub fn with_new_column(self, field: StructField) -> (r: Self)
        ensures
            r == (SchemaEvolutionBuilder { new_columns: r.new_columns, ..self }),
            r.new_columns@ == self.new_columns@.push(field),
    {
        let mut b = self;
        b.new_columns.push(field);
        b
    }

    /// Adds new columns, in order.
    pub fn with_new_columns(self, fields: Vec<StructField>) -> (r: Self)
        ensures
            r == (SchemaEvolutionBuilder { new_columns: r.new_columns, ..self }),
            r.new_columns@ == self.new_columns@ + fields@,
    {
        let mut b = self;
        let mut fields = fields;
        b.new_columns.append(&mut fields);
        b
    }

    /// Renames a column; renaming needs column mapping, so this turns it on.
    pub fn with_rename_column(self, old_name: String, new_name: String) -> (r: Self)
        ensures
            r == (SchemaEvolutionBuilder { rename_columns: r.rename_columns, enable_column_mapping: true, ..self }),
            r.rename_columns@ == self.rename_columns@.push((old_name, new_name)),
    {
        let mut b = self;
        b.rename_columns.push((old_name, new_name));
        b.enable_column_mapping = true;
        b
    }

    /// Drops a column.
    pub fn with_drop_column(self, column_name: String) -> (r: Self)
        ensures
            r == (SchemaEvolutionBuilder { drop_columns: r.drop_columns, ..self }),
            r.drop_columns@ == self.drop_columns@.push(column_name),
    {
        let mut b = self;
        b.drop_columns.push(column_name);
        b
    }

    /// Changes a column's type.
    pub fn with_type_change(self, column_name: String, new_type: DataType) -> (r: Self)
        ensures
            r == (SchemaEvolutionBuilder { type_changes: r.type_changes, ..self }),
            r.type_changes@ == self.type_changes@.push((column_name, new_type)),
    {
        let mut b = self;
        b.type_changes.push((column_name, new_type));
        b
    }

    /// Turns column mapping on.
    pub fn with_column_mapping(self) -> (r: Self)
        ensures
            r == (SchemaEvolutionBuilder { enable_column_mapping: true, ..self }),
    {
        let mut b = self;
        b.enable_column_mapping = true;
        b
    }

    /// Sets the properties of the commit.
    pub fn with_commit_properties(self, commit_properties: CommitProperties) -> (r: Self)
        ensures
            r == (SchemaEvolutionBuilder { commit_properties, ..self }),
    {
        let mut b = self;
        b.commit_properties = commit_properties;
        b
    }

    /// Sets the handler that is told of the commit.
    pub fn with_custom_execute_handler(self, handler: H) -> (r: Self)
        ensures
            r == (SchemaEvolutionBuilder { custom_execute_handler: Some(handler), ..self }),
    {
        let mut b = self;
        b.custom_execute_handler = Some(handler);
        b
    }
}

/// Whether a column of type `from` may be changed to type `to`: a widening of integers
/// or of floating point, any type to a string, or no change at all.
pub open spec fn type_change_safe(from: TypeView, to: TypeView) -> bool {
    let byte = TypeView::Primitive(PrimitiveType::Byte);
    let short = TypeView::Primitive(PrimitiveType::Short);
    let integer = TypeView::Primitive(PrimitiveType::Integer);
    let long = TypeView::Primitive(PrimitiveType::Long);
    ||| from == byte && (to == short || to == integer || to == long)
    ||| from == short && (to == integer || to == long)
    ||| from == integer && to == long
    ||| from == TypeView::Primitive(PrimitiveType::Float) && to == TypeView::Primitive(PrimitiveType::Double)
    ||| to == TypeView::Primitive(PrimitiveType::String)
    ||| same_type(from, to)
}

impl<L, H> SchemaEvolutionBuilder<L, H> {
    /// Whether changing a column of type `from` to type `to` is safe.
    pub fn is_type_change_safe(&self, from: &DataType, to: &DataType) -> (r: bool)
        ensures
            r == type_change_safe(from@, to@),
    {
        match (from, to) {
            (DataType::Primitive(PrimitiveType::Byte), DataType::Primitive(PrimitiveType::Short))
            | (DataType::Primitive(PrimitiveType::Byte), DataType::Primitive(PrimitiveType::Integer))
            | (DataType::Primitive(PrimitiveType::Byte), DataType::Primitive(PrimitiveType::Long)) => true,
            (DataType::Primitive(PrimitiveType::Short), DataType::Primitive(PrimitiveType::Integer))
            | (DataType::Primitive(PrimitiveType::Short), DataType::Primitive(PrimitiveType::Long)) => true,
            (DataType::Primitive(PrimitiveType::Integer), DataType::Primitive(PrimitiveType::Long)) => true,
            (DataType::Primitive(PrimitiveType::Float), DataType::Primitive(PrimitiveType::Double)) => true,
            (_, DataType::Primitive(PrimitiveType::String)) => true,
            (t1, t2) => same_data_type(t1, t2),
        }
    }
}

/// The new name that the first rename of `name` gives it, if any.
pub open spec fn rename_target(renames: Seq<(Seq<char>, Seq<char>)>, name: Seq<char>) -> Option<Seq<char>>
    decreases renames.len(),
{
    if renames.len() == 0 {
        None
    } else if renames[0].0 == name {
        Some(renames[0].1)
    } else {
        rename_target(renames.subrange(1, renames.len() as int), name)
    }
}

/// A field with the name that the renames give it.
pub open spec fn renamed_field(f: FieldView, renames: Seq<(Seq<char>, Seq<char>)>) -> FieldView {
    match rename_target(renames, f.name) {
        Some(n) => FieldView { name: n, ..f },
        None => f,
    }
}

/// The top-level fields renamed one by one.
pub open spec fn renamed_fields(fs: Seq<FieldView>, renames: Seq<(Seq<char>, Seq<char>)>) -> Seq<FieldView>
    decreases fs.len(),
{
    if fs.len() == 0 {
        Seq::empty()
    } else {
        renamed_fields(fs.drop_last(), renames).push(renamed_field(fs.last(), renames))
    }
}

/// What a list of renames denotes.
pub open spec fn renames_view(rs: Seq<(String, String)>) -> Seq<(Seq<char>, Seq<char>)> {
    rs.map_values(|p: (String, String)| (p.0@, p.1@))
}

/// The first rename of `name`, if any.
fn find_rename<'a>(renames: &'a Vec<(String, String)>, name: &String) -> (r: Option<&'a String>)
    ensures
        match r {
            Some(n) => rename_target(renames_view(renames@), name@) == Some(n@),
            None => rename_target(renames_view(renames@), name@) is None,
        },
{
    let ghost rv = renames_view(renames@);
    let mut i: usize = 0;
    assert(rv.subrange(0, rv.len() as int) =~= rv);
    while i < renames.len()
        invariant
            i <= renames@.len(),
            rv == renames_view(renames@),
            rename_target(rv, name@) == rename_target(rv.subrange(i as int, rv.len() as int), name@),
        decreases renames.len() - i,
    {
        let ghost rest = rv.subrange(i as int, rv.len() as int);
        proof {
            assert(rest.subrange(1, rest.len() as int) =~= rv.subrange(i + 1, rv.len() as int));
            assert(rest[0] == rv[i as int]);
        }
        if renames[i].0 == *name {
            return Some(&renames[i].1);
        }
        i = i + 1;
    }
    None
}

impl<L, H> SchemaEvolutionBuilder<L, H> {
    /// The schema with the renames applied: each field takes the new name of the first
    /// rename of its name.
    pub fn rename_columns_in_schema(&self, schema: StructType) -> (r: Result<StructType, DeltaTableError>)
        ensures
            r matches Ok(s) && s@ == collapse_by_name(renamed_fields(schema@, renames_view(self.rename_columns@))),
    {
        let renames = &self.rename_columns;
        let ghost fv = schema@;
        let ghost rv = renames_view(renames@);
        proof {
            lemma_fields_view_len(schema.fields@);
        }
        let mut new_fields: Vec<StructField> = Vec::new();
        let mut i: usize = 0;
        while i < schema.fields.len()
            invariant
                i <= schema.fields@.len(),
                fv == schema@,
                fv.len() == schema.fields@.len(),
                rv == renames_view(renames@),
                fields_view(new_fields@) == renamed_fields(fv.subrange(0, i as int), rv),
            decreases schema.fields.len() - i,
        {
            proof {
                lemma_fields_view_index(schema.fields@, i as int);
                let t = fv.subrange(0, i + 1);
                assert(t.drop_last() =~= fv.subrange(0, i as int));
                assert(t.last() == fv[i as int]);
            }
            let field = &schema.fields[i];
            let new_field = match find_rename(renames, &field.name) {
                Some(new_name) => StructField::new(new_name.clone(), field.data_type.clone(), field.nullable)
                    .with_metadata(field.metadata.clone()),
                None => field.clone(),
            };
            let ghost before = new_fields@;
            new_fields.push(new_field);
            proof {
                assert(new_fields@.drop_last() =~= before);
            }
            i = i + 1;
        }
        proof {
            assert(fv.subrange(0, i as int) =~= fv);
        }
        Ok(StructType::new(new_fields))
    }
}

/// The fields whose names are not to be dropped, in order.
pub open spec fn kept_fields(fs: Seq<FieldView>, drops: Seq<Seq<char>>) -> Seq<FieldView>
    decreases fs.len(),
{
    if fs.len() == 0 {
        Seq::empty()
    } else {
        let rest = kept_fields(fs.drop_last(), drops);
        if drops.contains(fs.last().name) {
            rest
        } else {
            rest.push(fs.last())
        }
    }
}

/// What a list of names denotes.
pub open spec fn strings_view(ss: Seq<String>) -> Seq<Seq<char>> {
    ss.map_values(|s: String| s@)
}

/// Whether `name` is in the list.
pub fn contains_name(names: &Vec<String>, name: &String) -> (b: bool)
    ensures
        b == strings_view(names@).contains(name@),
{
    let mut i: usize = 0;
    while i < names.len()
        invariant
            i <= names@.len(),
            forall|j: int| 0 <= j < i ==> names@[j]@ != name@,
        decreases names.len() - i,
    {
        if names[i] == *name {
            assert(strings_view(names@)[i as int] == name@);
            return true;
        }
        i = i + 1;
    }
    proof {
        if strings_view(names@).contains(name@) {
            let j = choose|j: int| 0 <= j < strings_view(names@).len() && strings_view(names@)[j] == name@;
            assert(names@[j]@ == name@);
        }
    }
    false
}

impl<L, H> SchemaEvolutionBuilder<L, H> {
    /// The schema without the fields named to be dropped; refused where no field would
    /// remain.
    pub fn drop_columns_from_schema(&self, schema: StructType) -> (r: Result<StructType, DeltaTableError>)
        ensures
            ({
                let kept = kept_fields(schema@, strings_view(self.drop_columns@));
                if kept.len() == 0 {
                    r matches Err(DeltaTableError::CannotDropAllColumns)
                } else {
                    r matches Ok(s) && s@ == collapse_by_name(kept)
                }
            }),
    {
        let drops = &self.drop_columns;
        let ghost fv = schema@;
        let ghost dv = strings_view(drops@);
        proof {
            lemma_fields_view_len(schema.fields@);
        }
        let mut remaining: Vec<StructField> = Vec::new();
        let mut i: usize = 0;
        while i < schema.fields.len()
            invariant
                i <= schema.fields@.len(),
                fv == schema@,
                fv.len() == schema.fields@.len(),
                dv == strings_view(drops@),
                fields_view(remaining@) == kept_fields(fv.subrange(0, i as int), dv),
            decreases schema.fields.len() - i,
        {
            proof {
                lemma_fields_view_index(schema.fields@, i as int);
                let t = fv.subrange(0, i + 1);
                assert(t.drop_last() =~= fv.subrange(0, i as int));
                assert(t.last() == fv[i as int]);
            }
            let field = &schema.fields[i];
            if !contains_name(drops, &field.name) {
                let ghost before = remaining@;
                remaining.push(field.clone());
                proof {
                    assert(remaining@.drop_last() =~= before);
                }
            }
            i = i + 1;
        }
        proof {
            assert(fv.subrange(0, i as int) =~= fv);
            lemma_fields_view_len(remaining@);
        }
        if remaining.len() == 0 {
            return Err(DeltaTableError::CannotDropAllColumns);
        }
        Ok(StructType::new(remaining))
    }
}


/// What a list of type changes denotes.
pub open spec fn type_changes_view(tcs: Seq<(String, DataType)>) -> Seq<(Seq<char>, TypeView)> {
    tcs.map_values(|p: (String, DataType)| (p.0@, p.1@))
}

/// The type that the last change of `name` requests, if any: the changes are kept in a
/// map by name, where a later change replaces an earlier one.
pub open spec fn change_target(tcs: Seq<(Seq<char>, TypeView)>, name: Seq<char>) -> Option<TypeView>
    decreases tcs.len(),
{
    if tcs.len() == 0 {
        None
    } else if tcs.last().0 == name {
        Some(tcs.last().1)
    } else {
        change_target(tcs.drop_last(), name)
    }
}

/// The top-level fields with their types changed, or the position of the first field
/// whose change is not safe.
pub open spec fn changed_fields(fs: Seq<FieldView>, tcs: Seq<(Seq<char>, TypeView)>) -> Result<Seq<FieldView>, int>
    decreases fs.len(),
{
    if fs.len() == 0 {
        Ok(Seq::empty())
    } else {
        match changed_fields(fs.drop_last(), tcs) {
            Err(i) => Err(i),
            Ok(s) => {
                let f = fs.last();
                match change_target(tcs, f.name) {
                    Some(t) => if !type_change_safe(f.data_type, t) {
                        Err(fs.len() - 1)
                    } else {
                        Ok(s.push(FieldView { data_type: t, ..f }))
                    },
                    None => Ok(s.push(f)),
                }
            },
        }
    }
}

pub proof fn lemma_changed_fields_err(fs: Seq<FieldView>, tcs: Seq<(Seq<char>, TypeView)>)
    ensures
        changed_fields(fs, tcs) matches Err(i) ==> 0 <= i < fs.len(),
    decreases fs.len(),
{
    if fs.len() > 0 {
        lemma_changed_fields_err(fs.drop_last(), tcs);
    }
}

/// The last type change of `name`, if any.
fn find_type_change<'a>(tcs: &'a Vec<(String, DataType)>, name: &String) -> (r: Option<&'a DataType>)
    ensures
        match r {
            Some(t) => change_target(type_changes_view(tcs@), name@) == Some(t@),
            None => change_target(type_changes_view(tcs@), name@) is None,
        },
{
    let ghost tv = type_changes_view(tcs@);
    let mut i = tcs.len();
    assert(tv.subrange(0, i as int) =~= tv);
    while i > 0
        invariant
            i <= tcs@.len(),
            tv == type_changes_view(tcs@),
            change_target(tv, name@) == change_target(tv.subrange(0, i as int), name@),
        decreases i,
    {
        let ghost sub = tv.subrange(0, i as int);
        proof {
            assert(sub.drop_last() =~= tv.subrange(0, i - 1));
            assert(sub.last() == tv[i - 1]);
        }
        if tcs[i - 1].0 == *name {
            return Some(&tcs[i - 1].1);
        }
        i = i - 1;
    }
    None
}

impl<L, H> SchemaEvolutionBuilder<L, H> {
    /// The schema with the requested type changes; refused at the first field, in schema
    /// order, whose change is not safe.
    pub fn change_column_types(&self, schema: StructType) -> (r: Result<StructType, DeltaTableError>)
        ensures
            match changed_fields(schema@, type_changes_view(self.type_changes@)) {
                Ok(fs) => r matches Ok(s) && s@ == collapse_by_name(fs),
                Err(i) => r matches Err(DeltaTableError::UnsafeTypeChange { column, from, to })
                    && column@ == schema@[i].name && from@ == schema@[i].data_type
                    && change_target(type_changes_view(self.type_changes@), schema@[i].name) == Some(to@),
            },
    {
        let type_changes = &self.type_changes;
        let ghost fv = schema@;
        let ghost tv = type_changes_view(type_changes@);
        proof {
            lemma_fields_view_len(schema.fields@);
        }
        let mut new_fields: Vec<StructField> = Vec::new();
        let mut i: usize = 0;
        while i < schema.fields.len()
            invariant
                i <= schema.fields@.len(),
                fv == schema@,
                fv.len() == schema.fields@.len(),
                tv == type_changes_view(type_changes@),
                type_changes@ == self.type_changes@,
                changed_fields(fv.subrange(0, i as int), tv) == Ok::<Seq<FieldView>, int>(fields_view(new_fields@)),
            decreases schema.fields.len() - i,
        {
            proof {
                lemma_fields_view_index(schema.fields@, i as int);
                let t = fv.subrange(0, i + 1);
                assert(t.drop_last() =~= fv.subrange(0, i as int));
                assert(t.last() == fv[i as int]);
            }
            let field = &schema.fields[i];
            let new_field = match find_type_change(type_changes, &field.name) {
                Some(new_type) => {
                    if !self.is_type_change_safe(&field.data_type, new_type) {
                        proof {
                            assert(changed_fields(fv.subrange(0, i + 1), tv) == Err::<Seq<FieldView>, int>(i as int));
                            lemma_changed_prefix_err(fv, tv, i + 1);
                        }
                        return Err(
                            DeltaTableError::UnsafeTypeChange {
                                column: field.name.clone(),
                                from: field.data_type.clone(),
                                to: new_type.clone(),
                            },
                        );
                    }
                    StructField::new(field.name.clone(), new_type.clone(), field.nullable).with_metadata(
                        field.metadata.clone(),
                    )
                },
                None => field.clone(),
            };
            let ghost before = new_fields@;
            new_fields.push(new_field);
            proof {
                assert(new_fields@.drop_last() =~= before);
            }
            i = i + 1;
        }
        proof {
            assert(fv.subrange(0, i as int) =~= fv);
        }
        Ok(StructType::new(new_fields))
    }
}

/// Once a prefix of the fields fails, the whole list fails at the same place.
pub proof fn lemma_changed_prefix_err(fs: Seq<FieldView>, tcs: Seq<(Seq<char>, TypeView)>, k: int)
    requires
        0 <= k <= fs.len(),
        changed_fields(fs.subrange(0, k), tcs) is Err,
    ensures
        changed_fields(fs, tcs) == changed_fields(fs.subrange(0, k), tcs),
    decreases fs.len() - k,
{
    if k < fs.len() {
        let t = fs.subrange(0, k + 1);
        assert(t.drop_last() =~= fs.subrange(0, k));
        lemma_changed_prefix_err(fs, tcs, k + 1);
    } else {
        assert(fs.subrange(0, k) =~= fs);
    }
}


/// New columns numbered for column mapping: the i-th gets the id `start + i` and the
/// physical name `col-<start + i>`.
pub open spec fn numbered_columns(fs: Seq<FieldView>, start: int) -> Seq<FieldView>
    decreases fs.len(),
{
    if fs.len() == 0 {
        Seq::empty()
    } else {
        let n = start + fs.len() - 1;
        let f = fs.last();
        numbered_columns(fs.drop_last(), start).push(
            FieldView {
                metadata: f.metadata.insert(column_id_key(), MetaView::Number(n)).insert(
                    physical_name_key(),
                    MetaView::Str("col-"@ + decimal(n)),
                ),
                ..f
            },
        )
    }
}

/// The fields that adding `new_columns` merges into the schema: when column mapping is
/// on, the new columns (a later one replacing an earlier of its name) numbered from one
/// past the largest id of the schema; otherwise the new columns as they are.
pub open spec fn columns_to_add(schema: Seq<FieldView>, new_columns: Seq<FieldView>, mapping_on: bool) -> Seq<FieldView> {
    if mapping_on {
        numbered_columns(collapse_by_name(new_columns), max_column_id_of(schema) + 1)
    } else {
        new_columns
    }
}

/// Numbers new columns for column mapping from `start`.
fn number_columns(fields: &Vec<StructField>, start: i64) -> (r: Vec<StructField>)
    requires
        0 <= start,
        start + fields@.len() <= i64::MAX,
    ensures
        fields_view(r@) == numbered_columns(fields_view(fields@), start as int),
{
    let ghost fv = fields_view(fields@);
    proof {
        lemma_fields_view_len(fields@);
    }
    let mut out: Vec<StructField> = Vec::new();
    let mut i: usize = 0;
    while i < fields.len()
        invariant
            i <= fields@.len(),
            fv == fields_view(fields@),
            fv.len() == fields@.len(),
            0 <= start,
            start + fields@.len() <= i64::MAX,
            fields_view(out@) == numbered_columns(fv.subrange(0, i as int), start as int),
        decreases fields.len() - i,
    {
        proof {
            lemma_fields_view_index(fields@, i as int);
            let t = fv.subrange(0, i + 1);
            assert(t.drop_last() =~= fv.subrange(0, i as int));
            assert(t.last() == fv[i as int]);
        }
        let field = &fields[i];
        let id: i64 = start + i as i64;
        let mut metadata = field.metadata.clone();
        metadata.insert(String::from_str("delta.columnMapping.id"), MetadataValue::Number(id));
        let mut physical = String::from_str("col-");
        physical.append(i64_to_string(id).as_str());
        metadata.insert(String::from_str("delta.columnMapping.physicalName"), MetadataValue::String(physical));
        proof {
            assert(metadata_view(metadata) =~= fv[i as int].metadata.insert(
                column_id_key(),
                MetaView::Number(id as int),
            ).insert(physical_name_key(), MetaView::Str("col-"@ + decimal(id as int))));
        }
        let f = StructField::new(field.name.clone(), field.data_type.clone(), field.nullable).with_metadata(metadata);
        let ghost before = out@;
        out.push(f);
        proof {
            assert(out@.drop_last() =~= before);
            lemma_fields_view_len(out@);
            assert(fields_view(out@) == fields_view(before).push(field_view(f)));
        }
        i = i + 1;
    }
    proof {
        assert(fv.subrange(0, i as int) =~= fv);
    }
    out
}

/// Whether new columns get column mapping metadata: column mapping is to be enabled, or
/// the table has it already.
pub open spec fn maps_new_columns<L, H>(b: SchemaEvolutionBuilder<L, H>) -> bool {
    b.enable_column_mapping || column_mapping_enabled(b.snapshot.configuration@)
}

/// What adding the new columns gives: the schema merged with them, or the position of
/// the first field of the schema that they conflict with.
pub open spec fn with_new_columns_added(schema: Seq<FieldView>, new_columns: Seq<FieldView>, mapping_on: bool) -> Result<
    Seq<FieldView>,
    int,
> {
    merged_struct(schema, collapse_by_name(columns_to_add(schema, new_columns, mapping_on)))
}

impl<L, H> SchemaEvolutionBuilder<L, H> {
    /// Merges the new columns into the schema, numbering them for column mapping where
    /// it is on.
    pub fn add_new_columns(&self, schema: StructType) -> (r: Result<StructType, DeltaTableError>)
        requires
            maps_new_columns(*self) ==> max_column_id_of(schema@) + 1 + self.new_columns@.len() <= i64::MAX,
        ensures
            match with_new_columns_added(schema@, fields_view(self.new_columns@), maps_new_columns(*self)) {
                Ok(fs) => r matches Ok(s) && s@ == fs,
                Err(i) => r matches Err(DeltaTableError::SchemaMerge { column }) && column@ == schema@[i].name,
            },
    {
        let new_columns = &self.new_columns;
        let mapping_on = self.enable_column_mapping || is_column_mapping_enabled(&self.snapshot.configuration);
        let fields = if mapping_on {
            let start = get_max_column_id(&schema) + 1;
            let mut copies: Vec<StructField> = Vec::new();
            let mut i: usize = 0;
            while i < new_columns.len()
                invariant
                    i <= new_columns@.len(),
                    copies@.len() == i,
                    forall|k: int| 0 <= k < i ==> field_view(#[trigger] copies@[k]) == field_view(new_columns@[k]),
                decreases new_columns.len() - i,
            {
                copies.push(new_columns[i].clone());
                i = i + 1;
            }
            proof {
                crate::schema::lemma_fields_view_ext(copies@, new_columns@);
            }
            let new_fields_struct = StructType::new(copies);
            proof {
                lemma_max_column_id_nonneg(schema@);
                lemma_collapse_len(fields_view(new_columns@));
                lemma_fields_view_len(new_fields_struct.fields@);
                lemma_fields_view_len(new_columns@);
            }
            let numbered = number_columns(&new_fields_struct.fields, start);
            assert(fields_view(numbered@) == columns_to_add(schema@, fields_view(new_columns@), mapping_on));
            numbered
        } else {
            let mut copies: Vec<StructField> = Vec::new();
            let mut i: usize = 0;
            while i < new_columns.len()
                invariant
                    i <= new_columns@.len(),
                    copies@.len() == i,
                    forall|k: int| 0 <= k < i ==> field_view(#[trigger] copies@[k]) == field_view(new_columns@[k]),
                decreases new_columns.len() - i,
            {
                copies.push(new_columns[i].clone());
                i = i + 1;
            }
            proof {
                crate::schema::lemma_fields_view_ext(copies@, new_columns@);
            }
            copies
        };
        assert(fields_view(fields@) == columns_to_add(schema@, fields_view(new_columns@), mapping_on));
        let fields_struct = StructType::new(fields);
        assert(fields_struct@ == collapse_by_name(columns_to_add(schema@, fields_view(new_columns@), mapping_on)));
        match merge_struct_fields(&schema.fields, &fields_struct.fields) {
            Ok(s) => Ok(s),
            Err(i) => {
                let len = schema.fields.len();
                proof {
                    crate::merge::lemma_merged_struct_err(schema@, fields_struct@);
                    lemma_fields_view_len(schema.fields@);
                    let j = merged_struct(schema@, fields_struct@)->Err_0;
                    assert(j < len && j as usize == i);
                    lemma_fields_view_index(schema.fields@, j);
                }
                let column = schema.fields[i].name.clone();
                Err(DeltaTableError::SchemaMerge { column })
            },
        }
    }
}

/// Collapsing never makes a list longer.
pub proof fn lemma_collapse_len(fs: Seq<FieldView>)
    ensures
        collapse_by_name(fs).len() <= fs.len(),
    decreases fs.len(),
{
    if fs.len() > 0 {
        lemma_collapse_len(fs.drop_last());
    }
}


/// What a change of the schema leaves the table with: its configuration, its protocol
/// and its schema.
pub struct SchemaEvolutionPlan {
    pub configuration: StrMap<Option<String>>,
    pub protocol: Protocol,
    pub schema: StructType,
}

/// Why a change of the schema is refused.
pub enum EvolutionRefusal {
    /// A new column conflicts with the column of this name.
    SchemaMerge(Seq<char>),
    /// No column would remain.
    CannotDropAllColumns,
    /// The column of this name cannot change from the first type to the second.
    UnsafeTypeChange(Seq<char>, TypeView, TypeView),
}

/// The refusal that an error reports, if it is one of a change of the schema.
pub open spec fn refusal_of(e: DeltaTableError) -> Option<EvolutionRefusal> {
    match e {
        DeltaTableError::SchemaMerge { column } => Some(EvolutionRefusal::SchemaMerge(column@)),
        DeltaTableError::CannotDropAllColumns => Some(EvolutionRefusal::CannotDropAllColumns),
        DeltaTableError::UnsafeTypeChange { column, from, to } => Some(
            EvolutionRefusal::UnsafeTypeChange(column@, from@, to@),
        ),
        _ => None,
    }
}

/// Whether the change turns column mapping on: it is asked for, and the table does not
/// have it yet.
pub open spec fn turns_mapping_on<L, H>(b: SchemaEvolutionBuilder<L, H>) -> bool {
    b.enable_column_mapping && !column_mapping_enabled(b.snapshot.configuration@)
}

/// The schema once column mapping is turned on: the top-level fields that lack an id
/// numbered from 1.
pub open spec fn schema_with_mapping<L, H>(b: SchemaEvolutionBuilder<L, H>) -> Seq<FieldView> {
    if turns_mapping_on(b) {
        collapse_by_name(mapped_fields(b.snapshot.schema@, 1, true))
    } else {
        b.snapshot.schema@
    }
}

/// Whether the ids that the change hands out fit in an `i64`.
pub open spec fn evolution_ids_fit<L, H>(b: SchemaEvolutionBuilder<L, H>) -> bool {
    &&& turns_mapping_on(b) ==> 1 + missing_ids(b.snapshot.schema@) <= i64::MAX
    &&& (b.new_columns@.len() > 0 && maps_new_columns(b)) ==> max_column_id_of(schema_with_mapping(b)) + 1
        + b.new_columns@.len() <= i64::MAX
}

/// The configuration after the change: where column mapping is turned on, its mode is
/// `name` and the largest column id is that of the schema before.
pub open spec fn evolved_configuration<L, H>(b: SchemaEvolutionBuilder<L, H>) -> Map<Seq<char>, Option<Seq<char>>> {
    let c = config_view(b.snapshot.configuration@);
    if turns_mapping_on(b) {
        c.insert(mode_key(), Some("name"@)).insert(
            max_column_id_key(),
            Some(decimal(max_column_id_of(b.snapshot.schema@))),
        )
    } else {
        c
    }
}

/// The protocol that the change asks for: where column mapping is turned on, readers of
/// version 2 and writers of version 5, both knowing column mapping besides what they
/// knew. The kernel's own adjustment of a protocol to a schema and to table properties,
/// and the check whether the protocol changed at all, are left to the caller, which
/// commits the change with the kernel at hand.
pub open spec fn evolved_protocol<L, H>(b: SchemaEvolutionBuilder<L, H>) -> ProtocolView {
    let p = b.snapshot.protocol@;
    if turns_mapping_on(b) {
        ProtocolView {
            min_reader_version: 2,
            min_writer_version: 5,
            reader_features: Some(with_column_mapping_feature(features_or_empty(p.reader_features))),
            writer_features: Some(with_column_mapping_feature(features_or_empty(p.writer_features))),
        }
    } else {
        p
    }
}

/// The schema after the type changes, or why they are refused.
pub open spec fn evolved_types(s: Seq<FieldView>, tcs: Seq<(Seq<char>, TypeView)>) -> Result<
    Seq<FieldView>,
    EvolutionRefusal,
> {
    if tcs.len() == 0 {
        Ok(s)
    } else {
        match changed_fields(s, tcs) {
            Ok(fs) => Ok(collapse_by_name(fs)),
            Err(i) => Err(
                EvolutionRefusal::UnsafeTypeChange(s[i].name, s[i].data_type, change_target(tcs, s[i].name)->0),
            ),
        }
    }
}

/// The schema after the renames, drops and type changes, or why it is refused.
pub open spec fn evolved_after_adding(
    s: Seq<FieldView>,
    renames: Seq<(Seq<char>, Seq<char>)>,
    drops: Seq<Seq<char>>,
    tcs: Seq<(Seq<char>, TypeView)>,
) -> Result<Seq<FieldView>, EvolutionRefusal> {
    let renamed = if renames.len() > 0 {
        collapse_by_name(renamed_fields(s, renames))
    } else {
        s
    };
    if drops.len() > 0 {
        let kept = kept_fields(renamed, drops);
        if kept.len() == 0 {
            Err(EvolutionRefusal::CannotDropAllColumns)
        } else {
            evolved_types(collapse_by_name(kept), tcs)
        }
    } else {
        evolved_types(renamed, tcs)
    }
}

/// The schema after the change, or why it is refused: column mapping turned on where
/// asked, then the new columns added, the renames, the drops and the type changes.
pub open spec fn evolved_schema<L, H>(b: SchemaEvolutionBuilder<L, H>) -> Result<Seq<FieldView>, EvolutionRefusal> {
    let s1 = schema_with_mapping(b);
    let renames = renames_view(b.rename_columns@);
    let drops = strings_view(b.drop_columns@);
    let tcs = type_changes_view(b.type_changes@);
    if b.new_columns@.len() > 0 {
        match with_new_columns_added(s1, fields_view(b.new_columns@), maps_new_columns(b)) {
            Ok(s2) => evolved_after_adding(s2, renames, drops, tcs),
            Err(i) => Err(EvolutionRefusal::SchemaMerge(s1[i].name)),
        }
    } else {
        evolved_after_adding(s1, renames, drops, tcs)
    }
}

impl<L, H> SchemaEvolutionBuilder<L, H> {
    /// Works out the change: the table's configuration, protocol and schema after it, or
    /// the error that refuses it. The commit of the result is left to the caller, and
    /// with it the kernel's adjustment of the protocol to the new schema and properties.
    pub fn plan(&self) -> (r: Result<SchemaEvolutionPlan, DeltaTableError>)
        requires
            evolution_ids_fit(*self),
        ensures
            match evolved_schema(*self) {
                Ok(fs) => r matches Ok(p) && p.schema@ == fs && config_view(p.configuration@)
                    == evolved_configuration(*self) && p.protocol@ == evolved_protocol(*self),
                Err(e) => r matches Err(err) && refusal_of(err) == Some(e),
            },
    {
        let enabled = is_column_mapping_enabled(&self.snapshot.configuration);
        let mut configuration = self.snapshot.configuration.clone();
        let mut protocol = self.snapshot.protocol.clone();
        let mut schema = self.snapshot.schema.clone();
        if self.enable_column_mapping && !enabled {
            let max_column_id = get_max_column_id(&schema);
            configuration.insert(String::from_str("delta.columnMapping.mode"), Some(String::from_str("name")));
            configuration.insert(
                String::from_str("delta.columnMapping.maxColumnId"),
                Some(i64_to_string(max_column_id)),
            );
            let mut reader_features = match protocol.reader_features {
                Some(fs) => fs,
                None => Vec::new(),
            };
            insert_column_mapping(&mut reader_features);
            let mut writer_features = match protocol.writer_features {
                Some(fs) => fs,
                None => Vec::new(),
            };
            insert_column_mapping(&mut writer_features);
            protocol = Protocol {
                min_reader_version: 2,
                min_writer_version: 5,
                reader_features: Some(reader_features),
                writer_features: Some(writer_features),
            };
            proof {
                lemma_fields_view_len(schema.fields@);
                lemma_fields_view_len(self.snapshot.schema.fields@);
            }
            schema = match add_column_mapping_metadata(schema, true) {
                Ok(s) => s,
                Err(e) => return Err(e),
            };
        }
        proof {
            assert(config_view(configuration@) =~= evolved_configuration(*self));
            assert(schema@ == schema_with_mapping(*self));
        }
        if self.new_columns.len() > 0 {
            schema = match self.add_new_columns(schema) {
                Ok(s) => s,
                Err(e) => return Err(e),
            };
        }
        if self.rename_columns.len() > 0 {
            schema = match self.rename_columns_in_schema(schema) {
                Ok(s) => s,
                Err(e) => return Err(e),
            };
        }
        if self.drop_columns.len() > 0 {
            schema = match self.drop_columns_from_schema(schema) {
                Ok(s) => s,
                Err(e) => return Err(e),
            };
        }
        if self.type_changes.len() > 0 {
            schema = match self.change_column_types(schema) {
                Ok(s) => s,
                Err(e) => return Err(e),
            };
        }
        Ok(SchemaEvolutionPlan { configuration, protocol, schema })
    }
}


/// How a write treats a schema that differs from the table's.
#[derive(Clone, Copy, Debug, PartialEq, Eq, Structural)]
pub enum SchemaMode {
    /// The new columns are merged into the table's schema.
    Merge,
    /// The table's schema is replaced.
    Overwrite,
}

/// What a write is set up with before it runs: the schema mode, where one is set, and
/// configuration entries for the table.
pub struct WriteSettings {
    pub schema_mode: Option<SchemaMode>,
    pub table_configuration: StrMap<Option<String>>,
}

/// A write that evolves the table's schema as asked. `W` is the write it sets up.
pub struct SchemaAwareWriteBuilder<W> {
    pub write_builder: W,
    pub auto_evolve_schema: bool,
    pub allow_type_widening: bool,
    pub enable_column_mapping: bool,
}

impl<W> SchemaAwareWriteBuilder<W> {
    /// A write with no schema evolution.
    pub fn new(write_builder: W) -> (r: Self)
        ensures
            r.write_builder == write_builder,
            !r.auto_evolve_schema,
            !r.allow_type_widening,
            !r.enable_column_mapping,
    {
        SchemaAwareWriteBuilder {
            write_builder,
            auto_evolve_schema: false,
            allow_type_widening: false,
            enable_column_mapping: false,
        }
    }

    /// Merges new columns into the table's schema.
    pub fn with_auto_schema_evolution(self) -> (r: Self)
        ensures
            r == (SchemaAwareWriteBuilder { auto_evolve_schema: true, ..self }),
    {
        let mut b = self;
        b.auto_evolve_schema = true;
        b
    }

    /// Allows a column's type to widen.
    pub fn with_type_widening(self) -> (r: Self)
        ensures
            r == (SchemaAwareWriteBuilder { allow_type_widening: true, ..self }),
    {
        let mut b = self;
        b.allow_type_widening = true;
        b
    }

    /// Turns column mapping on for the table.
    pub fn with_column_mapping(self) -> (r: Self)
        ensures
            r == (SchemaAwareWriteBuilder { enable_column_mapping: true, ..self }),
    {
        let mut b = self;
        b.enable_column_mapping = true;
        b
    }

    /// What the write is set up with: merging of the schema where it evolves
    /// automatically, and column mapping by name where that is asked for.
    pub fn write_settings(&self) -> (r: WriteSettings)
        ensures
            r.schema_mode == if self.auto_evolve_schema {
                Some(SchemaMode::Merge)
            } else {
                None
            },
            config_view(r.table_configuration@) == if self.enable_column_mapping {
                map![mode_key() => Some("name"@)]
            } else {
                Map::<Seq<char>, Option<Seq<char>>>::empty()
            },
    {
        let schema_mode = if self.auto_evolve_schema {
            Some(SchemaMode::Merge)
        } else {
            None
        };
        let mut table_configuration: StrMap<Option<String>> = StrMap::new();
        if self.enable_column_mapping {
            table_configuration.insert(String::from_str("delta.columnMapping.mode"), Some(String::from_str("name")));
        }
        proof {
            assert(config_view(table_configuration@) =~= if self.enable_column_mapping {
                map![mode_key() => Some("name"@)]
            } else {
                Map::<Seq<char>, Option<Seq<char>>>::empty()
            });
        }
        WriteSettings { schema_mode, table_configuration }
    }
}

/// Whether changing a column from `from` to `to` widens its type: a wider integer, or
/// a float to a double.
pub open spec fn is_type_widening(from: TypeView, to: TypeView) -> bool {
    let byte = TypeView::Primitive(PrimitiveType::Byte);
    let short = TypeView::Primitive(PrimitiveType::Short);
    let integer = TypeView::Primitive(PrimitiveType::Integer);
    let long = TypeView::Primitive(PrimitiveType::Long);
    ||| from == byte && (to == short || to == integer || to == long)
    ||| from == short && (to == integer || to == long)
    ||| from == integer && to == long
    ||| from == TypeView::Primitive(PrimitiveType::Float) && to == TypeView::Primitive(PrimitiveType::Double)
}

/// Whether changing a column of type `from` to type `to` widens its type.
pub fn type_widens(from: &DataType, to: &DataType) -> (r: bool)
    ensures
        r == is_type_widening(from@, to@),
{
    match (from, to) {
        (DataType::Primitive(PrimitiveType::Byte), DataType::Primitive(PrimitiveType::Short))
        | (DataType::Primitive(PrimitiveType::Byte), DataType::Primitive(PrimitiveType::Integer))
        | (DataType::Primitive(PrimitiveType::Byte), DataType::Primitive(PrimitiveType::Long)) => true,
        (DataType::Primitive(PrimitiveType::Short), DataType::Primitive(PrimitiveType::Integer))
        | (DataType::Primitive(PrimitiveType::Short), DataType::Primitive(PrimitiveType::Long)) => true,
        (DataType::Primitive(PrimitiveType::Integer), DataType::Primitive(PrimitiveType::Long)) => true,
        (DataType::Primitive(PrimitiveType::Float), DataType::Primitive(PrimitiveType::Double)) => true,
        _ => false,
    }
}

/// A table field as a write with type widening leaves it: where the data holds a
/// column of its name, the first, whose type its own widens to, it takes that type.
pub open spec fn widened_field(f: FieldView, data: Seq<FieldView>) -> FieldView {
    match first_named(data, f.name) {
        Some(j) => if is_type_widening(f.data_type, data[j].data_type) {
            FieldView { data_type: data[j].data_type, ..f }
        } else {
            f
        },
        None => f,
    }
}

/// The table's fields, each widened to the type of the data's column of its name.
pub open spec fn widened_fields(table: Seq<FieldView>, data: Seq<FieldView>) -> Seq<FieldView> {
    table.map_values(|f: FieldView| widened_field(f, data))
}

/// The schema that writing or merging data of schema `data` leaves a table of schema
/// `table` with: its columns widened to the data's types where `widen` holds, then,
/// where `add_columns` holds, the data's columns merged in; or the position of the
/// first column that the data's cannot be merged with.
pub open spec fn evolved_target(table: Seq<FieldView>, data: Seq<FieldView>, widen: bool, add_columns: bool) -> Result<
    Seq<FieldView>,
    int,
> {
    let w = if widen {
        widened_fields(table, data)
    } else {
        table
    };
    if add_columns {
        merged_struct(w, data)
    } else {
        Ok(w)
    }
}

/// The columns that a refused merge is reported at.
pub open spec fn target_columns(table: Seq<FieldView>, data: Seq<FieldView>, widen: bool) -> Seq<FieldView> {
    if widen {
        widened_fields(table, data)
    } else {
        table
    }
}

/// Widens each table field to the type of the data's column of its name.
fn widen_fields(table: &Vec<StructField>, data: &Vec<StructField>) -> (r: Vec<StructField>)
    ensures
        fields_view(r@) == widened_fields(fields_view(table@), fields_view(data@)),
{
    let ghost tv = fields_view(table@);
    let ghost dv = fields_view(data@);
    proof {
        lemma_fields_view_len(table@);
        lemma_fields_view_len(data@);
    }
    let mut out: Vec<StructField> = Vec::new();
    let mut i: usize = 0;
    while i < table.len()
        invariant
            i <= table@.len(),
            tv == fields_view(table@),
            tv.len() == table@.len(),
            dv == fields_view(data@),
            dv.len() == data@.len(),
            fields_view(out@) == widened_fields(tv.subrange(0, i as int), dv),
        decreases table.len() - i,
    {
        proof {
            lemma_fields_view_index(table@, i as int);
        }
        let f = &table[i];
        let ghost wf = widened_field(tv[i as int], dv);
        let nf = match find_first_named(data, &f.name) {
            Some(j) => {
                proof {
                    lemma_first_named_range(dv, f.name@);
                    lemma_fields_view_index(data@, j as int);
                }
                if type_widens(&f.data_type, &data[j].data_type) {
                    let g = StructField {
                        name: f.name.clone(),
                        data_type: data[j].data_type.clone(),
                        nullable: f.nullable,
                        metadata: f.metadata.clone(),
                    };
                    assert(field_view(g) == wf);
                    g
                } else {
                    f.clone()
                }
            },
            None => f.clone(),
        };
        let ghost before = out@;
        out.push(nf);
        proof {
            assert(out@.drop_last() =~= before);
            lemma_fields_view_len(out@);
            lemma_fields_view_len(before);
            assert(fields_view(out@) =~= fields_view(before).push(field_view(nf)));
            assert(widened_fields(tv.subrange(0, i + 1), dv) =~= widened_fields(tv.subrange(0, i as int), dv).push(wf));
        }
        i = i + 1;
    }
    proof {
        assert(tv.subrange(0, i as int) =~= tv);
    }
    out
}

/// The schema that writing or merging data of schema `data` leaves a table of schema
/// `table` with; see `evolved_target`.
fn target_schema_of(table: &StructType, data: &StructType, widen: bool, add_columns: bool) -> (r: Result<
    StructType,
    DeltaTableError,
>)
    ensures
        match evolved_target(table@, data@, widen, add_columns) {
            Ok(fs) => r matches Ok(s) && s@ == fs,
            Err(i) => r matches Err(DeltaTableError::SchemaMerge { column }) && column@ == target_columns(
                table@,
                data@,
                widen,
            )[i].name,
        },
        r matches Ok(s) ==> (table.well_formed() ==> s.well_formed()),
{
    let widened = if widen {
        widen_fields(&table.fields, &data.fields)
    } else {
        table.clone().fields
    };
    proof {
        lemma_fields_view_len(widened@);
    }
    if add_columns {
        match merge_struct_fields(&widened, &data.fields) {
            Ok(s) => Ok(s),
            Err(i) => {
                let len = widened.len();
                proof {
                    crate::merge::lemma_merged_struct_err(fields_view(widened@), data@);
                    let j = merged_struct(fields_view(widened@), data@)->Err_0;
                    assert(j < len && j as usize == i);
                    lemma_fields_view_index(widened@, j);
                }
                Err(DeltaTableError::SchemaMerge { column: widened[i].name.clone() })
            },
        }
    } else {
        proof {
            let tv = table@;
            let wv = fields_view(widened@);
            if widen {
                assert forall|i: int| 0 <= i < tv.len() implies #[trigger] wv[i].name == tv[i].name by {
                    assert(wv[i] == widened_field(tv[i], data@));
                }
            }
        }
        Ok(StructType { fields: widened })
    }
}

impl<W> SchemaAwareWriteBuilder<W> {
    /// The schema that writing data of schema `data` leaves a table of schema `table`
    /// with: a column widens (int32 to int64, float to double) to the data's type where
    /// type widening is allowed, and the data's new columns are merged in where the
    /// schema evolves automatically; refused where they cannot be merged.
    pub fn target_schema(&self, table: &StructType, data: &StructType) -> (r: Result<StructType, DeltaTableError>)
        ensures
            match evolved_target(table@, data@, self.allow_type_widening, self.auto_evolve_schema) {
                Ok(fs) => r matches Ok(s) && s@ == fs,
                Err(i) => r matches Err(DeltaTableError::SchemaMerge { column }) && column@ == target_columns(
                    table@,
                    data@,
                    self.allow_type_widening,
                )[i].name,
            },
    {
        target_schema_of(table, data, self.allow_type_widening, self.auto_evolve_schema)
    }
}

/// A merge that evolves the table's schema as asked. `M` is the merge it sets up.
pub struct SchemaAwareMergeBuilder<M> {
    pub merge_builder: M,
    pub handle_new_columns: bool,
    pub handle_type_changes: bool,
    pub enable_column_mapping: bool,
}

impl<M> SchemaAwareMergeBuilder<M> {
    /// A merge that adds new columns to the schema, and nothing more.
    pub fn new(merge_builder: M) -> (r: Self)
        ensures
            r.merge_builder == merge_builder,
            r.handle_new_columns,
            !r.handle_type_changes,
            !r.enable_column_mapping,
    {
        SchemaAwareMergeBuilder {
            merge_builder,
            handle_new_columns: true,
            handle_type_changes: false,
            enable_column_mapping: false,
        }
    }

    /// Whether new columns are added to the schema.
    pub fn with_new_columns(self, enabled: bool) -> (r: Self)
        ensures
            r == (SchemaAwareMergeBuilder { handle_new_columns: enabled, ..self }),
    {
        let mut b = self;
        b.handle_new_columns = enabled;
        b
    }

    /// Whether type changes are handled.
    pub fn with_type_changes(self, enabled: bool) -> (r: Self)
        ensures
            r == (SchemaAwareMergeBuilder { handle_type_changes: enabled, ..self }),
    {
        let mut b = self;
        b.handle_type_changes = enabled;
        b
    }

    /// Turns column mapping on.
    pub fn with_column_mapping(self) -> (r: Self)
        ensures
            r == (SchemaAwareMergeBuilder { enable_column_mapping: true, ..self }),
    {
        let mut b = self;
        b.enable_column_mapping = true;
        b
    }

    /// What the merge is set up with: merging of the schema where new columns are
    /// handled (otherwise the merge keeps its own setting), and column mapping by name
    /// where that is asked for.
    pub fn merge_settings(&self) -> (r: MergeSettings)
        ensures
            r.merge_schema == if self.handle_new_columns {
                Some(true)
            } else {
                None::<bool>
            },
            config_view(r.table_configuration@) == if self.enable_column_mapping {
                map![mode_key() => Some("name"@)]
            } else {
                Map::<Seq<char>, Option<Seq<char>>>::empty()
            },
    {
        let merge_schema = if self.handle_new_columns {
            Some(true)
        } else {
            None
        };
        let mut table_configuration: StrMap<Option<String>> = StrMap::new();
        if self.enable_column_mapping {
            table_configuration.insert(String::from_str("delta.columnMapping.mode"), Some(String::from_str("name")));
        }
        proof {
            assert(config_view(table_configuration@) =~= if self.enable_column_mapping {
                map![mode_key() => Some("name"@)]
            } else {
                Map::<Seq<char>, Option<Seq<char>>>::empty()
            });
        }
        MergeSettings { merge_schema, table_configuration }
    }

    /// The schema that merging a source of schema `source` leaves a table of schema
    /// `table` with: a column widens to the source's type where type changes are
    /// handled, and the source's new columns are merged in where new columns are
    /// handled; refused where they cannot be merged.
    pub fn target_schema(&self, table: &StructType, source: &StructType) -> (r: Result<StructType, DeltaTableError>)
        ensures
            match evolved_target(table@, source@, self.handle_type_changes, self.handle_new_columns) {
                Ok(fs) => r matches Ok(s) && s@ == fs,
                Err(i) => r matches Err(DeltaTableError::SchemaMerge { column }) && column@ == target_columns(
                    table@,
                    source@,
                    self.handle_type_changes,
                )[i].name,
            },
    {
        target_schema_of(table, source, self.handle_type_changes, self.handle_new_columns)
    }
}

/// What a merge is set up with before it runs: the merge-schema setting, where one is
/// set, and configuration entries for the table.
pub struct MergeSettings {
    pub merge_schema: Option<bool>,
    pub table_configuration: StrMap<Option<String>>,
}


/// Turning column mapping on keeps every reader and writer feature that the table's
/// protocol listed, and adds column mapping to both.
pub proof fn law_turning_mapping_on_keeps_features<L, H>(b: SchemaEvolutionBuilder<L, H>, f: TableFeature)
    requires
        turns_mapping_on(b),
    ensures
        evolved_protocol(b).reader_features matches Some(rs) && rs.contains(TableFeature::ColumnMapping) && (
        features_or_empty(b.snapshot.protocol@.reader_features).contains(f) ==> rs.contains(f)),
        evolved_protocol(b).writer_features matches Some(ws) && ws.contains(TableFeature::ColumnMapping) && (
        features_or_empty(b.snapshot.protocol@.writer_features).contains(f) ==> ws.contains(f)),
{
    crate::table::law_column_mapping_feature_keeps_features(features_or_empty(b.snapshot.protocol@.reader_features));
    crate::table::law_column_mapping_feature_keeps_features(features_or_empty(b.snapshot.protocol@.writer_features));
}

/// The bits of an integer type, and 0 for any other type.
pub open spec fn integer_width(p: PrimitiveType) -> int {
    match p {
        PrimitiveType::Byte => 8,
        PrimitiveType::Short => 16,
        PrimitiveType::Integer => 32,
        PrimitiveType::Long => 64,
        _ => 0,
    }
}

/// A safe change between two different primitive types, other than to a string, keeps
/// every value: an integer type becomes a wider integer type, or a float a double. In
/// particular no integer type may become a floating point type.
pub proof fn law_safe_changes_keep_values(a: PrimitiveType, b: PrimitiveType)
    requires
        type_change_safe(TypeView::Primitive(a), TypeView::Primitive(b)),
        a != b,
        b != PrimitiveType::String,
    ensures
        (integer_width(a) > 0 && integer_width(b) > integer_width(a)) || (a == PrimitiveType::Float && b
            == PrimitiveType::Double),
        integer_width(a) > 0 ==> b != PrimitiveType::Double && b != PrimitiveType::Float,
{
}

/// Two safe changes that undo each other change nothing: the types are equal as Delta
/// compares them.
pub proof fn law_type_change_safe_antisymmetric(a: TypeView, b: TypeView)
    requires
        type_change_safe(a, b),
        type_change_safe(b, a),
    ensures
        same_type(a, b),
{
}

/// Two safe changes in a row make one safe change.
pub proof fn law_type_change_safe_transitive(a: TypeView, b: TypeView, c: TypeView)
    requires
        type_change_safe(a, b),
        type_change_safe(b, c),
    ensures
        type_change_safe(a, c),
{
    if same_type(a, b) && same_type(b, c) {
        crate::schema::lemma_same_type_transitive(a, b, c);
    }
}

/// A column may always keep its type: changing a type to itself is safe.
pub proof fn law_same_type_change_is_safe(t: TypeView)
    ensures
        type_change_safe(t, t),
{
    law_same_type_reflexive(t);
}

/// A schema change that turns column mapping on leaves it on: in the configuration it
/// leaves, column mapping is enabled, so a later change does not turn it on again.
pub proof fn law_evolution_leaves_mapping_enabled<L, H>(
    b: SchemaEvolutionBuilder<L, H>,
    after: Map<Seq<char>, Option<String>>,
)
    requires
        turns_mapping_on(b),
        config_view(after) == evolved_configuration(b),
    ensures
        column_mapping_enabled(after),
{
    reveal_strlit("delta.columnMapping.mode");
    reveal_strlit("delta.columnMapping.maxColumnId");
    reveal_strlit("name");
    reveal_strlit("none");
    lemma_config_text_view(after, mode_key());
    assert(mode_key().len() != max_column_id_key().len());
    assert(config_text(after, mode_key()) == Some("name"@));
    assert("name"@[1] != "none"@[1]);
}

/// The largest column id that a schema change records when it turns column mapping on
/// is the largest id of the schema before, and reading the configuration back gives it.
pub proof fn law_evolution_records_max_column_id<L, H>(
    b: SchemaEvolutionBuilder<L, H>,
    after: Map<Seq<char>, Option<String>>,
)
    requires
        turns_mapping_on(b),
        config_view(after) == evolved_configuration(b),
        max_column_id_of(b.snapshot.schema@) <= i64::MAX,
    ensures
        configured_max_column_id(after) == max_column_id_of(b.snapshot.schema@),
{
    lemma_max_column_id_nonneg(b.snapshot.schema@);
    lemma_config_text_view(after, max_column_id_key());
    law_decimal_round_trip(max_column_id_of(b.snapshot.schema@));
}

/// Each field that collapsing keeps is one of the fields collapsed.
pub proof fn lemma_collapse_members(fs: Seq<FieldView>)
    ensures
        forall|i: int| 0 <= i < collapse_by_name(fs).len() ==> #[trigger] fs.contains(collapse_by_name(fs)[i]),
    decreases fs.len(),
{
    if fs.len() > 0 {
        let d = fs.drop_last();
        lemma_collapse_members(d);
        let r = collapse_by_name(d);
        assert forall|i: int| 0 <= i < collapse_by_name(fs).len() implies #[trigger] fs.contains(
            collapse_by_name(fs)[i],
        ) by {
            let c = collapse_by_name(fs)[i];
            if c == fs.last() {
                assert(fs[fs.len() - 1] == c);
            } else {
                assert(i < r.len() && c == r[i]);
                assert(d.contains(c));
                let j = choose|j: int| 0 <= j < d.len() && d[j] == c;
                assert(fs[j] == c);
            }
        }
    }
}

/// Every field that the drops keep has a name that is not dropped.
proof fn lemma_kept_not_dropped(fs: Seq<FieldView>, drops: Seq<Seq<char>>)
    ensures
        forall|i: int| 0 <= i < kept_fields(fs, drops).len() ==> !drops.contains(#[trigger] kept_fields(fs, drops)[i].name),
    decreases fs.len(),
{
    if fs.len() > 0 {
        lemma_kept_not_dropped(fs.drop_last(), drops);
    }
}

/// Dropping columns leaves no column of a dropped name.
pub proof fn law_dropped_columns_are_gone(schema: Seq<FieldView>, drops: Seq<Seq<char>>)
    ensures
        forall|i: int|
            0 <= i < collapse_by_name(kept_fields(schema, drops)).len() ==> !drops.contains(
                #[trigger] collapse_by_name(kept_fields(schema, drops))[i].name,
            ),
{
    let kept = kept_fields(schema, drops);
    lemma_kept_not_dropped(schema, drops);
    lemma_collapse_members(kept);
    assert forall|i: int| 0 <= i < collapse_by_name(kept).len() implies !drops.contains(
        #[trigger] collapse_by_name(kept)[i].name,
    ) by {
        let c = collapse_by_name(kept)[i];
        assert(kept.contains(c));
        let j = choose|j: int| 0 <= j < kept.len() && kept[j] == c;
        assert(!drops.contains(kept[j].name));
    }
}


/// Numbering new columns keeps their names and order, and gives the `k`-th the id
/// `start + k` and the physical name `col-<start + k>`.
pub proof fn law_new_column_ids(fs: Seq<FieldView>, start: int)
    ensures
        numbered_columns(fs, start).len() == fs.len(),
        forall|k: int|
            0 <= k < fs.len() ==> {
                let n = #[trigger] numbered_columns(fs, start)[k];
                &&& n.name == fs[k].name
                &&& metadata_column_id(n.metadata) == Some(start + k)
                &&& n.metadata.get(physical_name_key()) == Some(MetaView::Str("col-"@ + decimal(start + k)))
            },
    decreases fs.len(),
{
    reveal_strlit("delta.columnMapping.id");
    reveal_strlit("delta.columnMapping.physicalName");
    assert(column_id_key().len() != physical_name_key().len());
    if fs.len() > 0 {
        law_new_column_ids(fs.drop_last(), start);
        assert forall|k: int| 0 <= k < fs.len() - 1 implies numbered_columns(fs, start)[k] == numbered_columns(
            fs.drop_last(),
            start,
        )[k] && fs[k] == fs.drop_last()[k] by {}
    }
}

/// The names of the columns that adding new columns merges in are names of the new
/// columns, and no two are equal.
proof fn lemma_columns_to_add_names(schema: Seq<FieldView>, new_columns: Seq<FieldView>, mapping_on: bool)
    ensures
        names_distinct(collapse_by_name(columns_to_add(schema, new_columns, mapping_on))),
        forall|j: int|
            0 <= j < collapse_by_name(columns_to_add(schema, new_columns, mapping_on)).len() ==> exists|k: int|
                0 <= k < new_columns.len() && new_columns[k].name == #[trigger] collapse_by_name(
                    columns_to_add(schema, new_columns, mapping_on),
                )[j].name,
{
    let added = columns_to_add(schema, new_columns, mapping_on);
    let n = collapse_by_name(added);
    lemma_collapse_distinct(added);
    lemma_collapse_members(added);
    if mapping_on {
        let c = collapse_by_name(new_columns);
        lemma_collapse_members(new_columns);
        law_new_column_ids(c, max_column_id_of(schema) + 1);
        assert forall|j: int| 0 <= j < n.len() implies exists|k: int|
            0 <= k < new_columns.len() && new_columns[k].name == #[trigger] n[j].name by {
            assert(added.contains(n[j]));
            let a = choose|a: int| 0 <= a < added.len() && added[a] == n[j];
            assert(added[a].name == c[a].name);
            assert(new_columns.contains(c[a]));
            let k = choose|k: int| 0 <= k < new_columns.len() && new_columns[k] == c[a];
            assert(new_columns[k].name == n[j].name);
        }
    } else {
        assert forall|j: int| 0 <= j < n.len() implies exists|k: int|
            0 <= k < new_columns.len() && new_columns[k].name == #[trigger] n[j].name by {
            assert(added.contains(n[j]));
            let k = choose|k: int| 0 <= k < added.len() && added[k] == n[j];
            assert(new_columns[k].name == n[j].name);
        }
    }
}

/// Adding columns whose names the schema lacks keeps every existing column as it was,
/// ids and physical names included, and appends the new columns after them.
pub proof fn law_new_columns_keep_existing(schema: Seq<FieldView>, new_columns: Seq<FieldView>, mapping_on: bool)
    requires
        names_distinct(schema),
        forall|i: int, k: int| 0 <= i < schema.len() && 0 <= k < new_columns.len() ==> schema[i].name != new_columns[k].name,
    ensures
        with_new_columns_added(schema, new_columns, mapping_on) == Ok::<Seq<FieldView>, int>(
            schema + collapse_by_name(columns_to_add(schema, new_columns, mapping_on)),
        ),
{
    let n = collapse_by_name(columns_to_add(schema, new_columns, mapping_on));
    lemma_columns_to_add_names(schema, new_columns, mapping_on);
    assert forall|i: int, j: int| 0 <= i < schema.len() && 0 <= j < n.len() implies schema[i].name != n[j].name by {
        let k = choose|k: int| 0 <= k < new_columns.len() && new_columns[k].name == #[trigger] n[j].name;
    }
    lemma_merged_left_disjoint(schema, n);
    lemma_right_only_disjoint(n, schema);
    let all = schema + n;
    assert(names_distinct(all)) by {
        assert forall|i: int, j: int| 0 <= i < j < all.len() implies #[trigger] all[i].name != #[trigger] all[j].name by {
            if j < schema.len() {
            } else if i >= schema.len() {
                assert(all[i] == n[i - schema.len()]);
                assert(all[j] == n[j - schema.len()]);
            } else {
                assert(all[j] == n[j - schema.len()]);
            }
        }
    }
    lemma_collapse_of_distinct(all);
}

} // verus!
