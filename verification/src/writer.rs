use vstd::prelude::*;

use crate::column_mapping::names_view;
use crate::strmap::StrMap;
use crate::schema_evolution::{contains_name, strings_view};
use crate::table::ColumnMappingMode;
use crate::text::{parse_usize, unsigned_decimal_value};

verus! {

/// The type of an Arrow field, as far as the writer looks into it: the nested kinds
/// whose fields it renames, and the type `T` of any other column, carried through as
/// it is.
#[derive(Debug)]
pub enum ArrowFieldType<T> {
    Struct(Vec<ArrowField<T>>),
    List(Box<ArrowField<T>>),
    LargeList(Box<ArrowField<T>>),
    /// A map: its entries field, and whether its keys are sorted.
    MapOf(Box<ArrowField<T>>, bool),
    Other(T),
}

/// A field of an Arrow schema.
#[derive(Debug)]
pub struct ArrowField<T> {
    pub name: String,
    pub data_type: ArrowFieldType<T>,
    pub nullable: bool,
    pub metadata: StrMap<String>,
}

/// An Arrow schema: its fields in order, and its metadata.
#[derive(Debug)]
pub struct ArrowSchema<T> {
    pub fields: Vec<ArrowField<T>>,
    pub metadata: StrMap<String>,
}

/// What an Arrow field's type denotes.
pub enum ArrowTypeView<T> {
    Struct(Seq<ArrowFieldView<T>>),
    List(Box<ArrowFieldView<T>>),
    LargeList(Box<ArrowFieldView<T>>),
    MapOf(Box<ArrowFieldView<T>>, bool),
    Other(T),
}

/// What an Arrow field denotes.
pub struct ArrowFieldView<T> {
    pub name: Seq<char>,
    pub data_type: ArrowTypeView<T>,
    pub nullable: bool,
    pub metadata: Map<Seq<char>, Seq<char>>,
}

/// What an Arrow schema denotes.
pub struct ArrowSchemaView<T> {
    pub fields: Seq<ArrowFieldView<T>>,
    pub metadata: Map<Seq<char>, Seq<char>>,
}

/// What an Arrow field denotes.
pub open spec fn arrow_field_view<T>(f: ArrowField<T>) -> ArrowFieldView<T>
    decreases f, 1int,
{
    ArrowFieldView {
        name: f.name@,
        data_type: arrow_type_view(f.data_type),
        nullable: f.nullable,
        metadata: names_view(f.metadata),
    }
}

/// What an Arrow type denotes.
pub open spec fn arrow_type_view<T>(t: ArrowFieldType<T>) -> ArrowTypeView<T>
    decreases t, 0int,
{
    match t {
        ArrowFieldType::Struct(fs) => ArrowTypeView::Struct(arrow_fields_view(fs@)),
        ArrowFieldType::List(f) => ArrowTypeView::List(Box::new(arrow_field_view(*f))),
        ArrowFieldType::LargeList(f) => ArrowTypeView::LargeList(Box::new(arrow_field_view(*f))),
        ArrowFieldType::MapOf(f, sorted) => ArrowTypeView::MapOf(Box::new(arrow_field_view(*f)), sorted),
        ArrowFieldType::Other(d) => ArrowTypeView::Other(d),
    }
}

/// What a list of Arrow fields denotes.
pub open spec fn arrow_fields_view<T>(fs: Seq<ArrowField<T>>) -> Seq<ArrowFieldView<T>>
    decreases fs,
{
    if fs.len() == 0 {
        Seq::empty()
    } else {
        arrow_fields_view(fs.drop_last()).push(arrow_field_view(fs.last()))
    }
}

impl<T> View for ArrowField<T> {
    type V = ArrowFieldView<T>;

    open spec fn view(&self) -> ArrowFieldView<T> {
        arrow_field_view(*self)
    }
}

impl<T> View for ArrowSchema<T> {
    type V = ArrowSchemaView<T>;

    open spec fn view(&self) -> ArrowSchemaView<T> {
        ArrowSchemaView { fields: arrow_fields_view(self.fields@), metadata: names_view(self.metadata) }
    }
}

pub proof fn lemma_arrow_fields_view_len<T>(fs: Seq<ArrowField<T>>)
    ensures
        arrow_fields_view(fs).len() == fs.len(),
    decreases fs.len(),
{
    if fs.len() > 0 {
        lemma_arrow_fields_view_len(fs.drop_last());
    }
}

pub proof fn lemma_arrow_fields_view_index<T>(fs: Seq<ArrowField<T>>, i: int)
    requires
        0 <= i < fs.len(),
    ensures
        arrow_fields_view(fs)[i] == arrow_field_view(fs[i]),
    decreases fs.len(),
{
    lemma_arrow_fields_view_len(fs.drop_last());
    if i < fs.len() - 1 {
        lemma_arrow_fields_view_index(fs.drop_last(), i);
    }
}

/// The name a column is written under: its physical name where the mapping has one.
pub open spec fn physical_name(name: Seq<char>, m: Map<Seq<char>, Seq<char>>) -> Seq<char> {
    if m.contains_key(name) {
        m[name]
    } else {
        name
    }
}

/// An Arrow field with its name and the names of the fields below it replaced by
/// their physical names.
pub open spec fn physical_field<T>(f: ArrowFieldView<T>, m: Map<Seq<char>, Seq<char>>) -> ArrowFieldView<T>
    decreases f, 1int,
{
    ArrowFieldView {
        name: physical_name(f.name, m),
        data_type: physical_type(f.data_type, m),
        nullable: f.nullable,
        metadata: f.metadata,
    }
}

/// An Arrow type with the names of the fields below it replaced by their physical names.
pub open spec fn physical_type<T>(t: ArrowTypeView<T>, m: Map<Seq<char>, Seq<char>>) -> ArrowTypeView<T>
    decreases t, 0int,
{
    match t {
        ArrowTypeView::Struct(fs) => ArrowTypeView::Struct(physical_fields(fs, m)),
        ArrowTypeView::List(f) => ArrowTypeView::List(Box::new(physical_field(*f, m))),
        ArrowTypeView::LargeList(f) => ArrowTypeView::LargeList(Box::new(physical_field(*f, m))),
        ArrowTypeView::MapOf(f, sorted) => ArrowTypeView::MapOf(Box::new(physical_field(*f, m)), sorted),
        ArrowTypeView::Other(d) => ArrowTypeView::Other(d),
    }
}

/// A list of Arrow fields with their names replaced by their physical names.
pub open spec fn physical_fields<T>(fs: Seq<ArrowFieldView<T>>, m: Map<Seq<char>, Seq<char>>) -> Seq<ArrowFieldView<T>>
    decreases fs,
{
    if fs.len() == 0 {
        Seq::empty()
    } else {
        physical_fields(fs.drop_last(), m).push(physical_field(fs.last(), m))
    }
}

/// Looks up the physical name of a column, the name itself where it has none.
fn physical_name_of(name: &String, logical_to_physical: &StrMap<String>) -> (r: String)
    ensures
        r@ == physical_name(name@, names_view(*logical_to_physical)),
{
    match logical_to_physical.get(name.as_str()) {
        Some(p) => p.clone(),
        None => name.clone(),
    }
}

/// A field written under its physical name, the fields below it too.
pub fn transform_field_to_physical<T>(field: ArrowField<T>, logical_to_physical: &StrMap<String>) -> (r: ArrowField<T>)
    ensures
        r@ == physical_field(field@, names_view(*logical_to_physical)),
    decreases field,
{
    let ghost m = names_view(*logical_to_physical);
    let ghost old_view = field@;
    let name = physical_name_of(&field.name, logical_to_physical);
    let ArrowField { name: _, data_type, nullable, metadata } = field;
    let data_type = match data_type {
        ArrowFieldType::Struct(fields) => {
            let ghost all = fields@;
            let mut out: Vec<ArrowField<T>> = Vec::new();
            let mut rest = fields;
            let ghost mut done: Seq<ArrowField<T>> = Seq::empty();
            proof {
                lemma_arrow_fields_view_len(all);
            }
            while rest.len() > 0
                invariant
                    all =~= done + rest@,
                    m == names_view(*logical_to_physical),
                    decreases_to!(field => all),
                    arrow_fields_view(out@) == physical_fields(arrow_fields_view(done), m),
                decreases rest.len(),
            {
                let f = rest.remove(0);
                proof {
                    assert(all[done.len() as int] == f);
                    assert(decreases_to!(all => all[done.len() as int]));
                    let d2 = done.push(f);
                    assert(d2.drop_last() =~= done);
                    assert(arrow_fields_view(d2).drop_last() =~= arrow_fields_view(done));
                    done = d2;
                }
                let g = transform_field_to_physical(f, logical_to_physical);
                let ghost before = out@;
                out.push(g);
                proof {
                    assert(out@.drop_last() =~= before);
                }
            }
            proof {
                assert(done =~= all);
            }
            ArrowFieldType::Struct(out)
        },
        ArrowFieldType::List(inner) => ArrowFieldType::List(
            Box::new(transform_field_to_physical(*inner, logical_to_physical)),
        ),
        ArrowFieldType::LargeList(inner) => ArrowFieldType::LargeList(
            Box::new(transform_field_to_physical(*inner, logical_to_physical)),
        ),
        ArrowFieldType::MapOf(inner, sorted) => ArrowFieldType::MapOf(
            Box::new(transform_field_to_physical(*inner, logical_to_physical)),
            sorted,
        ),
        ArrowFieldType::Other(d) => ArrowFieldType::Other(d),
    };
    ArrowField { name, data_type, nullable, metadata }
}

/// A schema written with physical column names. An empty mapping leaves it as it is.
pub fn transform_schema_to_physical<T>(schema: ArrowSchema<T>, logical_to_physical: &StrMap<String>) -> (r:
    ArrowSchema<T>)
    ensures
        r@.fields == physical_fields(schema@.fields, names_view(*logical_to_physical)),
        r@.metadata == schema@.metadata,
{
    let ghost m = names_view(*logical_to_physical);
    if logical_to_physical.is_empty() {
        proof {
            assert(names_view(*logical_to_physical) =~= Map::<Seq<char>, Seq<char>>::empty());
            law_empty_mapping_keeps_names(schema@.fields);
        }
        return schema;
    }
    let ArrowSchema { fields, metadata } = schema;
    let ghost all = fields@;
    let mut out: Vec<ArrowField<T>> = Vec::new();
    let mut rest = fields;
    let ghost mut done: Seq<ArrowField<T>> = Seq::empty();
    while rest.len() > 0
        invariant
            all =~= done + rest@,
            m == names_view(*logical_to_physical),
            arrow_fields_view(out@) == physical_fields(arrow_fields_view(done), m),
        decreases rest.len(),
    {
        let f = rest.remove(0);
        proof {
            let d2 = done.push(f);
            assert(d2.drop_last() =~= done);
            assert(arrow_fields_view(d2).drop_last() =~= arrow_fields_view(done));
            done = d2;
        }
        let g = transform_field_to_physical(f, logical_to_physical);
        let ghost before = out@;
        out.push(g);
        proof {
            assert(out@.drop_last() =~= before);
        }
    }
    proof {
        assert(done =~= all);
    }
    ArrowSchema { fields: out, metadata }
}

/// Renaming a list of fields keeps their number and renames each in its place.
pub proof fn lemma_physical_fields_index<T>(fs: Seq<ArrowFieldView<T>>, m: Map<Seq<char>, Seq<char>>)
    ensures
        physical_fields(fs, m).len() == fs.len(),
        forall|i: int| 0 <= i < fs.len() ==> #[trigger] physical_fields(fs, m)[i] == physical_field(fs[i], m),
    decreases fs.len(),
{
    if fs.len() > 0 {
        lemma_physical_fields_index(fs.drop_last(), m);
        assert forall|i: int| 0 <= i < fs.len() implies #[trigger] physical_fields(fs, m)[i] == physical_field(
            fs[i],
            m,
        ) by {
            if i < fs.len() - 1 {
                assert(fs.drop_last()[i] == fs[i]);
            }
        }
    }
}

/// With no physical names, writing keeps every name: a table without column mapping is
/// written exactly as before.
pub proof fn law_empty_mapping_keeps_names<T>(fs: Seq<ArrowFieldView<T>>)
    ensures
        physical_fields(fs, Map::empty()) == fs,
    decreases fs,
{
    if fs.len() > 0 {
        law_empty_mapping_keeps_names(fs.drop_last());
        lemma_empty_mapping_keeps_field(fs.last());
        assert(fs.drop_last().push(fs.last()) =~= fs);
    } else {
        assert(fs =~= Seq::<ArrowFieldView<T>>::empty());
    }
}

/// With no physical names, a field and the fields below it keep their names.
proof fn lemma_empty_mapping_keeps_field<T>(f: ArrowFieldView<T>)
    ensures
        physical_field(f, Map::empty()) == f,
    decreases f, 1int,
{
    match f.data_type {
        ArrowTypeView::Struct(fs) => {
            law_empty_mapping_keeps_names(fs);
        },
        ArrowTypeView::List(g) => {
            lemma_empty_mapping_keeps_field(*g);
        },
        ArrowTypeView::LargeList(g) => {
            lemma_empty_mapping_keeps_field(*g);
        },
        ArrowTypeView::MapOf(g, _) => {
            lemma_empty_mapping_keeps_field(*g);
        },
        ArrowTypeView::Other(_) => {},
    }
}

/// The file size above which buffered data is written out, by default: 100 MiB.
pub const DEFAULT_TARGET_FILE_SIZE: usize = 104_857_600;

/// How many rows are handed to the Parquet writer at a time, by default.
pub const DEFAULT_WRITE_BATCH_SIZE: usize = 1024;

/// The smallest part of a multipart upload that the object stores take, and the default:
/// 5 MiB.
pub const DEFAULT_UPLOAD_PART_SIZE: usize = 1024 * 1024 * 5;

/// The largest part of a multipart upload that the object stores take: 5 GiB.
pub const MAX_UPLOAD_PART_SIZE: u64 = 1024 * 1024 * 1024 * 5;

/// How many uploads run at once, by default.
pub const DEFAULT_MAX_CONCURRENCY_TASKS: usize = 10;

/// The part size that a setting asks for: a number read as `usize` kept within the
/// sizes the object stores take; the default where the setting is absent or no number.
pub open spec fn upload_part_size_of(setting: Option<Seq<char>>) -> int {
    match setting {
        Some(t) => match unsigned_decimal_value(t) {
            Some(v) => if v > usize::MAX {
                DEFAULT_UPLOAD_PART_SIZE as int
            } else if v < DEFAULT_UPLOAD_PART_SIZE {
                DEFAULT_UPLOAD_PART_SIZE as int
            } else if v > MAX_UPLOAD_PART_SIZE {
                MAX_UPLOAD_PART_SIZE as int
            } else {
                v
            },
            None => DEFAULT_UPLOAD_PART_SIZE as int,
        },
        None => DEFAULT_UPLOAD_PART_SIZE as int,
    }
}

/// The size of the parts of a multipart upload, from the text of its setting if there
/// is one. The sizes need a 64-bit `usize`.
pub fn upload_part_size_from_setting(setting: Option<&str>) -> (r: usize)
    requires
        MAX_UPLOAD_PART_SIZE <= usize::MAX,
    ensures
        r == upload_part_size_of(
            match setting {
                Some(t) => Some(t@),
                None => None,
            },
        ),
        DEFAULT_UPLOAD_PART_SIZE <= r <= MAX_UPLOAD_PART_SIZE,
{
    match setting {
        Some(t) => match parse_usize(t) {
            Some(size) => {
                if size < DEFAULT_UPLOAD_PART_SIZE {
                    DEFAULT_UPLOAD_PART_SIZE
                } else if size as u64 > MAX_UPLOAD_PART_SIZE {
                    MAX_UPLOAD_PART_SIZE as usize
                } else {
                    size
                }
            },
            None => DEFAULT_UPLOAD_PART_SIZE,
        },
        None => DEFAULT_UPLOAD_PART_SIZE,
    }
}

/// The number of uploads that a setting asks to run at once: a number read as `usize`;
/// the default where the setting is absent or no number.
pub open spec fn max_concurrency_tasks_of(setting: Option<Seq<char>>) -> int {
    match setting {
        Some(t) => match unsigned_decimal_value(t) {
            Some(v) => if v > usize::MAX {
                DEFAULT_MAX_CONCURRENCY_TASKS as int
            } else {
                v
            },
            None => DEFAULT_MAX_CONCURRENCY_TASKS as int,
        },
        None => DEFAULT_MAX_CONCURRENCY_TASKS as int,
    }
}

/// The number of uploads that run at once, from the text of its setting if there is one.
pub fn max_concurrency_tasks_from_setting(setting: Option<&str>) -> (r: usize)
    ensures
        r == max_concurrency_tasks_of(
            match setting {
                Some(t) => Some(t@),
                None => None,
            },
        ),
{
    match setting {
        Some(t) => match parse_usize(t) {
            Some(n) => n,
            None => DEFAULT_MAX_CONCURRENCY_TASKS,
        },
        None => DEFAULT_MAX_CONCURRENCY_TASKS,
    }
}

/// Whether `b` is a copy of the field `a`: the same names, nullability and metadata
/// throughout, each leaf type in `b` what cloning the one in `a` gave.
pub open spec fn field_cloned<T: Clone>(a: ArrowFieldView<T>, b: ArrowFieldView<T>) -> bool
    decreases a, 1int,
{
    &&& b.name == a.name
    &&& b.nullable == a.nullable
    &&& b.metadata == a.metadata
    &&& type_cloned(a.data_type, b.data_type)
}

/// Whether `b` is a copy of the type `a`.
pub open spec fn type_cloned<T: Clone>(a: ArrowTypeView<T>, b: ArrowTypeView<T>) -> bool
    decreases a, 0int,
{
    match a {
        ArrowTypeView::Struct(fs) => match b {
            ArrowTypeView::Struct(gs) => fields_cloned(fs, gs),
            _ => false,
        },
        ArrowTypeView::List(f) => match b {
            ArrowTypeView::List(g) => field_cloned(*f, *g),
            _ => false,
        },
        ArrowTypeView::LargeList(f) => match b {
            ArrowTypeView::LargeList(g) => field_cloned(*f, *g),
            _ => false,
        },
        ArrowTypeView::MapOf(f, sorted) => match b {
            ArrowTypeView::MapOf(g, sorted2) => sorted2 == sorted && field_cloned(*f, *g),
            _ => false,
        },
        ArrowTypeView::Other(d) => match b {
            ArrowTypeView::Other(e) => cloned::<T>(d, e),
            _ => false,
        },
    }
}

/// Whether `gs` is a copy of the fields `fs`, field by field.
pub open spec fn fields_cloned<T: Clone>(fs: Seq<ArrowFieldView<T>>, gs: Seq<ArrowFieldView<T>>) -> bool
    decreases fs, 2int,
{
    &&& gs.len() == fs.len()
    &&& forall|i: int| 0 <= i < fs.len() ==> field_cloned(#[trigger] fs[i], gs[i])
}

/// Renaming to physical names keeps a copy a copy.
proof fn lemma_field_cloned_physical<T: Clone>(a: ArrowFieldView<T>, b: ArrowFieldView<T>, m: Map<Seq<char>, Seq<char>>)
    requires
        field_cloned(a, b),
    ensures
        field_cloned(physical_field(a, m), physical_field(b, m)),
    decreases a, 1int,
{
    lemma_type_cloned_physical(a.data_type, b.data_type, m);
}

proof fn lemma_type_cloned_physical<T: Clone>(a: ArrowTypeView<T>, b: ArrowTypeView<T>, m: Map<Seq<char>, Seq<char>>)
    requires
        type_cloned(a, b),
    ensures
        type_cloned(physical_type(a, m), physical_type(b, m)),
    decreases a, 0int,
{
    match a {
        ArrowTypeView::Struct(fs) => lemma_fields_cloned_physical(fs, b->Struct_0, m),
        ArrowTypeView::List(f) => lemma_field_cloned_physical(*f, *b->List_0, m),
        ArrowTypeView::LargeList(f) => lemma_field_cloned_physical(*f, *b->LargeList_0, m),
        ArrowTypeView::MapOf(f, _) => lemma_field_cloned_physical(*f, *b->MapOf_0, m),
        ArrowTypeView::Other(_) => {},
    }
}

proof fn lemma_fields_cloned_physical<T: Clone>(fs: Seq<ArrowFieldView<T>>, gs: Seq<ArrowFieldView<T>>, m: Map<Seq<char>, Seq<char>>)
    requires
        fields_cloned(fs, gs),
    ensures
        fields_cloned(physical_fields(fs, m), physical_fields(gs, m)),
    decreases fs, 2int,
{
    lemma_physical_fields_index(fs, m);
    lemma_physical_fields_index(gs, m);
    assert forall|i: int| 0 <= i < fs.len() implies field_cloned(
        #[trigger] physical_fields(fs, m)[i],
        physical_fields(gs, m)[i],
    ) by {
        lemma_field_cloned_physical(fs[i], gs[i], m);
    }
}

/// Copies an Arrow field, the fields below it too; each leaf type is cloned.
pub fn clone_field<T: Clone>(field: &ArrowField<T>) -> (r: ArrowField<T>)
    ensures
        field_cloned(field@, r@),
    decreases field,
{
    let data_type = match &field.data_type {
        ArrowFieldType::Struct(fields) => {
            let ghost fv = arrow_fields_view(fields@);
            proof {
                lemma_arrow_fields_view_len(fields@);
            }
            let mut out: Vec<ArrowField<T>> = Vec::new();
            let mut i: usize = 0;
            while i < fields.len()
                invariant
                    i <= fields@.len(),
                    fv == arrow_fields_view(fields@),
                    fv.len() == fields@.len(),
                    field.data_type == ArrowFieldType::Struct(*fields),
                    fields_cloned(fv.subrange(0, i as int), arrow_fields_view(out@)),
                decreases fields.len() - i,
            {
                proof {
                    assert(decreases_to!(*field => field.data_type));
                    assert(field.data_type->Struct_0 == *fields);
                    assert(decreases_to!(field.data_type => field.data_type->Struct_0));
                    assert(decreases_to!(*fields => fields@));
                    assert(decreases_to!(fields@ => fields@[i as int]));
                    lemma_arrow_fields_view_index(fields@, i as int);
                }
                let f = clone_field(&fields[i]);
                let ghost before = out@;
                out.push(f);
                proof {
                    assert(out@.drop_last() =~= before);
                    lemma_arrow_fields_view_len(out@);
                    let pre = fv.subrange(0, i as int);
                    let post = fv.subrange(0, i + 1);
                    let ov = arrow_fields_view(out@);
                    assert forall|k: int| 0 <= k < post.len() implies field_cloned(#[trigger] post[k], ov[k]) by {
                        if k < i {
                            assert(post[k] == pre[k]);
                        }
                    }
                }
                i = i + 1;
            }
            proof {
                assert(fv.subrange(0, i as int) =~= fv);
            }
            ArrowFieldType::Struct(out)
        },
        ArrowFieldType::List(inner) => ArrowFieldType::List(Box::new(clone_field(inner))),
        ArrowFieldType::LargeList(inner) => ArrowFieldType::LargeList(Box::new(clone_field(inner))),
        ArrowFieldType::MapOf(inner, sorted) => ArrowFieldType::MapOf(Box::new(clone_field(inner)), *sorted),
        ArrowFieldType::Other(d) => ArrowFieldType::Other(d.clone()),
    };
    let r = ArrowField {
        name: field.name.clone(),
        data_type,
        nullable: field.nullable,
        metadata: field.metadata.clone(),
    };
    assert(r@.metadata == field@.metadata);
    r
}

/// How many columns statistics are collected for.
#[derive(Clone, Copy, Debug, PartialEq, Eq, Structural)]
pub enum NumIndexedCols {
    AllColumns,
    NumColumns(u64),
}

/// The fields of a schema whose names are not partition columns, in order.
pub open spec fn without_partitions<T>(fs: Seq<ArrowFieldView<T>>, partition_columns: Seq<Seq<char>>) -> Seq<ArrowFieldView<T>>
    decreases fs.len(),
{
    if fs.len() == 0 {
        Seq::empty()
    } else {
        let rest = without_partitions(fs.drop_last(), partition_columns);
        if partition_columns.contains(fs.last().name) {
            rest
        } else {
            rest.push(fs.last())
        }
    }
}

/// Configuration to write data into Delta tables. `P` holds the properties handed to
/// the Parquet writer, `T` the Arrow type of a leaf column.
pub struct WriterConfig<P, T> {
    /// Schema of the delta table.
    pub table_schema: ArrowSchema<T>,
    /// Column names for columns the table is partitioned by.
    pub partition_columns: Vec<String>,
    /// Properties passed to the underlying Parquet writer.
    pub writer_properties: P,
    /// Size above which a buffered Parquet file is written out.
    pub target_file_size: usize,
    /// Row chunks passed to the Parquet writer.
    pub write_batch_size: usize,
    /// How many columns statistics are collected for.
    pub num_indexed_cols: NumIndexedCols,
    /// The columns statistics are collected for; before `num_indexed_cols` where set.
    pub stats_columns: Option<Vec<String>>,
    /// Column mapping mode of the table.
    pub column_mapping_mode: ColumnMappingMode,
    /// Physical column names by logical name.
    pub logical_to_physical: StrMap<String>,
}

impl<P, T> WriterConfig<P, T> {
    /// A configuration without column mapping; sizes that are not given take their
    /// defaults.
    pub fn new(
        table_schema: ArrowSchema<T>,
        partition_columns: Vec<String>,
        writer_properties: P,
        target_file_size: Option<usize>,
        write_batch_size: Option<usize>,
        num_indexed_cols: NumIndexedCols,
        stats_columns: Option<Vec<String>>,
    ) -> (r: Self)
        ensures
            r.table_schema == table_schema,
            r.partition_columns == partition_columns,
            r.writer_properties == writer_properties,
            r.target_file_size == match target_file_size {
                Some(n) => n,
                None => DEFAULT_TARGET_FILE_SIZE,
            },
            r.write_batch_size == match write_batch_size {
                Some(n) => n,
                None => DEFAULT_WRITE_BATCH_SIZE,
            },
            r.num_indexed_cols == num_indexed_cols,
            r.stats_columns == stats_columns,
            r.column_mapping_mode == ColumnMappingMode::NoMapping,
            r.logical_to_physical@ == Map::<Seq<char>, String>::empty(),
    {
        Self::new_with_column_mapping(
            table_schema,
            partition_columns,
            writer_properties,
            target_file_size,
            write_batch_size,
            num_indexed_cols,
            stats_columns,
            ColumnMappingMode::NoMapping,
            StrMap::new(),
        )
    }

    /// A configuration with column mapping; sizes that are not given take their defaults.
    pub fn new_with_column_mapping(
        table_schema: ArrowSchema<T>,
        partition_columns: Vec<String>,
        writer_properties: P,
        target_file_size: Option<usize>,
        write_batch_size: Option<usize>,
        num_indexed_cols: NumIndexedCols,
        stats_columns: Option<Vec<String>>,
        column_mapping_mode: ColumnMappingMode,
        logical_to_physical: StrMap<String>,
    ) -> (r: Self)
        ensures
            r.table_schema == table_schema,
            r.partition_columns == partition_columns,
            r.writer_properties == writer_properties,
            r.target_file_size == match target_file_size {
                Some(n) => n,
                None => DEFAULT_TARGET_FILE_SIZE,
            },
            r.write_batch_size == match write_batch_size {
                Some(n) => n,
                None => DEFAULT_WRITE_BATCH_SIZE,
            },
            r.num_indexed_cols == num_indexed_cols,
            r.stats_columns == stats_columns,
            r.column_mapping_mode == column_mapping_mode,
            r.logical_to_physical == logical_to_physical,
    {
        let target_file_size = match target_file_size {
            Some(n) => n,
            None => DEFAULT_TARGET_FILE_SIZE,
        };
        let write_batch_size = match write_batch_size {
            Some(n) => n,
            None => DEFAULT_WRITE_BATCH_SIZE,
        };
        WriterConfig {
            table_schema,
            partition_columns,
            writer_properties,
            target_file_size,
            write_batch_size,
            num_indexed_cols,
            stats_columns,
            column_mapping_mode,
            logical_to_physical,
        }
    }

    /// The column mapping mode.
    pub fn column_mapping_mode(&self) -> (r: ColumnMappingMode)
        ensures
            r == self.column_mapping_mode,
    {
        self.column_mapping_mode
    }

    /// The physical column names by logical name.
    pub fn logical_to_physical(&self) -> (r: &StrMap<String>)
        ensures
            r == self.logical_to_physical,
    {
        &self.logical_to_physical
    }

    /// The physical name of a logical column name: the name itself where the mapping
    /// has none.
    pub fn to_physical_name<'a>(&'a self, logical_name: &'a str) -> (r: &'a str)
        ensures
            r@ == physical_name(logical_name@, names_view(self.logical_to_physical)),
    {
        match self.logical_to_physical.get(logical_name) {
            Some(s) => s.as_str(),
            None => logical_name,
        }
    }
}

impl<P, T: Clone> WriterConfig<P, T> {
    /// The schema of the files written: the table's fields but the partition columns,
    /// with no schema metadata.
    pub fn file_schema(&self) -> (r: ArrowSchema<T>)
        ensures
            fields_cloned(without_partitions(self.table_schema@.fields, strings_view(self.partition_columns@)), r@.fields),
            r@.metadata == Map::<Seq<char>, Seq<char>>::empty(),
    {
        let fields = &self.table_schema.fields;
        let ghost fv = arrow_fields_view(fields@);
        let ghost pv = strings_view(self.partition_columns@);
        proof {
            lemma_arrow_fields_view_len(fields@);
        }
        let mut out: Vec<ArrowField<T>> = Vec::new();
        let mut i: usize = 0;
        while i < fields.len()
            invariant
                i <= fields@.len(),
                fv == arrow_fields_view(fields@),
                fv.len() == fields@.len(),
                pv == strings_view(self.partition_columns@),
                fields_cloned(without_partitions(fv.subrange(0, i as int), pv), arrow_fields_view(out@)),
            decreases fields.len() - i,
        {
            proof {
                lemma_arrow_fields_view_index(fields@, i as int);
                let t = fv.subrange(0, i + 1);
                assert(t.drop_last() =~= fv.subrange(0, i as int));
                assert(t.last() == fv[i as int]);
            }
            if !contains_name(&self.partition_columns, &fields[i].name) {
                let f = clone_field(&fields[i]);
                let ghost before = out@;
                let ghost pre = without_partitions(fv.subrange(0, i as int), pv);
                out.push(f);
                proof {
                    assert(out@.drop_last() =~= before);
                    lemma_arrow_fields_view_len(out@);
                    let post = without_partitions(fv.subrange(0, i + 1), pv);
                    assert(post == pre.push(fv[i as int]));
                    let ov = arrow_fields_view(out@);
                    assert forall|k: int| 0 <= k < post.len() implies field_cloned(#[trigger] post[k], ov[k]) by {
                        if k < pre.len() {
                            assert(post[k] == pre[k]);
                        }
                    }
                }
            }
            i = i + 1;
        }
        proof {
            assert(fv.subrange(0, i as int) =~= fv);
        }
        let metadata: StrMap<String> = StrMap::new();
        proof {
            assert(names_view(metadata) =~= Map::<Seq<char>, Seq<char>>::empty());
        }
        ArrowSchema { fields: out, metadata }
    }
}

/// The position of the entry with key `k`, if there is one.
pub open spec fn position_of_key<V>(es: Seq<(Seq<char>, V)>, k: Seq<char>) -> Option<int> {
    if exists|j: int| 0 <= j < es.len() && es[j].0 == k {
        Some(choose|j: int| 0 <= j < es.len() && es[j].0 == k)
    } else {
        None
    }
}

/// Entries collected into an ordered map: a key that came before keeps its place and
/// takes the later value.
pub open spec fn ordered_entries<V>(es: Seq<(Seq<char>, V)>) -> Seq<(Seq<char>, V)>
    decreases es.len(),
{
    if es.len() == 0 {
        Seq::empty()
    } else {
        let r = ordered_entries(es.drop_last());
        match position_of_key(r, es.last().0) {
            Some(j) => r.update(j, es.last()),
            None => r.push(es.last()),
        }
    }
}

/// What a list of partition values denotes: each column by its name.
pub open spec fn entries_view<V>(es: Seq<(String, V)>) -> Seq<(Seq<char>, V)> {
    es.map_values(|e: (String, V)| (e.0@, e.1))
}

/// The partition values keyed by physical column name.
pub open spec fn physical_entries<V>(es: Seq<(Seq<char>, V)>, m: Map<Seq<char>, Seq<char>>) -> Seq<(Seq<char>, V)> {
    es.map_values(|e: (Seq<char>, V)| (physical_name(e.0, m), e.1))
}

/// No two entries of an ordered map have the same key.
pub open spec fn keys_distinct<V>(es: Seq<(Seq<char>, V)>) -> bool {
    forall|i: int, j: int| 0 <= i < j < es.len() ==> #[trigger] es[i].0 != #[trigger] es[j].0
}

proof fn lemma_ordered_entries_distinct<V>(es: Seq<(Seq<char>, V)>)
    ensures
        keys_distinct(ordered_entries(es)),
    decreases es.len(),
{
    if es.len() > 0 {
        lemma_ordered_entries_distinct(es.drop_last());
    }
}

/// Write configuration of the writer of one partition. `P` holds the Parquet writer's
/// properties, `T` the Arrow type of a leaf column, `V` a partition value.
pub struct PartitionWriterConfig<P, T, V> {
    /// Schema of the data written to disk, with physical column names.
    pub file_schema: ArrowSchema<T>,
    /// The path below the table where the partition's files go.
    pub prefix: String,
    /// The values of the partition columns, by logical column name, in order.
    pub partition_values: Vec<(String, V)>,
    /// Properties passed to the underlying Parquet writer.
    pub writer_properties: P,
    /// Size above which a buffered Parquet file is written out.
    pub target_file_size: usize,
    /// Row chunks passed to the Parquet writer.
    pub write_batch_size: usize,
    /// How many uploads run at once.
    pub max_concurrency_tasks: usize,
    /// Physical column names by logical name.
    pub logical_to_physical: StrMap<String>,
}

impl<P, T, V> PartitionWriterConfig<P, T, V> {
    /// A configuration without column mapping; see `try_new_with_column_mapping`.
    pub fn try_new(
        file_schema: ArrowSchema<T>,
        prefix: String,
        partition_values: Vec<(String, V)>,
        writer_properties: P,
        target_file_size: Option<usize>,
        write_batch_size: Option<usize>,
        max_concurrency_tasks: usize,
    ) -> (r: Self)
        ensures
            r.file_schema@ == file_schema@,
            r.prefix == prefix,
            r.partition_values == partition_values,
            r.writer_properties == writer_properties,
            r.target_file_size == match target_file_size {
                Some(n) => n,
                None => DEFAULT_TARGET_FILE_SIZE,
            },
            r.write_batch_size == match write_batch_size {
                Some(n) => n,
                None => DEFAULT_WRITE_BATCH_SIZE,
            },
            r.max_concurrency_tasks == max_concurrency_tasks,
            r.logical_to_physical@ == Map::<Seq<char>, String>::empty(),
    {
        let r = Self::try_new_with_column_mapping(
            file_schema,
            prefix,
            partition_values,
            writer_properties,
            target_file_size,
            write_batch_size,
            max_concurrency_tasks,
            StrMap::new(),
        );
        proof {
            assert(names_view(r.logical_to_physical) =~= Map::<Seq<char>, Seq<char>>::empty());
            law_empty_mapping_keeps_names(file_schema@.fields);
        }
        r
    }

    /// A configuration whose files are written with physical column names. The prefix is
    /// the partition's path, already read as a path; the number of uploads at once is the
    /// one asked for or the configured one. Sizes that are not given take their defaults.
    pub fn try_new_with_column_mapping(
        file_schema: ArrowSchema<T>,
        prefix: String,
        partition_values: Vec<(String, V)>,
        writer_properties: P,
        target_file_size: Option<usize>,
        write_batch_size: Option<usize>,
        max_concurrency_tasks: usize,
        logical_to_physical: StrMap<String>,
    ) -> (r: Self)
        ensures
            r.file_schema@.fields == physical_fields(file_schema@.fields, names_view(logical_to_physical)),
            r.file_schema@.metadata == file_schema@.metadata,
            r.prefix == prefix,
            r.partition_values == partition_values,
            r.writer_properties == writer_properties,
            r.target_file_size == match target_file_size {
                Some(n) => n,
                None => DEFAULT_TARGET_FILE_SIZE,
            },
            r.write_batch_size == match write_batch_size {
                Some(n) => n,
                None => DEFAULT_WRITE_BATCH_SIZE,
            },
            r.max_concurrency_tasks == max_concurrency_tasks,
            r.logical_to_physical == logical_to_physical,
    {
        let file_schema = transform_schema_to_physical(file_schema, &logical_to_physical);
        let target_file_size = match target_file_size {
            Some(n) => n,
            None => DEFAULT_TARGET_FILE_SIZE,
        };
        let write_batch_size = match write_batch_size {
            Some(n) => n,
            None => DEFAULT_WRITE_BATCH_SIZE,
        };
        PartitionWriterConfig {
            file_schema,
            prefix,
            partition_values,
            writer_properties,
            target_file_size,
            write_batch_size,
            max_concurrency_tasks,
            logical_to_physical,
        }
    }
}

/// Whether `b` is a copy of the entries `a`: the same keys in the same order, each
/// value in `b` what cloning the one in `a` gave.
pub open spec fn entries_cloned<V: Clone>(a: Seq<(Seq<char>, V)>, b: Seq<(Seq<char>, V)>) -> bool {
    &&& b.len() == a.len()
    &&& forall|i: int| 0 <= i < a.len() ==> #[trigger] b[i].0 == a[i].0 && cloned::<V>(a[i].1, b[i].1)
}

impl<P, T, V: Clone> PartitionWriterConfig<P, T, V> {
    /// The partition values keyed by physical column name, in order; where two columns
    /// share a physical name, the first keeps its place and the later value wins. Each
    /// value is cloned.
    pub fn partition_values_physical(&self) -> (r: Vec<(String, V)>)
        ensures
            entries_cloned(
                ordered_entries(
                    physical_entries(entries_view(self.partition_values@), names_view(self.logical_to_physical)),
                ),
                entries_view(r@),
            ),
    {
        let ghost m = names_view(self.logical_to_physical);
        let ghost pe = physical_entries(entries_view(self.partition_values@), m);
        let mut out: Vec<(String, V)> = Vec::new();
        let mut i: usize = 0;
        while i < self.partition_values.len()
            invariant
                i <= self.partition_values@.len(),
                m == names_view(self.logical_to_physical),
                pe == physical_entries(entries_view(self.partition_values@), m),
                entries_cloned(ordered_entries(pe.subrange(0, i as int)), entries_view(out@)),
            decreases self.partition_values.len() - i,
        {
            let key = physical_name_of(&self.partition_values[i].0, &self.logical_to_physical);
            let value = self.partition_values[i].1.clone();
            let ghost o = ordered_entries(pe.subrange(0, i as int));
            let ghost orig = pe[i as int];
            proof {
                let t = pe.subrange(0, i + 1);
                assert(t.drop_last() =~= pe.subrange(0, i as int));
                assert(t.last() == orig);
                assert(orig == (key@, self.partition_values@[i as int].1));
                lemma_ordered_entries_distinct(pe.subrange(0, i as int));
            }
            let ghost r0 = entries_view(out@);
            let mut j: usize = 0;
            let mut found = false;
            while j < out.len()
                invariant
                    j <= out@.len(),
                    r0 == entries_view(out@),
                    !found ==> forall|k: int| 0 <= k < j ==> r0[k].0 != key@,
                    found ==> j < out@.len() && r0[j as int].0 == key@,
                ensures
                    found ==> j < out@.len() && r0[j as int].0 == key@,
                    !found ==> forall|k: int| 0 <= k < out@.len() ==> r0[k].0 != key@,
                decreases out.len() - j,
            {
                if out[j].0 == key {
                    found = true;
                    break;
                }
                j = j + 1;
            }
            if found {
                proof {
                    assert(o[j as int].0 == key@);
                    assert(position_of_key(o, key@) == Some(j as int)) by {
                        let c = choose|c: int| 0 <= c < o.len() && o[c].0 == key@;
                        assert(keys_distinct(o));
                        if c != j as int {
                            if c < j {
                                assert(o[c].0 != o[j as int].0);
                            } else {
                                assert(o[j as int].0 != o[c].0);
                            }
                        }
                    }
                }
                out.set(j, (key, value));
                proof {
                    let ov = entries_view(out@);
                    assert(ov =~= r0.update(j as int, (key@, value)));
                    let n = o.update(j as int, orig);
                    assert forall|k: int| 0 <= k < n.len() implies #[trigger] ov[k].0 == n[k].0 && cloned::<V>(
                        n[k].1,
                        ov[k].1,
                    ) by {
                        if k != j as int {
                            assert(r0[k].0 == o[k].0);
                        }
                    }
                }
            } else {
                proof {
                    assert forall|c: int| 0 <= c < o.len() implies o[c].0 != key@ by {
                        assert(r0[c].0 != key@);
                    }
                    assert(position_of_key(o, key@) is None);
                }
                out.push((key, value));
                proof {
                    let ov = entries_view(out@);
                    assert(ov =~= r0.push((key@, value)));
                    let n = o.push(orig);
                    assert forall|k: int| 0 <= k < n.len() implies #[trigger] ov[k].0 == n[k].0 && cloned::<V>(
                        n[k].1,
                        ov[k].1,
                    ) by {
                        if k < o.len() {
                            assert(r0[k].0 == o[k].0);
                        }
                    }
                }
            }
            i = i + 1;
        }
        proof {
            assert(pe.subrange(0, i as int) =~= pe);
        }
        out
    }
}

/// The chunks, as offset and length, in which the rows from `offset` on of a batch of
/// `num_rows` rows go to the Parquet writer: `size` rows at a time, the last chunk
/// holding what is left.
pub open spec fn chunks_from(offset: int, num_rows: int, size: int) -> Seq<(int, int)>
    decreases num_rows - offset,
{
    if offset >= num_rows || size <= 0 {
        Seq::empty()
    } else if num_rows - offset <= size {
        seq![(offset, num_rows - offset)]
    } else {
        seq![(offset, size)] + chunks_from(offset + size, num_rows, size)
    }
}

/// What a list of chunks denotes.
pub open spec fn chunks_view(cs: Seq<(usize, usize)>) -> Seq<(int, int)> {
    cs.map_values(|c: (usize, usize)| (c.0 as int, c.1 as int))
}

/// The chunks in which a batch of `num_rows` rows goes to the Parquet writer,
/// `write_batch_size` rows at a time.
pub fn write_chunks(num_rows: usize, write_batch_size: usize) -> (r: Vec<(usize, usize)>)
    requires
        write_batch_size > 0,
    ensures
        chunks_view(r@) == chunks_from(0, num_rows as int, write_batch_size as int),
{
    let mut out: Vec<(usize, usize)> = Vec::new();
    let mut offset: usize = 0;
    while offset < num_rows
        invariant_except_break
            offset <= num_rows,
            write_batch_size > 0,
            chunks_from(0, num_rows as int, write_batch_size as int) == chunks_view(out@) + chunks_from(
                offset as int,
                num_rows as int,
                write_batch_size as int,
            ),
        ensures
            chunks_from(0, num_rows as int, write_batch_size as int) == chunks_view(out@),
        decreases num_rows - offset,
    {
        let rest = num_rows - offset;
        let ghost before = out@;
        if rest <= write_batch_size {
            out.push((offset, rest));
            proof {
                assert(chunks_view(out@) =~= chunks_view(before) + seq![(offset as int, rest as int)]);
            }
            break;
        }
        out.push((offset, write_batch_size));
        proof {
            assert(chunks_view(out@) =~= chunks_view(before) + seq![(offset as int, write_batch_size as int)]);
            assert(chunks_view(before) + chunks_from(offset as int, num_rows as int, write_batch_size as int)
                =~= chunks_view(out@) + chunks_from(
                offset + write_batch_size,
                num_rows as int,
                write_batch_size as int,
            ));
        }
        offset = offset + write_batch_size;
    }
    proof {
        if offset >= num_rows {
            assert(chunks_view(out@) + Seq::<(int, int)>::empty() =~= chunks_view(out@));
        }
    }
    out
}

/// How far the writer of one partition has got: how many files it has started after
/// the first, and whether the file it writes now holds data.
pub struct PartitionWriterProgress {
    pub part_counter: usize,
    pub writing: bool,
}

impl PartitionWriterProgress {
    /// No file has been written out yet, and the first holds no data.
    pub fn new() -> (r: Self)
        ensures
            r.part_counter == 0,
            !r.writing,
    {
        PartitionWriterProgress { part_counter: 0, writing: false }
    }

    /// After a chunk is written to the current file: whether the file is written out and
    /// a new, empty one started, which happens once the buffered data is estimated to
    /// meet the target size.
    pub fn after_chunk(&mut self, estimated_size: usize, target_file_size: usize) -> (flush: bool)
        requires
            old(self).part_counter < usize::MAX,
        ensures
            flush == (estimated_size >= target_file_size),
            final(self).part_counter == old(self).part_counter + if flush {
                1int
            } else {
                0int
            },
            final(self).writing == !flush,
    {
        if estimated_size >= target_file_size {
            self.part_counter = self.part_counter + 1;
            self.writing = false;
            true
        } else {
            self.writing = true;
            false
        }
    }

    /// Whether closing the writer writes out its current file: only where it holds
    /// data, so that no empty file is written.
    pub fn uploads_on_close(&self) -> (r: bool)
        ensures
            r == self.writing,
    {
        self.writing
    }
}

/// The outcomes of the uploads gathered: all their values in order, or the first error.
pub open spec fn gathered<D, E>(results: Seq<Result<D, E>>) -> Result<Seq<D>, E>
    decreases results.len(),
{
    if results.len() == 0 {
        Ok(Seq::empty())
    } else {
        match results[0] {
            Err(e) => Err(e),
            Ok(d) => match gathered(results.skip(1)) {
                Ok(rest) => Ok(seq![d] + rest),
                Err(e) => Err(e),
            },
        }
    }
}

/// Gathers the outcomes of the uploads, in the order they finished: the first error
/// ends it.
pub fn gather_upload_results<D, E>(results: Vec<Result<D, E>>) -> (r: Result<Vec<D>, E>)
    ensures
        match gathered(results@) {
            Ok(ds) => r matches Ok(v) && v@ == ds,
            Err(e) => r == Err::<Vec<D>, E>(e),
        },
{
    let ghost all = results@;
    let mut out: Vec<D> = Vec::new();
    let mut rest = results;
    let ghost mut done: Seq<D> = Seq::empty();
    while rest.len() > 0
        invariant
            out@ == done,
            all == results@,
            gathered(all) == match gathered(rest@) {
                Ok(ds) => Ok(done + ds),
                Err(e) => Err::<Seq<D>, E>(e),
            },
        decreases rest.len(),
    {
        let ghost before = rest@;
        let first = rest.remove(0);
        proof {
            assert(before.skip(1) =~= rest@);
            assert(before[0] == first);
        }
        match first {
            Ok(d) => {
                out.push(d);
                proof {
                    match gathered(rest@) {
                        Ok(ds) => {
                            assert(done + (seq![d] + ds) =~= done.push(d) + ds);
                        },
                        Err(e) => {},
                    }
                    done = done.push(d);
                }
            },
            Err(e) => {
                assert(gathered(before) == Err::<Seq<D>, E>(e));
                assert(gathered(all) == Err::<Seq<D>, E>(e));
                return Err(e);
            },
        }
    }
    proof {
        assert(done + Seq::<D>::empty() =~= done);
    }
    Ok(out)
}

impl<P: Clone, T: Clone> WriterConfig<P, T> {
    /// The configuration of the writer of a partition that has none yet: the file schema
    /// with physical column names, the writer's properties and sizes, and its mapping.
    pub fn partition_writer_config<V>(
        &self,
        prefix: String,
        partition_values: Vec<(String, V)>,
        max_concurrency_tasks: usize,
    ) -> (r: PartitionWriterConfig<P, T, V>)
        ensures
            fields_cloned(
                physical_fields(
                    without_partitions(self.table_schema@.fields, strings_view(self.partition_columns@)),
                    names_view(self.logical_to_physical),
                ),
                r.file_schema@.fields,
            ),
            r.file_schema@.metadata == Map::<Seq<char>, Seq<char>>::empty(),
            r.prefix == prefix,
            r.partition_values == partition_values,
            cloned::<P>(self.writer_properties, r.writer_properties),
            r.target_file_size == self.target_file_size,
            r.write_batch_size == self.write_batch_size,
            r.max_concurrency_tasks == max_concurrency_tasks,
            r.logical_to_physical@ == self.logical_to_physical@,
    {
        let properties = self.writer_properties.clone();
        let file_schema = self.file_schema();
        proof {
            lemma_fields_cloned_physical(
                without_partitions(self.table_schema@.fields, strings_view(self.partition_columns@)),
                file_schema@.fields,
                names_view(self.logical_to_physical),
            );
        }
        PartitionWriterConfig::try_new_with_column_mapping(
            file_schema,
            prefix,
            partition_values,
            properties,
            Some(self.target_file_size),
            Some(self.write_batch_size),
            max_concurrency_tasks,
            self.logical_to_physical.clone(),
        )
    }
}

} // verus!
