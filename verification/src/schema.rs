use vstd::prelude::*;

use crate::strmap::StrMap;

verus! {

/// The primitive types of a Delta schema.
#[derive(Clone, Copy, Debug, PartialEq, Eq, Structural)]
pub enum PrimitiveType {
    String,
    Long,
    Integer,
    Short,
    Byte,
    Float,
    Double,
    Boolean,
    Binary,
    Date,
    Timestamp,
    TimestampNtz,
    Void,
    /// A signed count of months.
    IntervalYearMonth,
    /// A signed count of microseconds.
    IntervalDayTime,
    /// A decimal of the given precision and scale.
    Decimal(u8, u8),
}

/// The type of a column: a primitive, or an array, map or struct of further types.
#[derive(Debug)]
pub enum DataType {
    Primitive(PrimitiveType),
    Array(Box<ArrayType>),
    MapOf(Box<MapType>),
    Struct(Box<StructType>),
}

/// An array type: the type of its elements, and whether an element may be null.
#[derive(Debug)]
pub struct ArrayType {
    pub element_type: DataType,
    pub contains_null: bool,
}

/// A map type: the types of its keys and values, and whether a value may be null.
#[derive(Debug)]
pub struct MapType {
    pub key_type: DataType,
    pub value_type: DataType,
    pub value_contains_null: bool,
}

/// A struct type, and the top level schema of a table: its fields in order.
#[derive(Debug)]
pub struct StructType {
    pub fields: Vec<StructField>,
}

/// A value in the metadata of a field.
#[derive(Debug)]
pub enum MetadataValue {
    Number(i64),
    String(String),
    Boolean(bool),
    /// Any other JSON value, kept as its JSON text.
    Other(String),
}

/// A field of a struct: its name, type, nullability and metadata.
#[derive(Debug)]
pub struct StructField {
    pub name: String,
    pub data_type: DataType,
    pub nullable: bool,
    pub metadata: StrMap<MetadataValue>,
}

/// What a metadata value denotes.
pub enum MetaView {
    Number(int),
    Str(Seq<char>),
    Boolean(bool),
    Other(Seq<char>),
}

/// What a data type denotes: names and texts by their characters.
pub enum TypeView {
    Primitive(PrimitiveType),
    Array(Box<TypeView>, bool),
    MapOf(Box<TypeView>, Box<TypeView>, bool),
    Struct(Seq<FieldView>),
}

/// What a field denotes.
pub struct FieldView {
    pub name: Seq<char>,
    pub data_type: TypeView,
    pub nullable: bool,
    pub metadata: Map<Seq<char>, MetaView>,
}

impl View for MetadataValue {
    type V = MetaView;

    open spec fn view(&self) -> MetaView {
        match self {
            MetadataValue::Number(n) => MetaView::Number(*n as int),
            MetadataValue::String(s) => MetaView::Str(s@),
            MetadataValue::Boolean(b) => MetaView::Boolean(*b),
            MetadataValue::Other(s) => MetaView::Other(s@),
        }
    }
}

/// What a field's metadata denotes.
pub open spec fn metadata_view(m: StrMap<MetadataValue>) -> Map<Seq<char>, MetaView> {
    m@.map_values(|v: MetadataValue| v@)
}

/// What a data type denotes.
pub open spec fn type_view(t: DataType) -> TypeView
    decreases t,
{
    match t {
        DataType::Primitive(p) => TypeView::Primitive(p),
        DataType::Array(a) => TypeView::Array(Box::new(type_view(a.element_type)), a.contains_null),
        DataType::MapOf(m) => TypeView::MapOf(
            Box::new(type_view(m.key_type)),
            Box::new(type_view(m.value_type)),
            m.value_contains_null,
        ),
        DataType::Struct(s) => TypeView::Struct(fields_view(s.fields@)),
    }
}

/// What a list of fields denotes.
pub open spec fn fields_view(fs: Seq<StructField>) -> Seq<FieldView>
    decreases fs,
{
    if fs.len() == 0 {
        Seq::empty()
    } else {
        fields_view(fs.drop_last()).push(field_view(fs.last()))
    }
}

/// What a field denotes.
pub open spec fn field_view(f: StructField) -> FieldView
    decreases f,
{
    FieldView {
        name: f.name@,
        data_type: type_view(f.data_type),
        nullable: f.nullable,
        metadata: metadata_view(f.metadata),
    }
}

impl View for DataType {
    type V = TypeView;

    open spec fn view(&self) -> TypeView {
        type_view(*self)
    }
}

impl View for StructField {
    type V = FieldView;

    open spec fn view(&self) -> FieldView {
        field_view(*self)
    }
}

impl View for StructType {
    type V = Seq<FieldView>;

    open spec fn view(&self) -> Seq<FieldView> {
        fields_view(self.fields@)
    }
}

pub proof fn lemma_fields_view_len(fs: Seq<StructField>)
    ensures
        fields_view(fs).len() == fs.len(),
    decreases fs.len(),
{
    if fs.len() > 0 {
        lemma_fields_view_len(fs.drop_last());
    }
}

pub proof fn lemma_fields_view_index(fs: Seq<StructField>, i: int)
    requires
        0 <= i < fs.len(),
    ensures
        fields_view(fs)[i] == field_view(fs[i]),
    decreases fs.len(),
{
    lemma_fields_view_len(fs.drop_last());
    if i < fs.len() - 1 {
        lemma_fields_view_index(fs.drop_last(), i);
    }
}

/// Two lists of fields denote the same when their fields do, one by one.
pub proof fn lemma_fields_view_ext(fs: Seq<StructField>, gs: Seq<StructField>)
    requires
        fs.len() == gs.len(),
        forall|i: int| 0 <= i < fs.len() ==> field_view(#[trigger] fs[i]) == field_view(gs[i]),
    ensures
        fields_view(fs) == fields_view(gs),
{
    lemma_fields_view_len(fs);
    lemma_fields_view_len(gs);
    assert forall|i: int| 0 <= i < fs.len() implies fields_view(fs)[i] == fields_view(gs)[i] by {
        lemma_fields_view_index(fs, i);
        lemma_fields_view_index(gs, i);
    }
    assert(fields_view(fs) =~= fields_view(gs));
}

/// Copies a list of entries whose values clone exactly.
pub fn clone_entries<V: Clone>(entries: &Vec<(String, V)>) -> (r: Vec<(String, V)>)
    requires
        forall|x: V, y: V| call_ensures(V::clone, (&x,), y) ==> x == y,
    ensures
        r@ == entries@,
{
    let mut r: Vec<(String, V)> = Vec::new();
    let mut i: usize = 0;
    while i < entries.len()
        invariant
            i <= entries@.len(),
            r@ =~= entries@.subrange(0, i as int),
            forall|x: V, y: V| call_ensures(V::clone, (&x,), y) ==> x == y,
        decreases entries.len() - i,
    {
        let k = entries[i].0.clone();
        let v = entries[i].1.clone();
        r.push((k, v));
        i = i + 1;
    }
    assert(r@ =~= entries@);
    r
}

impl Clone for MetadataValue {
    fn clone(&self) -> (r: Self)
        ensures
            r == *self,
    {
        match self {
            MetadataValue::Number(n) => MetadataValue::Number(*n),
            MetadataValue::String(s) => MetadataValue::String(s.clone()),
            MetadataValue::Boolean(b) => MetadataValue::Boolean(*b),
            MetadataValue::Other(s) => MetadataValue::Other(s.clone()),
        }
    }
}

impl Clone for StrMap<MetadataValue> {
    fn clone(&self) -> (r: Self)
        ensures
            r@ == self@,
    {
        StrMap { entries: clone_entries(&self.entries) }
    }
}

impl Clone for StrMap<String> {
    fn clone(&self) -> (r: Self)
        ensures
            r@ == self@,
    {
        StrMap { entries: clone_entries(&self.entries) }
    }
}

impl Clone for DataType {
    fn clone(&self) -> (r: Self)
        ensures
            r@ == self@,
        decreases self,
    {
        match self {
            DataType::Primitive(p) => DataType::Primitive(*p),
            DataType::Array(a) => DataType::Array(
                Box::new(ArrayType { element_type: a.element_type.clone(), contains_null: a.contains_null }),
            ),
            DataType::MapOf(m) => DataType::MapOf(
                Box::new(
                    MapType {
                        key_type: m.key_type.clone(),
                        value_type: m.value_type.clone(),
                        value_contains_null: m.value_contains_null,
                    },
                ),
            ),
            DataType::Struct(s) => {
                let mut fields: Vec<StructField> = Vec::new();
                let mut i: usize = 0;
                while i < s.fields.len()
                    invariant
                        i <= s.fields@.len(),
                        fields@.len() == i,
                        forall|j: int| 0 <= j < i ==> field_view(#[trigger] fields@[j]) == field_view(s.fields@[j]),
                        *self == DataType::Struct(*s),
                    decreases s.fields.len() - i,
                {
                    proof {
                        lemma_field_decreases(*self, **s, i as int);
                    }
                    fields.push(s.fields[i].clone());
                    i = i + 1;
                }
                proof {
                    lemma_fields_view_ext(fields@, s.fields@);
                }
                DataType::Struct(Box::new(StructType { fields }))
            },
        }
    }
}

/// A field of a struct type is smaller than the type.
pub proof fn lemma_field_decreases(t: DataType, s: StructType, i: int)
    requires
        t == DataType::Struct(Box::new(s)),
        0 <= i < s.fields@.len(),
    ensures
        decreases_to!(t => s.fields@[i]),
        decreases_to!(t => s.fields@[i].data_type),
{
    let f = s.fields@[i];
    assert(decreases_to!(t => t->Struct_0));
    assert(decreases_to!(s => s.fields));
    assert(decreases_to!(s.fields => s.fields@));
    assert(decreases_to!(s.fields@ => f));
    assert(decreases_to!(f => f.data_type));
}

impl Clone for StructField {
    fn clone(&self) -> (r: Self)
        ensures
            r@ == self@,
        decreases self,
    {
        StructField {
            name: self.name.clone(),
            data_type: self.data_type.clone(),
            nullable: self.nullable,
            metadata: self.metadata.clone(),
        }
    }
}


impl Clone for StructType {
    fn clone(&self) -> (r: Self)
        ensures
            r@ == self@,
    {
        let mut fields: Vec<StructField> = Vec::new();
        let mut i: usize = 0;
        while i < self.fields.len()
            invariant
                i <= self.fields@.len(),
                fields@.len() == i,
                forall|j: int| 0 <= j < i ==> field_view(#[trigger] fields@[j]) == field_view(self.fields@[j]),
            decreases self.fields.len() - i,
        {
            fields.push(self.fields[i].clone());
            i = i + 1;
        }
        proof {
            lemma_fields_view_ext(fields@, self.fields@);
        }
        StructType { fields }
    }
}

/// The name of a schema error's field, and why the schema was refused.
#[derive(Debug)]
pub enum SchemaError {
    /// Two fields of one struct have names that are equal when lower-cased.
    DuplicateFieldName(String),
    /// A metadata column stands below the top level of a schema.
    NestedMetadataColumn,
    /// Two fields of one struct are the same metadata column.
    DuplicateMetadataColumn(MetadataColumnSpec),
}

/// The metadata key that marks a field as a metadata column.
pub open spec fn metadata_spec_key() -> Seq<char> {
    "delta.metadataSpec"@
}

/// The metadata columns that Delta knows.
#[derive(Clone, Copy, Debug, PartialEq, Eq, Structural)]
pub enum MetadataColumnSpec {
    RowIndex,
    RowId,
    RowCommitVersion,
    FilePath,
}

/// The metadata column that a text names, if any.
pub open spec fn metadata_column_named(s: Seq<char>) -> Option<MetadataColumnSpec> {
    if s == "row_index"@ {
        Some(MetadataColumnSpec::RowIndex)
    } else if s == "row_id"@ {
        Some(MetadataColumnSpec::RowId)
    } else if s == "row_commit_version"@ {
        Some(MetadataColumnSpec::RowCommitVersion)
    } else if s == "_file"@ {
        Some(MetadataColumnSpec::FilePath)
    } else {
        None
    }
}

/// The metadata column that a field is, where its metadata names one.
pub open spec fn metadata_column_of(f: FieldView) -> Option<MetadataColumnSpec> {
    match f.metadata.get(metadata_spec_key()) {
        Some(MetaView::Str(s)) => metadata_column_named(s),
        _ => None,
    }
}

/// Whether a field's metadata marks it as a metadata column.
pub open spec fn marks_metadata_column(f: FieldView) -> bool {
    f.metadata.contains_key(metadata_spec_key())
}

/// Whether a field is marked as a metadata column, or holds one where Delta looks for
/// them below it.
pub open spec fn holds_metadata_column(f: FieldView) -> bool
    decreases f, 2int,
{
    marks_metadata_column(f) || type_holds_metadata_column(f.data_type)
}

/// Whether Delta finds a metadata column below a type: among the fields of a struct
/// that are no structs themselves, or among the fields of a struct that is the element
/// of an array or the key or value of a map.
pub open spec fn type_holds_metadata_column(t: TypeView) -> bool
    decreases t, 1int,
{
    match t {
        TypeView::Struct(fs) => fields_hold_metadata_column(fs, true),
        TypeView::Array(e, _) => match *e {
            TypeView::Struct(fs) => fields_hold_metadata_column(fs, false),
            _ => false,
        },
        TypeView::MapOf(k, v, _) => (match *k {
            TypeView::Struct(fs) => fields_hold_metadata_column(fs, false),
            _ => false,
        }) || (match *v {
            TypeView::Struct(fs) => fields_hold_metadata_column(fs, false),
            _ => false,
        }),
        TypeView::Primitive(_) => false,
    }
}

/// Whether one of the fields holds a metadata column; with `skip_structs`, fields that
/// are structs are passed over.
pub open spec fn fields_hold_metadata_column(fs: Seq<FieldView>, skip_structs: bool) -> bool
    decreases fs, 0int,
{
    if fs.len() == 0 {
        false
    } else {
        fields_hold_metadata_column(fs.drop_last(), skip_structs) || (!(skip_structs && fs.last().data_type is Struct)
            && holds_metadata_column(fs.last()))
    }
}

/// Why building a struct stops at one of its fields.
pub enum StructRefusal {
    NestedMetadataColumn,
    DuplicateMetadataColumn(MetadataColumnSpec),
    DuplicateFieldName,
}

/// Why building a struct of `fs` stops at field `i`, the fields before it having
/// passed: a field that is no primitive holds a metadata column; the field is a
/// metadata column that an earlier field is too; its lower-cased name is that of an
/// earlier field. The checks are made in this order.
pub open spec fn refusal_at(fs: Seq<FieldView>, i: int) -> Option<StructRefusal> {
    let f = fs[i];
    if !(f.data_type is Primitive) && holds_metadata_column(f) {
        Some(StructRefusal::NestedMetadataColumn)
    } else if metadata_column_of(f) is Some && exists|j: int|
        0 <= j < i && #[trigger] metadata_column_of(fs[j]) == metadata_column_of(f) {
        Some(StructRefusal::DuplicateMetadataColumn(metadata_column_of(f)->0))
    } else if repeats_at(lowered_names(fs), i) {
        Some(StructRefusal::DuplicateFieldName)
    } else {
        None
    }
}

/// The first of the first `n` fields at which building a struct of `fs` stops, and why.
pub open spec fn first_refusal(fs: Seq<FieldView>, n: int) -> Option<(int, StructRefusal)>
    decreases n,
{
    if n <= 0 {
        None
    } else {
        match first_refusal(fs, n - 1) {
            Some(x) => Some(x),
            None => match refusal_at(fs, n - 1) {
                Some(r) => Some((n - 1, r)),
                None => None,
            },
        }
    }
}

/// Where and why building a struct of `fs` fails, if it does.
pub open spec fn struct_refusal(fs: Seq<FieldView>) -> Option<(int, StructRefusal)> {
    first_refusal(fs, fs.len() as int)
}

/// The metadata column that a text names, if any.
fn metadata_column_from_text(s: &str) -> (r: Option<MetadataColumnSpec>)
    ensures
        r == metadata_column_named(s@),
{
    if *s == *"row_index" {
        Some(MetadataColumnSpec::RowIndex)
    } else if *s == *"row_id" {
        Some(MetadataColumnSpec::RowId)
    } else if *s == *"row_commit_version" {
        Some(MetadataColumnSpec::RowCommitVersion)
    } else if *s == *"_file" {
        Some(MetadataColumnSpec::FilePath)
    } else {
        None
    }
}

/// The metadata column that a field is, where its metadata names one.
pub fn metadata_column_of_field(f: &StructField) -> (r: Option<MetadataColumnSpec>)
    ensures
        r == metadata_column_of(f@),
{
    let got = f.metadata.get("delta.metadataSpec");
    proof {
        assert(f@.metadata.get(metadata_spec_key()) == match got {
            Some(x) => Some(x@),
            None => None::<MetaView>,
        });
    }
    match got {
        Some(MetadataValue::String(s)) => metadata_column_from_text(s.as_str()),
        _ => None,
    }
}

/// Whether a field is marked as a metadata column or holds one below it.
pub fn field_holds_metadata_column(f: &StructField) -> (r: bool)
    ensures
        r == holds_metadata_column(f@),
    decreases f, 2int,
{
    f.metadata.contains_key("delta.metadataSpec") || data_type_holds_metadata_column(&f.data_type)
}

/// Whether Delta finds a metadata column below a type.
fn data_type_holds_metadata_column(t: &DataType) -> (r: bool)
    ensures
        r == type_holds_metadata_column(t@),
    decreases t, 1int,
{
    match t {
        DataType::Struct(s) => {
            proof {
                assert(decreases_to!(*t => s.fields));
            }
            any_field_holds_metadata_column(&s.fields, true)
        },
        DataType::Array(a) => {
            let ghost ev = type_view(a.element_type);
            proof {
                assert(t@ == TypeView::Array(Box::new(ev), a.contains_null));
            }
            match &a.element_type {
                DataType::Struct(s) => {
                    proof {
                        assert(decreases_to!(*t => s.fields));
                        assert(ev == TypeView::Struct(fields_view(s.fields@)));
                    }
                    any_field_holds_metadata_column(&s.fields, false)
                },
                _ => false,
            }
        },
        DataType::MapOf(m) => {
            let ghost kv = type_view(m.key_type);
            let ghost vv = type_view(m.value_type);
            let in_key = match &m.key_type {
                DataType::Struct(s) => {
                    proof {
                        assert(decreases_to!(*t => s.fields));
                        assert(kv == TypeView::Struct(fields_view(s.fields@)));
                    }
                    any_field_holds_metadata_column(&s.fields, false)
                },
                _ => false,
            };
            let in_value = match &m.value_type {
                DataType::Struct(s) => {
                    proof {
                        assert(decreases_to!(*t => s.fields));
                        assert(vv == TypeView::Struct(fields_view(s.fields@)));
                    }
                    any_field_holds_metadata_column(&s.fields, false)
                },
                _ => false,
            };
            proof {
                assert(t@ == TypeView::MapOf(Box::new(kv), Box::new(vv), m.value_contains_null));
            }
            in_key || in_value
        },
        DataType::Primitive(_) => false,
    }
}

/// Whether one of the fields holds a metadata column, passing over structs where
/// `skip_structs` holds.
fn any_field_holds_metadata_column(fields: &Vec<StructField>, skip_structs: bool) -> (r: bool)
    ensures
        r == fields_hold_metadata_column(fields_view(fields@), skip_structs),
    decreases fields, 0int,
{
    let ghost fv = fields_view(fields@);
    proof {
        lemma_fields_view_len(fields@);
        assert(fv.subrange(0, 0) =~= Seq::<FieldView>::empty());
    }
    let mut i: usize = 0;
    while i < fields.len()
        invariant
            i <= fields@.len(),
            fv == fields_view(fields@),
            fv.len() == fields@.len(),
            !fields_hold_metadata_column(fv.subrange(0, i as int), skip_structs),
        decreases fields.len() - i,
    {
        proof {
            lemma_fields_view_index(fields@, i as int);
            let t = fv.subrange(0, i + 1);
            assert(t.drop_last() =~= fv.subrange(0, i as int));
            assert(t.last() == fv[i as int]);
            assert(decreases_to!(*fields => fields@));
            assert(decreases_to!(fields@ => fields@[i as int]));
        }
        let is_struct = match &fields[i].data_type {
            DataType::Struct(_) => true,
            _ => false,
        };
        if !(skip_structs && is_struct) && field_holds_metadata_column(&fields[i]) {
            proof {
                lemma_fields_hold_prefix(fv, i + 1, skip_structs);
            }
            return true;
        }
        i = i + 1;
    }
    proof {
        assert(fv.subrange(0, i as int) =~= fv);
    }
    false
}

/// Whether the list holds the metadata column `c`.
fn holds_column(columns: &Vec<Option<MetadataColumnSpec>>, c: MetadataColumnSpec) -> (r: bool)
    ensures
        r == exists|k: int| 0 <= k < columns@.len() && columns@[k] == Some(c),
{
    let mut k: usize = 0;
    while k < columns.len()
        invariant
            k <= columns@.len(),
            forall|m: int| 0 <= m < k ==> #[trigger] columns@[m] != Some(c),
        decreases columns.len() - k,
    {
        let same = match columns[k] {
            Some(d) => d == c,
            None => false,
        };
        if same {
            assert(columns@[k as int] == Some(c));
            return true;
        }
        k = k + 1;
    }
    false
}

/// Whether the list holds the text of `t`.
fn holds_text(texts: &Vec<String>, t: &String) -> (r: bool)
    ensures
        r == exists|k: int| 0 <= k < texts@.len() && texts@[k]@ == t@,
{
    let mut k: usize = 0;
    while k < texts.len()
        invariant
            k <= texts@.len(),
            forall|m: int| 0 <= m < k ==> #[trigger] texts@[m]@ != t@,
        decreases texts.len() - k,
    {
        if *texts[k].as_str() == *t.as_str() {
            assert(texts@[k as int]@ == t@);
            return true;
        }
        k = k + 1;
    }
    false
}

/// A struct that building accepts has fields of distinct names.
proof fn lemma_accepted_names_distinct(fs: Seq<FieldView>)
    requires
        first_refusal(fs, fs.len() as int) is None,
    ensures
        names_distinct(fs),
{
    assert forall|i: int, j: int| 0 <= i < j < fs.len() implies #[trigger] fs[i].name != #[trigger] fs[j].name by {
        lemma_no_refusal_before(fs, j, fs.len() as int);
        if fs[i].name == fs[j].name {
            assert(lowered_names(fs)[i] == lowered_names(fs)[j]);
            assert(repeats_at(lowered_names(fs), j));
        }
    }
}

/// Where building passes the first `n` fields, it passes each of them.
proof fn lemma_no_refusal_before(fs: Seq<FieldView>, j: int, n: int)
    requires
        0 <= j < n,
        first_refusal(fs, n) is None,
    ensures
        refusal_at(fs, j) is None,
    decreases n,
{
    if j < n - 1 {
        lemma_no_refusal_before(fs, j, n - 1);
    }
}

/// Once building a struct stops at field `i`, it stops there whatever follows.
proof fn lemma_first_refusal_stays(fs: Seq<FieldView>, i: int, n: int)
    requires
        0 <= i < n,
        first_refusal(fs, i) is None,
        refusal_at(fs, i) is Some,
    ensures
        first_refusal(fs, n) == Some((i, refusal_at(fs, i)->0)),
    decreases n,
{
    if n > i + 1 {
        lemma_first_refusal_stays(fs, i, n - 1);
    }
}

/// Once a prefix of the fields holds a metadata column, so do all of them.
proof fn lemma_fields_hold_prefix(fs: Seq<FieldView>, k: int, skip_structs: bool)
    requires
        0 <= k <= fs.len(),
        fields_hold_metadata_column(fs.subrange(0, k), skip_structs),
    ensures
        fields_hold_metadata_column(fs, skip_structs),
    decreases fs.len(),
{
    if k == fs.len() {
        assert(fs.subrange(0, k) =~= fs);
    } else {
        assert(fs.drop_last().subrange(0, k) =~= fs.subrange(0, k));
        lemma_fields_hold_prefix(fs.drop_last(), k, skip_structs);
    }
}

/// What `str::to_lowercase` returns for a text.
pub uninterp spec fn spec_to_lowercase(s: Seq<char>) -> Seq<char>;

/// A character lower-cased as ASCII: `A` to `Z` become `a` to `z`, any other stays.
pub open spec fn ascii_lower(c: char) -> char {
    if 65 <= (c as u32) && (c as u32) <= 90 {
        ((c as u32) + 32) as char
    } else {
        c
    }
}

/// Whether every character of a text is ASCII.
pub open spec fn is_ascii_text(s: Seq<char>) -> bool {
    forall|i: int| 0 <= i < s.len() ==> (#[trigger] s[i] as u32) < 128
}

/// A text lower-cased as `str::to_lowercase` does: ASCII text letter by letter, any
/// other text as named above.
pub open spec fn lowercase_text(s: Seq<char>) -> Seq<char> {
    if is_ascii_text(s) {
        s.map_values(|c: char| ascii_lower(c))
    } else {
        spec_to_lowercase(s)
    }
}

/// Calls `str::to_lowercase`; its result is a function of the text alone, named above.
/// On ASCII text the Unicode lower-case mapping that it applies turns `A` to `Z` into
/// `a` to `z` and leaves every other character as it is; the contract states that too.
#[verifier::external_body]
fn to_lowercase(s: &str) -> (r: String)
    ensures
        r@ == spec_to_lowercase(s@),
        is_ascii_text(s@) ==> r@ == s@.map_values(|c: char| ascii_lower(c)),
        r@ == lowercase_text(s@),
{
    s.to_lowercase()
}

/// The names of a list of fields, lower-cased.
pub open spec fn lowered_names(fs: Seq<FieldView>) -> Seq<Seq<char>> {
    fs.map_values(|f: FieldView| lowercase_text(f.name))
}

/// The texts of a list of strings.
pub open spec fn strings_of(ss: Seq<String>) -> Seq<Seq<char>> {
    ss.map_values(|s: String| s@)
}

/// Whether the text at `j` equals an earlier one.
pub open spec fn repeats_at(ts: Seq<Seq<char>>, j: int) -> bool {
    exists|i: int| 0 <= i < j && #[trigger] ts[i] == ts[j]
}

/// The position of the first text that equals an earlier one, if any.
pub open spec fn first_repeated(ts: Seq<Seq<char>>) -> Option<int> {
    if exists|j: int| 0 <= j < ts.len() && #[trigger] repeats_at(ts, j) {
        Some(
            choose|j: int|
                0 <= j < ts.len() && #[trigger] repeats_at(ts, j) && forall|k: int| 0 <= k < j ==> !#[trigger] repeats_at(ts, k),
        )
    } else {
        None
    }
}

/// The position of the first name that equals an earlier one, if any.
pub fn first_repeated_name(names: &Vec<String>) -> (r: Option<usize>)
    ensures
        match first_repeated(strings_of(names@)) {
            Some(j) => r == Some(j as usize),
            None => r is None,
        },
{
    let ghost ts = strings_of(names@);
    let mut j: usize = 0;
    while j < names.len()
        invariant
            j <= names@.len(),
            ts == strings_of(names@),
            forall|k: int| 0 <= k < j ==> !#[trigger] repeats_at(ts, k),
        decreases names.len() - j,
    {
        let mut i: usize = 0;
        while i < j
            invariant
                i <= j < names@.len(),
                ts == strings_of(names@),
                forall|k: int| 0 <= k < j ==> !#[trigger] repeats_at(ts, k),
                forall|m: int| 0 <= m < i ==> #[trigger] ts[m] != ts[j as int],
            decreases j - i,
        {
            if names[i] == names[j] {
                proof {
                    assert(ts[i as int] == ts[j as int]);
                    assert(repeats_at(ts, j as int));
                    lemma_first_repeated_is(ts, j as int);
                }
                return Some(j);
            }
            i = i + 1;
        }
        assert(!repeats_at(ts, j as int));
        j = j + 1;
    }
    None
}

/// The first repeat is a position of the list.
pub proof fn lemma_first_repeated_range(ts: Seq<Seq<char>>)
    ensures
        first_repeated(ts) matches Some(j) ==> 0 <= j < ts.len(),
{
    if exists|j: int| 0 <= j < ts.len() && #[trigger] repeats_at(ts, j) {
        let w = choose|j: int| 0 <= j < ts.len() && #[trigger] repeats_at(ts, j);
        let m = least_repeat(ts, w);
        assert(0 <= m < ts.len() && repeats_at(ts, m) && forall|k: int| 0 <= k < m ==> !#[trigger] repeats_at(ts, k));
    }
}

/// A repeat at or before `w` that no repeat comes before.
proof fn least_repeat(ts: Seq<Seq<char>>, w: int) -> (m: int)
    requires
        0 <= w < ts.len(),
        repeats_at(ts, w),
    ensures
        0 <= m <= w,
        repeats_at(ts, m),
        forall|k: int| 0 <= k < m ==> !#[trigger] repeats_at(ts, k),
    decreases w,
{
    if exists|k: int| 0 <= k < w && #[trigger] repeats_at(ts, k) {
        let k = choose|k: int| 0 <= k < w && #[trigger] repeats_at(ts, k);
        least_repeat(ts, k)
    } else {
        w
    }
}

/// A repeat at `j` with none before it is the first repeat.
proof fn lemma_first_repeated_is(ts: Seq<Seq<char>>, j: int)
    requires
        0 <= j < ts.len(),
        repeats_at(ts, j),
        forall|k: int| 0 <= k < j ==> !#[trigger] repeats_at(ts, k),
    ensures
        first_repeated(ts) == Some(j),
{
    let c = choose|c: int|
        0 <= c < ts.len() && #[trigger] repeats_at(ts, c) && forall|k: int| 0 <= k < c ==> !#[trigger] repeats_at(ts, k);
    assert(0 <= c < ts.len() && repeats_at(ts, c) && forall|k: int| 0 <= k < c ==> !#[trigger] repeats_at(ts, k));
    if c < j {
        assert(!repeats_at(ts, c));
    } else if c > j {
        assert(!repeats_at(ts, j));
    }
}

/// The position of the field named `name`, if there is one.
pub open spec fn position_of(fs: Seq<FieldView>, name: Seq<char>) -> Option<int> {
    if exists|j: int| 0 <= j < fs.len() && fs[j].name == name {
        Some(choose|j: int| 0 <= j < fs.len() && fs[j].name == name)
    } else {
        None
    }
}

/// The fields as a struct type keeps them when built from a list: a field whose name
/// occurred before replaces the earlier one in its place.
pub open spec fn collapse_by_name(fs: Seq<FieldView>) -> Seq<FieldView>
    decreases fs.len(),
{
    if fs.len() == 0 {
        fs
    } else {
        let r = collapse_by_name(fs.drop_last());
        let f = fs.last();
        match position_of(r, f.name) {
            Some(j) => r.update(j, f),
            None => r.push(f),
        }
    }
}

/// Whether no two fields have the same name.
pub open spec fn names_distinct(fs: Seq<FieldView>) -> bool {
    forall|i: int, j: int| 0 <= i < j < fs.len() ==> #[trigger] fs[i].name != #[trigger] fs[j].name
}

pub proof fn lemma_collapse_distinct(fs: Seq<FieldView>)
    ensures
        names_distinct(collapse_by_name(fs)),
    decreases fs.len(),
{
    if fs.len() > 0 {
        lemma_collapse_distinct(fs.drop_last());
    }
}

/// Collapsing fields that already have distinct names keeps them all.
pub proof fn lemma_collapse_of_distinct(fs: Seq<FieldView>)
    requires
        names_distinct(fs),
    ensures
        collapse_by_name(fs) == fs,
    decreases fs.len(),
{
    if fs.len() > 0 {
        let d = fs.drop_last();
        assert(names_distinct(d));
        lemma_collapse_of_distinct(d);
        assert(!(exists|j: int| 0 <= j < d.len() && d[j].name == fs.last().name));
        assert(d.push(fs.last()) =~= fs);
    }
}

impl StructField {
    /// A field with no metadata.
    pub fn new(name: String, data_type: DataType, nullable: bool) -> (f: Self)
        ensures
            f@.name == name@,
            f@.data_type == data_type@,
            f@.nullable == nullable,
            f@.metadata == Map::<Seq<char>, MetaView>::empty(),
    {
        let f = StructField { name, data_type, nullable, metadata: StrMap::new() };
        assert(f@.metadata =~= Map::<Seq<char>, MetaView>::empty());
        f
    }

    /// A nullable field with no metadata.
    pub fn nullable(name: String, data_type: DataType) -> (f: Self)
        ensures
            f@.name == name@,
            f@.data_type == data_type@,
            f@.nullable,
            f@.metadata == Map::<Seq<char>, MetaView>::empty(),
    {
        StructField::new(name, data_type, true)
    }

    /// A non-nullable field with no metadata.
    pub fn not_null(name: String, data_type: DataType) -> (f: Self)
        ensures
            f@.name == name@,
            f@.data_type == data_type@,
            !f@.nullable,
            f@.metadata == Map::<Seq<char>, MetaView>::empty(),
    {
        StructField::new(name, data_type, false)
    }

    /// The field with its metadata replaced by `metadata`.
    pub fn with_metadata(self, metadata: StrMap<MetadataValue>) -> (f: Self)
        ensures
            f@.name == self@.name,
            f@.data_type == self@.data_type,
            f@.nullable == self@.nullable,
            f@.metadata == metadata_view(metadata),
    {
        StructField { metadata, ..self }
    }

    pub fn name(&self) -> (r: &String)
        ensures
            r@ == self@.name,
    {
        &self.name
    }

    pub fn data_type(&self) -> (r: &DataType)
        ensures
            r@ == self@.data_type,
    {
        &self.data_type
    }

    pub fn is_nullable(&self) -> (r: bool)
        ensures
            r == self@.nullable,
    {
        self.nullable
    }

    pub fn metadata(&self) -> (r: &StrMap<MetadataValue>)
        ensures
            metadata_view(*r) == self@.metadata,
    {
        &self.metadata
    }
}

impl StructType {
    /// Whether the struct is well formed: no two of its fields have the same name, as the
    /// kernel's struct type, keyed by name, guarantees. Its constructors establish it.
    pub open spec fn well_formed(&self) -> bool {
        names_distinct(self@)
    }

    /// The struct type of `fields`; a field whose name came before replaces the earlier
    /// field in its place, as an index map keyed by name keeps them.
    pub fn new(fields: Vec<StructField>) -> (s: Self)
        ensures
            s@ == collapse_by_name(fields_view(fields@)),
            s.well_formed(),
    {
        let ghost fv = fields_view(fields@);
        proof {
            lemma_collapse_distinct(fv);
        }
        let mut out: Vec<StructField> = Vec::new();
        let mut rest = fields;
        let ghost mut done: Seq<StructField> = Seq::empty();
        proof {
            lemma_fields_view_len(fields@);
        }
        while rest.len() > 0
            invariant
                fields@ =~= done + rest@,
                fields_view(out@) == collapse_by_name(fields_view(done)),
            decreases rest.len(),
        {
            let f = rest.remove(0);
            let ghost r = fields_view(out@);
            proof {
                lemma_fields_view_len(out@);
                let d2 = done.push(f);
                assert(d2.drop_last() =~= done);
                assert(fields_view(d2) == fields_view(done).push(field_view(f)));
                assert(fields_view(d2).drop_last() =~= fields_view(done));
                done = d2;
            }
            let mut j: usize = 0;
            let mut found = false;
            while j < out.len()
                invariant
                    j <= out@.len(),
                    r == fields_view(out@),
                    r.len() == out@.len(),
                    !found ==> forall|k: int| 0 <= k < j ==> r[k].name != f.name@,
                    found ==> j < out@.len() && r[j as int].name == f.name@,
                ensures
                    found ==> j < out@.len() && r[j as int].name == f.name@,
                    !found ==> forall|k: int| 0 <= k < out@.len() ==> r[k].name != f.name@,
                decreases out.len() - j,
            {
                proof {
                    lemma_fields_view_index(out@, j as int);
                }
                if out[j].name == f.name {
                    found = true;
                    break;
                }
                j = j + 1;
            }
            proof {
                lemma_collapse_distinct(fields_view(done.drop_last()));
            }
            if found {
                proof {
                    assert(position_of(r, f.name@) == Some(j as int)) by {
                        let c = choose|c: int| 0 <= c < r.len() && r[c].name == f.name@;
                        assert(names_distinct(r));
                        assert(c == j as int);
                    }
                }
                let ghost before = out@;
                out.set(j, f);
                proof {
                    assert(out@ =~= before.update(j as int, f));
                    lemma_fields_view_len(out@);
                    assert forall|k: int| 0 <= k < out@.len() implies fields_view(out@)[k]
                        == r.update(j as int, field_view(f))[k] by {
                        lemma_fields_view_index(out@, k);
                        lemma_fields_view_index(before, k);
                    }
                    assert(fields_view(out@) =~= r.update(j as int, field_view(f)));
                }
            } else {
                proof {
                    assert(position_of(r, f.name@) is None);
                }
                let ghost before = out@;
                out.push(f);
                proof {
                    assert(out@.drop_last() =~= before);
                }
            }
        }
        proof {
            assert(done =~= fields@);
        }
        StructType { fields: out }
    }

    /// The struct type of `fields`, checked field by field in order: refused at the first
    /// field that is no primitive and holds a metadata column, that is a metadata column
    /// an earlier field is too, or whose lower-cased name is that of an earlier field.
    pub fn try_new(fields: Vec<StructField>) -> (r: Result<Self, SchemaError>)
        ensures
            match struct_refusal(fields_view(fields@)) {
                Some((_, StructRefusal::NestedMetadataColumn)) => r matches Err(SchemaError::NestedMetadataColumn),
                Some((_, StructRefusal::DuplicateMetadataColumn(c))) => r matches Err(
                    SchemaError::DuplicateMetadataColumn(d),
                ) && d == c,
                Some((i, StructRefusal::DuplicateFieldName)) => r matches Err(SchemaError::DuplicateFieldName(n))
                    && n@ == fields_view(fields@)[i].name,
                None => r matches Ok(s) && s@ == fields_view(fields@) && s.well_formed(),
            },
    {
        let ghost fv = fields_view(fields@);
        proof {
            lemma_fields_view_len(fields@);
        }
        let mut lowered: Vec<String> = Vec::new();
        let mut columns: Vec<Option<MetadataColumnSpec>> = Vec::new();
        let mut i: usize = 0;
        while i < fields.len()
            invariant
                i <= fields@.len(),
                fv == fields_view(fields@),
                fv.len() == fields@.len(),
                lowered@.len() == i,
                columns@.len() == i,
                forall|k: int| 0 <= k < i ==> #[trigger] lowered@[k]@ == lowercase_text(fv[k].name),
                forall|k: int| 0 <= k < i ==> #[trigger] columns@[k] == metadata_column_of(fv[k]),
                first_refusal(fv, i as int) is None,
            decreases fields.len() - i,
        {
            proof {
                lemma_fields_view_index(fields@, i as int);
            }
            let f = &fields[i];
            let is_primitive = match &f.data_type {
                DataType::Primitive(_) => true,
                _ => false,
            };
            if !is_primitive && field_holds_metadata_column(f) {
                proof {
                    lemma_first_refusal_stays(fv, i as int, fv.len() as int);
                }
                return Err(SchemaError::NestedMetadataColumn);
            }
            let column = metadata_column_of_field(f);
            if let Some(c) = column {
                if holds_column(&columns, c) {
                    proof {
                        let k = choose|k: int| 0 <= k < columns@.len() && columns@[k] == Some(c);
                        assert(metadata_column_of(fv[k]) == metadata_column_of(fv[i as int]));
                        assert(refusal_at(fv, i as int) == Some(StructRefusal::DuplicateMetadataColumn(c)));
                        lemma_first_refusal_stays(fv, i as int, fv.len() as int);
                    }
                    return Err(SchemaError::DuplicateMetadataColumn(c));
                }
            }
            proof {
                assert forall|j: int| 0 <= j < i implies #[trigger] metadata_column_of(fv[j]) != metadata_column_of(fv[i as int])
                    || metadata_column_of(fv[i as int]) is None by {
                    assert(columns@[j] == metadata_column_of(fv[j]));
                }
            }
            let low = to_lowercase(f.name.as_str());
            if holds_text(&lowered, &low) {
                proof {
                    let k = choose|k: int| 0 <= k < lowered@.len() && lowered@[k]@ == low@;
                    assert(lowered_names(fv)[k] == lowered_names(fv)[i as int]);
                    assert(repeats_at(lowered_names(fv), i as int));
                    lemma_first_refusal_stays(fv, i as int, fv.len() as int);
                }
                return Err(SchemaError::DuplicateFieldName(f.name.clone()));
            }
            proof {
                assert forall|j: int| 0 <= j < i implies #[trigger] lowered_names(fv)[j] != lowered_names(fv)[i as int] by {
                    assert(lowered@[j]@ == lowercase_text(fv[j].name));
                }
                assert(!repeats_at(lowered_names(fv), i as int));
                assert(refusal_at(fv, i as int) is None);
            }
            lowered.push(low);
            columns.push(column);
            i = i + 1;
        }
        proof {
            lemma_accepted_names_distinct(fv);
        }
        Ok(StructType { fields })
    }

    pub fn fields(&self) -> (r: &Vec<StructField>)
        ensures
            fields_view(r@) == self@,
    {
        &self.fields
    }

    /// The first field named `name`.
    pub fn field(&self, name: &str) -> (r: Option<&StructField>)
        ensures
            match r {
                Some(f) => exists|j: int| 0 <= j < self@.len() && self@[j] == f@ && f@.name == name@,
                None => forall|j: int| 0 <= j < self@.len() ==> self@[j].name != name@,
            },
    {
        proof {
            lemma_fields_view_len(self.fields@);
        }
        let mut i: usize = 0;
        while i < self.fields.len()
            invariant
                i <= self.fields@.len(),
                self@.len() == self.fields@.len(),
                forall|j: int| 0 <= j < i ==> self@[j].name != name@,
            decreases self.fields.len() - i,
        {
            proof {
                lemma_fields_view_index(self.fields@, i as int);
            }
            if *self.fields[i].name.as_str() == *name {
                return Some(&self.fields[i]);
            }
            i = i + 1;
        }
        None
    }
}


/// Whether two types are equal as Delta compares them: the fields of a struct are
/// matched by name, whatever their order.
pub open spec fn same_type(a: TypeView, b: TypeView) -> bool
    decreases a, 0int,
{
    match a {
        TypeView::Primitive(p) => b == TypeView::Primitive(p),
        TypeView::Array(e, n) => match b {
            TypeView::Array(e2, n2) => same_type(*e, *e2) && n == n2,
            _ => false,
        },
        TypeView::MapOf(k, v, n) => match b {
            TypeView::MapOf(k2, v2, n2) => same_type(*k, *k2) && same_type(*v, *v2) && n == n2,
            _ => false,
        },
        TypeView::Struct(fs) => match b {
            TypeView::Struct(gs) => fs.len() == gs.len() && all_fields_match(fs, gs),
            _ => false,
        },
    }
}

/// Whether every field of `fs` has a matching field in `gs`.
pub open spec fn all_fields_match(fs: Seq<FieldView>, gs: Seq<FieldView>) -> bool
    decreases fs, 0int,
{
    forall|i: int| 0 <= i < fs.len() ==> has_match(#[trigger] fs[i], gs)
}

/// Whether some field of `gs` matches `f`.
pub open spec fn has_match(f: FieldView, gs: Seq<FieldView>) -> bool
    decreases f, 1int,
{
    exists|j: int| #![trigger gs[j]] 0 <= j < gs.len() && same_field(f, gs[j])
}

/// Whether field `g` matches field `f`: the same name, type, nullability and metadata.
pub open spec fn same_field(f: FieldView, g: FieldView) -> bool
    decreases f, 0int,
{
    g.name == f.name && same_type(f.data_type, g.data_type) && f.nullable == g.nullable && f.metadata
        == g.metadata
}

/// Every type is equal to itself as Delta compares types.
pub proof fn law_same_type_reflexive(t: TypeView)
    ensures
        same_type(t, t),
    decreases t, 1int,
{
    match t {
        TypeView::Primitive(_) => {},
        TypeView::Array(e, _) => {
            law_same_type_reflexive(*e);
        },
        TypeView::MapOf(k, v, _) => {
            law_same_type_reflexive(*k);
            law_same_type_reflexive(*v);
        },
        TypeView::Struct(fs) => {
            lemma_fields_match_themselves(fs);
        },
    }
}

/// Delta's type equality is transitive.
pub proof fn lemma_same_type_transitive(a: TypeView, b: TypeView, c: TypeView)
    requires
        same_type(a, b),
        same_type(b, c),
    ensures
        same_type(a, c),
    decreases a, 1int,
{
    match a {
        TypeView::Primitive(_) => {},
        TypeView::Array(e, _) => {
            let e2 = b->Array_0;
            let e3 = c->Array_0;
            lemma_same_type_transitive(*e, *e2, *e3);
        },
        TypeView::MapOf(k, v, _) => {
            lemma_same_type_transitive(*k, *b->MapOf_0, *c->MapOf_0);
            lemma_same_type_transitive(*v, *b->MapOf_1, *c->MapOf_1);
        },
        TypeView::Struct(fs) => {
            lemma_fields_match_transitive(fs, b->Struct_0, c->Struct_0);
        },
    }
}

/// Matching fields is transitive: a field matched in `gs`, whose match is matched in
/// `hs`, is matched in `hs`.
proof fn lemma_fields_match_transitive(fs: Seq<FieldView>, gs: Seq<FieldView>, hs: Seq<FieldView>)
    requires
        all_fields_match(fs, gs),
        all_fields_match(gs, hs),
    ensures
        all_fields_match(fs, hs),
    decreases fs, 0int,
{
    assert forall|i: int| 0 <= i < fs.len() implies has_match(#[trigger] fs[i], hs) by {
        assert(has_match(fs[i], gs));
        let j = choose|j: int| 0 <= j < gs.len() && same_field(fs[i], gs[j]);
        assert(has_match(gs[j], hs));
        let k = choose|k: int| 0 <= k < hs.len() && same_field(gs[j], hs[k]);
        lemma_same_type_transitive(fs[i].data_type, gs[j].data_type, hs[k].data_type);
        assert(same_field(fs[i], hs[k]));
    }
}

/// Every field of a list matches itself in the list.
proof fn lemma_fields_match_themselves(fs: Seq<FieldView>)
    ensures
        all_fields_match(fs, fs),
    decreases fs, 0int,
{
    assert forall|i: int| 0 <= i < fs.len() implies has_match(#[trigger] fs[i], fs) by {
        law_same_type_reflexive(fs[i].data_type);
        assert(same_field(fs[i], fs[i]));
    }
}

/// Whether two metadata values denote the same.
pub fn same_metadata_value(a: &MetadataValue, b: &MetadataValue) -> (r: bool)
    ensures
        r == (a@ == b@),
{
    match (a, b) {
        (MetadataValue::Number(x), MetadataValue::Number(y)) => *x == *y,
        (MetadataValue::String(x), MetadataValue::String(y)) => *x == *y,
        (MetadataValue::Boolean(x), MetadataValue::Boolean(y)) => *x == *y,
        (MetadataValue::Other(x), MetadataValue::Other(y)) => *x == *y,
        _ => false,
    }
}

/// Whether `b` holds key `k` with the value that `a` holds for it.
pub open spec fn agrees_at(a: StrMap<MetadataValue>, b: StrMap<MetadataValue>, k: Seq<char>) -> bool {
    b@.contains_key(k) && a@[k]@ == b@[k]@
}

/// Whether two metadata maps denote the same.
pub fn same_metadata(a: &StrMap<MetadataValue>, b: &StrMap<MetadataValue>) -> (r: bool)
    ensures
        r == (metadata_view(*a) == metadata_view(*b)),
{
    let mut i: usize = 0;
    while i < a.entries.len()
        invariant
            i <= a.entries@.len(),
            forall|k: int| 0 <= k < i ==> agrees_at(*a, *b, #[trigger] a.entries@[k].0@),
        decreases a.entries.len() - i,
    {
        let key = a.entries[i].0.as_str();
        proof {
            crate::strmap::lemma_lookup_some(a.entries@, key@);
        }
        let va = a.get(key);
        let vb = b.get(key);
        match (va, vb) {
            (Some(x), Some(y)) => {
                if !same_metadata_value(x, y) {
                    assert(metadata_view(*a)[key@] != metadata_view(*b)[key@]);
                    return false;
                }
                assert(agrees_at(*a, *b, a.entries@[i as int].0@));
            },
            _ => {
                assert(!metadata_view(*b).contains_key(key@));
                return false;
            },
        }
        i = i + 1;
    }
    let mut j: usize = 0;
    while j < b.entries.len()
        invariant
            j <= b.entries@.len(),
            forall|k: int| 0 <= k < j ==> #[trigger] a@.contains_key(b.entries@[k].0@),
        decreases b.entries.len() - j,
    {
        let key = b.entries[j].0.as_str();
        proof {
            crate::strmap::lemma_lookup_some(b.entries@, key@);
        }
        if !a.contains_key(key) {
            assert(!metadata_view(*a).contains_key(key@));
            return false;
        }
        j = j + 1;
    }
    proof {
        assert forall|k: Seq<char>| #[trigger] a@.contains_key(k) <==> b@.contains_key(k) by {
            crate::strmap::lemma_lookup_some(a.entries@, k);
            crate::strmap::lemma_lookup_some(b.entries@, k);
            if a@.contains_key(k) {
                let t = choose|t: int| 0 <= t < a.entries@.len() && #[trigger] a.entries@[t].0@ == k;
                assert(agrees_at(*a, *b, a.entries@[t].0@));
            }
            if b@.contains_key(k) {
                let t = choose|t: int| 0 <= t < b.entries@.len() && #[trigger] b.entries@[t].0@ == k;
                assert(a@.contains_key(b.entries@[t].0@));
            }
        }
        assert forall|k: Seq<char>| #[trigger] a@.contains_key(k) implies a@[k]@ == b@[k]@ by {
            crate::strmap::lemma_lookup_some(a.entries@, k);
            let t = choose|t: int| 0 <= t < a.entries@.len() && #[trigger] a.entries@[t].0@ == k;
            assert(agrees_at(*a, *b, a.entries@[t].0@));
        }
        assert(metadata_view(*a) =~= metadata_view(*b));
    }
    true
}


/// Whether two types are equal as Delta compares them.
pub fn same_data_type(a: &DataType, b: &DataType) -> (r: bool)
    ensures
        r == same_type(a@, b@),
    decreases a,
{
    match (a, b) {
        (DataType::Primitive(p), DataType::Primitive(q)) => *p == *q,
        (DataType::Array(x), DataType::Array(y)) => {
            same_data_type(&x.element_type, &y.element_type) && x.contains_null == y.contains_null
        },
        (DataType::MapOf(x), DataType::MapOf(y)) => {
            same_data_type(&x.key_type, &y.key_type) && same_data_type(&x.value_type, &y.value_type)
                && x.value_contains_null == y.value_contains_null
        },
        (DataType::Struct(x), DataType::Struct(y)) => {
            let ghost fs = fields_view(x.fields@);
            let ghost gs = fields_view(y.fields@);
            proof {
                lemma_fields_view_len(x.fields@);
                lemma_fields_view_len(y.fields@);
            }
            if x.fields.len() != y.fields.len() {
                return false;
            }
            let mut i: usize = 0;
            while i < x.fields.len()
                invariant
                    i <= x.fields@.len(),
                    *a == DataType::Struct(*x),
                    *b == DataType::Struct(*y),
                    fs == fields_view(x.fields@),
                    gs == fields_view(y.fields@),
                    fs.len() == x.fields@.len(),
                    gs.len() == y.fields@.len(),
                    forall|k: int| 0 <= k < i ==> has_match(#[trigger] fs[k], gs),
                decreases x.fields.len() - i,
            {
                proof {
                    lemma_field_decreases(*a, **x, i as int);
                    lemma_fields_view_index(x.fields@, i as int);
                }
                let f = &x.fields[i];
                let mut j: usize = 0;
                let mut found = false;
                while j < y.fields.len()
                    invariant
                        j <= y.fields@.len(),
                        i < x.fields@.len(),
                        *a == DataType::Struct(*x),
                        *b == DataType::Struct(*y),
                        *f == x.fields@[i as int],
                        fs == fields_view(x.fields@),
                        gs == fields_view(y.fields@),
                        fs.len() == x.fields@.len(),
                        gs.len() == y.fields@.len(),
                        found ==> has_match(fs[i as int], gs),
                        forall|k: int| 0 <= k < i ==> has_match(#[trigger] fs[k], gs),
                        !found ==> forall|m: int| 0 <= m < j ==> !#[trigger] same_field(fs[i as int], gs[m]),
                    decreases y.fields.len() - j,
                {
                    proof {
                        lemma_field_decreases(*a, **x, i as int);
                        lemma_fields_view_index(x.fields@, i as int);
                        lemma_fields_view_index(y.fields@, j as int);
                    }
                    let g = &y.fields[j];
                    if !found && g.name == f.name && same_data_type(&f.data_type, &g.data_type)
                        && f.nullable == g.nullable && same_metadata(&f.metadata, &g.metadata) {
                        found = true;
                        assert(same_field(fs[i as int], gs[j as int]));
                        assert(has_match(fs[i as int], gs));
                    }
                    j = j + 1;
                }
                if !found {
                    proof {
                        assert(a@ == TypeView::Struct(fs));
                        assert(b@ == TypeView::Struct(gs));
                        if same_type(a@, b@) {
                            assert(all_fields_match(fs, gs));
                            assert(has_match(fs[i as int], gs));
                            let m = choose|m: int| #![trigger gs[m]] 0 <= m < gs.len() && same_field(fs[i as int], gs[m]);
                            assert(!same_field(fs[i as int], gs[m]));
                        }
                    }
                    return false;
                }
                i = i + 1;
            }
            proof {
                assert(a@ == TypeView::Struct(fs));
                assert(b@ == TypeView::Struct(gs));
                assert(all_fields_match(fs, gs));
            }
            true
        },
        _ => false,
    }
}

} // verus!
