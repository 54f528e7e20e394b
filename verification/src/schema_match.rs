use vstd::prelude::*;
use vstd::std_specs::cmp::PartialEqSpec;

use crate::column_mapping::names_view;
use crate::errors::DeltaTableError;
use crate::strmap::{lemma_lookup_some, StrMap};
use crate::writer::{
    arrow_fields_view, lemma_arrow_fields_view_index, lemma_arrow_fields_view_len, physical_fields,
    transform_schema_to_physical, ArrowField, ArrowFieldType, ArrowFieldView, ArrowSchema, ArrowSchemaView,
    ArrowTypeView, PartitionWriterConfig,
};

verus! {

/// Whether two Arrow fields are equal: the same name, nullability, metadata and type
/// throughout, leaf types compared with their `==`. Without `leaves`, only the shape is
/// compared: everything but the leaf types.
pub open spec fn arrow_field_equal<T: PartialEq>(a: ArrowFieldView<T>, b: ArrowFieldView<T>, leaves: bool) -> bool
    decreases a, 1int,
{
    &&& a.name == b.name
    &&& a.nullable == b.nullable
    &&& a.metadata == b.metadata
    &&& arrow_type_equal(a.data_type, b.data_type, leaves)
}

/// Whether two Arrow types are equal.
pub open spec fn arrow_type_equal<T: PartialEq>(a: ArrowTypeView<T>, b: ArrowTypeView<T>, leaves: bool) -> bool
    decreases a, 0int,
{
    match a {
        ArrowTypeView::Struct(fs) => match b {
            ArrowTypeView::Struct(gs) => arrow_fields_equal(fs, gs, leaves),
            _ => false,
        },
        ArrowTypeView::List(f) => match b {
            ArrowTypeView::List(g) => arrow_field_equal(*f, *g, leaves),
            _ => false,
        },
        ArrowTypeView::LargeList(f) => match b {
            ArrowTypeView::LargeList(g) => arrow_field_equal(*f, *g, leaves),
            _ => false,
        },
        ArrowTypeView::MapOf(f, sorted) => match b {
            ArrowTypeView::MapOf(g, sorted2) => sorted == sorted2 && arrow_field_equal(*f, *g, leaves),
            _ => false,
        },
        ArrowTypeView::Other(d) => match b {
            ArrowTypeView::Other(e) => !leaves || d.eq_spec(&e),
            _ => false,
        },
    }
}

/// Whether two lists of Arrow fields are equal, field by field in order.
pub open spec fn arrow_fields_equal<T: PartialEq>(
    fs: Seq<ArrowFieldView<T>>,
    gs: Seq<ArrowFieldView<T>>,
    leaves: bool,
) -> bool
    decreases fs, 2int,
{
    &&& fs.len() == gs.len()
    &&& forall|i: int| 0 <= i < fs.len() ==> arrow_field_equal(#[trigger] fs[i], gs[i], leaves)
}

/// Whether two Arrow schemas are equal: their fields and their metadata; without
/// `leaves`, only their shape.
pub open spec fn arrow_schemas_equal<T: PartialEq>(a: ArrowSchemaView<T>, b: ArrowSchemaView<T>, leaves: bool) -> bool {
    arrow_fields_equal(a.fields, b.fields, leaves) && a.metadata == b.metadata
}

/// Whether two maps of texts hold the same keys with the same texts.
pub fn same_text_maps(a: &StrMap<String>, b: &StrMap<String>) -> (r: bool)
    ensures
        r == (names_view(*a) == names_view(*b)),
{
    let mut i: usize = 0;
    while i < a.entries.len()
        invariant
            i <= a.entries@.len(),
            forall|k: int|
                0 <= k < i ==> b@.contains_key(#[trigger] a.entries@[k].0@) && a@.contains_key(a.entries@[k].0@)
                    && b@[a.entries@[k].0@]@ == a@[a.entries@[k].0@]@,
        decreases a.entries.len() - i,
    {
        let key = a.entries[i].0.as_str();
        proof {
            lemma_lookup_some(a.entries@, key@);
        }
        match (a.get(key), b.get(key)) {
            (Some(x), Some(y)) => {
                if !(*x.as_str() == *y.as_str()) {
                    assert(names_view(*a)[key@] != names_view(*b)[key@]);
                    return false;
                }
            },
            _ => {
                assert(names_view(*a).contains_key(key@) != names_view(*b).contains_key(key@));
                return false;
            },
        }
        i = i + 1;
    }
    let mut j: usize = 0;
    while j < b.entries.len()
        invariant
            j <= b.entries@.len(),
            forall|k: int| 0 <= k < j ==> a@.contains_key(#[trigger] b.entries@[k].0@),
        decreases b.entries.len() - j,
    {
        let key = b.entries[j].0.as_str();
        proof {
            lemma_lookup_some(b.entries@, key@);
        }
        if !a.contains_key(key) {
            assert(names_view(*a).contains_key(key@) != names_view(*b).contains_key(key@));
            return false;
        }
        j = j + 1;
    }
    proof {
        assert forall|q: Seq<char>| #[trigger] names_view(*a).contains_key(q) implies names_view(*b).contains_key(q)
            && names_view(*a)[q] == names_view(*b)[q] by {
            lemma_lookup_some(a.entries@, q);
            let k = choose|k: int| 0 <= k < a.entries@.len() && #[trigger] a.entries@[k].0@ == q;
            assert(b@.contains_key(a.entries@[k].0@));
        }
        assert forall|q: Seq<char>| #[trigger] names_view(*b).contains_key(q) implies names_view(*a).contains_key(q) by {
            lemma_lookup_some(b.entries@, q);
            let k = choose|k: int| 0 <= k < b.entries@.len() && #[trigger] b.entries@[k].0@ == q;
            assert(a@.contains_key(b.entries@[k].0@));
        }
        assert(names_view(*a) =~= names_view(*b));
    }
    true
}

/// Whether two Arrow fields are equal; leaf types are compared with their `==`.
pub fn equal_fields<T: PartialEq>(a: &ArrowField<T>, b: &ArrowField<T>) -> (r: bool)
    ensures
        r ==> arrow_field_equal(a@, b@, false),
        T::obeys_eq_spec() ==> r == arrow_field_equal(a@, b@, true),
    decreases a, 1int,
{
    if !(*a.name.as_str() == *b.name.as_str()) || a.nullable != b.nullable || !same_text_maps(&a.metadata, &b.metadata) {
        return false;
    }
    match (&a.data_type, &b.data_type) {
        (ArrowFieldType::Struct(fs), ArrowFieldType::Struct(gs)) => {
            proof {
                assert(decreases_to!(*a => a.data_type));
                assert(a.data_type->Struct_0 == *fs);
                assert(decreases_to!(a.data_type => a.data_type->Struct_0));
                assert(decreases_to!(*fs => fs@));
            }
            equal_field_lists(a, fs, gs)
        },
        (ArrowFieldType::List(f), ArrowFieldType::List(g)) => equal_fields(f, g),
        (ArrowFieldType::LargeList(f), ArrowFieldType::LargeList(g)) => equal_fields(f, g),
        (ArrowFieldType::MapOf(f, s1), ArrowFieldType::MapOf(g, s2)) => *s1 == *s2 && equal_fields(f, g),
        (ArrowFieldType::Other(d), ArrowFieldType::Other(e)) => d == e,
        _ => false,
    }
}

/// Whether the fields `fs` below the field `holder` are equal to `gs`, field by field.
fn equal_field_lists<T: PartialEq>(holder: &ArrowField<T>, fs: &Vec<ArrowField<T>>, gs: &Vec<ArrowField<T>>) -> (r:
    bool)
    requires
        holder.data_type == ArrowFieldType::Struct(*fs),
    ensures
        r ==> arrow_fields_equal(arrow_fields_view(fs@), arrow_fields_view(gs@), false),
        T::obeys_eq_spec() ==> r == arrow_fields_equal(arrow_fields_view(fs@), arrow_fields_view(gs@), true),
    decreases holder, 0int,
{
    let ghost fv = arrow_fields_view(fs@);
    let ghost gv = arrow_fields_view(gs@);
    proof {
        lemma_arrow_fields_view_len(fs@);
        lemma_arrow_fields_view_len(gs@);
    }
    if fs.len() != gs.len() {
        return false;
    }
    let mut i: usize = 0;
    while i < fs.len()
        invariant
            i <= fs@.len(),
            fs@.len() == gs@.len(),
            fv == arrow_fields_view(fs@),
            gv == arrow_fields_view(gs@),
            fv.len() == fs@.len(),
            gv.len() == gs@.len(),
            holder.data_type == ArrowFieldType::Struct(*fs),
            forall|k: int| 0 <= k < i ==> arrow_field_equal(#[trigger] fv[k], gv[k], false),
            T::obeys_eq_spec() ==> forall|k: int| 0 <= k < i ==> arrow_field_equal(#[trigger] fv[k], gv[k], true),
        decreases fs.len() - i,
    {
        proof {
            assert(decreases_to!(*holder => holder.data_type));
            assert(holder.data_type->Struct_0 == *fs);
            assert(decreases_to!(holder.data_type => holder.data_type->Struct_0));
            assert(decreases_to!(*fs => fs@));
            assert(decreases_to!(fs@ => fs@[i as int]));
            lemma_arrow_fields_view_index(fs@, i as int);
            lemma_arrow_fields_view_index(gs@, i as int);
        }
        if !equal_fields(&fs[i], &gs[i]) {
            return false;
        }
        i = i + 1;
    }
    true
}

impl<P, T: PartialEq, V> PartitionWriterConfig<P, T, V> {
    /// The schema of a batch as its files hold it: its columns renamed to their
    /// physical names. Where that is not the schema of the files, the batch cannot be
    /// written and the answer is `SchemaMismatch`: always where the two differ in their
    /// shape (names, nullability, metadata, nesting), and where they differ in a leaf type
    /// as that type's `==` finds.
    pub fn physical_batch_schema(&self, batch_schema: ArrowSchema<T>) -> (r: Result<ArrowSchema<T>, DeltaTableError>)
        ensures
            ({
                let physical = ArrowSchemaView {
                    fields: physical_fields(batch_schema@.fields, names_view(self.logical_to_physical)),
                    metadata: batch_schema@.metadata,
                };
                &&& match r {
                    Ok(s) => s@ == physical && arrow_schemas_equal(physical, self.file_schema@, false),
                    Err(e) => e is SchemaMismatch,
                }
                &&& !arrow_schemas_equal(physical, self.file_schema@, false) ==> r is Err
                &&& T::obeys_eq_spec() ==> (r is Ok <==> arrow_schemas_equal(physical, self.file_schema@, true))
            }),
    {
        let s = transform_schema_to_physical(batch_schema, &self.logical_to_physical);
        if equal_schemas(&s, &self.file_schema) {
            Ok(s)
        } else {
            Err(DeltaTableError::SchemaMismatch)
        }
    }
}

/// Whether two Arrow schemas are equal; leaf types are compared with their `==`.
pub fn equal_schemas<T: PartialEq>(a: &ArrowSchema<T>, b: &ArrowSchema<T>) -> (r: bool)
    ensures
        r ==> arrow_schemas_equal(a@, b@, false),
        T::obeys_eq_spec() ==> r == arrow_schemas_equal(a@, b@, true),
{
    let fs = &a.fields;
    let gs = &b.fields;
    let ghost fv = arrow_fields_view(fs@);
    let ghost gv = arrow_fields_view(gs@);
    proof {
        lemma_arrow_fields_view_len(fs@);
        lemma_arrow_fields_view_len(gs@);
    }
    if !same_text_maps(&a.metadata, &b.metadata) || fs.len() != gs.len() {
        return false;
    }
    let mut i: usize = 0;
    while i < fs.len()
        invariant
            i <= fs@.len(),
            fs@.len() == gs@.len(),
            fv == arrow_fields_view(fs@),
            gv == arrow_fields_view(gs@),
            fv.len() == fs@.len(),
            gv.len() == gs@.len(),
            *fs == a.fields,
            *gs == b.fields,
            forall|k: int| 0 <= k < i ==> arrow_field_equal(#[trigger] fv[k], gv[k], false),
            T::obeys_eq_spec() ==> forall|k: int| 0 <= k < i ==> arrow_field_equal(#[trigger] fv[k], gv[k], true),
        decreases fs.len() - i,
    {
        proof {
            lemma_arrow_fields_view_index(fs@, i as int);
            lemma_arrow_fields_view_index(gs@, i as int);
        }
        if !equal_fields(&fs[i], &gs[i]) {
            return false;
        }
        i = i + 1;
    }
    true
}

} // verus!
