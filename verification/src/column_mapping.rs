use vstd::prelude::*;

use crate::constraints::KernelError;
use crate::generated_columns::metadata_column_id;
use crate::schema::{
    field_view, fields_view, lemma_fields_view_index, lemma_fields_view_len, metadata_view,
    fields_hold_metadata_column, first_refusal, holds_metadata_column, lowered_names, metadata_column_of,
    metadata_spec_key, refusal_at, struct_refusal, type_holds_metadata_column, ArrayType, DataType, FieldView, MapType, MetaView, MetadataValue,
    StructField, StructType, TypeView,
};
use crate::strmap::StrMap;

verus! {

/// The metadata key of a field's column mapping id.
pub open spec fn column_id_key() -> Seq<char> {
    "delta.columnMapping.id"@
}

/// The metadata key of a field's physical name.
pub open spec fn physical_name_key() -> Seq<char> {
    "delta.columnMapping.physicalName"@
}

/// Whether `c` is a lower-case hexadecimal digit.
pub open spec fn is_lower_hex(c: char) -> bool {
    ('0' <= c && c <= '9') || ('a' <= c && c <= 'f')
}

/// The text of a random (version 4) UUID: 32 lower-case hex digits in groups of
/// 8-4-4-4-12 joined by hyphens, the version digit being `4`.
pub open spec fn is_uuid_v4_text(s: Seq<char>) -> bool {
    &&& s.len() == 36
    &&& forall|i: int|
        0 <= i < 36 ==> if i == 8 || i == 13 || i == 18 || i == 23 {
            #[trigger] s[i] == '-'
        } else {
            is_lower_hex(s[i])
        }
    &&& s[14] == '4'
}

/// The text of the UUID that `uuid_text` makes of a random number.
pub uninterp spec fn spec_uuid_text(random: u128) -> Seq<char>;

/// Makes a random (version 4) UUID of 128 random bits with
/// `uuid::Builder::from_random_bytes`, the bits taken in big-endian order, and writes it
/// with its `Display`, the hyphenated lower-case form. The text is a function of the
/// bits, named above; its contract claims that, and the shape with the version digit 4.
#[verifier::external_body]
fn uuid_text(random: u128) -> (r: String)
    ensures
        is_uuid_v4_text(r@),
        r@ == spec_uuid_text(random),
{
    uuid::Builder::from_random_bytes(random.to_be_bytes()).into_uuid().to_string()
}

/// The number of fields that column mapping annotates in a list of fields: each field,
/// and the fields of a struct that is its type, the element type of its array or the
/// value type of its map.
pub open spec fn annotated_count_fields(fs: Seq<FieldView>) -> nat
    decreases fs, 0int,
{
    if fs.len() == 0 {
        0
    } else {
        annotated_count_fields(fs.drop_last()) + 1 + annotated_count_type(fs.last().data_type)
    }
}

/// The number of fields that column mapping annotates below a type.
pub open spec fn annotated_count_type(t: TypeView) -> nat
    decreases t, 1int,
{
    match t {
        TypeView::Struct(fs) => annotated_count_fields(fs),
        TypeView::Array(e, _) => match *e {
            TypeView::Struct(fs) => annotated_count_fields(fs),
            _ => 0,
        },
        TypeView::MapOf(_, v, _) => match *v {
            TypeView::Struct(fs) => annotated_count_fields(fs),
            _ => 0,
        },
        TypeView::Primitive(_) => 0,
    }
}

/// Whether every struct that column mapping rebuilds has names that differ when
/// lower-cased.
pub open spec fn annotatable_fields(fs: Seq<FieldView>) -> bool
    decreases fs, 0int,
{
    struct_refusal(fs) is None && forall|i: int|
        #![trigger fs[i]]
        0 <= i < fs.len() ==> annotatable_type(fs[i].data_type)
}

/// Whether every struct below a type that column mapping rebuilds has names that differ
/// when lower-cased.
pub open spec fn annotatable_type(t: TypeView) -> bool
    decreases t, 1int,
{
    match t {
        TypeView::Struct(fs) => annotatable_fields(fs),
        TypeView::Array(e, _) => match *e {
            TypeView::Struct(fs) => annotatable_fields(fs),
            _ => true,
        },
        TypeView::MapOf(_, v, _) => match *v {
            TypeView::Struct(fs) => annotatable_fields(fs),
            _ => true,
        },
        TypeView::Primitive(_) => true,
    }
}

/// Whether `new` is the list `old` with column mapping added: field ids numbered from
/// `next` in pre-order, each field then the fields below it.
pub open spec fn annotated_fields(old: Seq<FieldView>, new: Seq<FieldView>, next: int, rs: Seq<u128>) -> bool
    decreases old, 0int,
{
    if old.len() == 0 {
        new.len() == 0
    } else {
        &&& new.len() == old.len()
        &&& annotated_fields(old.drop_last(), new.drop_last(), next, rs)
        &&& annotated_field(old.last(), new.last(), next + annotated_count_fields(old.drop_last()), rs)
    }
}

/// Whether field `n` is `o` with column mapping id `id`, a physical name `col-<uuid>`
/// where the UUID is made of the random number `rs[id - 1]`, and the fields below it
/// numbered from `id + 1`.
pub open spec fn annotated_field(o: FieldView, n: FieldView, id: int, rs: Seq<u128>) -> bool
    decreases o, 2int,
{
    &&& n.name == o.name
    &&& n.nullable == o.nullable
    &&& exists|u: Seq<char>|
        is_uuid_v4_text(u) && u == spec_uuid_text(rs[id - 1]) && #[trigger] n.metadata == o.metadata.insert(
            column_id_key(),
            MetaView::Number(id),
        ).insert(physical_name_key(), MetaView::Str("col-"@ + u))
    &&& annotated_type(o.data_type, n.data_type, id + 1, rs)
}

/// Whether type `n` is `o` with the fields below it annotated from `next`.
pub open spec fn annotated_type(o: TypeView, n: TypeView, next: int, rs: Seq<u128>) -> bool
    decreases o, 1int,
{
    match o {
        TypeView::Struct(fs) => match n {
            TypeView::Struct(gs) => annotated_fields(fs, gs, next, rs),
            _ => false,
        },
        TypeView::Array(e, c) => match *e {
            TypeView::Struct(fs) => match n {
                TypeView::Array(e2, c2) => c2 == c && match *e2 {
                    TypeView::Struct(gs) => annotated_fields(fs, gs, next, rs),
                    _ => false,
                },
                _ => false,
            },
            _ => n == o,
        },
        TypeView::MapOf(k, v, c) => match *v {
            TypeView::Struct(fs) => match n {
                TypeView::MapOf(k2, v2, c2) => k2 == k && c2 == c && match *v2 {
                    TypeView::Struct(gs) => annotated_fields(fs, gs, next, rs),
                    _ => false,
                },
                _ => false,
            },
            _ => n == o,
        },
        TypeView::Primitive(_) => n == o,
    }
}


/// An annotated list keeps the names of the fields, one by one.
pub proof fn lemma_annotated_names(old: Seq<FieldView>, new: Seq<FieldView>, next: int, rs: Seq<u128>)
    requires
        annotated_fields(old, new, next, rs),
    ensures
        new.len() == old.len(),
        forall|i: int| 0 <= i < old.len() ==> #[trigger] new[i].name == old[i].name,
    decreases old.len(),
{
    if old.len() > 0 {
        lemma_annotated_names(old.drop_last(), new.drop_last(), next, rs);
        assert(annotated_field(old.last(), new.last(), next + annotated_count_fields(old.drop_last()), rs));
        assert(new.last().name == old.last().name);
        assert forall|i: int| 0 <= i < old.len() implies #[trigger] new[i].name == old[i].name by {
            if i < old.len() - 1 {
                assert(new.drop_last()[i] == new[i]);
                assert(old.drop_last()[i] == old[i]);
            }
        }
    }
}

/// Whether an annotated field `n` keeps what building a struct looks at in `o`: its
/// name, whether it is a primitive or a struct, whether it holds a metadata column, and
/// which metadata column it is.
pub open spec fn keeps_struct_checks(o: FieldView, n: FieldView) -> bool {
    &&& n.name == o.name
    &&& (n.data_type is Primitive) == (o.data_type is Primitive)
    &&& (n.data_type is Struct) == (o.data_type is Struct)
    &&& holds_metadata_column(n) == holds_metadata_column(o)
    &&& metadata_column_of(n) == metadata_column_of(o)
}

proof fn lemma_annotated_field_keeps(o: FieldView, n: FieldView, id: int, rs: Seq<u128>)
    requires
        annotated_field(o, n, id, rs),
    ensures
        keeps_struct_checks(o, n),
    decreases o, 2int,
{
    reveal_strlit("delta.metadataSpec");
    reveal_strlit("delta.columnMapping.id");
    reveal_strlit("delta.columnMapping.physicalName");
    assert(metadata_spec_key().len() != column_id_key().len());
    assert(metadata_spec_key().len() != physical_name_key().len());
    let u = choose|u: Seq<char>|
        is_uuid_v4_text(u) && #[trigger] n.metadata == o.metadata.insert(column_id_key(), MetaView::Number(id)).insert(
            physical_name_key(),
            MetaView::Str("col-"@ + u),
        );
    assert(n.metadata.contains_key(metadata_spec_key()) == o.metadata.contains_key(metadata_spec_key()));
    assert(n.metadata.get(metadata_spec_key()) == o.metadata.get(metadata_spec_key()));
    lemma_annotated_type_keeps(o.data_type, n.data_type, id + 1, rs);
}

proof fn lemma_annotated_type_keeps(o: TypeView, n: TypeView, next: int, rs: Seq<u128>)
    requires
        annotated_type(o, n, next, rs),
    ensures
        type_holds_metadata_column(n) == type_holds_metadata_column(o),
        (n is Primitive) == (o is Primitive),
        (n is Struct) == (o is Struct),
    decreases o, 1int,
{
    match o {
        TypeView::Struct(fs) => {
            lemma_annotated_fields_keep(fs, n->Struct_0, next, rs);
        },
        TypeView::Array(e, _) => match *e {
            TypeView::Struct(fs) => {
                assert(decreases_to!(o => e));
                lemma_annotated_fields_keep(fs, (*n->Array_0)->Struct_0, next, rs);
            },
            _ => {},
        },
        TypeView::MapOf(k, v, _) => match *v {
            TypeView::Struct(fs) => {
                assert(decreases_to!(o => v));
                lemma_annotated_fields_keep(fs, (*n->MapOf_1)->Struct_0, next, rs);
            },
            _ => {},
        },
        TypeView::Primitive(_) => {},
    }
}

/// Annotating a list keeps, field by field, what building a struct looks at.
proof fn lemma_annotated_fields_keep(old: Seq<FieldView>, new: Seq<FieldView>, next: int, rs: Seq<u128>)
    requires
        annotated_fields(old, new, next, rs),
    ensures
        new.len() == old.len(),
        forall|i: int| 0 <= i < old.len() ==> keeps_struct_checks(#[trigger] old[i], new[i]),
        fields_hold_metadata_column(new, true) == fields_hold_metadata_column(old, true),
        fields_hold_metadata_column(new, false) == fields_hold_metadata_column(old, false),
    decreases old, 0int,
{
    if old.len() > 0 {
        lemma_annotated_fields_keep(old.drop_last(), new.drop_last(), next, rs);
        lemma_annotated_field_keeps(old.last(), new.last(), next + annotated_count_fields(old.drop_last()), rs);
        assert forall|i: int| 0 <= i < old.len() implies keeps_struct_checks(#[trigger] old[i], new[i]) by {
            if i < old.len() - 1 {
                assert(new.drop_last()[i] == new[i]);
                assert(old.drop_last()[i] == old[i]);
            }
        }
    }
}

/// Two lists that agree field by field on what building a struct looks at are refused
/// at the same field for the same reason.
proof fn lemma_same_refusal(a: Seq<FieldView>, b: Seq<FieldView>, n: int)
    requires
        b.len() == a.len(),
        n <= a.len(),
        forall|i: int| 0 <= i < a.len() ==> keeps_struct_checks(#[trigger] a[i], b[i]),
    ensures
        first_refusal(b, n) == first_refusal(a, n),
    decreases n,
{
    if n > 0 {
        lemma_same_refusal(a, b, n - 1);
        let i = n - 1;
        assert(keeps_struct_checks(a[i], b[i]));
        assert(lowered_names(b) =~= lowered_names(a)) by {
            assert forall|j: int| 0 <= j < a.len() implies lowered_names(b)[j] == lowered_names(a)[j] by {
                assert(keeps_struct_checks(a[j], b[j]));
            }
        }
        assert forall|j: int| 0 <= j < i implies #[trigger] metadata_column_of(b[j]) == metadata_column_of(a[j]) by {
            assert(keeps_struct_checks(a[j], b[j]));
        }
        assert(refusal_at(b, i) == refusal_at(a, i));
    }
}

/// Counting a prefix of the fields counts no more than all of them.
pub proof fn lemma_count_prefix(fs: Seq<FieldView>, i: int)
    requires
        0 <= i <= fs.len(),
    ensures
        annotated_count_fields(fs.subrange(0, i)) <= annotated_count_fields(fs),
    decreases fs.len() - i,
{
    if i < fs.len() {
        let t = fs.subrange(0, i + 1);
        assert(t.drop_last() =~= fs.subrange(0, i));
        lemma_count_prefix(fs, i + 1);
    } else {
        assert(fs.subrange(0, i) =~= fs);
    }
}

/// The column ids of the fields that column mapping annotates, in pre-order: each field,
/// then the fields below it.
pub open spec fn column_ids_fields(fs: Seq<FieldView>) -> Seq<Option<int>>
    decreases fs, 0int,
{
    if fs.len() == 0 {
        Seq::empty()
    } else {
        column_ids_fields(fs.drop_last()) + seq![metadata_column_id(fs.last().metadata)] + column_ids_type(
            fs.last().data_type,
        )
    }
}

/// The column ids of the fields below a type that column mapping annotates.
pub open spec fn column_ids_type(t: TypeView) -> Seq<Option<int>>
    decreases t, 1int,
{
    match t {
        TypeView::Struct(fs) => column_ids_fields(fs),
        TypeView::Array(e, _) => match *e {
            TypeView::Struct(fs) => column_ids_fields(fs),
            _ => Seq::empty(),
        },
        TypeView::MapOf(_, v, _) => match *v {
            TypeView::Struct(fs) => column_ids_fields(fs),
            _ => Seq::empty(),
        },
        TypeView::Primitive(_) => Seq::empty(),
    }
}

/// The ids `next`, `next + 1`, ... of `count` fields.
pub open spec fn sequential_ids(next: int, count: nat) -> Seq<Option<int>> {
    Seq::new(count, |i: int| Some(next + i))
}

/// Column mapping numbers the fields it annotates one after the other: read in
/// pre-order, their ids are `next`, `next + 1`, and so on, with no gap and no repeat.
pub proof fn law_mapping_ids_are_sequential(old: Seq<FieldView>, new: Seq<FieldView>, next: int, rs: Seq<u128>)
    requires
        annotated_fields(old, new, next, rs),
    ensures
        column_ids_fields(new) == sequential_ids(next, annotated_count_fields(old)),
    decreases old, 0int,
{
    if old.len() > 0 {
        let d = old.drop_last();
        let f = old.last();
        let n = new.last();
        let id = next + annotated_count_fields(d);
        law_mapping_ids_are_sequential(d, new.drop_last(), next, rs);
        assert(annotated_field(f, n, id, rs));
        lemma_ids_type(f.data_type, n.data_type, id + 1, rs);
        assert(metadata_column_id(n.metadata) == Some(id)) by {
            reveal_strlit("delta.columnMapping.id");
            reveal_strlit("delta.columnMapping.physicalName");
            assert(column_id_key().len() != physical_name_key().len());
        }
        assert(column_ids_fields(new) =~= sequential_ids(next, annotated_count_fields(old)));
    } else {
        assert(column_ids_fields(new) =~= sequential_ids(next, annotated_count_fields(old)));
    }
}

/// The fields below an annotated type are numbered one after the other from `next`.
proof fn lemma_ids_type(o: TypeView, n: TypeView, next: int, rs: Seq<u128>)
    requires
        annotated_type(o, n, next, rs),
    ensures
        column_ids_type(n) == sequential_ids(next, annotated_count_type(o)),
    decreases o, 1int,
{
    match o {
        TypeView::Struct(fs) => {
            let gs = n->Struct_0;
            law_mapping_ids_are_sequential(fs, gs, next, rs);
        },
        TypeView::Array(e, c) => match *e {
            TypeView::Struct(fs) => {
                assert(decreases_to!(o => e));
                let gs = (*n->Array_0)->Struct_0;
                law_mapping_ids_are_sequential(fs, gs, next, rs);
            },
            _ => {
                assert(column_ids_type(n) =~= sequential_ids(next, annotated_count_type(o)));
            },
        },
        TypeView::MapOf(k, v, c) => match *v {
            TypeView::Struct(fs) => {
                assert(decreases_to!(o => v));
                let gs = (*n->MapOf_1)->Struct_0;
                law_mapping_ids_are_sequential(fs, gs, next, rs);
            },
            _ => {
                assert(column_ids_type(n) =~= sequential_ids(next, annotated_count_type(o)));
            },
        },
        TypeView::Primitive(_) => {
            assert(column_ids_type(n) =~= sequential_ids(next, annotated_count_type(o)));
        },
    }
}

/// The number of fields that column mapping annotates in a list of fields.
pub fn count_annotated_fields(fields: &Vec<StructField>) -> (r: u64)
    requires
        annotated_count_fields(fields_view(fields@)) <= i64::MAX,
    ensures
        r == annotated_count_fields(fields_view(fields@)),
    decreases fields, 0int,
{
    let ghost fv = fields_view(fields@);
    proof {
        lemma_fields_view_len(fields@);
        assert(fv.subrange(0, 0) =~= Seq::<FieldView>::empty());
    }
    let mut n: u64 = 0;
    let mut i: usize = 0;
    while i < fields.len()
        invariant
            i <= fields@.len(),
            fv == fields_view(fields@),
            fv.len() == fields@.len(),
            annotated_count_fields(fv) <= i64::MAX,
            n == annotated_count_fields(fv.subrange(0, i as int)),
        decreases fields.len() - i,
    {
        proof {
            lemma_fields_view_index(fields@, i as int);
            let t = fv.subrange(0, i + 1);
            assert(t.drop_last() =~= fv.subrange(0, i as int));
            assert(t.last() == fv[i as int]);
            lemma_count_prefix(fv, i + 1);
            assert(decreases_to!(*fields => fields@));
            assert(decreases_to!(fields@ => fields@[i as int]));
        }
        let below = count_annotated_type(&fields[i].data_type);
        n = n + 1 + below;
        i = i + 1;
    }
    proof {
        assert(fv.subrange(0, i as int) =~= fv);
    }
    n
}

/// The number of fields that column mapping annotates below a type.
fn count_annotated_type(t: &DataType) -> (r: u64)
    requires
        annotated_count_type(t@) <= i64::MAX,
    ensures
        r == annotated_count_type(t@),
    decreases t, 1int,
{
    match t {
        DataType::Struct(s) => {
            proof {
                assert(decreases_to!(*t => s.fields));
            }
            count_annotated_fields(&s.fields)
        },
        DataType::Array(a) => {
            let ghost ev = a.element_type@;
            proof {
                assert(t@ == TypeView::Array(Box::new(ev), a.contains_null));
            }
            match &a.element_type {
                DataType::Struct(s) => {
                    proof {
                        assert(decreases_to!(*t => s.fields));
                        assert(ev == TypeView::Struct(fields_view(s.fields@)));
                    }
                    count_annotated_fields(&s.fields)
                },
                _ => 0,
            }
        },
        DataType::MapOf(m) => {
            let ghost vv = m.value_type@;
            proof {
                assert(t@ == TypeView::MapOf(Box::new(m.key_type@), Box::new(vv), m.value_contains_null));
            }
            match &m.value_type {
                DataType::Struct(s) => {
                    proof {
                        assert(decreases_to!(*t => s.fields));
                        assert(vv == TypeView::Struct(fields_view(s.fields@)));
                    }
                    count_annotated_fields(&s.fields)
                },
                _ => 0,
            }
        },
        DataType::Primitive(_) => 0,
    }
}

/// Adds column mapping to the fields of a struct, numbering ids from `counter`, and
/// builds the struct of them.
pub(crate) fn annotate_struct(fields: &Vec<StructField>, counter: &mut i64, random: &Vec<u128>) -> (r: Result<
    StructType,
    KernelError,
>)
    requires
        *old(counter) + annotated_count_fields(fields_view(fields@)) <= i64::MAX,
        1 <= *old(counter),
        *old(counter) - 1 + annotated_count_fields(fields_view(fields@)) <= random@.len(),
    ensures
        match r {
            Ok(s) => s.well_formed() && annotated_fields(fields_view(fields@), s@, *old(counter) as int, random@) && annotatable_fields(
                fields_view(fields@),
            ) && *final(counter) == *old(counter) + annotated_count_fields(fields_view(fields@)),
            Err(e) => !annotatable_fields(fields_view(fields@)) && e is Schema,
        },
    decreases fields, 0int,
{
    let ghost fv = fields_view(fields@);
    let ghost start = *counter as int;
    proof {
        lemma_fields_view_len(fields@);
    }
    let mut out: Vec<StructField> = Vec::new();
    let mut i: usize = 0;
    while i < fields.len()
        invariant
            i <= fields@.len(),
            fv == fields_view(fields@),
            fv.len() == fields@.len(),
            start + annotated_count_fields(fv) <= i64::MAX,
            1 <= start,
            start - 1 + annotated_count_fields(fv) <= random@.len(),
            *counter == start + annotated_count_fields(fv.subrange(0, i as int)),
            annotated_fields(fv.subrange(0, i as int), fields_view(out@), start, random@),
            forall|j: int| #![trigger fv[j]] 0 <= j < i ==> annotatable_type(fv[j].data_type),
        decreases fields.len() - i,
    {
        proof {
            lemma_fields_view_index(fields@, i as int);
            let t = fv.subrange(0, i + 1);
            assert(t.drop_last() =~= fv.subrange(0, i as int));
            assert(t.last() == fv[i as int]);
            lemma_count_prefix(fv, i + 1);
            assert(decreases_to!(*fields => fields@));
            assert(decreases_to!(fields@ => fields@[i as int]));
        }
        let ghost before = out@;
        match annotate_field(&fields[i], counter, random) {
            Ok(n) => {
                out.push(n);
                proof {
                    lemma_fields_view_len(out@);
                    lemma_fields_view_len(before);
                    assert(out@.drop_last() =~= before);
                    assert(fields_view(out@).drop_last() =~= fields_view(before));
                    assert(fields_view(out@).last() == field_view(n));
                    assert(fv.subrange(0, i + 1).drop_last() =~= fv.subrange(0, i as int));
                }
            },
            Err(e) => {
                proof {
                    assert(!annotatable_fields(fv));
                }
                return Err(e);
            },
        }
        i = i + 1;
    }
    proof {
        assert(fv.subrange(0, i as int) =~= fv);
        lemma_annotated_fields_keep(fv, fields_view(out@), start, random@);
        lemma_same_refusal(fv, fields_view(out@), fv.len() as int);
    }
    match StructType::try_new(out) {
        Ok(s) => Ok(s),
        Err(e) => Err(KernelError::Schema(e)),
    }
}

/// A field's metadata with the column mapping id `id` and the physical name
/// `col-<uuid>`, whatever text `uuid` is.
pub fn with_mapping_metadata(metadata: &StrMap<MetadataValue>, id: i64, uuid: &str) -> (r: StrMap<MetadataValue>)
    ensures
        metadata_view(r) == metadata_view(*metadata).insert(column_id_key(), MetaView::Number(id as int)).insert(
            physical_name_key(),
            MetaView::Str("col-"@ + uuid@),
        ),
{
    let mut physical = String::from_str("col-");
    physical.append(uuid);
    let mut r = metadata.clone();
    r.insert(String::from_str("delta.columnMapping.id"), MetadataValue::Number(id));
    r.insert(String::from_str("delta.columnMapping.physicalName"), MetadataValue::String(physical));
    proof {
        assert(metadata_view(r) =~= metadata_view(*metadata).insert(
            column_id_key(),
            MetaView::Number(id as int),
        ).insert(physical_name_key(), MetaView::Str("col-"@ + uuid@)));
    }
    r
}

/// Adds column mapping to one field: the id `counter`, a physical name `col-<uuid>`,
/// and the fields below it numbered after it.
fn annotate_field(field: &StructField, counter: &mut i64, random: &Vec<u128>) -> (r: Result<StructField, KernelError>)
    requires
        *old(counter) + 1 + annotated_count_type(field@.data_type) <= i64::MAX,
        1 <= *old(counter),
        *old(counter) + annotated_count_type(field@.data_type) <= random@.len(),
    ensures
        match r {
            Ok(n) => annotated_field(field@, n@, *old(counter) as int, random@) && annotatable_type(field@.data_type)
                && *final(counter) == *old(counter) + 1 + annotated_count_type(field@.data_type),
            Err(e) => !annotatable_type(field@.data_type) && e is Schema,
        },
    decreases field, 1int,
{
    let id = *counter;
    *counter = *counter + 1;
    let len = random.len();
    assert(0 <= id - 1 < len);
    let k: usize = (id - 1) as usize;
    assert(k == id - 1);
    let uuid = uuid_text(random[k]);
    let ghost u = uuid@;
    assert(u == spec_uuid_text(random@[id - 1]) && is_uuid_v4_text(u));
    let metadata = with_mapping_metadata(&field.metadata, id, uuid.as_str());
    let data_type = match &field.data_type {
        DataType::Struct(inner) => {
            proof {
                assert(decreases_to!(*field => field.data_type));
                assert(decreases_to!(field.data_type => inner.fields));
            }
            let s = annotate_struct(&inner.fields, counter, random)?;
            DataType::Struct(Box::new(s))
        },
        DataType::Array(a) => {
            match &a.element_type {
                DataType::Struct(es) => {
                    proof {
                        assert(decreases_to!(*field => field.data_type));
                        assert(decreases_to!(field.data_type => a.element_type));
                        assert(decreases_to!(a.element_type => es.fields));
                    }
                    let s = annotate_struct(&es.fields, counter, random)?;
                    DataType::Array(
                        Box::new(ArrayType { element_type: DataType::Struct(Box::new(s)), contains_null: a.contains_null }),
                    )
                },
                _ => field.data_type.clone(),
            }
        },
        DataType::MapOf(m) => {
            let key_type = m.key_type.clone();
            let value_type = match &m.value_type {
                DataType::Struct(vs) => {
                    proof {
                        assert(decreases_to!(*field => field.data_type));
                        assert(decreases_to!(field.data_type => m.value_type));
                        assert(decreases_to!(m.value_type => vs.fields));
                    }
                    let s = annotate_struct(&vs.fields, counter, random)?;
                    DataType::Struct(Box::new(s))
                },
                _ => m.value_type.clone(),
            };
            DataType::MapOf(
                Box::new(MapType { key_type, value_type, value_contains_null: m.value_contains_null }),
            )
        },
        DataType::Primitive(p) => DataType::Primitive(*p),
    };
    let n = StructField { name: field.name.clone(), data_type, nullable: field.nullable, metadata };
    proof {
        assert(n@.metadata == field@.metadata.insert(column_id_key(), MetaView::Number(id as int)).insert(
            physical_name_key(),
            MetaView::Str("col-"@ + uuid@),
        ));
        assert(is_uuid_v4_text(u) && u == spec_uuid_text(random@[id - 1]) && n@.metadata == field@.metadata.insert(
            column_id_key(),
            MetaView::Number(id as int),
        ).insert(physical_name_key(), MetaView::Str("col-"@ + u)));
    }
    Ok(n)
}


/// The pairs of logical and physical names that a list of fields declares, in
/// pre-order: a field whose physical name differs from its name, then the fields of a
/// struct that is its type.
pub open spec fn physical_pairs_fields(fs: Seq<FieldView>) -> Seq<(Seq<char>, Seq<char>)>
    decreases fs, 0int,
{
    if fs.len() == 0 {
        Seq::empty()
    } else {
        physical_pairs_fields(fs.drop_last()) + physical_pairs_field(fs.last())
    }
}

/// The pairs of logical and physical names that a field and the fields below it declare.
pub open spec fn physical_pairs_field(f: FieldView) -> Seq<(Seq<char>, Seq<char>)>
    decreases f, 1int,
{
    let own = match f.metadata.get(physical_name_key()) {
        Some(MetaView::Str(p)) => if p != f.name {
            seq![(f.name, p)]
        } else {
            Seq::empty()
        },
        _ => Seq::empty(),
    };
    own + match f.data_type {
        TypeView::Struct(fs) => physical_pairs_fields(fs),
        _ => Seq::empty(),
    }
}

/// `m` with the pairs inserted in order: a later pair replaces an earlier one.
pub open spec fn insert_pairs(m: Map<Seq<char>, Seq<char>>, ps: Seq<(Seq<char>, Seq<char>)>) -> Map<
    Seq<char>,
    Seq<char>,
>
    decreases ps.len(),
{
    if ps.len() == 0 {
        m
    } else {
        insert_pairs(m, ps.drop_last()).insert(ps.last().0, ps.last().1)
    }
}

/// The names of the fields and of the fields of the structs below them, in pre-order.
pub open spec fn struct_names_fields(fs: Seq<FieldView>) -> Seq<Seq<char>>
    decreases fs, 0int,
{
    if fs.len() == 0 {
        Seq::empty()
    } else {
        struct_names_fields(fs.drop_last()) + struct_names_field(fs.last())
    }
}

/// The name of a field, then the names below it through structs.
pub open spec fn struct_names_field(f: FieldView) -> Seq<Seq<char>>
    decreases f, 1int,
{
    seq![f.name] + match f.data_type {
        TypeView::Struct(fs) => struct_names_fields(fs),
        _ => Seq::empty(),
    }
}

/// Whether a text begins with `col-`.
pub open spec fn has_col_prefix(s: Seq<char>) -> bool {
    s.len() >= 4 && s.subrange(0, 4) == "col-"@
}

/// Whether no field, at any level reached through structs, has a name beginning with
/// `col-`.
pub open spec fn no_col_names_fields(fs: Seq<FieldView>) -> bool
    decreases fs, 0int,
{
    forall|i: int| #![trigger fs[i]] 0 <= i < fs.len() ==> no_col_names_field(fs[i])
}

/// Whether neither a field nor a field below it through structs has a name beginning
/// with `col-`.
pub open spec fn no_col_names_field(f: FieldView) -> bool
    decreases f, 1int,
{
    !has_col_prefix(f.name) && match f.data_type {
        TypeView::Struct(fs) => no_col_names_fields(fs),
        _ => true,
    }
}

/// Whether a text is a physical name that column mapping hands out: `col-` and a
/// version 4 UUID.
pub open spec fn is_mapped_physical_name(p: Seq<char>) -> bool {
    p.len() == 40 && p.subrange(0, 4) == "col-"@ && is_uuid_v4_text(p.subrange(4, 40))
}

/// The logical names of a list of name pairs.
pub open spec fn pair_names(ps: Seq<(Seq<char>, Seq<char>)>) -> Seq<Seq<char>> {
    ps.map_values(|p: (Seq<char>, Seq<char>)| p.0)
}

proof fn lemma_pair_names_concat(a: Seq<(Seq<char>, Seq<char>)>, b: Seq<(Seq<char>, Seq<char>)>)
    ensures
        pair_names(a + b) == pair_names(a) + pair_names(b),
{
    assert(pair_names(a + b) =~= pair_names(a) + pair_names(b));
}

/// An annotated field declares one pair for itself and one for each field below it
/// through structs, each with a mapped physical name.
proof fn lemma_field_pairs(o: FieldView, n: FieldView, id: int, rs: Seq<u128>)
    requires
        annotated_field(o, n, id, rs),
        no_col_names_field(o),
    ensures
        pair_names(physical_pairs_field(n)) == struct_names_field(o),
        forall|i: int|
            0 <= i < physical_pairs_field(n).len() ==> is_mapped_physical_name(#[trigger] physical_pairs_field(n)[i].1),
    decreases o, 2int,
{
    reveal_strlit("col-");
    reveal_strlit("delta.columnMapping.id");
    reveal_strlit("delta.columnMapping.physicalName");
    assert(column_id_key().len() != physical_name_key().len());
    let u = choose|u: Seq<char>|
        is_uuid_v4_text(u) && #[trigger] n.metadata == o.metadata.insert(column_id_key(), MetaView::Number(id)).insert(
            physical_name_key(),
            MetaView::Str("col-"@ + u),
        );
    let p = "col-"@ + u;
    assert(n.metadata.get(physical_name_key()) == Some(MetaView::Str(p)));
    assert(p.subrange(0, 4) =~= "col-"@);
    assert(p.subrange(4, 40) =~= u);
    assert(p != n.name);
    let own = seq![(n.name, p)];
    lemma_annotated_type_keeps(o.data_type, n.data_type, id + 1, rs);
    match o.data_type {
        TypeView::Struct(fs) => {
            let gs = n.data_type->Struct_0;
            lemma_fields_pairs(fs, gs, id + 1, rs);
            lemma_pair_names_concat(own, physical_pairs_fields(gs));
            assert(pair_names(own) =~= seq![o.name]);
        },
        _ => {
            assert(physical_pairs_field(n) =~= own);
            assert(pair_names(own) =~= seq![o.name]);
            assert(struct_names_field(o) =~= seq![o.name]);
        },
    }
}

/// An annotated list declares one pair for each field through structs, in pre-order,
/// each with a mapped physical name.
proof fn lemma_fields_pairs(old: Seq<FieldView>, new: Seq<FieldView>, next: int, rs: Seq<u128>)
    requires
        annotated_fields(old, new, next, rs),
        no_col_names_fields(old),
    ensures
        pair_names(physical_pairs_fields(new)) == struct_names_fields(old),
        forall|i: int|
            0 <= i < physical_pairs_fields(new).len() ==> is_mapped_physical_name(
                #[trigger] physical_pairs_fields(new)[i].1,
            ),
    decreases old, 0int,
{
    if old.len() > 0 {
        let d = old.drop_last();
        assert(no_col_names_fields(d)) by {
            assert forall|i: int| 0 <= i < d.len() implies no_col_names_field(#[trigger] d[i]) by {
                assert(d[i] == old[i]);
            }
        }
        assert(no_col_names_field(old[old.len() - 1]));
        lemma_fields_pairs(d, new.drop_last(), next, rs);
        lemma_field_pairs(old.last(), new.last(), next + annotated_count_fields(d), rs);
        let a = physical_pairs_fields(new.drop_last());
        let b = physical_pairs_field(new.last());
        lemma_pair_names_concat(a, b);
        assert forall|i: int| 0 <= i < (a + b).len() implies is_mapped_physical_name(#[trigger] (a + b)[i].1) by {
            if i < a.len() {
                assert((a + b)[i] == a[i]);
            } else {
                assert((a + b)[i] == b[i - a.len()]);
            }
        }
    } else {
        assert(pair_names(physical_pairs_fields(new)) =~= Seq::<Seq<char>>::empty());
    }
}

/// The map of pairs inserted one after another holds exactly their logical names, each
/// with the physical name of one of the pairs.
proof fn lemma_insert_pairs_from(ps: Seq<(Seq<char>, Seq<char>)>)
    ensures
        insert_pairs(Map::empty(), ps).dom() == pair_names(ps).to_set(),
        forall|k: Seq<char>|
            #[trigger] insert_pairs(Map::empty(), ps).contains_key(k) ==> exists|i: int|
                0 <= i < ps.len() && ps[i].1 == insert_pairs(Map::empty(), ps)[k],
    decreases ps.len(),
{
    if ps.len() > 0 {
        let d = ps.drop_last();
        lemma_insert_pairs_from(d);
        assert(pair_names(ps) =~= pair_names(d).push(ps.last().0));
        assert(insert_pairs(Map::empty(), ps).dom() =~= pair_names(ps).to_set()) by {
            assert forall|k: Seq<char>| pair_names(ps).to_set().contains(k) == insert_pairs(Map::empty(), ps).dom().contains(k) by {
                if pair_names(ps).contains(k) {
                    let j = choose|j: int| 0 <= j < pair_names(ps).len() && pair_names(ps)[j] == k;
                    if j < d.len() {
                        assert(pair_names(d)[j] == k);
                        assert(pair_names(d).contains(k));
                    }
                }
                if pair_names(d).contains(k) {
                    let j = choose|j: int| 0 <= j < pair_names(d).len() && pair_names(d)[j] == k;
                    assert(pair_names(ps)[j] == k);
                }
                assert(pair_names(ps)[d.len() as int] == ps.last().0);
            }
        }
        assert forall|k: Seq<char>| #[trigger] insert_pairs(Map::empty(), ps).contains_key(k) implies exists|i: int|
            0 <= i < ps.len() && ps[i].1 == insert_pairs(Map::empty(), ps)[k] by {
            if k == ps.last().0 {
                assert(ps[ps.len() - 1].1 == insert_pairs(Map::empty(), ps)[k]);
            } else {
                assert(insert_pairs(Map::empty(), d).contains_key(k));
                let i = choose|i: int| 0 <= i < d.len() && d[i].1 == insert_pairs(Map::empty(), d)[k];
                assert(ps[i] == d[i]);
            }
        }
    } else {
        assert(insert_pairs(Map::empty(), ps).dom() =~= pair_names(ps).to_set());
    }
}

/// After column mapping metadata has been added to a schema whose field names do not
/// begin with `col-` (`with_column_mapping_metadata` gives `new` with
/// `annotated_fields(old, new, 1, random)`), its logical-to-physical mapping (what
/// `get_logical_to_physical_mapping` gives for `new`: the pairs of
/// `physical_pairs_fields(new)` inserted in order) holds the name of every field reached
/// through structs, and maps each to `col-` and a version 4 UUID.
pub proof fn law_mapping_covers_every_field(old: Seq<FieldView>, new: Seq<FieldView>, next: int, rs: Seq<u128>)
    requires
        annotated_fields(old, new, next, rs),
        no_col_names_fields(old),
    ensures
        insert_pairs(Map::empty(), physical_pairs_fields(new)).dom() == struct_names_fields(old).to_set(),
        forall|k: Seq<char>|
            #[trigger] insert_pairs(Map::empty(), physical_pairs_fields(new)).contains_key(k) ==> is_mapped_physical_name(
                insert_pairs(Map::empty(), physical_pairs_fields(new))[k],
            ),
{
    let ps = physical_pairs_fields(new);
    lemma_fields_pairs(old, new, next, rs);
    lemma_insert_pairs_from(ps);
    assert forall|k: Seq<char>| #[trigger] insert_pairs(Map::empty(), ps).contains_key(k) implies is_mapped_physical_name(
        insert_pairs(Map::empty(), ps)[k],
    ) by {
        let i = choose|i: int| 0 <= i < ps.len() && ps[i].1 == insert_pairs(Map::empty(), ps)[k];
        assert(is_mapped_physical_name(ps[i].1));
    }
}

/// Every field whose metadata gives it a physical name other than its own name is
/// paired with that physical name, whatever text it is; and the pairs of the fields of
/// a struct field are among the pairs of the list that holds it, so this holds at
/// every depth through structs.
pub proof fn law_renamed_fields_are_paired(fs: Seq<FieldView>, i: int)
    requires
        0 <= i < fs.len(),
    ensures
        forall|p: Seq<char>|
            fs[i].metadata.get(physical_name_key()) == Some(MetaView::Str(p)) && p != fs[i].name
                ==> #[trigger] physical_pairs_fields(fs).contains((fs[i].name, p)),
        fs[i].data_type is Struct ==> forall|q: (Seq<char>, Seq<char>)|
            #[trigger] physical_pairs_fields(fs[i].data_type->Struct_0).contains(q) ==> physical_pairs_fields(fs).contains(q),
    decreases fs.len(),
{
    let d = fs.drop_last();
    let f = fs.last();
    let a = physical_pairs_fields(d);
    let b = physical_pairs_field(f);
    let all = physical_pairs_fields(fs);
    assert(all == a + b);
    if i < fs.len() - 1 {
        assert(d[i] == fs[i]);
        law_renamed_fields_are_paired(d, i);
        assert forall|q: (Seq<char>, Seq<char>)| a.contains(q) implies all.contains(q) by {
            let k = choose|k: int| 0 <= k < a.len() && a[k] == q;
            assert(all[k] == q);
        }
    } else {
        let own = match f.metadata.get(physical_name_key()) {
            Some(MetaView::Str(p)) => if p != f.name {
                seq![(f.name, p)]
            } else {
                Seq::empty()
            },
            _ => Seq::empty(),
        };
        let under = match f.data_type {
            TypeView::Struct(gs) => physical_pairs_fields(gs),
            _ => Seq::empty(),
        };
        assert(b == own + under);
        assert forall|p: Seq<char>|
            f.metadata.get(physical_name_key()) == Some(MetaView::Str(p)) && p != f.name
                implies #[trigger] all.contains((f.name, p)) by {
            assert(all[a.len() as int] == (f.name, p));
        }
        if f.data_type is Struct {
            assert forall|q: (Seq<char>, Seq<char>)| #[trigger] physical_pairs_fields(f.data_type->Struct_0).contains(q)
                implies all.contains(q) by {
                let k = choose|k: int| 0 <= k < under.len() && under[k] == q;
                assert(all[a.len() + own.len() + k] == q);
            }
        }
    }
}

/// The map of pairs inserted one after another maps each name to the physical name of
/// the last pair with that name.
pub proof fn law_mapping_takes_last_pair(m: Map<Seq<char>, Seq<char>>, ps: Seq<(Seq<char>, Seq<char>)>, k: int)
    requires
        0 <= k < ps.len(),
        forall|l: int| k < l < ps.len() ==> #[trigger] ps[l].0 != ps[k].0,
    ensures
        insert_pairs(m, ps).contains_key(ps[k].0),
        insert_pairs(m, ps)[ps[k].0] == ps[k].1,
    decreases ps.len(),
{
    if k < ps.len() - 1 {
        let d = ps.drop_last();
        assert forall|l: int| k < l < d.len() implies #[trigger] d[l].0 != d[k].0 by {
            assert(d[l] == ps[l]);
        }
        law_mapping_takes_last_pair(m, d, k);
        assert(ps[ps.len() - 1].0 != ps[k].0);
        assert(d[k] == ps[k]);
    }
}

pub proof fn lemma_insert_pairs_concat(
    m: Map<Seq<char>, Seq<char>>,
    a: Seq<(Seq<char>, Seq<char>)>,
    b: Seq<(Seq<char>, Seq<char>)>,
)
    ensures
        insert_pairs(m, a + b) == insert_pairs(insert_pairs(m, a), b),
    decreases b.len(),
{
    if b.len() == 0 {
        assert(a + b =~= a);
    } else {
        assert((a + b).drop_last() =~= a + b.drop_last());
        lemma_insert_pairs_concat(m, a, b.drop_last());
    }
}

/// What a map of names denotes: names by their characters.
pub open spec fn names_view(m: StrMap<String>) -> Map<Seq<char>, Seq<char>> {
    m@.map_values(|s: String| s@)
}

/// Inserts the name pairs of `fields`, nested ones included, into `result`.
pub(crate) fn collect_mappings(fields: &Vec<StructField>, result: &mut StrMap<String>)
    ensures
        names_view(*final(result)) == insert_pairs(names_view(*old(result)), physical_pairs_fields(fields_view(fields@))),
    decreases fields,
{
    let ghost fv = fields_view(fields@);
    let ghost start = names_view(*result);
    proof {
        lemma_fields_view_len(fields@);
    }
    let mut i: usize = 0;
    while i < fields.len()
        invariant
            i <= fields@.len(),
            fv == fields_view(fields@),
            fv.len() == fields@.len(),
            names_view(*result) == insert_pairs(start, physical_pairs_fields(fv.subrange(0, i as int))),
        decreases fields.len() - i,
    {
        proof {
            lemma_fields_view_index(fields@, i as int);
            let t = fv.subrange(0, i + 1);
            assert(t.drop_last() =~= fv.subrange(0, i as int));
            assert(t.last() == fv[i as int]);
            lemma_insert_pairs_concat(
                start,
                physical_pairs_fields(fv.subrange(0, i as int)),
                physical_pairs_field(fv[i as int]),
            );
        }
        let field = &fields[i];
        let ghost f = field_view(*field);
        let ghost m0 = names_view(*result);
        let ghost own = match f.metadata.get(physical_name_key()) {
            Some(MetaView::Str(p)) => if p != f.name {
                seq![(f.name, p)]
            } else {
                Seq::empty()
            },
            _ => Seq::empty(),
        };
        let got = field.metadata.get("delta.columnMapping.physicalName");
        proof {
            assert(f.metadata.get(physical_name_key()) == match got {
                Some(x) => Some(x@),
                None => None::<MetaView>,
            });
            assert(insert_pairs(m0, Seq::<(Seq<char>, Seq<char>)>::empty()) == m0);
        }
        match got {
            Some(MetadataValue::String(physical)) => {
                if !(field.name == *physical) {
                    result.insert(field.name.clone(), physical.clone());
                    proof {
                        assert(own =~= seq![(f.name, physical@)]);
                        assert(own.drop_last() =~= Seq::<(Seq<char>, Seq<char>)>::empty());
                        assert(names_view(*result) =~= m0.insert(field.name@, physical@));
                        assert(insert_pairs(m0, own) == insert_pairs(m0, own.drop_last()).insert(field.name@, physical@));
                    }
                } else {
                    assert(own =~= Seq::<(Seq<char>, Seq<char>)>::empty());
                }
            },
            _ => {
                assert(own =~= Seq::<(Seq<char>, Seq<char>)>::empty());
            },
        }
        proof {
            assert(names_view(*result) == insert_pairs(m0, own));
        }
        let ghost m1 = names_view(*result);
        match &field.data_type {
            DataType::Struct(nested) => {
                proof {
                    assert(decreases_to!(*fields => fields@));
                    assert(decreases_to!(fields@ => fields@[i as int]));
                    assert(decreases_to!(fields@[i as int] => fields@[i as int].data_type));
                    assert(decreases_to!(fields@[i as int].data_type => nested.fields));
                }
                collect_mappings(&nested.fields, result);
            },
            _ => {
                proof {
                    assert(insert_pairs(m1, Seq::<(Seq<char>, Seq<char>)>::empty()) == m1);
                }
            },
        }
        proof {
            let below = match f.data_type {
                TypeView::Struct(fs) => physical_pairs_fields(fs),
                _ => Seq::empty(),
            };
            assert(names_view(*result) == insert_pairs(m1, below));
            lemma_insert_pairs_concat(m0, own, below);
            assert(physical_pairs_field(f) == own + below);
        }
        i = i + 1;
    }
    proof {
        assert(fv.subrange(0, i as int) =~= fv);
    }
}

} // verus!
