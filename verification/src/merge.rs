use vstd::prelude::*;

use crate::schema::{
    collapse_by_name, fields_view, law_same_type_reflexive, lemma_collapse_of_distinct,
    lemma_fields_view_index, lemma_fields_view_len, metadata_view, names_distinct, same_data_type,
    same_metadata_value, same_type, ArrayType, DataType, FieldView, MapType, MetaView,
    MetadataValue, StructField, StructType, TypeView,
};
use crate::strmap::StrMap;

verus! {

/// The metadata of two fields of one name merged: `None` where a key has different
/// values in the two, otherwise all keys of both.
pub open spec fn merged_metadata(l: Map<Seq<char>, MetaView>, r: Map<Seq<char>, MetaView>) -> Option<
    Map<Seq<char>, MetaView>,
> {
    if exists|k: Seq<char>| #[trigger] l.contains_key(k) && r.contains_key(k) && l[k] != r[k] {
        None
    } else {
        Some(l.union_prefer_right(r))
    }
}

/// The position of the first field named `name`, if any.
pub open spec fn first_named(fs: Seq<FieldView>, name: Seq<char>) -> Option<int>
    decreases fs.len(),
{
    if fs.len() == 0 {
        None
    } else {
        match first_named(fs.drop_last(), name) {
            Some(j) => Some(j),
            None => if fs.last().name == name {
                Some(fs.len() - 1)
            } else {
                None
            },
        }
    }
}

/// Two types merged: the left one where they are equal; arrays, maps and structs merged
/// part by part, a value or element being nullable where either is; `None` otherwise.
pub open spec fn merged_type(l: TypeView, r: TypeView) -> Option<TypeView>
    decreases l, 2int,
{
    if same_type(l, r) {
        Some(l)
    } else {
        match l {
            TypeView::Array(a, n) => match r {
                TypeView::Array(b, m) => match merged_type(*a, *b) {
                    Some(t) => Some(TypeView::Array(Box::new(t), n || m)),
                    None => None,
                },
                _ => None,
            },
            TypeView::MapOf(k, v, n) => match r {
                TypeView::MapOf(k2, v2, m) => match (merged_type(*k, *k2), merged_type(*v, *v2)) {
                    (Some(a), Some(b)) => Some(TypeView::MapOf(Box::new(a), Box::new(b), n || m)),
                    _ => None,
                },
                _ => None,
            },
            TypeView::Struct(fs) => match r {
                TypeView::Struct(gs) => match merged_struct(fs, gs) {
                    Ok(x) => Some(TypeView::Struct(x)),
                    Err(_) => None,
                },
                _ => None,
            },
            TypeView::Primitive(_) => None,
        }
    }
}

/// The fields of two structs merged: the left fields, each merged with the first right
/// field of its name, then the right fields whose names the left lacks; or the position
/// of the first left field that cannot be merged.
pub open spec fn merged_struct(lfs: Seq<FieldView>, rfs: Seq<FieldView>) -> Result<Seq<FieldView>, int>
    decreases lfs, 1int,
{
    match merged_left(lfs, rfs) {
        Ok(ms) => Ok(collapse_by_name(ms + right_only(rfs, lfs))),
        Err(i) => Err(i),
    }
}

/// The left fields merged one by one, or the position of the first that fails.
pub open spec fn merged_left(lfs: Seq<FieldView>, rfs: Seq<FieldView>) -> Result<Seq<FieldView>, int>
    decreases lfs, 0int,
{
    if lfs.len() == 0 {
        Ok(Seq::empty())
    } else {
        match merged_left(lfs.drop_last(), rfs) {
            Err(i) => Err(i),
            Ok(s) => match merged_one(lfs.last(), rfs) {
                Some(f) => Ok(s.push(f)),
                None => Err(lfs.len() - 1),
            },
        }
    }
}

/// A left field merged with the first right field of its name.
pub open spec fn merged_one(lf: FieldView, rfs: Seq<FieldView>) -> Option<FieldView>
    decreases lf, 0int,
{
    match first_named(rfs, lf.name) {
        None => Some(lf),
        Some(j) => {
            let rf = rfs[j];
            match (merged_type(lf.data_type, rf.data_type), merged_metadata(lf.metadata, rf.metadata)) {
                (Some(t), Some(md)) => Some(
                    FieldView { name: lf.name, data_type: t, nullable: lf.nullable || rf.nullable, metadata: md },
                ),
                _ => None,
            }
        },
    }
}

/// The right fields whose names no left field has, in order.
pub open spec fn right_only(rfs: Seq<FieldView>, lfs: Seq<FieldView>) -> Seq<FieldView>
    decreases rfs.len(),
{
    if rfs.len() == 0 {
        Seq::empty()
    } else {
        let rest = right_only(rfs.drop_last(), lfs);
        if first_named(lfs, rfs.last().name) is Some {
            rest
        } else {
            rest.push(rfs.last())
        }
    }
}


pub proof fn lemma_first_named_prefix(fs: Seq<FieldView>, name: Seq<char>, k: int)
    requires
        0 <= k <= fs.len(),
        first_named(fs.subrange(0, k), name) is Some,
    ensures
        first_named(fs, name) == first_named(fs.subrange(0, k), name),
    decreases fs.len() - k,
{
    if k < fs.len() {
        let t = fs.subrange(0, k + 1);
        assert(t.drop_last() =~= fs.subrange(0, k));
        lemma_first_named_prefix(fs, name, k + 1);
    } else {
        assert(fs.subrange(0, k) =~= fs);
    }
}

pub proof fn lemma_first_named_range(fs: Seq<FieldView>, name: Seq<char>)
    ensures
        first_named(fs, name) matches Some(j) ==> 0 <= j < fs.len() && fs[j].name == name,
        first_named(fs, name) is None ==> forall|j: int| 0 <= j < fs.len() ==> fs[j].name != name,
    decreases fs.len(),
{
    if fs.len() > 0 {
        lemma_first_named_range(fs.drop_last(), name);
        assert forall|j: int| 0 <= j < fs.len() - 1 implies fs[j] == fs.drop_last()[j] by {}
    }
}

/// No field of a list bears a name that none of its fields has.
pub proof fn lemma_first_named_absent(fs: Seq<FieldView>, name: Seq<char>)
    requires
        forall|j: int| 0 <= j < fs.len() ==> fs[j].name != name,
    ensures
        first_named(fs, name) is None,
    decreases fs.len(),
{
    if fs.len() > 0 {
        assert forall|j: int| 0 <= j < fs.len() - 1 implies fs.drop_last()[j].name != name by {
            assert(fs.drop_last()[j] == fs[j]);
        }
        lemma_first_named_absent(fs.drop_last(), name);
    }
}

/// Left fields whose names the right lacks merge into themselves.
pub proof fn lemma_merged_left_disjoint(lfs: Seq<FieldView>, rfs: Seq<FieldView>)
    requires
        forall|i: int, j: int| 0 <= i < lfs.len() && 0 <= j < rfs.len() ==> lfs[i].name != rfs[j].name,
    ensures
        merged_left(lfs, rfs) == Ok::<Seq<FieldView>, int>(lfs),
    decreases lfs.len(),
{
    if lfs.len() > 0 {
        let d = lfs.drop_last();
        assert forall|i: int, j: int| 0 <= i < d.len() && 0 <= j < rfs.len() implies d[i].name != rfs[j].name by {
            assert(d[i] == lfs[i]);
        }
        lemma_merged_left_disjoint(d, rfs);
        lemma_first_named_absent(rfs, lfs.last().name);
        assert(merged_one(lfs.last(), rfs) == Some(lfs.last()));
        assert(d.push(lfs.last()) =~= lfs);
    } else {
        assert(lfs =~= Seq::<FieldView>::empty());
    }
}

/// Right fields whose names the left lacks are all kept, in order.
pub proof fn lemma_right_only_disjoint(rfs: Seq<FieldView>, lfs: Seq<FieldView>)
    requires
        forall|i: int, j: int| 0 <= i < lfs.len() && 0 <= j < rfs.len() ==> lfs[i].name != rfs[j].name,
    ensures
        right_only(rfs, lfs) == rfs,
    decreases rfs.len(),
{
    if rfs.len() > 0 {
        let d = rfs.drop_last();
        assert forall|i: int, j: int| 0 <= i < lfs.len() && 0 <= j < d.len() implies lfs[i].name != d[j].name by {
            assert(d[j] == rfs[j]);
        }
        lemma_right_only_disjoint(d, lfs);
        lemma_first_named_absent(lfs, rfs.last().name);
        assert(d.push(rfs.last()) =~= rfs);
    } else {
        assert(rfs =~= Seq::<FieldView>::empty());
    }
}

/// The position of the first field named `name`.
pub(crate) fn find_first_named(fields: &Vec<StructField>, name: &String) -> (r: Option<usize>)
    ensures
        match r {
            Some(j) => first_named(fields_view(fields@), name@) == Some(j as int),
            None => first_named(fields_view(fields@), name@) is None,
        },
{
    let ghost fv = fields_view(fields@);
    proof {
        lemma_fields_view_len(fields@);
        assert(fv.subrange(0, 0) =~= Seq::<FieldView>::empty());
    }
    let mut i: usize = 0;
    while i < fields.len()
        invariant
            i <= fields@.len(),
            fv == fields_view(fields@),
            fv.len() == fields@.len(),
            first_named(fv.subrange(0, i as int), name@) is None,
        decreases fields.len() - i,
    {
        proof {
            lemma_fields_view_index(fields@, i as int);
            let t = fv.subrange(0, i + 1);
            assert(t.drop_last() =~= fv.subrange(0, i as int));
            assert(t.last() == fv[i as int]);
        }
        if fields[i].name == *name {
            proof {
                lemma_first_named_prefix(fv, name@, i + 1);
            }
            return Some(i);
        }
        i = i + 1;
    }
    proof {
        assert(fv.subrange(0, i as int) =~= fv);
    }
    None
}

/// Merges the metadata of two fields of one name.
fn merge_metadata(l: &StrMap<MetadataValue>, r: &StrMap<MetadataValue>) -> (res: Option<StrMap<MetadataValue>>)
    ensures
        match res {
            Some(m) => merged_metadata(metadata_view(*l), metadata_view(*r)) == Some(metadata_view(m)),
            None => merged_metadata(metadata_view(*l), metadata_view(*r)) is None,
        },
{
    let ghost lm = metadata_view(*l);
    let ghost rm = metadata_view(*r);
    let mut result = l.clone();
    let mut j: usize = 0;
    while j < r.entries.len()
        invariant
            j <= r.entries@.len(),
            lm == metadata_view(*l),
            rm == metadata_view(*r),
            metadata_view(result) == lm.union_prefer_right(
                rm.restrict(Set::new(|k: Seq<char>| exists|t: int| 0 <= t < j && #[trigger] r.entries@[t].0@ == k)),
            ),
            forall|t: int|
                0 <= t < j && lm.contains_key(#[trigger] r.entries@[t].0@) ==> lm[r.entries@[t].0@] == rm[r.entries@[t].0@],
        decreases r.entries.len() - j,
    {
        let key = &r.entries[j].0;
        proof {
            crate::strmap::lemma_lookup_some(r.entries@, key@);
        }
        let rv = r.get(key.as_str()).unwrap();
        match l.get(key.as_str()) {
            Some(lv) => {
                if !same_metadata_value(lv, rv) {
                    proof {
                        assert(lm.contains_key(key@) && rm.contains_key(key@) && lm[key@] != rm[key@]);
                    }
                    return None;
                }
            },
            None => {},
        }
        let ghost before = metadata_view(result);
        result.insert(key.clone(), rv.clone());
        proof {
            let s0 = Set::new(|k: Seq<char>| exists|t: int| 0 <= t < j && #[trigger] r.entries@[t].0@ == k);
            let s1 = Set::new(|k: Seq<char>| exists|t: int| 0 <= t < j + 1 && #[trigger] r.entries@[t].0@ == k);
            assert(s1 =~= s0.insert(key@));
            assert(metadata_view(result) =~= before.insert(key@, rv@));
            assert(rm.contains_key(key@) && rm[key@] == rv@);
            assert(metadata_view(result) =~= lm.union_prefer_right(rm.restrict(s1)));
        }
        j = j + 1;
    }
    proof {
        let s = Set::new(|k: Seq<char>| exists|t: int| 0 <= t < j && #[trigger] r.entries@[t].0@ == k);
        assert forall|k: Seq<char>| rm.contains_key(k) <==> s.contains(k) by {
            crate::strmap::lemma_lookup_some(r.entries@, k);
        }
        assert(rm.restrict(s) =~= rm);
        assert forall|k: Seq<char>| #[trigger] lm.contains_key(k) && rm.contains_key(k) implies lm[k] == rm[k] by {
            crate::strmap::lemma_lookup_some(r.entries@, k);
            let t = choose|t: int| 0 <= t < r.entries@.len() && #[trigger] r.entries@[t].0@ == k;
            assert(lm.contains_key(r.entries@[t].0@));
        }
    }
    Some(result)
}


/// Merges two types.
pub fn merge_type(l: &DataType, r: &DataType) -> (res: Option<DataType>)
    ensures
        match res {
            Some(t) => merged_type(l@, r@) == Some(t@),
            None => merged_type(l@, r@) is None,
        },
    decreases l, 2int,
{
    if same_data_type(l, r) {
        return Some(l.clone());
    }
    match (l, r) {
        (DataType::Array(a), DataType::Array(b)) => match merge_type(&a.element_type, &b.element_type) {
            Some(t) => Some(
                DataType::Array(Box::new(ArrayType { element_type: t, contains_null: a.contains_null || b.contains_null })),
            ),
            None => None,
        },
        (DataType::MapOf(a), DataType::MapOf(b)) => {
            let k = merge_type(&a.key_type, &b.key_type);
            let v = merge_type(&a.value_type, &b.value_type);
            match (k, v) {
                (Some(k), Some(v)) => Some(
                    DataType::MapOf(
                        Box::new(
                            MapType {
                                key_type: k,
                                value_type: v,
                                value_contains_null: a.value_contains_null || b.value_contains_null,
                            },
                        ),
                    ),
                ),
                _ => None,
            }
        },
        (DataType::Struct(a), DataType::Struct(b)) => {
            proof {
                assert(decreases_to!(*l => a.fields));
            }
            match merge_struct_fields(&a.fields, &b.fields) {
                Ok(s) => Some(DataType::Struct(Box::new(s))),
                Err(_) => None,
            }
        },
        _ => None,
    }
}

/// Merges a left field with the first right field of its name.
fn merge_one(lf: &StructField, rfs: &Vec<StructField>) -> (res: Option<StructField>)
    ensures
        match res {
            Some(f) => merged_one(lf@, fields_view(rfs@)) == Some(f@),
            None => merged_one(lf@, fields_view(rfs@)) is None,
        },
    decreases lf, 0int,
{
    match find_first_named(rfs, &lf.name) {
        None => Some(lf.clone()),
        Some(j) => {
            proof {
                lemma_first_named_range(fields_view(rfs@), lf.name@);
                lemma_fields_view_len(rfs@);
                lemma_fields_view_index(rfs@, j as int);
            }
            let rf = &rfs[j];
            let t = merge_type(&lf.data_type, &rf.data_type);
            let md = merge_metadata(&lf.metadata, &rf.metadata);
            match (t, md) {
                (Some(t), Some(md)) => Some(
                    StructField::new(lf.name.clone(), t, lf.nullable || rf.nullable).with_metadata(md),
                ),
                _ => None,
            }
        },
    }
}

/// Merges the fields of two structs; `Err` holds the position of the first left field
/// that cannot be merged.
pub fn merge_struct_fields(l: &Vec<StructField>, r: &Vec<StructField>) -> (res: Result<StructType, usize>)
    ensures
        match merged_struct(fields_view(l@), fields_view(r@)) {
            Ok(fs) => res matches Ok(s) && s@ == fs && s.well_formed(),
            Err(i) => res == Err::<StructType, usize>(i as usize),
        },
    decreases l, 1int,
{
    let ghost lv = fields_view(l@);
    let ghost rv = fields_view(r@);
    proof {
        lemma_fields_view_len(l@);
        lemma_fields_view_len(r@);
    }
    let mut out: Vec<StructField> = Vec::new();
    let mut i: usize = 0;
    while i < l.len()
        invariant
            i <= l@.len(),
            lv == fields_view(l@),
            rv == fields_view(r@),
            lv.len() == l@.len(),
            merged_left(lv.subrange(0, i as int), rv) == Ok::<Seq<FieldView>, int>(fields_view(out@)),
        decreases l.len() - i,
    {
        proof {
            lemma_fields_view_index(l@, i as int);
            let t = lv.subrange(0, i + 1);
            assert(t.drop_last() =~= lv.subrange(0, i as int));
            assert(t.last() == lv[i as int]);
            assert(decreases_to!(*l => l@));
            assert(decreases_to!(l@ => l@[i as int]));
        }
        match merge_one(&l[i], r) {
            Some(f) => {
                let ghost before = out@;
                out.push(f);
                proof {
                    assert(out@.drop_last() =~= before);
                }
            },
            None => {
                proof {
                    lemma_merged_left_prefix_err(lv, rv, i + 1);
                }
                return Err(i);
            },
        }
        i = i + 1;
    }
    proof {
        assert(lv.subrange(0, i as int) =~= lv);
    }
    let ghost merged = out@;
    let mut j: usize = 0;
    while j < r.len()
        invariant
            j <= r@.len(),
            lv == fields_view(l@),
            rv == fields_view(r@),
            rv.len() == r@.len(),
            fields_view(out@) == fields_view(merged) + right_only(rv.subrange(0, j as int), lv),
        decreases r.len() - j,
    {
        proof {
            lemma_fields_view_index(r@, j as int);
            let t = rv.subrange(0, j + 1);
            assert(t.drop_last() =~= rv.subrange(0, j as int));
            assert(t.last() == rv[j as int]);
        }
        if find_first_named(l, &r[j].name).is_none() {
            let ghost before = out@;
            out.push(r[j].clone());
            proof {
                assert(out@.drop_last() =~= before);
                assert(fields_view(out@) =~= fields_view(merged) + right_only(rv.subrange(0, j + 1), lv));
            }
        }
        j = j + 1;
    }
    proof {
        assert(rv.subrange(0, j as int) =~= rv);
    }
    Ok(StructType::new(out))
}

/// Once a prefix of the left fields fails to merge, the whole list fails there.
pub proof fn lemma_merged_left_prefix_err(lfs: Seq<FieldView>, rfs: Seq<FieldView>, k: int)
    requires
        0 <= k <= lfs.len(),
        merged_left(lfs.subrange(0, k), rfs) is Err,
    ensures
        merged_left(lfs, rfs) == merged_left(lfs.subrange(0, k), rfs),
    decreases lfs.len() - k,
{
    if k < lfs.len() {
        let t = lfs.subrange(0, k + 1);
        assert(t.drop_last() =~= lfs.subrange(0, k));
        lemma_merged_left_prefix_err(lfs, rfs, k + 1);
    } else {
        assert(lfs.subrange(0, k) =~= lfs);
    }
}


pub proof fn lemma_merged_left_err(lfs: Seq<FieldView>, rfs: Seq<FieldView>)
    ensures
        merged_left(lfs, rfs) matches Err(i) ==> 0 <= i < lfs.len(),
    decreases lfs.len(),
{
    if lfs.len() > 0 {
        lemma_merged_left_err(lfs.drop_last(), rfs);
    }
}

/// A failed merge names a position among the left fields.
pub proof fn lemma_merged_struct_err(lfs: Seq<FieldView>, rfs: Seq<FieldView>)
    ensures
        merged_struct(lfs, rfs) matches Err(i) ==> 0 <= i < lfs.len(),
{
    lemma_merged_left_err(lfs, rfs);
}


/// In a list of distinct names, the first field bearing a field's name is that field.
proof fn lemma_first_named_distinct(fs: Seq<FieldView>, i: int)
    requires
        names_distinct(fs),
        0 <= i < fs.len(),
    ensures
        first_named(fs, fs[i].name) == Some(i),
    decreases fs.len(),
{
    let d = fs.drop_last();
    if i < fs.len() - 1 {
        assert(d[i] == fs[i]);
        assert(names_distinct(d));
        lemma_first_named_distinct(d, i);
    } else {
        assert forall|j: int| 0 <= j < d.len() implies d[j].name != fs[i].name by {
            assert(d[j] == fs[j]);
        }
        lemma_first_named_absent(d, fs[i].name);
    }
}

/// Merging a schema into itself changes nothing.
pub proof fn law_merge_with_itself(fs: Seq<FieldView>)
    requires
        names_distinct(fs),
    ensures
        merged_struct(fs, fs) == Ok::<Seq<FieldView>, int>(fs),
{
    lemma_merged_left_self(fs, fs);
    lemma_right_only_self(fs, fs);
    assert(fs + Seq::<FieldView>::empty() =~= fs);
    lemma_collapse_of_distinct(fs);
}

/// Each field of a prefix of a schema merges with itself.
proof fn lemma_merged_left_self(lfs: Seq<FieldView>, all: Seq<FieldView>)
    requires
        names_distinct(all),
        lfs.len() <= all.len(),
        forall|i: int| 0 <= i < lfs.len() ==> lfs[i] == all[i],
    ensures
        merged_left(lfs, all) == Ok::<Seq<FieldView>, int>(lfs),
    decreases lfs.len(),
{
    if lfs.len() > 0 {
        let d = lfs.drop_last();
        let k = lfs.len() - 1;
        let f = lfs.last();
        assert forall|i: int| 0 <= i < d.len() implies d[i] == all[i] by {
            assert(d[i] == lfs[i]);
        }
        lemma_merged_left_self(d, all);
        assert(f == all[k]);
        lemma_first_named_distinct(all, k);
        law_same_type_reflexive(f.data_type);
        assert(merged_type(f.data_type, f.data_type) == Some(f.data_type));
        assert(f.metadata.union_prefer_right(f.metadata) =~= f.metadata);
        assert(merged_metadata(f.metadata, f.metadata) == Some(f.metadata));
        assert(merged_one(f, all) == Some(f));
        assert(d.push(f) =~= lfs);
    } else {
        assert(lfs =~= Seq::<FieldView>::empty());
    }
}

/// No field of a prefix of a schema is missing from the schema.
proof fn lemma_right_only_self(rfs: Seq<FieldView>, all: Seq<FieldView>)
    requires
        rfs.len() <= all.len(),
        forall|i: int| 0 <= i < rfs.len() ==> rfs[i] == all[i],
    ensures
        right_only(rfs, all) == Seq::<FieldView>::empty(),
    decreases rfs.len(),
{
    if rfs.len() > 0 {
        let d = rfs.drop_last();
        assert forall|i: int| 0 <= i < d.len() implies d[i] == all[i] by {
            assert(d[i] == rfs[i]);
        }
        lemma_right_only_self(d, all);
        lemma_first_named_range(all, rfs.last().name);
        assert(all[rfs.len() - 1].name == rfs.last().name);
    }
}

} // verus!
