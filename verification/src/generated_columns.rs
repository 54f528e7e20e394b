use vstd::prelude::*;

use crate::column_mapping::{column_id_key, physical_name_key};
use crate::errors::DeltaTableError;
use crate::schema::{
    collapse_by_name, fields_view, lemma_collapse_distinct, lemma_collapse_of_distinct,
    lemma_fields_view_index, lemma_fields_view_len, metadata_view, FieldView, MetaView,
    MetadataValue, StructField, StructType,
};
use crate::constraints::GeneratedColumn;
use crate::schema_evolution::{contains_name, strings_view};
use crate::table::{contains_generated_columns, has_generated_columns, DeltaTableState};
use crate::text::{decimal, i64_to_string};

verus! {

/// Whether the writer version of a table can write generated columns: it needs version
/// 4 or later, and where it needs version 7, it must list generated columns among its
/// writer features.
pub open spec fn spec_able_to_gc(p: crate::table::ProtocolView) -> bool {
    &&& p.min_writer_version >= 4
    &&& p.min_writer_version == 7 ==> match p.writer_features {
        Some(fs) => has_generated_columns(fs),
        None => false,
    }
}

/// Check if the writer version is able to write generated columns.
pub fn able_to_gc(snapshot: &DeltaTableState) -> (r: Result<bool, DeltaTableError>)
    ensures
        r == Ok::<bool, DeltaTableError>(spec_able_to_gc(snapshot.protocol@)),
{
    if snapshot.protocol.min_writer_version < 4 {
        return Ok(false);
    }
    if snapshot.protocol.min_writer_version == 7 {
        match &snapshot.protocol.writer_features {
            Some(features) => {
                if !contains_generated_columns(features) {
                    return Ok(false);
                }
            },
            None => {
                return Ok(false);
            },
        }
    }
    Ok(true)
}

/// The generated columns, by name and in order, that a source with the columns
/// `present` lacks; each one found missing counts as present from then on, as the
/// placeholder added for it is.
pub open spec fn missing_generated(cols: Seq<Seq<char>>, present: Seq<Seq<char>>) -> Seq<Seq<char>>
    decreases cols.len(),
{
    if cols.len() == 0 {
        Seq::empty()
    } else if present.contains(cols[0]) {
        missing_generated(cols.skip(1), present)
    } else {
        seq![cols[0]] + missing_generated(cols.skip(1), present.push(cols[0]))
    }
}

/// The names of a list of generated columns.
pub open spec fn generated_names(cols: Seq<GeneratedColumn>) -> Seq<Seq<char>> {
    cols.map_values(|c: GeneratedColumn| c.name@)
}

/// The generated columns that a source with the columns `source_columns` lacks, by
/// name and in order: those that a placeholder column is added for.
pub fn missing_generated_columns(generated_cols: &Vec<GeneratedColumn>, source_columns: &Vec<String>) -> (r: Vec<
    String,
>)
    ensures
        strings_view(r@) == missing_generated(generated_names(generated_cols@), strings_view(source_columns@)),
{
    let ghost all = generated_names(generated_cols@);
    let mut present: Vec<String> = Vec::new();
    let mut i: usize = 0;
    while i < source_columns.len()
        invariant
            i <= source_columns@.len(),
            strings_view(present@) == strings_view(source_columns@).subrange(0, i as int),
        decreases source_columns.len() - i,
    {
        let ghost before = present@;
        present.push(source_columns[i].clone());
        proof {
            assert(strings_view(present@) =~= strings_view(before).push(source_columns@[i as int]@));
            assert(strings_view(source_columns@).subrange(0, i + 1) =~= strings_view(source_columns@).subrange(
                0,
                i as int,
            ).push(source_columns@[i as int]@));
        }
        i = i + 1;
    }
    proof {
        assert(strings_view(source_columns@).subrange(0, i as int) =~= strings_view(source_columns@));
        assert(all.skip(0) =~= all);
    }
    let mut out: Vec<String> = Vec::new();
    proof {
        assert(strings_view(out@) =~= Seq::<Seq<char>>::empty());
        assert(strings_view(out@) + missing_generated(all, strings_view(present@)) =~= missing_generated(
            all,
            strings_view(present@),
        ));
    }
    let mut k: usize = 0;
    while k < generated_cols.len()
        invariant
            k <= generated_cols@.len(),
            all == generated_names(generated_cols@),
            missing_generated(all, strings_view(source_columns@)) == strings_view(out@) + missing_generated(
                all.skip(k as int),
                strings_view(present@),
            ),
        decreases generated_cols.len() - k,
    {
        let name = generated_cols[k].name.clone();
        let ghost rest = all.skip(k as int);
        proof {
            assert(rest[0] == name@);
            assert(rest.skip(1) =~= all.skip(k + 1));
        }
        if !contains_name(&present, &name) {
            let ghost before_out = out@;
            let ghost before_present = present@;
            out.push(name.clone());
            present.push(name);
            proof {
                assert(strings_view(out@) =~= strings_view(before_out) + seq![rest[0]]);
                assert(strings_view(present@) =~= strings_view(before_present).push(rest[0]));
                assert(strings_view(before_out) + (seq![rest[0]] + missing_generated(
                    rest.skip(1),
                    strings_view(before_present).push(rest[0]),
                )) =~= strings_view(out@) + missing_generated(all.skip(k + 1), strings_view(present@)));
            }
        }
        k = k + 1;
    }
    proof {
        assert(all.skip(k as int) =~= Seq::<Seq<char>>::empty());
        assert(strings_view(out@) + Seq::<Seq<char>>::empty() =~= strings_view(out@));
    }
    out
}

/// The column id that a field's metadata holds, where it is a number.
pub open spec fn metadata_column_id(md: Map<Seq<char>, MetaView>) -> Option<int> {
    match md.get(column_id_key()) {
        Some(MetaView::Number(n)) => Some(n),
        _ => None,
    }
}

/// The largest column id among the top-level fields, and 0 where none is larger.
pub open spec fn max_column_id_of(fs: Seq<FieldView>) -> int
    decreases fs.len(),
{
    if fs.len() == 0 {
        0
    } else {
        let m = max_column_id_of(fs.drop_last());
        match metadata_column_id(fs.last().metadata) {
            Some(n) => if n > m {
                n
            } else {
                m
            },
            None => m,
        }
    }
}

pub proof fn lemma_max_column_id_nonneg(fs: Seq<FieldView>)
    ensures
        max_column_id_of(fs) >= 0,
    decreases fs.len(),
{
    if fs.len() > 0 {
        lemma_max_column_id_nonneg(fs.drop_last());
    }
}

/// Get the maximum column ID from the schema.
pub fn get_max_column_id(schema: &StructType) -> (r: i64)
    ensures
        r == max_column_id_of(schema@),
{
    let mut max_id: i64 = 0;
    let mut i: usize = 0;
    proof {
        lemma_fields_view_len(schema.fields@);
    }
    while i < schema.fields.len()
        invariant
            i <= schema.fields@.len(),
            schema@.len() == schema.fields@.len(),
            max_id == max_column_id_of(schema@.subrange(0, i as int)),
        decreases schema.fields.len() - i,
    {
        proof {
            lemma_fields_view_index(schema.fields@, i as int);
            let t = schema@.subrange(0, i + 1);
            assert(t.drop_last() =~= schema@.subrange(0, i as int));
            assert(t.last() == schema@[i as int]);
        }
        let got = schema.fields[i].metadata.get("delta.columnMapping.id");
        proof {
            assert(schema@[i as int].metadata.get(column_id_key()) == match got {
                Some(x) => Some(x@),
                None => None::<MetaView>,
            });
        }
        if let Some(MetadataValue::Number(n)) = got {
            if *n > max_id {
                max_id = *n;
            }
        }
        i = i + 1;
    }
    proof {
        assert(schema@.subrange(0, i as int) =~= schema@);
    }
    max_id
}

/// The number of fields without a column id.
pub open spec fn missing_ids(fs: Seq<FieldView>) -> nat
    decreases fs.len(),
{
    if fs.len() == 0 {
        0
    } else {
        missing_ids(fs.drop_last()) + if fs.last().metadata.contains_key(column_id_key()) {
            0nat
        } else {
            1nat
        }
    }
}

/// A field with a column id and a physical name added where it lacks them. A missing
/// id is `next`. A missing physical name is `col-<id>`: where `own_id` holds, the id in
/// the field's metadata if it is a number; otherwise the last id handed out.
pub open spec fn mapped_field(f: FieldView, next: int, own_id: bool) -> FieldView {
    let has_id = f.metadata.contains_key(column_id_key());
    let md1 = if has_id {
        f.metadata
    } else {
        f.metadata.insert(column_id_key(), MetaView::Number(next))
    };
    let after = if has_id {
        next
    } else {
        next + 1
    };
    let md2 = if md1.contains_key(physical_name_key()) {
        md1
    } else {
        let cid = if own_id {
            match md1[column_id_key()] {
                MetaView::Number(n) => n,
                _ => after - 1,
            }
        } else {
            after - 1
        };
        md1.insert(physical_name_key(), MetaView::Str("col-"@ + decimal(cid)))
    };
    FieldView { name: f.name, data_type: f.data_type, nullable: f.nullable, metadata: md2 }
}

/// The top-level fields with column ids and physical names added, ids handed out from
/// `next` in order.
pub open spec fn mapped_fields(fs: Seq<FieldView>, next: int, own_id: bool) -> Seq<FieldView>
    decreases fs.len(),
{
    if fs.len() == 0 {
        Seq::empty()
    } else {
        mapped_fields(fs.drop_last(), next, own_id).push(
            mapped_field(fs.last(), next + missing_ids(fs.drop_last()), own_id),
        )
    }
}

/// A prefix lacks no more ids than the whole list.
proof fn lemma_missing_ids_prefix(fs: Seq<FieldView>, k: int)
    requires
        0 <= k <= fs.len(),
    ensures
        missing_ids(fs.subrange(0, k)) <= missing_ids(fs),
    decreases fs.len(),
{
    if k == fs.len() {
        assert(fs.subrange(0, k) =~= fs);
    } else {
        assert(fs.drop_last().subrange(0, k) =~= fs.subrange(0, k));
        lemma_missing_ids_prefix(fs.drop_last(), k);
    }
}

/// Adds a column id and a physical name to one field where it lacks them; `next` is the
/// next id to hand out.
pub fn map_field_ids(field: &StructField, next: &mut i64, own_id: bool) -> (r: StructField)
    requires
        1 <= *old(next),
        !field@.metadata.contains_key(column_id_key()) ==> *old(next) < i64::MAX,
    ensures
        r@ == mapped_field(field@, *old(next) as int, own_id),
        *final(next) == *old(next) + if field@.metadata.contains_key(column_id_key()) {
            0int
        } else {
            1int
        },
{
    let mut metadata = field.metadata.clone();
    let ghost f = field@;
    if !metadata.contains_key("delta.columnMapping.id") {
        metadata.insert(String::from_str("delta.columnMapping.id"), MetadataValue::Number(*next));
        *next = *next + 1;
    }
    let ghost md1 = metadata_view(metadata);
    proof {
        assert(md1 =~= if f.metadata.contains_key(column_id_key()) {
            f.metadata
        } else {
            f.metadata.insert(column_id_key(), MetaView::Number(*old(next) as int))
        });
    }
    if !metadata.contains_key("delta.columnMapping.physicalName") {
        let got = metadata.get("delta.columnMapping.id");
        let column_id = match got {
            Some(MetadataValue::Number(n)) => {
                if own_id {
                    *n
                } else {
                    *next - 1
                }
            },
            _ => *next - 1,
        };
        proof {
            assert(md1.contains_key(column_id_key()));
        }
        let mut physical = String::from_str("col-");
        physical.append(i64_to_string(column_id).as_str());
        metadata.insert(String::from_str("delta.columnMapping.physicalName"), MetadataValue::String(physical));
        proof {
            assert(metadata_view(metadata) =~= md1.insert(
                physical_name_key(),
                MetaView::Str("col-"@ + decimal(column_id as int)),
            ));
        }
    }
    StructField::new(field.name.clone(), field.data_type.clone(), field.nullable).with_metadata(metadata)
}

/// The first id to hand out: 1 the first time, otherwise one past the largest id.
pub open spec fn first_new_id(fs: Seq<FieldView>, is_first_time: bool) -> int {
    if is_first_time {
        1
    } else {
        max_column_id_of(fs) + 1
    }
}

/// Adds column mapping metadata to the top-level fields of a schema that lack it.
pub fn add_column_mapping_metadata(schema: StructType, is_first_time: bool) -> (r: Result<
    StructType,
    DeltaTableError,
>)
    requires
        first_new_id(schema@, is_first_time) + missing_ids(schema@) <= i64::MAX,
    ensures
        r matches Ok(s) && s.well_formed() && s@ == collapse_by_name(
            mapped_fields(schema@, first_new_id(schema@, is_first_time), true),
        ),
{
    proof {
        lemma_max_column_id_nonneg(schema@);
    }
    let start: i64 = if is_first_time {
        1
    } else {
        get_max_column_id(&schema) + 1
    };
    Ok(StructType::new(map_fields_ids(&schema.fields, start, true)))
}

/// Adds column ids and physical names to a list of fields, handing out ids from `start`.
pub fn map_fields_ids(fields: &Vec<StructField>, start: i64, own_id: bool) -> (r: Vec<StructField>)
    requires
        start >= 1,
        start + missing_ids(fields_view(fields@)) <= i64::MAX,
    ensures
        fields_view(r@) == mapped_fields(fields_view(fields@), start as int, own_id),
{
    let ghost fv = fields_view(fields@);
    proof {
        lemma_fields_view_len(fields@);
    }
    let mut next = start;
    let mut out: Vec<StructField> = Vec::new();
    let mut i: usize = 0;
    while i < fields.len()
        invariant
            i <= fields@.len(),
            fv == fields_view(fields@),
            fv.len() == fields@.len(),
            start + missing_ids(fv) <= i64::MAX,
            start >= 1,
            next == start + missing_ids(fv.subrange(0, i as int)),
            fields_view(out@) == mapped_fields(fv.subrange(0, i as int), start as int, own_id),
        decreases fields.len() - i,
    {
        proof {
            lemma_fields_view_index(fields@, i as int);
            let t = fv.subrange(0, i + 1);
            assert(t.drop_last() =~= fv.subrange(0, i as int));
            assert(t.last() == fv[i as int]);
            lemma_missing_ids_prefix(fv, i + 1);
        }
        let ghost before = out@;
        let n = map_field_ids(&fields[i], &mut next, own_id);
        out.push(n);
        proof {
            assert(out@.drop_last() =~= before);
            lemma_fields_view_len(out@);
        }
        i = i + 1;
    }
    proof {
        assert(fv.subrange(0, i as int) =~= fv);
    }
    out
}


/// Whether a field has both a column id and a physical name.
pub open spec fn has_mapping_metadata(f: FieldView) -> bool {
    f.metadata.contains_key(column_id_key()) && f.metadata.contains_key(physical_name_key())
}

/// Every field that column mapping metadata was added to has an id and a physical name,
/// and a field that had both is left as it is.
proof fn lemma_mapped_fields_complete(fs: Seq<FieldView>, next: int, own_id: bool)
    ensures
        mapped_fields(fs, next, own_id).len() == fs.len(),
        forall|i: int| 0 <= i < fs.len() ==> has_mapping_metadata(#[trigger] mapped_fields(fs, next, own_id)[i]),
        (forall|i: int| 0 <= i < fs.len() ==> has_mapping_metadata(#[trigger] fs[i])) ==> mapped_fields(
            fs,
            next,
            own_id,
        ) == fs,
    decreases fs.len(),
{
    if fs.len() > 0 {
        let d = fs.drop_last();
        lemma_mapped_fields_complete(d, next, own_id);
        assert forall|i: int| 0 <= i < fs.len() - 1 implies mapped_fields(fs, next, own_id)[i] == mapped_fields(
            d,
            next,
            own_id,
        )[i] && fs[i] == d[i] by {}
        if forall|i: int| 0 <= i < fs.len() ==> has_mapping_metadata(#[trigger] fs[i]) {
            assert forall|i: int| 0 <= i < d.len() implies has_mapping_metadata(#[trigger] d[i]) by {
                assert(has_mapping_metadata(fs[i]));
            }
            assert(has_mapping_metadata(fs[fs.len() - 1]));
            assert(mapped_fields(fs, next, own_id) =~= fs);
        }
    } else {
        assert(mapped_fields(fs, next, own_id) =~= fs);
    }
}

/// Adding column mapping metadata twice adds nothing the second time: a schema that
/// has it lacks no id, and is left as it is, whatever ids the second call would hand
/// out.
pub proof fn law_mapping_metadata_idempotent(fs: Seq<FieldView>, first: bool, second: bool)
    ensures
        ({
            let once = collapse_by_name(mapped_fields(fs, first_new_id(fs, first), true));
            &&& missing_ids(once) == 0
            &&& collapse_by_name(mapped_fields(once, first_new_id(once, second), true)) == once
        }),
{
    let m = mapped_fields(fs, first_new_id(fs, first), true);
    let once = collapse_by_name(m);
    lemma_mapped_fields_complete(fs, first_new_id(fs, first), true);
    crate::schema_evolution::lemma_collapse_members(m);
    assert forall|i: int| 0 <= i < once.len() implies has_mapping_metadata(#[trigger] once[i]) by {
        assert(m.contains(once[i]));
        let j = choose|j: int| 0 <= j < m.len() && m[j] == once[i];
        assert(has_mapping_metadata(m[j]));
    }
    lemma_mapped_fields_complete(once, first_new_id(once, second), true);
    lemma_collapse_distinct(m);
    lemma_collapse_of_distinct(once);
    lemma_missing_ids_none(once);
}

/// A list whose every field has mapping metadata lacks no id.
proof fn lemma_missing_ids_none(fs: Seq<FieldView>)
    requires
        forall|i: int| 0 <= i < fs.len() ==> has_mapping_metadata(#[trigger] fs[i]),
    ensures
        missing_ids(fs) == 0,
    decreases fs.len(),
{
    if fs.len() > 0 {
        let d = fs.drop_last();
        assert forall|i: int| 0 <= i < d.len() implies has_mapping_metadata(#[trigger] d[i]) by {
            assert(has_mapping_metadata(fs[i]));
        }
        assert(has_mapping_metadata(fs[fs.len() - 1]));
        lemma_missing_ids_none(d);
    }
}

} // verus!
