use vstd::prelude::*;

use crate::column_mapping::{insert_pairs, names_view, physical_name_key};
use crate::strmap::StrMap;
use crate::writer::{
    arrow_fields_view, clone_field, field_cloned, fields_cloned, lemma_arrow_fields_view_index,
    lemma_arrow_fields_view_len, lemma_physical_fields_index, physical_fields, ArrowField,
    ArrowFieldView, ArrowSchema,
};

verus! {

/// The physical name that a table field's metadata gives it, if any.
pub open spec fn recorded_physical_name<T>(f: ArrowFieldView<T>) -> Option<Seq<char>> {
    if f.metadata.contains_key(physical_name_key()) {
        Some(f.metadata[physical_name_key()])
    } else {
        None
    }
}

/// The position of the first field named `name`, if any.
pub open spec fn first_field_named<T>(fs: Seq<ArrowFieldView<T>>, name: Seq<char>) -> Option<int>
    decreases fs.len(),
{
    if fs.len() == 0 {
        None
    } else {
        match first_field_named(fs.drop_last(), name) {
            Some(i) => Some(i),
            None => if fs.last().name == name {
                Some(fs.len() - 1)
            } else {
                None
            },
        }
    }
}

/// The column of the file that holds a table field: the first named by its physical
/// name, else the first named by its name.
pub open spec fn file_column_of<T>(table_field: ArrowFieldView<T>, file_fields: Seq<ArrowFieldView<T>>) -> Option<int> {
    match recorded_physical_name(table_field) {
        Some(p) => match first_field_named(file_fields, p) {
            Some(i) => Some(i),
            None => first_field_named(file_fields, table_field.name),
        },
        None => first_field_named(file_fields, table_field.name),
    }
}

/// Whether a table field holds the file column named `name`: by its physical name or
/// by its name.
pub open spec fn holds_column<T>(table_field: ArrowFieldView<T>, name: Seq<char>) -> bool {
    recorded_physical_name(table_field) == Some(name) || table_field.name == name
}

/// The position of the first table field that holds the file column named `name`.
pub open spec fn first_holder<T>(table_fields: Seq<ArrowFieldView<T>>, name: Seq<char>) -> Option<int>
    decreases table_fields.len(),
{
    if table_fields.len() == 0 {
        None
    } else {
        match first_holder(table_fields.drop_last(), name) {
            Some(i) => Some(i),
            None => if holds_column(table_fields.last(), name) {
                Some(table_fields.len() - 1)
            } else {
                None
            },
        }
    }
}

/// The positions of the file columns that some table field holds, in order.
pub open spec fn projection_of<T>(table_fields: Seq<ArrowFieldView<T>>, file_fields: Seq<ArrowFieldView<T>>) -> Seq<int>
    decreases file_fields.len(),
{
    if file_fields.len() == 0 {
        Seq::empty()
    } else {
        let rest = projection_of(table_fields, file_fields.drop_last());
        if first_holder(table_fields, file_fields.last().name) is Some {
            rest.push(file_fields.len() - 1)
        } else {
            rest
        }
    }
}

/// The file column names paired with the table names they are read as, where the two
/// differ, in the order of the file's columns.
pub open spec fn renames_of<T>(table_fields: Seq<ArrowFieldView<T>>, file_fields: Seq<ArrowFieldView<T>>) -> Seq<
    (Seq<char>, Seq<char>),
>
    decreases file_fields.len(),
{
    if file_fields.len() == 0 {
        Seq::empty()
    } else {
        let rest = renames_of(table_fields, file_fields.drop_last());
        let name = file_fields.last().name;
        match first_holder(table_fields, name) {
            Some(i) => if table_fields[i].name != name {
                rest.push((name, table_fields[i].name))
            } else {
                rest
            },
            None => rest,
        }
    }
}

/// Reads the columns of Parquet files into the table's schema, matching them by
/// physical name where column mapping gives one, else by name.
pub struct DeltaSchemaAdapter<T> {
    /// The table's schema, cut down to the fields that are read.
    pub projected_table_schema: ArrowSchema<T>,
    /// The table's schema.
    pub table_schema: ArrowSchema<T>,
}

/// How the columns of a file are read: the schema they are read into, and the table
/// name of each file column whose name differs from it.
pub struct SchemaMapping<T> {
    pub projected_schema: ArrowSchema<T>,
    pub physical_to_logical: StrMap<String>,
}

/// The position of the first field named `name`.
fn find_field<T>(fields: &Vec<ArrowField<T>>, name: &String) -> (r: Option<usize>)
    ensures
        match r {
            Some(i) => first_field_named(arrow_fields_view(fields@), name@) == Some(i as int),
            None => first_field_named(arrow_fields_view(fields@), name@) is None,
        },
{
    let ghost fv = arrow_fields_view(fields@);
    proof {
        lemma_arrow_fields_view_len(fields@);
    }
    let mut i: usize = 0;
    while i < fields.len()
        invariant
            i <= fields@.len(),
            fv == arrow_fields_view(fields@),
            fv.len() == fields@.len(),
            first_field_named(fv.subrange(0, i as int), name@) is None,
        decreases fields.len() - i,
    {
        proof {
            lemma_arrow_fields_view_index(fields@, i as int);
            let t = fv.subrange(0, i + 1);
            assert(t.drop_last() =~= fv.subrange(0, i as int));
        }
        if fields[i].name == *name {
            proof {
                lemma_first_field_named_prefix(fv, name@, i + 1);
            }
            return Some(i);
        }
        i = i + 1;
    }
    proof {
        assert(fv.subrange(0, i as int) =~= fv);
    }
    None
}

/// Once a prefix holds a field of the name, the whole list finds it there.
proof fn lemma_first_field_named_prefix<T>(fs: Seq<ArrowFieldView<T>>, name: Seq<char>, k: int)
    requires
        0 <= k <= fs.len(),
        first_field_named(fs.subrange(0, k), name) is Some,
    ensures
        first_field_named(fs, name) == first_field_named(fs.subrange(0, k), name),
    decreases fs.len() - k,
{
    if k < fs.len() {
        let t = fs.subrange(0, k + 1);
        assert(t.drop_last() =~= fs.subrange(0, k));
        lemma_first_field_named_prefix(fs, name, k + 1);
    } else {
        assert(fs.subrange(0, k) =~= fs);
    }
}

/// Whether a table field holds the file column named `name`.
fn field_holds_column<T>(field: &ArrowField<T>, name: &String) -> (b: bool)
    ensures
        b == holds_column(field@, name@),
{
    let by_physical = match field.metadata.get("delta.columnMapping.physicalName") {
        Some(p) => *p == *name,
        None => false,
    };
    by_physical || field.name == *name
}

/// The position of the first table field that holds the file column named `name`.
fn find_holder<T>(fields: &Vec<ArrowField<T>>, name: &String) -> (r: Option<usize>)
    ensures
        match r {
            Some(i) => first_holder(arrow_fields_view(fields@), name@) == Some(i as int),
            None => first_holder(arrow_fields_view(fields@), name@) is None,
        },
{
    let ghost fv = arrow_fields_view(fields@);
    proof {
        lemma_arrow_fields_view_len(fields@);
    }
    let mut i: usize = 0;
    while i < fields.len()
        invariant
            i <= fields@.len(),
            fv == arrow_fields_view(fields@),
            fv.len() == fields@.len(),
            first_holder(fv.subrange(0, i as int), name@) is None,
        decreases fields.len() - i,
    {
        proof {
            lemma_arrow_fields_view_index(fields@, i as int);
            let t = fv.subrange(0, i + 1);
            assert(t.drop_last() =~= fv.subrange(0, i as int));
        }
        if field_holds_column(&fields[i], name) {
            proof {
                lemma_first_holder_prefix(fv, name@, i + 1);
            }
            return Some(i);
        }
        i = i + 1;
    }
    proof {
        assert(fv.subrange(0, i as int) =~= fv);
    }
    None
}

/// Once a prefix holds the column, the whole list finds it there.
proof fn lemma_first_holder_prefix<T>(fs: Seq<ArrowFieldView<T>>, name: Seq<char>, k: int)
    requires
        0 <= k <= fs.len(),
        first_holder(fs.subrange(0, k), name) is Some,
    ensures
        first_holder(fs, name) == first_holder(fs.subrange(0, k), name),
    decreases fs.len() - k,
{
    if k < fs.len() {
        let t = fs.subrange(0, k + 1);
        assert(t.drop_last() =~= fs.subrange(0, k));
        lemma_first_holder_prefix(fs, name, k + 1);
    } else {
        assert(fs.subrange(0, k) =~= fs);
    }
}

/// A position found by name is a position of the list.
proof fn lemma_first_holder_range<T>(fs: Seq<ArrowFieldView<T>>, name: Seq<char>)
    ensures
        first_holder(fs, name) matches Some(i) ==> 0 <= i < fs.len() && holds_column(fs[i], name),
    decreases fs.len(),
{
    if fs.len() > 0 {
        lemma_first_holder_range(fs.drop_last(), name);
        if let Some(i) = first_holder(fs.drop_last(), name) {
            assert(fs[i] == fs.drop_last()[i]);
        }
    }
}

impl<T> DeltaSchemaAdapter<T> {
    /// The column of a file that holds the table field at `index`: by its physical name
    /// where it has one and the file holds it, else by its name.
    pub fn map_column_index(&self, index: usize, file_schema: &ArrowSchema<T>) -> (r: Option<usize>)
        requires
            index < self.table_schema.fields@.len(),
        ensures
            r == match file_column_of(self.table_schema@.fields[index as int], file_schema@.fields) {
                Some(i) => Some(i as usize),
                None => None::<usize>,
            },
    {
        proof {
            lemma_arrow_fields_view_index(self.table_schema.fields@, index as int);
            lemma_first_field_named_range(file_schema@.fields, self.table_schema@.fields[index as int].name);
        }
        let field = &self.table_schema.fields[index];
        match field.metadata.get("delta.columnMapping.physicalName") {
            Some(physical) => {
                proof {
                    lemma_first_field_named_range(file_schema@.fields, physical@);
                }
                match find_field(&file_schema.fields, physical) {
                    Some(i) => {
                        return Some(i);
                    },
                    None => {},
                }
            },
            None => {},
        }
        find_field(&file_schema.fields, &field.name)
    }
}

/// A position found by name is a position of the list.
proof fn lemma_first_field_named_range<T>(fs: Seq<ArrowFieldView<T>>, name: Seq<char>)
    ensures
        first_field_named(fs, name) matches Some(i) ==> 0 <= i < fs.len() && fs[i].name == name,
    decreases fs.len(),
{
    if fs.len() > 0 {
        lemma_first_field_named_range(fs.drop_last(), name);
        if let Some(i) = first_field_named(fs.drop_last(), name) {
            assert(fs[i] == fs.drop_last()[i]);
        }
    }
}

impl<T: Clone> DeltaSchemaAdapter<T> {
    /// How the columns of a file are read: the file columns that some field of the read
    /// schema holds, in order, and the table name of each whose name differs from it.
    pub fn map_schema(&self, file_schema: &ArrowSchema<T>) -> (r: (SchemaMapping<T>, Vec<usize>))
        ensures
            fields_cloned(self.projected_table_schema@.fields, r.0.projected_schema@.fields),
            r.0.projected_schema@.metadata == self.projected_table_schema@.metadata,
            names_view(r.0.physical_to_logical) == insert_pairs(
                Map::empty(),
                renames_of(self.projected_table_schema@.fields, file_schema@.fields),
            ),
            r.1@.map_values(|i: usize| i as int) == projection_of(
                self.projected_table_schema@.fields,
                file_schema@.fields,
            ),
    {
        let table_fields = &self.projected_table_schema.fields;
        let ghost tv = arrow_fields_view(table_fields@);
        let ghost fv = arrow_fields_view(file_schema.fields@);
        proof {
            lemma_arrow_fields_view_len(file_schema.fields@);
            lemma_arrow_fields_view_len(table_fields@);
        }
        let mut projection: Vec<usize> = Vec::new();
        let mut physical_to_logical: StrMap<String> = StrMap::new();
        proof {
            assert(names_view(physical_to_logical) =~= Map::<Seq<char>, Seq<char>>::empty());
        }
        let mut j: usize = 0;
        while j < file_schema.fields.len()
            invariant
                j <= file_schema.fields@.len(),
                fv == arrow_fields_view(file_schema.fields@),
                fv.len() == file_schema.fields@.len(),
                tv == arrow_fields_view(table_fields@),
                tv.len() == table_fields@.len(),
                projection@.map_values(|i: usize| i as int) == projection_of(tv, fv.subrange(0, j as int)),
                names_view(physical_to_logical) == insert_pairs(Map::empty(), renames_of(tv, fv.subrange(0, j as int))),
            decreases file_schema.fields.len() - j,
        {
            proof {
                lemma_arrow_fields_view_index(file_schema.fields@, j as int);
                let t = fv.subrange(0, j + 1);
                assert(t.drop_last() =~= fv.subrange(0, j as int));
                assert(t.last() == fv[j as int]);
            }
            let file_name = &file_schema.fields[j].name;
            let ghost prev = renames_of(tv, fv.subrange(0, j as int));
            match find_holder(table_fields, file_name) {
                Some(i) => {
                    proof {
                        lemma_first_holder_range(tv, file_name@);
                        lemma_arrow_fields_view_index(table_fields@, i as int);
                    }
                    let ghost before = projection@;
                    projection.push(j);
                    proof {
                        assert(projection@.map_values(|i: usize| i as int) =~= before.map_values(|i: usize| i as int).push(
                            j as int,
                        ));
                    }
                    if !(table_fields[i].name == *file_name) {
                        let ghost m0 = names_view(physical_to_logical);
                        physical_to_logical.insert(file_name.clone(), table_fields[i].name.clone());
                        proof {
                            assert(names_view(physical_to_logical) =~= m0.insert(file_name@, tv[i as int].name));
                            let ps = prev.push((file_name@, tv[i as int].name));
                            assert(renames_of(tv, fv.subrange(0, j + 1)) == ps);
                            assert(ps.drop_last() =~= prev);
                        }
                    } else {
                        assert(renames_of(tv, fv.subrange(0, j + 1)) == prev);
                    }
                },
                None => {
                    assert(renames_of(tv, fv.subrange(0, j + 1)) == prev);
                },
            }
            j = j + 1;
        }
        proof {
            assert(fv.subrange(0, j as int) =~= fv);
        }
        let mut fields: Vec<ArrowField<T>> = Vec::new();
        let mut k: usize = 0;
        while k < table_fields.len()
            invariant
                k <= table_fields@.len(),
                tv == arrow_fields_view(table_fields@),
                tv.len() == table_fields@.len(),
                fields_cloned(tv.subrange(0, k as int), arrow_fields_view(fields@)),
            decreases table_fields.len() - k,
        {
            proof {
                lemma_arrow_fields_view_index(table_fields@, k as int);
            }
            let f = clone_field(&table_fields[k]);
            let ghost before = fields@;
            fields.push(f);
            proof {
                assert(fields@.drop_last() =~= before);
                lemma_arrow_fields_view_len(fields@);
                let pre = tv.subrange(0, k as int);
                let post = tv.subrange(0, k + 1);
                let ov = arrow_fields_view(fields@);
                assert forall|q: int| 0 <= q < post.len() implies field_cloned(#[trigger] post[q], ov[q]) by {
                    if q < k {
                        assert(post[q] == pre[q]);
                    }
                }
            }
            k = k + 1;
        }
        proof {
            assert(tv.subrange(0, k as int) =~= tv);
        }
        let projected_schema = ArrowSchema { fields, metadata: self.projected_table_schema.metadata.clone() };
        (SchemaMapping { projected_schema, physical_to_logical }, projection)
    }
}

/// A field as a batch is read: renamed to its table name where the mapping has one,
/// losing its metadata then.
pub open spec fn logical_field<T>(f: ArrowFieldView<T>, m: Map<Seq<char>, Seq<char>>) -> ArrowFieldView<T> {
    if m.contains_key(f.name) {
        ArrowFieldView { name: m[f.name], data_type: f.data_type, nullable: f.nullable, metadata: Map::empty() }
    } else {
        f
    }
}

impl<T> SchemaMapping<T> {
    /// The fields of a batch read from a file, renamed from their physical names to
    /// their table names. With no renames they are left as they are.
    pub fn map_batch_fields(&self, fields: Vec<ArrowField<T>>) -> (r: Vec<ArrowField<T>>)
        ensures
            arrow_fields_view(r@) == arrow_fields_view(fields@).map_values(
                |f: ArrowFieldView<T>| logical_field(f, names_view(self.physical_to_logical)),
            ),
    {
        let ghost m = names_view(self.physical_to_logical);
        let ghost all = fields@;
        proof {
            lemma_arrow_fields_view_len(all);
        }
        if self.physical_to_logical.is_empty() {
            proof {
                assert(m =~= Map::<Seq<char>, Seq<char>>::empty());
                assert(arrow_fields_view(all) =~= arrow_fields_view(all).map_values(
                    |f: ArrowFieldView<T>| logical_field(f, m),
                ));
            }
            return fields;
        }
        let mut out: Vec<ArrowField<T>> = Vec::new();
        let mut rest = fields;
        let ghost mut done: Seq<ArrowField<T>> = Seq::empty();
        while rest.len() > 0
            invariant
                all =~= done + rest@,
                m == names_view(self.physical_to_logical),
                arrow_fields_view(out@) == arrow_fields_view(done).map_values(
                    |f: ArrowFieldView<T>| logical_field(f, m),
                ),
            decreases rest.len(),
        {
            let f = rest.remove(0);
            proof {
                let d2 = done.push(f);
                assert(d2.drop_last() =~= done);
                assert(arrow_fields_view(d2) == arrow_fields_view(done).push(f@));
                done = d2;
            }
            let ghost before = out@;
            let g = match self.physical_to_logical.get(f.name.as_str()) {
                Some(logical) => ArrowField {
                    name: logical.clone(),
                    data_type: f.data_type,
                    nullable: f.nullable,
                    metadata: StrMap::new(),
                },
                None => f,
            };
            proof {
                assert(names_view(g.metadata) =~= logical_field(f@, m).metadata);
                assert(g@ == logical_field(f@, m));
            }
            out.push(g);
            proof {
                assert(out@.drop_last() =~= before);
                assert(arrow_fields_view(out@) == arrow_fields_view(before).push(g@));
                assert(arrow_fields_view(done).drop_last() =~= arrow_fields_view(done.drop_last()));
                assert(arrow_fields_view(out@) =~= arrow_fields_view(done).map_values(
                    |f: ArrowFieldView<T>| logical_field(f, m),
                ));
            }
        }
        proof {
            assert(done =~= all);
        }
        out
    }
}

/// No table field holds a column that none of them holds.
proof fn lemma_first_holder_absent<T>(fs: Seq<ArrowFieldView<T>>, name: Seq<char>)
    requires
        forall|k: int| 0 <= k < fs.len() ==> !holds_column(#[trigger] fs[k], name),
    ensures
        first_holder(fs, name) is None,
    decreases fs.len(),
{
    if fs.len() > 0 {
        assert forall|k: int| 0 <= k < fs.len() - 1 implies !holds_column(#[trigger] fs.drop_last()[k], name) by {
            assert(fs.drop_last()[k] == fs[k]);
        }
        lemma_first_holder_absent(fs.drop_last(), name);
        assert(!holds_column(fs[fs.len() - 1], name));
    }
}

/// The first table field that holds a column is the one that holds it before all others.
proof fn lemma_first_holder_at<T>(fs: Seq<ArrowFieldView<T>>, name: Seq<char>, j: int)
    requires
        0 <= j < fs.len(),
        holds_column(fs[j], name),
        forall|k: int| 0 <= k < j ==> !holds_column(#[trigger] fs[k], name),
    ensures
        first_holder(fs, name) == Some(j),
{
    let pre = fs.subrange(0, j);
    assert forall|k: int| 0 <= k < pre.len() implies !holds_column(#[trigger] pre[k], name) by {
        assert(pre[k] == fs[k]);
    }
    lemma_first_holder_absent(pre, name);
    let t = fs.subrange(0, j + 1);
    assert(t.drop_last() =~= pre);
    assert(t.last() == fs[j]);
    lemma_first_holder_prefix(fs, name, j + 1);
}

/// Where every file column is held by the table field at its own position, all columns
/// are read, in order.
proof fn lemma_projection_all<T>(table: Seq<ArrowFieldView<T>>, file: Seq<ArrowFieldView<T>>)
    requires
        forall|j: int| 0 <= j < file.len() ==> first_holder(table, #[trigger] file[j].name) == Some(j),
    ensures
        projection_of(table, file) == Seq::new(file.len(), |i: int| i),
    decreases file.len(),
{
    if file.len() > 0 {
        let d = file.drop_last();
        assert forall|j: int| 0 <= j < d.len() implies first_holder(table, #[trigger] d[j].name) == Some(j) by {
            assert(d[j] == file[j]);
        }
        lemma_projection_all(table, d);
        assert(first_holder(table, file[file.len() - 1].name) == Some(file.len() - 1));
        assert(projection_of(table, file) =~= Seq::new(file.len(), |i: int| i));
    } else {
        assert(projection_of(table, file) =~= Seq::new(file.len(), |i: int| i));
    }
}

/// Where every file column is held by the table field at its own position under another
/// name, each is renamed to that field's name.
proof fn lemma_renames_all<T>(table: Seq<ArrowFieldView<T>>, file: Seq<ArrowFieldView<T>>)
    requires
        file.len() <= table.len(),
        forall|j: int| 0 <= j < file.len() ==> first_holder(table, #[trigger] file[j].name) == Some(j),
        forall|j: int| 0 <= j < file.len() ==> table[j].name != #[trigger] file[j].name,
    ensures
        renames_of(table, file) == Seq::new(file.len(), |j: int| (file[j].name, table[j].name)),
    decreases file.len(),
{
    if file.len() > 0 {
        let d = file.drop_last();
        assert forall|j: int| 0 <= j < d.len() implies first_holder(table, #[trigger] d[j].name) == Some(j) by {
            assert(d[j] == file[j]);
        }
        assert forall|j: int| 0 <= j < d.len() implies table[j].name != #[trigger] d[j].name by {
            assert(d[j] == file[j]);
        }
        lemma_renames_all(table, d);
        let k = file.len() - 1;
        assert(first_holder(table, file[k].name) == Some(k));
        assert(table[k].name != file[k].name);
        assert(renames_of(table, file) =~= Seq::new(file.len(), |j: int| (file[j].name, table[j].name)));
    } else {
        assert(renames_of(table, file) =~= Seq::new(file.len(), |j: int| (file[j].name, table[j].name)));
    }
}

/// Inserting pairs in order, a key that no later pair has keeps the value of its pair.
proof fn lemma_insert_pairs_last(m: Map<Seq<char>, Seq<char>>, ps: Seq<(Seq<char>, Seq<char>)>, j: int)
    requires
        0 <= j < ps.len(),
        forall|l: int| j < l < ps.len() ==> #[trigger] ps[l].0 != ps[j].0,
    ensures
        insert_pairs(m, ps).contains_key(ps[j].0),
        insert_pairs(m, ps)[ps[j].0] == ps[j].1,
    decreases ps.len(),
{
    if j < ps.len() - 1 {
        let d = ps.drop_last();
        assert forall|l: int| j < l < d.len() implies #[trigger] d[l].0 != d[j].0 by {
            assert(d[l] == ps[l]);
            assert(d[j] == ps[j]);
        }
        lemma_insert_pairs_last(m, d, j);
        assert(d[j] == ps[j]);
        assert(ps.last().0 != ps[j].0);
    }
}

/// A column written under its physical name is read back under its table name: where
/// every top-level field of the table has a physical name, the writer's mapping gives
/// each field that name, the names and the physical names are distinct, and no physical
/// name is a table name, a file written with physical names is read in full, in order,
/// and each of its columns is renamed to the name of the table field it was written from.
pub proof fn law_physical_names_read_back<T>(table: Seq<ArrowFieldView<T>>, m: Map<Seq<char>, Seq<char>>)
    requires
        forall|i: int|
            0 <= i < table.len() ==> m.contains_key(#[trigger] table[i].name) && recorded_physical_name(table[i])
                == Some(m[table[i].name]),
        forall|i: int, j: int| 0 <= i < j < table.len() ==> #[trigger] table[i].name != #[trigger] table[j].name,
        forall|i: int, j: int|
            0 <= i < table.len() && 0 <= j < table.len() && i != j ==> #[trigger] m[table[i].name] != #[trigger] m[table[j].name],
        forall|i: int, j: int|
            0 <= i < table.len() && 0 <= j < table.len() ==> #[trigger] m[table[i].name] != #[trigger] table[j].name,
    ensures
        projection_of(table, physical_fields(table, m)) == Seq::new(table.len(), |i: int| i),
        forall|i: int|
            0 <= i < table.len() ==> (#[trigger] logical_field(
                physical_fields(table, m)[i],
                insert_pairs(Map::empty(), renames_of(table, physical_fields(table, m))),
            )).name == table[i].name,
{
    let file = physical_fields(table, m);
    lemma_physical_fields_index(table, m);
    assert forall|j: int| 0 <= j < file.len() implies first_holder(table, #[trigger] file[j].name) == Some(j) by {
        assert(file[j].name == m[table[j].name]);
        assert forall|k: int| 0 <= k < j implies !holds_column(#[trigger] table[k], file[j].name) by {
            assert(m[table[k].name] != m[table[j].name]);
            assert(m[table[j].name] != table[k].name);
        }
        lemma_first_holder_at(table, file[j].name, j);
    }
    assert forall|j: int| 0 <= j < file.len() implies table[j].name != #[trigger] file[j].name by {
        assert(m[table[j].name] != table[j].name);
    }
    lemma_projection_all(table, file);
    lemma_renames_all(table, file);
    let ps = Seq::new(file.len(), |j: int| (file[j].name, table[j].name));
    assert forall|i: int| 0 <= i < table.len() implies (#[trigger] logical_field(
        file[i],
        insert_pairs(Map::empty(), renames_of(table, file)),
    )).name == table[i].name by {
        assert forall|l: int| i < l < ps.len() implies #[trigger] ps[l].0 != ps[i].0 by {
            assert(m[table[l].name] != m[table[i].name]);
        }
        lemma_insert_pairs_last(Map::empty(), ps, i);
    }
}

/// The positions in a projection are positions of the file's columns.
proof fn lemma_projection_range<T>(table: Seq<ArrowFieldView<T>>, file: Seq<ArrowFieldView<T>>)
    ensures
        forall|k: int| 0 <= k < projection_of(table, file).len() ==> 0 <= #[trigger] projection_of(table, file)[k] < file.len(),
    decreases file.len(),
{
    if file.len() > 0 {
        let rest = projection_of(table, file.drop_last());
        lemma_projection_range(table, file.drop_last());
        assert forall|k: int| 0 <= k < rest.len() implies #[trigger] projection_of(table, file)[k] == rest[k] by {}
    }
}

/// A projection holds a file column's position exactly when a table field holds it.
proof fn lemma_projection_contains<T>(table: Seq<ArrowFieldView<T>>, file: Seq<ArrowFieldView<T>>, j: int)
    requires
        0 <= j < file.len(),
    ensures
        projection_of(table, file).contains(j) <==> first_holder(table, file[j].name) is Some,
    decreases file.len(),
{
    let d = file.drop_last();
    let rest = projection_of(table, d);
    lemma_projection_range(table, d);
    if j < file.len() - 1 {
        lemma_projection_contains(table, d, j);
        assert(d[j] == file[j]);
        if projection_of(table, file).contains(j) {
            let k = choose|k: int| 0 <= k < projection_of(table, file).len() && projection_of(table, file)[k] == j;
            if k < rest.len() {
                assert(rest[k] == j);
            }
        }
        if rest.contains(j) {
            let k = choose|k: int| 0 <= k < rest.len() && rest[k] == j;
            assert(projection_of(table, file)[k] == j);
        }
    } else {
        if rest.contains(j) {
            let k = choose|k: int| 0 <= k < rest.len() && rest[k] == j;
            assert(rest[k] < d.len());
        }
        if first_holder(table, file[j].name) is Some {
            assert(projection_of(table, file)[rest.len() as int] == j);
        }
    }
}

/// Whether a table field bears the name `n`, as its own name or as the physical name
/// that its metadata records.
pub open spec fn bears_name<T>(f: ArrowFieldView<T>, n: Seq<char>) -> bool {
    f.name == n || (f.metadata.contains_key(physical_name_key()) && f.metadata[physical_name_key()] == n)
}

/// A file column is read exactly when some table field bears its name, as its own name
/// or as its recorded physical name: a column that a table field names by its logical
/// name is read whether or not that field has a physical name.
pub proof fn law_projection_reads_named_columns<T>(table: Seq<ArrowFieldView<T>>, file: Seq<ArrowFieldView<T>>, j: int)
    requires
        0 <= j < file.len(),
    ensures
        projection_of(table, file).contains(j) <==> exists|i: int| 0 <= i < table.len() && #[trigger] bears_name(table[i], file[j].name),
{
    let n = file[j].name;
    lemma_projection_contains(table, file, j);
    lemma_first_holder_range(table, n);
    if exists|i: int| 0 <= i < table.len() && #[trigger] bears_name(table[i], n) {
        let i = choose|i: int| 0 <= i < table.len() && #[trigger] bears_name(table[i], n);
        if first_holder(table, n) is None {
            lemma_first_holder_none(table, n, i);
        }
    }
    if first_holder(table, n) is Some {
        let i = first_holder(table, n)->0;
        assert(bears_name(table[i], n));
    }
}

/// Where no table field is found to hold a column, none does.
proof fn lemma_first_holder_none<T>(fs: Seq<ArrowFieldView<T>>, name: Seq<char>, i: int)
    requires
        0 <= i < fs.len(),
        first_holder(fs, name) is None,
    ensures
        !holds_column(fs[i], name),
    decreases fs.len(),
{
    if i < fs.len() - 1 {
        assert(fs.drop_last()[i] == fs[i]);
        lemma_first_holder_none(fs.drop_last(), name, i);
    }
}

} // verus!
