use vstd::prelude::*;

use crate::json::{get_nested_string, nested_string, parse_json, spec_parse_json, JsonValue, JsonView};
use crate::schema::{
    fields_view, lemma_fields_view_index, lemma_fields_view_len, metadata_view, DataType,
    FieldView, MetaView, MetadataValue, StructField, TypeView,
};

verus! {

/// The outside error type of JSON parsing.
#[verifier::external_type_specification]
#[verifier::external_body]
pub struct ExJsonError(serde_json::Error);

/// Errors of the schema helpers.
#[derive(Debug)]
pub enum KernelError {
    /// A field's invariant metadata is not valid JSON.
    InvalidInvariantJson { json_err: serde_json::Error, line: String },
    /// A struct could not be built from its fields.
    Schema(crate::schema::SchemaError),
}

/// The metadata key of a field's invariant.
pub open spec fn invariants_key() -> Seq<char> {
    "delta.invariants"@
}

/// The metadata key of a generated column's expression.
pub open spec fn generation_expression_key() -> Seq<char> {
    "delta.generationExpression"@
}

/// An invariant for a column that is enforced on all writes to a Delta table.
#[derive(Debug, Clone, Default, PartialEq, Eq)]
pub struct Invariant {
    /// The full path to the field.
    pub field_name: String,
    /// The SQL string that must always evaluate to true.
    pub invariant_sql: String,
}

impl Invariant {
    /// Create a new invariant.
    pub fn new(field_name: &str, invariant_sql: &str) -> (r: Self)
        ensures
            r.field_name@ == field_name@,
            r.invariant_sql@ == invariant_sql@,
    {
        Invariant { field_name: field_name.to_string(), invariant_sql: invariant_sql.to_string() }
    }

    /// The path of the field that the invariant constrains.
    pub fn get_name(&self) -> (r: &str)
        ensures
            r@ == self.field_name@,
    {
        self.field_name.as_str()
    }

    /// The SQL expression that must hold.
    pub fn get_expression(&self) -> (r: &str)
        ensures
            r@ == self.invariant_sql@,
    {
        self.invariant_sql.as_str()
    }
}

/// A column whose values a SQL expression generates.
#[derive(Debug)]
pub struct GeneratedColumn {
    /// The name of the column.
    pub name: String,
    /// The SQL expression that generates the column.
    pub generation_expr: String,
    /// The check that a written value agrees with the expression.
    pub validation_expr: String,
    /// The type of the column.
    pub data_type: DataType,
}

/// The check of a generated column: `<name> <=> <expression>`.
pub open spec fn validation_text(name: Seq<char>, expr: Seq<char>) -> Seq<char> {
    name + " <=> "@ + expr
}

impl GeneratedColumn {
    /// A generated column named `field_name`, generated by `sql_generation`.
    pub fn new(field_name: &str, sql_generation: &str, data_type: &DataType) -> (r: Self)
        ensures
            r.name@ == field_name@,
            r.generation_expr@ == sql_generation@,
            r.validation_expr@ == validation_text(field_name@, sql_generation@),
            r.data_type@ == data_type@,
    {
        let mut validation = field_name.to_string();
        validation.append(" <=> ");
        validation.append(sql_generation);
        GeneratedColumn {
            name: field_name.to_string(),
            generation_expr: sql_generation.to_string(),
            validation_expr: validation,
            data_type: data_type.clone(),
        }
    }

    /// The name of the column.
    pub fn get_name(&self) -> (r: &str)
        ensures
            r@ == self.name@,
    {
        self.name.as_str()
    }

    /// The check that written values must pass.
    pub fn get_expression(&self) -> (r: &str)
        ensures
            r@ == self.validation_expr@,
    {
        self.validation_expr.as_str()
    }

    /// The expression that generates the column.
    pub fn get_generation_expression(&self) -> (r: &str)
        ensures
            r@ == self.generation_expr@,
    {
        self.generation_expr.as_str()
    }
}

/// The generated columns among the top-level fields, last field first: for each field
/// whose metadata holds a string expression, its name, expression and type.
pub open spec fn generated_columns_of(fs: Seq<FieldView>) -> Seq<(Seq<char>, Seq<char>, TypeView)>
    decreases fs.len(),
{
    if fs.len() == 0 {
        Seq::empty()
    } else {
        let f = fs.last();
        let rest = generated_columns_of(fs.drop_last());
        match f.metadata.get(generation_expression_key()) {
            Some(MetaView::Str(e)) => seq![(f.name, e, f.data_type)] + rest,
            _ => rest,
        }
    }
}

/// What a list of generated columns denotes.
pub open spec fn generated_view(cols: Seq<GeneratedColumn>) -> Seq<(Seq<char>, Seq<char>, TypeView)> {
    cols.map_values(|c: GeneratedColumn| (c.name@, c.generation_expr@, c.data_type@))
}


/// The path of a nested field: `segment` below `prefix`, joined with a dot.
pub open spec fn join_path(prefix: Seq<char>, segment: Seq<char>) -> Seq<char> {
    if prefix.len() == 0 {
        segment
    } else {
        prefix + "."@ + segment
    }
}

/// A node that the invariant walk visits: the path of a field and its metadata.
pub struct Visit {
    pub path: Seq<char>,
    pub metadata: Map<Seq<char>, MetaView>,
}

/// The nodes that the walk visits for the fields `fs` below `prefix`: the last field
/// first, each followed by what lies below it.
pub open spec fn visits_of_fields(prefix: Seq<char>, fs: Seq<FieldView>) -> Seq<Visit>
    decreases fs, 0int,
{
    if fs.len() == 0 {
        Seq::empty()
    } else {
        let f = fs.last();
        let p = join_path(prefix, f.name);
        seq![Visit { path: p, metadata: f.metadata }] + visits_of_type(p, f.data_type)
            + visits_of_fields(prefix, fs.drop_last())
    }
}

/// The nodes below a field at `path` of type `t`: the fields of a struct, the element of
/// an array, the value and then the key of a map. The element, key and value nodes
/// carry no metadata.
pub open spec fn visits_of_type(path: Seq<char>, t: TypeView) -> Seq<Visit>
    decreases t, 1int,
{
    match t {
        TypeView::Struct(fs) => visits_of_fields(path, fs),
        TypeView::Array(e, _) => visits_of_node(join_path(path, "element"@), *e),
        TypeView::MapOf(k, v, _) => visits_of_node(join_path(path, "value"@), *v) + visits_of_node(
            join_path(path, "key"@),
            *k,
        ),
        TypeView::Primitive(_) => Seq::empty(),
    }
}

/// A node without metadata at `path`, and what lies below it.
pub open spec fn visits_of_node(path: Seq<char>, t: TypeView) -> Seq<Visit>
    decreases t, 2int,
{
    seq![Visit { path, metadata: Map::empty() }] + visits_of_type(path, t)
}

/// The invariants found along the visits, in order, or the text of the first invariant
/// that is not valid JSON. A node's invariant is the member `expression` of the member
/// `expression` of its JSON metadata; a node whose JSON has none contributes nothing.
pub open spec fn invariants_of(visits: Seq<Visit>) -> Result<Seq<(Seq<char>, Seq<char>)>, Seq<char>>
    decreases visits.len(),
{
    if visits.len() == 0 {
        Ok(Seq::empty())
    } else {
        let v = visits[0];
        let rest = invariants_of(visits.skip(1));
        match v.metadata.get(invariants_key()) {
            Some(MetaView::Str(text)) => match spec_parse_json(text) {
                None => Err(text),
                Some(json) => match nested_string(json, "expression"@) {
                    Some(sql) => match rest {
                        Ok(r) => Ok(seq![(v.path, sql)] + r),
                        Err(e) => Err(e),
                    },
                    None => rest,
                },
            },
            _ => rest,
        }
    }
}

/// What a list of invariants denotes.
pub open spec fn invariants_view(invs: Seq<Invariant>) -> Seq<(Seq<char>, Seq<char>)> {
    invs.map_values(|i: Invariant| (i.field_name@, i.invariant_sql@))
}

/// `invariants_of` over two lists of visits one after the other.
pub proof fn lemma_invariants_of_concat(a: Seq<Visit>, b: Seq<Visit>)
    ensures
        invariants_of(a + b) == match invariants_of(a) {
            Ok(x) => match invariants_of(b) {
                Ok(y) => Ok(x + y),
                Err(e) => Err(e),
            },
            Err(e) => Err(e),
        },
    decreases a.len(),
{
    if a.len() == 0 {
        assert(a + b =~= b);
    } else {
        assert((a + b).skip(1) =~= a.skip(1) + b);
        assert((a + b)[0] == a[0]);
        lemma_invariants_of_concat(a.skip(1), b);
        match invariants_of(a.skip(1)) {
            Ok(x) => match invariants_of(b) {
                Ok(y) => {
                    let v = a[0];
                    match v.metadata.get(invariants_key()) {
                        Some(MetaView::Str(text)) => {
                            if let Some(json) = spec_parse_json(text) {
                                if let Some(sql) = nested_string(json, "expression"@) {
                                    assert(seq![(v.path, sql)] + (x + y) =~= (seq![(v.path, sql)] + x) + y);
                                }
                            }
                        },
                        _ => {},
                    }
                },
                Err(e) => {},
            },
            Err(e) => {},
        }
    }
}

/// The dotted path of a field named `name` below `prefix`, written out.
pub open spec fn dotted(prefix: Seq<char>, name: Seq<char>) -> Seq<char> {
    if prefix.len() == 0 {
        name
    } else {
        prefix + seq!['.'] + name
    }
}

/// The walk visits every field at its full dotted path, the path of the struct that
/// holds it, a dot, and its name (its name alone at the top): each field is visited
/// with its own metadata at `prefix.name`, and every node below a struct field is
/// visited as the walk of that struct's fields below `prefix.name` visits it.
pub proof fn law_visit_paths(prefix: Seq<char>, fs: Seq<FieldView>, i: int)
    requires
        0 <= i < fs.len(),
    ensures
        visits_of_fields(prefix, fs).contains(Visit { path: dotted(prefix, fs[i].name), metadata: fs[i].metadata }),
        fs[i].data_type is Struct ==> forall|v: Visit|
            #[trigger] visits_of_fields(dotted(prefix, fs[i].name), fs[i].data_type->Struct_0).contains(v)
                ==> visits_of_fields(prefix, fs).contains(v),
    decreases fs.len(),
{
    reveal_strlit(".");
    let d = fs.drop_last();
    let f = fs.last();
    let p = join_path(prefix, f.name);
    assert(p == dotted(prefix, f.name)) by {
        if prefix.len() != 0 {
            assert("."@ =~= seq!['.']);
        }
    }
    let node = seq![Visit { path: p, metadata: f.metadata }];
    let below = visits_of_type(p, f.data_type);
    let rest = visits_of_fields(prefix, d);
    let all = visits_of_fields(prefix, fs);
    assert(all == node + below + rest);
    if i < fs.len() - 1 {
        assert(d[i] == fs[i]);
        law_visit_paths(prefix, d, i);
        assert forall|v: Visit| rest.contains(v) implies all.contains(v) by {
            let k = choose|k: int| 0 <= k < rest.len() && rest[k] == v;
            assert(all[node.len() + below.len() + k] == v);
        }
    } else {
        assert(all[0] == node[0]);
        if f.data_type is Struct {
            assert forall|v: Visit| #[trigger] visits_of_fields(p, f.data_type->Struct_0).contains(v) implies all.contains(v) by {
                let k = choose|k: int| 0 <= k < below.len() && below[k] == v;
                assert(all[node.len() + k] == v);
            }
        }
    }
}

/// Where the walk finds the invariants of its nodes, every node whose invariant
/// metadata holds an expression gives an invariant at that node's path.
pub proof fn law_every_invariant_found(visits: Seq<Visit>, k: int, text: Seq<char>, json: JsonView, sql: Seq<char>)
    requires
        0 <= k < visits.len(),
        invariants_of(visits) is Ok,
        visits[k].metadata.get(invariants_key()) == Some(MetaView::Str(text)),
        spec_parse_json(text) == Some(json),
        nested_string(json, "expression"@) == Some(sql),
    ensures
        invariants_of(visits)->Ok_0.contains((visits[k].path, sql)),
    decreases visits.len(),
{
    let rest = invariants_of(visits.skip(1));
    if k == 0 {
        assert(invariants_of(visits)->Ok_0[0] == (visits[0].path, sql));
    } else {
        assert(visits.skip(1)[k - 1] == visits[k]);
        let v = visits[0];
        match v.metadata.get(invariants_key()) {
            Some(MetaView::Str(t)) => match spec_parse_json(t) {
                None => {},
                Some(j) => match nested_string(j, "expression"@) {
                    Some(q) => {
                        assert(rest is Ok);
                        law_every_invariant_found(visits.skip(1), k - 1, text, json, sql);
                        let x = rest->Ok_0;
                        let m = choose|m: int| 0 <= m < x.len() && x[m] == (visits[k].path, sql);
                        assert(invariants_of(visits)->Ok_0[m + 1] == x[m]);
                    },
                    None => {
                        law_every_invariant_found(visits.skip(1), k - 1, text, json, sql);
                    },
                },
            },
            _ => {
                law_every_invariant_found(visits.skip(1), k - 1, text, json, sql);
            },
        }
    }
}

/// Builds `prefix.segment`, or `segment` where the prefix is empty.
fn add_segment(prefix: &str, segment: &str) -> (r: String)
    ensures
        r@ == join_path(prefix@, segment@),
{
    if prefix.unicode_len() == 0 {
        segment.to_string()
    } else {
        let mut r = prefix.to_string();
        r.append(".");
        r.append(segment);
        r
    }
}

/// Whether a walk that left `before` as `after` and returned `r` did what `expected` says:
/// appended its invariants, or failed with the text of the first bad one.
pub open spec fn walk_result(
    before: Seq<Invariant>,
    after: Seq<Invariant>,
    r: Result<(), KernelError>,
    expected: Result<Seq<(Seq<char>, Seq<char>)>, Seq<char>>,
) -> bool {
    match expected {
        Ok(x) => r is Ok && invariants_view(after) == invariants_view(before) + x,
        Err(e) => r matches Err(KernelError::InvalidInvariantJson { line, .. }) && line@ == e,
    }
}

/// The invariant of the node at `path` whose invariant metadata is `line`, given what
/// reading `line` as JSON gave: the string at member `expression` of member
/// `expression`, nothing where there is none, or the reading's error.
pub fn invariant_of_node(path: &String, line: &String, parsed: Result<JsonValue, serde_json::Error>) -> (r:
    Result<Option<Invariant>, KernelError>)
    ensures
        match parsed {
            Ok(j) => match nested_string(j@, "expression"@) {
                Some(sql) => r matches Ok(Some(inv)) && inv.field_name@ == path@ && inv.invariant_sql@ == sql,
                None => r matches Ok(None),
            },
            Err(_) => r matches Err(KernelError::InvalidInvariantJson { line: l, .. }) && l@ == line@,
        },
{
    match parsed {
        Ok(j) => match get_nested_string(&j, "expression") {
            Some(sql) => Ok(Some(Invariant { field_name: path.clone(), invariant_sql: sql.clone() })),
            None => Ok(None),
        },
        Err(json_err) => Err(KernelError::InvalidInvariantJson { json_err, line: line.clone() }),
    }
}

/// Checks the node at `path` with `metadata`, appending its invariant to `out`.
fn check_node(
    path: &String,
    metadata: &crate::strmap::StrMap<MetadataValue>,
    out: &mut Vec<Invariant>,
) -> (r: Result<(), KernelError>)
    ensures
        ({
            let v = Visit { path: path@, metadata: metadata_view(*metadata) };
            match invariants_of(seq![v]) {
                Ok(x) => r is Ok && invariants_view(final(out)@) == invariants_view(old(out)@) + x,
                Err(e) => r matches Err(KernelError::InvalidInvariantJson { line, .. }) && line@ == e,
            }
        }),
{
    let ghost v = Visit { path: path@, metadata: metadata_view(*metadata) };
    proof {
        assert(seq![v].skip(1) =~= Seq::<Visit>::empty());
        assert(invariants_of(Seq::<Visit>::empty()) == Ok::<Seq<(Seq<char>, Seq<char>)>, Seq<char>>(Seq::empty()));
    }
    let got = metadata.get("delta.invariants");
    proof {
        assert(v.metadata.get(invariants_key()) == match got {
            Some(x) => Some(x@),
            None => None::<MetaView>,
        });
    }
    match got {
        Some(MetadataValue::String(text)) => {
            let parsed = parse_json(text.as_str());
            match invariant_of_node(path, text, parsed) {
                Ok(Some(inv)) => {
                    let ghost before = out@;
                    out.push(inv);
                    proof {
                        assert(invariants_view(out@) =~= invariants_view(before) + seq![(inv.field_name@, inv.invariant_sql@)]);
                    }
                    Ok(())
                },
                Ok(None) => {
                    assert(invariants_view(out@) =~= invariants_view(old(out)@) + Seq::<(Seq<char>, Seq<char>)>::empty());
                    Ok(())
                },
                Err(e) => Err(e),
            }
        },
        _ => {
            assert(invariants_view(out@) =~= invariants_view(old(out)@) + Seq::<(Seq<char>, Seq<char>)>::empty());
            Ok(())
        },
    }
}


proof fn lemma_walk_step(
    a: Seq<Invariant>,
    b: Seq<Invariant>,
    c: Seq<Invariant>,
    r1: Result<(), KernelError>,
    r2: Result<(), KernelError>,
    v1: Seq<Visit>,
    v2: Seq<Visit>,
)
    requires
        walk_result(a, b, r1, invariants_of(v1)),
        r1 is Ok ==> walk_result(b, c, r2, invariants_of(v2)),
    ensures
        r1 is Ok ==> walk_result(a, c, r2, invariants_of(v1 + v2)),
        r1 is Err ==> walk_result(a, b, r1, invariants_of(v1 + v2)),
{
    lemma_invariants_of_concat(v1, v2);
    match invariants_of(v1) {
        Ok(x) => match invariants_of(v2) {
            Ok(y) => {
                assert(invariants_view(c) =~= invariants_view(a) + (x + y));
            },
            Err(e) => {},
        },
        Err(e) => {},
    }
}

/// Walks the fields of a struct below `prefix`, last field first.
pub(crate) fn walk_fields(prefix: &String, fields: &Vec<StructField>, out: &mut Vec<Invariant>) -> (r: Result<(), KernelError>)
    ensures
        walk_result(old(out)@, final(out)@, r, invariants_of(visits_of_fields(prefix@, fields_view(fields@)))),
    decreases fields, 0int,
{
    let ghost fv = fields_view(fields@);
    let ghost start = out@;
    let mut i = fields.len();
    proof {
        lemma_fields_view_len(fields@);
        assert(fv.subrange(0, i as int) =~= fv);
        assert(invariants_view(out@) =~= invariants_view(start) + Seq::<(Seq<char>, Seq<char>)>::empty());
    }
    let ghost mut done: Seq<Visit> = Seq::empty();
    while i > 0
        invariant
            i <= fields@.len(),
            fv == fields_view(fields@),
            fv.len() == fields@.len(),
            visits_of_fields(prefix@, fv) == done + visits_of_fields(prefix@, fv.subrange(0, i as int)),
            invariants_of(done) matches Ok(x) && invariants_view(out@) == invariants_view(start) + x,
        decreases i,
    {
        let ghost sub = fv.subrange(0, i as int);
        proof {
            lemma_fields_view_index(fields@, i - 1);
            assert(sub.drop_last() =~= fv.subrange(0, i - 1));
            assert(decreases_to!(*fields => fields@));
            assert(decreases_to!(fields@ => fields@[i - 1]));
            assert(decreases_to!(fields@[i - 1] => fields@[i - 1].data_type));
        }
        let f = &fields[i - 1];
        let path = add_segment(prefix.as_str(), f.name.as_str());
        let ghost node = seq![Visit { path: path@, metadata: metadata_view(f.metadata) }];
        let ghost below = visits_of_type(path@, f.data_type@);
        let ghost out0 = out@;
        let r1 = check_node(&path, &f.metadata, out);
        let ghost out1 = out@;
        proof {
            assert(Visit { path: path@, metadata: metadata_view(f.metadata) } == node[0]);
            lemma_walk_step(start, out0, out1, Ok(()), r1, done, node);
        }
        if r1.is_err() {
            proof {
                lemma_invariants_of_concat(done + node, below + visits_of_fields(prefix@, fv.subrange(0, i - 1)));
                assert(visits_of_fields(prefix@, fv) =~= (done + node) + (below + visits_of_fields(prefix@, fv.subrange(0, i - 1))));
            }
            return r1;
        }
        let r2 = walk_type(&path, &f.data_type, out);
        proof {
            lemma_walk_step(start, out1, out@, Ok(()), r2, done + node, below);
            assert(visits_of_fields(prefix@, fv) =~= (done + node + below) + visits_of_fields(prefix@, fv.subrange(0, i - 1)));
        }
        if r2.is_err() {
            proof {
                lemma_invariants_of_concat(done + node + below, visits_of_fields(prefix@, fv.subrange(0, i - 1)));
            }
            return r2;
        }
        proof {
            done = done + node + below;
        }
        i = i - 1;
    }
    proof {
        assert(fv.subrange(0, 0) =~= Seq::<FieldView>::empty());
        assert(done + Seq::<Visit>::empty() =~= done);
    }
    Ok(())
}

/// Walks what lies below a field at `path` of type `t`.
fn walk_type(path: &String, t: &DataType, out: &mut Vec<Invariant>) -> (r: Result<(), KernelError>)
    ensures
        walk_result(old(out)@, final(out)@, r, invariants_of(visits_of_type(path@, t@))),
    decreases t, 1int,
{
    match t {
        DataType::Struct(s) => {
            proof {
                assert(decreases_to!(*t => s.fields));
            }
            walk_fields(path, &s.fields, out)
        },
        DataType::Array(a) => {
            let p = add_segment(path.as_str(), "element");
            walk_node(&p, &a.element_type, out)
        },
        DataType::MapOf(m) => {
            let pv = add_segment(path.as_str(), "value");
            let pk = add_segment(path.as_str(), "key");
            let ghost out0 = out@;
            let r1 = walk_node(&pv, &m.value_type, out);
            if r1.is_err() {
                proof {
                    lemma_invariants_of_concat(visits_of_node(pv@, m.value_type@), visits_of_node(pk@, m.key_type@));
                }
                return r1;
            }
            let ghost out1 = out@;
            let r2 = walk_node(&pk, &m.key_type, out);
            proof {
                lemma_walk_step(out0, out1, out@, r1, r2, visits_of_node(pv@, m.value_type@), visits_of_node(pk@, m.key_type@));
            }
            r2
        },
        DataType::Primitive(_) => {
            assert(invariants_view(out@) =~= invariants_view(old(out)@) + Seq::<(Seq<char>, Seq<char>)>::empty());
            Ok(())
        },
    }
}

/// Walks a node without metadata at `path` of type `t`.
fn walk_node(path: &String, t: &DataType, out: &mut Vec<Invariant>) -> (r: Result<(), KernelError>)
    ensures
        walk_result(old(out)@, final(out)@, r, invariants_of(visits_of_node(path@, t@))),
    decreases t, 2int,
{
    let ghost node = seq![Visit { path: path@, metadata: Map::empty() }];
    proof {
        assert(node.skip(1) =~= Seq::<Visit>::empty());
        assert(invariants_of(Seq::<Visit>::empty()) == Ok::<Seq<(Seq<char>, Seq<char>)>, Seq<char>>(Seq::empty()));
        assert(node[0].metadata.get(invariants_key()) is None);
        assert(invariants_of(node) == Ok::<Seq<(Seq<char>, Seq<char>)>, Seq<char>>(Seq::empty()));
        lemma_invariants_of_concat(node, visits_of_type(path@, t@));
        assert(Seq::<(Seq<char>, Seq<char>)>::empty() + Seq::<(Seq<char>, Seq<char>)>::empty() =~= Seq::<(Seq<char>, Seq<char>)>::empty());
    }
    let r = walk_type(path, t, out);
    proof {
        match invariants_of(visits_of_type(path@, t@)) {
            Ok(y) => {
                assert(Seq::<(Seq<char>, Seq<char>)>::empty() + y =~= y);
            },
            Err(e) => {},
        }
    }
    r
}

} // verus!
