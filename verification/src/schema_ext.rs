use vstd::prelude::*;

use crate::column_mapping::{
    annotatable_fields, annotate_struct, annotated_count_fields, annotated_fields,
    collect_mappings, count_annotated_fields, insert_pairs, names_view, physical_pairs_fields,
};
use crate::constraints::{
    generated_columns_of, generated_view, generation_expression_key, invariants_of,
    invariants_view, validation_text, visits_of_fields, walk_fields, GeneratedColumn, Invariant,
    KernelError,
};
use crate::schema::{
    field_view, fields_view, lemma_fields_view_len, MetadataValue, StructField, StructType,
};
use crate::strmap::StrMap;

verus! {

/// Convenience functions on a struct type.
pub trait StructTypeExt {
    /// Whether the ids that column mapping hands out to all fields fit in an `i64`.
    spec fn mapping_ids_fit(&self) -> bool;

    /// The number of fields, nested ones included, that column mapping gives an id.
    spec fn mapping_field_count(&self) -> nat;

    /// All invariants in the schema.
    fn get_invariants(&self) -> Result<Vec<Invariant>, KernelError>;

    /// All generated column expressions.
    fn get_generated_columns(&self) -> Result<Vec<GeneratedColumn>, KernelError>;

    /// The number of fields, nested ones included, that column mapping gives an id.
    fn column_mapping_field_count(&self) -> u64
        requires
            self.mapping_ids_fit(),
    ;

    /// The schema with column mapping metadata added to all fields: physical names from
    /// UUIDs made of the random numbers `random`, one for each field in turn, and ids
    /// numbered in order. `random` holds at least `column_mapping_field_count` numbers.
    fn with_column_mapping_metadata(&self, random: &Vec<u128>) -> Result<StructType, KernelError>
        requires
            self.mapping_ids_fit(),
            self.mapping_field_count() <= random@.len(),
    ;

    /// The physical name of each logical column name that column mapping renames.
    fn get_logical_to_physical_mapping(&self) -> StrMap<String>;
}

impl StructTypeExt for StructType {
    open spec fn mapping_ids_fit(&self) -> bool {
        1 + annotated_count_fields(self@) <= i64::MAX
    }

    open spec fn mapping_field_count(&self) -> nat {
        annotated_count_fields(self@)
    }

    /// The invariants of all fields, nested ones included, in the order the walk finds
    /// them; refused at the first invariant that is not JSON.
    fn get_invariants(&self) -> (r: Result<Vec<Invariant>, KernelError>)
        ensures
            match invariants_of(visits_of_fields(Seq::empty(), self@)) {
                Ok(x) => r matches Ok(v) && invariants_view(v@) == x,
                Err(e) => r matches Err(KernelError::InvalidInvariantJson { line, .. }) && line@ == e,
            },
    {
        let mut out: Vec<Invariant> = Vec::new();
        let prefix = String::new();
        let r = walk_fields(&prefix, &self.fields, &mut out);
        match r {
            Ok(()) => {
                proof {
                    match invariants_of(visits_of_fields(Seq::empty(), self@)) {
                        Ok(x) => {
                            assert(invariants_view(Seq::<Invariant>::empty()) + x =~= x);
                        },
                        Err(e) => {},
                    }
                }
                Ok(out)
            },
            Err(e) => Err(e),
        }
    }

    /// The generated columns among the top-level fields, last field first.
    fn get_generated_columns(&self) -> (r: Result<Vec<GeneratedColumn>, KernelError>)
        ensures
            r matches Ok(v) && generated_view(v@) == generated_columns_of(self@) && forall|i: int|
                0 <= i < v@.len() ==> #[trigger] v@[i].validation_expr@ == validation_text(
                    v@[i].name@,
                    v@[i].generation_expr@,
                ),
    {
        let mut cols: Vec<GeneratedColumn> = Vec::new();
        let mut i = self.fields.len();
        let key = "delta.generationExpression";
        proof {
            lemma_fields_view_len(self.fields@);
            assert(self.fields@.subrange(0, i as int) =~= self.fields@);
        }
        while i > 0
            invariant
                i <= self.fields@.len(),
                key@ == generation_expression_key(),
                generated_view(cols@) + generated_columns_of(fields_view(self.fields@.subrange(0, i as int)))
                    == generated_columns_of(self@),
                forall|k: int| 0 <= k < cols@.len() ==> #[trigger] cols@[k].validation_expr@ == validation_text(
                    cols@[k].name@,
                    cols@[k].generation_expr@,
                ),
            decreases i,
        {
            let ghost sub = self.fields@.subrange(0, i as int);
            proof {
                assert(sub.drop_last() =~= self.fields@.subrange(0, i - 1));
                assert(sub.last() == self.fields@[i - 1]);
                assert(fields_view(sub).drop_last() =~= fields_view(sub.drop_last()));
            }
            let field = &self.fields[i - 1];
            let ghost old_cols = cols@;
            match field.metadata.get(key) {
                Some(MetadataValue::String(expr)) => {
                    let col = GeneratedColumn::new(field.name.as_str(), expr.as_str(), &field.data_type);
                    cols.push(col);
                    proof {
                        assert(generated_view(cols@) =~= generated_view(old_cols) + seq![
                            (field.name@, expr@, field.data_type@),
                        ]);
                    }
                },
                _ => {},
            }
            proof {
                assert(fields_view(sub).last() == field_view(*field));
            }
            i = i - 1;
        }
        proof {
            assert(self.fields@.subrange(0, 0) =~= Seq::<StructField>::empty());
            assert(generated_view(cols@) =~= generated_columns_of(self@));
        }
        Ok(cols)
    }

    /// Every field, nested ones included, gets a physical name `col-<uuid>` and an id,
    /// numbered from 1 in pre-order, the UUID of the field with id `k` made of
    /// `random[k - 1]`; refused where a nested struct would hold two names
    /// that are equal when lower-cased.
    fn with_column_mapping_metadata(&self, random: &Vec<u128>) -> (r: Result<StructType, KernelError>)
        ensures
            match r {
                Ok(s) => s.well_formed() && annotated_fields(self@, s@, 1, random@) && annotatable_fields(self@),
                Err(e) => !annotatable_fields(self@) && e is Schema,
            },
    {
        let mut counter: i64 = 1;
        annotate_struct(&self.fields, &mut counter, random)
    }

    fn column_mapping_field_count(&self) -> (r: u64)
        ensures
            r == self.mapping_field_count(),
    {
        count_annotated_fields(&self.fields)
    }

    /// Each field whose physical name differs from its name, nested ones included,
    /// keyed by the name; a later field of the same name replaces an earlier one.
    fn get_logical_to_physical_mapping(&self) -> (r: StrMap<String>)
        ensures
            names_view(r) == insert_pairs(Map::empty(), physical_pairs_fields(self@)),
    {
        let mut mappings: StrMap<String> = StrMap::new();
        proof {
            assert(names_view(mappings) =~= Map::<Seq<char>, Seq<char>>::empty());
        }
        collect_mappings(&self.fields, &mut mappings);
        mappings
    }
}

} // verus!
