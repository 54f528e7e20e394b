use vstd::prelude::*;

pub mod column_mapping;
pub mod column_mapping_builder;
pub mod commit;
pub mod constraints;
pub mod errors;
pub mod generated_columns;
pub mod json;
pub mod merge;
pub mod schema;
pub mod schema_adapter;
pub mod schema_evolution;
pub mod schema_match;
pub mod schema_ext;
pub mod strmap;
pub mod table;
pub mod text;
pub mod writer;

verus! {
} // verus!
