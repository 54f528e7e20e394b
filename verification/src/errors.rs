use vstd::prelude::*;

use crate::constraints::KernelError;
use crate::schema::DataType;

verus! {

/// The errors of the table operations.
#[derive(Debug)]
pub enum DeltaTableError {
    /// A schema change would leave the table without columns.
    CannotDropAllColumns,
    /// A column's type cannot be changed safely to the requested type.
    UnsafeTypeChange { column: String, from: DataType, to: DataType },
    /// A new column cannot be merged into the schema: its type conflicts with the
    /// existing column of that name.
    SchemaMerge { column: String },
    /// A schema helper failed.
    Kernel(KernelError),
    /// The data written does not have the schema that the writer expects.
    SchemaMismatch,
}

} // verus!
