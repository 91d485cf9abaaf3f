use vstd::prelude::*;

verus! {

/// All errors that statement building and row reconstruction can report.
#[derive(Debug)]
pub enum Error {
    /// Two distinct node identities produced the same hash: the hash, the table name already
    /// recorded under it and the table name that collided with it.
    HashCollision(u64, String, String),
    /// A single-entity read returned no row.
    NoDatabaseRowResult,
    /// Assigning a suffix to a nested association would exceed the suffix domain.
    TooManyAssociatedNodes,
    /// Two nodes of one tree would share a name and a suffix, hence one SQL alias.
    DuplicateAlias,
    /// A value cannot be rendered as SQL text.
    SerializationFailure,
    /// A row lacks a column that reconstruction needs.
    ColumnNotFound,
    /// A row holds no joined row for the entity to build: its primary key is NULL.
    AbsentAssociation,
}

} // verus!
