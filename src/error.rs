use crate::item::Column;
use vstd::prelude::*;

verus! {

/// Every failure of the model layer, classified.
#[derive(Debug, Clone, PartialEq, Eq)]
pub enum Error {
    /// The create or update field set is empty.
    Validation,
    /// No row of table `entity` has primary key `id`.
    EntityNotFound { entity: &'static str, id: i64 },
    /// The unique column `column` already holds the value.
    Duplicate { column: Column },
    /// An operator was requested on `column` that its type does not support.
    InvalidFilter { column: Column },
    /// A value could not be stored in `column`: its type does not fit.
    Mapping { column: Column },
    /// The primary key sequence has no value left.
    KeySpaceExhausted,
    /// An opaque failure of the storage backend.
    Backend { message: String },
}

} // verus!
