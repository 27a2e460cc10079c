//! Errors of the store.
use vstd::prelude::*;

verus! {

/// Why an operation on a table or its pager was refused.
#[derive(Debug, Clone, Copy, PartialEq, Eq, Structural)]
pub enum DbError {
    /// The backing file's length is not a whole number of pages.
    InvalidFileLength,
    /// A page number at or beyond the table's page limit was asked for.
    PageOutOfBounds,
    /// A page that lies within the file was not supplied whole.
    IncompletePage,
    /// A stored leaf page claims more cells than a leaf can hold.
    CorruptPage,
    /// The leaf page is full: the row was not inserted.
    TableFull,
}

} // verus!
