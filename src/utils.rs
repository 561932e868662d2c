//! Identifiers and sizing constants shared by the book engine.
use vstd::prelude::*;

verus! {

/// Initial number of order-id slots in the order index.
pub const INITIAL_ORDER_COUNT: usize = 1048576;

/// Number of books; a book id addresses this many slots directly.
pub const MAX_BOOKS: usize = 16384;

/// Level capacity reserved up front by the level pool.
pub const MAX_LEVELS: usize = 1048576;

/// Identifier of an instrument's book (the feed's stock locate).
#[derive(Clone, Copy, Debug, PartialEq, Eq, Structural, Hash, Default)]
pub struct BookId(pub u16);

} // verus!
