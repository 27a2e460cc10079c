//! Sizes and offsets of the on-disk format.
use vstd::prelude::*;

verus! {

/// Largest username, in bytes.
pub const COLUMN_USERNAME_SIZE: usize = 32;

/// Largest email address, in bytes.
pub const COLUMN_EMAIL_SIZE: usize = 255;

/// Size of a page: the unit of caching and of every disk transfer.
pub const PAGE_SIZE: usize = 4096;

/// Number of pages a table may address.
pub const TABLE_MAX_PAGES: usize = 100;

pub const ID_SIZE: usize = 4;
pub const USERNAME_SIZE: usize = COLUMN_USERNAME_SIZE;
pub const EMAIL_SIZE: usize = COLUMN_EMAIL_SIZE;
pub const ID_OFFSET: usize = 0;
pub const USERNAME_OFFSET: usize = ID_OFFSET + ID_SIZE;
pub const EMAIL_OFFSET: usize = USERNAME_OFFSET + USERNAME_SIZE;

/// Size of an encoded row.
pub const ROW_SIZE: usize = ID_SIZE + USERNAME_SIZE + EMAIL_SIZE;

/// The page that holds the table's single leaf.
pub const ROOT_PAGE_NUM: usize = 0;

// Leaf page header:
//   [0]     node kind   (1 byte)
//   [1]     is-root     (1 byte)
//   [2..6]  parent      (4 bytes, unused while the tree has one level)
//   [6..10] cell count  (4 bytes, little-endian)
//   [10..]  cells       (key, then encoded row)
pub const NODE_TYPE_SIZE: usize = 1;
pub const NODE_TYPE_OFFSET: usize = 0;
pub const IS_ROOT_SIZE: usize = 1;
pub const IS_ROOT_OFFSET: usize = NODE_TYPE_SIZE;
pub const PARENT_POINTER_SIZE: usize = 4;
pub const PARENT_POINTER_OFFSET: usize = IS_ROOT_OFFSET + IS_ROOT_SIZE;
pub const COMMON_NODE_HEADER_SIZE: usize = NODE_TYPE_SIZE + IS_ROOT_SIZE + PARENT_POINTER_SIZE;

pub const LEAF_NODE_NUM_CELLS_SIZE: usize = 4;
pub const LEAF_NODE_NUM_CELLS_OFFSET: usize = COMMON_NODE_HEADER_SIZE;
pub const LEAF_NODE_HEADER_SIZE: usize = COMMON_NODE_HEADER_SIZE + LEAF_NODE_NUM_CELLS_SIZE;

pub const LEAF_NODE_KEY_SIZE: usize = 4;
pub const LEAF_NODE_VALUE_OFFSET: usize = LEAF_NODE_KEY_SIZE;
pub const LEAF_NODE_VALUE_SIZE: usize = ROW_SIZE;
pub const LEAF_NODE_CELL_SIZE: usize = LEAF_NODE_KEY_SIZE + LEAF_NODE_VALUE_SIZE;
pub const LEAF_NODE_SPACE_FOR_CELLS: usize = PAGE_SIZE - LEAF_NODE_HEADER_SIZE;

/// How many cells fit in a leaf page.
pub const LEAF_NODE_MAX_CELLS: usize = LEAF_NODE_SPACE_FOR_CELLS / LEAF_NODE_CELL_SIZE;

/// Node-kind tag of a leaf page.
pub const NODE_KIND_LEAF: u8 = 1;

/// A leaf holds thirteen cells, and all of them fit in the page.
pub proof fn lemma_leaf_capacity()
    ensures
        LEAF_NODE_CELL_SIZE == 295,
        LEAF_NODE_MAX_CELLS == 13,
        LEAF_NODE_HEADER_SIZE + LEAF_NODE_MAX_CELLS * LEAF_NODE_CELL_SIZE <= PAGE_SIZE,
{
    assert(4086usize / 295usize == 13usize);
}

} // verus!
