//! A single-file record store: fixed-width rows packed into one leaf page,
//! served through a page cache. The library decides what to read from and
//! write to the backing file; the caller moves the bytes.
pub mod error;
pub mod layout;
pub mod leaf;
pub mod pager;
pub mod persist;
pub mod row;
pub mod statement;
pub mod table;

pub use error::DbError;
pub use layout::{
    COLUMN_EMAIL_SIZE, COLUMN_USERNAME_SIZE, LEAF_NODE_CELL_SIZE, LEAF_NODE_HEADER_SIZE,
    LEAF_NODE_MAX_CELLS, LEAF_NODE_SPACE_FOR_CELLS, PAGE_SIZE, ROOT_PAGE_NUM, ROW_SIZE,
    TABLE_MAX_PAGES,
};
pub use leaf::{
    initialize_leaf_node, leaf_node_cell_offset, leaf_node_key, leaf_node_num_cells,
    leaf_node_value, set_leaf_node_num_cells,
};
pub use pager::{PageWrite, Pager};
pub use row::{deserialize_row, serialize_row, Row};
pub use statement::{
    do_meta_command, execute_statement, prepare_statement, ExecuteResult, MetaCommandResult,
    PrepareResult, Statement, StatementType,
};
pub use table::{db_close, db_open, leaf_node_insert, Cursor, Table};
